use ehcpi_rs::matcher::{get_cmd, EventKind, RawEvent};
use ehcpi_rs::rules::parse_rules;

fn chars(s: &str) -> Vec<char> {
    s.chars().collect()
}

fn string_of(v: &Vec<char>) -> String {
    v.iter().collect()
}

#[test]
fn key_press_only_triggers() {
    let table = parse_rules(&vec![chars("KEY_MUTE do amixer set Master toggle")]).unwrap();
    let press = RawEvent { kind: EventKind::Key, code: 113, value: 1 };
    let release = RawEvent { kind: EventKind::Key, code: 113, value: 0 };
    let repeat = RawEvent { kind: EventKind::Key, code: 113, value: 2 };
    assert_eq!(
        string_of(get_cmd(&press, &table).unwrap()),
        "amixer set Master toggle "
    );
    assert!(get_cmd(&release, &table).is_none());
    assert!(get_cmd(&repeat, &table).is_none());
}

#[test]
fn switch_matches_exact_state_only() {
    let table = parse_rules(&vec![chars("SW_LID 0 do xrandr --output eDP1 --auto")]).unwrap();
    let closed = RawEvent { kind: EventKind::Switch, code: 0, value: 0 };
    let open = RawEvent { kind: EventKind::Switch, code: 0, value: 1 };
    assert_eq!(
        string_of(get_cmd(&closed, &table).unwrap()),
        "xrandr --output eDP1 --auto "
    );
    assert!(get_cmd(&open, &table).is_none());
}

#[test]
fn unmatched_key_code_misses() {
    let table = parse_rules(&vec![chars("KEY_MUTE do x")]).unwrap();
    let other = RawEvent { kind: EventKind::Key, code: 114, value: 1 };
    assert!(get_cmd(&other, &table).is_none());
}

#[test]
fn other_category_never_matches() {
    let table = parse_rules(&vec![chars("KEY_MUTE do x")]).unwrap();
    let other = RawEvent { kind: EventKind::Other, code: 113, value: 1 };
    assert!(get_cmd(&other, &table).is_none());
}

#[test]
fn matching_is_idempotent() {
    let table = parse_rules(&vec![
        chars("KEY_MUTE do x"),
        chars("SW_LID 0 do y"),
    ])
    .unwrap();
    let events = [
        RawEvent { kind: EventKind::Key, code: 113, value: 1 },
        RawEvent { kind: EventKind::Key, code: 113, value: 0 },
        RawEvent { kind: EventKind::Switch, code: 0, value: 0 },
        RawEvent { kind: EventKind::Switch, code: 0, value: 1 },
        RawEvent { kind: EventKind::Other, code: 7, value: 1 },
    ];
    for ev in events.iter() {
        let first = get_cmd(ev, &table).map(string_of);
        let second = get_cmd(ev, &table).map(string_of);
        assert_eq!(first, second);
    }
}
