use ehcpi_rs::devices::{device_matches, is_event_path, select_devices, DeviceCaps};
use ehcpi_rs::rules::parse_rules;
use ehcpi_rs::run;

fn chars(s: &str) -> Vec<char> {
    s.chars().collect()
}

#[test]
fn device_filtering_keeps_only_capable_devices() {
    let table = parse_rules(&vec![
        chars("KEY_MUTE do x"),
        chars("SW_LID 0 do y"),
    ])
    .unwrap();
    let devs = vec![
        DeviceCaps { keys: vec![113, 7], switches: vec![] },
        DeviceCaps { keys: vec![], switches: vec![] },
        DeviceCaps { keys: vec![1, 2], switches: vec![5] },
        DeviceCaps { keys: vec![], switches: vec![0] },
        DeviceCaps { keys: vec![113], switches: vec![0] },
    ];
    assert!(device_matches(&devs[0], &table));
    assert!(!device_matches(&devs[1], &table));
    assert!(!device_matches(&devs[2], &table));
    assert!(device_matches(&devs[3], &table));
    assert!(device_matches(&devs[4], &table));
    let sel = select_devices(&devs, &table);
    assert_eq!(sel, vec![0, 3, 4]);
}

#[test]
fn switch_capability_ignores_expected_state() {
    // The rule asks for state 1; capability matching only checks the type.
    let table = parse_rules(&vec![chars("SW_LID 1 do y")]).unwrap();
    let dev = DeviceCaps { keys: vec![], switches: vec![0] };
    assert!(device_matches(&dev, &table));
}

#[test]
fn empty_table_selects_nothing() {
    let table = parse_rules(&Vec::new()).unwrap();
    let devs = vec![DeviceCaps { keys: vec![113], switches: vec![0] }];
    let sel = select_devices(&devs, &table);
    assert!(sel.is_empty());
}

#[test]
fn event_paths_are_recognized() {
    assert!(is_event_path(&chars("/dev/input/event0")));
    assert!(is_event_path(&chars("/dev/input/event17")));
    assert!(is_event_path(&chars("/dev/input/event")));
    assert!(!is_event_path(&chars("/dev/input/mouse0")));
    assert!(!is_event_path(&chars("/dev/input/even")));
    assert!(!is_event_path(&chars("")));
}

#[test]
fn run_builds_table_and_selection() {
    let lines = vec![
        chars("KEY_MUTE do amixer set Master toggle"),
        chars("SW_LID 0 do xrandr --output eDP1 --auto"),
    ];
    let devs = vec![
        DeviceCaps { keys: vec![], switches: vec![] },
        DeviceCaps { keys: vec![113], switches: vec![] },
    ];
    let (table, sel) = run(&lines, &devs).unwrap();
    assert_eq!(table.len(), 2);
    assert_eq!(sel, vec![1]);
}

#[test]
fn run_fails_on_malformed_source() {
    let lines = vec![chars("KEY_MUTE do ok"), chars("nonsense")];
    let devs = vec![DeviceCaps { keys: vec![113], switches: vec![] }];
    assert!(run(&lines, &devs).is_err());
}
