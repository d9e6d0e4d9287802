use ehcpi_rs::rules::{parse_rules, EhcpiEvent};
use ehcpi_rs::text::parse_i32;

fn chars(s: &str) -> Vec<char> {
    s.chars().collect()
}

fn string_of(v: &Vec<char>) -> String {
    v.iter().collect()
}

#[test]
fn test_rules() {
    let lines = vec![
        chars("KEY_MUTE do something"),
        chars("SW_LID 0 do something else"),
    ];
    let table = parse_rules(&lines).unwrap();
    assert_eq!(table.len(), 2);
    let key_cmd = table
        .get(&EhcpiEvent::Key(evdev::KeyCode::KEY_MUTE.0))
        .unwrap();
    assert_eq!(string_of(key_cmd), "something ");
    let sw_cmd = table
        .get(&EhcpiEvent::Switch(evdev::SwitchCode::SW_LID.0, 0))
        .unwrap();
    assert_eq!(string_of(sw_cmd), "something else ");
}

#[test]
fn key_rule_maps_to_evdev_code() {
    let lines = vec![chars("KEY_MUTE do amixer set Master toggle")];
    let table = parse_rules(&lines).unwrap();
    // KEY_MUTE is key code 113 in the kernel's key table.
    let cmd = table.get(&EhcpiEvent::Key(113)).unwrap();
    assert_eq!(string_of(cmd), "amixer set Master toggle ");
    assert!(table.get(&EhcpiEvent::Key(114)).is_none());
}

#[test]
fn switch_rule_keeps_state_value() {
    let lines = vec![chars("SW_LID 1 do echo opened")];
    let table = parse_rules(&lines).unwrap();
    assert!(table.get(&EhcpiEvent::Switch(0, 1)).is_some());
    assert!(table.get(&EhcpiEvent::Switch(0, 0)).is_none());
}

#[test]
fn negative_switch_state_parses() {
    let lines = vec![chars("SW_LID -1 do echo odd")];
    let table = parse_rules(&lines).unwrap();
    assert!(table.get(&EhcpiEvent::Switch(0, -1)).is_some());
}

#[test]
fn extra_whitespace_is_tolerated() {
    let lines = vec![chars("  KEY_MUTE \t do  a   b ")];
    let table = parse_rules(&lines).unwrap();
    let cmd = table.get(&EhcpiEvent::Key(113)).unwrap();
    assert_eq!(string_of(cmd), "a b ");
}

#[test]
fn duplicate_trigger_last_wins() {
    let lines = vec![chars("KEY_MUTE do first"), chars("KEY_MUTE do second")];
    let table = parse_rules(&lines).unwrap();
    let cmd = table.get(&EhcpiEvent::Key(113)).unwrap();
    assert_eq!(string_of(cmd), "second ");
}

#[test]
fn unknown_token_fails() {
    let lines = vec![chars("FOO do bar")];
    assert!(parse_rules(&lines).is_err());
}

#[test]
fn unknown_key_name_fails() {
    let lines = vec![chars("KEY_NOT_A_REAL_KEY do bar")];
    assert!(parse_rules(&lines).is_err());
}

#[test]
fn unknown_switch_name_fails() {
    let lines = vec![chars("SW_NOT_A_REAL_SWITCH 0 do bar")];
    assert!(parse_rules(&lines).is_err());
}

#[test]
fn one_bad_line_fails_whole_parse() {
    let lines = vec![chars("KEY_MUTE do fine"), chars("FOO do bar")];
    assert!(parse_rules(&lines).is_err());
}

#[test]
fn missing_do_fails() {
    let lines = vec![chars("KEY_MUTE foo bar")];
    assert!(parse_rules(&lines).is_err());
}

#[test]
fn empty_command_fails() {
    let lines = vec![chars("KEY_MUTE do")];
    assert!(parse_rules(&lines).is_err());
}

#[test]
fn empty_switch_command_fails() {
    let lines = vec![chars("SW_LID 0 do")];
    assert!(parse_rules(&lines).is_err());
}

#[test]
fn switch_without_state_fails() {
    let lines = vec![chars("SW_LID do bar")];
    assert!(parse_rules(&lines).is_err());
}

#[test]
fn switch_with_bad_state_fails() {
    let lines = vec![chars("SW_LID zero do bar")];
    assert!(parse_rules(&lines).is_err());
}

#[test]
fn blank_line_fails() {
    let lines = vec![chars("")];
    assert!(parse_rules(&lines).is_err());
}

#[test]
fn no_lines_gives_empty_table() {
    let lines: Vec<Vec<char>> = Vec::new();
    let table = parse_rules(&lines).unwrap();
    assert_eq!(table.len(), 0);
}

#[test]
fn parse_i32_accepts_plain_and_signed() {
    assert_eq!(parse_i32(&chars("0")), Some(0));
    assert_eq!(parse_i32(&chars("+17")), Some(17));
    assert_eq!(parse_i32(&chars("-5")), Some(-5));
    assert_eq!(parse_i32(&chars("0012")), Some(12));
    assert_eq!(parse_i32(&chars("2147483647")), Some(2147483647));
    assert_eq!(parse_i32(&chars("-2147483648")), Some(-2147483648));
}

#[test]
fn parse_i32_rejects_junk_and_overflow() {
    assert_eq!(parse_i32(&chars("")), None);
    assert_eq!(parse_i32(&chars("-")), None);
    assert_eq!(parse_i32(&chars("+")), None);
    assert_eq!(parse_i32(&chars("1x")), None);
    assert_eq!(parse_i32(&chars("x1")), None);
    assert_eq!(parse_i32(&chars("2147483648")), None);
    assert_eq!(parse_i32(&chars("-2147483649")), None);
    assert_eq!(parse_i32(&chars("99999999999999999999")), None);
}
