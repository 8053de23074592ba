use abridge::input::{
    clipboard_command, input_text_command, key_command, shell_quote, swipe_command, tap_command,
};
use abridge::mcp::{
    bool_from_string_or_bool, crash_screenshot_path, default_level, default_lines, input_reply,
    parse_coords, plan_input, saved_marker, FlagValue, InputAction, InputParams,
};

/// Reads field `v` of a JSON object the way the tool parameters read a flag.
fn decode_flag(json: &str) -> Result<bool, String> {
    let value: serde_json::Value = serde_json::from_str(json).unwrap();
    match &value["v"] {
        serde_json::Value::Bool(b) => bool_from_string_or_bool(FlagValue::Bool(*b)),
        serde_json::Value::String(s) => bool_from_string_or_bool(FlagValue::Text(s.clone())),
        other => Err(format!("invalid type: {other}")),
    }
}

#[test]
fn bool_deserialize_from_true() {
    let t = decode_flag(r#"{"v": true}"#).unwrap();
    assert!(t);
}

#[test]
fn bool_deserialize_from_false() {
    let t = decode_flag(r#"{"v": false}"#).unwrap();
    assert!(!t);
}

#[test]
fn bool_deserialize_from_string_true() {
    let t = decode_flag(r#"{"v": "true"}"#).unwrap();
    assert!(t);
}

#[test]
fn bool_deserialize_from_string_false() {
    let t = decode_flag(r#"{"v": "false"}"#).unwrap();
    assert!(!t);
}

#[test]
fn bool_deserialize_invalid_string_is_err() {
    assert!(decode_flag(r#"{"v": "yes"}"#).is_err());
    assert!(decode_flag(r#"{"v": "1"}"#).is_err());
}

#[test]
fn flag_error_names_the_text() {
    let e = bool_from_string_or_bool(FlagValue::Text("yes".to_string())).unwrap_err();
    assert_eq!(e, "expected true/false, got yes");
}

#[test]
fn logcat_defaults() {
    assert_eq!(default_level(), "verbose");
    assert_eq!(default_lines(), 50);
}

fn params(kind: &str, value: &str, duration: Option<u32>) -> InputParams {
    InputParams { input_type: kind.to_string(), value: value.to_string(), duration }
}

#[test]
fn coords_are_read_between_commas() {
    assert_eq!(parse_coords("540,1200"), Some(vec![540, 1200]));
    assert_eq!(parse_coords(" 540 , 1200 "), Some(vec![540, 1200]));
    assert_eq!(parse_coords("+5"), Some(vec![5]));
    assert_eq!(parse_coords("4294967295"), Some(vec![u32::MAX]));
    assert_eq!(parse_coords("1,x,3"), None);
    assert_eq!(parse_coords("-5"), None);
    assert_eq!(parse_coords("4294967296"), None);
    assert_eq!(parse_coords(""), None);
    assert_eq!(parse_coords("1,,2"), None);
}

#[test]
fn tap_needs_two_coordinates() {
    assert!(matches!(plan_input(&params("tap", "540,1200", None)), InputAction::Tap(540, 1200)));
    match plan_input(&params("tap", "540", None)) {
        InputAction::Reject(m) => assert_eq!(m, "Error: tap value must be 'x,y'"),
        _ => panic!("a tap with one coordinate is refused"),
    }
    match plan_input(&params("tap", "10,20,abc", None)) {
        InputAction::Reject(m) => assert_eq!(m, "Error: tap value must be 'x,y'"),
        _ => panic!("a tap value with a piece that is not a number is refused"),
    }
}

#[test]
fn swipe_needs_four_coordinates() {
    assert!(matches!(
        plan_input(&params("swipe", "540,1500,540,500", None)),
        InputAction::Swipe(540, 1500, 540, 500, 300)
    ));
    assert!(matches!(
        plan_input(&params("swipe", "1,2,3,4", Some(120))),
        InputAction::Swipe(1, 2, 3, 4, 120)
    ));
    match plan_input(&params("swipe", "1,2,x,3,4", None)) {
        InputAction::Reject(m) => assert_eq!(m, "Error: swipe value must be 'x1,y1,x2,y2'"),
        _ => panic!("a swipe value with a piece that is not a number is refused"),
    }
    match plan_input(&params("swipe", "1,2,3", None)) {
        InputAction::Reject(m) => assert_eq!(m, "Error: swipe value must be 'x1,y1,x2,y2'"),
        _ => panic!("a swipe with three coordinates is refused"),
    }
}

#[test]
fn text_key_clip_and_unknown_inputs() {
    match plan_input(&params("text", "hello world", None)) {
        InputAction::Text(t) => assert_eq!(t, "hello world"),
        _ => panic!("text input"),
    }
    match plan_input(&params("key", "home", None)) {
        InputAction::Key(k) => assert_eq!(k, "home"),
        _ => panic!("key input"),
    }
    match plan_input(&params("clip", "copied", None)) {
        InputAction::Clip(c) => assert_eq!(c, "copied"),
        _ => panic!("clip input"),
    }
    match plan_input(&params("scroll", "x", None)) {
        InputAction::Reject(m) => assert_eq!(m, "Unknown input type: scroll"),
        _ => panic!("unknown input"),
    }
}

#[test]
fn input_replies() {
    let p = params("tap", "540,1200", None);
    assert_eq!(input_reply(&p, Ok(())), "OK: tap '540,1200'");
    assert_eq!(input_reply(&p, Err("no device".to_string())), "Error: no device");
}

#[test]
fn crash_screenshot_names() {
    assert_eq!(crash_screenshot_path(1711843200123), "/tmp/abridge_crash_1711843200123.png");
    assert_eq!(saved_marker("/tmp/x.png"), "saved:/tmp/x.png");
}

#[test]
fn input_commands() {
    assert_eq!(shell_quote("it's"), "'it'\\''s'");
    assert_eq!(input_text_command("hello world"), "input text 'hello%sworld'");
    assert_eq!(tap_command(540, 1200), "input tap 540 1200");
    assert_eq!(swipe_command(540, 1500, 540, 500, 300), "input swipe 540 1500 540 500 300");
    assert_eq!(key_command("Home"), "input keyevent 'KEYCODE_HOME'");
    assert_eq!(key_command("KEYCODE_VOLUME_UP"), "input keyevent 'KEYCODE_VOLUME_UP'");
    assert_eq!(clipboard_command("copied text"), "cmd clipboard set-text 'copied text'");
}
