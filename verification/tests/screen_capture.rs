use abridge::numbers::{decimal_string, parse_u32};
use abridge::screen::{
    capture, render_capture, screenshot_base64, screenshot_path, HIERARCHY_CMD, SCREENCAP_CMD,
};
use abridge::text::{contains_str, trim_str};

#[test]
fn capture_with_base64() {
    let c = capture(b"PNG", true, 5, true, "text".to_string(), false, String::new());
    assert_eq!(c.image_base64.as_deref(), Some("UE5H"));
    assert!(c.saved_to.is_none());
    assert_eq!(c.ocr_text.as_deref(), Some("text"));
    assert!(c.hierarchy.is_none());
    assert_eq!(
        render_capture(&c),
        vec!["--- OCR Text ---".to_string(), "text".to_string()]
    );
}

#[test]
fn capture_saved_to_file() {
    let path = screenshot_path(1711843200123);
    assert_eq!(path, "/tmp/abridge_screenshot_1711843200123.png");
    let c = capture(b"PNG", false, 1711843200123, false, String::new(), true, "<xml/>".to_string());
    assert!(c.image_base64.is_none());
    assert_eq!(c.saved_to.as_deref(), Some(path.as_str()));
    assert!(c.ocr_text.is_none());
    assert_eq!(
        render_capture(&c),
        vec![
            format!("Screenshot saved to {path}"),
            "--- View Hierarchy ---".to_string(),
            "<xml/>".to_string(),
        ]
    );
}

#[test]
fn bare_capture_reports_size() {
    let c = capture(&[0u8; 10], true, 0, false, String::new(), false, String::new());
    assert_eq!(
        render_capture(&c),
        vec!["Screenshot captured (16 bytes base64). Use --output to save, --ocr for text, --hierarchy for layout.".to_string()]
    );
}

#[test]
fn screenshot_as_base64() {
    assert_eq!(screenshot_base64(b""), "");
    assert_eq!(screenshot_base64(b"M"), "TQ==");
    assert_eq!(screenshot_base64(b"Ma"), "TWE=");
    assert_eq!(screenshot_base64(b"Man"), "TWFu");
    assert_eq!(screenshot_base64(&[0xfb, 0xff]), "+/8=");
}

#[test]
fn device_commands() {
    assert_eq!(SCREENCAP_CMD, "screencap -p");
    assert_eq!(HIERARCHY_CMD, "uiautomator dump /dev/tty 2>/dev/null");
}

#[test]
fn decimal_text_and_back() {
    assert_eq!(decimal_string(0), "0");
    assert_eq!(decimal_string(907), "907");
    assert_eq!(decimal_string(u128::MAX), u128::MAX.to_string());
    for n in [0u32, 7, 10, 99, 65535, u32::MAX] {
        assert_eq!(parse_u32(&decimal_string(n as u128)), Some(n));
    }
    assert_eq!(parse_u32("+"), None);
    assert_eq!(parse_u32("0012"), Some(12));
    assert_eq!(parse_u32("1 2"), None);
}

#[test]
fn text_helpers() {
    assert_eq!(trim_str("\u{3000} a b \u{a0}"), "a b");
    assert!(contains_str("NetworkManager", "Manager"));
    assert!(contains_str("abc", ""));
    assert!(!contains_str("ab", "abc"));
}
