use abridge::adb::shell_str;
use abridge::state::{
    current_activity, display_info, fragment_backstack, get_crash_report, get_state, memory_info,
    render_crash, render_state, resumed_activities,
};

#[test]
fn single_values_are_trimmed() {
    assert_eq!(
        current_activity("  mResumedActivity: ActivityRecord{1 u0 com.app/.Main t5}\n"),
        "mResumedActivity: ActivityRecord{1 u0 com.app/.Main t5}"
    );
    assert_eq!(fragment_backstack("\n  Active Fragments:\n"), "Active Fragments:");
    assert_eq!(display_info(" mBaseDisplayInfo=x "), "mBaseDisplayInfo=x");
}

#[test]
fn resumed_activities_one_per_line() {
    let v = resumed_activities("  mResumedActivity: A\n    ResumedActivity: B\r\n");
    assert_eq!(v, vec!["mResumedActivity: A".to_string(), "ResumedActivity: B".to_string()]);
    assert!(resumed_activities("").is_empty());
}

#[test]
fn memory_counters_missing_lines_are_unknown() {
    let m = memory_info("MemTotal:  3800000 kB\nMemFree:   120000 kB\n");
    assert_eq!(m.total_ram, "MemTotal:  3800000 kB");
    assert_eq!(m.free_ram, "MemFree:   120000 kB");
    assert_eq!(m.used_ram, "unknown");
    let none = memory_info("");
    assert_eq!(none.total_ram, "unknown");
}

#[test]
fn state_from_outputs() {
    let st = get_state(" act \n", "a\nb\n", "", "disp\n", Some("t\nf\nu\n"));
    assert_eq!(st.current_activity, "act");
    assert_eq!(st.resumed_activities, vec!["a".to_string(), "b".to_string()]);
    assert_eq!(st.fragment_backstack, "");
    assert_eq!(st.display_info, "disp");
    let m = st.memory.as_ref().unwrap();
    assert_eq!(m.used_ram, "u");
    assert_eq!(
        render_state(&st),
        vec![
            "Current Activity: act".to_string(),
            "\nResumed Activities:".to_string(),
            "  a".to_string(),
            "  b".to_string(),
            "\nDisplay: disp".to_string(),
            "\nMemory:".to_string(),
            "  t".to_string(),
            "  f".to_string(),
            "  u".to_string(),
        ]
    );
    let bare = get_state("x", "", "stack", "d", None);
    assert!(bare.memory.is_none());
    assert_eq!(
        render_state(&bare),
        vec![
            "Current Activity: x".to_string(),
            "\nFragment Backstack:\nstack".to_string(),
            "\nDisplay: d".to_string(),
        ]
    );
}

#[test]
fn crash_report_fallbacks() {
    let r = get_crash_report(true, None, None, None, None);
    assert_eq!(r.stacktrace, "No crash log available");
    assert_eq!(r.current_activity, "unknown");
    assert!(r.recent_logcat.is_empty());
    assert!(r.screenshot_base64.is_none());
}

#[test]
fn crash_report_from_outputs() {
    let png: &[u8] = &[1, 2, 3, 4];
    let r = get_crash_report(
        true,
        Some("FATAL EXCEPTION\n".to_string()),
        Some(" act \n"),
        Some("E one\nE two\n"),
        Some(png),
    );
    assert_eq!(r.stacktrace, "FATAL EXCEPTION\n");
    assert_eq!(r.current_activity, "act");
    assert_eq!(r.recent_logcat, vec!["E one".to_string(), "E two".to_string()]);
    assert_eq!(r.screenshot_base64.as_deref(), Some("AQIDBA=="));
    assert_eq!(
        render_crash(&r),
        vec![
            "=== Crash Report ===\n".to_string(),
            "Current Activity: act\n".to_string(),
            "--- Crash Log ---".to_string(),
            "FATAL EXCEPTION\n\n".to_string(),
            "--- Recent Errors (2) ---".to_string(),
            "  E one".to_string(),
            "  E two".to_string(),
            "\n[Screenshot captured]".to_string(),
        ]
    );
    let without = get_crash_report(false, None, None, None, Some(png));
    assert!(without.screenshot_base64.is_none());
}

#[test]
fn shell_output_is_decoded() {
    assert_eq!(shell_str("héllo".as_bytes()), "héllo");
    assert_eq!(shell_str(&[0x66, 0xff, 0x6f]), "f\u{FFFD}o");
}

#[test]
fn bare_carriage_return_ends_no_line() {
    let r = get_crash_report(false, None, None, Some("a\r"), None);
    assert_eq!(r.recent_logcat, vec!["a\r".to_string()]);
    let r = get_crash_report(false, None, None, Some("a\r\nb\r\n"), None);
    assert_eq!(r.recent_logcat, vec!["a".to_string(), "b".to_string()]);
    let r = get_crash_report(false, None, None, Some("a\n\n"), None);
    assert_eq!(r.recent_logcat, vec!["a".to_string(), "".to_string()]);
}
