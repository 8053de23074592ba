use abridge::logcat::{
    collect_entries, fetch, fetch_resume, parse_level_filter, parse_logcat_line, render_log,
    FetchStage, FetchStep, LogcatError,
};

#[test]
fn threadtime_line_is_split_into_columns() {
    let e = parse_logcat_line("03-31 00:12:34.567  1234  5678 I Tag     : message").unwrap();
    assert_eq!(e.timestamp, "03-31 00:12:34.567");
    assert_eq!(e.pid, "1234");
    assert_eq!(e.tid, "5678");
    assert_eq!(e.level, "I");
    assert_eq!(e.tag, "Tag");
    assert_eq!(e.message, "message");
}

#[test]
fn message_keeps_later_separators() {
    let e = parse_logcat_line("  03-31 00:12:34.567 1 2 E Net: failed: timeout  ").unwrap();
    assert_eq!(e.tag, "Net");
    assert_eq!(e.message, "failed: timeout");
}

#[test]
fn five_words_leave_the_tag_empty() {
    let e = parse_logcat_line("03-31 00:12:34.567 1 2 E : no tag").unwrap();
    assert_eq!(e.level, "E");
    assert_eq!(e.tag, "");
    assert_eq!(e.message, "no tag");
}

#[test]
fn blank_and_separator_lines_are_dropped() {
    assert!(parse_logcat_line("").is_none());
    assert!(parse_logcat_line("   \t ").is_none());
    assert!(parse_logcat_line("--------- beginning of main").is_none());
}

#[test]
fn other_lines_are_kept_whole() {
    let e = parse_logcat_line("  hello world  ").unwrap();
    assert_eq!(e.message, "hello world");
    assert_eq!(e.timestamp, "");
    assert_eq!(e.tag, "");
    let e = parse_logcat_line("a b c d e f g").unwrap();
    assert_eq!(e.message, "a b c d e f g");
    assert_eq!(e.pid, "");
    let e = parse_logcat_line("a b c: d e f").unwrap();
    assert_eq!(e.message, "a b c: d e f");
    assert_eq!(e.level, "");
}

#[test]
fn level_names_select_filters() {
    assert_eq!(parse_level_filter("verbose"), "*:V");
    assert_eq!(parse_level_filter("d"), "*:D");
    assert_eq!(parse_level_filter("Info"), "*:I");
    assert_eq!(parse_level_filter("w"), "*:W");
    assert_eq!(parse_level_filter("ERROR"), "*:E");
    assert_eq!(parse_level_filter("fatal"), "*:F");
    assert_eq!(parse_level_filter("loud"), "*:V");
}

const DUMP: &str = "--------- beginning of main\n\
03-31 00:12:34.567  1234  5678 I ActivityManager: Start proc\r\n\
03-31 00:12:35.000  1234  5679 E NetworkManager: connect failed\n\
plain text\n";

#[test]
fn dump_is_parsed_line_by_line() {
    let out = collect_entries(DUMP, None);
    assert_eq!(out.total, 3);
    assert_eq!(out.entries.len(), 3);
    assert_eq!(out.entries[0].tag, "ActivityManager");
    assert_eq!(out.entries[0].message, "Start proc");
    assert_eq!(out.entries[1].level, "E");
    assert_eq!(out.entries[2].message, "plain text");
}

#[test]
fn dump_is_filtered_by_tag() {
    let out = collect_entries(DUMP, Some("Network"));
    assert_eq!(out.total, 1);
    assert_eq!(out.entries[0].tag, "NetworkManager");
    let none = collect_entries(DUMP, Some("Nothing"));
    assert_eq!(none.total, 0);
    let empty = collect_entries("", None);
    assert_eq!(empty.total, 0);
}

#[test]
fn text_form_of_entries() {
    let out = collect_entries(DUMP, None);
    let lines = render_log(&out);
    assert_eq!(
        lines,
        vec![
            "03-31 00:12:34.567 1234 I/ActivityManager: Start proc".to_string(),
            "03-31 00:12:35.000 1234 E/NetworkManager: connect failed".to_string(),
            "plain text".to_string(),
            "--- 3 entries ---".to_string(),
        ]
    );
}

#[test]
fn query_without_app_asks_for_the_log() {
    match fetch(None, None, "debug", 50) {
        FetchStep::Run { stage: FetchStage::AwaitLog { tag }, command } => {
            assert!(tag.is_none());
            assert_eq!(command, "logcat -d -v threadtime *:D -t 50");
        }
        _ => panic!("the log is asked for"),
    }
}

#[test]
fn query_for_app_looks_up_its_pid() {
    let step = fetch(Some("com.myapp"), Some("Net"), "warn", 20);
    let stage = match step {
        FetchStep::Run { stage, command } => {
            assert_eq!(command, "pidof com.myapp");
            stage
        }
        _ => panic!("the pid is asked for"),
    };
    match fetch_resume(stage, " 4321\n") {
        FetchStep::Run { stage: FetchStage::AwaitLog { tag }, command } => {
            assert_eq!(tag.as_deref(), Some("Net"));
            assert_eq!(command, "logcat -d -v threadtime --pid=4321 *:W -t 20");
            match fetch_resume(FetchStage::AwaitLog { tag }, DUMP) {
                FetchStep::Done(Ok(out)) => {
                    assert_eq!(out.total, 1);
                    assert_eq!(out.entries[0].message, "connect failed");
                }
                _ => panic!("the query is answered"),
            }
        }
        _ => panic!("the log is asked for"),
    }
}

#[test]
fn query_for_stopped_app_is_refused() {
    let stage = match fetch(Some("com.myapp"), None, "info", 50) {
        FetchStep::Run { stage, .. } => stage,
        _ => panic!("the pid is asked for"),
    };
    match fetch_resume(stage, "  \n") {
        FetchStep::Done(Err(e)) => {
            assert!(matches!(&e, LogcatError::AppNotRunning(p) if p == "com.myapp"));
            assert_eq!(e.message(), "App com.myapp is not running");
        }
        _ => panic!("the query is refused"),
    }
}
