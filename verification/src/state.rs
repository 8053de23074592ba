use vstd::prelude::*;
use crate::encoding::{base64_standard, encode_base64, encoded_len_fits_spec};
use crate::numbers::{decimal, decimal_string};
use crate::text::{indented, lines, lines_of, push_indented, string_views, trim, trim_str};

verus! {

/// The shell command that prints the resumed activity.
pub const CURRENT_ACTIVITY_CMD: &'static str = "dumpsys activity activities | grep mResumedActivity";

/// The shell command that prints the resumed activities.
pub const RESUMED_ACTIVITIES_CMD: &'static str =
    "dumpsys activity activities | grep -E 'mResumedActivity|ResumedActivity'";

/// The shell command that prints the fragment manager state of the foreground app.
pub const FRAGMENT_BACKSTACK_CMD: &'static str = "dumpsys activity top | grep -A 20 'FragmentManager'";

/// The shell command that prints the display description.
pub const DISPLAY_INFO_CMD: &'static str = "dumpsys display | grep -E 'mBaseDisplayInfo|DisplayDeviceInfo'";

/// The shell command that prints the first memory counters.
pub const MEMORY_INFO_CMD: &'static str = "cat /proc/meminfo | head -3";

/// The shell command that dumps the crash log buffer.
pub const CRASH_LOG_CMD: &'static str = "logcat -b crash -d -t 50";

/// The shell command that dumps recent errors.
pub const RECENT_ERRORS_CMD: &'static str = "logcat -d -t 30 *:E";

/// The first three lines of the memory counters.
pub struct MemoryInfo {
    pub total_ram: String,
    pub free_ram: String,
    pub used_ram: String,
}

/// A snapshot of what the device shows.
pub struct DeviceState {
    pub current_activity: String,
    pub resumed_activities: Vec<String>,
    pub fragment_backstack: String,
    pub display_info: String,
    pub memory: Option<MemoryInfo>,
}

/// What is known of the last crash.
pub struct CrashReport {
    pub stacktrace: String,
    pub current_activity: String,
    pub recent_logcat: Vec<String>,
    pub screenshot_base64: Option<String>,
}

/// The focused activity, from the output of [`CURRENT_ACTIVITY_CMD`].
pub fn current_activity(output: &str) -> (s: String)
    ensures
        s@ == trim(output@),
{
    trim_str(output)
}

/// The resumed activities, one per line of the output of [`RESUMED_ACTIVITIES_CMD`], trimmed.
pub fn resumed_activities(output: &str) -> (v: Vec<String>)
    ensures
        string_views(v@) == lines(output@).map_values(|l: Seq<char>| trim(l)),
{
    lines_of(output, true)
}

/// The fragment backstack, from the output of [`FRAGMENT_BACKSTACK_CMD`].
pub fn fragment_backstack(output: &str) -> (s: String)
    ensures
        s@ == trim(output@),
{
    trim_str(output)
}

/// The display description, from the output of [`DISPLAY_INFO_CMD`].
pub fn display_info(output: &str) -> (s: String)
    ensures
        s@ == trim(output@),
{
    trim_str(output)
}

/// Line `k` of `ls`, trimmed, or `unknown` where there is no such line.
pub open spec fn line_or_unknown(ls: Seq<Seq<char>>, k: int) -> Seq<char> {
    if k < ls.len() {
        trim(ls[k])
    } else {
        "unknown"@
    }
}

/// The memory counters: the first three lines of the output of
/// [`MEMORY_INFO_CMD`], trimmed, each `unknown` where the line is missing.
pub fn memory_info(output: &str) -> (m: MemoryInfo)
    ensures
        m.total_ram@ == line_or_unknown(lines(output@), 0),
        m.free_ram@ == line_or_unknown(lines(output@), 1),
        m.used_ram@ == line_or_unknown(lines(output@), 2),
{
    let ls = lines_of(output, true);
    let ghost spec_lines = lines(output@);
    assert(string_views(ls@).len() == ls@.len());
    assert(ls@.len() == spec_lines.len());
    let total_ram = if ls.len() > 0 {
        assert(ls@[0]@ == string_views(ls@)[0]);
        ls[0].clone()
    } else {
        "unknown".to_owned()
    };
    let free_ram = if ls.len() > 1 {
        assert(ls@[1]@ == string_views(ls@)[1]);
        ls[1].clone()
    } else {
        "unknown".to_owned()
    };
    let used_ram = if ls.len() > 2 {
        assert(ls@[2]@ == string_views(ls@)[2]);
        ls[2].clone()
    } else {
        "unknown".to_owned()
    };
    MemoryInfo { total_ram, free_ram, used_ram }
}

/// The device state, from the outputs of [`CURRENT_ACTIVITY_CMD`],
/// [`RESUMED_ACTIVITIES_CMD`], [`FRAGMENT_BACKSTACK_CMD`], [`DISPLAY_INFO_CMD`]
/// and, when memory is asked for, [`MEMORY_INFO_CMD`].
pub fn get_state(
    activity_output: &str,
    resumed_output: &str,
    backstack_output: &str,
    display_output: &str,
    memory_output: Option<&str>,
) -> (st: DeviceState)
    ensures
        st.current_activity@ == trim(activity_output@),
        string_views(st.resumed_activities@) == lines(resumed_output@).map_values(
            |l: Seq<char>| trim(l),
        ),
        st.fragment_backstack@ == trim(backstack_output@),
        st.display_info@ == trim(display_output@),
        match memory_output {
            Some(out) => st.memory matches Some(m) && m.total_ram@ == line_or_unknown(lines(out@), 0)
                && m.free_ram@ == line_or_unknown(lines(out@), 1) && m.used_ram@ == line_or_unknown(
                lines(out@),
                2,
            ),
            None => st.memory is None,
        },
{
    let memory = match memory_output {
        Some(out) => Some(memory_info(out)),
        None => None,
    };
    DeviceState {
        current_activity: current_activity(activity_output),
        resumed_activities: resumed_activities(resumed_output),
        fragment_backstack: fragment_backstack(backstack_output),
        display_info: display_info(display_output),
        memory,
    }
}

/// The crash report. Each argument is what the device gave, or `None` where
/// reading it failed: the crash log (output of [`CRASH_LOG_CMD`]), the output of
/// [`CURRENT_ACTIVITY_CMD`], the output of [`RECENT_ERRORS_CMD`] and the
/// screenshot. A missing crash log reads `No crash log available`, a missing
/// activity `unknown`, and missing recent errors give no lines; the screenshot is
/// attached, Base64-encoded, only when it was asked for and taken.
pub fn get_crash_report(
    include_screenshot: bool,
    crash_log: Option<String>,
    activity_output: Option<&str>,
    recent_output: Option<&str>,
    screenshot: Option<&[u8]>,
) -> (r: CrashReport)
    requires
        screenshot matches Some(png) ==> encoded_len_fits_spec(png@.len()),
    ensures
        r.stacktrace@ == match crash_log {
            Some(log) => log@,
            None => "No crash log available"@,
        },
        r.current_activity@ == match activity_output {
            Some(out) => trim(out@),
            None => "unknown"@,
        },
        match recent_output {
            Some(out) => string_views(r.recent_logcat@) == lines(out@),
            None => r.recent_logcat@.len() == 0,
        },
        match screenshot {
            Some(png) if include_screenshot => r.screenshot_base64 matches Some(b) && b@
                == base64_standard(png@),
            _ => r.screenshot_base64 is None,
        },
{
    let stacktrace = match crash_log {
        Some(log) => log,
        None => "No crash log available".to_owned(),
    };
    let current = match activity_output {
        Some(out) => current_activity(out),
        None => "unknown".to_owned(),
    };
    let recent_logcat = match recent_output {
        Some(out) => lines_of(out, false),
        None => Vec::new(),
    };
    let screenshot_base64 = if include_screenshot {
        match screenshot {
            Some(png) => Some(encode_base64(png)),
            None => None,
        }
    } else {
        None
    };
    CrashReport { stacktrace, current_activity: current, recent_logcat, screenshot_base64 }
}

// ---------------------------------------------------------------------------
// Text form
// ---------------------------------------------------------------------------

/// The text form of the memory counters, if there are any.
pub open spec fn memory_text(memory: Option<MemoryInfo>) -> Seq<Seq<char>> {
    match memory {
        Some(m) => seq!["\nMemory:"@, "  "@ + m.total_ram@, "  "@ + m.free_ram@, "  "@ + m.used_ram@],
        None => seq![],
    }
}

/// The text form of a device state: the focused activity; the resumed
/// activities and the fragment backstack, each when there is one; the display;
/// and the memory counters when they were read.
pub open spec fn state_text(st: DeviceState) -> Seq<Seq<char>> {
    let resumed = string_views(st.resumed_activities@);
    seq!["Current Activity: "@ + st.current_activity@] + if resumed.len() > 0 {
        seq!["\nResumed Activities:"@] + indented(resumed)
    } else {
        seq![]
    } + if st.fragment_backstack@.len() > 0 {
        seq!["\nFragment Backstack:\n"@ + st.fragment_backstack@]
    } else {
        seq![]
    } + seq!["\nDisplay: "@ + st.display_info@] + memory_text(st.memory)
}

/// The lines that show a device state in text form.
pub fn render_state(st: &DeviceState) -> (lines: Vec<String>)
    ensures
        string_views(lines@) == state_text(*st),
{
    let mut lines: Vec<String> = Vec::new();
    let mut l = "Current Activity: ".to_owned();
    l.append(st.current_activity.as_str());
    lines.push(l);
    let ghost p0 = string_views(lines@);
    assert(p0 =~= seq!["Current Activity: "@ + st.current_activity@]);
    if st.resumed_activities.len() > 0 {
        lines.push("\nResumed Activities:".to_owned());
        push_indented(&mut lines, &st.resumed_activities);
    }
    let ghost resumed = string_views(st.resumed_activities@);
    let ghost p1 = string_views(lines@);
    assert(p1 =~= p0 + if resumed.len() > 0 {
        seq!["\nResumed Activities:"@] + indented(resumed)
    } else {
        seq![]
    });
    if !st.fragment_backstack.as_str().is_empty() {
        let mut l = "\nFragment Backstack:\n".to_owned();
        l.append(st.fragment_backstack.as_str());
        lines.push(l);
    }
    let ghost p2 = string_views(lines@);
    assert(p2 =~= p1 + if st.fragment_backstack@.len() > 0 {
        seq!["\nFragment Backstack:\n"@ + st.fragment_backstack@]
    } else {
        seq![]
    });
    let mut d = "\nDisplay: ".to_owned();
    d.append(st.display_info.as_str());
    lines.push(d);
    let ghost p3 = string_views(lines@);
    assert(p3 =~= p2 + seq!["\nDisplay: "@ + st.display_info@]);
    match &st.memory {
        Some(m) => {
            lines.push("\nMemory:".to_owned());
            let mut t = "  ".to_owned();
            t.append(m.total_ram.as_str());
            lines.push(t);
            let mut f = "  ".to_owned();
            f.append(m.free_ram.as_str());
            lines.push(f);
            let mut u = "  ".to_owned();
            u.append(m.used_ram.as_str());
            lines.push(u);
        },
        None => {},
    }
    assert(string_views(lines@) =~= p3 + memory_text(st.memory));
    lines
}

/// The text form of a state shows the fragment backstack, under its heading,
/// exactly when there is one, whatever else the state holds.
pub proof fn lemma_state_text_backstack(st: DeviceState)
    ensures
        state_text(st).contains("\nFragment Backstack:\n"@ + st.fragment_backstack@) <==> st.fragment_backstack@.len() > 0,
{
    reveal_strlit("Current Activity: ");
    reveal_strlit("\nResumed Activities:");
    reveal_strlit("\nFragment Backstack:\n");
    reveal_strlit("\nDisplay: ");
    reveal_strlit("\nMemory:");
    reveal_strlit("  ");
    let s = state_text(st);
    let target = "\nFragment Backstack:\n"@ + st.fragment_backstack@;
    let resumed = string_views(st.resumed_activities@);
    let r: int = if resumed.len() > 0 {
        (1 + resumed.len()) as int
    } else {
        0
    };
    let head = seq!["Current Activity: "@ + st.current_activity@] + if resumed.len() > 0 {
        seq!["\nResumed Activities:"@] + indented(resumed)
    } else {
        seq![]
    };
    assert(head.len() == 1 + r);
    if st.fragment_backstack@.len() > 0 {
        assert(s[1 + r] == target);
    } else {
        assert(target[0] == '\n' && target[1] == 'F');
        assert forall|i: int| 0 <= i < s.len() implies s[i] != target by {
            let e = s[i];
            if i == 0 {
                assert(e[0] == 'C');
            } else if i < 1 + r {
                if i == 1 {
                    assert(e[1] == 'R');
                } else {
                    assert(e == "  "@ + resumed[i - 2]);
                    assert(e[0] == ' ');
                }
            } else if i == 1 + r {
                assert(e[1] == 'D');
            } else if i == 2 + r {
                assert(e[1] == 'M');
            } else {
                assert(e[0] == ' ');
            }
        }
    }
}

/// The text form of a state lists the resumed activities, under their heading
/// and each on its own indented line, exactly when there are some; it shows the
/// memory heading exactly when the memory counters were read.
pub proof fn lemma_state_text_sections(st: DeviceState)
    ensures
        state_text(st).contains("\nResumed Activities:"@) <==> st.resumed_activities@.len() > 0,
        forall|i: int|
            0 <= i < st.resumed_activities@.len() ==> state_text(st).contains(
                "  "@ + #[trigger] st.resumed_activities@[i]@,
            ),
        state_text(st).contains("\nMemory:"@) <==> st.memory is Some,
{
    reveal_strlit("Current Activity: ");
    reveal_strlit("\nResumed Activities:");
    reveal_strlit("\nFragment Backstack:\n");
    reveal_strlit("\nDisplay: ");
    reveal_strlit("\nMemory:");
    reveal_strlit("  ");
    let s = state_text(st);
    let resumed = string_views(st.resumed_activities@);
    let r: int = if resumed.len() > 0 {
        (1 + resumed.len()) as int
    } else {
        0
    };
    let b: int = if st.fragment_backstack@.len() > 0 {
        1
    } else {
        0
    };
    let head = seq!["Current Activity: "@ + st.current_activity@] + if resumed.len() > 0 {
        seq!["\nResumed Activities:"@] + indented(resumed)
    } else {
        seq![]
    };
    assert(head.len() == 1 + r);
    if resumed.len() > 0 {
        assert(s[1] == "\nResumed Activities:"@);
        assert forall|i: int| 0 <= i < st.resumed_activities@.len() implies s.contains(
            "  "@ + #[trigger] st.resumed_activities@[i]@,
        ) by {
            assert(s[2 + i] == "  "@ + resumed[i]);
        }
    } else {
        assert forall|i: int| 0 <= i < s.len() implies s[i] != "\nResumed Activities:"@ by {
            let e = s[i];
            if i == 0 {
                assert(e[0] == 'C');
            } else if i < 1 + b {
                assert(e[1] == 'F');
            } else if i == 1 + b {
                assert(e[1] == 'D');
            } else if i == 2 + b {
                assert(e[1] == 'M');
            } else {
                assert(e[0] == ' ');
            }
        }
    }
    if st.memory is Some {
        assert(s[2 + r + b] == "\nMemory:"@);
    } else {
        assert forall|i: int| 0 <= i < s.len() implies s[i] != "\nMemory:"@ by {
            let e = s[i];
            if i == 0 {
                assert(e[0] == 'C');
            } else if i < 1 + r {
                if i == 1 {
                    assert(e[1] == 'R');
                } else {
                    assert(e == "  "@ + resumed[i - 2]);
                    assert(e[0] == ' ');
                }
            } else if i < 1 + r + b {
                assert(e[1] == 'F');
            } else {
                assert(e[1] == 'D');
            }
        }
    }
}

/// The text form of a crash report: a heading, the focused activity, the crash
/// log, the recent errors with their count, and a note when a screenshot is attached.
pub open spec fn crash_text(r: CrashReport) -> Seq<Seq<char>> {
    let recent = string_views(r.recent_logcat@);
    seq![
        "=== Crash Report ===\n"@,
        "Current Activity: "@ + r.current_activity@ + "\n"@,
        "--- Crash Log ---"@,
        r.stacktrace@ + "\n"@,
        "--- Recent Errors ("@ + decimal(recent.len()) + ") ---"@,
    ] + indented(recent) + if r.screenshot_base64 is Some {
        seq!["\n[Screenshot captured]"@]
    } else {
        seq![]
    }
}

/// The text form of a crash report shows the crash log, every recent error on
/// its own indented line, a heading that counts them, and the screenshot note
/// exactly when a screenshot is attached.
pub proof fn lemma_crash_text_parts(r: CrashReport)
    ensures
        crash_text(r).contains(r.stacktrace@ + "\n"@),
        crash_text(r).contains(
            "--- Recent Errors ("@ + decimal(r.recent_logcat@.len() as nat) + ") ---"@,
        ),
        forall|i: int|
            0 <= i < r.recent_logcat@.len() ==> crash_text(r).contains(
                "  "@ + #[trigger] r.recent_logcat@[i]@,
            ),
        crash_text(r).contains("\n[Screenshot captured]"@) <==> r.screenshot_base64 is Some,
{
    reveal_strlit("=== Crash Report ===\n");
    reveal_strlit("Current Activity: ");
    reveal_strlit("\n");
    reveal_strlit("--- Crash Log ---");
    reveal_strlit("--- Recent Errors (");
    reveal_strlit(") ---");
    reveal_strlit("  ");
    reveal_strlit("\n[Screenshot captured]");
    let s = crash_text(r);
    let recent = string_views(r.recent_logcat@);
    assert(s[3] == r.stacktrace@ + "\n"@);
    assert(s[4] == "--- Recent Errors ("@ + decimal(recent.len()) + ") ---"@);
    assert forall|i: int| 0 <= i < r.recent_logcat@.len() implies s.contains(
        "  "@ + #[trigger] r.recent_logcat@[i]@,
    ) by {
        assert(s[5 + i] == "  "@ + recent[i]);
    }
    let note = "\n[Screenshot captured]"@;
    if r.screenshot_base64 is Some {
        assert(s[5 + recent.len() as int] == note);
    } else {
        assert forall|i: int| 0 <= i < s.len() implies s[i] != note by {
            let e = s[i];
            if i == 0 {
                assert(e[0] == '=');
            } else if i == 1 {
                assert(e[0] == 'C');
            } else if i == 2 {
                assert(e[0] == '-');
            } else if i == 3 {
                assert(e.last() == '\n');
                assert(note.last() == ']');
            } else if i == 4 {
                assert(e[0] == '-');
            } else {
                assert(e == "  "@ + recent[i - 5]);
                assert(e[0] == ' ');
            }
        }
    }
}

/// The lines that show a crash report in text form.
pub fn render_crash(r: &CrashReport) -> (lines: Vec<String>)
    ensures
        string_views(lines@) == crash_text(*r),
{
    let mut lines: Vec<String> = Vec::new();
    lines.push("=== Crash Report ===\n".to_owned());
    let mut a = "Current Activity: ".to_owned();
    a.append(r.current_activity.as_str());
    a.append("\n");
    lines.push(a);
    lines.push("--- Crash Log ---".to_owned());
    let mut st = r.stacktrace.clone();
    st.append("\n");
    lines.push(st);
    let mut h = "--- Recent Errors (".to_owned();
    let n = decimal_string(r.recent_logcat.len() as u128);
    h.append(n.as_str());
    h.append(") ---");
    lines.push(h);
    let ghost recent = string_views(r.recent_logcat@);
    assert(recent.len() == r.recent_logcat@.len());
    let ghost p0 = string_views(lines@);
    assert(p0 =~= seq![
        "=== Crash Report ===\n"@,
        "Current Activity: "@ + r.current_activity@ + "\n"@,
        "--- Crash Log ---"@,
        r.stacktrace@ + "\n"@,
        "--- Recent Errors ("@ + decimal(recent.len()) + ") ---"@,
    ]);
    push_indented(&mut lines, &r.recent_logcat);
    let ghost p1 = string_views(lines@);
    if r.screenshot_base64.is_some() {
        lines.push("\n[Screenshot captured]".to_owned());
    }
    assert(string_views(lines@) =~= p1 + if r.screenshot_base64 is Some {
        seq!["\n[Screenshot captured]"@]
    } else {
        seq![]
    });
    lines
}

} // verus!
