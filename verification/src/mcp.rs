use vstd::prelude::*;
use crate::numbers::{
    all_digits, decimal, decimal_string, is_digit, lemma_decimal_digits, lemma_parse_decimal_roundtrip,
    parse_u32, parse_u32_spec,
};
use crate::text::{
    chars_of, is_ws, lemma_split_on_join, lemma_split_on_single, lemma_trim_of_clean, ranges_ok,
    slices, split_on, split_ranges, str_eq, substring, trim, trim_str,
};

verus! {

/// Options of the screenshot tool.
pub struct ScreenshotParams {
    /// Run OCR on the screenshot.
    pub ocr: bool,
    /// Include the view hierarchy.
    pub hierarchy: bool,
}

/// Options of the logcat tool.
pub struct LogcatParams {
    /// Only the entries of this package.
    pub app: Option<String>,
    /// Only the entries whose tag contains this text.
    pub tag: Option<String>,
    /// Minimum log level (verbose, debug, info, warn, error, fatal).
    pub level: String,
    /// Number of recent lines.
    pub lines: u32,
}

/// Options of the input tool.
pub struct InputParams {
    /// `text`, `tap`, `swipe`, `key` or `clip`.
    pub input_type: String,
    /// The text, the key name, or the coordinates `x,y` / `x1,y1,x2,y2`.
    pub value: String,
    /// Swipe duration in milliseconds.
    pub duration: Option<u32>,
}

/// Options of the crash report tool (none).
pub struct CrashParams {}

/// Options of the device list tool (none).
pub struct DeviceInfoParams {}

/// The level the logcat tool uses when none is given.
pub fn default_level() -> (s: String)
    ensures
        s@ == "verbose"@,
{
    "verbose".to_owned()
}

/// The number of lines the logcat tool returns when none is given.
pub fn default_lines() -> (n: u32)
    ensures
        n == 50,
{
    50
}

/// A flag as a client sent it: a boolean, or text.
pub enum FlagValue {
    Bool(bool),
    Text(String),
}

/// A flag that some clients send as the text `"true"`/`"false"`: a boolean is
/// taken as it is, those two texts as the boolean they name, and any other text
/// is refused.
pub fn bool_from_string_or_bool(v: FlagValue) -> (r: Result<bool, String>)
    ensures
        match v {
            FlagValue::Bool(b) => r == Ok::<bool, String>(b),
            FlagValue::Text(s) => if s@ == "true"@ {
                r == Ok::<bool, String>(true)
            } else if s@ == "false"@ {
                r == Ok::<bool, String>(false)
            } else {
                r matches Err(m) && m@ == "expected true/false, got "@ + s@
            },
        },
{
    match v {
        FlagValue::Bool(b) => Ok(b),
        FlagValue::Text(s) => {
            if str_eq(s.as_str(), "true") {
                Ok(true)
            } else if str_eq(s.as_str(), "false") {
                Ok(false)
            } else {
                let mut m = "expected true/false, got ".to_owned();
                m.append(s.as_str());
                Err(m)
            }
        },
    }
}

/// The numbers written in `pieces`, each trimmed and read as a `u32`; nothing
/// where some piece does not read as one.
pub open spec fn parsed_numbers(pieces: Seq<Seq<char>>) -> Option<Seq<u32>>
    decreases pieces.len(),
{
    if pieces.len() == 0 {
        Some(seq![])
    } else {
        match (parsed_numbers(pieces.drop_last()), parse_u32_spec(trim(pieces.last()))) {
            (Some(rest), Some(n)) => Some(rest.push(n)),
            _ => None,
        }
    }
}

/// The coordinates in a comma-separated list; nothing unless every piece is a number.
pub open spec fn coords_spec(value: Seq<char>) -> Option<Seq<u32>> {
    parsed_numbers(split_on(value, ','))
}

/// The coordinates in a comma-separated list such as `540, 1200`, or nothing
/// where some piece is not a number.
pub fn parse_coords(value: &str) -> (r: Option<Vec<u32>>)
    ensures
        match r {
            Some(c) => coords_spec(value@) == Some(c@),
            None => coords_spec(value@) is None,
        },
{
    let v = chars_of(value);
    let pr = split_ranges(&v, ',');
    let ghost ps = slices(v@, pr@);
    let mut c: Vec<u32> = Vec::new();
    let mut k: usize = 0;
    assert(ps.take(0) =~= Seq::<Seq<char>>::empty());
    while k < pr.len()
        invariant
            v@ == value@,
            ps == slices(v@, pr@),
            ps == split_on(v@, ','),
            ranges_ok(v@, pr@),
            k <= pr@.len(),
            parsed_numbers(ps.take(k as int)) == Some(c@),
        decreases pr@.len() - k,
    {
        let (a, b) = pr[k];
        assert(pr@[k as int].0 <= pr@[k as int].1 <= v@.len());
        let piece = substring(value, a, b);
        assert(piece@ == ps[k as int]);
        let t = trim_str(piece.as_str());
        assert(ps.take(k + 1).drop_last() =~= ps.take(k as int));
        match parse_u32(t.as_str()) {
            Some(n) => c.push(n),
            None => {
                proof {
                    assert(ps.take(k + 1).last() == ps[k as int]);
                    assert(parsed_numbers(ps.take(k + 1)) is None);
                    lemma_parsed_numbers_none_extends(ps, k as int + 1);
                    assert(split_on(value@, ',') == ps);
                }
                return None;
            },
        }
        k += 1;
    }
    assert(ps.take(pr@.len() as int) =~= ps);
    Some(c)
}

proof fn lemma_parsed_numbers_none_extends(ps: Seq<Seq<char>>, k: int)
    requires
        0 <= k <= ps.len(),
        parsed_numbers(ps.take(k)) is None,
    ensures
        parsed_numbers(ps) is None,
    decreases ps.len() - k,
{
    if k < ps.len() {
        assert(ps.take(k + 1).drop_last() =~= ps.take(k));
        lemma_parsed_numbers_none_extends(ps, k + 1);
    } else {
        assert(ps.take(k) =~= ps);
    }
}

/// Coordinates written in decimal and joined by commas.
pub open spec fn joined_coords(ns: Seq<u32>) -> Seq<char>
    decreases ns.len(),
{
    if ns.len() <= 1 {
        if ns.len() == 1 {
            decimal(ns[0] as nat)
        } else {
            seq![]
        }
    } else {
        joined_coords(ns.drop_last()) + seq![','] + decimal(ns.last() as nat)
    }
}

proof fn lemma_parsed_numbers_concat(p: Seq<Seq<char>>, q: Seq<Seq<char>>)
    ensures
        parsed_numbers(p + q) == match (parsed_numbers(p), parsed_numbers(q)) {
            (Some(a), Some(b)) => Some(a + b),
            _ => None,
        },
    decreases q.len(),
{
    if q.len() == 0 {
        assert(p + q =~= p);
        if let Some(a) = parsed_numbers(p) {
            assert(a + Seq::<u32>::empty() =~= a);
        }
    } else {
        lemma_parsed_numbers_concat(p, q.drop_last());
        assert((p + q).drop_last() =~= p + q.drop_last());
    }
}

proof fn lemma_coords_of_decimal(n: u32)
    ensures
        split_on(decimal(n as nat), ',') == seq![decimal(n as nat)],
        parsed_numbers(seq![decimal(n as nat)]) == Some(seq![n]),
{
    let d = decimal(n as nat);
    lemma_decimal_digits(n as nat);
    assert forall|k: int| 0 <= k < d.len() implies #[trigger] d[k] != ',' by {
        assert(is_digit(d[k]));
    }
    lemma_split_on_single(d, ',');
    assert(!is_ws(d[0]) && !is_ws(d.last())) by {
        assert(is_digit(d[0]));
        assert(is_digit(d[d.len() - 1]));
    }
    lemma_trim_of_clean(d);
    lemma_parse_decimal_roundtrip(n);
    assert(seq![d].drop_last() =~= Seq::<Seq<char>>::empty());
    assert(parsed_numbers(Seq::<Seq<char>>::empty()) == Some(Seq::<u32>::empty()));
    assert(seq![d].last() == d);
    assert(Seq::<u32>::empty().push(n) =~= seq![n]);
}

/// Coordinates written in decimal and joined by commas read back as the same
/// coordinates.
pub proof fn lemma_coords_roundtrip(ns: Seq<u32>)
    requires
        ns.len() > 0,
    ensures
        coords_spec(joined_coords(ns)) == Some(ns),
    decreases ns.len(),
{
    lemma_coords_of_decimal(ns.last());
    if ns.len() == 1 {
        assert(seq![ns[0]] =~= ns);
    } else {
        lemma_coords_roundtrip(ns.drop_last());
        lemma_split_on_join(joined_coords(ns.drop_last()), ',', decimal(ns.last() as nat));
        lemma_parsed_numbers_concat(
            split_on(joined_coords(ns.drop_last()), ','),
            seq![decimal(ns.last() as nat)],
        );
        assert(ns.drop_last().push(ns.last()) =~= ns);
    }
}

/// What the input tool does with its options.
pub enum InputAction {
    /// Type the text.
    Text(String),
    /// Tap at (x, y).
    Tap(u32, u32),
    /// Swipe from (x1, y1) to (x2, y2) over the given milliseconds.
    Swipe(u32, u32, u32, u32, u32),
    /// Press the named key.
    Key(String),
    /// Set the clipboard.
    Clip(String),
    /// Refuse, with this answer.
    Reject(String),
}

/// How the input tool reads its options: the type picks the action; a tap needs
/// a value of exactly two numbers `x,y` and a swipe of exactly four
/// `x1,y1,x2,y2` (a swipe lasts 300 ms unless
/// a duration is given); any other type is refused.
pub fn plan_input(params: &InputParams) -> (a: InputAction)
    ensures
        ({
            let t = params.input_type@;
            let v = params.value@;
            let c = coords_spec(v);
            if t == "text"@ {
                a matches InputAction::Text(s) && s@ == v
            } else if t == "tap"@ {
                if c is Some && c.unwrap().len() == 2 {
                    a == InputAction::Tap(c.unwrap()[0], c.unwrap()[1])
                } else {
                    a matches InputAction::Reject(m) && m@ == "Error: tap value must be 'x,y'"@
                }
            } else if t == "swipe"@ {
                if c is Some && c.unwrap().len() == 4 {
                    a == InputAction::Swipe(
                        c.unwrap()[0],
                        c.unwrap()[1],
                        c.unwrap()[2],
                        c.unwrap()[3],
                        match params.duration {
                            Some(d) => d,
                            None => 300,
                        },
                    )
                } else {
                    a matches InputAction::Reject(m) && m@
                        == "Error: swipe value must be 'x1,y1,x2,y2'"@
                }
            } else if t == "key"@ {
                a matches InputAction::Key(s) && s@ == v
            } else if t == "clip"@ {
                a matches InputAction::Clip(s) && s@ == v
            } else {
                a matches InputAction::Reject(m) && m@ == "Unknown input type: "@ + t
            }
        }),
{
    let t = params.input_type.as_str();
    let v = params.value.as_str();
    if str_eq(t, "text") {
        InputAction::Text(v.to_owned())
    } else if str_eq(t, "tap") {
        match parse_coords(v) {
            Some(c) if c.len() == 2 => InputAction::Tap(c[0], c[1]),
            _ => InputAction::Reject("Error: tap value must be 'x,y'".to_owned()),
        }
    } else if str_eq(t, "swipe") {
        match parse_coords(v) {
            Some(c) if c.len() == 4 => {
                let d = match params.duration {
                    Some(d) => d,
                    None => 300,
                };
                InputAction::Swipe(c[0], c[1], c[2], c[3], d)
            },
            _ => InputAction::Reject("Error: swipe value must be 'x1,y1,x2,y2'".to_owned()),
        }
    } else if str_eq(t, "key") {
        InputAction::Key(v.to_owned())
    } else if str_eq(t, "clip") {
        InputAction::Clip(v.to_owned())
    } else {
        let mut m = "Unknown input type: ".to_owned();
        m.append(t);
        InputAction::Reject(m)
    }
}

/// The answer of the input tool once the action ran: `OK: <type> '<value>'`, or
/// `Error: <why>`.
pub fn input_reply(params: &InputParams, outcome: Result<(), String>) -> (s: String)
    ensures
        match outcome {
            Ok(()) => s@ == "OK: "@ + params.input_type@ + " '"@ + params.value@ + "'"@,
            Err(e) => s@ == "Error: "@ + e@,
        },
{
    match outcome {
        Ok(()) => {
            let mut s = "OK: ".to_owned();
            s.append(params.input_type.as_str());
            s.append(" '");
            s.append(params.value.as_str());
            s.append("'");
            s
        },
        Err(e) => {
            let mut s = "Error: ".to_owned();
            s.append(e.as_str());
            s
        },
    }
}

/// The OCR part of the screenshot tool's answer: the text under a heading, or
/// why OCR failed.
pub fn ocr_block(r: Result<String, String>) -> (s: String)
    ensures
        match r {
            Ok(t) => s@ == "--- OCR Text ---\n"@ + t@,
            Err(e) => s@ == "OCR failed: "@ + e@,
        },
{
    match r {
        Ok(t) => {
            let mut s = "--- OCR Text ---\n".to_owned();
            s.append(t.as_str());
            s
        },
        Err(e) => {
            let mut s = "OCR failed: ".to_owned();
            s.append(e.as_str());
            s
        },
    }
}

/// The hierarchy part of the screenshot tool's answer: the XML under a heading,
/// or why the dump failed.
pub fn hierarchy_block(r: Result<String, String>) -> (s: String)
    ensures
        match r {
            Ok(x) => s@ == "--- View Hierarchy ---\n"@ + x@,
            Err(e) => s@ == "Hierarchy dump failed: "@ + e@,
        },
{
    match r {
        Ok(x) => {
            let mut s = "--- View Hierarchy ---\n".to_owned();
            s.append(x.as_str());
            s
        },
        Err(e) => {
            let mut s = "Hierarchy dump failed: ".to_owned();
            s.append(e.as_str());
            s
        },
    }
}

/// Where the crash tool saves the screenshot taken at `millis` since the epoch.
pub fn crash_screenshot_path(millis: u128) -> (p: String)
    ensures
        p@ == "/tmp/abridge_crash_"@ + decimal(millis as nat) + ".png"@,
{
    let mut p = "/tmp/abridge_crash_".to_owned();
    let n = decimal_string(millis);
    p.append(n.as_str());
    p.append(".png");
    p
}

/// The note that stands for a screenshot saved at `path`.
pub fn saved_marker(path: &str) -> (s: String)
    ensures
        s@ == "saved:"@ + path@,
{
    let mut s = "saved:".to_owned();
    s.append(path);
    s
}

} // verus!
