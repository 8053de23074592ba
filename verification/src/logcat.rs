use vstd::prelude::*;
use vstd::utf8::is_ascii_chars;
use crate::numbers::{all_digits, decimal, decimal_string, is_digit, lemma_decimal_digits};
use crate::text::{
    all_ws, chars_of, contains, is_word, lemma_contains_anywhere, occurs_at, is_ws, lemma_trim_of_clean, lemma_words_word_first,
    lemma_words_ws_first, lemma_ws_count_all, lemma_ws_count_concat, opt_str, opt_string, contains_str, count_ws, line_ranges, lines, ranges_ok, slices, str_eq,
    string_views, substring, trim, trim_bounds, word_ranges, words, ws_count,
};

verus! {

/// One logcat record, split into the columns of the `threadtime` format.
/// A line that does not have that shape keeps its text in `message` and
/// leaves the other columns empty.
pub struct LogEntry {
    pub timestamp: String,
    pub pid: String,
    pub tid: String,
    pub level: String,
    pub tag: String,
    pub message: String,
}

/// The text of each column of a [`LogEntry`].
pub struct LogEntryView {
    pub timestamp: Seq<char>,
    pub pid: Seq<char>,
    pub tid: Seq<char>,
    pub level: Seq<char>,
    pub tag: Seq<char>,
    pub message: Seq<char>,
}

impl View for LogEntry {
    type V = LogEntryView;

    open spec fn view(&self) -> LogEntryView {
        LogEntryView {
            timestamp: self.timestamp@,
            pid: self.pid@,
            tid: self.tid@,
            level: self.level@,
            tag: self.tag@,
            message: self.message@,
        }
    }
}

/// The views of a sequence of entries.
pub open spec fn entry_views(es: Seq<LogEntry>) -> Seq<LogEntryView> {
    es.map_values(|e: LogEntry| e@)
}

/// The entries that a logcat query returned, and how many there are.
pub struct LogOutput {
    pub entries: Vec<LogEntry>,
    pub total: usize,
}

impl LogOutput {
    /// `total` counts the entries.
    pub open spec fn wf(&self) -> bool {
        self.total == self.entries@.len()
    }
}

// ---------------------------------------------------------------------------
// Level filter
// ---------------------------------------------------------------------------

/// The lowercase form of `s` that `str::to_lowercase` computes (Unicode case mapping).
pub uninterp spec fn lowercase(s: Seq<char>) -> Seq<char>;

/// ASCII lowercasing of one character.
pub open spec fn ascii_lower(c: char) -> char {
    if 'A' <= c && c <= 'Z' {
        ((c as int) + 32) as char
    } else {
        c
    }
}

/// Calls `str::to_lowercase`. The contract names its result [`lowercase`] and
/// states that on ASCII text it lowers the letters `A`..`Z` and keeps every other
/// character; the Unicode case mapping of other characters is left unsaid.
#[verifier::external_body]
pub(crate) fn to_lowercase(s: &str) -> (res: String)
    ensures
        res@ == lowercase(s@),
        is_ascii_chars(s@) ==> res@ == s@.map_values(|c: char| ascii_lower(c)),
{
    s.to_lowercase()
}

/// The logcat filter expression for a lowercase level name; an unknown name
/// selects every level.
pub open spec fn filter_for(l: Seq<char>) -> Seq<char> {
    if l == "verbose"@ || l == "v"@ {
        "*:V"@
    } else if l == "debug"@ || l == "d"@ {
        "*:D"@
    } else if l == "info"@ || l == "i"@ {
        "*:I"@
    } else if l == "warn"@ || l == "w"@ {
        "*:W"@
    } else if l == "error"@ || l == "e"@ {
        "*:E"@
    } else if l == "fatal"@ || l == "f"@ {
        "*:F"@
    } else {
        "*:V"@
    }
}

/// The logcat filter expression for a level name, matched without regard to case.
pub open spec fn level_filter_spec(level: Seq<char>) -> Seq<char> {
    filter_for(lowercase(level))
}

/// The logcat filter expression for a level name (`verbose`/`v` ... `fatal`/`f`),
/// matched without regard to case; for an ASCII name, case is ASCII case.
pub fn parse_level_filter(level: &str) -> (f: &'static str)
    ensures
        f@ == level_filter_spec(level@),
        is_ascii_chars(level@) ==> f@ == filter_for(level@.map_values(|c: char| ascii_lower(c))),
{
    let lower = to_lowercase(level);
    let l = lower.as_str();
    if str_eq(l, "verbose") || str_eq(l, "v") {
        "*:V"
    } else if str_eq(l, "debug") || str_eq(l, "d") {
        "*:D"
    } else if str_eq(l, "info") || str_eq(l, "i") {
        "*:I"
    } else if str_eq(l, "warn") || str_eq(l, "w") {
        "*:W"
    } else if str_eq(l, "error") || str_eq(l, "e") {
        "*:E"
    } else if str_eq(l, "fatal") || str_eq(l, "f") {
        "*:F"
    } else {
        "*:V"
    }
}

// ---------------------------------------------------------------------------
// One line
// ---------------------------------------------------------------------------

/// `s` has `": "` at position `i`.
pub open spec fn colon_sep_at(s: Seq<char>, i: int) -> bool {
    0 <= i && i + 1 < s.len() && s[i] == ':' && s[i + 1] == ' '
}

/// Position of the first `": "` in `s` (`str::find(": ")`).
pub open spec fn first_colon_sep(s: Seq<char>) -> Option<int> {
    if exists|i: int| colon_sep_at(s, i) {
        Some(choose|i: int| colon_sep_at(s, i) && forall|j: int| 0 <= j < i ==> !colon_sep_at(s, j))
    } else {
        None
    }
}

/// An entry that keeps the whole line as its message.
pub open spec fn unstructured(line: Seq<char>) -> LogEntryView {
    LogEntryView {
        timestamp: seq![],
        pid: seq![],
        tid: seq![],
        level: seq![],
        tag: seq![],
        message: line,
    }
}

/// The columns of a line whose first `": "` is at `p`: the words before it are
/// date, time, pid, tid, level and (if present) tag, and the rest is the message;
/// with fewer than five such words the whole line is the message.
pub open spec fn columns(line: Seq<char>, p: int) -> LogEntryView {
    let w = words(line.take(p));
    if w.len() >= 5 {
        LogEntryView {
            timestamp: w[0] + seq![' '] + w[1],
            pid: w[2],
            tid: w[3],
            level: w[4],
            tag: if w.len() > 5 {
                w[5]
            } else {
                seq![]
            },
            message: line.skip(p + 2),
        }
    } else {
        unstructured(line)
    }
}

/// How one line of `logcat -v threadtime` output reads, e.g.
/// `03-31 00:12:34.567  1234  5678 I Tag     : message`.
///
/// The line is trimmed. An empty line, or a separator line starting with `-`,
/// gives nothing. A line with fewer than five whitespace characters, or with no
/// `": "`, or whose text before the first `": "` has fewer than five words, is
/// kept whole as the message. Otherwise the words before the first `": "` are date,
/// time, pid, tid, level and (if present) tag, and the rest is the message.
pub open spec fn parse_logcat_line_spec(raw: Seq<char>) -> Option<LogEntryView> {
    let line = trim(raw);
    if line.len() == 0 || line[0] == '-' {
        None
    } else if ws_count(line) < 5 {
        Some(unstructured(line))
    } else {
        match first_colon_sep(line) {
            Some(p) => Some(columns(line, p)),
            None => Some(unstructured(line)),
        }
    }
}

/// Position of the first `": "` in `v`.
fn find_colon_sep(v: &Vec<char>) -> (r: Option<usize>)
    ensures
        match r {
            Some(p) => colon_sep_at(v@, p as int) && first_colon_sep(v@) == Some(p as int),
            None => first_colon_sep(v@) is None,
        },
{
    let n = v.len();
    if n == 0 {
        return None;
    }
    let mut i: usize = 0;
    while i < n - 1
        invariant
            n == v@.len(),
            n > 0,
            i <= n - 1,
            forall|j: int| 0 <= j < i ==> !colon_sep_at(v@, j),
        decreases n - i,
    {
        if v[i] == ':' && v[i + 1] == ' ' {
            proof {
                let q = choose|q: int|
                    colon_sep_at(v@, q) && forall|j: int| 0 <= j < q ==> !colon_sep_at(v@, j);
                assert(colon_sep_at(v@, i as int) && forall|j: int|
                    0 <= j < i ==> !colon_sep_at(v@, j));
                if q < i {
                } else if q > i {
                    assert(!colon_sep_at(v@, i as int));
                }
            }
            return Some(i);
        }
        i += 1;
    }
    assert forall|j: int| !colon_sep_at(v@, j) by {
        if 0 <= j < i {
        }
    }
    None
}

fn unstructured_entry(line: String) -> (e: LogEntry)
    ensures
        e@ == unstructured(line@),
{
    LogEntry {
        timestamp: String::new(),
        pid: String::new(),
        tid: String::new(),
        level: String::new(),
        tag: String::new(),
        message: line,
    }
}

/// The columns of a trimmed line whose first `": "` is at `p`.
fn split_columns(t: String, p: usize) -> (r: Option<LogEntry>)
    requires
        colon_sep_at(t@, p as int),
        t@.len() > 0,
    ensures
        r matches Some(e) && columns(t@, p as int) == e@,
{
    let tv = chars_of(t.as_str());
    let prefix = substring(t.as_str(), 0, p);
    let pv = chars_of(prefix.as_str());
    assert(pv@ =~= t@.take(p as int));
    let wr = word_ranges(&pv);
    if wr.len() >= 5 {
        let ghost w = words(pv@);
        proof {
            assert(slices(pv@, wr@)[0] == w[0]);
            assert(ranges_ok(pv@, wr@));
            assert(wr@[0].0 <= wr@[0].1 <= pv@.len());
            assert(wr@[1].0 <= wr@[1].1 <= pv@.len());
            assert(wr@[2].0 <= wr@[2].1 <= pv@.len());
            assert(wr@[3].0 <= wr@[3].1 <= pv@.len());
            assert(wr@[4].0 <= wr@[4].1 <= pv@.len());
            reveal_strlit(" ");
        }
        let mut timestamp = substring(prefix.as_str(), wr[0].0, wr[0].1);
        timestamp.append(" ");
        let second = substring(prefix.as_str(), wr[1].0, wr[1].1);
        timestamp.append(second.as_str());
        assert(timestamp@ =~= w[0] + seq![' '] + w[1]);
        let pid = substring(prefix.as_str(), wr[2].0, wr[2].1);
        let tid = substring(prefix.as_str(), wr[3].0, wr[3].1);
        let level = substring(prefix.as_str(), wr[4].0, wr[4].1);
        let tag = if wr.len() > 5 {
            assert(wr@[5].0 <= wr@[5].1 <= pv@.len());
            assert(slices(pv@, wr@)[5] == w[5]);
            substring(prefix.as_str(), wr[5].0, wr[5].1)
        } else {
            String::new()
        };
        let n = tv.len();
        let message = substring(t.as_str(), p + 2, n);
        proof {
            assert(slices(pv@, wr@)[1] == w[1]);
            assert(slices(pv@, wr@)[2] == w[2]);
            assert(slices(pv@, wr@)[3] == w[3]);
            assert(slices(pv@, wr@)[4] == w[4]);
            assert(message@ =~= t@.skip(p + 2));
        }
        Some(LogEntry { timestamp, pid, tid, level, tag, message })
    } else {
        Some(unstructured_entry(t))
    }
}

/// Split one line of logcat output into its columns.
pub fn parse_logcat_line(line: &str) -> (r: Option<LogEntry>)
    ensures
        match r {
            Some(e) => parse_logcat_line_spec(line@) == Some(e@),
            None => parse_logcat_line_spec(line@) is None,
        },
{
    let v = chars_of(line);
    let (a, b) = trim_bounds(&v);
    let t = substring(line, a, b);
    let tv = chars_of(t.as_str());
    if tv.len() == 0 || tv[0] == '-' {
        return None;
    }
    if count_ws(&tv) < 5 {
        return Some(unstructured_entry(t));
    }
    match find_colon_sep(&tv) {
        Some(p) => split_columns(t, p),
        None => Some(unstructured_entry(t)),
    }
}

// ---------------------------------------------------------------------------
// A whole dump
// ---------------------------------------------------------------------------

/// The entries that the lines `ls` give, in order.
pub open spec fn parse_lines(ls: Seq<Seq<char>>) -> Seq<LogEntryView>
    decreases ls.len(),
{
    if ls.len() == 0 {
        seq![]
    } else {
        let rest = parse_lines(ls.drop_last());
        match parse_logcat_line_spec(ls.last()) {
            Some(e) => rest.push(e),
            None => rest,
        }
    }
}

/// The entry passes the tag filter: there is none, or the entry's tag contains it.
pub open spec fn tag_matches(e: LogEntryView, tag: Option<Seq<char>>) -> bool {
    match tag {
        Some(t) => contains(e.tag, t),
        None => true,
    }
}

/// The entries of `es` that pass the tag filter, in order.
pub open spec fn keep_tag(es: Seq<LogEntryView>, tag: Option<Seq<char>>) -> Seq<LogEntryView>
    decreases es.len(),
{
    if es.len() == 0 {
        seq![]
    } else {
        let rest = keep_tag(es.drop_last(), tag);
        if tag_matches(es.last(), tag) {
            rest.push(es.last())
        } else {
            rest
        }
    }
}

/// What a logcat dump reads as, filtered by tag.
pub open spec fn dump_entries(output: Seq<char>, tag: Option<Seq<char>>) -> Seq<LogEntryView> {
    keep_tag(parse_lines(lines(output)), tag)
}

fn tag_passes(e: &LogEntry, tag: Option<&str>) -> (b: bool)
    ensures
        b == tag_matches(e@, opt_str(tag)),
{
    match tag {
        Some(t) => contains_str(e.tag.as_str(), t),
        None => true,
    }
}

/// The entries of a logcat dump, filtered by tag, and their number.
pub fn collect_entries(output: &str, tag: Option<&str>) -> (out: LogOutput)
    ensures
        out.wf(),
        entry_views(out.entries@) == dump_entries(output@, opt_str(tag)),
{
    let v = chars_of(output);
    let lr = line_ranges(&v);
    let ghost ls = slices(v@, lr@);
    let mut entries: Vec<LogEntry> = Vec::new();
    let mut k: usize = 0;
    assert(ls.take(0) =~= Seq::<Seq<char>>::empty());
    assert(entry_views(entries@) =~= Seq::<LogEntryView>::empty());
    while k < lr.len()
        invariant
            v@ == output@,
            ls == slices(v@, lr@),
            ranges_ok(v@, lr@),
            k <= lr@.len(),
            entry_views(entries@) == keep_tag(parse_lines(ls.take(k as int)), opt_str(tag)),
        decreases lr@.len() - k,
    {
        let (a, b) = lr[k];
        let l = substring(output, a, b);
        assert(l@ == ls[k as int]);
        let ghost before = parse_lines(ls.take(k as int));
        assert(ls.take(k + 1).drop_last() =~= ls.take(k as int));
        assert(ls.take(k + 1).last() == ls[k as int]);
        let ghost old_entries = entries@;
        match parse_logcat_line(l.as_str()) {
            Some(e) => {
                assert(parse_lines(ls.take(k + 1)) == before.push(e@));
                assert(before.push(e@).drop_last() =~= before);
                if tag_passes(&e, tag) {
                    entries.push(e);
                    assert(entry_views(entries@) =~= entry_views(old_entries).push(
                        entries@.last()@,
                    ));
                }
            },
            None => {},
        }
        k += 1;
    }
    assert(ls.take(lr@.len() as int) =~= ls);
    let total = entries.len();
    LogOutput { entries, total }
}

/// Every entry kept passes the tag filter.
pub proof fn lemma_keep_tag_matches(es: Seq<LogEntryView>, tag: Option<Seq<char>>)
    ensures
        forall|i: int|
            0 <= i < keep_tag(es, tag).len() ==> tag_matches(#[trigger] keep_tag(es, tag)[i], tag),
    decreases es.len(),
{
    if es.len() > 0 {
        lemma_keep_tag_matches(es.drop_last(), tag);
        let rest = keep_tag(es.drop_last(), tag);
        assert forall|i: int| 0 <= i < keep_tag(es, tag).len() implies tag_matches(
            #[trigger] keep_tag(es, tag)[i],
            tag,
        ) by {
            if i < rest.len() {
                assert(keep_tag(es, tag)[i] == rest[i]);
            }
        }
    }
}

/// The tag filter keeps exactly the entries whose tag has the filter text
/// somewhere in it (`str::contains`: anywhere, not only at the start), in their
/// order; with no filter every entry is kept.
pub proof fn lemma_tag_filter_keeps_containing(es: Seq<LogEntryView>, t: Seq<char>)
    ensures
        keep_tag(es, Some(t)) == es.filter(tag_contains(t)),
        keep_tag(es, None) == es,
    decreases es.len(),
{
    let f = tag_contains(t);
    if es.len() > 0 {
        lemma_tag_filter_keeps_containing(es.drop_last(), t);
        assert(es.drop_last().push(es.last()) =~= es);
        assert(f(es.last()) == contains(es.last().tag, t));
        es.drop_last().lemma_filter_push(es.last(), f);
    } else {
        assert(keep_tag(es, None) =~= es);
        reveal(Seq::filter);
        assert(es.filter(f) =~= es);
        assert(keep_tag(es, Some(t)) =~= es);
    }
}

/// Reading a dump with a tag filter gives the entries of the unfiltered dump
/// whose tag contains the filter text anywhere, in the same order; an entry is
/// in the filtered dump exactly when it is in the whole dump and its tag
/// contains the text.
pub proof fn lemma_dump_tag_filter(output: Seq<char>, t: Seq<char>)
    ensures
        dump_entries(output, Some(t)) == dump_entries(output, None).filter(tag_contains(t)),
        forall|e: LogEntryView|
            #[trigger] dump_entries(output, Some(t)).contains(e) <==> dump_entries(
                output,
                None,
            ).contains(e) && contains(e.tag, t),
{
    let all = parse_lines(lines(output));
    let f = tag_contains(t);
    lemma_tag_filter_keeps_containing(all, t);
    assert(dump_entries(output, None) == all);
    assert forall|e: LogEntryView| #[trigger] dump_entries(output, Some(t)).contains(e) <==> (
    all.contains(e) && contains(e.tag, t)) by {
        if all.filter(f).contains(e) {
            all.lemma_filter_contains_rev(f, e);
            #[allow(deprecated)]
            all.filter_lemma(f);
            let i = choose|i: int| 0 <= i < all.filter(f).len() && all.filter(f)[i] == e;
            assert(f(all.filter(f)[i]));
        }
        if all.contains(e) && contains(e.tag, t) {
            let i = choose|i: int| 0 <= i < all.len() && all[i] == e;
            all.lemma_filter_contains(f, i);
        }
    }
}

/// Whether an entry's tag contains `t` somewhere.
pub open spec fn tag_contains(t: Seq<char>) -> spec_fn(LogEntryView) -> bool {
    |e: LogEntryView| contains(e.tag, t)
}

/// The level names, each selecting the levels at and above it.
pub open spec fn level_names() -> Seq<Seq<char>> {
    seq!["verbose"@, "debug"@, "info"@, "warn"@, "error"@, "fatal"@]
}

/// The ASCII uppercase of a lowercase letter.
pub open spec fn ascii_upper(c: char) -> char {
    if 'a' <= c && c <= 'z' {
        ((c as int) - 32) as char
    } else {
        c
    }
}

/// Each level name and its one-letter short form select the same filter, and
/// that filter is `*:` followed by the name's initial in uppercase.
pub proof fn lemma_level_short_names(k: int)
    requires
        0 <= k < 6,
    ensures
        filter_for(level_names()[k].take(1)) == filter_for(level_names()[k]),
        filter_for(level_names()[k]) == seq!['*', ':', ascii_upper(level_names()[k][0])],
{
    reveal_strlit("verbose");
    reveal_strlit("v");
    reveal_strlit("debug");
    reveal_strlit("d");
    reveal_strlit("info");
    reveal_strlit("i");
    reveal_strlit("warn");
    reveal_strlit("w");
    reveal_strlit("error");
    reveal_strlit("e");
    reveal_strlit("fatal");
    reveal_strlit("f");
    reveal_strlit("*:V");
    reveal_strlit("*:D");
    reveal_strlit("*:I");
    reveal_strlit("*:W");
    reveal_strlit("*:E");
    reveal_strlit("*:F");
    let n = level_names()[k];
    let short = n.take(1);
    assert("verbose"@.take(1) =~= "v"@);
    assert("debug"@.take(1) =~= "d"@);
    assert("info"@.take(1) =~= "i"@);
    assert("warn"@.take(1) =~= "w"@);
    assert("error"@.take(1) =~= "e"@);
    assert("fatal"@.take(1) =~= "f"@);
    assert("verbose"@ != "debug"@ && "verbose"@ != "info"@ && "verbose"@ != "warn"@);
    assert("error"@[0] != "debug"@[0] && "error"@[0] != "fatal"@[0] && "debug"@[0] != "fatal"@[0]);
    assert("error"@ != "debug"@ && "fatal"@ != "debug"@ && "fatal"@ != "error"@);
    assert("info"@[0] != "warn"@[0]);
    assert("info"@ != "warn"@);
    assert("v"@[0] != "d"@[0] && "v"@[0] != "i"@[0] && "v"@[0] != "w"@[0] && "v"@[0] != "e"@[0]);
    assert("d"@[0] != "i"@[0] && "d"@[0] != "w"@[0] && "d"@[0] != "e"@[0] && "i"@[0] != "w"@[0]);
    assert("i"@[0] != "e"@[0] && "w"@[0] != "e"@[0]);
    assert("v"@ != "d"@ && "v"@ != "i"@ && "v"@ != "w"@ && "v"@ != "e"@ && "d"@ != "i"@);
    assert("d"@ != "w"@ && "d"@ != "e"@ && "i"@ != "w"@ && "i"@ != "e"@ && "w"@ != "e"@);
    if k == 0 {
        assert(n == "verbose"@);
        assert(filter_for(n) =~= seq!['*', ':', 'V']);
    } else if k == 1 {
        assert(n == "debug"@);
        assert(filter_for(n) =~= seq!['*', ':', 'D']);
    } else if k == 2 {
        assert(n == "info"@);
        assert(filter_for(n) =~= seq!['*', ':', 'I']);
    } else if k == 3 {
        assert(n == "warn"@);
        assert(filter_for(n) =~= seq!['*', ':', 'W']);
    } else if k == 4 {
        assert(n == "error"@);
        assert(filter_for(n) =~= seq!['*', ':', 'E']);
    } else {
        assert(n == "fatal"@);
        assert(filter_for(n) =~= seq!['*', ':', 'F']);
    }
}

/// A level name written in any ASCII case, long or short, selects `*:` and the
/// name's initial in uppercase; different levels select different filters.
pub proof fn lemma_level_filter_any_case(s: Seq<char>, k: int, j: int)
    requires
        0 <= k < 6,
        0 <= j < 6,
        s.map_values(|c: char| ascii_lower(c)) == level_names()[k] || s.map_values(
            |c: char| ascii_lower(c),
        ) == level_names()[k].take(1),
    ensures
        filter_for(s.map_values(|c: char| ascii_lower(c))) == seq![
            '*',
            ':',
            ascii_upper(level_names()[k][0]),
        ],
        j != k ==> filter_for(level_names()[j]) != filter_for(level_names()[k]),
{
    lemma_level_short_names(k);
    lemma_level_short_names(j);
    reveal_strlit("verbose");
    reveal_strlit("debug");
    reveal_strlit("info");
    reveal_strlit("warn");
    reveal_strlit("error");
    reveal_strlit("fatal");
    let fj = filter_for(level_names()[j]);
    let fk = filter_for(level_names()[k]);
    if j != k {
        assert(fj[2] != fk[2]);
    }
}

// ---------------------------------------------------------------------------
// Text form
// ---------------------------------------------------------------------------

/// How an entry reads in text form: its message alone when it has no tag, else
/// `<timestamp> <pid> <level>/<tag>: <message>`.
pub open spec fn entry_line(e: LogEntryView) -> Seq<char> {
    if e.tag.len() == 0 {
        e.message
    } else {
        e.timestamp + " "@ + e.pid + " "@ + e.level + "/"@ + e.tag + ": "@ + e.message
    }
}

/// The text form of a query's answer: one line per entry and a count.
pub open spec fn log_text(es: Seq<LogEntryView>, total: nat) -> Seq<Seq<char>> {
    es.map_values(|e: LogEntryView| entry_line(e)).push("--- "@ + decimal(total) + " entries ---"@)
}

/// The text form of an answer has one line per entry, in order, each ending
/// with the entry's message and, for an entry with a tag, showing
/// `<level>/<tag>: ` before it; the last line counts the entries.
pub proof fn lemma_log_text_parts(es: Seq<LogEntryView>, total: nat)
    ensures
        log_text(es, total).len() == es.len() + 1,
        log_text(es, total).last() == "--- "@ + decimal(total) + " entries ---"@,
        forall|i: int|
            0 <= i < es.len() ==> es[i].message.is_suffix_of(#[trigger] log_text(es, total)[i]),
        forall|i: int|
            0 <= i < es.len() && es[i].tag.len() > 0 ==> contains(
                #[trigger] log_text(es, total)[i],
                es[i].level + "/"@ + es[i].tag + ": "@,
            ),
{
    let t = log_text(es, total);
    assert forall|i: int| 0 <= i < es.len() implies es[i].message.is_suffix_of(
        #[trigger] log_text(es, total)[i],
    ) by {
        let e = es[i];
        let l = t[i];
        assert(l == entry_line(e));
        assert(l.subrange(l.len() - e.message.len(), l.len() as int) =~= e.message);
    }
    assert forall|i: int| 0 <= i < es.len() && es[i].tag.len() > 0 implies contains(
        #[trigger] log_text(es, total)[i],
        es[i].level + "/"@ + es[i].tag + ": "@,
    ) by {
        let e = es[i];
        let a = e.timestamp + " "@ + e.pid + " "@;
        let m = e.level + "/"@ + e.tag + ": "@;
        assert(t[i] == entry_line(e));
        assert(entry_line(e) =~= a + m + e.message);
        lemma_contains_anywhere(a, m, e.message);
    }
}

fn render_entry(e: &LogEntry) -> (l: String)
    ensures
        l@ == entry_line(e@),
{
    if e.tag.as_str().is_empty() {
        e.message.clone()
    } else {
        let mut l = e.timestamp.clone();
        l.append(" ");
        l.append(e.pid.as_str());
        l.append(" ");
        l.append(e.level.as_str());
        l.append("/");
        l.append(e.tag.as_str());
        l.append(": ");
        l.append(e.message.as_str());
        l
    }
}

/// The lines that show a query's answer in text form.
pub fn render_log(out: &LogOutput) -> (lines: Vec<String>)
    ensures
        string_views(lines@) == log_text(entry_views(out.entries@), out.total as nat),
{
    let mut lines: Vec<String> = Vec::new();
    let mut k: usize = 0;
    let ghost es = entry_views(out.entries@);
    while k < out.entries.len()
        invariant
            es == entry_views(out.entries@),
            k <= out.entries@.len(),
            string_views(lines@) == es.take(k as int).map_values(|e: LogEntryView| entry_line(e)),
        decreases out.entries@.len() - k,
    {
        let l = render_entry(&out.entries[k]);
        let ghost before = string_views(lines@);
        lines.push(l);
        assert(string_views(lines@) =~= before.push(l@));
        assert(es.take(k + 1).map_values(|e: LogEntryView| entry_line(e)) =~= es.take(
            k as int,
        ).map_values(|e: LogEntryView| entry_line(e)).push(entry_line(es[k as int])));
        k += 1;
    }
    assert(es.take(out.entries@.len() as int) =~= es);
    let ghost before = string_views(lines@);
    let mut footer = "--- ".to_owned();
    let n = decimal_string(out.total as u128);
    footer.append(n.as_str());
    footer.append(" entries ---");
    lines.push(footer);
    assert(string_views(lines@) =~= before.push(footer@));
    lines
}

// ---------------------------------------------------------------------------
// The query
// ---------------------------------------------------------------------------

/// Why a logcat query was refused.
pub enum LogcatError {
    /// No process of the package is running (its pid lookup printed nothing).
    AppNotRunning(String),
}

impl LogcatError {
    /// The text of the error.
    pub fn message(&self) -> (m: String)
        ensures
            match self {
                LogcatError::AppNotRunning(p) => m@ == "App "@ + p@ + " is not running"@,
            },
    {
        match self {
            LogcatError::AppNotRunning(p) => {
                let mut m = "App ".to_owned();
                m.append(p.as_str());
                m.append(" is not running");
                m
            },
        }
    }
}

/// Where a logcat query stands between two shell commands.
pub enum FetchStage {
    /// The query waits for the output of the pid lookup of `package`.
    AwaitPid { package: String, tag: Option<String>, level: String, lines: u32 },
    /// The query waits for the logcat dump.
    AwaitLog { tag: Option<String> },
}

/// What a logcat query needs next.
pub enum FetchStep {
    /// Run `command` on the device and resume `stage` with its output.
    Run { stage: FetchStage, command: String },
    /// The query is answered.
    Done(Result<LogOutput, LogcatError>),
}

/// The shell command that prints the pids of `package`.
pub open spec fn pid_command(package: Seq<char>) -> Seq<char> {
    "pidof "@ + package
}

/// The shell command that dumps the recent log, for one process or for all.
pub open spec fn logcat_command(pid: Option<Seq<char>>, level: Seq<char>, lines: u32) -> Seq<char> {
    "logcat -d -v threadtime "@ + match pid {
        Some(p) => "--pid="@ + p + " "@,
        None => seq![],
    } + level_filter_spec(level) + " -t "@ + decimal(lines as nat)
}

/// A level filter is `*:` and one level letter.
proof fn lemma_filter_for_shape(l: Seq<char>)
    ensures
        filter_for(l).len() == 3,
        filter_for(l)[0] == '*',
        filter_for(l)[1] == ':',
        filter_for(l)[2] != '=',
{
    reveal_strlit("*:V");
    reveal_strlit("*:D");
    reveal_strlit("*:I");
    reveal_strlit("*:W");
    reveal_strlit("*:E");
    reveal_strlit("*:F");
}

/// No `=` stands in `s`, so no text holding one occurs in it.
proof fn lemma_no_eq_sign(s: Seq<char>, needle: Seq<char>, k: int)
    requires
        forall|i: int| 0 <= i < s.len() ==> s[i] != '=',
        0 <= k < needle.len(),
        needle[k] == '=',
    ensures
        !contains(s, needle),
{
    if contains(s, needle) {
        let i = choose|i: int| occurs_at(s, needle, i);
        assert(s.subrange(i, i + needle.len())[k] == s[i + k]);
    }
}

/// A query made of the fixed head, a level filter and a line count names no pid.
proof fn lemma_query_names_no_pid(f: Seq<char>, lines: u32)
    requires
        f.len() == 3,
        f[0] == '*',
        f[1] == ':',
        f[2] != '=',
    ensures
        !contains("logcat -d -v threadtime "@ + f + " -t "@ + decimal(lines as nat), "--pid="@),
{
    reveal_strlit("logcat -d -v threadtime ");
    reveal_strlit(" -t ");
    reveal_strlit("--pid=");
    let head = "logcat -d -v threadtime "@;
    let cmd = head + f + " -t "@ + decimal(lines as nat);
    lemma_decimal_digits(lines as nat);
    assert forall|k: int| 0 <= k < cmd.len() implies cmd[k] != '=' by {
        if k >= head.len() + 7 {
            let d = k - head.len() - 7;
            assert(cmd[k] == decimal(lines as nat)[d]);
            assert(is_digit(decimal(lines as nat)[d]));
        }
    }
    lemma_no_eq_sign(cmd, "--pid="@, 5);
}

/// The log query asks for one process exactly when a pid is given (`--pid=`
/// and the pid), always selects the level filter of the level name, and asks
/// for the last `lines` entries.
pub proof fn lemma_logcat_command_parts(pid: Option<Seq<char>>, level: Seq<char>, lines: u32)
    ensures
        pid is Some ==> contains(logcat_command(pid, level, lines), "--pid="@ + pid->0 + " "@),
        pid is None ==> !contains(logcat_command(pid, level, lines), "--pid="@),
        contains(logcat_command(pid, level, lines), level_filter_spec(level)),
        (" -t "@ + decimal(lines as nat)).is_suffix_of(logcat_command(pid, level, lines)),
{
    let cmd = logcat_command(pid, level, lines);
    let head = "logcat -d -v threadtime "@;
    let mid: Seq<char> = match pid {
        Some(p) => "--pid="@ + p + " "@,
        None => seq![],
    };
    let f = level_filter_spec(level);
    let tail = " -t "@ + decimal(lines as nat);
    assert(cmd =~= head + mid + f + tail);
    if pid is Some {
        lemma_contains_anywhere(head, mid, f + tail);
        assert(head + mid + (f + tail) =~= cmd);
    }
    lemma_contains_anywhere(head + mid, f, tail);
    assert(cmd.subrange(cmd.len() - tail.len(), cmd.len() as int) =~= tail);
    if pid is None {
        lemma_filter_for_shape(lowercase(level));
        assert(cmd =~= head + f + " -t "@ + decimal(lines as nat));
        lemma_query_names_no_pid(f, lines);
    }
}

fn build_logcat_command(pid: Option<&str>, level: &str, lines: u32) -> (c: String)
    ensures
        c@ == logcat_command(opt_str(pid), level@, lines),
{
    let mut c = "logcat -d -v threadtime ".to_owned();
    match pid {
        Some(p) => {
            c.append("--pid=");
            c.append(p);
            c.append(" ");
        },
        None => {},
    }
    c.append(parse_level_filter(level));
    c.append(" -t ");
    let n = decimal_string(lines as u128);
    c.append(n.as_str());
    c
}

fn copy_opt(o: Option<&str>) -> (r: Option<String>)
    ensures
        opt_string(r) == opt_str(o),
{
    match o {
        Some(s) => Some(s.to_owned()),
        None => None,
    }
}

/// Start a logcat query: recent `lines` entries at `level` and above, of the
/// package `app` if one is given, whose tag contains `tag` if one is given.
pub fn fetch(app: Option<&str>, tag: Option<&str>, level: &str, lines: u32) -> (step: FetchStep)
    ensures
        match app {
            Some(p) => step matches FetchStep::Run {
                stage: FetchStage::AwaitPid { package, tag: t, level: l, lines: n },
                command,
            } && package@ == p@ && opt_string(t) == opt_str(tag) && l@ == level@ && n == lines && command@
                == pid_command(p@),
            None => step matches FetchStep::Run { stage: FetchStage::AwaitLog { tag: t }, command }
                && opt_string(t) == opt_str(tag) && command@ == logcat_command(None, level@, lines),
        },
{
    match app {
        Some(p) => {
            let mut command = "pidof ".to_owned();
            command.append(p);
            FetchStep::Run {
                stage: FetchStage::AwaitPid {
                    package: p.to_owned(),
                    tag: copy_opt(tag),
                    level: level.to_owned(),
                    lines,
                },
                command,
            }
        },
        None => FetchStep::Run {
            stage: FetchStage::AwaitLog { tag: copy_opt(tag) },
            command: build_logcat_command(None, level, lines),
        },
    }
}

/// Resume a logcat query with the output of the command it asked for.
pub fn fetch_resume(stage: FetchStage, output: &str) -> (step: FetchStep)
    ensures
        match stage {
            FetchStage::AwaitPid { package, tag, level, lines } => if trim(output@).len() == 0 {
                step matches FetchStep::Done(Err(LogcatError::AppNotRunning(p))) && p@ == package@
            } else {
                step matches FetchStep::Run { stage: FetchStage::AwaitLog { tag: t }, command }
                    && opt_string(t) == opt_string(tag) && command@ == logcat_command(
                    Some(trim(output@)),
                    level@,
                    lines,
                )
            },
            FetchStage::AwaitLog { tag } => step matches FetchStep::Done(Ok(out)) && out.wf()
                && entry_views(out.entries@) == dump_entries(output@, opt_string(tag)),
        },
{
    match stage {
        FetchStage::AwaitPid { package, tag, level, lines } => {
            let v = chars_of(output);
            let (a, b) = trim_bounds(&v);
            if a == b {
                FetchStep::Done(Err(LogcatError::AppNotRunning(package)))
            } else {
                let pid = substring(output, a, b);
                FetchStep::Run {
                    stage: FetchStage::AwaitLog { tag },
                    command: build_logcat_command(Some(pid.as_str()), level.as_str(), lines),
                }
            }
        },
        FetchStage::AwaitLog { tag } => {
            let t = match &tag {
                Some(s) => Some(s.as_str()),
                None => None,
            };
            FetchStep::Done(Ok(collect_entries(output, t)))
        },
    }
}

} // verus!

verus! {

/// `f` can stand as one column of a threadtime line: a nonempty word that does
/// not end in `:` (so that no `": "` is formed with the separator after it).
pub open spec fn column_text(f: Seq<char>) -> bool {
    is_word(f) && f.last() != ':'
}

/// The part of a threadtime line before its `": "`, with the given columns and
/// separators.
pub open spec fn threadtime_prefix(cols: Seq<Seq<char>>, gaps: Seq<Seq<char>>) -> Seq<char> {
    cols[0] + (gaps[0] + (cols[1] + (gaps[1] + (cols[2] + (gaps[2] + (cols[3] + (gaps[3] + (
    cols[4] + (gaps[4] + (cols[5] + gaps[5]))))))))))
}

/// The text of a threadtime line: date, time, pid, tid, level and tag (the six
/// `cols`), each followed by its separator in `gaps`, then `": "` and the message.
pub open spec fn threadtime_line(cols: Seq<Seq<char>>, gaps: Seq<Seq<char>>, message: Seq<char>) -> Seq<
    char,
> {
    threadtime_prefix(cols, gaps) + ": "@ + message
}

/// The columns and separators have the shape that `logcat -v threadtime` writes:
/// six columns with no whitespace or `:`, five nonempty whitespace separators and
/// whitespace padding after the tag.
pub open spec fn threadtime_shape(cols: Seq<Seq<char>>, gaps: Seq<Seq<char>>) -> bool {
    &&& cols.len() == 6
    &&& gaps.len() == 6
    &&& forall|k: int| 0 <= k < 6 ==> column_text(#[trigger] cols[k])
    &&& forall|k: int| 0 <= k < 6 ==> all_ws(#[trigger] gaps[k])
    &&& forall|k: int| 0 <= k < 5 ==> #[trigger] gaps[k].len() > 0
}

proof fn lemma_prefix_words(cols: Seq<Seq<char>>, gaps: Seq<Seq<char>>)
    requires
        threadtime_shape(cols, gaps),
    ensures
        words(threadtime_prefix(cols, gaps)) == cols,
{
    let c0 = cols[0];
    let c1 = cols[1];
    let c2 = cols[2];
    let c3 = cols[3];
    let c4 = cols[4];
    let c5 = cols[5];
    let g0 = gaps[0];
    let g1 = gaps[1];
    let g2 = gaps[2];
    let g3 = gaps[3];
    let g4 = gaps[4];
    let g5 = gaps[5];
    assert(column_text(c0) && column_text(c1) && column_text(c2) && column_text(c3) && column_text(
        c4,
    ) && column_text(c5));
    assert(all_ws(g0) && all_ws(g1) && all_ws(g2) && all_ws(g3) && all_ws(g4) && all_ws(g5));
    assert(g0.len() > 0 && g1.len() > 0 && g2.len() > 0 && g3.len() > 0 && g4.len() > 0);
    let t5 = g5;
    lemma_words_ws_first(g5, seq![]);
    assert(g5 + Seq::<char>::empty() =~= g5);
    assert(words(Seq::<char>::empty()) =~= Seq::<Seq<char>>::empty());
    lemma_words_word_first(c5, t5);
    let u5 = c5 + t5;
    lemma_words_ws_first(g4, u5);
    let t4 = g4 + u5;
    lemma_words_word_first(c4, t4);
    let u4 = c4 + t4;
    lemma_words_ws_first(g3, u4);
    let t3 = g3 + u4;
    lemma_words_word_first(c3, t3);
    let u3 = c3 + t3;
    lemma_words_ws_first(g2, u3);
    let t2 = g2 + u3;
    lemma_words_word_first(c2, t2);
    let u2 = c2 + t2;
    lemma_words_ws_first(g1, u2);
    let t1 = g1 + u2;
    lemma_words_word_first(c1, t1);
    let u1 = c1 + t1;
    lemma_words_ws_first(g0, u1);
    let t0 = g0 + u1;
    lemma_words_word_first(c0, t0);
    assert(words(threadtime_prefix(cols, gaps)) =~= cols);
}

proof fn lemma_prefix_ws_count(cols: Seq<Seq<char>>, gaps: Seq<Seq<char>>)
    requires
        threadtime_shape(cols, gaps),
    ensures
        ws_count(threadtime_prefix(cols, gaps)) >= 5,
{
    let g0 = gaps[0];
    let g1 = gaps[1];
    let g2 = gaps[2];
    let g3 = gaps[3];
    let g4 = gaps[4];
    let g5 = gaps[5];
    assert(all_ws(g0) && all_ws(g1) && all_ws(g2) && all_ws(g3) && all_ws(g4) && all_ws(g5));
    assert(g0.len() > 0 && g1.len() > 0 && g2.len() > 0 && g3.len() > 0 && g4.len() > 0);
    lemma_ws_count_all(g0);
    lemma_ws_count_all(g1);
    lemma_ws_count_all(g2);
    lemma_ws_count_all(g3);
    lemma_ws_count_all(g4);
    let u5 = cols[5] + g5;
    let t4 = g4 + u5;
    let u4 = cols[4] + t4;
    let t3 = g3 + u4;
    let u3 = cols[3] + t3;
    let t2 = g2 + u3;
    let u2 = cols[2] + t2;
    let t1 = g1 + u2;
    let u1 = cols[1] + t1;
    let t0 = g0 + u1;
    lemma_ws_count_concat(g4, u5);
    lemma_ws_count_concat(cols[4], t4);
    lemma_ws_count_concat(g3, u4);
    lemma_ws_count_concat(cols[3], t3);
    lemma_ws_count_concat(g2, u3);
    lemma_ws_count_concat(cols[2], t2);
    lemma_ws_count_concat(g1, u2);
    lemma_ws_count_concat(cols[1], t1);
    lemma_ws_count_concat(g0, u1);
    lemma_ws_count_concat(cols[0], t0);
}

/// `s` holds no `": "` and does not end in `:`.
spec fn sep_free(s: Seq<char>) -> bool {
    &&& forall|j: int| 0 <= j && j + 1 < s.len() ==> !colon_sep_at(s, j)
    &&& s.len() > 0 ==> s.last() != ':'
}

proof fn lemma_sep_free_concat(a: Seq<char>, b: Seq<char>)
    requires
        sep_free(a),
        sep_free(b),
    ensures
        sep_free(a + b),
{
    let s = a + b;
    assert forall|j: int| 0 <= j && j + 1 < s.len() implies !colon_sep_at(s, j) by {
        if j + 1 < a.len() {
            assert(s[j] == a[j] && s[j + 1] == a[j + 1]);
            assert(!colon_sep_at(a, j));
        } else if j + 1 == a.len() {
            assert(s[j] == a.last());
        } else {
            assert(s[j] == b[j - a.len()] && s[j + 1] == b[j + 1 - a.len()]);
            assert(!colon_sep_at(b, j - a.len()));
        }
    }
    if b.len() > 0 {
        assert(s.last() == b.last());
    } else {
        assert(s =~= a);
    }
}

proof fn lemma_ws_sep_free(g: Seq<char>)
    requires
        all_ws(g),
    ensures
        sep_free(g),
{
    if g.len() > 0 {
        assert(is_ws(g[g.len() - 1]));
    }
    assert forall|j: int| 0 <= j && j + 1 < g.len() implies !colon_sep_at(g, j) by {
        assert(is_ws(g[j]));
    }
}

proof fn lemma_column_sep_free(f: Seq<char>)
    requires
        column_text(f),
    ensures
        sep_free(f),
{
    assert forall|j: int| 0 <= j && j + 1 < f.len() implies !colon_sep_at(f, j) by {
        assert(!is_ws(f[j + 1]));
    }
}

proof fn lemma_prefix_sep_free(cols: Seq<Seq<char>>, gaps: Seq<Seq<char>>)
    requires
        threadtime_shape(cols, gaps),
    ensures
        sep_free(threadtime_prefix(cols, gaps)),
{
    assert(column_text(cols[0]) && column_text(cols[1]) && column_text(cols[2]) && column_text(
        cols[3],
    ) && column_text(cols[4]) && column_text(cols[5]));
    assert(all_ws(gaps[0]) && all_ws(gaps[1]) && all_ws(gaps[2]) && all_ws(gaps[3]) && all_ws(
        gaps[4],
    ) && all_ws(gaps[5]));
    lemma_column_sep_free(cols[0]);
    lemma_column_sep_free(cols[1]);
    lemma_column_sep_free(cols[2]);
    lemma_column_sep_free(cols[3]);
    lemma_column_sep_free(cols[4]);
    lemma_column_sep_free(cols[5]);
    lemma_ws_sep_free(gaps[0]);
    lemma_ws_sep_free(gaps[1]);
    lemma_ws_sep_free(gaps[2]);
    lemma_ws_sep_free(gaps[3]);
    lemma_ws_sep_free(gaps[4]);
    lemma_ws_sep_free(gaps[5]);
    let u5 = cols[5] + gaps[5];
    lemma_sep_free_concat(cols[5], gaps[5]);
    let t4 = gaps[4] + u5;
    lemma_sep_free_concat(gaps[4], u5);
    let u4 = cols[4] + t4;
    lemma_sep_free_concat(cols[4], t4);
    let t3 = gaps[3] + u4;
    lemma_sep_free_concat(gaps[3], u4);
    let u3 = cols[3] + t3;
    lemma_sep_free_concat(cols[3], t3);
    let t2 = gaps[2] + u3;
    lemma_sep_free_concat(gaps[2], u3);
    let u2 = cols[2] + t2;
    lemma_sep_free_concat(cols[2], t2);
    let t1 = gaps[1] + u2;
    lemma_sep_free_concat(gaps[1], u2);
    let u1 = cols[1] + t1;
    lemma_sep_free_concat(cols[1], t1);
    let t0 = gaps[0] + u1;
    lemma_sep_free_concat(gaps[0], u1);
    lemma_sep_free_concat(cols[0], t0);
}

/// A line laid out as `logcat -v threadtime` writes it (date, time, pid, tid,
/// level, tag, `": "`, message; columns separated by whitespace, padding allowed
/// before the `": "`) reads back as the columns that were written: the timestamp is
/// date and time joined by one space, and the message is kept as written.
///
/// It needs a date that does not start with `-`, columns that do not end in `:`,
/// and a message that does not end in whitespace (the line is trimmed).
pub proof fn lemma_threadtime_roundtrip(
    cols: Seq<Seq<char>>,
    gaps: Seq<Seq<char>>,
    message: Seq<char>,
)
    requires
        threadtime_shape(cols, gaps),
        cols[0][0] != '-',
        message.len() > 0,
        !is_ws(message.last()),
    ensures
        parse_logcat_line_spec(threadtime_line(cols, gaps, message)) == Some(
            LogEntryView {
                timestamp: cols[0] + seq![' '] + cols[1],
                pid: cols[2],
                tid: cols[3],
                level: cols[4],
                tag: cols[5],
                message,
            },
        ),
{
    reveal_strlit(": ");
    let prefix = threadtime_prefix(cols, gaps);
    let line = threadtime_line(cols, gaps, message);
    let p = prefix.len() as int;
    assert(column_text(cols[0]));
    assert(line =~= prefix + (": "@ + message));
    assert(line[0] == cols[0][0]);
    assert(line.last() == message.last());
    lemma_trim_of_clean(line);
    lemma_prefix_ws_count(cols, gaps);
    lemma_ws_count_concat(prefix, ": "@ + message);
    lemma_prefix_sep_free(cols, gaps);
    assert(prefix.len() > 0);
    assert forall|j: int| 0 <= j < p implies !colon_sep_at(line, j) by {
        if j + 1 < p {
            assert(line[j] == prefix[j] && line[j + 1] == prefix[j + 1]);
            assert(!colon_sep_at(prefix, j));
        } else {
            assert(line[j] == prefix.last());
        }
    }
    assert(colon_sep_at(line, p));
    let q = choose|i: int| colon_sep_at(line, i) && forall|j: int| 0 <= j < i ==> !colon_sep_at(line, j);
    assert(colon_sep_at(line, p) && forall|j: int| 0 <= j < p ==> !colon_sep_at(line, j));
    if q < p {
        assert(!colon_sep_at(line, q));
    } else if q > p {
        assert(!colon_sep_at(line, p));
    }
    assert(first_colon_sep(line) == Some(p));
    assert(line.take(p) =~= prefix);
    lemma_prefix_words(cols, gaps);
    assert(line.skip(p + 2) =~= message);
}

} // verus!
