use vstd::prelude::*;
use vstd::utf8::is_ascii_chars;
use crate::logcat::{ascii_lower, ascii_upper, lowercase, to_lowercase};
use crate::numbers::{decimal, decimal_string};
use crate::text::{chars_of, str_eq, substring};

verus! {

/// `s` with every `c` replaced by `rep`.
pub open spec fn replaced(s: Seq<char>, c: char, rep: Seq<char>) -> Seq<char>
    decreases s.len(),
{
    if s.len() == 0 {
        seq![]
    } else {
        replaced(s.drop_last(), c, rep) + if s.last() == c {
            rep
        } else {
            seq![s.last()]
        }
    }
}

/// `s` with every `c` replaced by `rep`.
pub fn replace_char(s: &str, c: char, rep: &str) -> (r: String)
    ensures
        r@ == replaced(s@, c, rep@),
{
    let v = chars_of(s);
    let mut r = String::new();
    let mut i: usize = 0;
    assert(s@.take(0) =~= Seq::<char>::empty());
    while i < v.len()
        invariant
            v@ == s@,
            i <= v@.len(),
            r@ == replaced(s@.take(i as int), c, rep@),
        decreases v@.len() - i,
    {
        assert(s@.take(i + 1).drop_last() =~= s@.take(i as int));
        if v[i] == c {
            r.append(rep);
        } else {
            let one = substring(s, i, i + 1);
            assert(one@ =~= seq![s@[i as int]]);
            r.append(one.as_str());
        }
        i += 1;
    }
    assert(s@.take(v@.len() as int) =~= s@);
    r
}

/// `s` as one shell word: in single quotes, each `'` written `'\''`.
pub open spec fn shell_quoted(s: Seq<char>) -> Seq<char> {
    "'"@ + replaced(s, '\'', "'\\''"@) + "'"@
}

/// `s` as one shell word.
pub fn shell_quote(s: &str) -> (q: String)
    ensures
        q@ == shell_quoted(s@),
{
    let mut q = "'".to_owned();
    let inner = replace_char(s, '\'', "'\\''");
    q.append(inner.as_str());
    q.append("'");
    q
}

/// Replacing works character by character: the replacement of a joined text is
/// the joined replacements.
pub proof fn lemma_replaced_concat(a: Seq<char>, b: Seq<char>, c: char, rep: Seq<char>)
    ensures
        replaced(a + b, c, rep) == replaced(a, c, rep) + replaced(b, c, rep),
    decreases b.len(),
{
    if b.len() == 0 {
        assert(a + b =~= a);
        assert(replaced(a, c, rep) + replaced(b, c, rep) =~= replaced(a, c, rep));
    } else {
        lemma_replaced_concat(a, b.drop_last(), c, rep);
        assert((a + b).drop_last() =~= a + b.drop_last());
        assert((a + b).last() == b.last());
    }
}

/// After replacing every `c` by a text without `c`, no `c` is left; a text
/// without `c` is left as it is.
pub proof fn lemma_replaced_removes(s: Seq<char>, c: char, rep: Seq<char>)
    ensures
        !rep.contains(c) ==> !replaced(s, c, rep).contains(c),
        !s.contains(c) ==> replaced(s, c, rep) == s,
    decreases s.len(),
{
    if s.len() > 0 {
        lemma_replaced_removes(s.drop_last(), c, rep);
        let r = replaced(s.drop_last(), c, rep);
        let last: Seq<char> = if s.last() == c {
            rep
        } else {
            seq![s.last()]
        };
        if !rep.contains(c) {
            assert forall|i: int| 0 <= i < replaced(s, c, rep).len() implies replaced(s, c, rep)[i]
                != c by {
                if i >= r.len() {
                    assert(replaced(s, c, rep)[i] == last[i - r.len()]);
                }
            }
        }
        if !s.contains(c) {
            assert forall|i: int| 0 <= i < s.drop_last().len() implies s.drop_last()[i] != c by {
                assert(s.drop_last()[i] == s[i]);
            }
            assert(s.last() == s[s.len() - 1]);
            assert(s.drop_last().push(s.last()) =~= s);
            assert(replaced(s, c, rep) =~= r + seq![s.last()]);
        }
    } else {
        assert(replaced(s, c, rep) =~= s);
    }
}

/// How `sh` reads the rest of a single-quoted word: characters stand for
/// themselves up to the closing `'`, and `'\''` (close, escaped quote, reopen)
/// stands for one `'`.
pub open spec fn read_quoted(w: Seq<char>) -> Seq<char>
    decreases w.len(),
{
    if w.len() == 0 {
        seq![]
    } else if w[0] != '\'' {
        seq![w[0]] + read_quoted(w.drop_first())
    } else if w.len() >= 4 && w[1] == '\\' && w[2] == '\'' && w[3] == '\'' {
        seq!['\''] + read_quoted(w.skip(4))
    } else {
        seq![]
    }
}

/// How `sh` reads a word that opens with `'`.
pub open spec fn read_shell_word(w: Seq<char>) -> Seq<char> {
    if w.len() > 0 && w[0] == '\'' {
        read_quoted(w.drop_first())
    } else {
        w
    }
}

/// The quoted inside of `s` followed by the closing quote reads back as `s`.
proof fn lemma_read_quoted_inner(s: Seq<char>)
    ensures
        read_quoted(replaced(s, '\'', "'\\''"@) + "'"@) == s,
    decreases s.len(),
{
    reveal_strlit("'\\''");
    reveal_strlit("'");
    let rep = "'\\''"@;
    if s.len() == 0 {
        assert(replaced(s, '\'', rep) + "'"@ =~= seq!['\'']);
        assert(read_quoted(seq!['\'']) == Seq::<char>::empty());
    } else {
        let first = s[0];
        let rest = s.drop_first();
        assert(s =~= seq![first] + rest);
        lemma_replaced_concat(seq![first], rest, '\'', rep);
        lemma_read_quoted_inner(rest);
        let piece = replaced(seq![first], '\'', rep);
        assert(seq![first].drop_last() =~= Seq::<char>::empty());
        assert(replaced(seq![first].drop_last(), '\'', rep) =~= Seq::<char>::empty());
        assert(seq![first].last() == first);
        let tail = replaced(rest, '\'', rep) + "'"@;
        let w = replaced(s, '\'', rep) + "'"@;
        assert(w =~= piece + tail);
        if first == '\'' {
            assert(piece =~= rep);
            assert(w.skip(4) =~= tail);
        } else {
            assert(piece =~= seq![first]);
            assert(w.drop_first() =~= tail);
        }
    }
}

/// A quoted word reads back, in `sh`, as the text that was quoted, whatever
/// quotes it holds.
pub proof fn lemma_shell_quoted_reads_back(s: Seq<char>)
    ensures
        read_shell_word(shell_quoted(s)) == s,
{
    reveal_strlit("'");
    lemma_read_quoted_inner(s);
    let w = shell_quoted(s);
    assert(w.drop_first() =~= replaced(s, '\'', "'\\''"@) + "'"@);
}

/// The shell command that types `text` (`input text` reads `%s` as a space).
pub fn input_text_command(text: &str) -> (c: String)
    ensures
        c@ == "input text "@ + shell_quoted(replaced(text@, ' ', "%s"@)),
{
    let spaced = replace_char(text, ' ', "%s");
    let mut c = "input text ".to_owned();
    let q = shell_quote(spaced.as_str());
    c.append(q.as_str());
    c
}

/// The shell command that taps at (x, y).
pub fn tap_command(x: u32, y: u32) -> (c: String)
    ensures
        c@ == "input tap "@ + decimal(x as nat) + " "@ + decimal(y as nat),
{
    let mut c = "input tap ".to_owned();
    c.append(decimal_string(x as u128).as_str());
    c.append(" ");
    c.append(decimal_string(y as u128).as_str());
    c
}

/// The shell command that swipes from (x1, y1) to (x2, y2) over `duration` ms.
pub fn swipe_command(x1: u32, y1: u32, x2: u32, y2: u32, duration: u32) -> (c: String)
    ensures
        c@ == "input swipe "@ + decimal(x1 as nat) + " "@ + decimal(y1 as nat) + " "@ + decimal(
            x2 as nat,
        ) + " "@ + decimal(y2 as nat) + " "@ + decimal(duration as nat),
{
    let mut c = "input swipe ".to_owned();
    c.append(decimal_string(x1 as u128).as_str());
    c.append(" ");
    c.append(decimal_string(y1 as u128).as_str());
    c.append(" ");
    c.append(decimal_string(x2 as u128).as_str());
    c.append(" ");
    c.append(decimal_string(y2 as u128).as_str());
    c.append(" ");
    c.append(decimal_string(duration as u128).as_str());
    c
}

/// The key code for a lowercase key name: `home`, `back`, `enter` and `menu`
/// are named codes; any other name is taken as a code itself.
pub open spec fn key_code_for(lower: Seq<char>, name: Seq<char>) -> Seq<char> {
    if lower == "home"@ {
        "KEYCODE_HOME"@
    } else if lower == "back"@ {
        "KEYCODE_BACK"@
    } else if lower == "enter"@ {
        "KEYCODE_ENTER"@
    } else if lower == "menu"@ {
        "KEYCODE_MENU"@
    } else {
        name
    }
}

/// The key names that have a named key code.
pub open spec fn key_names() -> Seq<Seq<char>> {
    seq!["home"@, "back"@, "enter"@, "menu"@]
}

/// Each named key has its own code: `KEYCODE_` followed by the name in
/// uppercase; any other name is taken as the code as it is.
pub proof fn lemma_key_codes(k: int, lower: Seq<char>, name: Seq<char>)
    requires
        0 <= k < 4,
    ensures
        key_code_for(key_names()[k], name) == "KEYCODE_"@ + key_names()[k].map_values(
            |c: char| ascii_upper(c),
        ),
        (forall|j: int| 0 <= j < 4 ==> lower != #[trigger] key_names()[j]) ==> key_code_for(
            lower,
            name,
        ) == name,
{
    reveal_strlit("home");
    reveal_strlit("back");
    reveal_strlit("enter");
    reveal_strlit("menu");
    reveal_strlit("KEYCODE_HOME");
    reveal_strlit("KEYCODE_BACK");
    reveal_strlit("KEYCODE_ENTER");
    reveal_strlit("KEYCODE_MENU");
    reveal_strlit("KEYCODE_");
    let n = key_names()[k];
    assert("home"@[0] != "back"@[0] && "home"@[0] != "menu"@[0] && "back"@[0] != "menu"@[0]);
    assert("home"@ != "back"@ && "home"@ != "menu"@ && "back"@ != "menu"@);
    assert("enter"@ != "home"@ && "enter"@ != "back"@ && "enter"@ != "menu"@);
    assert(key_names()[0] == "home"@ && key_names()[1] == "back"@);
    assert(key_names()[2] == "enter"@ && key_names()[3] == "menu"@);
    if k == 0 {
        assert("home"@.map_values(|c: char| ascii_upper(c)) =~= seq!['H', 'O', 'M', 'E']);
        assert("KEYCODE_HOME"@ =~= "KEYCODE_"@ + seq!['H', 'O', 'M', 'E']);
    } else if k == 1 {
        assert("back"@.map_values(|c: char| ascii_upper(c)) =~= seq!['B', 'A', 'C', 'K']);
        assert("KEYCODE_BACK"@ =~= "KEYCODE_"@ + seq!['B', 'A', 'C', 'K']);
    } else if k == 2 {
        assert("enter"@.map_values(|c: char| ascii_upper(c)) =~= seq!['E', 'N', 'T', 'E', 'R']);
        assert("KEYCODE_ENTER"@ =~= "KEYCODE_"@ + seq!['E', 'N', 'T', 'E', 'R']);
    } else {
        assert("menu"@.map_values(|c: char| ascii_upper(c)) =~= seq!['M', 'E', 'N', 'U']);
        assert("KEYCODE_MENU"@ =~= "KEYCODE_"@ + seq!['M', 'E', 'N', 'U']);
    }
}

/// Different named keys press different keys.
pub proof fn lemma_key_codes_distinct(j: int, k: int, name: Seq<char>)
    requires
        0 <= j < 4,
        0 <= k < 4,
        j != k,
    ensures
        key_code_for(key_names()[j], name) != key_code_for(key_names()[k], name),
{
    lemma_key_codes(j, name, name);
    lemma_key_codes(k, name, name);
    reveal_strlit("home");
    reveal_strlit("back");
    reveal_strlit("enter");
    reveal_strlit("menu");
    reveal_strlit("KEYCODE_");
    let cj = key_code_for(key_names()[j], name);
    let ck = key_code_for(key_names()[k], name);
    assert(cj[8] == ascii_upper(key_names()[j][0]));
    assert(ck[8] == ascii_upper(key_names()[k][0]));
    assert(cj[8] != ck[8]);
}

/// The shell command that presses the named key (names matched without regard to case).
pub fn key_command(name: &str) -> (c: String)
    ensures
        c@ == "input keyevent "@ + shell_quoted(key_code_for(lowercase(name@), name@)),
        is_ascii_chars(name@) ==> c@ == "input keyevent "@ + shell_quoted(
            key_code_for(name@.map_values(|ch: char| ascii_lower(ch)), name@),
        ),
{
    let lower = to_lowercase(name);
    let l = lower.as_str();
    let code: String = if str_eq(l, "home") {
        "KEYCODE_HOME".to_owned()
    } else if str_eq(l, "back") {
        "KEYCODE_BACK".to_owned()
    } else if str_eq(l, "enter") {
        "KEYCODE_ENTER".to_owned()
    } else if str_eq(l, "menu") {
        "KEYCODE_MENU".to_owned()
    } else {
        name.to_owned()
    };
    let mut c = "input keyevent ".to_owned();
    let q = shell_quote(code.as_str());
    c.append(q.as_str());
    c
}

/// The shell command that sets the clipboard to `text`.
pub fn clipboard_command(text: &str) -> (c: String)
    ensures
        c@ == "cmd clipboard set-text "@ + shell_quoted(text@),
{
    let mut c = "cmd clipboard set-text ".to_owned();
    let q = shell_quote(text);
    c.append(q.as_str());
    c
}

} // verus!
