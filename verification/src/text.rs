use vstd::prelude::*;

verus! {

// ---------------------------------------------------------------------------
// Whitespace
// ---------------------------------------------------------------------------

/// Whether `c` has the Unicode `White_Space` property, the set that
/// `char::is_whitespace` (and so `str::trim`, `str::split_whitespace`) uses.
pub open spec fn is_ws(c: char) -> bool {
    ||| ('\u{9}' <= c && c <= '\u{d}')
    ||| c == ' '
    ||| c == '\u{85}'
    ||| c == '\u{a0}'
    ||| c == '\u{1680}'
    ||| ('\u{2000}' <= c && c <= '\u{200a}')
    ||| c == '\u{2028}'
    ||| c == '\u{2029}'
    ||| c == '\u{202f}'
    ||| c == '\u{205f}'
    ||| c == '\u{3000}'
}

/// Executable test of [`is_ws`].
pub fn is_whitespace(c: char) -> (b: bool)
    ensures
        b == is_ws(c),
{
    ('\u{9}' <= c && c <= '\u{d}') || c == ' ' || c == '\u{85}' || c == '\u{a0}' || c == '\u{1680}'
        || ('\u{2000}' <= c && c <= '\u{200a}') || c == '\u{2028}' || c == '\u{2029}'
        || c == '\u{202f}' || c == '\u{205f}' || c == '\u{3000}'
}

/// Number of whitespace characters at the front of `s`.
pub open spec fn lead_ws(s: Seq<char>) -> nat
    decreases s.len(),
{
    if s.len() > 0 && is_ws(s[0]) {
        1 + lead_ws(s.drop_first())
    } else {
        0
    }
}

/// Number of whitespace characters at the back of `s`.
pub open spec fn trail_ws(s: Seq<char>) -> nat
    decreases s.len(),
{
    if s.len() > 0 && is_ws(s.last()) {
        1 + trail_ws(s.drop_last())
    } else {
        0
    }
}

/// `s` without its leading whitespace.
pub open spec fn trim_start(s: Seq<char>) -> Seq<char> {
    s.skip(lead_ws(s) as int)
}

/// `s` without its trailing whitespace.
pub open spec fn trim_end(s: Seq<char>) -> Seq<char> {
    s.take(s.len() - trail_ws(s))
}

/// `s` without leading and trailing whitespace (`str::trim`).
pub open spec fn trim(s: Seq<char>) -> Seq<char> {
    trim_end(trim_start(s))
}

/// Number of whitespace characters in `s`.
pub open spec fn ws_count(s: Seq<char>) -> nat
    decreases s.len(),
{
    if s.len() == 0 {
        0
    } else {
        ws_count(s.drop_last()) + if is_ws(s.last()) {
            1nat
        } else {
            0nat
        }
    }
}

pub proof fn lemma_lead_ws(s: Seq<char>, i: int)
    requires
        0 <= i <= s.len(),
        forall|k: int| 0 <= k < i ==> is_ws(#[trigger] s[k]),
        i == s.len() || !is_ws(s[i]),
    ensures
        lead_ws(s) == i,
    decreases i,
{
    if i > 0 {
        lemma_lead_ws(s.drop_first(), i - 1);
    }
}

pub proof fn lemma_trail_ws(s: Seq<char>, i: int)
    requires
        0 <= i <= s.len(),
        forall|k: int| s.len() - i <= k < s.len() ==> is_ws(#[trigger] s[k]),
        i == s.len() || !is_ws(s[s.len() - 1 - i]),
    ensures
        trail_ws(s) == i,
    decreases i,
{
    if i > 0 {
        lemma_trail_ws(s.drop_last(), i - 1);
    }
}

pub proof fn lemma_lead_ws_bound(s: Seq<char>)
    ensures
        lead_ws(s) <= s.len(),
    decreases s.len(),
{
    if s.len() > 0 {
        lemma_lead_ws_bound(s.drop_first());
    }
}

pub proof fn lemma_trail_ws_bound(s: Seq<char>)
    ensures
        trail_ws(s) <= s.len(),
    decreases s.len(),
{
    if s.len() > 0 {
        lemma_trail_ws_bound(s.drop_last());
    }
}

/// The trimmed text has no whitespace at either end, and is a slice of the original.
pub proof fn lemma_trim_shape(s: Seq<char>)
    ensures
        trim(s).len() > 0 ==> !is_ws(trim(s)[0]) && !is_ws(trim(s).last()),
        exists|a: int| 0 <= a && a + trim(s).len() <= s.len() && #[trigger] s.subrange(a, a + trim(s).len()) == trim(s),
{
    lemma_lead_ws_bound(s);
    let a = lead_ws(s) as int;
    let t = trim_start(s);
    lemma_trail_ws_bound(t);
    let b = trail_ws(t) as int;
    lemma_trim_start_first(s);
    lemma_trim_end_last(t);
    assert(s.subrange(a, a + trim(s).len()) =~= trim(s));
}

proof fn lemma_trim_start_first(s: Seq<char>)
    ensures
        trim_start(s).len() > 0 ==> !is_ws(trim_start(s)[0]),
    decreases s.len(),
{
    lemma_lead_ws_bound(s);
    if s.len() > 0 && is_ws(s[0]) {
        lemma_trim_start_first(s.drop_first());
        assert(trim_start(s) =~= trim_start(s.drop_first()));
    }
}

proof fn lemma_trim_end_last(s: Seq<char>)
    ensures
        trim_end(s).len() > 0 ==> !is_ws(trim_end(s).last()),
        trim_end(s).len() > 0 ==> trim_end(s)[0] == s[0],
    decreases s.len(),
{
    lemma_trail_ws_bound(s);
    if s.len() > 0 && is_ws(s.last()) {
        lemma_trim_end_last(s.drop_last());
        assert(trim_end(s) =~= trim_end(s.drop_last()));
    }
}

/// Trimming twice changes nothing.
pub proof fn lemma_trim_idempotent(s: Seq<char>)
    ensures
        trim(trim(s)) == trim(s),
{
    lemma_trim_shape(s);
    lemma_trim_of_clean(trim(s));
}

/// Text with no whitespace at either end is its own trim.
pub proof fn lemma_trim_of_clean(t: Seq<char>)
    requires
        t.len() > 0 ==> !is_ws(t[0]) && !is_ws(t.last()),
    ensures
        trim(t) == t,
{
    lemma_lead_ws(t, 0);
    assert(trim_start(t) =~= t);
    lemma_trail_ws(t, 0);
    assert(trim_end(t) =~= t);
}

// ---------------------------------------------------------------------------
// Splitting on a character
// ---------------------------------------------------------------------------

/// Index of the first `c` in `s`, or `s.len()` where there is none.
pub open spec fn char_pos(s: Seq<char>, c: char) -> nat
    decreases s.len(),
{
    if s.len() == 0 {
        0
    } else if s[0] == c {
        0
    } else {
        1 + char_pos(s.drop_first(), c)
    }
}

/// The pieces of `s` between occurrences of `c` (`str::split(c)`): never empty,
/// and `k` occurrences give `k + 1` pieces.
pub open spec fn split_on(s: Seq<char>, c: char) -> Seq<Seq<char>>
    decreases s.len(),
{
    let e = char_pos(s, c);
    if e < s.len() {
        seq![s.take(e as int)] + split_on(s.skip((e + 1) as int), c)
    } else {
        seq![s]
    }
}

pub proof fn lemma_char_pos(s: Seq<char>, c: char, i: int)
    requires
        0 <= i <= s.len(),
        forall|k: int| 0 <= k < i ==> #[trigger] s[k] != c,
        i == s.len() || s[i] == c,
    ensures
        char_pos(s, c) == i,
    decreases i,
{
    if i > 0 {
        lemma_char_pos(s.drop_first(), c, i - 1);
    }
}

pub proof fn lemma_char_pos_props(s: Seq<char>, c: char)
    ensures
        char_pos(s, c) <= s.len(),
        forall|k: int| 0 <= k < char_pos(s, c) ==> #[trigger] s[k] != c,
        char_pos(s, c) < s.len() ==> s[char_pos(s, c) as int] == c,
    decreases s.len(),
{
    if s.len() > 0 && s[0] != c {
        lemma_char_pos_props(s.drop_first(), c);
        assert forall|k: int| 0 <= k < char_pos(s, c) implies #[trigger] s[k] != c by {
            if k > 0 {
                assert(s[k] == s.drop_first()[k - 1]);
            }
        }
    }
}

/// Splitting text joined by the delimiter gives the pieces of each side.
pub proof fn lemma_split_on_join(a: Seq<char>, c: char, b: Seq<char>)
    ensures
        split_on(a + seq![c] + b, c) == split_on(a, c) + split_on(b, c),
    decreases a.len(),
{
    let s = a + seq![c] + b;
    lemma_char_pos_props(a, c);
    let e = char_pos(a, c) as int;
    assert forall|k: int| 0 <= k < e implies #[trigger] s[k] != c by {
        assert(s[k] == a[k]);
    }
    lemma_char_pos(s, c, e);
    if e < a.len() {
        lemma_split_on_join(a.skip(e + 1), c, b);
        assert(s.take(e) =~= a.take(e));
        assert(s.skip(e + 1) =~= a.skip(e + 1) + seq![c] + b);
        assert(split_on(s, c) =~= seq![a.take(e)] + (split_on(a.skip(e + 1), c) + split_on(b, c)));
    } else {
        assert(s.take(e) =~= a);
        assert(s.skip(e + 1) =~= b);
    }
}

/// Text without the delimiter is one piece.
pub proof fn lemma_split_on_single(a: Seq<char>, c: char)
    requires
        forall|k: int| 0 <= k < a.len() ==> #[trigger] a[k] != c,
    ensures
        split_on(a, c) == seq![a],
{
    lemma_char_pos(a, c, a.len() as int);
}

/// Subranges of `s` named by index pairs.
pub open spec fn slices(s: Seq<char>, r: Seq<(usize, usize)>) -> Seq<Seq<char>> {
    Seq::new(r.len(), |k: int| s.subrange(r[k].0 as int, r[k].1 as int))
}

/// Every index pair names a subrange of `s`.
pub open spec fn ranges_ok(s: Seq<char>, r: Seq<(usize, usize)>) -> bool {
    forall|k: int| 0 <= k < r.len() ==> (#[trigger] r[k]).0 <= r[k].1 && r[k].1 <= s.len()
}

/// Index pairs of the pieces of `s` between occurrences of `c`.
pub fn split_ranges(s: &Vec<char>, c: char) -> (r: Vec<(usize, usize)>)
    ensures
        ranges_ok(s@, r@),
        slices(s@, r@) == split_on(s@, c),
{
    let mut r: Vec<(usize, usize)> = Vec::new();
    let mut start: usize = 0;
    let mut i: usize = 0;
    assert(s@.skip(0) =~= s@);
    assert(slices(s@, r@) + split_on(s@.skip(0), c) =~= split_on(s@, c));
    while i < s.len()
        invariant
            start <= i <= s@.len(),
            ranges_ok(s@, r@),
            forall|k: int| start <= k < i ==> #[trigger] s@[k] != c,
            slices(s@, r@) + split_on(s@.skip(start as int), c) == split_on(s@, c),
        decreases s@.len() - i,
    {
        if s[i] == c {
            let ghost t = s@.skip(start as int);
            proof {
                lemma_char_pos(t, c, i - start);
                assert(t.take(i - start) =~= s@.subrange(start as int, i as int));
                assert(t.skip(i - start + 1) =~= s@.skip(i + 1));
                assert(split_on(t, c) == seq![s@.subrange(start as int, i as int)] + split_on(
                    s@.skip(i + 1),
                    c,
                ));
            }
            let ghost old_r = r@;
            r.push((start, i));
            proof {
                assert(slices(s@, r@) =~= slices(s@, old_r).push(
                    s@.subrange(start as int, i as int),
                ));
                assert(slices(s@, r@) + split_on(s@.skip(i + 1), c) =~= slices(s@, old_r) + (seq![
                    s@.subrange(start as int, i as int),
                ] + split_on(s@.skip(i + 1), c)));
            }
            start = i + 1;
        }
        i += 1;
    }
    let ghost t = s@.skip(start as int);
    proof {
        lemma_char_pos(t, c, t.len() as int);
        assert(t =~= s@.subrange(start as int, s@.len() as int));
    }
    let ghost old_r = r@;
    r.push((start, s.len()));
    proof {
        assert(slices(s@, r@) =~= slices(s@, old_r) + split_on(t, c));
    }
    r
}

// ---------------------------------------------------------------------------
// Lines
// ---------------------------------------------------------------------------

/// `l` without one final carriage return.
pub open spec fn strip_cr(l: Seq<char>) -> Seq<char> {
    if l.len() > 0 && l.last() == '\r' {
        l.drop_last()
    } else {
        l
    }
}

/// The lines of `s` (`str::lines`): split at `\n`; a `\r` just before a `\n` is
/// removed; the text after the last `\n` is the last line, kept as it is, unless
/// it is empty (so a final line ending adds no line).
pub open spec fn lines(s: Seq<char>) -> Seq<Seq<char>> {
    let p = split_on(s, '\n');
    let ended = p.drop_last().map_values(|l: Seq<char>| strip_cr(l));
    if p.last().len() == 0 {
        ended
    } else {
        ended.push(p.last())
    }
}

pub proof fn lemma_split_on_nonempty(s: Seq<char>, c: char)
    ensures
        split_on(s, c).len() > 0,
    decreases s.len(),
{
    let e = char_pos(s, c);
    if e < s.len() {
        lemma_split_on_nonempty(s.skip((e + 1) as int), c);
    }
}

/// The text made of `ls`, each line followed by `\n`.
pub open spec fn joined_lines(ls: Seq<Seq<char>>) -> Seq<char>
    decreases ls.len(),
{
    if ls.len() == 0 {
        seq![]
    } else {
        ls[0] + seq!['\n'] + joined_lines(ls.drop_first())
    }
}

proof fn lemma_split_joined_lines(ls: Seq<Seq<char>>)
    requires
        forall|i: int, k: int| 0 <= i < ls.len() && 0 <= k < ls[i].len() ==> #[trigger] ls[i][k] != '\n',
    ensures
        split_on(joined_lines(ls), '\n') == ls.push(seq![]),
    decreases ls.len(),
{
    if ls.len() == 0 {
        lemma_split_on_single(Seq::<char>::empty(), '\n');
        assert(ls.push(seq![]) =~= seq![Seq::<char>::empty()]);
    } else {
        let rest = ls.drop_first();
        assert forall|i: int, k: int| 0 <= i < rest.len() && 0 <= k < rest[i].len() implies #[trigger] rest[i][k] != '\n' by {
            assert(rest[i] == ls[i + 1]);
        }
        lemma_split_joined_lines(rest);
        assert forall|k: int| 0 <= k < ls[0].len() implies #[trigger] ls[0][k] != '\n' by {}
        lemma_split_on_single(ls[0], '\n');
        lemma_split_on_join(ls[0], '\n', joined_lines(rest));
        assert(seq![ls[0]] + rest.push(seq![]) =~= ls.push(seq![]));
    }
}

/// Lines written out, each followed by `\n`, read back as the same lines,
/// provided no line holds a `\n` or ends with `\r`.
pub proof fn lemma_lines_read_back(ls: Seq<Seq<char>>)
    requires
        forall|i: int, k: int| 0 <= i < ls.len() && 0 <= k < ls[i].len() ==> #[trigger] ls[i][k] != '\n',
        forall|i: int| 0 <= i < ls.len() && #[trigger] ls[i].len() > 0 ==> ls[i].last() != '\r',
    ensures
        lines(joined_lines(ls)) == ls,
{
    lemma_split_joined_lines(ls);
    let p = split_on(joined_lines(ls), '\n');
    assert(p.drop_last() =~= ls);
    assert(p.last().len() == 0);
    assert(ls.map_values(|l: Seq<char>| strip_cr(l)) =~= ls);
}

/// Index pairs of the lines of `s`.
pub fn line_ranges(s: &Vec<char>) -> (r: Vec<(usize, usize)>)
    ensures
        ranges_ok(s@, r@),
        slices(s@, r@) == lines(s@),
{
    let p = split_ranges(s, '\n');
    proof {
        lemma_split_on_nonempty(s@, '\n');
    }
    let ghost q = slices(s@, p@);
    let n = p.len();
    let mut r: Vec<(usize, usize)> = Vec::new();
    let mut k: usize = 0;
    while k < n - 1
        invariant
            n == p@.len(),
            n > 0,
            k <= n - 1,
            ranges_ok(s@, p@),
            q == slices(s@, p@),
            r@.len() == k,
            ranges_ok(s@, r@),
            forall|j: int| 0 <= j < k ==> #[trigger] slices(s@, r@)[j] == strip_cr(q[j]),
        decreases n - 1 - k,
    {
        let (a, b) = p[k];
        assert(p@[k as int].0 <= p@[k as int].1 <= s@.len());
        let ghost old_r = r@;
        if a < b && s[b - 1] == '\r' {
            r.push((a, b - 1));
            assert(s@.subrange(a as int, b - 1) =~= q[k as int].drop_last());
        } else {
            r.push((a, b));
        }
        assert forall|j: int| 0 <= j < k + 1 implies #[trigger] slices(s@, r@)[j] == strip_cr(
            q[j],
        ) by {
            if j < k {
                assert(slices(s@, r@)[j] == slices(s@, old_r)[j]);
            }
        }
        assert forall|j: int| 0 <= j < r@.len() implies (#[trigger] r@[j]).0 <= r@[j].1
            && r@[j].1 <= s@.len() by {
            if j < k {
                assert(r@[j] == old_r[j]);
            }
        }
        k += 1;
    }
    let ghost ended = q.drop_last().map_values(|l: Seq<char>| strip_cr(l));
    assert(slices(s@, r@) =~= ended);
    let last = p[n - 1];
    assert(p@[n - 1].0 <= p@[n - 1].1 <= s@.len());
    if last.0 < last.1 {
        let ghost old_r = r@;
        r.push(last);
        assert(slices(s@, r@) =~= ended.push(q.last()));
        assert forall|j: int| 0 <= j < r@.len() implies (#[trigger] r@[j]).0 <= r@[j].1
            && r@[j].1 <= s@.len() by {
            if j < old_r.len() {
                assert(r@[j] == old_r[j]);
            }
        }
    }
    r
}

// ---------------------------------------------------------------------------
// Words
// ---------------------------------------------------------------------------

/// Length of the run of non-whitespace characters at the front of `s`.
pub open spec fn word_len(s: Seq<char>) -> nat
    decreases s.len(),
{
    if s.len() == 0 || is_ws(s[0]) {
        0
    } else {
        1 + word_len(s.drop_first())
    }
}

pub proof fn lemma_word_len_bound(s: Seq<char>)
    ensures
        word_len(s) <= s.len(),
    decreases s.len(),
{
    if s.len() > 0 && !is_ws(s[0]) {
        lemma_word_len_bound(s.drop_first());
    }
}

/// The maximal runs of non-whitespace characters of `s`, in order
/// (`str::split_whitespace`).
pub open spec fn words(s: Seq<char>) -> Seq<Seq<char>>
    decreases s.len(),
{
    if s.len() == 0 {
        seq![]
    } else if is_ws(s[0]) {
        words(s.drop_first())
    } else {
        proof {
            lemma_word_len_bound(s);
        }
        seq![s.take(word_len(s) as int)] + words(s.skip(word_len(s) as int))
    }
}

pub proof fn lemma_word_len(s: Seq<char>, i: int)
    requires
        0 <= i <= s.len(),
        forall|k: int| 0 <= k < i ==> !is_ws(#[trigger] s[k]),
        i == s.len() || is_ws(s[i]),
    ensures
        word_len(s) == i,
    decreases i,
{
    if i > 0 {
        lemma_word_len(s.drop_first(), i - 1);
    }
}

/// Every character of `s` is whitespace.
pub open spec fn all_ws(s: Seq<char>) -> bool {
    forall|i: int| 0 <= i < s.len() ==> is_ws(#[trigger] s[i])
}

/// `s` is a nonempty run of non-whitespace characters.
pub open spec fn is_word(s: Seq<char>) -> bool {
    s.len() > 0 && forall|i: int| 0 <= i < s.len() ==> !is_ws(#[trigger] s[i])
}

/// A word followed by whitespace (or nothing) splits off as the first word.
pub proof fn lemma_words_word_first(w: Seq<char>, t: Seq<char>)
    requires
        is_word(w),
        t.len() == 0 || is_ws(t[0]),
    ensures
        words(w + t) == seq![w] + words(t),
{
    let s = w + t;
    lemma_word_len(s, w.len() as int);
    assert(s.take(w.len() as int) =~= w);
    assert(s.skip(w.len() as int) =~= t);
}

/// Leading whitespace does not change the words.
pub proof fn lemma_words_ws_first(sp: Seq<char>, t: Seq<char>)
    requires
        all_ws(sp),
    ensures
        words(sp + t) == words(t),
    decreases sp.len(),
{
    if sp.len() > 0 {
        lemma_words_ws_first(sp.drop_first(), t);
        assert((sp + t).drop_first() =~= sp.drop_first() + t);
    } else {
        assert(sp + t =~= t);
    }
}

/// Whitespace counts add up over a concatenation.
pub proof fn lemma_ws_count_concat(a: Seq<char>, b: Seq<char>)
    ensures
        ws_count(a + b) == ws_count(a) + ws_count(b),
    decreases b.len(),
{
    if b.len() == 0 {
        assert(a + b =~= a);
    } else {
        lemma_ws_count_concat(a, b.drop_last());
        assert((a + b).drop_last() =~= a + b.drop_last());
    }
}

/// Whitespace text is all counted.
pub proof fn lemma_ws_count_all(s: Seq<char>)
    requires
        all_ws(s),
    ensures
        ws_count(s) == s.len(),
    decreases s.len(),
{
    if s.len() > 0 {
        lemma_ws_count_all(s.drop_last());
    }
}

/// Index pairs of the words of `s`.
pub fn word_ranges(s: &Vec<char>) -> (r: Vec<(usize, usize)>)
    ensures
        ranges_ok(s@, r@),
        slices(s@, r@) == words(s@),
{
    let mut r: Vec<(usize, usize)> = Vec::new();
    let mut i: usize = 0;
    let n = s.len();
    assert(s@.skip(0) =~= s@);
    assert(slices(s@, r@) + words(s@.skip(0)) =~= words(s@));
    while i < n
        invariant
            n == s@.len(),
            i <= n,
            ranges_ok(s@, r@),
            slices(s@, r@) + words(s@.skip(i as int)) == words(s@),
        decreases n - i,
    {
        if is_whitespace(s[i]) {
            assert(s@.skip(i as int).drop_first() =~= s@.skip(i + 1));
            i += 1;
        } else {
            let mut j: usize = i + 1;
            while j < n && !is_whitespace(s[j])
                invariant
                    n == s@.len(),
                    i < j <= n,
                    forall|k: int| i <= k < j ==> !is_ws(#[trigger] s@[k]),
                decreases n - j,
            {
                j += 1;
            }
            let ghost t = s@.skip(i as int);
            proof {
                lemma_word_len(t, j - i);
                assert(t.take(j - i) =~= s@.subrange(i as int, j as int));
                assert(t.skip(j - i) =~= s@.skip(j as int));
            }
            let ghost old_r = r@;
            r.push((i, j));
            proof {
                assert forall|k: int| 0 <= k < r@.len() implies #[trigger] r@[k].0 <= r@[k].1
                    && r@[k].1 <= s@.len() by {
                    if k < old_r.len() {
                        assert(r@[k] == old_r[k]);
                    }
                }
                assert(slices(s@, r@) =~= slices(s@, old_r).push(
                    s@.subrange(i as int, j as int),
                ));
                assert(slices(s@, r@) + words(s@.skip(j as int)) =~= slices(s@, old_r) + words(t));
            }
            i = j;
        }
    }
    assert(s@.skip(n as int) =~= Seq::<char>::empty());
    assert(slices(s@, r@) =~= slices(s@, r@) + words(s@.skip(n as int)));
    r
}

/// The text of an optional string slice.
pub open spec fn opt_str(o: Option<&str>) -> Option<Seq<char>> {
    match o {
        Some(s) => Some(s@),
        None => None,
    }
}

/// The text of an optional string.
pub open spec fn opt_string(o: Option<String>) -> Option<Seq<char>> {
    match o {
        Some(s) => Some(s@),
        None => None,
    }
}

// ---------------------------------------------------------------------------
// Character-level helpers on executable text
// ---------------------------------------------------------------------------

/// The characters of `s`, in order.
pub fn chars_of(s: &str) -> (v: Vec<char>)
    ensures
        v@ == s@,
{
    let mut v: Vec<char> = Vec::new();
    for c in it: s.chars()
        invariant
            v@ == it.seq().take(it.index() as int),
    {
        v.push(c);
    }
    v
}

/// The text of `s` between character positions `a` and `b`.
pub fn substring(s: &str, a: usize, b: usize) -> (res: String)
    requires
        a <= b <= s@.len(),
    ensures
        res@ == s@.subrange(a as int, b as int),
{
    s.substring_char(a, b).to_owned()
}

/// Start and end positions of `trim(v)` inside `v`.
pub fn trim_bounds(v: &Vec<char>) -> (r: (usize, usize))
    ensures
        r.0 <= r.1 <= v@.len(),
        v@.subrange(r.0 as int, r.1 as int) == trim(v@),
{
    let n = v.len();
    let mut a: usize = 0;
    while a < n && is_whitespace(v[a])
        invariant
            n == v@.len(),
            a <= n,
            forall|k: int| 0 <= k < a ==> is_ws(#[trigger] v@[k]),
        decreases n - a,
    {
        a += 1;
    }
    let mut b: usize = n;
    while b > a && is_whitespace(v[b - 1])
        invariant
            n == v@.len(),
            a <= b <= n,
            forall|k: int| b <= k < n ==> is_ws(#[trigger] v@[k]),
        decreases b,
    {
        b -= 1;
    }
    proof {
        lemma_lead_ws(v@, a as int);
        let t = v@.skip(a as int);
        assert(trim_start(v@) == t);
        lemma_trail_ws(t, (n - b) as int);
        assert(trim(v@) =~= v@.subrange(a as int, b as int));
    }
    (a, b)
}

/// `s` without leading and trailing whitespace.
pub fn trim_str(s: &str) -> (res: String)
    ensures
        res@ == trim(s@),
{
    let v = chars_of(s);
    let (a, b) = trim_bounds(&v);
    substring(s, a, b)
}

/// The texts of a sequence of strings.
pub open spec fn string_views(v: Seq<String>) -> Seq<Seq<char>> {
    v.map_values(|x: String| x@)
}

/// The lines of `s`, each trimmed if `trimmed` holds.
pub fn lines_of(s: &str, trimmed: bool) -> (r: Vec<String>)
    ensures
        trimmed ==> string_views(r@) == lines(s@).map_values(|l: Seq<char>| trim(l)),
        !trimmed ==> string_views(r@) == lines(s@),
{
    let v = chars_of(s);
    let lr = line_ranges(&v);
    let ghost ls = slices(v@, lr@);
    let mut r: Vec<String> = Vec::new();
    let mut k: usize = 0;
    while k < lr.len()
        invariant
            v@ == s@,
            ls == slices(v@, lr@),
            ranges_ok(v@, lr@),
            k <= lr@.len(),
            r@.len() == k,
            forall|j: int|
                0 <= j < k ==> #[trigger] r@[j]@ == if trimmed {
                    trim(ls[j])
                } else {
                    ls[j]
                },
        decreases lr@.len() - k,
    {
        let (a, b) = lr[k];
        assert(ranges_ok(v@, lr@));
        assert(lr@[k as int].0 <= lr@[k as int].1 <= v@.len());
        let l = substring(s, a, b);
        assert(l@ == ls[k as int]);
        if trimmed {
            r.push(trim_str(l.as_str()));
        } else {
            r.push(l);
        }
        k += 1;
    }
    if trimmed {
        assert(string_views(r@) =~= ls.map_values(|l: Seq<char>| trim(l)));
    } else {
        assert(string_views(r@) =~= ls);
    }
    r
}

/// Each line with two spaces in front.
pub open spec fn indented(ls: Seq<Seq<char>>) -> Seq<Seq<char>> {
    ls.map_values(|l: Seq<char>| "  "@ + l)
}

/// Push each of `items`, indented by two spaces, onto `out`.
pub fn push_indented(out: &mut Vec<String>, items: &Vec<String>)
    ensures
        string_views(final(out)@) == string_views(old(out)@) + indented(string_views(items@)),
{
    let ghost start = string_views(out@);
    let mut k: usize = 0;
    while k < items.len()
        invariant
            k <= items@.len(),
            string_views(out@) == start + indented(string_views(items@).take(k as int)),
        decreases items@.len() - k,
    {
        let mut l = "  ".to_owned();
        l.append(items[k].as_str());
        let ghost before = string_views(out@);
        out.push(l);
        assert(string_views(items@).take(k + 1) =~= string_views(items@).take(k as int).push(
            items@[k as int]@,
        ));
        assert(string_views(out@) =~= before.push(l@));
        assert(indented(string_views(items@).take(k + 1)) =~= indented(
            string_views(items@).take(k as int),
        ).push("  "@ + items@[k as int]@));
        k += 1;
    }
    assert(string_views(items@).take(items@.len() as int) =~= string_views(items@));
}

/// Number of whitespace characters in `v`.
pub fn count_ws(v: &Vec<char>) -> (n: usize)
    ensures
        n == ws_count(v@),
{
    let mut n: usize = 0;
    let mut i: usize = 0;
    assert(v@.take(0) =~= Seq::<char>::empty());
    while i < v.len()
        invariant
            i <= v@.len(),
            n <= i,
            n == ws_count(v@.take(i as int)),
        decreases v@.len() - i,
    {
        assert(v@.take(i + 1).drop_last() =~= v@.take(i as int));
        if is_whitespace(v[i]) {
            n += 1;
        }
        i += 1;
    }
    assert(v@.take(v@.len() as int) =~= v@);
    n
}

/// Whether `a` and `b` hold the same text.
pub fn str_eq(a: &str, b: &str) -> (r: bool)
    ensures
        r == (a@ == b@),
{
    let x = chars_of(a);
    let y = chars_of(b);
    if x.len() != y.len() {
        return false;
    }
    let mut i: usize = 0;
    while i < x.len()
        invariant
            x@ == a@,
            y@ == b@,
            x@.len() == y@.len(),
            i <= x@.len(),
            forall|k: int| 0 <= k < i ==> x@[k] == y@[k],
        decreases x@.len() - i,
    {
        if x[i] != y[i] {
            return false;
        }
        i += 1;
    }
    assert(x@ =~= y@);
    true
}

// ---------------------------------------------------------------------------
// Substring search
// ---------------------------------------------------------------------------

/// `needle` occurs in `hay` at position `i`.
pub open spec fn occurs_at(hay: Seq<char>, needle: Seq<char>, i: int) -> bool {
    0 <= i && i + needle.len() <= hay.len() && hay.subrange(i, i + needle.len()) == needle
}

/// `needle` occurs somewhere in `hay` (`str::contains`; the empty text occurs everywhere).
pub open spec fn contains(hay: Seq<char>, needle: Seq<char>) -> bool {
    exists|i: int| occurs_at(hay, needle, i)
}

fn matches_at(h: &Vec<char>, nd: &Vec<char>, i: usize) -> (b: bool)
    requires
        i + nd@.len() <= h@.len(),
    ensures
        b == (h@.subrange(i as int, i + nd@.len()) == nd@),
{
    let hn = h.len();
    let mut j: usize = 0;
    while j < nd.len()
        invariant
            hn == h@.len(),
            i + nd@.len() <= h@.len(),
            j <= nd@.len(),
            forall|k: int| 0 <= k < j ==> h@[i + k] == nd@[k],
        decreases nd@.len() - j,
    {
        if h[i + j] != nd[j] {
            assert(h@.subrange(i as int, i + nd@.len())[j as int] != nd@[j as int]);
            return false;
        }
        j += 1;
    }
    assert(h@.subrange(i as int, i + nd@.len()) =~= nd@);
    true
}

/// Text is found wherever it stands in a longer text: at the start, in the
/// middle or at the end.
pub proof fn lemma_contains_anywhere(a: Seq<char>, needle: Seq<char>, b: Seq<char>)
    ensures
        contains(a + needle + b, needle),
{
    assert((a + needle + b).subrange(a.len() as int, (a.len() + needle.len()) as int) =~= needle);
    assert(occurs_at(a + needle + b, needle, a.len() as int));
}

/// Whether `needle` occurs in `hay`.
pub fn contains_str(hay: &str, needle: &str) -> (b: bool)
    ensures
        b == contains(hay@, needle@),
{
    let h = chars_of(hay);
    let nd = chars_of(needle);
    if nd.len() > h.len() {
        assert forall|i: int| !occurs_at(hay@, needle@, i) by {}
        return false;
    }
    if nd.len() == 0 {
        assert(hay@.subrange(0, 0) =~= needle@);
        assert(occurs_at(hay@, needle@, 0));
        return true;
    }
    let mut i: usize = 0;
    while nd.len() <= h.len() - i
        invariant
            h@ == hay@,
            nd@ == needle@,
            i <= h@.len(),
            1 <= nd@.len() <= h@.len(),
            forall|k: int| 0 <= k < i ==> !occurs_at(hay@, needle@, k),
        decreases h@.len() - i,
    {
        if matches_at(&h, &nd, i) {
            assert(occurs_at(hay@, needle@, i as int));
            return true;
        }
        i += 1;
    }
    assert forall|k: int| !occurs_at(hay@, needle@, k) by {
        if 0 <= k < i {
        }
    }
    false
}

} // verus!
