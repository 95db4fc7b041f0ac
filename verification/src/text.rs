//! Character and string helpers with their specifications.
//!
//! The functions here follow the behaviour of the standard library's
//! `char::is_whitespace`, `str::trim`, `str::lines`, `str::split` and
//! `str::contains`, each stated as a short spec function over `Seq<char>`.

use vstd::prelude::*;

verus! {

broadcast use vstd::string::group_string_axioms;

// ---------------------------------------------------------------------------
// Whitespace and trimming
// ---------------------------------------------------------------------------

/// The Unicode `White_Space` property, which `char::is_whitespace` tests.
pub open spec fn is_white_space(c: char) -> bool {
    ||| ('\u{9}' <= c && c <= '\u{d}')
    ||| c == ' '
    ||| c == '\u{85}'
    ||| c == '\u{a0}'
    ||| c == '\u{1680}'
    ||| ('\u{2000}' <= c && c <= '\u{200a}')
    ||| c == '\u{2028}'
    ||| c == '\u{2029}'
    ||| c == '\u{202f}'
    ||| c == '\u{205f}'
    ||| c == '\u{3000}'
}

/// Whether `c` is Unicode white space.
pub fn is_whitespace(c: char) -> (b: bool)
    ensures
        b == is_white_space(c),
{
    ('\u{9}' <= c && c <= '\u{d}') || c == ' ' || c == '\u{85}' || c == '\u{a0}' || c
        == '\u{1680}' || ('\u{2000}' <= c && c <= '\u{200a}') || c == '\u{2028}' || c
        == '\u{2029}' || c == '\u{202f}' || c == '\u{205f}' || c == '\u{3000}'
}

/// `s` without its leading white space.
pub open spec fn trim_start_spec(s: Seq<char>) -> Seq<char>
    decreases s.len(),
{
    if s.len() > 0 && is_white_space(s[0]) {
        trim_start_spec(s.drop_first())
    } else {
        s
    }
}

/// `s` without its trailing white space.
pub open spec fn trim_end_spec(s: Seq<char>) -> Seq<char>
    decreases s.len(),
{
    if s.len() > 0 && is_white_space(s.last()) {
        trim_end_spec(s.drop_last())
    } else {
        s
    }
}

/// `s` without leading and trailing white space (`str::trim`).
pub open spec fn trim_spec(s: Seq<char>) -> Seq<char> {
    trim_end_spec(trim_start_spec(s))
}

/// Whether every character of `s` is white space.
pub open spec fn all_white_space(s: Seq<char>) -> bool {
    forall|k: int| 0 <= k < s.len() ==> is_white_space(#[trigger] s[k])
}

proof fn lemma_trim_start_skip(s: Seq<char>, i: int)
    requires
        0 <= i <= s.len(),
        forall|k: int| 0 <= k < i ==> is_white_space(#[trigger] s[k]),
        i == s.len() || !is_white_space(s[i]),
    ensures
        trim_start_spec(s) == s.skip(i),
    decreases i,
{
    if i == 0 {
        assert(s.skip(0) =~= s);
    } else {
        let t = s.drop_first();
        assert forall|k: int| 0 <= k < i - 1 implies is_white_space(#[trigger] t[k]) by {
            assert(t[k] == s[k + 1]);
        }
        if i - 1 < t.len() {
            assert(t[i - 1] == s[i]);
        }
        lemma_trim_start_skip(t, i - 1);
        assert(t.skip(i - 1) =~= s.skip(i));
    }
}

proof fn lemma_trim_end_take(s: Seq<char>, j: int)
    requires
        0 <= j <= s.len(),
        forall|k: int| j <= k < s.len() ==> is_white_space(#[trigger] s[k]),
        j == 0 || !is_white_space(s[j - 1]),
    ensures
        trim_end_spec(s) == s.take(j),
    decreases s.len() - j,
{
    if j == s.len() {
        assert(s.take(j) =~= s);
    } else {
        let t = s.drop_last();
        assert forall|k: int| j <= k < t.len() implies is_white_space(#[trigger] t[k]) by {
            assert(t[k] == s[k]);
        }
        if j > 0 {
            assert(t[j - 1] == s[j - 1]);
        }
        lemma_trim_end_take(t, j);
        assert(t.take(j) =~= s.take(j));
    }
}

/// The trimmed text is empty exactly when the text is all white space.
pub proof fn lemma_trim_empty(s: Seq<char>)
    ensures
        (trim_spec(s).len() == 0) == all_white_space(s),
    decreases s.len(),
{
    if s.len() > 0 && is_white_space(s[0]) {
        lemma_trim_empty(s.drop_first());
        assert(trim_spec(s) == trim_spec(s.drop_first()));
        if all_white_space(s.drop_first()) {
            assert forall|k: int| 0 <= k < s.len() implies is_white_space(#[trigger] s[k]) by {
                if k > 0 {
                    assert(s[k] == s.drop_first()[k - 1]);
                }
            }
        } else {
            let k = choose|k: int|
                0 <= k < s.drop_first().len() && !is_white_space(#[trigger] s.drop_first()[k]);
            assert(s[k + 1] == s.drop_first()[k]);
        }
    } else if s.len() > 0 {
        assert(trim_start_spec(s) == s);
        lemma_trim_end_nonempty(s);
    } else {
    }
}

/// A trimmed text neither starts nor ends with white space.
pub proof fn lemma_trim_ends(s: Seq<char>)
    ensures
        trim_spec(s).len() > 0 ==> !is_white_space(trim_spec(s)[0]) && !is_white_space(
            trim_spec(s).last(),
        ),
{
    lemma_trim_start_head(s);
    lemma_trim_end_prefix(trim_start_spec(s));
}

proof fn lemma_trim_start_head(s: Seq<char>)
    ensures
        trim_start_spec(s).len() > 0 ==> !is_white_space(trim_start_spec(s)[0]),
    decreases s.len(),
{
    if s.len() > 0 && is_white_space(s[0]) {
        lemma_trim_start_head(s.drop_first());
    }
}

proof fn lemma_trim_end_prefix(s: Seq<char>)
    ensures
        trim_end_spec(s).len() <= s.len(),
        trim_end_spec(s) == s.take(trim_end_spec(s).len() as int),
        trim_end_spec(s).len() > 0 ==> !is_white_space(trim_end_spec(s).last()),
    decreases s.len(),
{
    if s.len() > 0 && is_white_space(s.last()) {
        let t = s.drop_last();
        lemma_trim_end_prefix(t);
        assert(t.take(trim_end_spec(t).len() as int) =~= s.take(trim_end_spec(t).len() as int));
    } else {
        assert(s.take(s.len() as int) =~= s);
    }
}

proof fn lemma_trim_end_nonempty(s: Seq<char>)
    requires
        s.len() > 0,
        !is_white_space(s[0]),
    ensures
        trim_end_spec(s).len() > 0,
    decreases s.len(),
{
    if is_white_space(s.last()) {
        lemma_trim_end_nonempty(s.drop_last());
    }
}

/// Copies the characters of a string slice into a vector.
pub fn to_chars(s: &str) -> (v: Vec<char>)
    ensures
        v@ == s@,
{
    let mut v: Vec<char> = Vec::new();
    for c in it: s.chars()
        invariant
            it.seq() == s@,
            v@ == it.seq().take(it.index() as int),
    {
        v.push(c);
    }
    v
}

/// Appends one character to a string (`String::push`).
///
/// Trusted: the string's characters are the old ones followed by `c`.
#[verifier::external_body]
pub(crate) fn push_char(s: &mut String, c: char)
    ensures
        final(s)@ == old(s)@.push(c),
{
    s.push(c);
}

/// Builds a string from the characters `v[from..to]`.
pub fn string_of_range(v: &Vec<char>, from: usize, to: usize) -> (s: String)
    requires
        from <= to <= v@.len(),
    ensures
        s@ == v@.subrange(from as int, to as int),
{
    let mut s = String::new();
    let mut k = from;
    while k < to
        invariant
            from <= k <= to <= v@.len(),
            s@ == v@.subrange(from as int, k as int),
        decreases to - k,
    {
        push_char(&mut s, v[k]);
        assert(v@.subrange(from as int, k + 1) =~= v@.subrange(from as int, k as int).push(
            v@[k as int],
        ));
        k = k + 1;
    }
    s
}

/// Index range `[i, j)` of the trimmed part of `v`.
fn trim_bounds(v: &Vec<char>) -> (r: (usize, usize))
    ensures
        r.0 <= r.1 <= v@.len(),
        trim_spec(v@) == v@.subrange(r.0 as int, r.1 as int),
{
    let len = v.len();
    let mut i: usize = 0;
    while i < len && is_whitespace(v[i])
        invariant
            0 <= i <= len == v@.len(),
            forall|k: int| 0 <= k < i ==> is_white_space(#[trigger] v@[k]),
        decreases len - i,
    {
        i = i + 1;
    }
    proof {
        lemma_trim_start_skip(v@, i as int);
    }
    let mut j: usize = len;
    while j > i && is_whitespace(v[j - 1])
        invariant
            i <= j <= len == v@.len(),
            forall|k: int| j <= k < len ==> is_white_space(#[trigger] v@[k]),
        decreases j - i,
    {
        j = j - 1;
    }
    proof {
        let t = v@.skip(i as int);
        assert forall|k: int| (j - i) <= k < t.len() implies is_white_space(#[trigger] t[k]) by {
            assert(t[k] == v@[k + i]);
        }
        if j - i > 0 {
            assert(t[j - i - 1] == v@[j - 1]);
        }
        lemma_trim_end_take(t, j - i);
        assert(t.take(j - i) =~= v@.subrange(i as int, j as int));
    }
    (i, j)
}

/// `s` without leading and trailing white space (`str::trim`).
pub fn trim(s: &str) -> (r: String)
    ensures
        r@ == trim_spec(s@),
{
    let v = to_chars(s);
    let (i, j) = trim_bounds(&v);
    string_of_range(&v, i, j)
}

/// Whether `s` is empty or white space only (`s.trim().is_empty()`).
pub fn is_blank(s: &str) -> (b: bool)
    ensures
        b == (trim_spec(s@).len() == 0),
{
    let v = to_chars(s);
    let (i, j) = trim_bounds(&v);
    i == j
}

// ---------------------------------------------------------------------------
// Splitting
// ---------------------------------------------------------------------------

/// Index of the first `c` in `s`, or `s.len()` when there is none.
pub open spec fn find_char(s: Seq<char>, c: char) -> int
    decreases s.len(),
{
    if s.len() == 0 {
        0
    } else if s[0] == c {
        0
    } else {
        1 + find_char(s.drop_first(), c)
    }
}

/// `find_char` is the first position of `c`, or the length.
pub proof fn lemma_find_char(s: Seq<char>, c: char)
    ensures
        0 <= find_char(s, c) <= s.len(),
        forall|k: int| 0 <= k < find_char(s, c) ==> s[k] != c,
        find_char(s, c) < s.len() ==> s[find_char(s, c)] == c,
    decreases s.len(),
{
    if s.len() > 0 && s[0] != c {
        lemma_find_char(s.drop_first(), c);
        assert forall|k: int| 0 <= k < find_char(s, c) implies s[k] != c by {
            if k > 0 {
                assert(s[k] == s.drop_first()[k - 1]);
            }
        }
    }
}

/// A position with no `c` before it and `c` at it (or the end) is `find_char`.
pub proof fn lemma_find_char_at(s: Seq<char>, c: char, i: int)
    requires
        0 <= i <= s.len(),
        forall|k: int| 0 <= k < i ==> s[k] != c,
        i < s.len() ==> s[i] == c,
    ensures
        find_char(s, c) == i,
    decreases i,
{
    if i > 0 {
        let t = s.drop_first();
        assert forall|k: int| 0 <= k < i - 1 implies t[k] != c by {
            assert(t[k] == s[k + 1]);
        }
        if i - 1 < t.len() {
            assert(t[i - 1] == s[i]);
        }
        lemma_find_char_at(t, c, i - 1);
    }
}

/// Drops one trailing carriage return.
pub open spec fn strip_cr(l: Seq<char>) -> Seq<char> {
    if l.len() > 0 && l.last() == '\r' {
        l.drop_last()
    } else {
        l
    }
}

/// The lines of `s` as `str::lines` yields them: pieces between `\n`,
/// each without a `\r` just before its `\n`; no empty piece after a final
/// `\n`, and no line at all for the empty string.
pub open spec fn lines_spec(s: Seq<char>) -> Seq<Seq<char>>
    decreases s.len(),
{
    if s.len() == 0 {
        seq![]
    } else {
        let e = find_char(s, '\n');
        if e >= s.len() {
            seq![s]
        } else {
            proof {
                lemma_find_char(s, '\n');
            }
            seq![strip_cr(s.take(e))] + lines_spec(s.skip(e + 1))
        }
    }
}

/// The pieces of `s` between occurrences of `c`, as `str::split(c)`
/// yields them (empty pieces included; one empty piece for the empty string).
pub open spec fn split_spec(s: Seq<char>, c: char) -> Seq<Seq<char>>
    decreases s.len(),
{
    let e = find_char(s, c);
    if e >= s.len() {
        seq![s]
    } else {
        proof {
            lemma_find_char(s, c);
        }
        seq![s.take(e)] + split_spec(s.skip(e + 1), c)
    }
}

/// `split_spec` always yields at least one piece.
pub proof fn lemma_split_nonempty(s: Seq<char>, c: char)
    ensures
        split_spec(s, c).len() >= 1,
    decreases s.len(),
{
    lemma_find_char(s, c);
    if find_char(s, c) < s.len() {
        lemma_split_nonempty(s.skip(find_char(s, c) + 1), c);
    }
}

/// Appending a character to a text either starts a new piece (the
/// separator) or extends the last piece.
pub proof fn lemma_split_push(s: Seq<char>, c: char, x: char)
    ensures
        split_spec(s.push(x), c) == if x == c {
            split_spec(s, c).push(seq![])
        } else {
            split_spec(s, c).drop_last().push(split_spec(s, c).last().push(x))
        },
    decreases s.len(),
{
    let t = s.push(x);
    let e = find_char(s, c);
    lemma_find_char(s, c);
    lemma_split_nonempty(s, c);
    if e >= s.len() {
        if x == c {
            lemma_find_char_at(t, c, s.len() as int);
            assert(t.take(s.len() as int) =~= s);
            assert(t.skip(s.len() as int + 1) =~= Seq::<char>::empty());
            lemma_find_char_at(Seq::<char>::empty(), c, 0);
            assert(split_spec(Seq::<char>::empty(), c) == seq![Seq::<char>::empty()]);
            assert(split_spec(t, c) =~= seq![s].push(seq![]));
        } else {
            lemma_find_char_at(t, c, t.len() as int);
            assert(split_spec(t, c) =~= seq![t]);
            assert(split_spec(s, c).drop_last().push(split_spec(s, c).last().push(x)) =~= seq![t]);
        }
    } else {
        lemma_find_char_at(t, c, e);
        let rest = s.skip(e + 1);
        assert(t.take(e) =~= s.take(e));
        assert(t.skip(e + 1) =~= rest.push(x));
        lemma_split_push(rest, c, x);
        lemma_split_nonempty(rest, c);
        let r = split_spec(rest, c);
        assert(split_spec(s, c) == seq![s.take(e)] + r);
        if x == c {
            assert(seq![s.take(e)] + r.push(seq![]) =~= (seq![s.take(e)] + r).push(seq![]));
        } else {
            assert((seq![s.take(e)] + r).drop_last() =~= seq![s.take(e)] + r.drop_last());
            assert((seq![s.take(e)] + r).last() == r.last());
            assert(seq![s.take(e)] + r.drop_last().push(r.last().push(x)) =~= (seq![s.take(e)]
                + r.drop_last()).push(r.last().push(x)));
        }
    }
}

fn strip_cr_range(v: &Vec<char>, from: usize, to: usize) -> (r: String)
    requires
        from <= to <= v@.len(),
    ensures
        r@ == strip_cr(v@.subrange(from as int, to as int)),
{
    if to > from && v[to - 1] == '\r' {
        let r = string_of_range(v, from, to - 1);
        assert(v@.subrange(from as int, to as int).drop_last() =~= v@.subrange(
            from as int,
            to - 1,
        ));
        r
    } else {
        string_of_range(v, from, to)
    }
}

/// Views of a sequence of strings.
pub open spec fn views(v: Seq<String>) -> Seq<Seq<char>> {
    v.map_values(|x: String| x@)
}

/// The lines of `s` (`str::lines`).
pub fn lines(s: &str) -> (r: Vec<String>)
    ensures
        views(r@) == lines_spec(s@),
{
    let v = to_chars(s);
    let len = v.len();
    let mut r: Vec<String> = Vec::new();
    let mut start: usize = 0;
    let mut pos: usize = 0;
    assert(v@.skip(0) =~= v@);
    assert(views(r@) + lines_spec(v@) =~= lines_spec(v@));
    while pos < len
        invariant
            0 <= start <= pos <= len == v@.len(),
            v@ == s@,
            forall|k: int| start <= k < pos ==> v@[k] != '\n',
            lines_spec(v@) == views(r@) + lines_spec(v@.skip(start as int)),
        decreases len - pos,
    {
        if v[pos] == '\n' {
            let ghost t = v@.skip(start as int);
            let ghost old_r = views(r@);
            let ghost e = pos - start;
            proof {
                assert forall|k: int| 0 <= k < e implies t[k] != '\n' by {
                    assert(t[k] == v@[k + start]);
                }
                assert(t[e] == v@[pos as int]);
                lemma_find_char_at(t, '\n', e);
                assert(t.take(e) =~= v@.subrange(start as int, pos as int));
                assert(t.skip(e + 1) =~= v@.skip(pos + 1));
            }
            let line = strip_cr_range(&v, start, pos);
            r.push(line);
            start = pos + 1;
            pos = pos + 1;
            proof {
                assert(views(r@) =~= old_r.push(strip_cr(t.take(e))));
                assert(old_r + lines_spec(t) =~= views(r@) + lines_spec(t.skip(e + 1)));
            }
        } else {
            pos = pos + 1;
        }
    }
    if start < len {
        let ghost t = v@.skip(start as int);
        let ghost old_r = views(r@);
        proof {
            assert forall|k: int| 0 <= k < len - start implies t[k] != '\n' by {
                assert(t[k] == v@[k + start]);
            }
            lemma_find_char_at(t, '\n', len - start);
            assert(t =~= v@.subrange(start as int, len as int));
        }
        let line = string_of_range(&v, start, len);
        r.push(line);
        assert(views(r@) =~= old_r.push(t));
        assert(views(r@) =~= old_r + lines_spec(t));
    } else {
        assert(v@.skip(start as int).len() == 0);
        assert(views(r@) + lines_spec(v@.skip(start as int)) =~= views(r@));
    }
    r
}

/// The pieces of `s` between occurrences of `c` (`str::split`).
pub fn split_on(s: &str, c: char) -> (r: Vec<String>)
    ensures
        views(r@) == split_spec(s@, c),
{
    let v = to_chars(s);
    let len = v.len();
    let mut r: Vec<String> = Vec::new();
    let mut start: usize = 0;
    let mut pos: usize = 0;
    assert(v@.skip(0) =~= v@);
    assert(views(r@) + split_spec(v@, c) =~= split_spec(v@, c));
    while pos < len
        invariant
            0 <= start <= pos <= len == v@.len(),
            v@ == s@,
            forall|k: int| start <= k < pos ==> v@[k] != c,
            split_spec(v@, c) == views(r@) + split_spec(v@.skip(start as int), c),
        decreases len - pos,
    {
        if v[pos] == c {
            let ghost t = v@.skip(start as int);
            let ghost old_r = views(r@);
            let ghost e = pos - start;
            proof {
                assert forall|k: int| 0 <= k < e implies t[k] != c by {
                    assert(t[k] == v@[k + start]);
                }
                assert(t[e] == v@[pos as int]);
                lemma_find_char_at(t, c, e);
                assert(t.take(e) =~= v@.subrange(start as int, pos as int));
                assert(t.skip(e + 1) =~= v@.skip(pos + 1));
            }
            let piece = string_of_range(&v, start, pos);
            r.push(piece);
            start = pos + 1;
            pos = pos + 1;
            proof {
                assert(views(r@) =~= old_r.push(t.take(e)));
                assert(old_r + split_spec(t, c) =~= views(r@) + split_spec(t.skip(e + 1), c));
            }
        } else {
            pos = pos + 1;
        }
    }
    let ghost t = v@.skip(start as int);
    let ghost old_r = views(r@);
    proof {
        assert forall|k: int| 0 <= k < len - start implies t[k] != c by {
            assert(t[k] == v@[k + start]);
        }
        lemma_find_char_at(t, c, len - start);
        assert(t =~= v@.subrange(start as int, len as int));
    }
    let piece = string_of_range(&v, start, len);
    r.push(piece);
    assert(views(r@) =~= old_r.push(t));
    assert(views(r@) =~= old_r + split_spec(t, c));
    r
}

// ---------------------------------------------------------------------------
// Searching
// ---------------------------------------------------------------------------

/// Whether `needle` occurs in `hay` at position `i`.
pub open spec fn occurs_at(hay: Seq<char>, needle: Seq<char>, i: int) -> bool {
    0 <= i && i + needle.len() <= hay.len() && hay.subrange(i, i + needle.len()) == needle
}

/// Whether `needle` occurs in `hay` (`str::contains`).
pub open spec fn contains_spec(hay: Seq<char>, needle: Seq<char>) -> bool {
    exists|i: int| occurs_at(hay, needle, i)
}

/// Whether `hay` begins with `prefix` (`str::starts_with`).
pub open spec fn starts_with_spec(hay: Seq<char>, prefix: Seq<char>) -> bool {
    prefix.len() <= hay.len() && hay.take(prefix.len() as int) == prefix
}

fn occurs_at_exec(h: &Vec<char>, n: &Vec<char>, i: usize) -> (b: bool)
    requires
        i + n@.len() <= h@.len(),
    ensures
        b == occurs_at(h@, n@, i as int),
{
    let mut j: usize = 0;
    let hl = h.len();
    while j < n.len()
        invariant
            0 <= j <= n@.len(),
            hl == h@.len(),
            i + n@.len() <= h@.len(),
            forall|k: int| 0 <= k < j ==> h@[i + k] == n@[k],
        decreases n@.len() - j,
    {
        if h[i + j] != n[j] {
            assert(h@.subrange(i as int, i + n@.len())[j as int] != n@[j as int]);
            return false;
        }
        j = j + 1;
    }
    assert(h@.subrange(i as int, i + n@.len()) =~= n@);
    true
}

/// Whether `needle` occurs in `hay` (`str::contains`).
pub fn contains(hay: &str, needle: &str) -> (b: bool)
    ensures
        b == contains_spec(hay@, needle@),
{
    let h = to_chars(hay);
    let n = to_chars(needle);
    if n.len() > h.len() {
        assert forall|i: int| !occurs_at(h@, n@, i) by {}
        return false;
    }
    let last = h.len() - n.len();
    let mut i: usize = 0;
    loop
        invariant
            0 <= i <= last,
            last + n@.len() == h@.len(),
            h@ == hay@,
            n@ == needle@,
            forall|k: int| 0 <= k < i ==> !occurs_at(h@, n@, k),
        decreases last - i,
    {
        if occurs_at_exec(&h, &n, i) {
            return true;
        }
        if i == last {
            assert forall|k: int| !occurs_at(h@, n@, k) by {
                if 0 <= k <= i {
                }
            }
            return false;
        }
        i = i + 1;
    }
}

/// Whether `hay` begins with `prefix` (`str::starts_with`).
pub fn starts_with(hay: &str, prefix: &str) -> (b: bool)
    ensures
        b == starts_with_spec(hay@, prefix@),
{
    let h = to_chars(hay);
    let p = to_chars(prefix);
    if p.len() > h.len() {
        return false;
    }
    let b = occurs_at_exec(&h, &p, 0);
    assert(h@.subrange(0, p@.len() as int) =~= h@.take(p@.len() as int));
    b
}

/// The characters of `s` from position `from` on.
pub fn suffix_from(s: &str, from: usize) -> (r: String)
    requires
        from <= s@.len(),
    ensures
        r@ == s@.skip(from as int),
{
    let v = to_chars(s);
    let r = string_of_range(&v, from, v.len());
    assert(v@.subrange(from as int, v@.len() as int) =~= s@.skip(from as int));
    r
}

/// The characters of `s` before position `to`.
pub fn prefix_to(s: &str, to: usize) -> (r: String)
    requires
        to <= s@.len(),
    ensures
        r@ == s@.take(to as int),
{
    let v = to_chars(s);
    let r = string_of_range(&v, 0, to);
    assert(v@.subrange(0, to as int) =~= s@.take(to as int));
    r
}

// ---------------------------------------------------------------------------
// Building strings
// ---------------------------------------------------------------------------

/// The decimal digit for `d < 10`.
pub open spec fn digit_char(d: nat) -> char {
    ((d + 48) as u8) as char
}

/// The decimal representation of `n`, without leading zeros.
pub open spec fn decimal_spec(n: nat) -> Seq<char>
    decreases n,
{
    if n < 10 {
        seq![digit_char(n)]
    } else {
        decimal_spec(n / 10).push(digit_char(n % 10))
    }
}

/// The number that a sequence of decimal digits denotes.
pub open spec fn digits_value(ds: Seq<char>) -> int
    decreases ds.len(),
{
    if ds.len() == 0 {
        0
    } else {
        digits_value(ds.drop_last()) * 10 + (ds.last() as int - '0' as int)
    }
}

/// The decimal representation of `n` is made of digits, has no leading
/// zero (but for `0` itself), and denotes `n`.
pub proof fn law_decimal(n: nat)
    ensures
        decimal_spec(n).len() >= 1,
        forall|k: int| 0 <= k < decimal_spec(n).len() ==> '0' <= #[trigger] decimal_spec(n)[k] <= '9',
        n > 0 ==> decimal_spec(n)[0] != '0',
        digits_value(decimal_spec(n)) == n,
    decreases n,
{
    assert forall|d: nat| d < 10 implies (#[trigger] digit_char(d)) as int == d + 48 by {}
    if n < 10 {
        let ds = decimal_spec(n);
        assert(ds.drop_last() =~= Seq::<char>::empty());
        assert(digits_value(Seq::<char>::empty()) == 0);
        assert(ds.last() == digit_char(n));
        assert('0' as int == 48);
        assert(digits_value(ds) == digits_value(ds.drop_last()) * 10 + (ds.last() as int - '0' as int));
    } else {
        law_decimal(n / 10);
        let ds = decimal_spec(n);
        let p = decimal_spec(n / 10);
        assert(ds.drop_last() =~= p);
        assert(ds[0] == p[0]);
        assert(ds.last() == digit_char(n % 10));
        assert('0' as int == 48);
        assert(digits_value(ds) == digits_value(p) * 10 + (ds.last() as int - '0' as int));
        assert(n == (n / 10) * 10 + n % 10);
        assert forall|k: int| 0 <= k < ds.len() implies '0' <= #[trigger] ds[k] <= '9' by {
            if k < p.len() {
                assert(ds[k] == p[k]);
            }
        }
    }
}

/// The decimal representation of `n` (`usize::to_string`).
pub fn decimal(n: usize) -> (s: String)
    ensures
        s@ == decimal_spec(n as nat),
        digits_value(s@) == n,
    decreases n,
{
    proof {
        law_decimal(n as nat);
    }
    let d = (n % 10) as u8;
    let c = (d + 48u8) as char;
    if n < 10 {
        let mut s = String::new();
        push_char(&mut s, c);
        assert(s@ =~= decimal_spec(n as nat));
        s
    } else {
        let mut s = decimal(n / 10);
        push_char(&mut s, c);
        s
    }
}

/// Concatenation of two strings.
pub fn concat(a: &str, b: &str) -> (s: String)
    ensures
        s@ == a@ + b@,
{
    let mut s = a.to_owned();
    push_str(&mut s, b);
    s
}

/// Appends `b` to `s` (`String::push_str`).
pub fn push_str(s: &mut String, b: &str)
    ensures
        final(s)@ == old(s)@ + b@,
{
    let v = to_chars(b);
    let mut k: usize = 0;
    let ghost start = s@;
    while k < v.len()
        invariant
            0 <= k <= v@.len(),
            v@ == b@,
            s@ == start + v@.take(k as int),
        decreases v@.len() - k,
    {
        push_char(s, v[k]);
        assert(v@.take(k + 1) =~= v@.take(k as int).push(v@[k as int]));
        k = k + 1;
    }
    assert(v@.take(v@.len() as int) =~= v@);
}

/// The concatenation of `parts`, each pair separated by `sep`.
pub open spec fn join_spec(parts: Seq<Seq<char>>, sep: Seq<char>) -> Seq<char>
    decreases parts.len(),
{
    if parts.len() == 0 {
        seq![]
    } else if parts.len() == 1 {
        parts[0]
    } else {
        join_spec(parts.drop_last(), sep) + sep + parts.last()
    }
}

/// Joining two non-empty lists is joining each and putting the separator
/// between the two results.
pub proof fn law_join_concat(xs: Seq<Seq<char>>, ys: Seq<Seq<char>>, sep: Seq<char>)
    requires
        xs.len() > 0,
        ys.len() > 0,
    ensures
        join_spec(xs + ys, sep) == join_spec(xs, sep) + sep + join_spec(ys, sep),
    decreases ys.len(),
{
    let all = xs + ys;
    assert(all.drop_last() =~= xs + ys.drop_last());
    assert(all.last() == ys.last());
    if ys.len() == 1 {
        assert(xs + ys.drop_last() =~= xs);
        assert(join_spec(ys, sep) == ys[0]);
    } else {
        law_join_concat(xs, ys.drop_last(), sep);
        assert(join_spec(xs, sep) + sep + join_spec(ys.drop_last(), sep) + sep + ys.last()
            =~= join_spec(xs, sep) + sep + (join_spec(ys.drop_last(), sep) + sep + ys.last()));
    }
}

/// Joining pieces that hold no `c` with `c` and splitting the result on `c`
/// gives back the pieces: the joined text has exactly one piece per item,
/// piece `k` being item `k`.
pub proof fn law_join_split(xs: Seq<Seq<char>>, c: char)
    requires
        xs.len() > 0,
        forall|i: int, k: int| 0 <= i < xs.len() && 0 <= k < xs[i].len() ==> #[trigger] xs[i][k] != c,
    ensures
        split_spec(join_spec(xs, seq![c]), c) == xs,
    decreases xs.len(),
{
    let x0 = xs[0];
    assert forall|k: int| 0 <= k < x0.len() implies x0[k] != c by {
        assert(xs[0][k] != c);
    }
    if xs.len() == 1 {
        lemma_find_char_at(x0, c, x0.len() as int);
        assert(split_spec(x0, c) == seq![x0]);
        assert(seq![x0] =~= xs);
    } else {
        let rest = xs.skip(1);
        assert(seq![x0] + rest =~= xs);
        assert forall|i: int, k: int| 0 <= i < rest.len() && 0 <= k < rest[i].len() implies #[trigger] rest[i][k] != c by {
            assert(rest[i] == xs[i + 1]);
        }
        law_join_split(rest, c);
        law_join_concat(seq![x0], rest, seq![c]);
        assert(join_spec(seq![x0], seq![c]) == x0);
        let j = x0 + seq![c] + join_spec(rest, seq![c]);
        assert(join_spec(xs, seq![c]) == j);
        assert forall|k: int| 0 <= k < x0.len() implies j[k] != c by {
            assert(j[k] == x0[k]);
        }
        assert(j[x0.len() as int] == c);
        lemma_find_char_at(j, c, x0.len() as int);
        assert(j.take(x0.len() as int) =~= x0);
        assert(j.skip(x0.len() as int + 1) =~= join_spec(rest, seq![c]));
    }
}

/// Splitting on `c` cuts the text into pieces that hold no `c` and that,
/// joined again with `c`, give back the text.
pub proof fn law_split_join(s: Seq<char>, c: char)
    ensures
        join_spec(split_spec(s, c), seq![c]) == s,
        forall|i: int, k: int|
            0 <= i < split_spec(s, c).len() && 0 <= k < split_spec(s, c)[i].len()
                ==> #[trigger] split_spec(s, c)[i][k] != c,
    decreases s.len(),
{
    let e = find_char(s, c);
    lemma_find_char(s, c);
    if e >= s.len() {
        assert(split_spec(s, c) == seq![s]);
    } else {
        let rest = s.skip(e + 1);
        law_split_join(rest, c);
        lemma_split_nonempty(rest, c);
        let r = split_spec(rest, c);
        let head = seq![s.take(e)];
        assert(split_spec(s, c) == head + r);
        law_join_concat(head, r, seq![c]);
        assert(join_spec(head, seq![c]) == s.take(e));
        assert(s.take(e) + seq![c] + rest =~= s);
        assert forall|i: int, k: int|
            0 <= i < split_spec(s, c).len() && 0 <= k < split_spec(s, c)[i].len()
                implies #[trigger] split_spec(s, c)[i][k] != c by {
            if i == 0 {
                assert(split_spec(s, c)[0] == s.take(e));
            } else {
                assert(split_spec(s, c)[i] == r[i - 1]);
            }
        }
    }
}

/// Joins `parts` with `sep` between consecutive items (`slice::join`).
pub fn join(parts: &Vec<String>, sep: &str) -> (s: String)
    ensures
        s@ == join_spec(parts@.map_values(|p: String| p@), sep@),
{
    let ghost views = parts@.map_values(|p: String| p@);
    let mut s = String::new();
    let mut i: usize = 0;
    while i < parts.len()
        invariant
            0 <= i <= parts@.len(),
            views == parts@.map_values(|p: String| p@),
            s@ == join_spec(views.take(i as int), sep@),
        decreases parts@.len() - i,
    {
        if i > 0 {
            push_str(&mut s, sep);
        }
        push_str(&mut s, parts[i].as_str());
        proof {
            let t = views.take(i + 1);
            assert(t.drop_last() =~= views.take(i as int));
            assert(t.last() == parts@[i as int]@);
            if i == 0 {
                assert(views.take(0) =~= Seq::<Seq<char>>::empty());
            }
        }
        i = i + 1;
    }
    assert(views.take(parts@.len() as int) =~= views);
    s
}

/// Whether two strings hold the same characters.
pub fn str_eq(a: &str, b: &str) -> (r: bool)
    ensures
        r == (a@ == b@),
{
    let x = to_chars(a);
    let y = to_chars(b);
    if x.len() != y.len() {
        assert(x@.len() != y@.len());
        return false;
    }
    let mut i: usize = 0;
    while i < x.len()
        invariant
            0 <= i <= x@.len() == y@.len(),
            x@ == a@,
            y@ == b@,
            forall|k: int| 0 <= k < i ==> x@[k] == y@[k],
        decreases x@.len() - i,
    {
        if x[i] != y[i] {
            assert(x@[i as int] != y@[i as int]);
            return false;
        }
        i = i + 1;
    }
    assert(x@ =~= y@);
    true
}

} // verus!
