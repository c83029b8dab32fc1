//! Character-level text helpers: whitespace, trimming, prefixes and lines.

use vstd::prelude::*;
use vstd::string::StrSliceExecFns;

verus! {

/// The Unicode `White_Space` property, the notion of whitespace that
/// `str::trim` uses.
pub open spec fn is_ws(c: char) -> bool {
    ||| ('\u{9}' <= c && c <= '\u{d}')
    ||| c == ' '
    ||| c == '\u{85}'
    ||| c == '\u{a0}'
    ||| c == '\u{1680}'
    ||| ('\u{2000}' <= c && c <= '\u{200a}')
    ||| c == '\u{2028}'
    ||| c == '\u{2029}'
    ||| c == '\u{202f}'
    ||| c == '\u{205f}'
    ||| c == '\u{3000}'
}

/// Whether `c` is Unicode whitespace.
pub fn is_whitespace(c: char) -> (r: bool)
    ensures
        r == is_ws(c),
{
    ('\u{9}' <= c && c <= '\u{d}') || c == ' ' || c == '\u{85}' || c == '\u{a0}' || c == '\u{1680}'
        || ('\u{2000}' <= c && c <= '\u{200a}') || c == '\u{2028}' || c == '\u{2029}' || c
        == '\u{202f}' || c == '\u{205f}' || c == '\u{3000}'
}

} // verus!

verus! {

/// `s` with its leading whitespace removed.
pub open spec fn trim_start(s: Seq<char>) -> Seq<char>
    decreases s.len(),
{
    if s.len() > 0 && is_ws(s[0]) {
        trim_start(s.drop_first())
    } else {
        s
    }
}

/// `s` with its trailing whitespace removed.
pub open spec fn trim_end(s: Seq<char>) -> Seq<char>
    decreases s.len(),
{
    if s.len() > 0 && is_ws(s.last()) {
        trim_end(s.drop_last())
    } else {
        s
    }
}

/// `s` with leading and trailing whitespace removed, as `str::trim` does.
pub open spec fn trim(s: Seq<char>) -> Seq<char> {
    trim_end(trim_start(s))
}

/// Whether `s` begins with `p`.
pub open spec fn starts_with(s: Seq<char>, p: Seq<char>) -> bool {
    p.len() <= s.len() && s.take(p.len() as int) == p
}

/// Index of the first line feed in `s`, or `s.len()` when there is none.
pub open spec fn newline_index(s: Seq<char>) -> nat
    decreases s.len(),
{
    if s.len() == 0 {
        0
    } else if s[0] == '\n' {
        0
    } else {
        1 + newline_index(s.drop_first())
    }
}

/// The pieces of `s` between line feeds, in order (one piece more than
/// there are line feeds).
pub open spec fn split_lines(s: Seq<char>) -> Seq<Seq<char>>
    decreases s.len(),
{
    let i = newline_index(s);
    if i < s.len() {
        seq![s.take(i as int)] + split_lines(s.skip(i as int + 1))
    } else {
        seq![s]
    }
}

/// The characters of `s`, one by one.
pub fn chars_of(s: &str) -> (v: Vec<char>)
    ensures
        v@ == s@,
{
    let mut v: Vec<char> = Vec::new();
    for c in it: s.chars()
        invariant
            v@ == it.seq().take(it.index() as int),
            it.seq() == s@,
    {
        v.push(c);
    }
    v
}

/// The bounds of the trimmed part of `chars[from..to]`.
pub fn trim_bounds(chars: &Vec<char>, from: usize, to: usize) -> (r: (usize, usize))
    requires
        from <= to <= chars.len(),
    ensures
        from <= r.0 <= r.1 <= to,
        chars@.subrange(r.0 as int, r.1 as int) == trim(chars@.subrange(from as int, to as int)),
{
    let ghost s = chars@;
    let mut i = from;
    while i < to && is_whitespace(chars[i])
        invariant
            from <= i <= to <= chars.len(),
            s == chars@,
            trim_start(s.subrange(from as int, to as int)) == trim_start(
                s.subrange(i as int, to as int),
            ),
        decreases to - i,
    {
        assert(s.subrange(i as int, to as int).drop_first() =~= s.subrange(i + 1, to as int));
        i = i + 1;
    }
    assert(trim_start(s.subrange(i as int, to as int)) == s.subrange(i as int, to as int));
    let mut j = to;
    while j > i && is_whitespace(chars[j - 1])
        invariant
            i <= j <= to <= chars.len(),
            s == chars@,
            trim_end(s.subrange(i as int, to as int)) == trim_end(s.subrange(i as int, j as int)),
        decreases j - i,
    {
        assert(s.subrange(i as int, j as int).drop_last() =~= s.subrange(i as int, j - 1));
        j = j - 1;
    }
    (i, j)
}

/// Whether `chars[from..to]` begins with `tag`.
pub fn has_prefix_at(chars: &Vec<char>, from: usize, to: usize, tag: &str) -> (r: bool)
    requires
        from <= to <= chars.len(),
    ensures
        r == starts_with(chars@.subrange(from as int, to as int), tag@),
{
    let n = tag.unicode_len();
    if n > to - from {
        return false;
    }
    let mut k: usize = 0;
    while k < n
        invariant
            n == tag@.len(),
            n <= to - from,
            from <= to <= chars.len(),
            k <= n,
            forall|m: int| 0 <= m < k ==> chars@[from + m] == tag@[m],
        decreases n - k,
    {
        if chars[from + k] != tag.get_char(k) {
            assert(chars@.subrange(from as int, to as int).take(n as int)[k as int] != tag@[k as int]);
            return false;
        }
        k = k + 1;
    }
    assert(chars@.subrange(from as int, to as int).take(n as int) =~= tag@);
    true
}

/// The index of the first line feed in `chars[from..]`, or `chars.len()`.
pub fn line_end(chars: &Vec<char>, from: usize) -> (e: usize)
    requires
        from <= chars.len(),
    ensures
        e == from + newline_index(chars@.skip(from as int)),
        e <= chars.len(),
        e < chars.len() ==> chars@[e as int] == '\n',
{
    let ghost s = chars@;
    let mut j = from;
    while j < chars.len() && chars[j] != '\n'
        invariant
            from <= j <= chars.len(),
            s == chars@,
            newline_index(s.skip(from as int)) == (j - from) + newline_index(s.skip(j as int)),
        decreases chars.len() - j,
    {
        assert(s.skip(j as int).drop_first() =~= s.skip(j + 1));
        j = j + 1;
    }
    j
}

/// Removing leading whitespace drops exactly the whitespace before the
/// first other character.
pub proof fn lemma_trim_start_drops_leading(s: Seq<char>) -> (a: int)
    ensures
        0 <= a <= s.len(),
        trim_start(s) == s.skip(a),
        forall|k: int| 0 <= k < a ==> is_ws(#[trigger] s[k]),
        a < s.len() ==> !is_ws(s[a]),
    decreases s.len(),
{
    if s.len() > 0 && is_ws(s[0]) {
        let a1 = lemma_trim_start_drops_leading(s.drop_first());
        assert(s.drop_first().skip(a1) =~= s.skip(a1 + 1));
        assert forall|k: int| 0 <= k < a1 + 1 implies is_ws(#[trigger] s[k]) by {
            if k > 0 {
                assert(s[k] == s.drop_first()[k - 1]);
            }
        }
        a1 + 1
    } else {
        assert(s.skip(0) =~= s);
        0
    }
}

/// Removing trailing whitespace drops exactly the whitespace after the
/// last other character.
pub proof fn lemma_trim_end_drops_trailing(s: Seq<char>) -> (b: int)
    ensures
        0 <= b <= s.len(),
        trim_end(s) == s.take(b),
        forall|k: int| b <= k < s.len() ==> is_ws(#[trigger] s[k]),
        b > 0 ==> !is_ws(s[b - 1]),
    decreases s.len(),
{
    if s.len() > 0 && is_ws(s.last()) {
        let b1 = lemma_trim_end_drops_trailing(s.drop_last());
        assert(s.drop_last().take(b1) =~= s.take(b1));
        assert forall|k: int| b1 <= k < s.len() implies is_ws(#[trigger] s[k]) by {
            if k < s.len() - 1 {
                assert(s[k] == s.drop_last()[k]);
            }
        }
        b1
    } else {
        assert(s.take(s.len() as int) =~= s);
        s.len() as int
    }
}

/// Trimming keeps the middle of a text: the part between its leading and
/// its trailing whitespace, which begins and ends with a character that is
/// not whitespace (or is empty when the text is all whitespace).
pub proof fn law_trim_keeps_the_middle(s: Seq<char>)
    ensures
        exists|a: int, b: int|
            {
                &&& 0 <= a <= b <= s.len()
                &&& trim(s) == s.subrange(a, b)
                &&& forall|k: int| 0 <= k < a ==> is_ws(#[trigger] s[k])
                &&& forall|k: int| b <= k < s.len() ==> is_ws(#[trigger] s[k])
                &&& a < b ==> !is_ws(s[a]) && !is_ws(s[b - 1])
                &&& a == b ==> forall|k: int| 0 <= k < s.len() ==> is_ws(#[trigger] s[k])
            },
{
    let a = lemma_trim_start_drops_leading(s);
    let t = s.skip(a);
    let b1 = lemma_trim_end_drops_trailing(t);
    let b = a + b1;
    assert(t.take(b1) =~= s.subrange(a, b));
    assert forall|k: int| b <= k < s.len() implies is_ws(#[trigger] s[k]) by {
        assert(s[k] == t[k - a]);
    }
    if a < b {
        assert(s[a] == t[0]);
        assert(s[b - 1] == t[b1 - 1]);
        if b1 == 1 {
        }
    }
    if a == b {
        assert forall|k: int| 0 <= k < s.len() implies is_ws(#[trigger] s[k]) by {
            if k >= a {
                assert(s[k] == t[k - a]);
            }
        }
    }
    assert(trim(s) == s.subrange(a, b));
}

} // verus!
