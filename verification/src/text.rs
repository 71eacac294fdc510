//! Character-level helpers shared by the label, path and routing logic.

use vstd::prelude::*;

verus! {

/// The characters of a string slice, in order.
pub fn chars_of(s: &str) -> (out: Vec<char>)
    ensures
        out@ == s@,
{
    let mut out: Vec<char> = Vec::new();
    for c in it: s.chars()
        invariant
            out@ == it.seq().take(it.index() as int),
            it.seq() == s@,
    {
        out.push(c);
    }
    out
}

/// `String::push`: appends one character at the end.
#[verifier::external_body]
pub(crate) fn push_char(s: &mut String, c: char)
    ensures
        final(s)@ == old(s)@.push(c),
{
    s.push(c);
}

/// A `String` holding `chars[lo..hi]`.
pub fn string_from_chars(chars: &Vec<char>, lo: usize, hi: usize) -> (s: String)
    requires
        lo <= hi <= chars@.len(),
    ensures
        s@ == chars@.subrange(lo as int, hi as int),
{
    let mut s = String::new();
    let mut i = lo;
    while i < hi
        invariant
            lo <= i <= hi <= chars@.len(),
            s@ == chars@.subrange(lo as int, i as int),
        decreases hi - i,
    {
        push_char(&mut s, chars[i]);
        assert(chars@.subrange(lo as int, i + 1) == chars@.subrange(lo as int, i as int).push(
            chars@[i as int],
        ));
        i = i + 1;
    }
    s
}

/// Two strings hold the same characters.
pub fn str_equal(a: &str, b: &str) -> (r: bool)
    ensures
        r == (a@ == b@),
{
    let x = chars_of(a);
    let y = chars_of(b);
    if x.len() != y.len() {
        return false;
    }
    let mut i: usize = 0;
    while i < x.len()
        invariant
            x@ == a@,
            y@ == b@,
            x@.len() == y@.len(),
            i <= x@.len(),
            forall|k: int| 0 <= k < i ==> x@[k] == y@[k],
        decreases x@.len() - i,
    {
        if x[i] != y[i] {
            return false;
        }
        i = i + 1;
    }
    assert(x@ =~= y@);
    true
}

/// `prefix` is a prefix of `s`.
pub fn str_starts_with(s: &str, prefix: &str) -> (r: bool)
    ensures
        r == prefix@.is_prefix_of(s@),
{
    let x = chars_of(s);
    let p = chars_of(prefix);
    if p.len() > x.len() {
        return false;
    }
    let mut i: usize = 0;
    while i < p.len()
        invariant
            x@ == s@,
            p@ == prefix@,
            p@.len() <= x@.len(),
            i <= p@.len(),
            forall|k: int| 0 <= k < i ==> p@[k] == x@[k],
        decreases p@.len() - i,
    {
        if x[i] != p[i] {
            return false;
        }
        i = i + 1;
    }
    true
}

/// ASCII lowercase of one character; every other character is kept.
pub open spec fn ascii_lower(c: char) -> char {
    if 'A' <= c && c <= 'Z' {
        ((c as u32) + 32) as char
    } else {
        c
    }
}

/// ASCII lowercase of a whole sequence.
pub open spec fn ascii_lowercase(s: Seq<char>) -> Seq<char> {
    s.map_values(|c: char| ascii_lower(c))
}

pub fn to_ascii_lower(c: char) -> (r: char)
    ensures
        r == ascii_lower(c),
{
    if 'A' <= c && c <= 'Z' {
        ((c as u8) + 32) as char
    } else {
        c
    }
}

/// The Unicode `White_Space` property, which `str::trim` strips.
pub open spec fn is_white_space(c: char) -> bool {
    ||| ('\u{9}' <= c && c <= '\u{d}')
    ||| c == ' '
    ||| c == '\u{85}'
    ||| c == '\u{a0}'
    ||| c == '\u{1680}'
    ||| ('\u{2000}' <= c && c <= '\u{200a}')
    ||| c == '\u{2028}'
    ||| c == '\u{2029}'
    ||| c == '\u{202f}'
    ||| c == '\u{205f}'
    ||| c == '\u{3000}'
}

pub fn white_space(c: char) -> (r: bool)
    ensures
        r == is_white_space(c),
{
    ('\u{9}' <= c && c <= '\u{d}') || c == ' ' || c == '\u{85}' || c == '\u{a0}' || c
        == '\u{1680}' || ('\u{2000}' <= c && c <= '\u{200a}') || c == '\u{2028}' || c
        == '\u{2029}' || c == '\u{202f}' || c == '\u{205f}' || c == '\u{3000}'
}

/// Drops leading white space.
pub open spec fn trim_start(s: Seq<char>) -> Seq<char>
    decreases s.len(),
{
    if s.len() > 0 && is_white_space(s[0]) {
        trim_start(s.drop_first())
    } else {
        s
    }
}

/// Drops trailing white space.
pub open spec fn trim_end(s: Seq<char>) -> Seq<char>
    decreases s.len(),
{
    if s.len() > 0 && is_white_space(s.last()) {
        trim_end(s.drop_last())
    } else {
        s
    }
}

/// Leading and trailing white space removed, as `str::trim` does.
pub open spec fn trimmed(s: Seq<char>) -> Seq<char> {
    trim_end(trim_start(s))
}

/// The bounds `(lo, hi)` such that `chars[lo..hi]` is the trimmed text.
pub fn trim_bounds(chars: &Vec<char>) -> (b: (usize, usize))
    ensures
        b.0 <= b.1 <= chars@.len(),
        chars@.subrange(b.0 as int, b.1 as int) == trimmed(chars@),
{
    let n = chars.len();
    let mut lo: usize = 0;
    assert(chars@.subrange(0, n as int) == chars@);
    while lo < n && white_space(chars[lo])
        invariant
            n == chars@.len(),
            lo <= n,
            trim_start(chars@) == trim_start(chars@.subrange(lo as int, n as int)),
        decreases n - lo,
    {
        assert(chars@.subrange(lo as int, n as int).drop_first() == chars@.subrange(
            lo + 1,
            n as int,
        ));
        lo = lo + 1;
    }
    let ghost rest = chars@.subrange(lo as int, n as int);
    assert(trim_start(rest) == rest);
    let mut hi: usize = n;
    while hi > lo && white_space(chars[hi - 1])
        invariant
            n == chars@.len(),
            lo <= hi <= n,
            trim_end(rest) == trim_end(chars@.subrange(lo as int, hi as int)),
            rest == chars@.subrange(lo as int, n as int),
        decreases hi - lo,
    {
        assert(chars@.subrange(lo as int, hi as int).drop_last() == chars@.subrange(
            lo as int,
            hi - 1,
        ));
        hi = hi - 1;
    }
    assert(trim_end(chars@.subrange(lo as int, hi as int)) == chars@.subrange(
        lo as int,
        hi as int,
    ));
    (lo, hi)
}

/// The view of a `Result` of strings.
pub open spec fn result_view(r: Result<String, String>) -> Result<Seq<char>, Seq<char>> {
    match r {
        Ok(s) => Ok(s@),
        Err(e) => Err(e@),
    }
}

/// A `String` made of three pieces.
pub fn concat3(a: &str, b: &str, c: &str) -> (s: String)
    ensures
        s@ == a@ + b@ + c@,
{
    let mut s = String::from_str(a);
    s.append(b);
    s.append(c);
    s
}

/// Where leading white space ends: `trim_start` keeps `s` from there on.
proof fn lemma_trim_start_at(s: Seq<char>) -> (a: int)
    ensures
        0 <= a <= s.len(),
        trim_start(s) == s.subrange(a, s.len() as int),
        forall|k: int| 0 <= k < a ==> is_white_space(#[trigger] s[k]),
        a < s.len() ==> !is_white_space(s[a]),
    decreases s.len(),
{
    if s.len() > 0 && is_white_space(s[0]) {
        let rest = s.drop_first();
        let a1 = lemma_trim_start_at(rest);
        assert(rest.subrange(a1, rest.len() as int) =~= s.subrange(a1 + 1, s.len() as int));
        assert forall|k: int| 0 <= k < a1 + 1 implies is_white_space(#[trigger] s[k]) by {
            if k > 0 {
                assert(rest[k - 1] == s[k]);
            }
        }
        if a1 < rest.len() {
            assert(rest[a1] == s[a1 + 1]);
        }
        a1 + 1
    } else {
        assert(s.subrange(0, s.len() as int) =~= s);
        0
    }
}

/// Where trailing white space starts: `trim_end` keeps `s` up to there.
proof fn lemma_trim_end_at(s: Seq<char>) -> (b: int)
    ensures
        0 <= b <= s.len(),
        trim_end(s) == s.subrange(0, b),
        forall|k: int| b <= k < s.len() ==> is_white_space(#[trigger] s[k]),
        b > 0 ==> !is_white_space(s[b - 1]),
    decreases s.len(),
{
    if s.len() > 0 && is_white_space(s.last()) {
        let init = s.drop_last();
        let b1 = lemma_trim_end_at(init);
        assert(init.subrange(0, b1) =~= s.subrange(0, b1));
        assert forall|k: int| b1 <= k < s.len() implies is_white_space(#[trigger] s[k]) by {
            if k < init.len() {
                assert(init[k] == s[k]);
            }
        }
        if b1 > 0 {
            assert(init[b1 - 1] == s[b1 - 1]);
        }
        b1
    } else {
        assert(s.subrange(0, s.len() as int) =~= s);
        s.len() as int
    }
}

/// Trimming drops exactly the white space at both ends: what is left is a
/// contiguous run of the text, everything before and after it is white
/// space, and the run neither starts nor ends with white space.
pub proof fn lemma_trimmed_shape(s: Seq<char>)
    ensures
        exists|a: int, b: int|
            #![trigger s.subrange(a, b)]
            {
                &&& 0 <= a <= b <= s.len()
                &&& trimmed(s) == s.subrange(a, b)
                &&& forall|k: int| 0 <= k < a ==> is_white_space(#[trigger] s[k])
                &&& forall|k: int| b <= k < s.len() ==> is_white_space(#[trigger] s[k])
                &&& a < b ==> !is_white_space(s[a]) && !is_white_space(s[b - 1])
            },
{
    let a = lemma_trim_start_at(s);
    let r = s.subrange(a, s.len() as int);
    let b1 = lemma_trim_end_at(r);
    let b = a + b1;
    assert(r.subrange(0, b1) =~= s.subrange(a, b));
    assert forall|k: int| b <= k < s.len() implies is_white_space(#[trigger] s[k]) by {
        assert(r[k - a] == s[k]);
    }
    if a < b {
        assert(r[b1 - 1] == s[b - 1]);
        assert(r[0] == s[a]);
    }
    assert(trimmed(s) == s.subrange(a, b));
}

/// Lowercasing a character moves exactly the ASCII uppercase letters, each
/// 32 code points up to its lowercase letter.
pub proof fn lemma_ascii_lower_shift(c: char)
    ensures
        'A' <= c && c <= 'Z' ==> ascii_lower(c) as u32 == c as u32 + 32,
        !('A' <= c && c <= 'Z') ==> ascii_lower(c) == c,
{
}

} // verus!
