//! Character-level text helpers shared by the label and event logic: Unicode whitespace
//! trimming, ASCII case folding and substring search, each stated over `Seq<char>`.
use vstd::prelude::*;

verus! {

/// The characters with the Unicode `White_Space` property, which is what `char::is_whitespace`
/// (and so `str::trim`) strips.
pub open spec fn is_ws(c: char) -> bool {
    ||| ('\u{9}' <= c && c <= '\u{d}')
    ||| c == ' '
    ||| c == '\u{85}'
    ||| c == '\u{a0}'
    ||| c == '\u{1680}'
    ||| ('\u{2000}' <= c && c <= '\u{200a}')
    ||| c == '\u{2028}'
    ||| c == '\u{2029}'
    ||| c == '\u{202f}'
    ||| c == '\u{205f}'
    ||| c == '\u{3000}'
}

/// `s` without its leading whitespace.
pub open spec fn trim_start(s: Seq<char>) -> Seq<char>
    decreases s.len(),
{
    if s.len() > 0 && is_ws(s[0]) {
        trim_start(s.drop_first())
    } else {
        s
    }
}

/// `s` without its trailing whitespace.
pub open spec fn trim_end(s: Seq<char>) -> Seq<char>
    decreases s.len(),
{
    if s.len() > 0 && is_ws(s.last()) {
        trim_end(s.drop_last())
    } else {
        s
    }
}

/// `s` without leading and trailing whitespace, as `str::trim` gives it.
pub open spec fn trim(s: Seq<char>) -> Seq<char> {
    trim_end(trim_start(s))
}

/// ASCII lowercase of one character; every other character is left as it is.
pub open spec fn ascii_lower_char(c: char) -> char {
    if 'A' <= c && c <= 'Z' {
        ((c as u32) + 32) as char
    } else {
        c
    }
}

/// ASCII lowercase of a whole text, as `str::to_ascii_lowercase` gives it.
pub open spec fn lower(s: Seq<char>) -> Seq<char> {
    s.map_values(|c: char| ascii_lower_char(c))
}

/// `needle` occurs in `hay` as a contiguous run of characters.
pub open spec fn contains_seq(hay: Seq<char>, needle: Seq<char>) -> bool {
    exists|i: int|
        0 <= i && i + needle.len() <= hay.len() && #[trigger] hay.subrange(i, i + needle.len())
            == needle
}

/// The Unicode whitespace test of `char::is_whitespace`.
pub fn is_whitespace(c: char) -> (r: bool)
    ensures
        r == is_ws(c),
{
    ('\u{9}' <= c && c <= '\u{d}') || c == ' ' || c == '\u{85}' || c == '\u{a0}' || c
        == '\u{1680}' || ('\u{2000}' <= c && c <= '\u{200a}') || c == '\u{2028}' || c
        == '\u{2029}' || c == '\u{202f}' || c == '\u{205f}' || c == '\u{3000}'
}

/// The characters of `s` as a vector.
pub fn chars_of(s: &str) -> (v: Vec<char>)
    ensures
        v@ == s@,
{
    let mut v: Vec<char> = Vec::new();
    for c in it: s.chars()
        invariant
            v@ == it.seq().take(it.index() as int),
    {
        v.push(c);
    }
    v
}

/// Whether `c`, lowercased, equals `d`.
pub fn lower_char_is(c: char, d: char) -> (r: bool)
    ensures
        r == (ascii_lower_char(c) == d),
{
    if 'A' <= c && c <= 'Z' {
        (c as u32) + 32 == (d as u32)
    } else {
        c == d
    }
}

/// The bounds of the trimmed part of `v`.
pub fn trim_bounds(v: &Vec<char>) -> (r: (usize, usize))
    ensures
        r.0 <= r.1 <= v@.len(),
        v@.subrange(r.0 as int, r.1 as int) == trim(v@),
{
    let n = v.len();
    let mut lo: usize = 0;
    assert(v@.subrange(0, n as int) =~= v@);
    while lo < n && is_whitespace(v[lo])
        invariant
            lo <= n == v@.len(),
            trim_start(v@) == trim_start(v@.subrange(lo as int, n as int)),
        decreases n - lo,
    {
        assert(v@.subrange(lo as int, n as int).drop_first() =~= v@.subrange(
            lo + 1,
            n as int,
        ));
        lo = lo + 1;
    }
    assert(trim_start(v@.subrange(lo as int, n as int)) == v@.subrange(lo as int, n as int));
    let mut hi: usize = n;
    while hi > lo && is_whitespace(v[hi - 1])
        invariant
            lo <= hi <= n == v@.len(),
            trim(v@) == trim_end(v@.subrange(lo as int, hi as int)),
        decreases hi - lo,
    {
        assert(v@.subrange(lo as int, hi as int).drop_last() =~= v@.subrange(
            lo as int,
            hi - 1,
        ));
        hi = hi - 1;
    }
    (lo, hi)
}

/// Whether the lowercase of `h[lo..hi]` is exactly `lit`.
pub fn lower_range_is(h: &Vec<char>, lo: usize, hi: usize, lit: &str) -> (r: bool)
    requires
        lo <= hi <= h@.len(),
    ensures
        r == (lower(h@.subrange(lo as int, hi as int)) == lit@),
{
    let nd = chars_of(lit);
    if nd.len() != hi - lo {
        return false;
    }
    let mut j: usize = 0;
    while j < nd.len()
        invariant
            lo <= hi <= h@.len(),
            nd@ == lit@,
            nd@.len() == hi - lo,
            j <= nd@.len(),
            forall|k: int| 0 <= k < j ==> ascii_lower_char(#[trigger] h@[lo + k]) == nd@[k],
        decreases nd@.len() - j,
    {
        if !lower_char_is(h[lo + j], nd[j]) {
            assert(lower(h@.subrange(lo as int, hi as int))[j as int] != nd@[j as int]);
            return false;
        }
        j = j + 1;
    }
    assert forall|k: int| 0 <= k < nd@.len() implies lower(h@.subrange(lo as int, hi as int))[k]
        == nd@[k] by {
        assert(h@.subrange(lo as int, hi as int)[k] == h@[lo + k]);
    }
    assert(lower(h@.subrange(lo as int, hi as int)) =~= nd@);
    true
}

/// Whether `h[lo..hi]` is exactly `lit`.
pub fn range_is(h: &Vec<char>, lo: usize, hi: usize, lit: &str) -> (r: bool)
    requires
        lo <= hi <= h@.len(),
    ensures
        r == (h@.subrange(lo as int, hi as int) == lit@),
{
    let nd = chars_of(lit);
    if nd.len() != hi - lo {
        return false;
    }
    let mut j: usize = 0;
    while j < nd.len()
        invariant
            lo <= hi <= h@.len(),
            nd@ == lit@,
            nd@.len() == hi - lo,
            j <= nd@.len(),
            forall|k: int| 0 <= k < j ==> h@[lo + k] == nd@[k],
        decreases nd@.len() - j,
    {
        if h[lo + j] != nd[j] {
            assert(h@.subrange(lo as int, hi as int)[j as int] != nd@[j as int]);
            return false;
        }
        j = j + 1;
    }
    assert(h@.subrange(lo as int, hi as int) =~= nd@);
    true
}

/// Whether `nd` occurs in the lowercase of `h` starting at `i`.
fn lower_matches_at(h: &Vec<char>, i: usize, nd: &Vec<char>) -> (r: bool)
    requires
        i + nd@.len() <= h@.len(),
    ensures
        r == (lower(h@).subrange(i as int, i + nd@.len()) == nd@),
{
    let hl = h.len();
    let mut j: usize = 0;
    while j < nd.len()
        invariant
            hl == h@.len(),
            i + nd@.len() <= h@.len(),
            j <= nd@.len(),
            forall|k: int| 0 <= k < j ==> ascii_lower_char(#[trigger] h@[i + k]) == nd@[k],
        decreases nd@.len() - j,
    {
        assert(i + j < h@.len());
        if !lower_char_is(h[i + j], nd[j]) {
            assert(lower(h@).subrange(i as int, i + nd@.len())[j as int] != nd@[j as int]);
            return false;
        }
        j = j + 1;
    }
    assert forall|k: int| 0 <= k < nd@.len() implies lower(h@).subrange(i as int, i + nd@.len())[k]
        == nd@[k] by {
        assert(lower(h@)[i + k] == ascii_lower_char(h@[i + k]));
    }
    assert(lower(h@).subrange(i as int, i + nd@.len()) =~= nd@);
    true
}

/// Whether `needle` occurs in the lowercase of `h`.
pub fn lower_contains(h: &Vec<char>, needle: &str) -> (r: bool)
    ensures
        r == contains_seq(lower(h@), needle@),
{
    let nd = chars_of(needle);
    let hn = h.len();
    if nd.len() > hn {
        return false;
    }
    if nd.len() == 0 {
        assert(lower(h@).subrange(0int, 0int + needle@.len()) =~= needle@);
        return true;
    }
    let mut i: usize = 0;
    while i <= hn - nd.len()
        invariant
            hn == h@.len(),
            nd@ == needle@,
            0 < nd@.len() <= hn,
            i <= hn - nd@.len() + 1,
            forall|k: int|
                0 <= k < i ==> #[trigger] lower(h@).subrange(k, k + nd@.len()) != nd@,
        decreases hn - i,
    {
        if lower_matches_at(h, i, &nd) {
            return true;
        }
        i = i + 1;
    }
    false
}

/// Whether two texts are equal.
pub fn str_eq(a: &str, b: &str) -> (r: bool)
    ensures
        r == (a@ == b@),
{
    let x = chars_of(a);
    let y = chars_of(b);
    if x.len() != y.len() {
        return false;
    }
    let mut i: usize = 0;
    while i < x.len()
        invariant
            x@ == a@,
            y@ == b@,
            x@.len() == y@.len(),
            i <= x@.len(),
            forall|k: int| 0 <= k < i ==> x@[k] == y@[k],
        decreases x@.len() - i,
    {
        if x[i] != y[i] {
            return false;
        }
        i = i + 1;
    }
    assert(x@ =~= y@);
    true
}

/// Appends one character to a `String` (`String::push`).
#[verifier::external_body]
pub fn push_char(s: &mut String, c: char)
    ensures
        final(s)@ == old(s)@.push(c),
{
    s.push(c);
}

/// A `String` holding exactly the characters `v[lo..hi]`.
pub fn string_of_range(v: &Vec<char>, lo: usize, hi: usize) -> (s: String)
    requires
        lo <= hi <= v@.len(),
    ensures
        s@ == v@.subrange(lo as int, hi as int),
{
    let mut s = String::new();
    let mut i = lo;
    while i < hi
        invariant
            lo <= i <= hi <= v@.len(),
            s@ == v@.subrange(lo as int, i as int),
        decreases hi - i,
    {
        push_char(&mut s, v[i]);
        assert(v@.subrange(lo as int, i + 1) =~= v@.subrange(lo as int, i as int).push(v@[i as int]));
        i = i + 1;
    }
    s
}

/// `trim_start` removes a prefix and leaves a text that starts with a non-whitespace character.
pub proof fn lemma_trim_start_shape(s: Seq<char>)
    ensures
        exists|k: int| 0 <= k <= s.len() && trim_start(s) == s.skip(k),
        trim_start(s).len() > 0 ==> !is_ws(trim_start(s)[0]),
    decreases s.len(),
{
    if s.len() > 0 && is_ws(s[0]) {
        lemma_trim_start_shape(s.drop_first());
        let k = choose|k: int|
            0 <= k <= s.drop_first().len() && trim_start(s.drop_first()) == s.drop_first().skip(k);
        assert(s.drop_first().skip(k) =~= s.skip(k + 1));
    } else {
        assert(s.skip(0) =~= s);
    }
}

/// `trim_end` removes a suffix and leaves a text that ends with a non-whitespace character.
pub proof fn lemma_trim_end_shape(s: Seq<char>)
    ensures
        exists|k: int| 0 <= k <= s.len() && trim_end(s) == s.take(k),
        trim_end(s).len() > 0 ==> !is_ws(trim_end(s).last()),
    decreases s.len(),
{
    if s.len() > 0 && is_ws(s.last()) {
        lemma_trim_end_shape(s.drop_last());
        let k = choose|k: int|
            0 <= k <= s.drop_last().len() && trim_end(s.drop_last()) == s.drop_last().take(k);
        assert(s.drop_last().take(k) =~= s.take(k));
    } else {
        assert(s.take(s.len() as int) =~= s);
    }
}

/// Trimming twice is trimming once.
pub proof fn lemma_trim_idempotent(s: Seq<char>)
    ensures
        trim(trim(s)) == trim(s),
{
    let ts = trim_start(s);
    let t = trim(s);
    lemma_trim_start_shape(s);
    lemma_trim_end_shape(ts);
    let k = choose|k: int| 0 <= k <= ts.len() && trim_end(ts) == ts.take(k);
    if t.len() > 0 {
        assert(t[0] == ts[0]);
        assert(trim_start(t) == t);
        assert(trim_end(t) == t);
    } else {
        assert(trim_start(t) == t);
        assert(trim_end(t) == t);
    }
}

} // verus!
