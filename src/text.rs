//! Character-sequence helpers with exact specifications: prefixes, suffixes,
//! Unicode whitespace trimming and character search.
use vstd::prelude::*;
use vstd::string::*;

verus! {

/// `p` is a prefix of `s`.
pub open spec fn has_prefix(s: Seq<char>, p: Seq<char>) -> bool {
    p.len() <= s.len() && s.take(p.len() as int) == p
}

/// `p` is a suffix of `s`.
pub open spec fn has_suffix(s: Seq<char>, p: Seq<char>) -> bool {
    p.len() <= s.len() && s.skip(s.len() - p.len()) == p
}

/// The characters with the Unicode `White_Space` property.
pub open spec fn is_ws(c: char) -> bool {
    let u = c as u32;
    (0x09 <= u && u <= 0x0D) || u == 0x20 || u == 0x85 || u == 0xA0 || u == 0x1680
        || (0x2000 <= u && u <= 0x200A) || u == 0x2028 || u == 0x2029 || u == 0x202F
        || u == 0x205F || u == 0x3000
}

/// `s` without its leading whitespace.
pub open spec fn trim_start_of(s: Seq<char>) -> Seq<char>
    decreases s.len(),
{
    if s.len() > 0 && is_ws(s[0]) {
        trim_start_of(s.drop_first())
    } else {
        s
    }
}

/// `s` without its trailing whitespace.
pub open spec fn trim_end_of(s: Seq<char>) -> Seq<char>
    decreases s.len(),
{
    if s.len() > 0 && is_ws(s.last()) {
        trim_end_of(s.drop_last())
    } else {
        s
    }
}

/// `s` without leading and trailing whitespace.
pub open spec fn trimmed(s: Seq<char>) -> Seq<char> {
    trim_end_of(trim_start_of(s))
}

/// Index of the first occurrence of `c` in `s`, or -1 when there is none.
pub open spec fn find_char(s: Seq<char>, c: char) -> int
    decreases s.len(),
{
    if s.len() == 0 {
        -1
    } else if s[0] == c {
        0
    } else {
        let r = find_char(s.drop_first(), c);
        if r < 0 {
            -1
        } else {
            r + 1
        }
    }
}

/// `find_char` is the index of the first occurrence.
pub proof fn lemma_find_char(s: Seq<char>, c: char, i: int)
    requires
        0 <= i <= s.len(),
        forall|k: int| 0 <= k < i ==> s[k] != c,
        i == s.len() || s[i] == c,
    ensures
        find_char(s, c) == if i < s.len() { i } else { -1 },
    decreases i,
{
    if s.len() > 0 && s[0] != c {
        lemma_find_char(s.drop_first(), c, i - 1);
    }
}

/// Whether `c` is a Unicode whitespace character.
pub fn is_whitespace(c: char) -> (r: bool)
    ensures
        r == is_ws(c),
{
    let u = c as u32;
    (0x09 <= u && u <= 0x0D) || u == 0x20 || u == 0x85 || u == 0xA0 || u == 0x1680
        || (0x2000 <= u && u <= 0x200A) || u == 0x2028 || u == 0x2029 || u == 0x202F
        || u == 0x205F || u == 0x3000
}

/// Whether `s` begins with `p`.
pub fn starts_with(s: &str, p: &str) -> (r: bool)
    ensures
        r == has_prefix(s@, p@),
{
    let n = s.unicode_len();
    let m = p.unicode_len();
    if m > n {
        return false;
    }
    let mut i: usize = 0;
    while i < m
        invariant
            m <= n,
            n == s@.len(),
            m == p@.len(),
            i <= m,
            forall|k: int| 0 <= k < i ==> s@[k] == p@[k],
        decreases m - i,
    {
        if s.get_char(i) != p.get_char(i) {
            assert(s@.take(m as int)[i as int] != p@[i as int]);
            return false;
        }
        i = i + 1;
    }
    assert(s@.take(m as int) =~= p@);
    true
}

/// Whether `a` and `b` hold the same characters.
pub fn same_text(a: &str, b: &str) -> (r: bool)
    ensures
        r == (a@ == b@),
{
    if a.unicode_len() != b.unicode_len() {
        return false;
    }
    let r = starts_with(a, b);
    assert(a@.take(b@.len() as int) =~= a@);
    r
}

/// Whether `s` ends with `p`.
pub fn ends_with(s: &str, p: &str) -> (r: bool)
    ensures
        r == has_suffix(s@, p@),
{
    let n = s.unicode_len();
    let m = p.unicode_len();
    if m > n {
        return false;
    }
    let d = n - m;
    let mut i: usize = 0;
    while i < m
        invariant
            m <= n,
            d == n - m,
            n == s@.len(),
            m == p@.len(),
            i <= m,
            forall|k: int| 0 <= k < i ==> s@[d + k] == p@[k],
        decreases m - i,
    {
        if s.get_char(d + i) != p.get_char(i) {
            assert(s@.skip(d as int)[i as int] != p@[i as int]);
            return false;
        }
        i = i + 1;
    }
    assert(s@.skip(d as int) =~= p@);
    true
}

/// The first index at or after `from` where `c` occurs in `s`, or the length
/// of `s` when there is none.
pub fn find_from(s: &str, c: char, from: usize) -> (r: usize)
    requires
        from <= s@.len(),
    ensures
        from <= r <= s@.len(),
        r < s@.len() ==> s@[r as int] == c,
        forall|k: int| from <= k < r ==> s@[k] != c,
        find_char(s@.skip(from as int), c) == if r < s@.len() { r - from } else { -1 },
{
    let n = s.unicode_len();
    let mut i: usize = from;
    while i < n && s.get_char(i) != c
        invariant
            from <= i <= n,
            n == s@.len(),
            forall|k: int| from <= k < i ==> s@[k] != c,
        decreases n - i,
    {
        i = i + 1;
    }
    proof {
        lemma_find_char(s@.skip(from as int), c, i - from);
    }
    i
}

/// `s` without leading and trailing whitespace.
pub fn trim(s: &str) -> (r: &str)
    ensures
        r@ == trimmed(s@),
{
    let n = s.unicode_len();
    let mut lo: usize = 0;
    assert(s@.skip(0) =~= s@);
    while lo < n && is_whitespace(s.get_char(lo))
        invariant
            lo <= n,
            n == s@.len(),
            trim_start_of(s@) == trim_start_of(s@.skip(lo as int)),
        decreases n - lo,
    {
        assert(s@.skip(lo as int).drop_first() =~= s@.skip(lo + 1));
        lo = lo + 1;
    }
    let t = s.substring_char(lo, n);
    assert(t@ =~= s@.skip(lo as int));
    assert(t@ == trim_start_of(t@));
    let mut hi: usize = n - lo;
    assert(t@.take(hi as int) =~= t@);
    while hi > 0 && is_whitespace(t.get_char(hi - 1))
        invariant
            hi <= t@.len(),
            t@ == trim_start_of(s@),
            trim_end_of(t@) == trim_end_of(t@.take(hi as int)),
        decreases hi,
    {
        assert(t@.take(hi as int).drop_last() =~= t@.take(hi - 1));
        hi = hi - 1;
    }
    let r = t.substring_char(0, hi);
    assert(r@ =~= t@.take(hi as int));
    r
}

} // verus!
