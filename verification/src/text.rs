//! Character-sequence utilities shared by the report builder and the
//! system-information parsers: first occurrence of a character, prefix
//! tests, whitespace trimming, and the segment after the last separator.

use vstd::prelude::*;
use vstd::string::StrSliceExecFns;

verus! {

/// Index of the first occurrence of `c` in `s`, or `s.len()` when absent.
pub open spec fn first_index_of(s: Seq<char>, c: char) -> nat
    decreases s.len(),
{
    if s.len() == 0 {
        0
    } else if s[0] == c {
        0
    } else {
        1 + first_index_of(s.drop_first(), c)
    }
}

pub proof fn lemma_first_index_of(s: Seq<char>, c: char)
    ensures
        first_index_of(s, c) <= s.len(),
        first_index_of(s, c) < s.len() ==> s[first_index_of(s, c) as int] == c,
        forall|k: int| 0 <= k < first_index_of(s, c) ==> s[k] != c,
    decreases s.len(),
{
    if s.len() > 0 && s[0] != c {
        lemma_first_index_of(s.drop_first(), c);
        assert forall|k: int| 0 <= k < first_index_of(s, c) implies s[k] != c by {
            if k > 0 {
                assert(s.drop_first()[k - 1] == s[k]);
            }
        }
    }
}

/// `first_index_of` is pinned by its characteristic properties.
pub proof fn lemma_first_index_of_is(s: Seq<char>, c: char, j: int)
    requires
        0 <= j <= s.len(),
        forall|k: int| 0 <= k < j ==> s[k] != c,
        j == s.len() || s[j] == c,
    ensures
        first_index_of(s, c) == j,
{
    lemma_first_index_of(s, c);
    let fi = first_index_of(s, c) as int;
    if fi < j {
        assert(s[fi] == c);
    }
    if fi > j {
        assert(s[j] != c);
    }
}

/// Find the first occurrence of `c` in `s` at or after position `from`;
/// the result is the position of that occurrence, or `s@.len()` if there is
/// none before the end.
pub fn find_char_from(s: &str, c: char, from: usize) -> (r: usize)
    requires
        from <= s@.len(),
    ensures
        r == from + first_index_of(s@.subrange(from as int, s@.len() as int), c),
        from <= r <= s@.len(),
{
    let len = s.unicode_len();
    let mut i: usize = from;
    while i < len
        invariant
            from <= i <= len,
            len == s@.len(),
            forall|k: int| from <= k < i ==> s@[k] != c,
        decreases len - i,
    {
        if s.get_char(i) == c {
            proof {
                let tail = s@.subrange(from as int, len as int);
                assert(forall|k: int|
                    0 <= k < i - from ==> tail[k] == s@[k + from] && s@[k + from] != c);
                lemma_first_index_of_is(tail, c, i - from);
            }
            return i;
        }
        i = i + 1;
    }
    proof {
        let tail = s@.subrange(from as int, len as int);
        assert(forall|k: int| 0 <= k < tail.len() ==> tail[k] == s@[k + from] && s@[k + from] != c);
        lemma_first_index_of_is(tail, c, tail.len() as int);
    }
    len
}

/// Whether `p` is a prefix of `s`.
pub fn str_has_prefix(s: &str, p: &str) -> (b: bool)
    ensures
        b == p@.is_prefix_of(s@),
{
    let slen = s.unicode_len();
    let plen = p.unicode_len();
    if plen > slen {
        proof {
            assert(!p@.is_prefix_of(s@));
        }
        return false;
    }
    let mut i: usize = 0;
    while i < plen
        invariant
            i <= plen <= slen,
            slen == s@.len(),
            plen == p@.len(),
            forall|k: int| 0 <= k < i ==> s@[k] == p@[k],
        decreases plen - i,
    {
        if s.get_char(i) != p.get_char(i) {
            proof {
                assert(s@.subrange(0, plen as int)[i as int] != p@[i as int]);
            }
            return false;
        }
        i = i + 1;
    }
    proof {
        assert(p@ =~= s@.subrange(0, plen as int));
    }
    true
}

/// The whitespace characters stripped from the ends of a parsed field:
/// exactly the characters with the Unicode `White_Space` property, the set
/// `char::is_whitespace` accepts.
pub open spec fn is_space(c: char) -> bool {
    c == '\u{0009}' || c == '\u{000A}' || c == '\u{000B}' || c == '\u{000C}' || c == '\u{000D}'
        || c == '\u{0020}' || c == '\u{0085}' || c == '\u{00A0}' || c == '\u{1680}' || c
        == '\u{2000}' || c == '\u{2001}' || c == '\u{2002}' || c == '\u{2003}' || c == '\u{2004}'
        || c == '\u{2005}' || c == '\u{2006}' || c == '\u{2007}' || c == '\u{2008}' || c
        == '\u{2009}' || c == '\u{200A}' || c == '\u{2028}' || c == '\u{2029}' || c == '\u{202F}'
        || c == '\u{205F}' || c == '\u{3000}'
}

/// `s` without leading whitespace.
pub open spec fn trim_front(s: Seq<char>) -> Seq<char>
    decreases s.len(),
{
    if s.len() > 0 && is_space(s[0]) {
        trim_front(s.drop_first())
    } else {
        s
    }
}

/// `s` without trailing whitespace.
pub open spec fn trim_back(s: Seq<char>) -> Seq<char>
    decreases s.len(),
{
    if s.len() > 0 && is_space(s.last()) {
        trim_back(s.drop_last())
    } else {
        s
    }
}

/// `s` without leading and trailing whitespace.
pub open spec fn trim_spec(s: Seq<char>) -> Seq<char> {
    trim_back(trim_front(s))
}

proof fn lemma_trim_front_subrange(s: Seq<char>, lo: int)
    requires
        0 <= lo <= s.len(),
        forall|k: int| 0 <= k < lo ==> is_space(s[k]),
        lo == s.len() || !is_space(s[lo]),
    ensures
        trim_front(s) == s.subrange(lo, s.len() as int),
    decreases lo,
{
    if lo == 0 {
        if s.len() == 0 || !is_space(s[0]) {
            assert(trim_front(s) =~= s.subrange(0, s.len() as int));
        }
    } else {
        assert(is_space(s[0]));
        let t = s.drop_first();
        assert(forall|k: int| 0 <= k < lo - 1 ==> t[k] == s[k + 1] && is_space(s[k + 1]));
        lemma_trim_front_subrange(t, lo - 1);
        assert(t.subrange(lo - 1, t.len() as int) =~= s.subrange(lo, s.len() as int));
    }
}

proof fn lemma_trim_back_subrange(s: Seq<char>, hi: int)
    requires
        0 <= hi <= s.len(),
        forall|k: int| hi <= k < s.len() ==> is_space(s[k]),
        hi == 0 || !is_space(s[hi - 1]),
    ensures
        trim_back(s) == s.subrange(0, hi),
    decreases s.len(),
{
    if hi == s.len() {
        if s.len() == 0 || !is_space(s.last()) {
            assert(trim_back(s) =~= s.subrange(0, hi));
        } else {
            assert(!is_space(s[hi - 1]) && is_space(s.last()));
        }
    } else {
        assert(is_space(s.last()));
        let t = s.drop_last();
        lemma_trim_back_subrange(t, hi);
        assert(t.subrange(0, hi) =~= s.subrange(0, hi));
    }
}

/// Strip leading and trailing whitespace.
pub fn trim_str(s: &str) -> (r: String)
    ensures
        r@ == trim_spec(s@),
{
    let len = s.unicode_len();
    let mut lo: usize = 0;
    while lo < len && is_space_char(s.get_char(lo))
        invariant
            lo <= len,
            len == s@.len(),
            forall|k: int| 0 <= k < lo ==> is_space(s@[k]),
        decreases len - lo,
    {
        lo = lo + 1;
    }
    let mut hi: usize = len;
    while hi > lo && is_space_char(s.get_char(hi - 1))
        invariant
            lo <= hi <= len,
            len == s@.len(),
            forall|k: int| 0 <= k < lo ==> is_space(s@[k]),
            lo == len || !is_space(s@[lo as int]),
            forall|k: int| hi <= k < len ==> is_space(s@[k]),
        decreases hi,
    {
        hi = hi - 1;
    }
    proof {
        lemma_trim_front_subrange(s@, lo as int);
        let m = s@.subrange(lo as int, len as int);
        assert(forall|k: int|
            hi - lo <= k < m.len() ==> m[k] == s@[k + lo] && is_space(s@[k + lo]));
        if hi > lo {
            assert(m[hi - lo - 1] == s@[hi - 1]);
        }
        lemma_trim_back_subrange(m, hi - lo);
        assert(m.subrange(0, hi - lo) =~= s@.subrange(lo as int, hi as int));
    }
    s.substring_char(lo, hi).to_owned()
}

fn is_space_char(c: char) -> (b: bool)
    ensures
        b == is_space(c),
{
    c == '\u{0009}' || c == '\u{000A}' || c == '\u{000B}' || c == '\u{000C}' || c == '\u{000D}'
        || c == '\u{0020}' || c == '\u{0085}' || c == '\u{00A0}' || c == '\u{1680}' || c
        == '\u{2000}' || c == '\u{2001}' || c == '\u{2002}' || c == '\u{2003}' || c == '\u{2004}'
        || c == '\u{2005}' || c == '\u{2006}' || c == '\u{2007}' || c == '\u{2008}' || c
        == '\u{2009}' || c == '\u{200A}' || c == '\u{2028}' || c == '\u{2029}' || c == '\u{202F}'
        || c == '\u{205F}' || c == '\u{3000}'
}

/// The part of `s` after the last occurrence of `c`, or all of `s` when `c`
/// does not occur.
pub open spec fn last_segment(s: Seq<char>, c: char) -> Seq<char>
    decreases s.len(),
{
    if s.len() == 0 {
        s
    } else if s.last() == c {
        Seq::empty()
    } else {
        last_segment(s.drop_last(), c).push(s.last())
    }
}

proof fn lemma_last_segment_subrange(s: Seq<char>, c: char, cut: int)
    requires
        0 <= cut <= s.len(),
        forall|k: int| cut <= k < s.len() ==> s[k] != c,
        cut == 0 || s[cut - 1] == c,
    ensures
        last_segment(s, c) == s.subrange(cut, s.len() as int),
    decreases s.len(),
{
    if s.len() == 0 {
        assert(last_segment(s, c) =~= s.subrange(cut, s.len() as int));
    } else if s.last() == c {
        assert(cut == s.len());
        assert(last_segment(s, c) =~= s.subrange(cut, s.len() as int));
    } else {
        assert(cut < s.len());
        let t = s.drop_last();
        lemma_last_segment_subrange(t, c, cut);
        assert(t.subrange(cut, t.len() as int).push(s.last()) =~= s.subrange(
            cut,
            s.len() as int,
        ));
    }
}

/// The segment of `s` after its last `c`: `last_segment(s@, c)` as a string.
pub fn last_segment_str(s: &str, c: char) -> (r: String)
    ensures
        r@ == last_segment(s@, c),
{
    let len = s.unicode_len();
    let mut cut: usize = len;
    while cut > 0 && s.get_char(cut - 1) != c
        invariant
            cut <= len,
            len == s@.len(),
            forall|k: int| cut <= k < len ==> s@[k] != c,
        decreases cut,
    {
        cut = cut - 1;
    }
    proof {
        lemma_last_segment_subrange(s@, c, cut as int);
    }
    s.substring_char(cut, len).to_owned()
}

} // verus!
