//! Count Extractor: derives an installed-package count from the raw bytes a
//! package-manager query command wrote to its standard output.
//!
//! The count is the number of lines: one line per newline byte, plus one
//! final unterminated line when the output is non-empty and does not end
//! with a newline.  Decoding the bytes as text cannot change this number
//! (a lossy decode maps each newline byte to a newline character and never
//! introduces new ones), so the count is computed on the bytes directly and
//! any byte sequence is accepted.

use vstd::prelude::*;

verus! {

/// The line separator in probe output.
pub const NEWLINE: u8 = 10;

/// Number of newline bytes in `bytes`.
pub open spec fn newline_count(bytes: Seq<u8>) -> nat
    decreases bytes.len(),
{
    if bytes.len() == 0 {
        0
    } else {
        newline_count(bytes.drop_last()) + if bytes.last() == NEWLINE {
            1nat
        } else {
            0nat
        }
    }
}

/// Number of lines in raw probe output: one per newline byte, plus a final
/// unterminated line when the output does not end with a newline.
pub open spec fn line_count(bytes: Seq<u8>) -> nat {
    newline_count(bytes) + if bytes.len() > 0 && bytes.last() != NEWLINE {
        1nat
    } else {
        0nat
    }
}

/// There are never more newlines than bytes.
pub proof fn lemma_newline_count_le_len(bytes: Seq<u8>)
    ensures
        newline_count(bytes) <= bytes.len(),
    decreases bytes.len(),
{
    if bytes.len() > 0 {
        lemma_newline_count_le_len(bytes.drop_last());
    }
}

/// Output text made of the given lines, each terminated by a newline.
pub open spec fn unlines(lines: Seq<Seq<u8>>) -> Seq<u8>
    decreases lines.len(),
{
    if lines.len() == 0 {
        Seq::empty()
    } else {
        unlines(lines.drop_last()) + lines.last() + seq![NEWLINE]
    }
}

pub proof fn lemma_newline_count_add(a: Seq<u8>, b: Seq<u8>)
    ensures
        newline_count(a + b) == newline_count(a) + newline_count(b),
    decreases b.len(),
{
    if b.len() == 0 {
        assert(a + b =~= a);
    } else {
        assert((a + b).drop_last() =~= a + b.drop_last());
        lemma_newline_count_add(a, b.drop_last());
    }
}

proof fn lemma_no_newline_count_zero(l: Seq<u8>)
    requires
        forall|k: int| 0 <= k < l.len() ==> l[k] != NEWLINE,
    ensures
        newline_count(l) == 0,
    decreases l.len(),
{
    if l.len() > 0 {
        lemma_no_newline_count_zero(l.drop_last());
    }
}

/// Non-empty well-formed output ends with its final line's newline.
proof fn lemma_unlines_last(lines: Seq<Seq<u8>>)
    requires
        lines.len() > 0,
    ensures
        unlines(lines).len() > 0,
        unlines(lines).last() == NEWLINE,
{
    let u = unlines(lines.drop_last()) + lines.last();
    assert(unlines(lines) =~= u.push(NEWLINE));
}

/// Round trip: output consisting of exactly `lines.len()` newline-terminated
/// lines, none of which contains a newline itself, has line count
/// `lines.len()`; empty output has line count zero.
pub proof fn lemma_line_count_round_trip(lines: Seq<Seq<u8>>)
    requires
        forall|i: int| 0 <= i < lines.len() ==> !lines[i].contains(NEWLINE),
    ensures
        line_count(unlines(lines)) == lines.len(),
        line_count(Seq::<u8>::empty()) == 0,
    decreases lines.len(),
{
    if lines.len() > 0 {
        let pre = lines.drop_last();
        let u = unlines(pre);
        let l = lines.last();
        let whole = unlines(lines);
        assert(forall|i: int| 0 <= i < pre.len() ==> !(#[trigger] pre[i]).contains(NEWLINE));
        lemma_line_count_round_trip(pre);
        lemma_newline_count_add(u + l, seq![NEWLINE]);
        lemma_newline_count_add(u, l);
        assert(newline_count(seq![NEWLINE]) == 1) by {
            assert(seq![NEWLINE].drop_last() =~= Seq::<u8>::empty());
        }
        assert forall|k: int| 0 <= k < l.len() implies l[k] != NEWLINE by {
            if l[k] == NEWLINE {
                assert(l.contains(NEWLINE));
            }
        }
        lemma_no_newline_count_zero(l);
        if pre.len() > 0 {
            lemma_unlines_last(pre);
            assert(line_count(u) == newline_count(u));
        }
        assert(newline_count(u) == pre.len());
        lemma_unlines_last(lines);
        assert(line_count(whole) == newline_count(whole));
    }
}

/// Count the lines in one probe's output.  Total on every byte sequence.
pub fn count_lines(output: &[u8]) -> (n: usize)
    ensures
        n == line_count(output@),
{
    let len = output.len();
    let mut n: usize = 0;
    let mut i: usize = 0;
    while i < len
        invariant
            i <= len,
            len == output@.len(),
            n <= i,
            n == newline_count(output@.subrange(0, i as int)),
        decreases len - i,
    {
        if output[i] == NEWLINE {
            n = n + 1;
        }
        i = i + 1;
        proof {
            assert(output@.subrange(0, i as int).drop_last() =~= output@.subrange(
                0,
                i as int - 1,
            ));
        }
    }
    proof {
        assert(output@.subrange(0, len as int) =~= output@);
        if len > 0 && output@.last() != NEWLINE {
            assert(newline_count(output@) == newline_count(output@.drop_last()));
            lemma_newline_count_le_len(output@.drop_last());
        }
    }
    if len > 0 && output[len - 1] != NEWLINE {
        n = n + 1;
    }
    n
}

} // verus!
