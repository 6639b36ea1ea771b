//! Laws of the report pipeline: determinism of assembly, that an absent
//! probe leaves no trace in the summary, and that present probes appear in
//! registry order whatever order their outputs were collected in.

use crate::report::{
    dec_str, entries_of, entry_of, entry_str, join_entries, probe_outcome, report_of, sep_str,
};
use vstd::prelude::*;

verus! {

/// Assembling a report is a pure function of its inputs: identical labels
/// and captured outputs yield the identical summary string, however often
/// the assembly is repeated.
pub proof fn lemma_report_deterministic(
    labels1: Seq<Seq<char>>,
    outputs1: Seq<Option<Seq<u8>>>,
    labels2: Seq<Seq<char>>,
    outputs2: Seq<Option<Seq<u8>>>,
)
    requires
        labels1 == labels2,
        outputs1 == outputs2,
    ensures
        report_of(labels1, outputs1) == report_of(labels2, outputs2),
{
}

proof fn lemma_absent_entries(labels: Seq<Seq<char>>, outputs: Seq<Option<Seq<u8>>>, i: int)
    requires
        labels.len() == outputs.len(),
        0 <= i < outputs.len(),
        probe_outcome(outputs[i]) is None,
    ensures
        entries_of(labels, outputs) == entries_of(labels.remove(i), outputs.remove(i)),
    decreases outputs.len(),
{
    if i == outputs.len() - 1 {
        assert(labels.remove(i) =~= labels.drop_last());
        assert(outputs.remove(i) =~= outputs.drop_last());
        assert(entries_of(labels, outputs) =~= entries_of(labels.drop_last(), outputs.drop_last()));
    } else {
        assert(labels.drop_last()[i] == labels[i]);
        assert(outputs.drop_last()[i] == outputs[i]);
        lemma_absent_entries(labels.drop_last(), outputs.drop_last(), i);
        assert(labels.remove(i).drop_last() =~= labels.drop_last().remove(i));
        assert(outputs.remove(i).drop_last() =~= outputs.drop_last().remove(i));
        assert(labels.remove(i).last() == labels.last());
        assert(outputs.remove(i).last() == outputs.last());
        assert(entries_of(labels.remove(i), outputs.remove(i)) =~= entries_of(
            labels.drop_last().remove(i),
            outputs.drop_last().remove(i),
        ) + entry_of(labels.last(), outputs.last()));
    }
}

/// A probe that yields no data leaves no trace: the summary equals the
/// summary over the registry with that entry removed, so no count or label
/// of an absent tool is ever emitted.
pub proof fn lemma_absent_probe_omitted(
    labels: Seq<Seq<char>>,
    outputs: Seq<Option<Seq<u8>>>,
    i: int,
)
    requires
        labels.len() == outputs.len(),
        0 <= i < outputs.len(),
        probe_outcome(outputs[i]) is None,
    ensures
        report_of(labels, outputs) == report_of(labels.remove(i), outputs.remove(i)),
{
    lemma_absent_entries(labels, outputs, i);
}

proof fn lemma_all_absent_entries(labels: Seq<Seq<char>>, outputs: Seq<Option<Seq<u8>>>)
    requires
        labels.len() == outputs.len(),
        forall|k: int| 0 <= k < outputs.len() ==> probe_outcome(#[trigger] outputs[k]) is None,
    ensures
        entries_of(labels, outputs) == Seq::<Seq<char>>::empty(),
    decreases outputs.len(),
{
    if outputs.len() > 0 {
        assert(forall|k: int|
            0 <= k < outputs.len() - 1 ==> #[trigger] outputs.drop_last()[k] == outputs[k]);
        lemma_all_absent_entries(labels.drop_last(), outputs.drop_last());
        assert(entries_of(labels, outputs) =~= Seq::<Seq<char>>::empty());
    }
}

/// When no probe yields data, the summary is the empty string.
pub proof fn lemma_all_absent_empty(labels: Seq<Seq<char>>, outputs: Seq<Option<Seq<u8>>>)
    requires
        labels.len() == outputs.len(),
        forall|k: int| 0 <= k < outputs.len() ==> probe_outcome(#[trigger] outputs[k]) is None,
    ensures
        report_of(labels, outputs) == Seq::<char>::empty(),
{
    lemma_all_absent_entries(labels, outputs);
}

proof fn lemma_entry_str_shape(c: nat, label: Seq<char>)
    ensures
        entry_str(c, label).len() > 0,
        entry_str(c, label).last() == ')',
{
    assert(entry_str(c, label) =~= (dec_str(c) + seq!['('] + label).push(')'));
}

proof fn lemma_entries_elements(labels: Seq<Seq<char>>, outputs: Seq<Option<Seq<u8>>>, k: int)
    requires
        labels.len() == outputs.len(),
        0 <= k < entries_of(labels, outputs).len(),
    ensures
        entries_of(labels, outputs)[k].len() > 0,
        entries_of(labels, outputs)[k].last() == ')',
    decreases outputs.len(),
{
    if outputs.len() > 0 {
        let pre = entries_of(labels.drop_last(), outputs.drop_last());
        if k < pre.len() {
            lemma_entries_elements(labels.drop_last(), outputs.drop_last(), k);
        } else {
            match probe_outcome(outputs.last()) {
                Some(c) => {
                    lemma_entry_str_shape(c, labels.last());
                },
                None => {},
            }
        }
    }
}

proof fn lemma_join_shape(es: Seq<Seq<char>>)
    requires
        es.len() > 0,
        forall|k: int| 0 <= k < es.len() ==> (#[trigger] es[k]).len() > 0,
        forall|k: int| 0 <= k < es.len() ==> (#[trigger] es[k]).last() == ')',
    ensures
        join_entries(es).len() > 0,
        join_entries(es).last() == ')',
        es[0].is_prefix_of(join_entries(es)),
    decreases es.len(),
{
    if es.len() == 1 {
        assert(es[0] =~= join_entries(es).subrange(0, es[0].len() as int));
    } else {
        let dl = es.drop_last();
        assert(forall|k: int| 0 <= k < dl.len() ==> #[trigger] dl[k] == es[k]);
        lemma_join_shape(dl);
        let joined = join_entries(es);
        assert(joined.last() == es.last().last());
        let p = es[0];
        assert(p =~= join_entries(dl).subrange(0, p.len() as int));
        assert(p =~= joined.subrange(0, p.len() as int));
    }
}

/// A non-empty summary has no dangling separator or stray characters at its
/// ends: it begins with its first present entry and ends with the last
/// entry's closing parenthesis.
pub proof fn lemma_no_dangling_separator(labels: Seq<Seq<char>>, outputs: Seq<Option<Seq<u8>>>)
    requires
        labels.len() == outputs.len(),
        entries_of(labels, outputs).len() > 0,
    ensures
        report_of(labels, outputs).len() > 0,
        report_of(labels, outputs).last() == ')',
        entries_of(labels, outputs)[0].is_prefix_of(report_of(labels, outputs)),
{
    let es = entries_of(labels, outputs);
    assert forall|k: int| 0 <= k < es.len() implies (#[trigger] es[k]).len() > 0 && es[k].last()
        == ')' by {
        lemma_entries_elements(labels, outputs, k);
    }
    lemma_join_shape(es);
}

/// `needle` occurs in `hay` starting at position `p`.
pub open spec fn occurs_at(hay: Seq<char>, needle: Seq<char>, p: int) -> bool {
    0 <= p && p + needle.len() <= hay.len() && hay.subrange(p, p + needle.len()) == needle
}

/// `needle` occurs somewhere in `hay`.
pub open spec fn contains_str(hay: Seq<char>, needle: Seq<char>) -> bool {
    exists|p: int| occurs_at(hay, needle, p)
}

/// A label that contains no parenthesis of its own.
pub open spec fn paren_free(l: Seq<char>) -> bool {
    forall|k: int| 0 <= k < l.len() ==> l[k] != '(' && l[k] != ')'
}

/// The substring that betrays label `l` in a summary: `"(<l>)"`.
pub open spec fn label_marker(l: Seq<char>) -> Seq<char> {
    seq!['('] + l + seq![')']
}

/// An entry formatted for some parenthesis-free label other than `avoid`.
pub open spec fn plain_entry(e: Seq<char>, avoid: Seq<char>) -> bool {
    exists|c: nat, l: Seq<char>| e == entry_str(c, l) && paren_free(l) && l != avoid
}

proof fn lemma_dec_str_paren_free(n: nat)
    ensures
        dec_str(n).len() >= 1,
        forall|k: int| 0 <= k < dec_str(n).len() ==> dec_str(n)[k] != '(' && dec_str(n)[k] != ')',
    decreases n,
{
    if n >= 10 {
        lemma_dec_str_paren_free(n / 10);
    }
}

proof fn lemma_entry_open_paren(c: nat, l: Seq<char>, p: int)
    requires
        paren_free(l),
        0 <= p < entry_str(c, l).len(),
        entry_str(c, l)[p] == '(',
    ensures
        occurs_at(entry_str(c, l), label_marker(l), p),
{
    lemma_dec_str_paren_free(c);
    let d = dec_str(c).len() as int;
    let e = entry_str(c, l);
    assert(p == d);
    assert(e.subrange(p, p + label_marker(l).len()) =~= label_marker(l));
}

proof fn lemma_join_open_parens(es: Seq<Seq<char>>, avoid: Seq<char>, p: int)
    requires
        forall|k: int| 0 <= k < es.len() ==> plain_entry(#[trigger] es[k], avoid),
        0 <= p < join_entries(es).len(),
        join_entries(es)[p] == '(',
    ensures
        exists|l: Seq<char>|
            paren_free(l) && l != avoid && occurs_at(join_entries(es), label_marker(l), p),
    decreases es.len(),
{
    let hay = join_entries(es);
    if es.len() == 1 {
        let (c, l) = choose|c: nat, l: Seq<char>|
            es[0] == entry_str(c, l) && paren_free(l) && l != avoid;
        lemma_entry_open_paren(c, l, p);
    } else {
        let a = join_entries(es.drop_last());
        let e = es.last();
        assert(hay == a + sep_str() + e);
        assert(hay.len() == a.len() + 2 + e.len());
        if p < a.len() {
            assert(forall|k: int| 0 <= k < es.len() - 1 ==> #[trigger] es.drop_last()[k] == es[k]);
            assert(a[p] == '(');
            lemma_join_open_parens(es.drop_last(), avoid, p);
            let l = choose|l: Seq<char>|
                paren_free(l) && l != avoid && occurs_at(a, label_marker(l), p);
            assert(hay.subrange(p, p + label_marker(l).len()) =~= a.subrange(
                p,
                p + label_marker(l).len(),
            ));
            assert(occurs_at(hay, label_marker(l), p));
        } else if p < a.len() + 2 {
            assert(hay[p] == sep_str()[p - a.len()]);
            assert(false);
        } else {
            let q = p - a.len() - 2;
            assert(hay[p] == e[q]);
            let (c, l) = choose|c: nat, l: Seq<char>|
                es.last() == entry_str(c, l) && paren_free(l) && l != avoid;
            lemma_entry_open_paren(c, l, q);
            assert(hay.subrange(p, p + label_marker(l).len()) =~= e.subrange(
                q,
                q + label_marker(l).len(),
            ));
            assert(occurs_at(hay, label_marker(l), p));
        }
    }
}

proof fn lemma_join_no_marker(es: Seq<Seq<char>>, avoid: Seq<char>)
    requires
        forall|k: int| 0 <= k < es.len() ==> plain_entry(#[trigger] es[k], avoid),
        paren_free(avoid),
    ensures
        !contains_str(join_entries(es), label_marker(avoid)),
{
    let hay = join_entries(es);
    let m = label_marker(avoid);
    if contains_str(hay, m) {
        let p = choose|p: int| occurs_at(hay, m, p);
        assert(hay[p] == m[0]);
        assert(m[0] == '(');
        lemma_join_open_parens(es, avoid, p);
        let l = choose|l: Seq<char>|
            paren_free(l) && l != avoid && occurs_at(hay, label_marker(l), p);
        let w = label_marker(l);
        assert(forall|k: int| 0 <= k < m.len() ==> m[k] == hay[p + k]);
        assert(forall|k: int| 0 <= k < w.len() ==> w[k] == hay[p + k]);
        if l.len() == avoid.len() {
            assert forall|k: int| 0 <= k < l.len() implies l[k] == avoid[k] by {
                assert(w[k + 1] == l[k]);
                assert(m[k + 1] == avoid[k]);
                assert(w[k + 1] == hay[p + k + 1]);
                assert(m[k + 1] == hay[p + k + 1]);
            }
            assert(l =~= avoid);
        } else if avoid.len() < l.len() {
            assert(m[avoid.len() as int + 1] == ')');
            assert(w[avoid.len() as int + 1] == l[avoid.len() as int]);
        } else {
            assert(w[l.len() as int + 1] == ')');
            assert(m[l.len() as int + 1] == avoid[l.len() as int]);
        }
    }
}

proof fn lemma_entries_plain(
    labels: Seq<Seq<char>>,
    outputs: Seq<Option<Seq<u8>>>,
    avoid: Seq<char>,
    k: int,
)
    requires
        labels.len() == outputs.len(),
        0 <= k < entries_of(labels, outputs).len(),
        forall|j: int| 0 <= j < labels.len() ==> paren_free(#[trigger] labels[j]),
        forall|j: int|
            0 <= j < outputs.len() && probe_outcome(#[trigger] outputs[j]) is Some ==> labels[j]
                != avoid,
    ensures
        plain_entry(entries_of(labels, outputs)[k], avoid),
    decreases outputs.len(),
{
    if outputs.len() > 0 {
        let pre = entries_of(labels.drop_last(), outputs.drop_last());
        if k < pre.len() {
            lemma_entries_plain(labels.drop_last(), outputs.drop_last(), avoid, k);
        } else {
            match probe_outcome(outputs.last()) {
                Some(c) => {
                    let l = labels.last();
                    assert(entries_of(labels, outputs)[k] == entry_str(c, l) && paren_free(l) && l
                        != avoid);
                },
                None => {},
            }
        }
    }
}

/// A probe with no data betrays its label nowhere: the summary never
/// contains the substring `"(<label>)"` for an absent probe, provided no
/// label holds a parenthesis of its own and no present probe carries the
/// same label.
pub proof fn lemma_absent_label_unreported(
    labels: Seq<Seq<char>>,
    outputs: Seq<Option<Seq<u8>>>,
    i: int,
)
    requires
        labels.len() == outputs.len(),
        0 <= i < outputs.len(),
        probe_outcome(outputs[i]) is None,
        forall|j: int| 0 <= j < labels.len() ==> paren_free(#[trigger] labels[j]),
        forall|j: int|
            0 <= j < outputs.len() && probe_outcome(#[trigger] outputs[j]) is Some ==> labels[j]
                != labels[i],
    ensures
        !contains_str(report_of(labels, outputs), label_marker(labels[i])),
{
    let es = entries_of(labels, outputs);
    assert forall|k: int| 0 <= k < es.len() implies plain_entry(#[trigger] es[k], labels[i]) by {
        lemma_entries_plain(labels, outputs, labels[i], k);
    }
    lemma_join_no_marker(es, labels[i]);
}

/// Number of present probes among the first `k` registry entries.
pub open spec fn present_count(
    labels: Seq<Seq<char>>,
    outputs: Seq<Option<Seq<u8>>>,
    k: int,
) -> nat
    recommends
        labels.len() == outputs.len(),
        0 <= k <= outputs.len(),
{
    entries_of(labels.subrange(0, k), outputs.subrange(0, k)).len()
}

proof fn lemma_entries_step(labels: Seq<Seq<char>>, outputs: Seq<Option<Seq<u8>>>, k: int)
    requires
        labels.len() == outputs.len(),
        0 <= k < outputs.len(),
    ensures
        entries_of(labels.subrange(0, k + 1), outputs.subrange(0, k + 1)) == entries_of(
            labels.subrange(0, k),
            outputs.subrange(0, k),
        ) + entry_of(labels[k], outputs[k]),
{
    assert(labels.subrange(0, k + 1).drop_last() =~= labels.subrange(0, k));
    assert(outputs.subrange(0, k + 1).drop_last() =~= outputs.subrange(0, k));
    assert(entries_of(labels.subrange(0, k + 1), outputs.subrange(0, k + 1)) =~= entries_of(
        labels.subrange(0, k),
        outputs.subrange(0, k),
    ) + entry_of(labels[k], outputs[k]));
}

/// The entry of present probe `i` stands at position `present_count(.., i)`
/// of the entry sequence: each present probe's formatted count stands at the
/// place its registry position dictates, independent of anything else.
pub proof fn lemma_present_entry_position(
    labels: Seq<Seq<char>>,
    outputs: Seq<Option<Seq<u8>>>,
    i: int,
    c: nat,
)
    requires
        labels.len() == outputs.len(),
        0 <= i < outputs.len(),
        probe_outcome(outputs[i]) == Some(c),
    ensures
        present_count(labels, outputs, i) < entries_of(labels, outputs).len(),
        entries_of(labels, outputs)[present_count(labels, outputs, i) as int] == entry_str(
            c,
            labels[i],
        ),
    decreases outputs.len(),
{
    if i == outputs.len() - 1 {
        assert(labels.subrange(0, i) =~= labels.drop_last());
        assert(outputs.subrange(0, i) =~= outputs.drop_last());
    } else {
        assert(labels.drop_last()[i] == labels[i]);
        assert(outputs.drop_last()[i] == outputs[i]);
        lemma_present_entry_position(labels.drop_last(), outputs.drop_last(), i, c);
        assert(labels.drop_last().subrange(0, i) =~= labels.subrange(0, i));
        assert(outputs.drop_last().subrange(0, i) =~= outputs.subrange(0, i));
    }
}

proof fn lemma_present_count_mono(
    labels: Seq<Seq<char>>,
    outputs: Seq<Option<Seq<u8>>>,
    k1: int,
    k2: int,
)
    requires
        labels.len() == outputs.len(),
        0 <= k1 <= k2 <= outputs.len(),
    ensures
        present_count(labels, outputs, k1) <= present_count(labels, outputs, k2),
    decreases k2 - k1,
{
    if k1 < k2 {
        lemma_entries_step(labels, outputs, k2 - 1);
        lemma_present_count_mono(labels, outputs, k1, k2 - 1);
    }
}

/// Order invariance: two present probes appear in the entry sequence in
/// registry order — the earlier registry entry's formatted count stands at
/// the earlier position, regardless of the order the outputs came in.
pub proof fn lemma_present_order(
    labels: Seq<Seq<char>>,
    outputs: Seq<Option<Seq<u8>>>,
    i: int,
    j: int,
    ci: nat,
    cj: nat,
)
    requires
        labels.len() == outputs.len(),
        0 <= i < j < outputs.len(),
        probe_outcome(outputs[i]) == Some(ci),
        probe_outcome(outputs[j]) == Some(cj),
    ensures
        present_count(labels, outputs, i) < present_count(labels, outputs, j),
{
    lemma_entries_step(labels, outputs, i);
    lemma_present_count_mono(labels, outputs, i + 1, j);
}

} // verus!
