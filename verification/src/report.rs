//! Report Assembler: turns the outcome of each probe into a formatted entry
//! `"<count>(<label>)"` and joins the entries, in registry order, with the
//! separator `", "`.
//!
//! Policy for zero counts: a probe that ran but reported zero lines is
//! treated like an absent tool and contributes no entry, so an installed but
//! empty package manager does not clutter the summary.

use crate::count::line_count;
use vstd::prelude::*;
use vstd::string::StringExecFns;

verus! {

/// Decimal digit character for `d < 10`.
pub open spec fn dec_digit(d: nat) -> char {
    if d == 0 {
        '0'
    } else if d == 1 {
        '1'
    } else if d == 2 {
        '2'
    } else if d == 3 {
        '3'
    } else if d == 4 {
        '4'
    } else if d == 5 {
        '5'
    } else if d == 6 {
        '6'
    } else if d == 7 {
        '7'
    } else if d == 8 {
        '8'
    } else {
        '9'
    }
}

/// Decimal representation of `n`, most significant digit first, no sign and
/// no leading zero (except for `n == 0` itself).
pub open spec fn dec_str(n: nat) -> Seq<char>
    decreases n,
{
    if n < 10 {
        seq![dec_digit(n)]
    } else {
        dec_str(n / 10) + seq![dec_digit(n % 10)]
    }
}

fn digit_str(d: usize) -> (s: &'static str)
    requires
        d < 10,
    ensures
        s@ == seq![dec_digit(d as nat)],
{
    let s: &'static str = match d {
        0 => "0",
        1 => "1",
        2 => "2",
        3 => "3",
        4 => "4",
        5 => "5",
        6 => "6",
        7 => "7",
        8 => "8",
        _ => "9",
    };
    proof {
        reveal_strlit("0");
        reveal_strlit("1");
        reveal_strlit("2");
        reveal_strlit("3");
        reveal_strlit("4");
        reveal_strlit("5");
        reveal_strlit("6");
        reveal_strlit("7");
        reveal_strlit("8");
        reveal_strlit("9");
        assert(s@ =~= seq![dec_digit(d as nat)]);
    }
    s
}

/// Render `n` in decimal.
pub fn usize_to_string(n: usize) -> (s: String)
    ensures
        s@ == dec_str(n as nat),
    decreases n,
{
    let d = digit_str(n % 10);
    if n < 10 {
        let s = d.to_owned();
        proof {
            assert(s@ =~= dec_str(n as nat));
        }
        s
    } else {
        let mut s = usize_to_string(n / 10);
        s.append(d);
        proof {
            assert(s@ =~= dec_str(n as nat));
        }
        s
    }
}

/// The formatted report entry for a present probe: `"<count>(<label>)"`.
pub open spec fn entry_str(count: nat, label: Seq<char>) -> Seq<char> {
    dec_str(count) + seq!['('] + label + seq![')']
}

/// Format one present probe as `"<count>(<label>)"`.
pub fn format_entry(count: usize, label: &str) -> (s: String)
    ensures
        s@ == entry_str(count as nat, label@),
{
    let mut s = usize_to_string(count);
    s.append("(");
    s.append(label);
    s.append(")");
    proof {
        reveal_strlit("(");
        reveal_strlit(")");
        assert(s@ =~= entry_str(count as nat, label@));
    }
    s
}

/// Outcome of one probe: either data was obtained (with its count and
/// display label), or the tool was absent, failed to run, or listed nothing.
pub enum ProbeResult {
    Present { count: usize, label: String },
    Absent,
}

impl ProbeResult {
    /// Mathematical model: the count and label of a present probe.
    pub open spec fn model(self) -> Option<(nat, Seq<char>)> {
        match self {
            ProbeResult::Present { count, label } => Some((count as nat, label@)),
            ProbeResult::Absent => None,
        }
    }
}

/// What one probe contributes to the report, from its captured output:
/// `None` when the tool could not be run, when it wrote nothing, or when its
/// output held zero lines; otherwise the line count.
pub open spec fn probe_outcome(output: Option<Seq<u8>>) -> Option<nat> {
    match output {
        Some(bytes) => if line_count(bytes) == 0 {
            None
        } else {
            Some(line_count(bytes))
        },
        None => None,
    }
}

/// Classify one probe's captured output (`None` when the tool could not be
/// launched) into a `ProbeResult` carrying its display label.
pub fn classify_probe(output: &Option<Vec<u8>>, label: &str) -> (r: ProbeResult)
    ensures
        r.model() == match probe_outcome(output.deep_view()) {
            Some(c) => Some((c, label@)),
            None => None::<(nat, Seq<char>)>,
        },
{
    match output {
        Some(bytes) => {
            proof {
                assert(bytes.deep_view() =~= bytes@);
                assert(output.deep_view() == Some(bytes@));
            }
            let c = crate::count::count_lines(bytes.as_slice());
            if c == 0 {
                ProbeResult::Absent
            } else {
                ProbeResult::Present { count: c, label: label.to_owned() }
            }
        },
        None => ProbeResult::Absent,
    }
}

/// The separator between report entries.
pub open spec fn sep_str() -> Seq<char> {
    seq![',', ' ']
}

/// The entries (zero or one) contributed by a single probe.
pub open spec fn entry_of(label: Seq<char>, output: Option<Seq<u8>>) -> Seq<Seq<char>> {
    match probe_outcome(output) {
        Some(c) => seq![entry_str(c, label)],
        None => Seq::empty(),
    }
}

/// The formatted entries of all present probes, in registry order.
pub open spec fn entries_of(labels: Seq<Seq<char>>, outputs: Seq<Option<Seq<u8>>>) -> Seq<
    Seq<char>,
>
    recommends
        labels.len() == outputs.len(),
    decreases outputs.len(),
{
    if outputs.len() == 0 || labels.len() == 0 {
        Seq::empty()
    } else {
        entries_of(labels.drop_last(), outputs.drop_last()) + entry_of(
            labels.last(),
            outputs.last(),
        )
    }
}

/// Entries joined with `", "`: empty for no entries, no leading or trailing
/// separator otherwise.
pub open spec fn join_entries(entries: Seq<Seq<char>>) -> Seq<char>
    decreases entries.len(),
{
    if entries.len() == 0 {
        Seq::empty()
    } else if entries.len() == 1 {
        entries[0]
    } else {
        join_entries(entries.drop_last()) + sep_str() + entries.last()
    }
}

/// The whole summary string for the given labels and captured outputs.
pub open spec fn report_of(labels: Seq<Seq<char>>, outputs: Seq<Option<Seq<u8>>>) -> Seq<char> {
    join_entries(entries_of(labels, outputs))
}

/// The model of each classified result, in order.
pub open spec fn result_entries(rs: Seq<ProbeResult>) -> Seq<Seq<char>>
    decreases rs.len(),
{
    if rs.len() == 0 {
        Seq::empty()
    } else {
        result_entries(rs.drop_last()) + match rs.last().model() {
            Some((c, label)) => seq![entry_str(c, label)],
            None => Seq::empty(),
        }
    }
}

/// Join the formatted entries of the present results, in order, with `", "`.
pub fn assemble_report(results: &Vec<ProbeResult>) -> (s: String)
    ensures
        s@ == join_entries(result_entries(results@)),
{
    let mut s = String::new();
    let mut any = false;
    let mut i: usize = 0;
    while i < results.len()
        invariant
            i <= results@.len(),
            any == (result_entries(results@.subrange(0, i as int)).len() > 0),
            s@ == join_entries(result_entries(results@.subrange(0, i as int))),
        decreases results@.len() - i,
    {
        let ghost prefix = results@.subrange(0, i as int);
        let ghost prev = result_entries(prefix);
        match &results[i] {
            ProbeResult::Present { count, label } => {
                let e = format_entry(*count, label.as_str());
                if any {
                    s.append(", ");
                }
                s.append(e.as_str());
                any = true;
                proof {
                    reveal_strlit(", ");
                    assert(", "@ =~= sep_str());
                    let ghost added = seq![entry_str(*count as nat, label@)];
                    assert((prev + added).drop_last() =~= prev);
                    assert(s@ =~= join_entries(prev + added));
                }
            },
            ProbeResult::Absent => {
                proof {
                    assert(prev + Seq::<Seq<char>>::empty() =~= prev);
                }
            },
        }
        i = i + 1;
        proof {
            assert(results@.subrange(0, i as int).drop_last() =~= prefix);
            assert(results@.subrange(0, i as int).last() == results@[i - 1]);
            assert(result_entries(results@.subrange(0, i as int)) =~= prev + match results@[i
                - 1].model() {
                Some((c, label)) => seq![entry_str(c, label)],
                None => Seq::empty(),
            });
        }
    }
    proof {
        assert(results@.subrange(0, results@.len() as int) =~= results@);
    }
    s
}

/// The full pipeline, from the registry's display labels and the captured
/// output of each probe (one slot per registry entry, in registry order,
/// `None` where the tool could not be launched) to the summary string.
pub fn build_report(labels: &Vec<String>, outputs: &Vec<Option<Vec<u8>>>) -> (s: String)
    requires
        labels@.len() == outputs@.len(),
    ensures
        s@ == report_of(labels.deep_view(), outputs.deep_view()),
{
    let ghost ldv = labels.deep_view();
    let ghost odv = outputs.deep_view();
    let mut results: Vec<ProbeResult> = Vec::new();
    let mut i: usize = 0;
    while i < outputs.len()
        invariant
            i <= outputs@.len(),
            labels@.len() == outputs@.len(),
            ldv == labels.deep_view(),
            odv == outputs.deep_view(),
            result_entries(results@) == entries_of(
                ldv.subrange(0, i as int),
                odv.subrange(0, i as int),
            ),
        decreases outputs@.len() - i,
    {
        let ghost prev = results@;
        let r = classify_probe(&outputs[i], labels[i].as_str());
        proof {
            assert(odv[i as int] == outputs@[i as int].deep_view());
            assert(ldv[i as int] == labels@[i as int]@);
        }
        results.push(r);
        i = i + 1;
        proof {
            assert(results@.drop_last() =~= prev);
            let lpre = ldv.subrange(0, i as int);
            let opre = odv.subrange(0, i as int);
            assert(lpre.drop_last() =~= ldv.subrange(0, i - 1));
            assert(opre.drop_last() =~= odv.subrange(0, i - 1));
            assert(result_entries(results@) =~= entries_of(lpre, opre));
        }
    }
    proof {
        assert(ldv.subrange(0, labels@.len() as int) =~= ldv);
        assert(odv.subrange(0, outputs@.len() as int) =~= odv);
    }
    assemble_report(&results)
}

} // verus!
