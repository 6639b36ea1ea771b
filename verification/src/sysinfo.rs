//! The pure part of the remaining system probes: deriving the shell name
//! from the `SHELL` environment value, the desktop field from its
//! environment value, and the CPU model from the text of a cpu-info listing.
//! Reading the environment and the files is left to the surrounding
//! program; these functions take the raw strings it obtained.

use crate::text::{find_char_from, first_index_of, str_has_prefix, trim_spec, trim_str};
use crate::text::last_segment;
use crate::text::last_segment_str;
use vstd::prelude::*;
use vstd::string::StrSliceExecFns;

verus! {

/// The placeholder reported when an environment value is missing.
pub open spec fn unknown_str() -> Seq<char> {
    seq!['U', 'n', 'k', 'n', 'o', 'w', 'n']
}

fn unknown() -> (s: String)
    ensures
        s@ == unknown_str(),
{
    let s = "Unknown".to_owned();
    proof {
        reveal_strlit("Unknown");
        assert(s@ =~= unknown_str());
    }
    s
}

/// The shell field: the last `/`-separated segment of the `SHELL`
/// environment value, or `"Unknown"` when the variable is unset.
pub fn shell_name(value: Option<&str>) -> (r: String)
    ensures
        value matches Some(s) ==> r@ == last_segment(s@, '/'),
        value is None ==> r@ == unknown_str(),
{
    match value {
        Some(s) => last_segment_str(s, '/'),
        None => unknown(),
    }
}

/// The desktop/window-manager field: the environment value itself, or
/// `"Unknown"` when the variable is unset.
pub fn desktop_name(value: Option<&str>) -> (r: String)
    ensures
        value matches Some(s) ==> r@ == s@,
        value is None ==> r@ == unknown_str(),
{
    match value {
        Some(s) => s.to_owned(),
        None => unknown(),
    }
}

/// Index just past the line that starts at `from`: the position of the next
/// newline, or the end of the text.
pub open spec fn line_end(s: Seq<char>, from: int) -> int {
    from + first_index_of(s.subrange(from, s.len() as int), '\n')
}

/// The CPU model according to the text from position `from` on: on the
/// first line that starts with `prefix`, the part after the first `':'`,
/// trimmed; none when that line has no `':'` or no line matches.
pub open spec fn cpu_model_from(s: Seq<char>, prefix: Seq<char>, from: int) -> Option<Seq<char>>
    recommends
        0 <= from <= s.len(),
    decreases s.len() - from,
{
    let end = line_end(s, from);
    let line = s.subrange(from, end);
    if prefix.is_prefix_of(line) {
        let ci = first_index_of(line, ':') as int;
        if ci < line.len() {
            Some(trim_spec(line.subrange(ci + 1, line.len() as int)))
        } else {
            None
        }
    } else if end < s.len() {
        cpu_model_from(s, prefix, end + 1)
    } else {
        None
    }
}

/// The CPU model read from a cpu-info listing: on the first line starting
/// with `prefix`, the part after the first `':'`, trimmed.
pub open spec fn cpu_model_spec(s: Seq<char>, prefix: Seq<char>) -> Option<Seq<char>> {
    cpu_model_from(s, prefix, 0)
}

/// The value on the first kstat line, from position `from` on: on the first
/// line containing a tab, the part after the first tab, trimmed; none when
/// no line has a tab.
pub open spec fn kstat_value_from(s: Seq<char>, from: int) -> Option<Seq<char>>
    recommends
        0 <= from <= s.len(),
    decreases s.len() - from,
{
    let end = line_end(s, from);
    let line = s.subrange(from, end);
    let ti = first_index_of(line, '\t') as int;
    if ti < line.len() {
        Some(trim_spec(line.subrange(ti + 1, line.len() as int)))
    } else if end < s.len() {
        kstat_value_from(s, end + 1)
    } else {
        None
    }
}

/// The value of the first statistic in a kstat listing, whose lines are
/// `"<statistic>\t<value>"`.
pub open spec fn kstat_value_spec(s: Seq<char>) -> Option<Seq<char>> {
    kstat_value_from(s, 0)
}

/// Extract the first statistic's value from kstat output: on the first line
/// containing a tab, the part after the tab, trimmed.  `None` when no line
/// has a tab.
pub fn kstat_value(text: &str) -> (r: Option<String>)
    ensures
        r.deep_view() == kstat_value_spec(text@),
{
    let len = text.unicode_len();
    let mut from: usize = 0;
    loop
        invariant
            from <= len,
            len == text@.len(),
            kstat_value_spec(text@) == kstat_value_from(text@, from as int),
        decreases len - from,
    {
        let end = find_char_from(text, '\n', from);
        let line = text.substring_char(from, end);
        proof {
            assert(line_end(text@, from as int) == end);
            assert(line@ == text@.subrange(from as int, end as int));
        }
        let llen = line.unicode_len();
        let ti = find_char_from(line, '\t', 0);
        proof {
            assert(line@.subrange(0, llen as int) =~= line@);
        }
        if ti < llen {
            let value = trim_str(line.substring_char(ti + 1, llen));
            return Some(value);
        } else if end < len {
            from = end + 1;
        } else {
            return None;
        }
    }
}

/// Extract the CPU model from cpu-info text: find the first line starting
/// with `prefix` and return the part after its first `':'`, trimmed.
/// `None` when no line matches, or the matching line has no `':'`.
pub fn cpu_model(info: &str, prefix: &str) -> (r: Option<String>)
    ensures
        r.deep_view() == cpu_model_spec(info@, prefix@),
{
    let len = info.unicode_len();
    let mut from: usize = 0;
    loop
        invariant
            from <= len,
            len == info@.len(),
            cpu_model_spec(info@, prefix@) == cpu_model_from(info@, prefix@, from as int),
        decreases len - from,
    {
        let end = find_char_from(info, '\n', from);
        let line = info.substring_char(from, end);
        let ghost gline = info@.subrange(from as int, end as int);
        proof {
            assert(line_end(info@, from as int) == end);
            assert(line@ == gline);
        }
        if str_has_prefix(line, prefix) {
            let llen = line.unicode_len();
            let ci = find_char_from(line, ':', 0);
            proof {
                assert(line@.subrange(0, llen as int) =~= line@);
            }
            if ci < llen {
                let value = trim_str(line.substring_char(ci + 1, llen));
                return Some(value);
            } else {
                return None;
            }
        } else if end < len {
            from = end + 1;
        } else {
            return None;
        }
    }
}

} // verus!
