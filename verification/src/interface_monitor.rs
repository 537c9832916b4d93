//! Parsing of link-monitor output.
//!
//! The surrounding program streams lines like
//! `2: eth0: <BROADCAST,MULTICAST,UP,LOWER_UP> mtu 1500` from the system's
//! link monitor.  This module decides what such a line means: whether it
//! announces a device coming up or going down, and which device it names
//! (the second whitespace-separated field, with trailing colons stripped).

use vstd::prelude::*;

use vstd::string::StrSliceExecFns;

verus! {

/// The field separators of monitor output.
pub open spec fn spec_is_space(c: char) -> bool {
    c == ' ' || c == '\t'
}

/// The first index at or after `i` that is not a separator.
pub open spec fn spec_skip_spaces(s: Seq<char>, i: int) -> int
    decreases s.len() - i,
{
    if i < 0 || i >= s.len() || !spec_is_space(s[i]) {
        i
    } else {
        spec_skip_spaces(s, i + 1)
    }
}

/// The first index at or after `i` that is a separator (or the end).
pub open spec fn spec_token_end(s: Seq<char>, i: int) -> int
    decreases s.len() - i,
{
    if i < 0 || i >= s.len() || spec_is_space(s[i]) {
        i
    } else {
        spec_token_end(s, i + 1)
    }
}

/// The end of the token once trailing colons are stripped, but never before
/// `start`.
pub open spec fn spec_strip_colons(s: Seq<char>, end: int, start: int) -> int
    decreases end - start,
{
    if end <= start || s[end - 1] != ':' {
        end
    } else {
        spec_strip_colons(s, end - 1, start)
    }
}

/// The device name a monitor line carries: its second whitespace-separated
/// field, with trailing colons stripped; nothing if the line has fewer than
/// two fields.
pub open spec fn spec_extract_device(s: Seq<char>) -> Option<Seq<char>> {
    let t1s = spec_skip_spaces(s, 0);
    let t1e = spec_token_end(s, t1s);
    let t2s = spec_skip_spaces(s, t1e);
    if t2s >= s.len() {
        None
    } else {
        let t2e = spec_token_end(s, t2s);
        Some(s.subrange(t2s, spec_strip_colons(s, t2e, t2s)))
    }
}

/// Whether `pat` occurs in `s` starting at `off`.
pub open spec fn spec_match_at(s: Seq<char>, pat: Seq<char>, off: int) -> bool {
    0 <= off && off + pat.len() <= s.len() && s.subrange(off, off + pat.len()) == pat
}

/// Whether `pat` occurs anywhere in `s`.
pub open spec fn spec_contains_seq(s: Seq<char>, pat: Seq<char>) -> bool {
    exists|off: int| spec_match_at(s, pat, off)
}

/// What a monitor line announces: the named device came up (`true`) or went
/// down (`false`).  A line carrying `UP` announces up (`LOWER_UP` counts),
/// one carrying `DOWN` announces down, anything else is ignored; a line
/// with no second field names no device and is ignored too.
pub open spec fn spec_parse_event(s: Seq<char>) -> Option<(Seq<char>, bool)> {
    if spec_contains_seq(s, "UP"@) {
        match spec_extract_device(s) {
            Some(d) => Some((d, true)),
            None => None,
        }
    } else if spec_contains_seq(s, "DOWN"@) {
        match spec_extract_device(s) {
            Some(d) => Some((d, false)),
            None => None,
        }
    } else {
        None
    }
}

/// Skip separators, from `i`.
fn skip_spaces(line: &str, i: usize) -> (r: usize)
    requires
        i <= line@.len(),
    ensures
        r == spec_skip_spaces(line@, i as int),
        i <= r <= line@.len(),
{
    let n = line.unicode_len();
    let mut j = i;
    while j < n
        invariant
            i <= j <= n,
            n == line@.len(),
            spec_skip_spaces(line@, i as int) == spec_skip_spaces(line@, j as int),
        decreases n - j,
    {
        let c = line.get_char(j);
        if c != ' ' && c != '\t' {
            return j;
        }
        j = j + 1;
    }
    j
}

/// Find the end of the token starting at `i`.
fn token_end(line: &str, i: usize) -> (r: usize)
    requires
        i <= line@.len(),
    ensures
        r == spec_token_end(line@, i as int),
        i <= r <= line@.len(),
{
    let n = line.unicode_len();
    let mut j = i;
    while j < n
        invariant
            i <= j <= n,
            n == line@.len(),
            spec_token_end(line@, i as int) == spec_token_end(line@, j as int),
        decreases n - j,
    {
        let c = line.get_char(j);
        if c == ' ' || c == '\t' {
            return j;
        }
        j = j + 1;
    }
    j
}

/// Strip trailing colons from the token `start..end`.
fn strip_colons(line: &str, end: usize, start: usize) -> (r: usize)
    requires
        start <= end <= line@.len(),
    ensures
        r == spec_strip_colons(line@, end as int, start as int),
        start <= r <= end,
{
    let mut e = end;
    while e > start
        invariant
            start <= e <= end <= line@.len(),
            spec_strip_colons(line@, end as int, start as int) == spec_strip_colons(
                line@,
                e as int,
                start as int,
            ),
        decreases e,
    {
        let c = line.get_char(e - 1);
        if c != ':' {
            return e;
        }
        e = e - 1;
    }
    e
}

/// The device name of a monitor line, if it has one.
pub fn extract_interface_name(line: &str) -> (r: Option<String>)
    ensures
        match r {
            Some(d) => spec_extract_device(line@) == Some(d@),
            None => spec_extract_device(line@) is None,
        },
{
    let n = line.unicode_len();
    let t1s = skip_spaces(line, 0);
    let t1e = token_end(line, t1s);
    let t2s = skip_spaces(line, t1e);
    if t2s >= n {
        return None;
    }
    let t2e = token_end(line, t2s);
    let e = strip_colons(line, t2e, t2s);
    let name = line.substring_char(t2s, e).to_owned();
    Some(name)
}

/// Whether `pat` occurs in `line`.
pub fn contains_pattern(line: &str, pat: &str) -> (r: bool)
    ensures
        r == spec_contains_seq(line@, pat@),
{
    let n = line.unicode_len();
    let m = pat.unicode_len();
    if m == 0 {
        proof {
            assert(line@.subrange(0, 0) =~= pat@);
            assert(spec_match_at(line@, pat@, 0));
        }
        return true;
    }
    if m > n {
        proof {
            if spec_contains_seq(line@, pat@) {
                let off = choose|off: int| spec_match_at(line@, pat@, off);
                assert(false);
            }
        }
        return false;
    }
    let mut off: usize = 0;
    while off <= n - m
        invariant
            m <= n,
            n == line@.len(),
            m == pat@.len(),
            1 <= m,
            off <= n - m + 1,
            forall|o: int| 0 <= o < off ==> !spec_match_at(line@, pat@, o),
        decreases n - m + 1 - off,
    {
        let mut k: usize = 0;
        let mut all_eq: bool = true;
        while k < m
            invariant
                k <= m,
                m <= n,
                n == line@.len(),
                m == pat@.len(),
                off + m <= n,
                all_eq ==> forall|j: int| 0 <= j < k ==> line@[off + j] == pat@[j],
                !all_eq ==> !spec_match_at(line@, pat@, off as int),
            decreases m - k,
        {
            if line.get_char(off + k) != pat.get_char(k) {
                proof {
                    assert(line@.subrange(off as int, off + m)[k as int] != pat@[k as int]);
                }
                all_eq = false;
            }
            k = k + 1;
        }
        if all_eq {
            proof {
                assert(line@.subrange(off as int, off + m) =~= pat@);
                assert(spec_match_at(line@, pat@, off as int));
            }
            return true;
        }
        off = off + 1;
    }
    proof {
        if spec_contains_seq(line@, pat@) {
            let o = choose|o: int| spec_match_at(line@, pat@, o);
            assert(!spec_match_at(line@, pat@, o));
        }
    }
    false
}

/// Decide what a monitor line announces: `Some((device, true))` for an
/// up event, `Some((device, false))` for a down event, `None` for a line
/// that announces nothing usable.
pub fn parse_interface_event(line: &str) -> (r: Option<(String, bool)>)
    ensures
        match r {
            Some(ev) => spec_parse_event(line@) == Some((ev.0@, ev.1)),
            None => spec_parse_event(line@) is None,
        },
{
    if contains_pattern(line, "UP") {
        match extract_interface_name(line) {
            Some(d) => Some((d, true)),
            None => None,
        }
    } else if contains_pattern(line, "DOWN") {
        match extract_interface_name(line) {
            Some(d) => Some((d, false)),
            None => None,
        }
    } else {
        None
    }
}

} // verus!
