//! Daemon bookkeeping that is plain logic: the PID-file path and the
//! reading of a PID file's content.
//!
//! Forking, signal handling and the file accesses themselves live in the
//! surrounding program; what it reads out of the PID file is decided here.

use vstd::prelude::*;

use vstd::string::StrSliceExecFns;

verus! {

/// Knows where the daemon's PID file lives.
pub struct DaemonManager {
    pub pid_file: String,
}

impl DaemonManager {
    /// A manager for the given PID-file path.
    pub fn new(pid_file: String) -> (r: DaemonManager)
        ensures
            r.pid_file == pid_file,
    {
        DaemonManager { pid_file }
    }

    /// The PID-file path.
    pub fn pid_file_path(&self) -> (r: &String)
        ensures
            r == self.pid_file,
    {
        &self.pid_file
    }
}

/// The whitespace stripped around a PID file's content.
pub open spec fn spec_is_pid_ws(c: char) -> bool {
    c == ' ' || c == '\t' || c == '\n' || c == '\r'
}

/// First non-whitespace index at or after `i`.
pub open spec fn spec_ws_start(s: Seq<char>, i: int) -> int
    decreases s.len() - i,
{
    if i < 0 || i >= s.len() || !spec_is_pid_ws(s[i]) {
        i
    } else {
        spec_ws_start(s, i + 1)
    }
}

/// End of the content once trailing whitespace is stripped, but never
/// before `start`.
pub open spec fn spec_ws_end(s: Seq<char>, end: int, start: int) -> int
    decreases end - start,
{
    if end <= start || !spec_is_pid_ws(s[end - 1]) {
        end
    } else {
        spec_ws_end(s, end - 1, start)
    }
}

/// A decimal digit.
pub open spec fn spec_is_digit(c: char) -> bool {
    48 <= c as u32 <= 57
}

/// Every character is a decimal digit.
pub open spec fn spec_all_digits(s: Seq<char>) -> bool {
    forall|i: int| 0 <= i < s.len() ==> spec_is_digit(#[trigger] s[i])
}

/// The number the digit string denotes.
pub open spec fn spec_digits_value(s: Seq<char>) -> int
    decreases s.len(),
{
    if s.len() == 0 {
        0
    } else {
        spec_digits_value(s.drop_last()) * 10 + (s.last() as u32 - 48)
    }
}

/// What a PID file's content denotes: its text with surrounding whitespace
/// stripped, read as a decimal number — provided it is non-empty, all
/// digits, and fits a `u32`.
pub open spec fn spec_parse_pid(s: Seq<char>) -> Option<u32> {
    let a = spec_ws_start(s, 0);
    let b = spec_ws_end(s, s.len() as int, a);
    let t = s.subrange(a, b);
    if t.len() > 0 && spec_all_digits(t) && spec_digits_value(t) <= u32::MAX {
        Some(spec_digits_value(t) as u32)
    } else {
        None
    }
}

/// A digit string's value never shrinks as digits are appended.
proof fn lemma_digits_value_grows(s: Seq<char>, i: int)
    requires
        0 <= i <= s.len(),
        spec_all_digits(s),
    ensures
        spec_digits_value(s) >= spec_digits_value(s.take(i)),
        spec_digits_value(s) >= 0,
    decreases s.len() - i,
{
    if i == s.len() {
        assert(s.take(i) =~= s);
        lemma_digits_value_nonneg(s);
    } else {
        assert(s.take(i + 1).drop_last() =~= s.take(i));
        assert(s.take(i + 1).last() == s[i]);
        lemma_digits_value_nonneg(s.take(i));
        lemma_digits_value_grows(s, i + 1);
    }
}

/// A digit string's value is never negative.
proof fn lemma_digits_value_nonneg(s: Seq<char>)
    requires
        spec_all_digits(s),
    ensures
        spec_digits_value(s) >= 0,
    decreases s.len(),
{
    if s.len() > 0 {
        assert(spec_all_digits(s.drop_last())) by {
            assert(forall|i: int|
                0 <= i < s.len() - 1 ==> spec_is_digit(#[trigger] s.drop_last()[i]));
        }
        lemma_digits_value_nonneg(s.drop_last());
    }
}

/// First non-whitespace index at or after `i`.
fn pid_ws_start(content: &str, i: usize) -> (r: usize)
    requires
        i <= content@.len(),
    ensures
        r == spec_ws_start(content@, i as int),
        i <= r <= content@.len(),
{
    let n = content.unicode_len();
    let mut j = i;
    while j < n
        invariant
            i <= j <= n,
            n == content@.len(),
            spec_ws_start(content@, i as int) == spec_ws_start(content@, j as int),
        decreases n - j,
    {
        let c = content.get_char(j);
        if !(c == ' ' || c == '\t' || c == '\n' || c == '\r') {
            return j;
        }
        j = j + 1;
    }
    j
}

/// End of the content once trailing whitespace is stripped.
fn pid_ws_end(content: &str, end: usize, start: usize) -> (r: usize)
    requires
        start <= end <= content@.len(),
    ensures
        r == spec_ws_end(content@, end as int, start as int),
        start <= r <= end,
{
    let mut e = end;
    while e > start
        invariant
            start <= e <= end <= content@.len(),
            spec_ws_end(content@, end as int, start as int) == spec_ws_end(
                content@,
                e as int,
                start as int,
            ),
        decreases e,
    {
        let c = content.get_char(e - 1);
        if !(c == ' ' || c == '\t' || c == '\n' || c == '\r') {
            return e;
        }
        e = e - 1;
    }
    e
}

/// Read a PID out of a PID file's content: the content with surrounding
/// whitespace stripped, as a decimal number.  `None` when the stripped text
/// is empty, holds a non-digit, or exceeds `u32`.
pub fn parse_pid(content: &str) -> (r: Option<u32>)
    ensures
        r == spec_parse_pid(content@),
{
    let n = content.unicode_len();
    let a = pid_ws_start(content, 0);
    let b = pid_ws_end(content, n, a);
    let ghost t = content@.subrange(a as int, b as int);
    if a == b {
        return None;
    }
    // read the digits
    let mut acc: u64 = 0;
    let mut i: usize = 0;
    while i < b - a
        invariant
            a < b <= n,
            n == content@.len(),
            a == spec_ws_start(content@, 0),
            b == spec_ws_end(content@, n as int, a as int),
            i <= b - a,
            t == content@.subrange(a as int, b as int),
            spec_all_digits(t.take(i as int)),
            acc == spec_digits_value(t.take(i as int)),
            acc <= u32::MAX,
        decreases b - a - i,
    {
        let c = content.get_char(a + i);
        if !(c >= '0' && c <= '9') {
            proof {
                assert(t[i as int] == c);
                assert(!spec_is_digit(t[i as int]));
                assert(!spec_all_digits(t));
            }
            return None;
        }
        let d: u64 = (c as u32 as u64) - 48;
        proof {
            assert(t.take(i + 1).drop_last() =~= t.take(i as int));
            assert(t.take(i + 1).last() == t[i as int]);
            assert(t[i as int] == c);
        }
        let next: u64 = acc * 10 + d;
        if next > 0xFFFF_FFFF {
            proof {
                assert(spec_digits_value(t.take(i + 1)) == next);
                if spec_all_digits(t) {
                    lemma_digits_value_grows(t, i + 1);
                    assert(spec_digits_value(t) > u32::MAX);
                }
            }
            return None;
        }
        acc = next;
        i = i + 1;
    }
    proof {
        assert(t.take((b - a) as int) =~= t);
    }
    Some(acc as u32)
}

} // verus!
