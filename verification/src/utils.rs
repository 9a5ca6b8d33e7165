//! Small helpers: reading yes/no answers and the current time.
use crate::protocol::{duration_subsec_nanos, nanos_per_sec};
use std::time::{Duration, SystemTime};
use vstd::prelude::*;
use vstd::string::StrSliceExecFns;

verus! {

/// A point in time of the system clock.
#[verifier::external_type_specification]
#[verifier::external_body]
pub struct ExSystemTime(SystemTime);

/// `SystemTime::now`: the system clock's current time. Nothing is claimed
/// about its value.
#[verifier::external_body]
fn system_now() -> SystemTime {
    SystemTime::now()
}

/// `SystemTime::duration_since` the Unix epoch: the time elapsed since then,
/// or `None` when `t` lies before it. Of a returned duration only what holds
/// of every `Duration` is claimed: its sub-second part is under a second.
#[verifier::external_body]
fn since_unix_epoch(t: &SystemTime) -> (r: Option<Duration>)
    ensures
        r matches Some(d) ==> duration_subsec_nanos(d) < nanos_per_sec(),
{
    t.duration_since(std::time::UNIX_EPOCH).ok()
}

/// The time elapsed since the Unix epoch, or `None` when the system clock
/// stands before it. Which of the two, and the value, depend on the clock;
/// a returned duration's sub-second part is under a second.
pub fn current_time_millis() -> (r: Option<Duration>)
    ensures
        r matches Some(d) ==> duration_subsec_nanos(d) < nanos_per_sec(),
{
    let now = system_now();
    since_unix_epoch(&now)
}

/// The code of a character, with ASCII upper-case letters taken as their
/// lower-case ones.
pub open spec fn ascii_lower(c: char) -> u32 {
    if 'A' <= c && c <= 'Z' {
        (c as u32 + 32) as u32
    } else {
        c as u32
    }
}

/// Two texts are equal once ASCII letters are compared without regard to
/// case.
pub open spec fn spec_eq_ignore_ascii_case(a: Seq<char>, b: Seq<char>) -> bool {
    a.len() == b.len() && forall|i: int| 0 <= i < a.len() ==> ascii_lower(#[trigger] a[i]) == ascii_lower(b[i])
}

/// The code of a character, with ASCII upper-case letters taken as their
/// lower-case ones.
fn to_ascii_lower(c: char) -> (r: u32)
    ensures
        r == ascii_lower(c),
{
    if 'A' <= c && c <= 'Z' {
        c as u32 + 32
    } else {
        c as u32
    }
}

/// Whether two texts are equal once ASCII letters are compared without
/// regard to case.
pub fn eq_ignore_ascii_case(a: &str, b: &str) -> (r: bool)
    ensures
        r == spec_eq_ignore_ascii_case(a@, b@),
{
    let n = a.unicode_len();
    if n != b.unicode_len() {
        return false;
    }
    let mut i: usize = 0;
    while i < n
        invariant
            n == a@.len(),
            n == b@.len(),
            i <= n,
            forall|j: int| 0 <= j < i ==> ascii_lower(#[trigger] a@[j]) == ascii_lower(b@[j]),
        decreases n - i,
    {
        if to_ascii_lower(a.get_char(i)) != to_ascii_lower(b.get_char(i)) {
            return false;
        }
        i = i + 1;
    }
    true
}

/// The answer a text gives: "true" and "yes" mean yes, "false" and "no"
/// mean no, in any mix of cases; any other text is no answer.
pub open spec fn spec_parse_bool(s: Seq<char>) -> Option<bool> {
    if spec_eq_ignore_ascii_case(s, "true"@) || spec_eq_ignore_ascii_case(s, "yes"@) {
        Some(true)
    } else if spec_eq_ignore_ascii_case(s, "false"@) || spec_eq_ignore_ascii_case(s, "no"@) {
        Some(false)
    } else {
        None
    }
}

/// Reads a yes/no answer.
pub fn parse_bool(str: &str) -> (r: Option<bool>)
    ensures
        r == spec_parse_bool(str@),
{
    if eq_ignore_ascii_case(str, "true") || eq_ignore_ascii_case(str, "yes") {
        return Some(true);
    }
    if eq_ignore_ascii_case(str, "false") || eq_ignore_ascii_case(str, "no") {
        return Some(false);
    }
    None
}

/// Texts that differ only in the case of ASCII letters give the same
/// answer.
pub proof fn lemma_parse_bool_ignores_case(a: Seq<char>, b: Seq<char>)
    requires
        spec_eq_ignore_ascii_case(a, b),
    ensures
        spec_parse_bool(a) == spec_parse_bool(b),
{
    assert forall|t: Seq<char>| spec_eq_ignore_ascii_case(a, t) == spec_eq_ignore_ascii_case(b, t) by {
        if spec_eq_ignore_ascii_case(a, t) {
            assert forall|i: int| 0 <= i < b.len() implies ascii_lower(#[trigger] b[i]) == ascii_lower(t[i]) by {
                assert(ascii_lower(a[i]) == ascii_lower(b[i]));
            }
        }
        if spec_eq_ignore_ascii_case(b, t) {
            assert forall|i: int| 0 <= i < a.len() implies ascii_lower(#[trigger] a[i]) == ascii_lower(t[i]) by {
                assert(ascii_lower(a[i]) == ascii_lower(b[i]));
            }
        }
    }
}

/// Whether a character is a decimal digit.
pub open spec fn is_digit(c: char) -> bool {
    '0' <= c && c <= '9'
}

/// The number a string of decimal digits stands for.
pub open spec fn digits_value(s: Seq<char>) -> int
    decreases s.len(),
{
    if s.len() == 0 {
        0
    } else {
        digits_value(s.drop_last()) * 10 + (s.last() as int - '0' as int)
    }
}

/// A nonempty string of decimal digits.
pub open spec fn all_digits(s: Seq<char>) -> bool {
    s.len() > 0 && forall|i: int| 0 <= i < s.len() ==> is_digit(#[trigger] s[i])
}

/// What `str::parse` gives for an integer type whose values run from `min`
/// to `max`: an optional sign (a minus only for a `signed` type) followed by
/// at least one decimal digit and nothing else, standing for a value in the
/// type's range.
pub open spec fn spec_parse_int(s: Seq<char>, signed: bool, min: int, max: int) -> Option<int> {
    let neg = s.len() > 0 && s[0] == '-' && signed;
    let body = if s.len() > 0 && (s[0] == '+' || neg) {
        s.drop_first()
    } else {
        s
    };
    if !all_digits(body) {
        None
    } else {
        let v = if neg {
            -digits_value(body)
        } else {
            digits_value(body)
        };
        if min <= v <= max {
            Some(v)
        } else {
            None
        }
    }
}

/// A bound above every value the parser is asked for.
pub open spec fn parse_cap() -> int {
    0x4_0000_0000_0000_0000
}

/// Parses an integer as `str::parse` does for an integer type whose values
/// run from `min` to `max`.
pub fn parse_int(s: &str, signed: bool, min: i128, max: i128) -> (r: Option<i128>)
    requires
        -0x1_0000_0000_0000_0000 <= min <= 0 <= max <= 0x1_0000_0000_0000_0000,
    ensures
        r matches Some(v) ==> spec_parse_int(s@, signed, min as int, max as int) == Some(v as int),
        r is None ==> spec_parse_int(s@, signed, min as int, max as int) is None,
{
    let n = s.unicode_len();
    let mut start: usize = 0;
    let mut neg = false;
    if n > 0 {
        let c = s.get_char(0);
        if c == '+' {
            start = 1;
        } else if c == '-' && signed {
            start = 1;
            neg = true;
        }
    }
    let ghost body = s@.subrange(start as int, n as int);
    proof {
        assert(neg == (s@.len() > 0 && s@[0] == '-' && signed));
        assert(body =~= if s@.len() > 0 && (s@[0] == '+' || (s@[0] == '-' && signed)) {
            s@.drop_first()
        } else {
            s@
        });
    }
    if start >= n {
        return None;
    }
    let cap: u128 = 0x4_0000_0000_0000_0000;
    let mut acc: u128 = 0;
    let mut i: usize = start;
    proof {
        assert(body.take(0) =~= Seq::<char>::empty());
    }
    while i < n
        invariant
            n == s@.len(),
            start <= i <= n,
            body == s@.subrange(start as int, n as int),
            body == (if s@.len() > 0 && (s@[0] == '+' || (s@[0] == '-' && signed)) {
                s@.drop_first()
            } else {
                s@
            }),
            neg == (s@.len() > 0 && s@[0] == '-' && signed),
            cap == parse_cap(),
            forall|j: int| 0 <= j < i - start ==> is_digit(#[trigger] body[j]),
            acc == if digits_value(body.take(i - start)) < parse_cap() {
                digits_value(body.take(i - start))
            } else {
                parse_cap()
            },
            0 <= digits_value(body.take(i - start)),
        decreases n - i,
    {
        let c = s.get_char(i);
        if !('0' <= c && c <= '9') {
            proof {
                assert(body[i - start] == c);
                assert(!is_digit(body[i - start]));
            }
            return None;
        }
        let d = (c as u32 - '0' as u32) as u128;
        proof {
            let k = i - start;
            assert(body[k] == c);
            assert(body.take(k + 1).drop_last() =~= body.take(k));
            assert(body.take(k + 1).last() == c);
            assert(digits_value(body.take(k + 1)) == digits_value(body.take(k)) * 10 + d);
        }
        acc = if acc >= cap {
            cap
        } else {
            let next = acc * 10 + d;
            if next > cap {
                cap
            } else {
                next
            }
        };
        i = i + 1;
    }
    proof {
        assert(body.take(n - start) =~= body);
    }
    if acc >= cap {
        return None;
    }
    let v: i128 = if neg {
        -(acc as i128)
    } else {
        acc as i128
    };
    if min <= v && v <= max {
        Some(v)
    } else {
        None
    }
}

} // verus!
