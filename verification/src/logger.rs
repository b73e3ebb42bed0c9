//! Verified builders of the diagnostic texts the program logs: the
//! timestamp and the probe and editor messages.  Reading the clock and
//! handing the finished line to a logging backend are the caller's job.

use vstd::prelude::*;

verus! {

/// The character of one decimal digit.
pub open spec fn digit_char(d: int) -> char {
    if d == 0 {
        '0'
    } else if d == 1 {
        '1'
    } else if d == 2 {
        '2'
    } else if d == 3 {
        '3'
    } else if d == 4 {
        '4'
    } else if d == 5 {
        '5'
    } else if d == 6 {
        '6'
    } else if d == 7 {
        '7'
    } else if d == 8 {
        '8'
    } else {
        '9'
    }
}

/// The decimal digits of a number, most significant first, no leading zero.
pub open spec fn dec_digits(n: nat) -> Seq<char>
    decreases n,
{
    if n < 10 {
        seq![digit_char(n as int)]
    } else {
        dec_digits(n / 10) + seq![digit_char((n % 10) as int)]
    }
}

/// A value below one hundred, zero-padded to two digits.
pub open spec fn two_digits(n: int) -> Seq<char> {
    seq![digit_char(n / 10), digit_char(n % 10)]
}

/// A value below one thousand, zero-padded to three digits.
pub open spec fn three_digits(n: int) -> Seq<char> {
    seq![digit_char(n / 100), digit_char((n / 10) % 10), digit_char(n % 10)]
}

/// One decimal digit as a string slice.
fn digit_str(d: u64) -> (r: &'static str)
    requires
        d < 10,
    ensures
        r@ == seq![digit_char(d as int)],
{
    let r = if d == 0 {
        "0"
    } else if d == 1 {
        "1"
    } else if d == 2 {
        "2"
    } else if d == 3 {
        "3"
    } else if d == 4 {
        "4"
    } else if d == 5 {
        "5"
    } else if d == 6 {
        "6"
    } else if d == 7 {
        "7"
    } else if d == 8 {
        "8"
    } else {
        "9"
    };
    proof {
        reveal_strlit("0");
        reveal_strlit("1");
        reveal_strlit("2");
        reveal_strlit("3");
        reveal_strlit("4");
        reveal_strlit("5");
        reveal_strlit("6");
        reveal_strlit("7");
        reveal_strlit("8");
        reveal_strlit("9");
        assert(r@ =~= seq![digit_char(d as int)]);
    }
    r
}

/// The decimal text of a number.
pub fn u128_to_string(n: u128) -> (r: String)
    ensures
        r@ == dec_digits(n as nat),
    decreases n,
{
    if n < 10 {
        String::from_str(digit_str(n as u64))
    } else {
        let mut s = u128_to_string(n / 10);
        s.append(digit_str((n % 10) as u64));
        proof {
            assert(s@ =~= dec_digits(n as nat));
        }
        s
    }
}

/// A value below one hundred as two zero-padded digits.
fn two_digits_string(n: u64) -> (r: String)
    requires
        n < 100,
    ensures
        r@ == two_digits(n as int),
{
    let mut s = String::from_str(digit_str(n / 10));
    s.append(digit_str(n % 10));
    proof {
        assert(s@ =~= two_digits(n as int));
    }
    s
}

/// A value below one thousand as three zero-padded digits.
fn three_digits_string(n: u64) -> (r: String)
    requires
        n < 1000,
    ensures
        r@ == three_digits(n as int),
{
    let mut s = String::from_str(digit_str(n / 100));
    s.append(digit_str((n / 10) % 10));
    s.append(digit_str(n % 10));
    proof {
        assert(s@ =~= three_digits(n as int));
    }
    s
}

/// A moment of the day written as hours, minutes, seconds and milliseconds,
/// each part zero-padded, in universal time.
pub open spec fn time_text(total_secs: int, millis: int) -> Seq<char> {
    let secs_today = total_secs % 86400;
    two_digits(secs_today / 3600) + ":"@ + two_digits((secs_today % 3600) / 60) + ":"@
        + two_digits(secs_today % 60) + "."@ + three_digits(millis)
}

/// Renders a moment, given seconds since the epoch and the millisecond
/// part; the caller reads the clock.
pub fn chrono_time(total_secs: u64, millis: u32) -> (r: String)
    requires
        millis < 1000,
    ensures
        r@ == time_text(total_secs as int, millis as int),
{
    let secs_today = total_secs % 86400;
    let hours = secs_today / 3600;
    let minutes = (secs_today % 3600) / 60;
    let seconds = secs_today % 60;
    let mut s = two_digits_string(hours);
    s.append(":");
    let m = two_digits_string(minutes);
    s.append(m.as_str());
    s.append(":");
    let sec = two_digits_string(seconds);
    s.append(sec.as_str());
    s.append(".");
    let ms = three_digits_string(millis as u64);
    s.append(ms.as_str());
    proof {
        assert(s@ =~= time_text(total_secs as int, millis as int));
    }
    s
}

/// The log line for one probe: the target, how long it took, and how it
/// ended.
pub open spec fn connection_metrics_text(
    target: Seq<char>,
    duration_ms: nat,
    success: bool,
) -> Seq<char> {
    if success {
        "Connection to "@ + target + " completed in "@ + dec_digits(duration_ms) + " ms ✓"@
    } else {
        "Connection to "@ + target + " failed or timed out (took "@ + dec_digits(duration_ms)
            + " ms)"@
    }
}

/// Renders the log line for one probe.
pub fn log_connection_metrics(target: &str, duration_ms: u128, success: bool) -> (r: String)
    ensures
        r@ == connection_metrics_text(target@, duration_ms as nat, success),
{
    let mut s = String::from_str("Connection to ");
    s.append(target);
    if success {
        s.append(" completed in ");
    } else {
        s.append(" failed or timed out (took ");
    }
    let d = u128_to_string(duration_ms);
    s.append(d.as_str());
    if success {
        s.append(" ms ✓");
    } else {
        s.append(" ms)");
    }
    proof {
        assert(s@ =~= connection_metrics_text(target@, duration_ms as nat, success));
    }
    s
}

/// The log line for one editor operation: its name, how long it took, and
/// how it ended.
pub open spec fn hosts_operation_text(
    operation: Seq<char>,
    duration_ms: nat,
    success: bool,
) -> Seq<char> {
    if success {
        "Hosts "@ + operation + " operation completed in "@ + dec_digits(duration_ms) + " ms ✓"@
    } else {
        "Hosts "@ + operation + " operation failed (took "@ + dec_digits(duration_ms) + " ms)"@
    }
}

/// Renders the log line for one editor operation.
pub fn log_hosts_operation(operation: &str, duration_ms: u128, success: bool) -> (r: String)
    ensures
        r@ == hosts_operation_text(operation@, duration_ms as nat, success),
{
    let mut s = String::from_str("Hosts ");
    s.append(operation);
    if success {
        s.append(" operation completed in ");
    } else {
        s.append(" operation failed (took ");
    }
    let d = u128_to_string(duration_ms);
    s.append(d.as_str());
    if success {
        s.append(" ms ✓");
    } else {
        s.append(" ms)");
    }
    proof {
        assert(s@ =~= hosts_operation_text(operation@, duration_ms as nat, success));
    }
    s
}

} // verus!
