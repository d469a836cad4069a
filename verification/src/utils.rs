//! Console formatting helpers: byte counts, durations, and message
//! timestamps.
use vstd::prelude::*;

use crate::text::dec_digit;
use crate::text::dec_spec;
use crate::text::u128_to_dec;
use crate::text::u64_to_dec;

verus! {

/// The unit suffix for a scale step of 1024.
pub open spec fn byte_unit(i: nat) -> Seq<char> {
    if i == 0 {
        "B"@
    } else if i == 1 {
        "KB"@
    } else if i == 2 {
        "MB"@
    } else if i == 3 {
        "GB"@
    } else {
        "TB"@
    }
}

/// Which unit a byte count is shown in: the largest power of 1024 at or
/// under it, capped at terabytes.
pub open spec fn scale_index(b: nat) -> nat {
    if b < 1024 {
        0
    } else if b < 0x100000 {
        1
    } else if b < 0x40000000 {
        2
    } else if b < 0x10000000000 {
        3
    } else {
        4
    }
}

pub open spec fn pow1024(i: nat) -> nat
    decreases i,
{
    if i == 0 {
        1
    } else {
        1024 * pow1024((i - 1) as nat)
    }
}

/// A two-digit decimal fraction, left-padded with a zero.
pub open spec fn two_digit_frac(f: nat) -> Seq<char> {
    if f < 10 {
        seq!['0'].push(dec_digit(f))
    } else {
        dec_spec(f)
    }
}

/// A byte count in human-readable form: the scaled value with two decimal
/// places, rounded to nearest (half away from zero), and the unit.
pub open spec fn bytes_text(b: nat) -> Seq<char> {
    if b == 0 {
        "0 B"@
    } else {
        let i = scale_index(b);
        let d = pow1024(i);
        let x = (b * 100 + d / 2) / d;
        dec_spec(x / 100) + "."@ + two_digit_frac(x % 100) + " "@ + byte_unit(i)
    }
}

/// Format a byte count in human-readable form.
pub fn format_bytes(bytes: usize) -> (r: String)
    ensures
        r@ == bytes_text(bytes as nat),
{
    if bytes == 0 {
        return String::from_str("0 B");
    }
    let b: u128 = bytes as u128;
    let (i, d): (u32, u128) = if b < 1024 {
        (0, 1)
    } else if b < 0x100000 {
        (1, 1024)
    } else if b < 0x40000000 {
        (2, 0x100000)
    } else if b < 0x10000000000 {
        (3, 0x40000000)
    } else {
        (4, 0x10000000000)
    };
    proof {
        assert(pow1024(0) == 1);
        assert(pow1024(1) == 1024);
        assert(pow1024(2) == 0x100000);
        assert(pow1024(3) == 0x40000000);
        assert(pow1024(4) == 0x10000000000);
        assert(d == pow1024(scale_index(bytes as nat)));
    }
    let x: u128 = (b * 100 + d / 2) / d;
    let whole: u128 = x / 100;
    let frac: u128 = x % 100;
    let mut out = u128_to_dec(whole);
    out.append(".");
    if frac < 10 {
        out.append("0");
        let digit = u128_to_dec(frac);
        out.append(digit.as_str());
        proof {
            reveal_strlit("0");
            assert("0"@ =~= seq!['0']);
            assert(dec_spec(frac as nat) =~= seq![dec_digit(frac as nat)]);
            assert("0"@ + dec_spec(frac as nat) =~= two_digit_frac(frac as nat));
        }
    } else {
        let digit = u128_to_dec(frac);
        out.append(digit.as_str());
    }
    out.append(" ");
    match i {
        0 => out.append("B"),
        1 => out.append("KB"),
        2 => out.append("MB"),
        3 => out.append("GB"),
        _ => out.append("TB"),
    }
    proof {
        assert(out@ =~= bytes_text(bytes as nat));
    }
    out
}

/// A duration in human-readable form: seconds under a minute, then minutes
/// and seconds, then hours, minutes and seconds.
pub open spec fn duration_text(total_secs: u64) -> Seq<char> {
    if total_secs < 60 {
        dec_spec(total_secs as nat) + "s"@
    } else if total_secs < 3600 {
        dec_spec((total_secs / 60) as nat) + "m "@ + dec_spec((total_secs % 60) as nat) + "s"@
    } else {
        dec_spec((total_secs / 3600) as nat) + "h "@ + dec_spec(((total_secs / 60) % 60) as nat)
            + "m "@ + dec_spec((total_secs % 60) as nat) + "s"@
    }
}

/// Format a duration, given as whole seconds, in human-readable form.
pub fn format_duration(total_secs: u64) -> (r: String)
    ensures
        r@ == duration_text(total_secs),
{
    if total_secs < 60 {
        let mut out = u64_to_dec(total_secs);
        out.append("s");
        proof {
            assert(out@ =~= duration_text(total_secs));
        }
        return out;
    }
    let mins = total_secs / 60;
    let secs = total_secs % 60;
    if mins < 60 {
        let mut out = u64_to_dec(mins);
        out.append("m ");
        let t = u64_to_dec(secs);
        out.append(t.as_str());
        out.append("s");
        proof {
            assert(out@ =~= duration_text(total_secs));
        }
        return out;
    }
    let hours = mins / 60;
    let rem_mins = mins % 60;
    let mut out = u64_to_dec(hours);
    out.append("h ");
    let t = u64_to_dec(rem_mins);
    out.append(t.as_str());
    out.append("m ");
    let t = u64_to_dec(secs);
    out.append(t.as_str());
    out.append("s");
    proof {
        assert(total_secs / 3600 == hours) by (nonlinear_arith)
            requires
                hours == (total_secs / 60) / 60,
        ;
        assert(out@ =~= duration_text(total_secs));
    }
    out
}

/// Relies on chrono's `Local::now` and `format` with `%H:%M:%S`: whatever
/// the time is, the rendering is two digits, a colon, two digits, a colon
/// and two digits — eight characters.
#[verifier::external_body]
fn now_hms() -> (r: String)
    ensures
        r@.len() == 8,
{
    chrono::Local::now().format("%H:%M:%S").to_string()
}

/// Put a given timestamp in front of a message: `[<ts>] <msg>`.
pub fn stamp_message(ts: &str, msg: &str) -> (r: String)
    ensures
        r@ == seq!['['] + ts@ + seq![']', ' '] + msg@,
{
    let mut out = String::from_str("[");
    out.append(ts);
    out.append("] ");
    out.append(msg);
    proof {
        reveal_strlit("[");
        reveal_strlit("] ");
        assert(out@ =~= seq!['['] + ts@ + seq![']', ' '] + msg@);
    }
    out
}

/// Put the current local time in front of a message.  The timestamp varies
/// with the clock, so the contract pins the shape: an eight-character stamp
/// in brackets, a space, and the message unchanged.
pub fn add_timestamp(msg: &str) -> (r: String)
    ensures
        r@.len() == msg@.len() + 11,
        r@[0] == '[',
        r@[9] == ']',
        r@[10] == ' ',
        r@.skip(11) == msg@,
{
    let ts = now_hms();
    let r = stamp_message(ts.as_str(), msg);
    proof {
        assert(r@.skip(11) =~= msg@);
    }
    r
}

} // verus!
