use vstd::prelude::*;

verus! {

/// The character for one decimal digit.
pub open spec fn dec_digit(d: int) -> char {
    (('0' as u8) + d as u8) as char
}

/// The decimal writing of `n`, most significant digit first, with no
/// leading zeros (`0` writes as one digit).
pub open spec fn dec_digits(n: int) -> Seq<char>
    decreases n,
{
    if n < 10 {
        seq![dec_digit(n)]
    } else {
        dec_digits(n / 10).push(dec_digit(n % 10))
    }
}

/// The decimal writing of `n`, padded with one leading zero to at
/// least two digits, as clock displays write minutes and seconds.
pub open spec fn two_digits(n: int) -> Seq<char> {
    if n < 10 {
        seq!['0', dec_digit(n)]
    } else {
        dec_digits(n)
    }
}

/// Relies on String::push: appends exactly one character.
#[verifier::external_body]
fn push_char(s: &mut String, c: char)
    ensures
        final(s)@ == old(s)@.push(c),
{
    s.push(c);
}

/// Write `n` in decimal.
pub fn u64_to_string(n: u64) -> (r: String)
    ensures
        r@ == dec_digits(n as int),
    decreases n,
{
    if n < 10 {
        let mut s = String::new();
        push_char(&mut s, (('0' as u8) + (n as u8)) as char);
        proof {
            assert(s@ =~= seq![dec_digit(n as int)]);
        }
        s
    } else {
        let mut s = u64_to_string(n / 10);
        push_char(&mut s, (('0' as u8) + ((n % 10) as u8)) as char);
        s
    }
}

/// Write `n` with at least two digits, zero-padded.
fn u64_two_digits(n: u64) -> (r: String)
    ensures
        r@ == two_digits(n as int),
{
    if n < 10 {
        let mut s = String::new();
        push_char(&mut s, '0');
        push_char(&mut s, (('0' as u8) + (n as u8)) as char);
        proof {
            assert(s@ =~= seq!['0', dec_digit(n as int)]);
        }
        s
    } else {
        u64_to_string(n)
    }
}

/// Hours on the clock readout.
pub open spec fn clock_hours(secs: int) -> int {
    (secs / 3600) % 60
}

pub open spec fn clock_minutes(secs: int) -> int {
    (secs / 60) % 60
}

pub open spec fn clock_seconds(secs: int) -> int {
    secs % 60
}

/// One clock readout: `H:MM:SS` with hours, `MM:SS` without.
pub open spec fn clock_text(secs: int, with_hours: bool) -> Seq<char> {
    if with_hours {
        dec_digits(clock_hours(secs)) + seq![':'] + two_digits(clock_minutes(secs)) + seq![':']
            + two_digits(clock_seconds(secs))
    } else {
        two_digits(clock_minutes(secs)) + seq![':'] + two_digits(clock_seconds(secs))
    }
}

/// The elapsed / total time line: hours appear on both readouts as
/// soon as either side has any.
pub open spec fn time_display(elapsed: int, total: int) -> Seq<char> {
    let hours = clock_hours(elapsed) > 0 || clock_hours(total) > 0;
    clock_text(elapsed, hours) + seq![' ', '/', ' '] + clock_text(total, hours)
}

/// One clock readout.
fn clock_readout(secs: u64, with_hours: bool) -> (r: String)
    ensures
        r@ == clock_text(secs as int, with_hours),
{
    let mins = u64_two_digits((secs / 60) % 60);
    let ss = u64_two_digits(secs % 60);
    if with_hours {
        let mut s = u64_to_string((secs / 3600) % 60);
        push_char(&mut s, ':');
        s.append(mins.as_str());
        push_char(&mut s, ':');
        s.append(ss.as_str());
        proof {
            assert(s@ =~= clock_text(secs as int, true));
        }
        s
    } else {
        let mut s = mins;
        push_char(&mut s, ':');
        s.append(ss.as_str());
        proof {
            assert(s@ =~= clock_text(secs as int, false));
        }
        s
    }
}

/// The elapsed / total line of the interface, from whole seconds.
pub fn format_time(elapsed: u64, total: u64) -> (r: String)
    ensures
        r@ == time_display(elapsed as int, total as int),
{
    let with_hours = (elapsed / 3600) % 60 > 0 || (total / 3600) % 60 > 0;
    let mut s = clock_readout(elapsed, with_hours);
    push_char(&mut s, ' ');
    push_char(&mut s, '/');
    push_char(&mut s, ' ');
    let t = clock_readout(total, with_hours);
    s.append(t.as_str());
    proof {
        assert(s@ =~= time_display(elapsed as int, total as int));
    }
    s
}

} // verus!
