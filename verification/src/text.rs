//! Decimal and clock-style rendering used by the labels.

use vstd::prelude::*;

verus! {

/// The ASCII digit for `d` (values of 9 and above read as '9').
pub open spec fn digit_char(d: nat) -> char {
    if d == 0 { '0' }
    else if d == 1 { '1' }
    else if d == 2 { '2' }
    else if d == 3 { '3' }
    else if d == 4 { '4' }
    else if d == 5 { '5' }
    else if d == 6 { '6' }
    else if d == 7 { '7' }
    else if d == 8 { '8' }
    else { '9' }
}

/// Base-10 rendering of a natural number, most significant digit first,
/// without leading zeros (zero renders as "0").
pub open spec fn decimal(n: nat) -> Seq<char>
    decreases n,
{
    if n < 10 {
        seq![digit_char(n)]
    } else {
        decimal(n / 10).push(digit_char(n % 10))
    }
}

/// Base-10 rendering of an integer, with a leading '-' for negatives.
pub open spec fn signed_decimal(i: int) -> Seq<char> {
    if i < 0 {
        seq!['-'] + decimal((-i) as nat)
    } else {
        decimal(i as nat)
    }
}

/// Zero-padded to at least two digits, as `{:02}` renders a number.
pub open spec fn pad2(n: nat) -> Seq<char> {
    if n < 10 {
        seq!['0'] + decimal(n)
    } else {
        decimal(n)
    }
}

/// Rust's `/` on integers: the quotient rounded toward zero.
pub open spec fn trunc_div(a: int, b: int) -> int {
    if a >= 0 {
        a / b
    } else {
        -((-a) / b)
    }
}

fn digit_str(d: u64) -> (s: &'static str)
    requires
        d < 10,
    ensures
        s@ == seq![digit_char(d as nat)],
{
    if d == 0 {
        proof { reveal_strlit("0"); }
        "0"
    } else if d == 1 {
        proof { reveal_strlit("1"); }
        "1"
    } else if d == 2 {
        proof { reveal_strlit("2"); }
        "2"
    } else if d == 3 {
        proof { reveal_strlit("3"); }
        "3"
    } else if d == 4 {
        proof { reveal_strlit("4"); }
        "4"
    } else if d == 5 {
        proof { reveal_strlit("5"); }
        "5"
    } else if d == 6 {
        proof { reveal_strlit("6"); }
        "6"
    } else if d == 7 {
        proof { reveal_strlit("7"); }
        "7"
    } else if d == 8 {
        proof { reveal_strlit("8"); }
        "8"
    } else {
        proof { reveal_strlit("9"); }
        "9"
    }
}

/// Append the decimal rendering of `n` to `s`.
pub fn push_decimal(s: &mut String, n: u64)
    ensures
        final(s)@ == old(s)@ + decimal(n as nat),
    decreases n,
{
    if n >= 10 {
        push_decimal(s, n / 10);
    }
    s.append(digit_str(n % 10));
    assert(s@ =~= old(s)@ + decimal(n as nat));
}

/// Append the decimal rendering of a signed `i` to `s`.
pub fn push_signed(s: &mut String, i: i64)
    ensures
        final(s)@ == old(s)@ + signed_decimal(i as int),
{
    if i < 0 {
        proof { reveal_strlit("-"); }
        s.append("-");
        let mag: u64 = (0i128 - (i as i128)) as u64;
        push_decimal(s, mag);
        assert(s@ =~= old(s)@ + signed_decimal(i as int));
    } else {
        push_decimal(s, i as u64);
    }
}

/// Append `n` zero-padded to two digits, as `{:02}` does.
pub fn push_pad2(s: &mut String, n: u32)
    ensures
        final(s)@ == old(s)@ + pad2(n as nat),
{
    if n < 10 {
        proof { reveal_strlit("0"); }
        s.append("0");
        push_decimal(s, n as u64);
        assert(s@ =~= old(s)@ + pad2(n as nat));
    } else {
        push_decimal(s, n as u64);
    }
}

/// The suffix every tracked hub name carries.
pub open spec fn hub_suffix() -> Seq<char> {
    seq!['.', 'H', 'U', 'B']
}

/// `s` with every trailing ".HUB" removed, as `trim_end_matches(".HUB")` does.
pub open spec fn strip_hub_suffix(s: Seq<char>) -> Seq<char>
    decreases s.len(),
{
    if s.len() >= 4 && s.subrange(s.len() - 4, s.len() as int) =~= hub_suffix() {
        strip_hub_suffix(s.subrange(0, s.len() - 4))
    } else {
        s
    }
}

/// Hub name for display: the ".HUB" suffix dropped.
pub fn pretty(hub: &str) -> (r: String)
    ensures
        r@ == strip_hub_suffix(hub@),
{
    let mut n = hub.unicode_len();
    assert(hub@.subrange(0, n as int) =~= hub@);
    while n >= 4 && hub.get_char(n - 4) == '.' && hub.get_char(n - 3) == 'H'
        && hub.get_char(n - 2) == 'U' && hub.get_char(n - 1) == 'B'
        invariant
            n <= hub@.len(),
            strip_hub_suffix(hub@.subrange(0, n as int)) == strip_hub_suffix(hub@),
        decreases n,
    {
        let ghost pre = hub@.subrange(0, n as int);
        assert(pre.subrange(pre.len() - 4, pre.len() as int) =~= hub_suffix());
        assert(pre.subrange(0, pre.len() - 4) =~= hub@.subrange(0, n - 4));
        n = n - 4;
    }
    let ghost fin = hub@.subrange(0, n as int);
    assert(fin.len() >= 4 ==> !(fin.subrange(fin.len() - 4, fin.len() as int) =~= hub_suffix())) by {
        if fin.len() >= 4 {
            assert(fin.subrange(fin.len() - 4, fin.len() as int)[0] == hub@[n - 4]);
            assert(fin.subrange(fin.len() - 4, fin.len() as int)[1] == hub@[n - 3]);
            assert(fin.subrange(fin.len() - 4, fin.len() as int)[2] == hub@[n - 2]);
            assert(fin.subrange(fin.len() - 4, fin.len() as int)[3] == hub@[n - 1]);
        }
    }
    String::from_str(hub.substring_char(0, n))
}

/// A local wall-clock reading, as the viewer's time zone reports it.
pub struct LocalTime {
    /// Zero-based month (January is 0).
    pub month0: u32,
    /// Day of the month.
    pub day: u32,
    pub hours: u32,
    pub minutes: u32,
    pub seconds: u32,
}

/// "HH:MM:SS".
pub open spec fn clock_text(t: LocalTime) -> Seq<char> {
    pad2(t.hours as nat) + seq![':'] + pad2(t.minutes as nat) + seq![':'] + pad2(t.seconds as nat)
}

/// "HH:MM".
pub open spec fn hour_minute_text(t: LocalTime) -> Seq<char> {
    pad2(t.hours as nat) + seq![':'] + pad2(t.minutes as nat)
}

/// "M/D HH:MM" with a one-based month.
pub open spec fn date_time_text(t: LocalTime) -> Seq<char> {
    decimal((t.month0 + 1) as nat) + seq!['/'] + decimal(t.day as nat) + seq![' ']
        + hour_minute_text(t)
}

/// Status-line clock: "HH:MM:SS".
pub fn clock_label(t: &LocalTime) -> (r: String)
    ensures
        r@ == clock_text(*t),
{
    proof { reveal_strlit(":"); }
    let mut s = String::new();
    push_pad2(&mut s, t.hours);
    s.append(":");
    push_pad2(&mut s, t.minutes);
    s.append(":");
    push_pad2(&mut s, t.seconds);
    assert(s@ =~= clock_text(*t));
    s
}

fn push_hour_minute(s: &mut String, t: &LocalTime)
    ensures
        final(s)@ == old(s)@ + hour_minute_text(*t),
{
    proof { reveal_strlit(":"); }
    push_pad2(s, t.hours);
    s.append(":");
    push_pad2(s, t.minutes);
    assert(s@ =~= old(s)@ + hour_minute_text(*t));
}

/// An instant with its date: "M/D HH:MM".
pub fn stamp_label(t: &LocalTime) -> (r: String)
    requires
        t.month0 < u32::MAX,
    ensures
        r@ == date_time_text(*t),
{
    proof {
        reveal_strlit("/");
        reveal_strlit(" ");
    }
    let mut s = String::new();
    push_decimal(&mut s, (t.month0 + 1) as u64);
    s.append("/");
    push_decimal(&mut s, t.day as u64);
    s.append(" ");
    push_hour_minute(&mut s, t);
    assert(s@ =~= date_time_text(*t));
    s
}

/// Time-axis label: "M/D HH:MM" where the calendar day changes, else "HH:MM".
pub fn axis_label(t: &LocalTime, with_date: bool) -> (r: String)
    requires
        t.month0 < u32::MAX,
    ensures
        r@ == if with_date { date_time_text(*t) } else { hour_minute_text(*t) },
{
    if with_date {
        stamp_label(t)
    } else {
        let mut s = String::new();
        push_hour_minute(&mut s, t);
        assert(s@ =~= hour_minute_text(*t));
        s
    }
}

/// "{n} live samples · updated {clock}".
pub open spec fn live_status_text(n: nat, clock: Seq<char>) -> Seq<char> {
    decimal(n) + " live samples · updated "@ + clock
}

/// Status line after a successful poll.
pub fn live_status(n: usize, clock: &str) -> (r: String)
    ensures
        r@ == live_status_text(n as nat, clock@),
{
    let mut s = String::new();
    push_decimal(&mut s, n as u64);
    s.append(" live samples · updated ");
    s.append(clock);
    assert(s@ =~= live_status_text(n as nat, clock@));
    s
}

/// "archive: {hours} h settled through {through}".
pub open spec fn archive_status_text(hours: nat, through: Seq<char>) -> Seq<char> {
    "archive: "@ + decimal(hours) + " h settled through "@ + through
}

/// Status line once the settled archive has loaded.
pub fn archive_status(hours: usize, through: &str) -> (r: String)
    ensures
        r@ == archive_status_text(hours as nat, through@),
{
    let mut s = String::from_str("archive: ");
    push_decimal(&mut s, hours as u64);
    s.append(" h settled through ");
    s.append(through);
    s
}

/// "archive unavailable ({reason})".
pub open spec fn archive_unavailable_text(reason: Seq<char>) -> Seq<char> {
    "archive unavailable ("@ + reason + ")"@
}

/// Status line when the settled archive could not be loaded.
pub fn archive_unavailable(reason: &str) -> (r: String)
    ensures
        r@ == archive_unavailable_text(reason@),
{
    let mut s = String::from_str("archive unavailable (");
    s.append(reason);
    s.append(")");
    s
}

} // verus!
