//! Conversion between timestamps and their decimal-string form.
//!
//! The engine itself stores timestamps as opaque strings; a system time
//! enters only at the edge, where it is reduced to its whole-second count
//! since the Unix epoch by a trusted call and everything after that count
//! is verified.
use vstd::prelude::*;
use vstd::string::StrSliceExecFns;
use vstd::string::StringExecFns;

verus! {

/// Declares std::time::SystemTime so its values can pass through
/// signatures; they stay opaque here.
#[verifier::external_type_specification]
#[verifier::external_body]
pub struct ExSystemTime(std::time::SystemTime);

/// Relies on SystemTime::duration_since and Duration::as_secs: the whole
/// seconds since the Unix epoch, or None for a time before the epoch.
/// The value inside a SystemTime is opaque, so nothing is stated of the
/// result.
#[verifier::external_body]
pub(crate) fn unix_seconds_of(time: &std::time::SystemTime) -> (r: Option<u64>) {
    match time.duration_since(std::time::UNIX_EPOCH) {
        Ok(d) => Some(d.as_secs()),
        Err(_) => None,
    }
}

/// Relies on SystemTime::checked_add at the Unix epoch: the time that many
/// whole seconds after the epoch, or None where the platform cannot
/// represent it.  The result is opaque, so nothing is stated of it.
#[verifier::external_body]
pub(crate) fn system_time_from_unix_seconds(secs: u64) -> (r: Option<std::time::SystemTime>) {
    std::time::UNIX_EPOCH.checked_add(std::time::Duration::new(secs, 0))
}

/// The decimal digit character for `d`.
pub open spec fn dec_digit_char(d: nat) -> char {
    if d == 0 {
        '0'
    } else if d == 1 {
        '1'
    } else if d == 2 {
        '2'
    } else if d == 3 {
        '3'
    } else if d == 4 {
        '4'
    } else if d == 5 {
        '5'
    } else if d == 6 {
        '6'
    } else if d == 7 {
        '7'
    } else if d == 8 {
        '8'
    } else {
        '9'
    }
}

/// The decimal form of `n`, most significant digit first, no sign and no
/// leading zero except for zero itself.
pub open spec fn dec_str(n: nat) -> Seq<char>
    decreases n,
    via dec_str_decreases
{
    if n < 10 {
        seq![dec_digit_char(n)]
    } else {
        dec_str(n / 10).push(dec_digit_char(n % 10))
    }
}

#[via_fn]
proof fn dec_str_decreases(n: nat) {
    assert(n >= 10 ==> n / 10 < n) by (nonlinear_arith);
}

fn dec_digit_literal(d: u64) -> (r: &'static str)
    requires
        d < 10,
    ensures
        r@ == seq![dec_digit_char(d as nat)],
{
    proof {
        reveal_strlit("0");
        reveal_strlit("1");
        reveal_strlit("2");
        reveal_strlit("3");
        reveal_strlit("4");
        reveal_strlit("5");
        reveal_strlit("6");
        reveal_strlit("7");
        reveal_strlit("8");
        reveal_strlit("9");
    }
    let r = if d == 0 {
        "0"
    } else if d == 1 {
        "1"
    } else if d == 2 {
        "2"
    } else if d == 3 {
        "3"
    } else if d == 4 {
        "4"
    } else if d == 5 {
        "5"
    } else if d == 6 {
        "6"
    } else if d == 7 {
        "7"
    } else if d == 8 {
        "8"
    } else {
        "9"
    };
    assert(r@ =~= seq![dec_digit_char(d as nat)]);
    r
}

fn push_dec(n: u64, s: &mut String)
    ensures
        final(s)@ == old(s)@ + dec_str(n as nat),
    decreases n,
{
    if n >= 10 {
        proof {
            assert(n / 10 < n) by (nonlinear_arith)
                requires
                    n >= 10,
            ;
        }
        push_dec(n / 10, s);
    }
    s.append(dec_digit_literal(n % 10));
    assert(s@ =~= old(s)@ + dec_str(n as nat));
}

/// The decimal string of `n`.
pub fn u64_to_dec_string(n: u64) -> (r: String)
    ensures
        r@ == dec_str(n as nat),
{
    let mut s = String::new();
    push_dec(n, &mut s);
    assert(s@ =~= dec_str(n as nat));
    s
}

/// Whether `c` is a decimal digit.
pub open spec fn is_dec_digit(c: char) -> bool {
    48 <= c as u32 <= 57
}

/// The value of the digit `c`.
pub open spec fn digit_val(c: char) -> nat {
    (c as u32 - 48) as nat
}

pub open spec fn all_dec_digits(s: Seq<char>) -> bool {
    forall|i: int| 0 <= i < s.len() ==> is_dec_digit(#[trigger] s[i])
}

/// The value of a digit string, most significant digit first.
pub open spec fn dec_val(s: Seq<char>) -> nat
    decreases s.len(),
{
    if s.len() == 0 {
        0
    } else {
        dec_val(s.drop_last()) * 10 + digit_val(s.last())
    }
}

/// The digit part of an integer literal: everything after one optional
/// leading plus sign.
pub open spec fn dec_body(s: Seq<char>) -> Seq<char> {
    if s.len() > 0 && s[0] == '+' {
        s.skip(1)
    } else {
        s
    }
}

/// What u64 parsing accepts: an optional plus sign, then at least one
/// digit, with a value that fits in a u64.
pub open spec fn is_valid_u64_str(s: Seq<char>) -> bool {
    &&& dec_body(s).len() > 0
    &&& all_dec_digits(dec_body(s))
    &&& dec_val(dec_body(s)) <= u64::MAX
}

proof fn lemma_dec_val_take_step(d: Seq<char>, j: int)
    requires
        0 <= j < d.len(),
    ensures
        dec_val(d.take(j + 1)) == dec_val(d.take(j)) * 10 + digit_val(d[j]),
{
    assert(d.take(j + 1).drop_last() =~= d.take(j));
    assert(d.take(j + 1).last() == d[j]);
}

proof fn lemma_dec_val_take_monotonic(d: Seq<char>, j: int, k: int)
    requires
        0 <= j <= k <= d.len(),
    ensures
        dec_val(d.take(j)) <= dec_val(d.take(k)),
    decreases k - j,
{
    if j < k {
        lemma_dec_val_take_step(d, k - 1);
        lemma_dec_val_take_monotonic(d, j, k - 1);
    }
}

proof fn lemma_dec_digit_props(d: nat)
    requires
        d < 10,
    ensures
        is_dec_digit(dec_digit_char(d)),
        digit_val(dec_digit_char(d)) == d,
        dec_digit_char(d) != '+',
{
}

proof fn lemma_dec_str_digits(n: nat)
    ensures
        all_dec_digits(dec_str(n)),
        dec_str(n).len() > 0,
        dec_str(n)[0] != '+',
    decreases n,
{
    if n < 10 {
        lemma_dec_digit_props(n);
    } else {
        assert(n / 10 < n) by (nonlinear_arith)
            requires
                n >= 10,
        ;
        lemma_dec_str_digits(n / 10);
        lemma_dec_digit_props(n % 10);
        assert forall|i: int| 0 <= i < dec_str(n).len() implies is_dec_digit(
            #[trigger] dec_str(n)[i],
        ) by {
            if i < dec_str(n / 10).len() {
                assert(dec_str(n)[i] == dec_str(n / 10)[i]);
            }
        }
        assert(dec_str(n)[0] == dec_str(n / 10)[0]);
    }
}

proof fn lemma_dec_str_val(n: nat)
    ensures
        dec_val(dec_str(n)) == n,
    decreases n,
{
    if n < 10 {
        lemma_dec_digit_props(n);
        assert(dec_str(n).drop_last() =~= Seq::<char>::empty());
        assert(dec_str(n).last() == dec_digit_char(n));
        assert(dec_val(dec_str(n)) == dec_val(Seq::<char>::empty()) * 10 + digit_val(
            dec_digit_char(n),
        ));
    } else {
        assert(n / 10 < n) by (nonlinear_arith)
            requires
                n >= 10,
        ;
        lemma_dec_str_val(n / 10);
        lemma_dec_digit_props(n % 10);
        assert(dec_str(n).drop_last() =~= dec_str(n / 10));
        assert(dec_str(n).last() == dec_digit_char(n % 10));
        assert(dec_val(dec_str(n)) == dec_val(dec_str(n / 10)) * 10 + digit_val(
            dec_digit_char(n % 10),
        ));
        assert(dec_val(dec_str(n)) == (n / 10) * 10 + (n % 10));
        vstd::arithmetic::div_mod::lemma_fundamental_div_mod(n as int, 10);
        assert((n / 10) * 10 + (n % 10) == n);
    }
}

/// Law: the decimal rendering of a number parses back to that number —
/// `dec_str(n)` is a valid u64 string, carries no sign, and its value is
/// `n`.  With the contracts of `u64_to_dec_string` and `parse_u64`, this
/// says `parse_u64` applied to `u64_to_dec_string(n)` returns `Some(n)`.
pub proof fn lemma_decimal_round_trip(n: u64)
    ensures
        is_valid_u64_str(dec_str(n as nat)),
        dec_body(dec_str(n as nat)) == dec_str(n as nat),
        dec_val(dec_body(dec_str(n as nat))) == n,
{
    lemma_dec_str_digits(n as nat);
    lemma_dec_str_val(n as nat);
}

/// Parses a decimal u64, accepting exactly what `is_valid_u64_str` allows
/// and returning its value.
pub fn parse_u64(s: &str) -> (r: Option<u64>)
    ensures
        match r {
            Option::Some(v) => is_valid_u64_str(s@) && v == dec_val(dec_body(s@)),
            Option::None => !is_valid_u64_str(s@),
        },
{
    let n = s.unicode_len();
    let start: usize = if n > 0 && s.get_char(0) == '+' {
        1
    } else {
        0
    };
    let ghost d = dec_body(s@);
    proof {
        assert(d =~= s@.skip(start as int));
    }
    if n == start {
        return Option::None;
    }
    let mut val: u64 = 0;
    let mut i: usize = start;
    while i < n
        invariant
            start <= i <= n,
            n == s@.len(),
            d == s@.skip(start as int),
            all_dec_digits(d.take(i - start)),
            val == dec_val(d.take(i - start)),
        decreases n - i,
    {
        let c = s.get_char(i);
        let u = c as u32;
        if u < 48 || u > 57 {
            assert(d[i - start] == s@[i as int]);
            assert(!is_dec_digit(d[i - start]));
            return Option::None;
        }
        let dv = (u - 48) as u64;
        proof {
            assert(d[i - start] == s@[i as int]);
            lemma_dec_val_take_step(d, i - start);
        }
        if val > (u64::MAX - dv) / 10 {
            proof {
                assert(val * 10 + dv > u64::MAX) by (nonlinear_arith)
                    requires
                        val > (u64::MAX - dv) / 10,
                        dv <= 9,
                ;
                lemma_dec_val_take_monotonic(d, i - start + 1, d.len() as int);
                assert(d.take(d.len() as int) =~= d);
            }
            return Option::None;
        }
        proof {
            assert(val * 10 + dv <= u64::MAX) by (nonlinear_arith)
                requires
                    val <= (u64::MAX - dv) / 10,
                    dv <= 9,
            ;
        }
        val = val * 10 + dv;
        i = i + 1;
    }
    proof {
        assert(d.take(d.len() as int) =~= d);
    }
    Option::Some(val)
}

/// Renders an optional whole-second count the way the listing shows a
/// timestamp: its decimal form, or a fixed note for a time the epoch
/// cannot express.
pub fn format_unix_seconds(secs: Option<u64>) -> (r: String)
    ensures
        match secs {
            Option::Some(n) => r@ == dec_str(n as nat),
            Option::None => r@ == "Invalid SystemTime"@,
        },
{
    match secs {
        Option::Some(n) => u64_to_dec_string(n),
        Option::None => String::from_str("Invalid SystemTime"),
    }
}

/// Whether `r` is the rendering of the seconds count `secs` that
/// `format_unix_seconds` produces.
pub open spec fn seconds_rendering(secs: Option<u64>, r: Seq<char>) -> bool {
    match secs {
        Option::Some(n) => r == dec_str(n as nat),
        Option::None => r == "Invalid SystemTime"@,
    }
}

/// The decimal form of a system time's whole seconds since the Unix
/// epoch, or "Invalid SystemTime" for a time before the epoch.  The
/// seconds count itself comes from a trusted call on an opaque value, so
/// the contract promises only that the result is some such rendering.
pub fn system_time_to_string(time: std::time::SystemTime) -> (r: String)
    ensures
        exists|secs: Option<u64>| #[trigger] seconds_rendering(secs, r@),
{
    let secs = unix_seconds_of(&time);
    let r = format_unix_seconds(secs);
    assert(seconds_rendering(secs, r@));
    r
}

/// Reads a decimal whole-second count and turns it into a system time.
/// Any string that u64 parsing rejects is refused; a count the platform's
/// time type cannot hold is refused the same way.  Whether the platform
/// can hold a given count is decided by the trusted epoch addition, so
/// success on a valid string is not promised here.
pub fn string_to_system_time(s: &str) -> (r: Result<std::time::SystemTime, String>)
    ensures
        !is_valid_u64_str(s@) ==> r is Err && r->Err_0@ == "Invalid string format"@,
        r is Err ==> r->Err_0@ == "Invalid string format"@,
        r is Ok ==> is_valid_u64_str(s@),
{
    match parse_u64(s) {
        Option::Some(secs) => match system_time_from_unix_seconds(secs) {
            Option::Some(t) => Result::Ok(t),
            Option::None => Result::Err(String::from_str("Invalid string format")),
        },
        Option::None => Result::Err(String::from_str("Invalid string format")),
    }
}

} // verus!
