//! Amounts of gas written in teragas, such as `"4"` or `"2.5"`.
use vstd::prelude::*;
use crate::decimal::{decimal_value, parse_decimal};

verus! {

/// Gas in one teragas.
pub const TERA: u64 = 1_000_000_000_000;

/// Digits after the point that an amount may have.
pub const TERA_DIGITS: usize = 12;

pub open spec fn pow10(k: nat) -> nat
    decreases k,
{
    if k == 0 {
        1
    } else {
        10 * pow10((k - 1) as nat)
    }
}

/// Index of the first `.` at or after `i`, or the length of `s` if there is none.
pub open spec fn next_dot(s: Seq<char>, i: int) -> int
    decreases s.len() - i,
{
    if i >= s.len() {
        s.len() as int
    } else if s[i] == '.' {
        i
    } else {
        next_dot(s, i + 1)
    }
}

/// Gas that `s` writes: a whole number of teragas, optionally followed by a
/// point and at most twelve more digits (a further point ends them), all of
/// it within a `u64`.
pub open spec fn gas_value(s: Seq<char>) -> Option<nat> {
    let d = next_dot(s, 0);
    match decimal_value(s.subrange(0, d), u64::MAX as nat) {
        None => None,
        Some(whole) => {
            let number = (whole * TERA) as nat;
            if number > u64::MAX {
                None
            } else if d == s.len() {
                Some(number)
            } else {
                let frac = s.subrange(d + 1, next_dot(s, d + 1));
                match decimal_value(frac, u64::MAX as nat) {
                    None => None,
                    Some(m) => if frac.len() <= TERA_DIGITS && m * pow10(
                        (TERA_DIGITS - frac.len()) as nat,
                    ) + number <= u64::MAX {
                        Some((m * pow10((TERA_DIGITS - frac.len()) as nat) + number) as nat)
                    } else {
                        None
                    },
                }
            }
        },
    }
}

proof fn lemma_next_dot_bounds(s: Seq<char>, i: int)
    requires
        0 <= i <= s.len(),
    ensures
        i <= next_dot(s, i) <= s.len(),
        next_dot(s, i) < s.len() ==> s[next_dot(s, i)] == '.',
        forall|k: int| i <= k < next_dot(s, i) ==> s[k] != '.',
    decreases s.len() - i,
{
    if i < s.len() && s[i] != '.' {
        lemma_next_dot_bounds(s, i + 1);
    }
}

fn find_dot(s: &str, from: usize) -> (r: usize)
    requires
        from <= s@.len(),
    ensures
        r == next_dot(s@, from as int),
{
    let n = s.unicode_len();
    let mut i: usize = from;
    proof {
        lemma_next_dot_bounds(s@, from as int);
    }
    while i < n
        invariant
            from <= i <= n,
            n == s@.len(),
            next_dot(s@, i as int) == next_dot(s@, from as int),
        decreases n - i,
    {
        if s.get_char(i) == '.' {
            return i;
        }
        i = i + 1;
    }
    i
}

fn power_of_ten(k: usize) -> (r: u64)
    requires
        k <= TERA_DIGITS,
    ensures
        r == pow10(k as nat),
{
    let mut r: u64 = 1;
    let mut i: usize = 0;
    while i < k
        invariant
            i <= k <= TERA_DIGITS,
            r == pow10(i as nat),
            r <= TERA,
        decreases k - i,
    {
        proof {
            assert(pow10((i + 1) as nat) == 10 * pow10(i as nat));
            assert(pow10(i as nat) <= pow10(11)) by {
                lemma_pow10_mono(i as nat, 11);
            }
            reveal_with_fuel(pow10, 12);
            assert(pow10(11) == 100_000_000_000);
        }
        r = r * 10;
        i = i + 1;
    }
    r
}

proof fn lemma_pow10_mono(a: nat, b: nat)
    requires
        a <= b,
    ensures
        pow10(a) <= pow10(b),
    decreases b,
{
    if a < b {
        lemma_pow10_mono(a, (b - 1) as nat);
    }
}

/// Gas that a teragas amount such as `"2.5"` stands for.
pub fn to_gas(tera_gas: &str) -> (r: u64)
    requires
        gas_value(tera_gas@) is Some,
    ensures
        r == gas_value(tera_gas@)->0,
{
    let n = tera_gas.unicode_len();
    let d = find_dot(tera_gas, 0);
    proof {
        lemma_next_dot_bounds(tera_gas@, 0);
    }
    let whole = parse_decimal(tera_gas.substring_char(0, d), u64::MAX as u128);
    let whole = match whole {
        Some(w) => w as u64,
        None => unreached(),
    };
    let number = whole * TERA;
    if d == n {
        return number;
    }
    let e = find_dot(tera_gas, d + 1);
    proof {
        lemma_next_dot_bounds(tera_gas@, d + 1);
    }
    let frac = tera_gas.substring_char(d + 1, e);
    let mantissa = match parse_decimal(frac, u64::MAX as u128) {
        Some(m) => m as u64,
        None => unreached(),
    };
    let power = e - (d + 1);
    let scale = power_of_ten(TERA_DIGITS - power);
    mantissa * scale + number
}

} // verus!
