//! Durations in minutes.

use vstd::prelude::*;

use crate::text::{i64_text, int_text, join2, join4, nat_text, quotient, remainder};

verus! {

/// Quotient and remainder by a positive number, cut off towards zero.
pub fn divide(a: i64, b: i64) -> (r: (i64, i64))
    requires
        0 < b,
    ensures
        r.0 == quotient(a as int, b as int),
        r.1 == remainder(a as int, b as int),
{
    let size: i128 = a as i128;
    proof {
        vstd::arithmetic::div_mod::lemma_fundamental_div_mod(-a as int, b as int);
        vstd::arithmetic::div_mod::lemma_fundamental_div_mod(a as int, b as int);
        let q = (-a as int) / (b as int);
        assert(b * (-q) == -(b * q)) by (nonlinear_arith);
        if a < 0 {
            vstd::arithmetic::div_mod::lemma_div_is_ordered_by_denominator(-a as int, 1, b as int);
            vstd::arithmetic::div_mod::lemma_div_pos_is_pos(-a as int, b as int);
        } else {
            vstd::arithmetic::div_mod::lemma_div_is_ordered_by_denominator(a as int, 1, b as int);
            vstd::arithmetic::div_mod::lemma_div_pos_is_pos(a as int, b as int);
        }
    }
    if a < 0 {
        let n: u128 = (-size) as u128;
        let q: u128 = n / (b as u128);
        let m: u128 = n % (b as u128);
        ((-(q as i128)) as i64, (-(m as i128)) as i64)
    } else {
        let n: u128 = size as u128;
        let q: u128 = n / (b as u128);
        let m: u128 = n % (b as u128);
        (q as i64, m as i64)
    }
}

/// Minutes as hours and minutes, such as `1h 30m`, `2h` or `45m`.
pub open spec fn duration_text(min: int) -> Seq<char> {
    let h = quotient(min, 60);
    let m = remainder(min, 60);
    if h == 0 {
        int_text(m) + "m"@
    } else if m == 0 {
        int_text(h) + "h"@
    } else {
        int_text(h) + "h "@ + int_text(m) + "m"@
    }
}

/// Minutes as hours and minutes, such as `1h 30m`, `2h` or `45m`.
pub fn fmt_duration(min: i64) -> (r: String)
    ensures
        r@ == duration_text(min as int),
{
    let (h, m) = divide(min, 60);
    if h == 0 {
        join2(i64_text(m).as_str(), "m")
    } else if m == 0 {
        join2(i64_text(h).as_str(), "h")
    } else {
        join4(i64_text(h).as_str(), "h ", i64_text(m).as_str(), "m")
    }
}

/// The hours and minutes that are shown make up the whole duration, and there
/// are less than sixty minutes of them.
pub proof fn law_hours_and_minutes_add_up(min: int)
    ensures
        min == 60 * quotient(min, 60) + remainder(min, 60),
        -60 < remainder(min, 60) < 60,
        min >= 0 ==> quotient(min, 60) >= 0 && remainder(min, 60) >= 0,
        min <= 0 ==> quotient(min, 60) <= 0 && remainder(min, 60) <= 0,
{
}

/// Hours and minutes are written with the numbers of both, and one that is zero
/// is left out; a duration of nothing is no minutes.
pub proof fn law_duration_names_its_hours_and_minutes(h: nat, m: nat)
    requires
        m < 60,
    ensures
        h == 0 ==> duration_text((60 * h + m) as int) == nat_text(m) + "m"@,
        h > 0 && m == 0 ==> duration_text((60 * h + m) as int) == nat_text(h) + "h"@,
        h > 0 && m > 0 ==> duration_text((60 * h + m) as int) == nat_text(h) + "h "@ + nat_text(m)
            + "m"@,
{
}

/// The minutes that each of `n` issue keys gets of a duration: an equal share,
/// rounded to the nearest minute, halves up, and at least one.
pub open spec fn share_of(min: int, n: int) -> int
    recommends
        n > 0,
{
    let rounded = (2 * min + n) / (2 * n);
    if rounded < 1 {
        1
    } else {
        rounded
    }
}

/// The minutes that each of `n` issue keys gets of a duration.
pub fn minutes_per_key(min: i64, n: usize) -> (r: i64)
    requires
        n > 0,
    ensures
        r == share_of(min as int, n as int),
{
    if min <= 0 {
        proof {
            assert((2 * min + n) / (2 * n) < 1) by (nonlinear_arith)
                requires
                    min <= 0,
                    n > 0,
            ;
        }
        return 1;
    }
    let twice: u128 = 2 * (min as u128) + n as u128;
    let by: u128 = 2 * (n as u128);
    let rounded: u128 = twice / by;
    proof {
        assert((2 * min + n) / (2 * n) <= min + 1) by (nonlinear_arith)
            requires
                min > 0,
                n > 0,
        ;
        if min == i64::MAX {
            assert((2 * min + n) / (2 * n) <= min) by (nonlinear_arith)
                requires
                    min > 1,
                    n > 0,
            ;
        }
    }
    if rounded < 1 {
        1
    } else {
        rounded as i64
    }
}

/// A share is at least one minute; where the equal share is half a minute or
/// more, it is at most half a minute away from it, and not below it by as much.
/// Where it is less, the share is one minute. A single key gets the whole
/// duration.
pub proof fn law_share_is_fair(min: int, n: int)
    requires
        n > 0,
    ensures
        share_of(min, n) >= 1,
        2 * min >= n ==> -n < 2 * (n * share_of(min, n) - min) <= n,
        2 * min < n ==> share_of(min, n) == 1,
        min >= 1 ==> share_of(min, 1) == min,
{
    let a = 2 * min + n;
    let b = 2 * n;
    let q = a / b;
    vstd::arithmetic::div_mod::lemma_fundamental_div_mod(a, b);
    vstd::arithmetic::div_mod::lemma_mod_bound(a, b);
    assert(b * q == 2 * (n * q)) by (nonlinear_arith)
        requires
            b == 2 * n,
    ;
    if min >= 1 {
        assert((2 * min + 1) / 2 == min);
    }
    if 2 * min < n {
        assert(q < 1) by (nonlinear_arith)
            requires
                a == b * q + a % b,
                0 <= a % b < b,
                a < b,
                b > 0,
        ;
    }
    if 2 * min >= n {
        assert(q >= 1) by (nonlinear_arith)
            requires
                a == b * q + a % b,
                0 <= a % b < b,
                a >= b,
                b > 0,
        ;
    }
}

}
