//! Integer division as Rust's `/` and `%` compute it on signed integers.

use vstd::prelude::*;

verus! {

/// `a / b` rounded toward zero, as Rust divides signed integers.
pub open spec fn trunc_div(a: int, b: int) -> int {
    let q = (if a < 0 { -a } else { a }) / (if b < 0 { -b } else { b });
    if (a < 0) != (b < 0) { -q } else { q }
}

/// The remainder that goes with `trunc_div`, as Rust's `%` gives it.
pub open spec fn trunc_rem(a: int, b: int) -> int {
    a - b * trunc_div(a, b)
}

/// `|a|` as an unsigned integer.
fn magnitude(a: i64) -> (m: u64)
    ensures
        m == (if a < 0 { -(a as int) } else { a as int }),
{
    if a < 0 {
        ((-(a + 1)) as u64) + 1
    } else {
        a as u64
    }
}

/// `a / b` on `i64`, rounded toward zero.
pub fn div_trunc(a: i64, b: i64) -> (q: i64)
    requires
        b != 0,
        !(a == i64::MIN && b == -1),
    ensures
        q == trunc_div(a as int, b as int),
{
    let ma = magnitude(a);
    let mb = magnitude(b);
    let m = ma / mb;
    assert(m <= ma) by (nonlinear_arith)
        requires
            mb >= 1,
            m == ma / mb,
    ;
    assert(mb >= 2 ==> 2 * m <= ma) by (nonlinear_arith)
        requires
            mb >= 1,
            m == ma / mb,
    ;
    if (a < 0) != (b < 0) {
        if m == 9223372036854775808 {
            i64::MIN
        } else {
            -(m as i64)
        }
    } else {
        m as i64
    }
}

/// `a % b` on `i64`: the remainder of the division rounded toward zero.
pub fn rem_trunc(a: i64, b: i64) -> (r: i64)
    requires
        b != 0,
        !(a == i64::MIN && b == -1),
    ensures
        r == trunc_rem(a as int, b as int),
{
    let ma = magnitude(a);
    let mb = magnitude(b);
    let mq = ma / mb;
    let mr = ma % mb;
    assert(ma == mb * mq + mr && mr < mb) by (nonlinear_arith)
        requires
            mb >= 1,
            mq == ma / mb,
            mr == ma % mb,
    ;
    let ghost qa = trunc_div(a as int, b as int);
    assert(a - b * qa == (if a < 0 { -(mr as int) } else { mr as int })) by (nonlinear_arith)
        requires
            ma == (if a < 0 { -(a as int) } else { a as int }),
            mb == (if b < 0 { -(b as int) } else { b as int }),
            qa == (if (a < 0) != (b < 0) { -(mq as int) } else { mq as int }),
            ma == mb * mq + mr,
    ;
    if a < 0 {
        -(mr as i64)
    } else {
        mr as i64
    }
}

} // verus!
