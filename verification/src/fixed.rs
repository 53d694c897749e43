//! Fixed-point quantization of order sizes and prices.
//!
//! Sizes and prices are integer numbers of atoms, where one unit of the
//! venue's quoting currency is `AMOUNT_SCALE` atoms. A venue size step
//! or price tick is likewise an atom count. Entry sizes are rounded
//! down to a step multiple (with a floor at the venue minimum), exit
//! sizes are rounded up so no residual is stranded, and limit prices
//! are rounded toward the passive side of the book, never below one
//! tick.

use vstd::prelude::*;

verus! {

/// Atoms per whole unit: quantities carry nine decimal places.
pub const AMOUNT_SCALE: u64 = 1_000_000_000;

/// Upper bound on any size, step or price handled by the quantizers,
/// so that a step-multiple never overflows `u64`.
pub const MAX_AMOUNT: u64 = 1_000_000_000_000_000_000;

/// Ceiling division on nonnegative integers.
pub open spec fn ceil_div(a: int, b: int) -> int {
    (a + b - 1) / b
}

/// Size rounded down to a multiple of `step`, floored at `min_order`
/// (and at one step). A zero step leaves the size unchanged.
pub open spec fn spec_quantize_down(size: int, step: int, min_order: Option<int>) -> int {
    if step <= 0 {
        size
    } else {
        let m = size / step;
        let m_floored = match min_order {
            Some(mo) => if mo > 0 && ceil_div(mo, step) > m {
                ceil_div(mo, step)
            } else {
                m
            },
            None => m,
        };
        let m_pos = if m_floored >= 1 {
            m_floored
        } else {
            1
        };
        m_pos * step
    }
}

/// Size rounded up to a multiple of `step`, floored at `min_order`
/// (and at one step). A zero step leaves the size unchanged.
pub open spec fn spec_quantize_up(size: int, step: int, min_order: Option<int>) -> int {
    if step <= 0 {
        size
    } else {
        let m = ceil_div(size, step);
        let m_floored = match min_order {
            Some(mo) => if mo > 0 && ceil_div(mo, step) > m {
                ceil_div(mo, step)
            } else {
                m
            },
            None => m,
        };
        let m_pos = if m_floored >= 1 {
            m_floored
        } else {
            1
        };
        m_pos * step
    }
}

/// Price rounded down to a multiple of `tick`, never below one tick.
pub open spec fn spec_round_price_down(price: int, tick: int) -> int {
    if tick <= 0 {
        price
    } else {
        let m = price / tick;
        if m >= 1 {
            m * tick
        } else {
            tick
        }
    }
}

/// Price rounded up to a multiple of `tick`, never below one tick.
pub open spec fn spec_round_price_up(price: int, tick: int) -> int {
    if tick <= 0 {
        price
    } else {
        let m = ceil_div(price, tick);
        if m >= 1 {
            m * tick
        } else {
            tick
        }
    }
}

proof fn lemma_div_mul_le(a: int, b: int)
    requires
        a >= 0,
        b > 0,
    ensures
        (a / b) * b <= a,
        a < (a / b + 1) * b,
        a / b >= 0,
{
    assert((a / b) * b <= a && a < (a / b + 1) * b && a / b >= 0) by (nonlinear_arith)
        requires
            a >= 0,
            b > 0,
    ;
}

proof fn lemma_ceil_bounds(a: int, b: int)
    requires
        a >= 0,
        b > 0,
    ensures
        ceil_div(a, b) * b >= a,
        ceil_div(a, b) * b < a + b,
        ceil_div(a, b) >= 0,
        a >= 1 ==> ceil_div(a, b) >= 1,
{
    let q = (a + b - 1) / b;
    assert(q * b >= a && q * b < a + b && q >= 0 && (a >= 1 ==> q >= 1)) by (nonlinear_arith)
        requires
            a >= 0,
            b > 0,
            q == (a + b - 1) / b,
    ;
}

/// Rounds an order size down to the venue's size step, enforcing the
/// venue minimum order size when one is given.
pub fn quantize_down(size: u64, step: u64, min_order: Option<u64>) -> (r: u64)
    requires
        size <= MAX_AMOUNT,
        step <= MAX_AMOUNT,
        min_order is Some ==> min_order->0 <= MAX_AMOUNT,
    ensures
        r == spec_quantize_down(
            size as int,
            step as int,
            match min_order {
                Some(mo) => Some(mo as int),
                None => None,
            },
        ),
{
    if step == 0 {
        return size;
    }
    let mut m: u64 = size / step;
    if let Some(mo) = min_order {
        if mo > 0 {
            let min_mult: u64 = (mo - 1) / step + 1;
            proof {
                lemma_ceil_bounds(mo as int, step as int);
                assert(min_mult == ceil_div(mo as int, step as int)) by {
                    assert((mo as int - 1) / (step as int) + 1 == (mo as int + step as int - 1) / (step as int)) by (nonlinear_arith)
                        requires
                            mo >= 1,
                            step >= 1,
                    ;
                };
            }
            if min_mult > m {
                m = min_mult;
            }
        }
    }
    if m < 1 {
        m = 1;
    }
    proof {
        let s = step as int;
        let q1 = size as int / s;
        lemma_div_mul_le(size as int, s);
        if min_order is Some && min_order->0 > 0 {
            lemma_ceil_bounds(min_order->0 as int, s);
        }
        assert(m as int == q1 || (min_order is Some && min_order->0 > 0 && m as int == ceil_div(
            min_order->0 as int,
            s,
        )) || m == 1);
        assert(m * step <= 2 * MAX_AMOUNT) by (nonlinear_arith)
            requires
                s == step as int,
                s >= 1,
                m >= 1,
                q1 * s <= size as int,
                min_order is Some && min_order->0 > 0 ==> ceil_div(min_order->0 as int, s) * s
                    < min_order->0 + s,
                m as int == q1 || (min_order is Some && min_order->0 > 0 && m as int == ceil_div(
                    min_order->0 as int,
                    s,
                )) || m == 1,
                size <= MAX_AMOUNT,
                step <= MAX_AMOUNT,
                min_order is Some ==> min_order->0 <= MAX_AMOUNT,
        ;
    }
    m * step
}

/// Rounds an order size up to the venue's size step, enforcing the
/// venue minimum order size when one is given. Used for exits so that
/// the residual of a position is never stranded below one step.
pub fn quantize_up(size: u64, step: u64, min_order: Option<u64>) -> (r: u64)
    requires
        size <= MAX_AMOUNT,
        step <= MAX_AMOUNT,
        min_order is Some ==> min_order->0 <= MAX_AMOUNT,
    ensures
        r == spec_quantize_up(
            size as int,
            step as int,
            match min_order {
                Some(mo) => Some(mo as int),
                None => None,
            },
        ),
{
    if step == 0 {
        return size;
    }
    let mut m: u64 = if size == 0 {
        0
    } else {
        (size - 1) / step + 1
    };
    proof {
        if size > 0 {
            lemma_ceil_bounds(size as int, step as int);
            assert((size as int - 1) / (step as int) + 1 == (size as int + step as int - 1) / (step as int)) by (nonlinear_arith)
                requires
                    size >= 1,
                    step >= 1,
            ;
        } else {
            assert(ceil_div(0, step as int) == 0) by (nonlinear_arith)
                requires
                    step >= 1,
            ;
        }
    }
    if let Some(mo) = min_order {
        if mo > 0 {
            let min_mult: u64 = (mo - 1) / step + 1;
            proof {
                lemma_ceil_bounds(mo as int, step as int);
                assert(min_mult == ceil_div(mo as int, step as int)) by {
                    assert((mo as int - 1) / (step as int) + 1 == (mo as int + step as int - 1) / (step as int)) by (nonlinear_arith)
                        requires
                            mo >= 1,
                            step >= 1,
                    ;
                };
            }
            if min_mult > m {
                m = min_mult;
            }
        }
    }
    if m < 1 {
        m = 1;
    }
    proof {
        let s = step as int;
        if size > 0 {
            lemma_ceil_bounds(size as int, s);
        }
        if min_order is Some && min_order->0 > 0 {
            lemma_ceil_bounds(min_order->0 as int, s);
        }
        assert(m as int == ceil_div(size as int, s) || (min_order is Some && min_order->0 > 0
            && m as int == ceil_div(min_order->0 as int, s)) || m == 1);
        assert(m * step <= 2 * MAX_AMOUNT + 1) by (nonlinear_arith)
            requires
                s == step as int,
                s >= 1,
                m >= 1,
                size > 0 ==> ceil_div(size as int, s) * s < size + s,
                size == 0 ==> ceil_div(size as int, s) <= 0,
                min_order is Some && min_order->0 > 0 ==> ceil_div(min_order->0 as int, s) * s
                    < min_order->0 + s,
                m as int == ceil_div(size as int, s) || (min_order is Some && min_order->0 > 0
                    && m as int == ceil_div(min_order->0 as int, s)) || m == 1,
                size <= MAX_AMOUNT,
                step <= MAX_AMOUNT,
                min_order is Some ==> min_order->0 <= MAX_AMOUNT,
        ;
    }
    m * step
}

/// Rounds a long-side limit price down to the venue tick, never below
/// one tick.
pub fn round_price_long(price: u64, tick: u64) -> (r: u64)
    requires
        price <= 2 * MAX_AMOUNT,
        tick <= MAX_AMOUNT,
    ensures
        r == spec_round_price_down(price as int, tick as int),
{
    if tick == 0 {
        return price;
    }
    let m: u64 = price / tick;
    proof {
        lemma_div_mul_le(price as int, tick as int);
        assert(m * tick <= price) by (nonlinear_arith)
            requires
                tick >= 1,
                m == price as int / tick as int,
                price >= 0,
        ;
    }
    if m >= 1 {
        m * tick
    } else {
        tick
    }
}

/// Rounds a short-side limit price up to the venue tick, never below
/// one tick.
pub fn round_price_short(price: u64, tick: u64) -> (r: u64)
    requires
        price <= 2 * MAX_AMOUNT,
        tick <= MAX_AMOUNT,
    ensures
        r == spec_round_price_up(price as int, tick as int),
{
    if tick == 0 {
        return price;
    }
    let m: u64 = if price == 0 {
        0
    } else {
        (price - 1) / tick + 1
    };
    proof {
        if price > 0 {
            lemma_ceil_bounds(price as int, tick as int);
            assert((price as int - 1) / (tick as int) + 1 == (price as int + tick as int - 1) / (tick as int)) by (nonlinear_arith)
                requires
                    price >= 1,
                    tick >= 1,
            ;
            assert(m * tick < price + tick);
        } else {
            assert(ceil_div(0, tick as int) == 0) by (nonlinear_arith)
                requires
                    tick >= 1,
            ;
        }
    }
    if m >= 1 {
        m * tick
    } else {
        tick
    }
}

/// Quantization round trip for entry sizing: when the size is at least
/// one step and the venue minimum does not exceed the step, rounding
/// down yields a step multiple no larger than the size and no smaller
/// than both the step and the minimum.
pub proof fn lemma_quantize_down_round_trip(size: int, step: int, min_order: Option<int>)
    requires
        step >= 1,
        size >= step,
        min_order is Some ==> 0 <= min_order->0 <= step,
    ensures
        spec_quantize_down(size, step, min_order) % step == 0,
        spec_quantize_down(size, step, min_order) <= size,
        spec_quantize_down(size, step, min_order) >= step,
        min_order is Some ==> spec_quantize_down(size, step, min_order) >= min_order->0,
{
    let m = size / step;
    lemma_div_mul_le(size, step);
    assert(m >= 1) by (nonlinear_arith)
        requires
            step >= 1,
            size >= step,
            m == size / step,
    ;
    if min_order is Some && min_order->0 > 0 {
        lemma_ceil_bounds(min_order->0, step);
        assert(ceil_div(min_order->0, step) <= 1) by (nonlinear_arith)
            requires
                step >= 1,
                0 < min_order->0 <= step,
        ;
    }
    let r = spec_quantize_down(size, step, min_order);
    assert(r == m * step);
    assert(m * step % step == 0) by (nonlinear_arith)
        requires
            step >= 1,
            m >= 0,
    ;
    assert(m * step >= step) by (nonlinear_arith)
        requires
            step >= 1,
            m >= 1,
    ;
}

/// Quantization round trip for exit sizing: rounding a positive size
/// up (with no tighter venue minimum) yields a step multiple in
/// `[size, size + step)`.
pub proof fn lemma_quantize_up_round_trip(size: int, step: int, min_order: Option<int>)
    requires
        step >= 1,
        size >= 1,
        min_order is Some ==> 0 <= min_order->0 <= size,
    ensures
        spec_quantize_up(size, step, min_order) % step == 0,
        spec_quantize_up(size, step, min_order) >= size,
        spec_quantize_up(size, step, min_order) < size + step,
{
    let m = ceil_div(size, step);
    lemma_ceil_bounds(size, step);
    if min_order is Some && min_order->0 > 0 {
        lemma_ceil_bounds(min_order->0, step);
        assert(ceil_div(min_order->0, step) <= ceil_div(size, step)) by (nonlinear_arith)
            requires
                step >= 1,
                0 < min_order->0 <= size,
        ;
    }
    let r = spec_quantize_up(size, step, min_order);
    assert(r == m * step);
    assert(m * step % step == 0) by (nonlinear_arith)
        requires
            step >= 1,
            m >= 0,
    ;
}

/// Price rounding bounds: the long side rounds down within one tick of
/// the input, the short side rounds up within one tick, and both stay
/// at or above one tick.
pub proof fn lemma_price_rounding(price: int, tick: int)
    requires
        tick >= 1,
        price >= 1,
    ensures
        spec_round_price_down(price, tick) >= tick,
        spec_round_price_up(price, tick) >= tick,
        price >= tick ==> spec_round_price_down(price, tick) <= price < spec_round_price_down(
            price,
            tick,
        ) + tick,
        spec_round_price_up(price, tick) >= price,
        spec_round_price_up(price, tick) - tick < price,
{
    let m = price / tick;
    lemma_div_mul_le(price, tick);
    let c = ceil_div(price, tick);
    lemma_ceil_bounds(price, tick);
    assert((m + 1) * tick == m * tick + tick) by (nonlinear_arith);
    if price >= tick {
        assert(m >= 1) by (nonlinear_arith)
            requires
                tick >= 1,
                price >= tick,
                m == price / tick,
        ;
    }
    assert(m >= 1 ==> m * tick >= tick) by (nonlinear_arith)
        requires
            tick >= 1,
    ;
    assert(c >= 1 ==> c * tick >= tick) by (nonlinear_arith)
        requires
            tick >= 1,
    ;
}

} // verus!
