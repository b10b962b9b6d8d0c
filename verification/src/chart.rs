//! Axis arithmetic of the usage bar chart: "nice" grid steps (1, 2 or 5 times
//! a power of ten) and the grid lines drawn up to the largest bar.
use vstd::prelude::*;

verus! {

/// How many grid lines the bar chart aims for.
pub const GRID_TARGET_TICKS: u32 = 4;

/// Largest power of ten `m` (starting from `start`) with `m * t <= max`.
pub open spec fn magnitude(max: int, t: int, start: int) -> int
    recommends
        t >= 1,
        start >= 1,
        start * t <= max,
    decreases max - start * t,
    when t >= 1 && start >= 1 && start * t <= max
{
    if start * 10 * t <= max {
        proof {
            assert(start * 10 * t > start * t) by (nonlinear_arith)
                requires start >= 1, t >= 1;
        }
        magnitude(max, t, start * 10)
    } else {
        start
    }
}

/// The nice step for `max` spread over `target` ticks: the 1/2/5/10 multiple
/// of the power of ten `m` below `max / target` that is closest from above,
/// 1 when `max / target < 1`, capped at `u64::MAX`.
pub open spec fn nice_step(max: int, target: int) -> int {
    let t = if target == 0 { 1 } else { target };
    if max < t {
        1
    } else {
        let m = magnitude(max, t, 1);
        let mt = m * t;
        let nice: int = if max <= mt {
            1
        } else if max <= 2 * mt {
            2
        } else if max <= 5 * mt {
            5
        } else {
            10
        };
        if nice * m > u64::MAX { u64::MAX as int } else { nice * m }
    }
}

proof fn lemma_magnitude(max: int, t: int, start: int)
    requires
        t >= 1,
        start >= 1,
        start * t <= max,
    ensures
        magnitude(max, t, start) >= start,
        magnitude(max, t, start) * t <= max,
        magnitude(max, t, start) * 10 * t > max,
    decreases max - start * t,
{
    if start * 10 * t <= max {
        assert(start * 10 * t > start * t) by (nonlinear_arith)
            requires start >= 1, t >= 1;
        lemma_magnitude(max, t, start * 10);
    }
}

/// `nice_tick_step`: a readable grid step for values up to `max_value` with
/// about `target_ticks` lines.
pub fn nice_tick_step(max_value: u64, target_ticks: u32) -> (r: u64)
    ensures
        r == nice_step(max_value as int, target_ticks as int),
        r >= 1,
{
    let t: u64 = if target_ticks == 0 {
        1
    } else {
        target_ticks as u64
    };
    if max_value < t {
        return 1;
    }
    let mut m: u64 = 1;
    assert(1 * t <= max_value);
    while m <= max_value / t / 10
        invariant
            t >= 1,
            m >= 1,
            (m as int) * t <= max_value,
            m <= max_value,
            t <= u32::MAX,
            magnitude(max_value as int, t as int, 1) == magnitude(max_value as int, t as int, m as int),
        decreases max_value - (m as int) * t,
    {
        assert((m as int) * 10 * t <= max_value) by (nonlinear_arith)
            requires m <= max_value / t / 10, t >= 1, m >= 1;
        assert((m as int) * 10 * t > (m as int) * t) by (nonlinear_arith)
            requires m >= 1, t >= 1;
        assert((m as int) * 10 <= max_value) by (nonlinear_arith)
            requires (m as int) * 10 * t <= max_value, t >= 1, m >= 1;
        assert(magnitude(max_value as int, t as int, m as int) == magnitude(max_value as int, t as int, m * 10));
        m = m * 10;
        assert((m as int) * t <= max_value);
    }
    assert((m as int) * 10 * t > max_value) by (nonlinear_arith)
        requires m > max_value / t / 10, t >= 1, m >= 1;
    assert(magnitude(max_value as int, t as int, m as int) == m);
    let mt = (m as u128) * (t as u128);
    let mx = max_value as u128;
    let nice: u128 = if mx <= mt {
        1
    } else if mx <= 2 * mt {
        2
    } else if mx <= 5 * mt {
        5
    } else {
        10
    };
    let v = nice * (m as u128);
    if v > u64::MAX as u128 {
        u64::MAX
    } else {
        assert(v >= 1) by (nonlinear_arith)
            requires v == nice * (m as u128), nice >= 1, m >= 1;
        v as u64
    }
}

/// What `grid_ticks` returns: the multiples of the nice step up to `max`;
/// a single line at `max` when the step exceeds it; nothing for 0.
pub open spec fn ticks_of(max: int) -> Seq<u64> {
    let step = nice_step(max, 4);
    if max == 0 {
        Seq::empty()
    } else if step > max {
        seq![max as u64]
    } else {
        Seq::new((max / step) as nat, |k: int| ((k + 1) * step) as u64)
    }
}

/// The counter that walks the ticks stays inside `u64`.
pub open spec fn ticks_fit(max: int) -> bool {
    let step = nice_step(max, 4);
    max == 0 || step > max || (max / step + 1) * step <= u64::MAX
}

/// `grid_ticks`: the horizontal grid lines for bars up to `max_total`.
pub fn grid_ticks(max_total: u64) -> (r: Vec<u64>)
    requires
        ticks_fit(max_total as int),
    ensures
        r@ == ticks_of(max_total as int),
{
    if max_total == 0 {
        return Vec::new();
    }
    let step = nice_tick_step(max_total, GRID_TARGET_TICKS);
    let mut ticks: Vec<u64> = Vec::new();
    let mut v = step;
    if step > max_total {
        ticks.push(max_total);
        assert(ticks@ =~= ticks_of(max_total as int));
        return ticks;
    }
    let ghost n = max_total as int / step as int;
    assert(n >= 1) by (nonlinear_arith)
        requires n == max_total as int / step as int, step <= max_total, step >= 1;
    assert((n + 1) * step <= u64::MAX);
    assert(ticks.len() == 0);
    assert(v == (ticks.len() + 1) * step) by (nonlinear_arith)
        requires v == step, ticks.len() == 0;
    while v <= max_total
        invariant
            step >= 1,
            step <= max_total,
            n == max_total as int / step as int,
            (n + 1) * step <= u64::MAX,
            v == (ticks.len() + 1) * step,
            ticks.len() <= n,
            forall|k: int| 0 <= k < ticks.len() ==> ticks[k] == (k + 1) * step,
        decreases max_total - v + step,
    {
        let ghost len0 = ticks.len();
        assert(len0 + 1 <= n) by (nonlinear_arith)
            requires v == (len0 + 1) * step, v <= max_total, n == max_total as int / step as int, step >= 1;
        ticks.push(v);
        assert(v + step == (len0 + 2) * step) by (nonlinear_arith)
            requires v == (len0 + 1) * step;
        assert((len0 + 2) * step <= (n + 1) * step) by (nonlinear_arith)
            requires len0 + 1 <= n, step >= 1;
        v = v + step;
        assert(ticks[len0 as int] == (len0 + 1) * step);
    }
    assert(ticks.len() == n) by (nonlinear_arith)
        requires v == (ticks.len() + 1) * step, v > max_total, ticks.len() <= n, n == max_total as int / step as int, step >= 1;
    assert(ticks@ =~= ticks_of(max_total as int));
    ticks
}


/// `10` to the power `k`.
pub open spec fn pow10(k: nat) -> int
    decreases k,
{
    if k == 0 { 1 } else { 10 * pow10((k - 1) as nat) }
}

proof fn lemma_pow10_pos(k: nat)
    ensures
        pow10(k) >= 1,
    decreases k,
{
    if k > 0 {
        lemma_pow10_pos((k - 1) as nat);
    }
}

proof fn lemma_magnitude_pow10(max: int, t: int, k: nat) -> (j: nat)
    requires
        t >= 1,
        pow10(k) * t <= max,
    ensures
        magnitude(max, t, pow10(k)) == pow10(j),
    decreases max - pow10(k) * t,
{
    lemma_pow10_pos(k);
    let start = pow10(k);
    if start * 10 * t <= max {
        assert(start * 10 * t > start * t) by (nonlinear_arith)
            requires start >= 1, t >= 1;
        assert(pow10(k + 1) == start * 10);
        lemma_magnitude_pow10(max, t, k + 1)
    } else {
        k
    }
}

/// `c` is 1, 2 or 5.
pub open spec fn one_two_five(c: int) -> bool {
    c == 1 || c == 2 || c == 5
}

/// Grid steps are 1, 2 or 5 times a power of ten, unless the step is
/// capped at `u64::MAX`.
pub proof fn law_nice_steps_are_1_2_5(max: int, target: int)
    requires
        0 <= max,
        0 <= target,
        nice_step(max, target) < u64::MAX,
    ensures
        exists|c: int, k: nat| #![trigger one_two_five(c), pow10(k)] one_two_five(c) && nice_step(max, target) == c * pow10(k),
{
    let t = if target == 0 { 1 } else { target };
    if max < t {
        assert(one_two_five(1) && nice_step(max, target) == 1 * pow10(0));
    } else {
        assert(t >= 1);
        assert(pow10(0) * t <= max);
        let j = lemma_magnitude_pow10(max, t, 0);
        let m = pow10(j);
        let mt = m * t;
        if max <= mt {
            assert(one_two_five(1) && nice_step(max, target) == 1 * pow10(j));
        } else if max <= 2 * mt {
            assert(one_two_five(2) && nice_step(max, target) == 2 * pow10(j));
        } else if max <= 5 * mt {
            assert(one_two_five(5) && nice_step(max, target) == 5 * pow10(j));
        } else {
            assert(pow10(j + 1) == 10 * m);
            assert(one_two_five(1) && nice_step(max, target) == 1 * pow10(j + 1));
        }
    }
}

} // verus!
