//! Evenly spaced values between two bounds.

use vstd::prelude::*;

verus! {

/// How many values the grid from `min` to `max` in steps of `step` holds. A step of 0 gives
/// the one value `min`; bounds in the wrong order give none.
pub open spec fn grid_len(min: nat, max: nat, step: nat) -> nat {
    if min > max {
        0
    } else if step == 0 {
        1
    } else {
        ((max - min) / (step as int) + 1) as nat
    }
}

/// The values `min`, `min + step`, `min + 2 * step`, ... that are not above `max`.
pub open spec fn grid(min: nat, max: nat, step: nat) -> Seq<nat> {
    Seq::new(grid_len(min, max, step), |k: int| (min + k * step) as nat)
}

/// `value` is one of the values of the grid.
pub open spec fn on_grid(value: nat, min: nat, max: nat, step: nat) -> bool {
    exists|k: int| 0 <= k < grid_len(min, max, step) && value == #[trigger] (min + k * step)
}

/// No value of the grid is above `max`.
pub proof fn lemma_grid_within(min: nat, max: nat, step: nat, k: int)
    requires
        0 <= k < grid_len(min, max, step),
    ensures
        min <= min + k * step <= max,
{
    if step > 0 {
        let last = (max - min) / (step as int);
        assert(last * step <= max - min) by {
            vstd::arithmetic::div_mod::lemma_fundamental_div_mod((max - min) as int, step as int);
            vstd::arithmetic::div_mod::lemma_mod_bound((max - min) as int, step as int);
            assert(step * last == last * step) by (nonlinear_arith);
        }
        assert(k * step <= last * step) by (nonlinear_arith)
            requires
                0 <= k <= last,
                step > 0,
        ;
        assert(0 <= k * step) by (nonlinear_arith)
            requires
                0 <= k,
                step > 0,
        ;
    } else {
        assert(k * step == 0) by (nonlinear_arith)
            requires
                step == 0,
        ;
    }
}

/// The index of the last value of a grid with a value.
pub fn last_grid_index(min: u64, max: u64, step: u64) -> (last: u64)
    requires
        min <= max,
    ensures
        last + 1 == grid_len(min as nat, max as nat, step as nat),
{
    if step == 0 {
        0
    } else {
        (max - min) / step
    }
}

/// The value of the grid at index `k`.
pub fn grid_value(min: u64, max: u64, step: u64, k: u64) -> (value: u64)
    requires
        k < grid_len(min as nat, max as nat, step as nat),
    ensures
        value == min + k * step,
        min <= value <= max,
        on_grid(value as nat, min as nat, max as nat, step as nat),
{
    proof {
        lemma_grid_within(min as nat, max as nat, step as nat, k as int);
    }
    let offset: u128 = (k as u128) * (step as u128);
    (min as u128 + offset) as u64
}

/// The values of the grid, in rising order.
pub fn grid_values(min: u64, max: u64, step: u64) -> (values: Vec<u64>)
    ensures
        values@.len() == grid_len(min as nat, max as nat, step as nat),
        forall|k: int| 0 <= k < values@.len() ==> #[trigger] values@[k] == min + k * step,
{
    let mut values: Vec<u64> = Vec::new();
    if min > max {
        return values;
    }
    let last = last_grid_index(min, max, step);
    let mut k: u64 = 0;
    loop
        invariant
            min <= max,
            last + 1 == grid_len(min as nat, max as nat, step as nat),
            k <= last,
            values@.len() == k,
            forall|x: int| 0 <= x < values@.len() ==> #[trigger] values@[x] == min + x * step,
        decreases last - k,
    {
        let value = grid_value(min, max, step, k);
        values.push(value);
        if k == last {
            return values;
        }
        k += 1;
    }
}

} // verus!
