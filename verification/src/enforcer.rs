//! The gradual memory enforcer and the swap-ceiling rule.
//!
//! Lowering a container's memory ceiling all at once would thrash or kill
//! the workload, so the enforcer walks the ceiling down: each round it
//! reads the container's current consumption and proposes nine tenths of
//! it, until the target is reached or passed or the round budget runs
//! out, and then writes the target itself.  Raising the ceiling takes a
//! single write.  Alongside `memory.max` the enforcer keeps `memory.high`
//! slightly below the ceiling to sustain reclaim pressure, and raises the
//! swap ceiling to a fixed 40 GiB, never lowering it.
//!
//! Everything here is decision logic on plain values; reading and writing
//! the control-group files, and the pause between rounds, happen in the
//! unverified agent around it.

use vstd::prelude::*;

verus! {

/// Rounds of gradual decrease before the target is written directly.
pub const ITER_MAX: u64 = 5;

/// Fraction kept per round of gradual decrease: nine tenths.
pub const EVICTION_PRESSURE_NUM: u64 = 9;

/// Fraction kept per round of gradual decrease: nine tenths.
pub const EVICTION_PRESSURE_DEN: u64 = 10;

/// Headroom subtracted from `memory.max` to obtain `memory.high`, in MB.
pub const EVICTION_PRESSURE_MB: u64 = 256;

/// The fixed swap ceiling, in MB (40 GiB).
pub const SWAP_CEILING_MB: u64 = 40960;

/// Nine tenths of a ceiling, rounded down.
pub open spec fn shrink_step_of(current: u64) -> u64 {
    (current as int * EVICTION_PRESSURE_NUM / (EVICTION_PRESSURE_DEN as int)) as u64
}

/// The `memory.high` watermark written alongside a `memory.max` of
/// `mem_mb`: 256 MB below the ceiling, but never below nine tenths of it.
pub open spec fn spec_high_watermark(mem_mb: u64) -> u64 {
    let headroom = if mem_mb > EVICTION_PRESSURE_MB {
        (mem_mb - EVICTION_PRESSURE_MB) as u64
    } else {
        0u64
    };
    if headroom > shrink_step_of(mem_mb) {
        headroom
    } else {
        shrink_step_of(mem_mb)
    }
}

/// The pair written for a ceiling of `mem_mb`: `(memory.max, memory.high)`.
pub open spec fn settings_for(mem_mb: u64) -> (u64, u64) {
    (mem_mb, spec_high_watermark(mem_mb))
}

/// Nine tenths of `current`, rounded down, as executable arithmetic.
pub fn shrink_step_value(current: u64) -> (r: u64)
    ensures
        r == shrink_step_of(current),
        r <= current,
{
    proof {
        lemma_shrink_step_bounds(current);
    }
    ((current as u128) * (EVICTION_PRESSURE_NUM as u128) / (EVICTION_PRESSURE_DEN as u128)) as u64
}

/// The nine-tenths step stays between nine tenths minus a rounding and
/// the full previous value.
pub proof fn lemma_shrink_step_bounds(current: u64)
    ensures
        9 * current - 9 <= 10 * shrink_step_of(current) <= 9 * current,
        shrink_step_of(current) <= current,
        current > 0 ==> shrink_step_of(current) < current,
{
    vstd::arithmetic::div_mod::lemma_remainder(9 * current, 10);
    assert(9 * current as int / 10 * 10 == 10 * (9 * current as int / 10)) by (nonlinear_arith);
    assert(current as int * 9 == 9 * current as int) by (nonlinear_arith);
}

/// The `memory.high` watermark written alongside a `memory.max` of
/// `mem_mb`.
pub fn high_watermark(mem_mb: u64) -> (r: u64)
    ensures
        r == spec_high_watermark(mem_mb),
{
    let headroom = if mem_mb > EVICTION_PRESSURE_MB {
        mem_mb - EVICTION_PRESSURE_MB
    } else {
        0
    };
    let pressured = shrink_step_value(mem_mb);
    if headroom > pressured {
        headroom
    } else {
        pressured
    }
}

/// What one round of gradual decrease decides, given the consumption
/// just read and the target ceiling.
#[derive(Clone, Copy, Debug, PartialEq, Eq, Structural)]
pub enum ShrinkStep {
    /// Consumption is already at or below the target: stop stepping.
    Reached,
    /// The next step would land below the target: stop stepping.
    Undershoot,
    /// Write this intermediate ceiling and continue.
    Step(u64),
}

/// One round of gradual decrease: nine tenths of the current consumption,
/// unless the target has been reached or would be passed.
pub fn shrink_step(current: u64, target: u64) -> (r: ShrinkStep)
    ensures
        current <= target ==> r == ShrinkStep::Reached,
        current > target && shrink_step_of(current) < target ==> r == ShrinkStep::Undershoot,
        current > target && shrink_step_of(current) >= target ==> r == ShrinkStep::Step(
            shrink_step_of(current),
        ),
{
    if current <= target {
        ShrinkStep::Reached
    } else {
        let next = shrink_step_value(current);
        if next < target {
            ShrinkStep::Undershoot
        } else {
            ShrinkStep::Step(next)
        }
    }
}

/// The intermediate ceilings written while walking down toward `target`,
/// one per reading answered, at most `fuel` of them.
pub open spec fn shrink_writes(readings: Seq<u64>, target: u64, fuel: nat) -> Seq<u64>
    decreases fuel,
{
    if fuel == 0 || readings.len() == 0 {
        Seq::empty()
    } else if readings[0] <= target {
        Seq::empty()
    } else if shrink_step_of(readings[0]) < target {
        Seq::empty()
    } else {
        seq![shrink_step_of(readings[0])] + shrink_writes(
            readings.drop_first(),
            target,
            (fuel - 1) as nat,
        )
    }
}

/// The full write sequence of one enforcer invocation: the reading taken
/// first decides between the single grow write and the gradual walk; the
/// later readings each answer one round of the walk; the target itself
/// is always written last.
pub open spec fn memory_limit_plan(readings: Seq<u64>, target: u64) -> Seq<(u64, u64)>
    recommends
        readings.len() > 0,
{
    if readings.len() == 0 || target >= readings[0] {
        seq![settings_for(target)]
    } else {
        shrink_writes(readings.drop_first(), target, ITER_MAX as nat).map_values(
            |m: u64| settings_for(m),
        ) + seq![settings_for(target)]
    }
}

/// Plan one enforcer invocation over the consumption readings that the
/// rounds will observe.  `readings[0]` is the reading that decides
/// between growing and shrinking; `readings[1..]` answer the rounds of
/// the gradual walk.
pub fn plan_memory_limit(readings: &Vec<u64>, target: u64) -> (w: Vec<(u64, u64)>)
    requires
        readings@.len() > ITER_MAX,
    ensures
        w@ == memory_limit_plan(readings@, target),
        1 <= w@.len() <= ITER_MAX + 1,
        w@[w@.len() - 1] == settings_for(target),
        target >= readings@[0] ==> w@.len() == 1,
{
    let mut w: Vec<(u64, u64)> = Vec::new();
    if target < readings[0] {
        let ghost tail = readings@.drop_first();
        proof {
            assert(tail.skip(0) =~= tail);
        }
        let mut i: usize = 1;
        while i < 1 + ITER_MAX as usize
            invariant
                readings@.len() > ITER_MAX,
                target < readings@[0],
                tail == readings@.drop_first(),
                1 <= i <= 1 + ITER_MAX,
                w@.len() == i - 1,
                w@.map_values(|p: (u64, u64)| p.0) + shrink_writes(
                    tail.skip(i - 1),
                    target,
                    (ITER_MAX + 1 - i) as nat,
                ) =~= shrink_writes(tail, target, ITER_MAX as nat),
                forall|k: int|
                    0 <= k < w@.len() ==> #[trigger] w@[k] == settings_for(
                        shrink_writes(tail, target, ITER_MAX as nat)[k],
                    ),
            ensures
                w@.len() == shrink_writes(tail, target, ITER_MAX as nat).len(),
                forall|k: int|
                    0 <= k < w@.len() ==> #[trigger] w@[k] == settings_for(
                        shrink_writes(tail, target, ITER_MAX as nat)[k],
                    ),
            decreases 1 + ITER_MAX - i,
        {
            let current = readings[i];
            proof {
                assert(tail.skip(i - 1)[0] == readings@[i as int]);
            }
            match shrink_step(current, target) {
                ShrinkStep::Reached => {
                    proof {
                        assert(shrink_writes(tail.skip(i - 1), target, (ITER_MAX + 1 - i) as nat)
                            =~= Seq::<u64>::empty());
                    }
                    break ;
                },
                ShrinkStep::Undershoot => {
                    proof {
                        assert(shrink_writes(tail.skip(i - 1), target, (ITER_MAX + 1 - i) as nat)
                            =~= Seq::<u64>::empty());
                    }
                    break ;
                },
                ShrinkStep::Step(next) => {
                    let high = high_watermark(next);
                    w.push((next, high));
                    proof {
                        assert(tail.skip(i - 1).drop_first() =~= tail.skip(i as int));
                    }
                },
            }
            i = i + 1;
        }
        proof {
            lemma_shrink_writes_len(tail, target, ITER_MAX as nat);
            assert(w@ =~= shrink_writes(tail, target, ITER_MAX as nat).map_values(
                |m: u64| settings_for(m),
            ));
        }
    }
    let high = high_watermark(target);
    w.push((target, high));
    proof {
        assert(w@ =~= memory_limit_plan(readings@, target));
    }
    w
}

/// At most `fuel` intermediate ceilings are written.
pub proof fn lemma_shrink_writes_len(readings: Seq<u64>, target: u64, fuel: nat)
    ensures
        shrink_writes(readings, target, fuel).len() <= fuel,
        shrink_writes(readings, target, fuel).len() <= readings.len(),
    decreases fuel,
{
    if fuel > 0 && readings.len() > 0 && readings[0] > target && shrink_step_of(readings[0])
        >= target {
        lemma_shrink_writes_len(readings.drop_first(), target, (fuel - 1) as nat)
    }
}

/// Gradual enforcement bound: an invocation writes at most `ITER_MAX + 1`
/// ceilings, the last one is the target itself, and each intermediate
/// ceiling answers the reading of its round with the nine-tenths step,
/// never landing below the target.
pub proof fn lemma_gradual_enforcement_bound(readings: Seq<u64>, target: u64)
    requires
        readings.len() > ITER_MAX,
    ensures
        1 <= memory_limit_plan(readings, target).len() <= ITER_MAX + 1,
        memory_limit_plan(readings, target).last() == settings_for(target),
        forall|i: int|
            0 <= i < memory_limit_plan(readings, target).len() - 1 ==> {
                &&& (#[trigger] memory_limit_plan(readings, target)[i]).0 == shrink_step_of(
                    readings[i + 1],
                )
                &&& memory_limit_plan(readings, target)[i].0 >= target
                &&& readings[i + 1] > target
                &&& memory_limit_plan(readings, target)[i].1 == spec_high_watermark(
                    memory_limit_plan(readings, target)[i].0,
                )
            },
{
    let plan = memory_limit_plan(readings, target);
    if target >= readings[0] {
    } else {
        let tail = readings.drop_first();
        lemma_shrink_writes_len(tail, target, ITER_MAX as nat);
        lemma_shrink_writes_steps(tail, target, ITER_MAX as nat);
        assert forall|i: int| 0 <= i < plan.len() - 1 implies {
            &&& (#[trigger] plan[i]).0 == shrink_step_of(readings[i + 1])
            &&& plan[i].0 >= target
            &&& readings[i + 1] > target
            &&& plan[i].1 == spec_high_watermark(plan[i].0)
        } by {
            assert(plan[i] == settings_for(shrink_writes(tail, target, ITER_MAX as nat)[i]));
            assert(tail[i] == readings[i + 1]);
        }
    }
}

/// Every intermediate ceiling is the nine-tenths step of the reading of
/// its round, and lies at or above the target.
proof fn lemma_shrink_writes_steps(readings: Seq<u64>, target: u64, fuel: nat)
    ensures
        forall|i: int|
            0 <= i < shrink_writes(readings, target, fuel).len() ==> {
                &&& #[trigger] shrink_writes(readings, target, fuel)[i] == shrink_step_of(
                    readings[i],
                )
                &&& shrink_writes(readings, target, fuel)[i] >= target
                &&& readings[i] > target
            },
    decreases fuel,
{
    if fuel > 0 && readings.len() > 0 && readings[0] > target && shrink_step_of(readings[0])
        >= target {
        lemma_shrink_writes_steps(readings.drop_first(), target, (fuel - 1) as nat);
        lemma_shrink_writes_len(readings.drop_first(), target, (fuel - 1) as nat);
        assert forall|i: int| 0 <= i < shrink_writes(readings, target, fuel).len() implies {
            &&& #[trigger] shrink_writes(readings, target, fuel)[i] == shrink_step_of(readings[i])
            &&& shrink_writes(readings, target, fuel)[i] >= target
            &&& readings[i] > target
        } by {
            if i > 0 {
                assert(shrink_writes(readings, target, fuel)[i] == shrink_writes(
                    readings.drop_first(),
                    target,
                    (fuel - 1) as nat,
                )[i - 1]);
                assert(readings.drop_first()[i - 1] == readings[i]);
            }
        }
    }
}

/// When the workload keeps its consumption pinned at the ceiling just
/// written, two consecutive intermediate ceilings stand in the exact
/// nine-tenths ratio, rounded down, and the walk strictly descends.
pub proof fn lemma_consecutive_step_factor(prev: u64, next: u64)
    requires
        next == shrink_step_of(prev),
        prev >= 1,
    ensures
        9 * prev - 9 <= 10 * next <= 9 * prev,
        next < prev,
{
    lemma_shrink_step_bounds(prev);
}

/// The swap ceiling to write, if any: raised to 40 GiB when below it,
/// untouched otherwise.
pub open spec fn spec_swap_ceiling_update(current_swap_mb: u64) -> Option<u64> {
    if current_swap_mb < SWAP_CEILING_MB {
        Some(SWAP_CEILING_MB)
    } else {
        None
    }
}

/// The swap ceiling after an enforcer invocation that read
/// `current_swap_mb` and wrote what `spec_swap_ceiling_update` decided.
pub open spec fn applied_swap_ceiling(current_swap_mb: u64, decision: Option<u64>) -> u64 {
    match decision {
        Some(v) => v,
        None => current_swap_mb,
    }
}

/// Decide whether to raise the swap ceiling.
pub fn swap_ceiling_update(current_swap_mb: u64) -> (r: Option<u64>)
    ensures
        r == spec_swap_ceiling_update(current_swap_mb),
{
    if current_swap_mb < SWAP_CEILING_MB {
        Some(SWAP_CEILING_MB)
    } else {
        None
    }
}

/// Swap ceiling monotonicity: no enforcer invocation lowers the swap
/// ceiling.
pub proof fn lemma_swap_ceiling_monotone(current_swap_mb: u64)
    ensures
        applied_swap_ceiling(current_swap_mb, spec_swap_ceiling_update(current_swap_mb))
            >= current_swap_mb,
{
}

} // verus!
