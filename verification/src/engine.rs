use vstd::prelude::*;

verus! {

/// What the fixed-rate update loop does next.
#[derive(Clone, Copy, PartialEq, Eq, Structural, Debug)]
pub enum FixedStep {
    /// The fixed updates have caught up with the clock.
    Done,
    /// Run one fixed update; if `swap`, it is the last one that is due, and
    /// its data is swapped with the frame updates before it runs.
    Run { swap: bool },
}

/// Time from `last` to `now`, zero if `last` is later.
pub open spec fn elapsed(now: u64, last: u64) -> int {
    if now >= last {
        now - last
    } else {
        0
    }
}

/// The number of fixed updates due at `now` when the last one ran at `last`.
pub open spec fn runs(now: u64, last: u64, step: u64) -> nat
    decreases elapsed(now, last),
{
    if step == 0 || elapsed(now, last) < step || last + step > u64::MAX {
        0
    } else {
        1 + runs(now, (last + step) as u64, step)
    }
}

/// One turn of the fixed-rate update loop at time `now`, where the last
/// fixed update was due at `last` and fixed updates are `step` apart: while a
/// whole step has passed, the next update becomes due `step` later and runs,
/// and the last of them first swaps its data with the frame updates. Returns
/// what to do and when the last update was due afterwards.
pub fn next_fixed_step(now: u64, last: u64, step: u64) -> (r: (FixedStep, u64))
    requires
        step > 0,
    ensures
        elapsed(now, last) < step ==> r == (FixedStep::Done, last),
        elapsed(now, last) >= step ==> {
            &&& r.1 == last + step
            &&& r.0 == FixedStep::Run { swap: elapsed(now, r.1) < step }
        },
{
    let passed = if now >= last {
        now - last
    } else {
        0
    };
    if passed < step {
        (FixedStep::Done, last)
    } else {
        let next = last + step;
        let rest = now - next;
        (FixedStep::Run { swap: rest < step }, next)
    }
}

/// The fixed updates due are the whole steps that have passed, and the one
/// that swaps is the last of them (law): from `last`, `elapsed / step`
/// updates run before the loop is done, and an update swaps exactly when no
/// other one is due after it.
pub proof fn law_fixed_steps(now: u64, last: u64, step: u64)
    requires
        step > 0,
    ensures
        runs(now, last, step) == elapsed(now, last) / (step as int),
        elapsed(now, last) >= step ==> (elapsed(now, (last + step) as u64) < step <==> runs(now, last, step)
            == 1),
    decreases elapsed(now, last),
{
    let e = elapsed(now, last);
    if e < step {
        vstd::arithmetic::div_mod::lemma_basic_div(e, step as int);
    } else {
        let next = (last + step) as u64;
        law_fixed_steps(now, next, step);
        assert(elapsed(now, next) == e - step);
        vstd::arithmetic::div_mod::lemma_div_plus_one(e - step, step as int);
        if elapsed(now, next) < step {
            vstd::arithmetic::div_mod::lemma_basic_div(e - step, step as int);
        } else {
            vstd::arithmetic::div_mod::lemma_div_plus_one(e - 2 * step, step as int);
            vstd::arithmetic::div_mod::lemma_div_pos_is_pos(e - 2 * step, step as int);
        }
    }
}

} // verus!
