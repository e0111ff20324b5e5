//! One axis of the motion filter: how much a missing bin may be forecast, and
//! how a forecast is paid back by the bins that arrive after it.
use crate::num::{self, magnitude64, sign64};
use vstd::prelude::*;

verus! {

/// Missing bins that a forecast covers.
pub const PREDICTION_TICKS: u32 = 2;

/// The magnitude of the largest displacement of one bin.
pub const FAR: i64 = 0x8000_0000;

/// `amount` in the direction of `along`, nothing where `along` is zero.
pub open spec fn directed(along: int, amount: int) -> int {
    if along < 0 {
        -amount
    } else if along > 0 {
        amount
    } else {
        0
    }
}

/// What the next bins are expected to move: in the direction of the last one,
/// and never further than it.
pub open spec fn desired(last: int, reach: int) -> int {
    directed(last, num::smaller(reach, num::magnitude(last)))
}

/// What is still to be forecast of `desired`, where `speculative` was emitted
/// already.
pub open spec fn budget(desired: int, speculative: int) -> int {
    if num::sign(desired) == num::sign(speculative) {
        directed(desired, num::larger(num::magnitude(desired) - num::magnitude(speculative), 0))
    } else {
        desired
    }
}

/// What is forecast in all after `ticks` missing bins: half of the budget, then
/// three quarters.
pub open spec fn target(budget: int, ticks: int) -> int {
    let whole = num::magnitude(budget);
    directed(
        budget,
        whole - whole / if ticks == 1 {
            2int
        } else {
            4int
        },
    )
}

/// What a real bin gives back of the forecast debt: at most half of the bin.
pub open spec fn repayment(debt: int, moved: int) -> int {
    if num::sign(debt) == num::sign(moved) {
        directed(debt, num::smaller(num::magnitude(debt), num::magnitude(moved) / 2))
    } else {
        0
    }
}

/// The debt after a real bin. A bin in the other direction ends it.
pub open spec fn debt_after(debt: int, moved: int) -> int {
    if num::sign(debt) == num::sign(moved) {
        debt - repayment(debt, moved)
    } else if moved != 0 {
        0
    } else {
        debt
    }
}

/// The debt without the part that was forecast and never emitted.
pub open spec fn debt_without(debt: int, unemitted: int) -> int {
    if num::sign(debt) == num::sign(unemitted) {
        debt - directed(debt, num::smaller(num::magnitude(debt), num::magnitude(unemitted)))
    } else {
        debt
    }
}

/// Between nothing and `whole`, in its direction.
pub open spec fn within(part: int, whole: int) -> bool {
    (0 <= part <= whole) || (whole <= part <= 0)
}

/// A forecast in progress: what was emitted, and what the whole budget would
/// have emitted, both stay within one bin.
pub open spec fn axis_wf(speculative: int, budget: int, predicted: int) -> bool {
    &&& -FAR <= budget < FAR
    &&& within(predicted, budget)
    &&& -FAR <= speculative - predicted <= FAR
    &&& -FAR <= speculative - predicted + budget <= FAR
}

fn directed64(along: i64, amount: i64) -> (r: i64)
    requires
        amount > i64::MIN,
    ensures
        r == directed(along as int, amount as int),
{
    if along < 0 {
        -amount
    } else if along > 0 {
        amount
    } else {
        0
    }
}

pub fn budget_for(last: i32, reach: u64, speculative: i64) -> (r: i64)
    requires
        -FAR <= speculative <= FAR,
    ensures
        r == budget(desired(last as int, reach as int), speculative as int),
        axis_wf(speculative as int, r as int, 0),
{
    let farthest: i64 = magnitude64(last as i64);
    let bounded: i64 = if reach < farthest as u64 {
        reach as i64
    } else {
        farthest
    };
    let wanted: i64 = directed64(last as i64, bounded);
    if sign64(wanted) == sign64(speculative) {
        let left: i64 = magnitude64(wanted) - magnitude64(speculative);
        if left > 0 {
            directed64(wanted, left)
        } else {
            0
        }
    } else {
        wanted
    }
}

pub fn target_of(whole: i64, ticks: u32) -> (r: i64)
    requires
        -FAR <= whole <= FAR,
    ensures
        r == target(whole as int, ticks as int),
        within(r as int, whole as int),
{
    let size: i64 = magnitude64(whole);
    let rest: i64 = if ticks == 1 {
        size / 2
    } else {
        size / 4
    };
    directed64(whole, size - rest)
}

pub fn repayment_of(debt: i64, moved: i64) -> (r: i64)
    requires
        -FAR <= debt <= FAR,
        -FAR <= moved < FAR,
    ensures
        r == repayment(debt as int, moved as int),
        within(r as int, moved as int),
        within(r as int, debt as int),
{
    if sign64(debt) == sign64(moved) {
        let half: i64 = magnitude64(moved) / 2;
        let owed: i64 = magnitude64(debt);
        directed64(
            debt,
            if owed < half {
                owed
            } else {
                half
            },
        )
    } else {
        0
    }
}

pub fn debt_left(debt: i64, moved: i64) -> (r: i64)
    requires
        -FAR <= debt <= FAR,
        -FAR <= moved < FAR,
    ensures
        r == debt_after(debt as int, moved as int),
        within(r as int, debt as int),
{
    if sign64(debt) == sign64(moved) {
        debt - repayment_of(debt, moved)
    } else if moved != 0 {
        0
    } else {
        debt
    }
}

pub fn debt_less(debt: i64, unemitted: i64) -> (r: i64)
    requires
        -FAR <= debt <= FAR,
        unemitted > i64::MIN,
    ensures
        r == debt_without(debt as int, unemitted as int),
        within(r as int, debt as int),
{
    if sign64(debt) == sign64(unemitted) {
        let owed: i64 = magnitude64(debt);
        let held: i64 = magnitude64(unemitted);
        debt - directed64(
            debt,
            if owed < held {
                owed
            } else {
                held
            },
        )
    } else {
        debt
    }
}

/// A forecast never goes further than the last real bin, nor against it, and
/// what was forecast before counts against it.
pub proof fn law_forecast_is_bounded(last: int, reach: int, speculative: int, ticks: int)
    requires
        reach >= 0,
        ticks >= 1,
    ensures
        within(target(budget(desired(last, reach), speculative), ticks), last),
        within(speculative, last) ==> within(
            speculative + target(budget(desired(last, reach), speculative), ticks),
            last,
        ),
{
}

/// The second missing bin adds to the first, and the forecast stops at three
/// quarters of its budget.
pub proof fn law_forecast_fades(budget: int, later: int)
    requires
        later >= PREDICTION_TICKS,
    ensures
        num::magnitude(target(budget, 1)) <= num::magnitude(target(budget, 2)),
        target(budget, later) == target(budget, 2),
        4 * num::magnitude(target(budget, later)) <= 3 * num::magnitude(budget) + 3,
{
}

/// A repayment never takes more than half of the bin that repays, and never
/// turns the debt around.
pub proof fn law_repayment_keeps_half_of_the_bin(debt: int, moved: int)
    ensures
        2 * num::magnitude(repayment(debt, moved)) <= num::magnitude(moved),
        within(repayment(debt, moved), moved),
        num::magnitude(debt_after(debt, moved)) <= num::magnitude(debt),
        within(debt_after(debt, moved), debt),
{
}

/// Forecasts to the left and up are those to the right and down, turned around.
pub proof fn law_forecasts_are_symmetric(a: int, b: int, reach: int, ticks: int)
    ensures
        desired(-a, reach) == -desired(a, reach),
        budget(-a, -b) == -budget(a, b),
        target(-a, ticks) == -target(a, ticks),
        repayment(-a, -b) == -repayment(a, b),
        debt_after(-a, -b) == -debt_after(a, b),
        debt_without(-a, -b) == -debt_without(a, b),
{
}

/// A forecast may go as far as the last bin went and as far as it may reach, less what was
/// forecast before in the same direction. The first missing bin forecasts half of that,
/// rounded up, the second all but a quarter.
pub proof fn law_forecasts_go_half_and_then_three_quarters(last: int, reach: int, ahead: int)
    requires
        last >= 0,
        reach >= 0,
    ensures
        reach >= last ==> desired(last, reach) == last,
        reach < last ==> desired(last, reach) == reach,
        0 < ahead <= last ==> budget(last, ahead) == last - ahead,
        ahead > last && last > 0 ==> budget(last, ahead) == 0,
        ahead <= 0 ==> budget(last, ahead) == last,
        2 * target(last, 1) == last || 2 * target(last, 1) == last + 1,
        3 * last <= 4 * target(last, 2) <= 3 * last + 3,
{
}

/// A bin in the direction of the debt repays with half of what it moves, as far as there is
/// debt. A bin in the other direction repays nothing and clears the debt, and one that does
/// not move leaves it. What was never sent is taken off the debt in full.
pub proof fn law_debts_are_repaid_by_halves(debt: int, moved: int)
    requires
        debt > 0,
    ensures
        moved > 0 && moved / 2 <= debt ==> repayment(debt, moved) == moved / 2 && debt_after(
            debt,
            moved,
        ) == debt - moved / 2,
        moved > 0 && moved / 2 > debt ==> repayment(debt, moved) == debt && debt_after(debt, moved)
            == 0,
        moved <= 0 ==> repayment(debt, moved) == 0,
        moved < 0 ==> debt_after(debt, moved) == 0,
        debt_after(debt, 0) == debt,
        0 < moved <= debt ==> debt_without(debt, moved) == debt - moved,
        moved > debt ==> debt_without(debt, moved) == 0,
        moved <= 0 ==> debt_without(debt, moved) == debt,
        repayment(0, moved) == 0,
        debt_after(0, moved) == 0,
        debt_without(0, moved) == 0,
{
}

} // verus!
