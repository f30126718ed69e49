use vstd::prelude::*;

use crate::account::{accrual_time, accrued, touch_fits, touched, Account};
use crate::board::{count_owned, SetPixelRequest, TOTAL_NUM_PIXELS};
use crate::place::{displaced, drawn, resolved_index, slot_pixels, total_held, Place};

verus! {

/// Every cell is held by exactly one recorded account: over a well-formed ledger the cell
/// counts of all accounts add up to the number of cells. Every transition of `Place`
/// (`draw` among them) keeps the ledger well-formed, so this holds after any sequence of them.
pub proof fn lemma_conservation(p: Place)
    requires
        p.wf(),
    ensures
        total_held(p.accounts@) == TOTAL_NUM_PIXELS,
        p.board.owners@.len() == TOTAL_NUM_PIXELS,
{
}

/// Accruing twice with no time in between is the same as accruing once: the second step
/// adds nothing and changes nothing.
pub proof fn lemma_accrual_idempotent(a: Account, reward_rate: u128, ends: u64, now: u64)
    requires
        touch_fits(a, reward_rate, ends, now),
    ensures
        accrued(touched(a, reward_rate, ends, now), reward_rate, ends, now) == 0,
        touched(touched(a, reward_rate, ends, now), reward_rate, ends, now) == touched(
            a,
            reward_rate,
            ends,
            now,
        ),
{
}

/// After `elapsed` nanoseconds inside the campaign window, an account holding `c` cells at
/// rate `r` gains exactly `c * elapsed * r` yield, and its accrual time moves to that moment.
pub proof fn lemma_accrual_exact(a: Account, reward_rate: u128, ends: u64, now: u64, elapsed: u64)
    requires
        touch_fits(a, reward_rate, ends, now),
        elapsed > 0,
        a.claim_timestamp + elapsed == accrual_time(now, ends),
    ensures
        touched(a, reward_rate, ends, now).cheddar_balance == a.cheddar_balance + a.num_pixels
            * elapsed * reward_rate,
        touched(a, reward_rate, ends, now).claim_timestamp == a.claim_timestamp + elapsed,
        touched(a, reward_rate, ends, now).num_pixels == a.num_pixels,
{
}

/// A claim settles each displaced owner before its cells go: its yield grows by exactly what
/// it accrued on its cell count before the claim, and afterwards it holds just the cells that
/// the canvas still gives it.
pub proof fn lemma_displaced_settlement(
    old: Place,
    new: Place,
    caller: String,
    pixels: Seq<SetPixelRequest>,
    now: u64,
    i: int,
)
    requires
        old.wf(),
        new.wf(),
        drawn(old, new, caller, pixels, now),
        0 <= i < old.accounts@.len(),
        old.accounts@[i] is Some,
        i != resolved_index(old, caller@),
        displaced(old.board.owners@, pixels, pixels.len() as int, i),
        touch_fits(old.accounts@[i].unwrap(), old.reward_rate, old.ends, now),
    ensures
        new.accounts@[i] is Some,
        new.accounts@[i].unwrap().cheddar_balance == old.accounts@[i].unwrap().cheddar_balance
            + accrued(old.accounts@[i].unwrap(), old.reward_rate, old.ends, now),
        new.accounts@[i].unwrap().num_pixels == count_owned(new.board.owners@, i),
{
    assert(slot_pixels(new.accounts@[i]) == count_owned(new.board.owners@, i));
}

} // verus!
