use vstd::prelude::*;

use crate::account::{
    accrued, milk_for_near, touch_fits, touched, Account, AccountIndex, Balance, DEFAULT_MILK_BALANCE,
    ONE_NEAR,
};
use crate::board::{
    count_owned, lemma_count_absent, lemma_count_le_len, lemma_count_pos, lemma_count_uniform,
    lemma_count_update, pixel_cell, valid_pixel, PixelBoard, SetPixelRequest, TOTAL_NUM_PIXELS,
};

verus! {

/// Nanoseconds in a second.
pub const FROM_NANO: u64 = 1_000_000_000;

/// Yield price of one draw token, in units of the draw-token price in native currency.
pub const MILK_CHEDAR_FACTOR: u128 = 120;

/// Smallest payment accepted for draw tokens (a tenth of a coin).
pub const MIN_PAYMENT: u128 = ONE_NEAR / 10;

/// Price per byte of storage.
pub const STORAGE_PRICE_PER_BYTE: Balance = 100_000_000_000_000_000_000;

/// Native currency always kept on the contract beyond what storage locks.
pub const SAFETY_BAR: Balance = 30 * ONE_NEAR;

/// Deposit attached to the first mint for an account: it pays the recipient's registration.
pub const FIRST_MINT_DEPOSIT: Balance = ONE_NEAR / 500;

/// Draw tokens that the admin grants with `milk`.
pub const ADMIN_MILK_GRANT: u128 = 7000;

/// Why a ledger transition was refused.
#[derive(Clone, Copy, PartialEq, Eq, Structural, Debug)]
pub enum LedgerError {
    AlreadyInitialized,
    NotAuthorized,
    NotActive,
    Blacklisted,
    InsufficientBalance,
    PaymentTooSmall,
    ZeroAmount,
    AccountNotFound,
    InvalidExternalSender,
    InvalidCell,
    Overflow,
}

/// The whole persisted state of the ledger. The identity and record maps are held here as
/// vectors indexed by account index; writing them to the host's key-value storage is the
/// host's part.
pub struct Place {
    /// identity under which each index was registered; the latest one wins
    pub account_ids: Vec<String>,
    /// record of each index; `None` once an empty account was dropped
    pub accounts: Vec<Option<Account>>,
    pub num_accounts: u32,
    pub board: PixelBoard,
    pub last_reward_timestamp: u64,
    /// running totals for statistics; they saturate instead of failing
    pub bought_milk: Balance,
    pub used_milk: Balance,
    pub farmed_cheddar: Balance,
    pub is_active: bool,
    pub admin: String,
    /// the yield-token contract: the only sender of deposits and the minter
    pub cheddar: String,
    pub treasury: String,
    /// this ledger's own identity; it owns every cell at the start
    pub contract_id: String,
    /// number of accounts whose first redemption was funded
    pub mint_funded: u32,
    /// yield per cell per nanosecond
    pub reward_rate: Balance,
    /// draw-token price in native currency
    pub milk_price: Balance,
    pub blacklist: Vec<String>,
    pub starts: u64,
    pub ends: u64,
}

/// What the host has to dispatch after a redemption: a mint of `amount` to `receiver`
/// with `deposit` attached, followed by `mint_callback(receiver, amount, ..)`.
#[derive(Debug)]
pub struct MintRequest {
    pub receiver: String,
    pub amount: Balance,
    pub deposit: Balance,
}

/// Read-only settings view.
#[derive(Clone, Copy, PartialEq, Eq, Structural, Debug)]
pub struct Settings {
    /// yield per cell per millisecond
    pub reward_rate: u128,
    pub milk_price: u128,
}

/// Read-only statistics view.
#[derive(Clone, Copy, PartialEq, Eq, Structural, Debug)]
pub struct Stats {
    pub bought_milk: u128,
    pub used_milk: u128,
    pub num_accounts: u32,
    pub reward_rate: u128,
    pub milk_price: u128,
    pub cheddar_milk_price: u128,
    pub starts_at: u64,
    pub ends_at: u64,
}

/// Account view with accrual applied.
#[derive(Debug)]
pub struct HumanAccount {
    pub account_id: String,
    pub account_index: AccountIndex,
    pub avocado_balance: u128,
    pub banana_balance: u128,
    pub num_pixels: u32,
}

impl From<Account> for HumanAccount {
    fn from(account: Account) -> (r: HumanAccount)
        ensures
            r == human_of(account),
    {
        HumanAccount {
            account_id: account.account_id,
            account_index: account.account_index,
            avocado_balance: account.milk_balance,
            banana_balance: account.cheddar_balance,
            num_pixels: account.num_pixels,
        }
    }
}

impl vstd::std_specs::convert::FromSpecImpl<Account> for HumanAccount {
    open spec fn obeys_from_spec() -> bool {
        true
    }

    open spec fn from_spec(v: Account) -> HumanAccount {
        human_of(v)
    }
}

pub open spec fn human_of(a: Account) -> HumanAccount {
    HumanAccount {
        account_id: a.account_id,
        account_index: a.account_index,
        avocado_balance: a.milk_balance,
        banana_balance: a.cheddar_balance,
        num_pixels: a.num_pixels,
    }
}

pub open spec fn slot_pixels(s: Option<Account>) -> nat {
    match s {
        Some(a) => a.num_pixels as nat,
        None => 0,
    }
}

/// Cells held over all recorded accounts.
pub open spec fn total_held(s: Seq<Option<Account>>) -> nat
    decreases s.len(),
{
    if s.len() == 0 {
        0
    } else {
        total_held(s.drop_last()) + slot_pixels(s.last())
    }
}

pub open spec fn slot_cheddar(s: Option<Account>) -> nat {
    match s {
        Some(a) => a.cheddar_balance as nat,
        None => 0,
    }
}

/// Yield held over all recorded accounts.
pub open spec fn total_cheddar(s: Seq<Option<Account>>) -> nat
    decreases s.len(),
{
    if s.len() == 0 {
        0
    } else {
        total_cheddar(s.drop_last()) + slot_cheddar(s.last())
    }
}

/// The colours of the canvas after the first `n` requests of `pixels` painted their cells in turn.
pub open spec fn painted(colors: Seq<u32>, pixels: Seq<SetPixelRequest>, n: int) -> Seq<u32>
    decreases n,
{
    if n <= 0 {
        colors
    } else {
        painted(colors, pixels, n - 1).update(pixel_cell(pixels[n - 1]), pixels[n - 1].color)
    }
}

pub proof fn lemma_cheddar_update(s: Seq<Option<Account>>, k: int, x: Option<Account>)
    requires
        0 <= k < s.len(),
    ensures
        total_cheddar(s.update(k, x)) + slot_cheddar(s[k]) == total_cheddar(s) + slot_cheddar(x),
    decreases s.len(),
{
    let t = s.update(k, x);
    if k == s.len() - 1 {
        assert(t.drop_last() =~= s.drop_last());
    } else {
        assert(t.drop_last() =~= s.drop_last().update(k, x));
        lemma_cheddar_update(s.drop_last(), k, x);
    }
}

pub proof fn lemma_cheddar_push(s: Seq<Option<Account>>, x: Option<Account>)
    ensures
        total_cheddar(s.push(x)) == total_cheddar(s) + slot_cheddar(x),
{
    assert(s.push(x).drop_last() =~= s);
}

/// Every cell belongs to a recorded account, each account's count of cells is what the
/// canvas shows, and the counts add up to the number of cells.
pub open spec fn board_consistent(accounts: Seq<Option<Account>>, owners: Seq<u32>) -> bool {
    &&& forall|c: int|
        0 <= c < owners.len() ==> #[trigger] owners[c] < accounts.len() && accounts[owners[c] as int]
            is Some
    &&& forall|i: int|
        0 <= i < accounts.len() ==> #[trigger] slot_pixels(accounts[i]) == count_owned(owners, i)
    &&& total_held(accounts) == owners.len()
}

/// Latest index registered under identity `id`, or -1.
pub open spec fn index_of(ids: Seq<String>, id: Seq<char>) -> int
    decreases ids.len(),
{
    if ids.len() == 0 {
        -1
    } else if ids.last()@ == id {
        ids.len() - 1
    } else {
        index_of(ids.drop_last(), id)
    }
}

/// The record stored for identity `id`, if any.
pub open spec fn stored(p: Place, id: Seq<char>) -> Option<Account> {
    let i = index_of(p.account_ids@, id);
    if 0 <= i < p.accounts@.len() {
        p.accounts@[i]
    } else {
        None
    }
}

/// Index that `id` has after being resolved and persisted.
pub open spec fn resolved_index(p: Place, id: Seq<char>) -> int {
    if stored(p, id) is Some {
        index_of(p.account_ids@, id)
    } else {
        p.accounts@.len() as int
    }
}

/// The account of `id` as resolved at time `now`, before accrual: the stored record or a fresh one.
pub open spec fn resolved(p: Place, id: String, now: u64) -> Account {
    match stored(p, id@) {
        Some(a) => a,
        None => Account {
            account_id: id,
            account_index: p.accounts@.len() as u32,
            milk_balance: DEFAULT_MILK_BALANCE as u128,
            cheddar_balance: 0,
            num_pixels: 0,
            claim_timestamp: now,
            mint_funded: false,
        },
    }
}

/// Resolving `id` needs no new index, or one is still free.
pub open spec fn can_register(p: Place, id: Seq<char>) -> bool {
    stored(p, id) is Some || p.accounts@.len() < u32::MAX
}

/// Accrual of `a` under the ledger's rate and window at time `now`.
pub open spec fn place_touched(p: Place, a: Account, now: u64) -> Account {
    touched(a, p.reward_rate, p.ends, now)
}

pub open spec fn saturating_add(a: u128, b: int) -> u128 {
    if a + b > u128::MAX {
        u128::MAX
    } else {
        (a + b) as u128
    }
}

/// The settings that only the admin changes.
pub open spec fn same_config(a: Place, b: Place) -> bool {
    &&& a.is_active == b.is_active
    &&& a.admin == b.admin
    &&& a.cheddar == b.cheddar
    &&& a.treasury == b.treasury
    &&& a.contract_id == b.contract_id
    &&& a.reward_rate == b.reward_rate
    &&& a.milk_price == b.milk_price
    &&& a.blacklist@ == b.blacklist@
    &&& a.starts == b.starts
    &&& a.ends == b.ends
    &&& a.last_reward_timestamp == b.last_reward_timestamp
}

/// Campaign is switched on and `now` lies in its window.
pub open spec fn active_at(p: Place, now: u64) -> bool {
    p.is_active && p.starts <= now && now <= p.ends
}

pub open spec fn blacklisted(p: Place, id: Seq<char>) -> bool {
    listed(p.blacklist@, p.blacklist@.len() as int, id)
}

/// One of the first `n` entries of `v` is `id`.
pub open spec fn listed(v: Seq<String>, n: int, id: Seq<char>) -> bool {
    exists|k: int| 0 <= k < n && #[trigger] v[k]@ == id
}

/// `b` is `a` with another cell count.
pub open spec fn same_but_pixels(a: Account, b: Account) -> bool {
    b == Account { num_pixels: b.num_pixels, ..a }
}

/// One of the first `n` requests of `pixels` is for a cell that `owners` gives to account `i`.
pub open spec fn displaced(owners: Seq<u32>, pixels: Seq<SetPixelRequest>, n: int, i: int) -> bool {
    exists|j: int| 0 <= j < n && #[trigger] owners[pixel_cell(pixels[j])] == i
}

/// One of the first `n` requests of `pixels` is for cell `c`.
pub open spec fn claimed(pixels: Seq<SetPixelRequest>, n: int, c: int) -> bool {
    exists|j: int| 0 <= j < n && #[trigger] pixel_cell(pixels[j]) == c
}

pub open spec fn all_valid(pixels: Seq<SetPixelRequest>) -> bool {
    forall|j: int| 0 <= j < pixels.len() ==> valid_pixel(#[trigger] pixels[j])
}

/// Every account that loses a cell to `caller` can accrue.
pub open spec fn displaced_fit(p: Place, pixels: Seq<SetPixelRequest>, caller: int, now: u64) -> bool {
    forall|j: int|
        0 <= j < pixels.len() ==> {
            let o = p.board.owners@[pixel_cell(#[trigger] pixels[j])] as int;
            o == caller || touch_fits(p.accounts@[o].unwrap(), p.reward_rate, p.ends, now)
        }
}

pub proof fn lemma_total_update(s: Seq<Option<Account>>, k: int, x: Option<Account>)
    requires
        0 <= k < s.len(),
    ensures
        total_held(s.update(k, x)) + slot_pixels(s[k]) == total_held(s) + slot_pixels(x),
    decreases s.len(),
{
    let t = s.update(k, x);
    if k == s.len() - 1 {
        assert(t.drop_last() =~= s.drop_last());
    } else {
        assert(t.drop_last() =~= s.drop_last().update(k, x));
        lemma_total_update(s.drop_last(), k, x);
    }
}

pub proof fn lemma_total_push(s: Seq<Option<Account>>, x: Option<Account>)
    ensures
        total_held(s.push(x)) == total_held(s) + slot_pixels(x),
{
    assert(s.push(x).drop_last() =~= s);
}

proof fn lemma_index_of_bounds(ids: Seq<String>, id: Seq<char>)
    ensures
        -1 <= index_of(ids, id) < ids.len(),
        index_of(ids, id) >= 0 ==> ids[index_of(ids, id)]@ == id,
        index_of(ids, id) == -1 ==> forall|k: int| 0 <= k < ids.len() ==> ids[k]@ != id,
        forall|k: int| index_of(ids, id) < k < ids.len() ==> ids[k]@ != id,
    decreases ids.len(),
{
    if ids.len() > 0 {
        let d = ids.drop_last();
        lemma_index_of_bounds(d, id);
        assert(forall|k: int| 0 <= k < d.len() ==> d[k] == ids[k]);
    }
}

proof fn lemma_index_of_push(ids: Seq<String>, s: String, id: Seq<char>)
    ensures
        index_of(ids.push(s), id) == if s@ == id {
            ids.len() as int
        } else {
            index_of(ids, id)
        },
{
    assert(ids.push(s).drop_last() =~= ids);
}

impl Place {
    pub open spec fn wf(&self) -> bool {
        &&& self.accounts@.len() == self.account_ids@.len()
        &&& self.accounts@.len() == self.num_accounts
        &&& self.board.wf()
        &&& board_consistent(self.accounts@, self.board.owners@)
        &&& forall|i: int|
            0 <= i < self.accounts@.len() && #[trigger] self.accounts@[i] is Some ==> {
                &&& self.accounts@[i].unwrap().account_index == i
                &&& self.accounts@[i].unwrap().account_id == self.account_ids@[i]
            }
        &&& self.milk_price > 0
    }

    /// Index at which `account_id` is recorded, if its record is stored.
    pub fn find_index(&self, account_id: &String) -> (r: Option<usize>)
        requires
            self.wf(),
        ensures
            stored(*self, account_id@) is Some ==> r == Some(
                index_of(self.account_ids@, account_id@) as usize,
            ),
            stored(*self, account_id@) is None ==> r is None,
    {
        proof {
            lemma_index_of_bounds(self.account_ids@, account_id@);
        }
        let mut i: usize = self.account_ids.len();
        while i > 0
            invariant
                self.wf(),
                i <= self.account_ids@.len(),
                forall|k: int| i <= k < self.account_ids@.len() ==> self.account_ids@[k]@ != account_id@,
                -1 <= index_of(self.account_ids@, account_id@) < self.account_ids@.len(),
                index_of(self.account_ids@, account_id@) >= 0 ==> self.account_ids@[index_of(
                    self.account_ids@,
                    account_id@,
                )]@ == account_id@,
                index_of(self.account_ids@, account_id@) == -1 ==> forall|k: int|
                    0 <= k < self.account_ids@.len() ==> self.account_ids@[k]@ != account_id@,
                forall|k: int|
                    index_of(self.account_ids@, account_id@) < k < self.account_ids@.len()
                        ==> self.account_ids@[k]@ != account_id@,
            decreases i,
        {
            i = i - 1;
            if self.account_ids[i] == *account_id {
                assert(index_of(self.account_ids@, account_id@) == i);
                if self.accounts[i].is_some() {
                    return Some(i);
                } else {
                    return None;
                }
            }
        }
        None
    }

    /// The stored record of `account_id`, without accrual.
    pub fn get_internal_account_by_id(&self, account_id: &String) -> (r: Option<&Account>)
        requires
            self.wf(),
        ensures
            r matches Some(a) ==> stored(*self, account_id@) == Some(*a),
            r is None ==> stored(*self, account_id@) is None,
    {
        match self.find_index(account_id) {
            Some(i) => self.accounts[i].as_ref(),
            None => None,
        }
    }

    /// The record at `account_index`, without accrual.
    pub fn get_internal_account_by_index(&self, account_index: AccountIndex) -> (r: Option<&Account>)
        requires
            self.wf(),
        ensures
            account_index < self.accounts@.len() && self.accounts@[account_index as int] is Some
                ==> r == Some(&self.accounts@[account_index as int].unwrap()),
            !(account_index < self.accounts@.len() && self.accounts@[account_index as int] is Some)
                ==> r is None,
    {
        if (account_index as usize) < self.accounts.len() {
            self.accounts[account_index as usize].as_ref()
        } else {
            None
        }
    }
}

impl Place {
    /// Campaign is switched on and `now` lies in its window.
    pub fn assert_active(&self, now: u64) -> (r: bool)
        ensures
            r == active_at(*self, now),
    {
        self.is_active && self.starts <= now && now <= self.ends
    }

    /// Accrues the stored account at `i` up to `now` and adds the yield to the farmed total.
    fn touch_slot(&mut self, i: usize, now: u64)
        requires
            old(self).wf(),
            i < old(self).accounts@.len(),
            old(self).accounts@[i as int] is Some,
            touch_fits(old(self).accounts@[i as int].unwrap(), old(self).reward_rate, old(self).ends, now),
        ensures
            final(self).wf(),
            final(self).accounts@ == old(self).accounts@.update(
                i as int,
                Some(place_touched(*old(self), old(self).accounts@[i as int].unwrap(), now)),
            ),
            final(self).farmed_cheddar == saturating_add(
                old(self).farmed_cheddar,
                accrued(old(self).accounts@[i as int].unwrap(), old(self).reward_rate, old(self).ends, now),
            ),
            total_cheddar(final(self).accounts@) == total_cheddar(old(self).accounts@) + accrued(
                old(self).accounts@[i as int].unwrap(),
                old(self).reward_rate,
                old(self).ends,
                now,
            ),
            final(self).account_ids@ == old(self).account_ids@,
            final(self).num_accounts == old(self).num_accounts,
            final(self).board == old(self).board,
            same_config(*old(self), *final(self)),
            final(self).bought_milk == old(self).bought_milk,
            final(self).used_milk == old(self).used_milk,
            final(self).mint_funded == old(self).mint_funded,
    {
        let rate = self.reward_rate;
        let ends = self.ends;
        let mut farmed: u128 = 0;
        match &mut self.accounts[i] {
            Some(a) => {
                match a.touch(rate, ends, now) {
                    Some(f) => {
                        farmed = f;
                    },
                    None => {},
                }
            },
            None => {},
        }
        self.farmed_cheddar = self.farmed_cheddar.saturating_add(farmed);
        proof {
            let s0 = old(self).accounts@;
            let s1 = self.accounts@;
            lemma_total_update(s0, i as int, s1[i as int]);
            lemma_cheddar_update(s0, i as int, s1[i as int]);
            assert(forall|k: int| 0 <= k < s1.len() ==> slot_pixels(s1[k]) == slot_pixels(s0[k]));
            assert(forall|k: int| 0 <= k < s1.len() ==> (s1[k] is Some) == (s0[k] is Some));
        }
    }

    /// Resolves `account_id` (its stored record, or a fresh one at the next index) and accrues
    /// it up to `now`, adding the accrual to the farmed total. Nothing is stored: the caller
    /// persists the account with `save_account`.
    pub fn get_mut_account(&mut self, account_id: &String, now: u64) -> (r: Result<Account, LedgerError>)
        requires
            old(self).wf(),
        ensures
            final(self).wf(),
            !can_register(*old(self), account_id@) || !touch_fits(
                resolved(*old(self), *account_id, now),
                old(self).reward_rate,
                old(self).ends,
                now,
            ) ==> r == Err::<Account, LedgerError>(LedgerError::Overflow) && *final(self) == *old(self),
            can_register(*old(self), account_id@) && touch_fits(
                resolved(*old(self), *account_id, now),
                old(self).reward_rate,
                old(self).ends,
                now,
            ) ==> r == Ok::<Account, LedgerError>(
                place_touched(*old(self), resolved(*old(self), *account_id, now), now),
            ) && *final(self) == (Place {
                farmed_cheddar: saturating_add(
                    old(self).farmed_cheddar,
                    accrued(resolved(*old(self), *account_id, now), old(self).reward_rate, old(self).ends, now),
                ),
                ..*old(self)
            }),
    {
        let (_i, mut a) = match self.resolve(account_id, now) {
            Ok(x) => x,
            Err(e) => return Err(e),
        };
        let farmed = match a.touch(self.reward_rate, self.ends, now) {
            Some(f) => f,
            None => return Err(LedgerError::Overflow),
        };
        self.farmed_cheddar = self.farmed_cheddar.saturating_add(farmed);
        Ok(a)
    }
}

/// `new` is `old` after `id` was resolved, accrued at `now` and persisted.
pub open spec fn registered(old: Place, new: Place, id: String, now: u64) -> bool {
    let i = resolved_index(old, id@);
    let a = resolved(old, id, now);
    &&& new.accounts@.len() == (if stored(old, id@) is Some {
        old.accounts@.len() as int
    } else {
        old.accounts@.len() + 1int
    })
    &&& new.account_ids@ == (if stored(old, id@) is Some {
        old.account_ids@
    } else {
        old.account_ids@.push(id)
    })
    &&& new.accounts@[i] == Some(place_touched(old, a, now))
    &&& forall|k: int| 0 <= k < old.accounts@.len() && k != i ==> new.accounts@[k] == old.accounts@[k]
    &&& new.farmed_cheddar == saturating_add(
        old.farmed_cheddar,
        accrued(a, old.reward_rate, old.ends, now),
    )
    &&& new.board == old.board
    &&& same_config(old, new)
    &&& new.bought_milk == old.bought_milk
    &&& new.used_milk == old.used_milk
    &&& new.mint_funded == old.mint_funded
}

/// `new` is `old` after `caller` claimed every cell that `pixels` asks for, at time `now`.
/// The only yield that changes is what the caller and the displaced owners accrue, and the
/// farmed total grows by exactly that.
pub open spec fn drawn(old: Place, new: Place, caller: String, pixels: Seq<SetPixelRequest>, now: u64) -> bool {
    let ci = resolved_index(old, caller@);
    let a = place_touched(old, resolved(old, caller, now), now);
    let n = pixels.len() as int;
    &&& same_config(old, new)
    &&& new.account_ids@ == (if stored(old, caller@) is Some {
        old.account_ids@
    } else {
        old.account_ids@.push(caller)
    })
    &&& forall|c: int|
        0 <= c < TOTAL_NUM_PIXELS ==> #[trigger] new.board.owners@[c] == (if claimed(pixels, n, c) {
            ci as u32
        } else {
            old.board.owners@[c]
        })
    &&& new.accounts@[ci] is Some
    &&& same_but_pixels(
        Account { milk_balance: (a.milk_balance - n) as u128, ..a },
        new.accounts@[ci].unwrap(),
    )
    &&& forall|i: int|
        0 <= i < old.accounts@.len() && i != ci ==> if displaced(old.board.owners@, pixels, n, i) {
            &&& new.accounts@[i] is Some
            &&& same_but_pixels(
                place_touched(old, old.accounts@[i].unwrap(), now),
                new.accounts@[i].unwrap(),
            )
        } else {
            #[trigger] new.accounts@[i] == old.accounts@[i]
        }
    &&& new.board.colors@ == painted(old.board.colors@, pixels, n)
    &&& new.used_milk == saturating_add(old.used_milk, n)
    &&& new.farmed_cheddar == saturating_add(
        old.farmed_cheddar,
        total_cheddar(new.accounts@) - total_cheddar(old.accounts@),
    )
    &&& new.bought_milk == old.bought_milk
    &&& new.mint_funded == old.mint_funded
}

impl Place {
    /// Gives the cell that `p` claims, held by another account, to account `ci`, moving one
    /// cell from the count of its previous owner to the count of `ci`.
    fn transfer_pixel(&mut self, p: &SetPixelRequest, ci: usize)
        requires
            old(self).wf(),
            valid_pixel(*p),
            ci < old(self).accounts@.len(),
            old(self).accounts@[ci as int] is Some,
            old(self).board.owners@[pixel_cell(*p)] != ci,
        ensures
            final(self).wf(),
            final(self).board.owners@ == old(self).board.owners@.update(pixel_cell(*p), ci as u32),
            final(self).board.colors@ == old(self).board.colors@.update(pixel_cell(*p), p.color),
            total_cheddar(final(self).accounts@) == total_cheddar(old(self).accounts@),
            ({
                let o = old(self).board.owners@[pixel_cell(*p)] as int;
                let a = old(self).accounts@[o].unwrap();
                let b = old(self).accounts@[ci as int].unwrap();
                final(self).accounts@ == old(self).accounts@.update(
                    o,
                    Some(Account { num_pixels: (a.num_pixels - 1) as u32, ..a }),
                ).update(ci as int, Some(Account { num_pixels: (b.num_pixels + 1) as u32, ..b }))
            }),
            final(self).account_ids@ == old(self).account_ids@,
            final(self).num_accounts == old(self).num_accounts,
            same_config(*old(self), *final(self)),
            final(self).farmed_cheddar == old(self).farmed_cheddar,
            final(self).bought_milk == old(self).bought_milk,
            final(self).used_milk == old(self).used_milk,
            final(self).mint_funded == old(self).mint_funded,
    {
        let ghost c = pixel_cell(*p);
        let ghost s0 = self.board.owners@;
        let o = self.board.set_pixel(ci as u32, p);
        proof {
            lemma_count_pos(s0, c);
            lemma_count_le_len(self.board.owners@, ci as int);
            lemma_count_update(s0, c, ci as u32, ci as int);
            assert(slot_pixels(self.accounts@[o as int]) == count_owned(s0, o as int));
            assert(slot_pixels(self.accounts@[ci as int]) == count_owned(s0, ci as int));
        }
        let ghost a0 = self.accounts@;
        match &mut self.accounts[o as usize] {
            Some(a) => {
                a.num_pixels = a.num_pixels - 1;
            },
            None => {},
        }
        let ghost a1 = self.accounts@;
        match &mut self.accounts[ci] {
            Some(a) => {
                a.num_pixels = a.num_pixels + 1;
            },
            None => {},
        }
        proof {
            let a2 = self.accounts@;
            let s1 = self.board.owners@;
            lemma_total_update(a0, o as int, a1[o as int]);
            lemma_total_update(a1, ci as int, a2[ci as int]);
            lemma_cheddar_update(a0, o as int, a1[o as int]);
            lemma_cheddar_update(a1, ci as int, a2[ci as int]);
            assert forall|i: int| 0 <= i < a2.len() implies #[trigger] slot_pixels(a2[i]) == count_owned(
                s1,
                i,
            ) by {
                lemma_count_update(s0, c, ci as u32, i);
            }
            assert forall|k: int| 0 <= k < s1.len() implies #[trigger] s1[k] < a2.len() && a2[s1[k] as int]
                is Some by {
                assert(s0[k] < a0.len() && a0[s0[k] as int] is Some);
            }
            assert forall|i: int| 0 <= i < a2.len() && #[trigger] a2[i] is Some implies {
                &&& a2[i].unwrap().account_index == i
                &&& a2[i].unwrap().account_id == self.account_ids@[i]
            } by {
                assert(a0[i] is Some);
            }
        }
    }

    /// Claims every cell of `pixels` for `caller` at time `now`, charging one draw token per
    /// request; each previous owner accrues before losing its cells.
    /// A refused claim leaves the ledger as it was.
    pub fn draw(&mut self, caller: &String, pixels: &Vec<SetPixelRequest>, now: u64) -> (r: Result<
        (),
        LedgerError,
    >)
        requires
            old(self).wf(),
        ensures
            final(self).wf(),
            !active_at(*old(self), now) ==> r == Err::<(), LedgerError>(LedgerError::NotActive)
                && *final(self) == *old(self),
            active_at(*old(self), now) && pixels@.len() == 0 ==> r == Ok::<(), LedgerError>(())
                && *final(self) == *old(self),
            active_at(*old(self), now) && pixels@.len() > 0 && !all_valid(pixels@) ==> r == Err::<
                (),
                LedgerError,
            >(LedgerError::InvalidCell) && *final(self) == *old(self),
            active_at(*old(self), now) && pixels@.len() > 0 && all_valid(pixels@) && (!can_register(
                *old(self),
                caller@,
            ) || !touch_fits(resolved(*old(self), *caller, now), old(self).reward_rate, old(self).ends, now))
                ==> r == Err::<(), LedgerError>(LedgerError::Overflow) && *final(self) == *old(self),
            active_at(*old(self), now) && pixels@.len() > 0 && all_valid(pixels@) && can_register(
                *old(self),
                caller@,
            ) && touch_fits(resolved(*old(self), *caller, now), old(self).reward_rate, old(self).ends, now)
                ==> {
                let milk = resolved(*old(self), *caller, now).milk_balance;
                let ci = resolved_index(*old(self), caller@);
                &&& milk < pixels@.len() ==> r == Err::<(), LedgerError>(LedgerError::InsufficientBalance)
                    && *final(self) == *old(self)
                &&& milk >= pixels@.len() && !displaced_fit(*old(self), pixels@, ci, now) ==> r == Err::<
                    (),
                    LedgerError,
                >(LedgerError::Overflow) && *final(self) == *old(self)
                &&& milk >= pixels@.len() && displaced_fit(*old(self), pixels@, ci, now) ==> r == Ok::<
                    (),
                    LedgerError,
                >(()) && drawn(*old(self), *final(self), *caller, pixels@, now)
            },
    {
        if !self.assert_active(now) {
            return Err(LedgerError::NotActive);
        }
        if pixels.len() == 0 {
            return Ok(());
        }
        let mut j: usize = 0;
        while j < pixels.len()
            invariant
                self.wf(),
                *self == *old(self),
                active_at(*old(self), now),
                pixels@.len() > 0,
                j <= pixels@.len(),
                forall|jj: int| 0 <= jj < j ==> valid_pixel(#[trigger] pixels@[jj]),
            decreases pixels@.len() - j,
        {
            if !PixelBoard::is_valid_pixel(&pixels[j]) {
                return Err(LedgerError::InvalidCell);
            }
            j = j + 1;
        }
        let found = self.find_index(caller);
        if found.is_none() && self.accounts.len() >= u32::MAX as usize {
            return Err(LedgerError::Overflow);
        }
        let ci: usize = match found {
            Some(i) => i,
            None => self.accounts.len(),
        };
        let milk: u128 = match found {
            Some(i) => match &self.accounts[i] {
                Some(a) => {
                    if a.farmable(self.reward_rate, self.ends, now).is_none() {
                        return Err(LedgerError::Overflow);
                    }
                    a.milk_balance
                },
                None => 0,
            },
            None => DEFAULT_MILK_BALANCE as u128,
        };
        let n = pixels.len() as u128;
        if milk < n {
            return Err(LedgerError::InsufficientBalance);
        }
        j = 0;
        while j < pixels.len()
            invariant
                self.wf(),
                *self == *old(self),
                all_valid(pixels@),
                active_at(*old(self), now),
                pixels@.len() > 0,
                can_register(*old(self), caller@),
                touch_fits(resolved(*old(self), *caller, now), old(self).reward_rate, old(self).ends, now),
                milk == resolved(*old(self), *caller, now).milk_balance,
                milk >= pixels@.len(),
                n == pixels@.len(),
                j <= pixels@.len(),
                ci == resolved_index(*old(self), caller@),
                forall|jj: int|
                    0 <= jj < j ==> {
                        let o = self.board.owners@[pixel_cell(#[trigger] pixels@[jj])] as int;
                        o == ci || touch_fits(self.accounts@[o].unwrap(), self.reward_rate, self.ends, now)
                    },
            decreases pixels@.len() - j,
        {
            let o = self.board.get_owner(&pixels[j]);
            if o as usize != ci {
                match &self.accounts[o as usize] {
                    Some(a) => {
                        if a.farmable(self.reward_rate, self.ends, now).is_none() {
                            assert(!touch_fits(
                                self.accounts@[self.board.owners@[pixel_cell(pixels@[j as int])] as int].unwrap(),
                                self.reward_rate,
                                self.ends,
                                now,
                            ));
                            return Err(LedgerError::Overflow);
                        }
                    },
                    None => {},
                }
            }
            j = j + 1;
        }
        assert(displaced_fit(*old(self), pixels@, ci as int, now));
        let mut account = match self.get_mut_account(caller, now) {
            Ok(a) => a,
            Err(e) => return Err(e),
        };
        account.milk_balance = account.milk_balance - n;
        proof {
            lemma_index_of_bounds(old(self).account_ids@, caller@);
        }
        let ghost registered_at = self.accounts@;
        self.save_account(caller, account);
        self.used_milk = self.used_milk.saturating_add(n);
        proof {
            let s0 = old(self).accounts@;
            if stored(*old(self), caller@) is Some {
                lemma_cheddar_update(s0, ci as int, Some(account));
            } else {
                lemma_cheddar_push(s0, Some(account));
            }
            assert(total_cheddar(self.accounts@) == total_cheddar(s0) + accrued(
                resolved(*old(self), *caller, now),
                old(self).reward_rate,
                old(self).ends,
                now,
            ));
        }
        let ghost mid = *self;
        let mut k: usize = 0;
        while k < pixels.len()
            invariant
                self.wf(),
                mid.wf(),
                all_valid(pixels@),
                k <= pixels@.len(),
                ci < mid.accounts@.len(),
                mid.accounts@[ci as int] is Some,
                self.accounts@.len() == mid.accounts@.len(),
                self.account_ids@ == mid.account_ids@,
                same_config(mid, *self),
                self.used_milk == mid.used_milk,
                self.bought_milk == mid.bought_milk,
                self.mint_funded == mid.mint_funded,
                self.farmed_cheddar == saturating_add(
                    mid.farmed_cheddar,
                    total_cheddar(self.accounts@) - total_cheddar(mid.accounts@),
                ),
                total_cheddar(self.accounts@) >= total_cheddar(mid.accounts@),
                self.board.colors@ == painted(mid.board.colors@, pixels@, k as int),
                displaced_fit(mid, pixels@, ci as int, now),
                forall|c: int|
                    0 <= c < TOTAL_NUM_PIXELS ==> #[trigger] self.board.owners@[c] == (if claimed(
                        pixels@,
                        k as int,
                        c,
                    ) {
                        ci as u32
                    } else {
                        mid.board.owners@[c]
                    }),
                self.accounts@[ci as int] is Some,
                same_but_pixels(mid.accounts@[ci as int].unwrap(), self.accounts@[ci as int].unwrap()),
                forall|i: int|
                    0 <= i < mid.accounts@.len() && i != ci ==> if displaced(
                        mid.board.owners@,
                        pixels@,
                        k as int,
                        i,
                    ) {
                        &&& self.accounts@[i] is Some
                        &&& same_but_pixels(
                            place_touched(mid, mid.accounts@[i].unwrap(), now),
                            self.accounts@[i].unwrap(),
                        )
                    } else {
                        #[trigger] self.accounts@[i] == mid.accounts@[i]
                    },
            decreases pixels@.len() - k,
        {
            let p = pixels[k];
            let ghost c = pixel_cell(p);
            let ghost before = *self;
            let o = self.board.get_owner(&p);
            proof {
                if claimed(pixels@, k as int, c) {
                    let j = choose|j: int| 0 <= j < k && #[trigger] pixel_cell(pixels@[j]) == c;
                    assert(mid.board.owners@[pixel_cell(pixels@[j])] == mid.board.owners@[c]);
                }
            }
            if o as usize != ci {
                proof {
                    assert(mid.board.owners@[c] == o);
                    assert(valid_pixel(pixels@[k as int]));
                    assert(touch_fits(mid.accounts@[o as int].unwrap(), mid.reward_rate, mid.ends, now));
                    if displaced(mid.board.owners@, pixels@, k as int, o as int) {
                        crate::account::lemma_touch_settled(
                            mid.accounts@[o as int].unwrap(),
                            self.accounts@[o as int].unwrap(),
                            mid.reward_rate,
                            mid.ends,
                            now,
                        );
                    }
                }
                self.touch_slot(o as usize, now);
                self.transfer_pixel(&p, ci);
            } else {
                let ghost s0 = self.board.owners@;
                self.board.set_pixel(ci as u32, &p);
                proof {
                    assert(self.board.owners@ =~= s0);
                }
            }
            proof {
                assert forall|c2: int| 0 <= c2 < TOTAL_NUM_PIXELS implies #[trigger] self.board.owners@[c2]
                    == (if claimed(pixels@, k + 1, c2) {
                    ci as u32
                } else {
                    mid.board.owners@[c2]
                }) by {
                    if c2 == c {
                        assert(pixel_cell(pixels@[k as int]) == c);
                    } else if claimed(pixels@, k + 1, c2) {
                        let j = choose|j: int| 0 <= j < k + 1 && #[trigger] pixel_cell(pixels@[j]) == c2;
                        assert(j < k);
                    }
                }
                assert forall|i: int| 0 <= i < mid.accounts@.len() && i != ci implies if displaced(
                    mid.board.owners@,
                    pixels@,
                    k + 1,
                    i,
                ) {
                    &&& self.accounts@[i] is Some
                    &&& same_but_pixels(
                        place_touched(mid, mid.accounts@[i].unwrap(), now),
                        self.accounts@[i].unwrap(),
                    )
                } else {
                    #[trigger] self.accounts@[i] == mid.accounts@[i]
                } by {
                    if mid.board.owners@[c] == i {
                        assert(mid.board.owners@[pixel_cell(pixels@[k as int])] == i);
                    }
                    if displaced(mid.board.owners@, pixels@, k + 1, i) && !displaced(
                        mid.board.owners@,
                        pixels@,
                        k as int,
                        i,
                    ) {
                        let j = choose|j: int|
                            0 <= j < k + 1 && #[trigger] mid.board.owners@[pixel_cell(pixels@[j])] == i;
                        assert(j == k);
                    }
                    if displaced(mid.board.owners@, pixels@, k as int, i) {
                        let j = choose|j: int|
                            0 <= j < k && #[trigger] mid.board.owners@[pixel_cell(pixels@[j])] == i;
                        assert(0 <= j < k + 1 && mid.board.owners@[pixel_cell(pixels@[j])] == i);
                    }
                }
            }
            k = k + 1;
        }
        proof {
            assert(pixels@.len() == n);
            assert forall|i: int| 0 <= i < old(self).accounts@.len() && i != ci implies
                #[trigger] mid.accounts@[i] == old(self).accounts@[i] by {}
            assert forall|i: int| 0 <= i < old(self).accounts@.len() && i != ci implies (displaced(
                mid.board.owners@,
                pixels@,
                n as int,
                i,
            ) == displaced(old(self).board.owners@, pixels@, n as int, i)) by {}
        }
        Ok(())
    }
}

/// The account records after `b` was persisted for `id`: in its slot, or in a new one.
pub open spec fn with_account(p: Place, id: String, b: Account) -> Seq<Option<Account>> {
    if stored(p, id@) is Some {
        p.accounts@.update(index_of(p.account_ids@, id@), Some(b))
    } else {
        p.accounts@.push(Some(b))
    }
}

pub open spec fn ids_with(p: Place, id: String) -> Seq<String> {
    if stored(p, id@) is Some {
        p.account_ids@
    } else {
        p.account_ids@.push(id)
    }
}

/// `new` differs from `old` at most in its accounts and the farmed, bought and funded totals.
pub open spec fn same_rest(old: Place, new: Place) -> bool {
    &&& same_config(old, new)
    &&& new.board == old.board
    &&& new.used_milk == old.used_milk
}

/// `new` is `old` after the resolved account of `id`, accrued at `now`, was changed into `b`
/// and persisted.
pub open spec fn committed(old: Place, new: Place, id: String, now: u64, b: Account) -> bool {
    &&& new.accounts@ == with_account(old, id, b)
    &&& new.account_ids@ == ids_with(old, id)
    &&& new.farmed_cheddar == saturating_add(
        old.farmed_cheddar,
        accrued(resolved(old, id, now), old.reward_rate, old.ends, now),
    )
    &&& same_rest(old, new)
}

/// `b` may stand as the record of `id`: same identity, index and cell count as the record
/// that resolving `id` gives.
pub open spec fn fits_slot(p: Place, id: String, b: Account) -> bool {
    let a = resolved(p, id, 0);
    b.account_id == a.account_id && b.account_index == a.account_index && b.num_pixels == a.num_pixels
}

impl Place {
    /// A copy of the account of `account_id` as resolved at `now`, with its index; nothing is written.
    pub fn resolve(&self, account_id: &String, now: u64) -> (r: Result<(usize, Account), LedgerError>)
        requires
            self.wf(),
        ensures
            !can_register(*self, account_id@) ==> r == Err::<(usize, Account), LedgerError>(
                LedgerError::Overflow,
            ),
            can_register(*self, account_id@) ==> r == Ok::<(usize, Account), LedgerError>(
                (resolved_index(*self, account_id@) as usize, resolved(*self, *account_id, now)),
            ),
            resolved(*self, *account_id, now).account_index == resolved_index(*self, account_id@),
            resolved(*self, *account_id, now).account_id == *account_id || stored(*self, account_id@)
                is Some,
    {
        proof {
            lemma_index_of_bounds(self.account_ids@, account_id@);
        }
        match self.find_index(account_id) {
            Some(i) => match &self.accounts[i] {
                Some(a) => Ok((i, a.copy())),
                None => Err(LedgerError::Overflow),
            },
            None => {
                if self.accounts.len() >= u32::MAX as usize {
                    return Err(LedgerError::Overflow);
                }
                let i = self.accounts.len();
                Ok((i, Account::new(account_id.clone(), i as u32, now)))
            },
        }
    }

    /// Persists `account` for `account_id`: in its slot, or under the next index for an
    /// account not stored yet.
    pub fn save_account(&mut self, account_id: &String, account: Account)
        requires
            old(self).wf(),
            can_register(*old(self), account_id@),
            fits_slot(*old(self), *account_id, account),
        ensures
            final(self).wf(),
            final(self).accounts@ == with_account(*old(self), *account_id, account),
            final(self).account_ids@ == ids_with(*old(self), *account_id),
            *final(self) == (Place {
                accounts: final(self).accounts,
                account_ids: final(self).account_ids,
                num_accounts: final(self).num_accounts,
                ..*old(self)
            }),
    {
        proof {
            lemma_index_of_bounds(self.account_ids@, account_id@);
        }
        let ghost s0 = self.accounts@;
        match self.find_index(account_id) {
            Some(i) => {
                self.accounts.set(i, Some(account));
                proof {
                    let s1 = self.accounts@;
                    lemma_total_update(s0, i as int, s1[i as int]);
                    assert(forall|k: int| 0 <= k < s1.len() ==> slot_pixels(s1[k]) == slot_pixels(s0[k]));
                    assert(forall|k: int| 0 <= k < s1.len() ==> (s1[k] is Some) == (s0[k] is Some));
                }
            },
            None => {
                proof {
                    lemma_total_push(s0, Some(account));
                    lemma_index_of_push(self.account_ids@, *account_id, account_id@);
                    lemma_count_absent(self.board.owners@, s0.len() as int);
                }
                self.accounts.push(Some(account));
                self.account_ids.push(account_id.clone());
                self.num_accounts = self.num_accounts + 1;
                proof {
                    let s1 = self.accounts@;
                    assert(forall|k: int| 0 <= k < s0.len() ==> s1[k] == s0[k]);
                }
            },
        }
    }

    /// Registers the caller, accruing its yield.
    pub fn register_account(&mut self, caller: &String, now: u64) -> (r: Result<(), LedgerError>)
        requires
            old(self).wf(),
        ensures
            final(self).wf(),
            !active_at(*old(self), now) ==> r == Err::<(), LedgerError>(LedgerError::NotActive)
                && *final(self) == *old(self),
            active_at(*old(self), now) && !(can_register(*old(self), caller@) && touch_fits(
                resolved(*old(self), *caller, now),
                old(self).reward_rate,
                old(self).ends,
                now,
            )) ==> r == Err::<(), LedgerError>(LedgerError::Overflow) && *final(self) == *old(self),
            active_at(*old(self), now) && can_register(*old(self), caller@) && touch_fits(
                resolved(*old(self), *caller, now),
                old(self).reward_rate,
                old(self).ends,
                now,
            ) ==> r == Ok::<(), LedgerError>(()) && registered(*old(self), *final(self), *caller, now),
    {
        if !self.assert_active(now) {
            return Err(LedgerError::NotActive);
        }
        let account = match self.get_mut_account(caller, now) {
            Ok(a) => a,
            Err(e) => return Err(e),
        };
        self.save_account(caller, account);
        Ok(())
    }

    /// Buys draw tokens for the caller with `near_amount` of native currency; returns how many.
    pub fn buy_tokens(&mut self, caller: &String, near_amount: Balance, now: u64) -> (r: Result<
        Balance,
        LedgerError,
    >)
        requires
            old(self).wf(),
        ensures
            final(self).wf(),
            r is Err ==> *final(self) == *old(self),
            !active_at(*old(self), now) ==> r == Err::<Balance, LedgerError>(LedgerError::NotActive),
            active_at(*old(self), now) && near_amount < MIN_PAYMENT ==> r == Err::<Balance, LedgerError>(
                LedgerError::PaymentTooSmall,
            ),
            active_at(*old(self), now) && near_amount >= MIN_PAYMENT ==> {
                let a = place_touched(*old(self), resolved(*old(self), *caller, now), now);
                let amount = milk_for_near(near_amount, old(self).milk_price);
                let ok = can_register(*old(self), caller@) && touch_fits(
                    resolved(*old(self), *caller, now),
                    old(self).reward_rate,
                    old(self).ends,
                    now,
                ) && a.milk_balance + amount <= u128::MAX;
                &&& !ok ==> r == Err::<Balance, LedgerError>(LedgerError::Overflow)
                &&& ok ==> r == Ok::<Balance, LedgerError>(amount as u128) && committed(
                    *old(self),
                    *final(self),
                    *caller,
                    now,
                    Account { milk_balance: (a.milk_balance + amount) as u128, ..a },
                ) && final(self).bought_milk == saturating_add(old(self).bought_milk, amount)
                    && final(self).mint_funded == old(self).mint_funded
            },
    {
        if !self.assert_active(now) {
            return Err(LedgerError::NotActive);
        }
        if near_amount < MIN_PAYMENT {
            return Err(LedgerError::PaymentTooSmall);
        }
        let (_i, mut a) = match self.resolve(caller, now) {
            Ok(x) => x,
            Err(e) => return Err(e),
        };
        let farmed = match a.touch(self.reward_rate, self.ends, now) {
            Some(f) => f,
            None => return Err(LedgerError::Overflow),
        };
        let amount = match a.buy_tokens(near_amount, self.milk_price) {
            Some(x) => x,
            None => return Err(LedgerError::Overflow),
        };
        self.save_account(caller, a);
        self.farmed_cheddar = self.farmed_cheddar.saturating_add(farmed);
        self.bought_milk = self.bought_milk.saturating_add(amount);
        Ok(amount)
    }

    /// Converts `spent_cheddar` of the caller's yield tokens into draw tokens.
    pub fn buy_milk_with_cheddar(&mut self, caller: &String, spent_cheddar: Balance, now: u64) -> (r:
        Result<Balance, LedgerError>)
        requires
            old(self).wf(),
        ensures
            final(self).wf(),
            r is Err ==> *final(self) == *old(self),
            !active_at(*old(self), now) ==> r == Err::<Balance, LedgerError>(LedgerError::NotActive),
            active_at(*old(self), now) ==> {
                let a = place_touched(*old(self), resolved(*old(self), *caller, now), now);
                let price = old(self).milk_price * MILK_CHEDAR_FACTOR;
                let amount: int = spent_cheddar as int / price;
                let ok = can_register(*old(self), caller@) && touch_fits(
                    resolved(*old(self), *caller, now),
                    old(self).reward_rate,
                    old(self).ends,
                    now,
                ) && price <= u128::MAX;
                &&& !ok ==> r == Err::<Balance, LedgerError>(LedgerError::Overflow)
                &&& ok && a.cheddar_balance < spent_cheddar ==> r == Err::<Balance, LedgerError>(
                    LedgerError::InsufficientBalance,
                )
                &&& ok && a.cheddar_balance >= spent_cheddar && a.milk_balance + amount > u128::MAX
                    ==> r == Err::<Balance, LedgerError>(LedgerError::Overflow)
                &&& ok && a.cheddar_balance >= spent_cheddar && a.milk_balance + amount <= u128::MAX
                    ==> r == Ok::<Balance, LedgerError>(amount as u128) && committed(
                    *old(self),
                    *final(self),
                    *caller,
                    now,
                    Account {
                        milk_balance: (a.milk_balance + amount) as u128,
                        cheddar_balance: (a.cheddar_balance - spent_cheddar) as u128,
                        ..a
                    },
                ) && final(self).bought_milk == saturating_add(old(self).bought_milk, amount)
                    && final(self).mint_funded == old(self).mint_funded
            },
    {
        if !self.assert_active(now) {
            return Err(LedgerError::NotActive);
        }
        let (_i, mut a) = match self.resolve(caller, now) {
            Ok(x) => x,
            Err(e) => return Err(e),
        };
        let farmed = match a.touch(self.reward_rate, self.ends, now) {
            Some(f) => f,
            None => return Err(LedgerError::Overflow),
        };
        let price = match self.milk_price.checked_mul(MILK_CHEDAR_FACTOR) {
            Some(p) => p,
            None => return Err(LedgerError::Overflow),
        };
        let amount = match a.buy_milk_with_cheddar(spent_cheddar, price) {
            Ok(x) => x,
            Err(e) => return Err(e),
        };
        self.save_account(caller, a);
        self.farmed_cheddar = self.farmed_cheddar.saturating_add(farmed);
        self.bought_milk = self.bought_milk.saturating_add(amount);
        Ok(amount)
    }
}

impl Place {
    pub fn is_blacklisted(&self, account: &String) -> (r: bool)
        ensures
            r == blacklisted(*self, account@),
    {
        let mut k: usize = 0;
        while k < self.blacklist.len()
            invariant
                k <= self.blacklist@.len(),
                forall|q: int| 0 <= q < k ==> self.blacklist@[q]@ != account@,
            decreases self.blacklist@.len() - k,
        {
            if self.blacklist[k] == *account {
                return true;
            }
            k = k + 1;
        }
        false
    }

    /// Redeems the caller's whole yield balance: it is zeroed at once, and the returned request
    /// says what to mint. The first redemption of an account carries the larger deposit.
    pub fn withdraw_crop(&mut self, caller: &String, now: u64) -> (r: Result<MintRequest, LedgerError>)
        requires
            old(self).wf(),
        ensures
            final(self).wf(),
            r is Err ==> *final(self) == *old(self),
            blacklisted(*old(self), caller@) ==> r == Err::<MintRequest, LedgerError>(
                LedgerError::Blacklisted,
            ),
            !blacklisted(*old(self), caller@) && stored(*old(self), caller@) is None ==> r == Err::<
                MintRequest,
                LedgerError,
            >(LedgerError::AccountNotFound),
            !blacklisted(*old(self), caller@) && stored(*old(self), caller@) is Some ==> {
                let s = stored(*old(self), caller@).unwrap();
                let a = place_touched(*old(self), s, now);
                let fits = touch_fits(s, old(self).reward_rate, old(self).ends, now);
                &&& !fits ==> r == Err::<MintRequest, LedgerError>(LedgerError::Overflow)
                &&& fits && a.cheddar_balance == 0 ==> r == Err::<MintRequest, LedgerError>(
                    LedgerError::ZeroAmount,
                )
                &&& fits && a.cheddar_balance > 0 && !a.mint_funded && old(self).mint_funded == u32::MAX
                    ==> r == Err::<MintRequest, LedgerError>(LedgerError::Overflow)
                &&& fits && a.cheddar_balance > 0 && (a.mint_funded || old(self).mint_funded < u32::MAX)
                    ==> {
                    &&& r is Ok
                    &&& r.unwrap().receiver == *caller
                    &&& r.unwrap().amount == a.cheddar_balance
                    &&& r.unwrap().deposit == if a.mint_funded {
                        1
                    } else {
                        FIRST_MINT_DEPOSIT
                    }
                    &&& committed(
                        *old(self),
                        *final(self),
                        *caller,
                        now,
                        Account { cheddar_balance: 0, mint_funded: true, ..a },
                    )
                    &&& final(self).mint_funded == if a.mint_funded {
                        old(self).mint_funded as int
                    } else {
                        old(self).mint_funded + 1
                    }
                    &&& final(self).bought_milk == old(self).bought_milk
                }
            },
    {
        if self.is_blacklisted(caller) {
            return Err(LedgerError::Blacklisted);
        }
        if self.find_index(caller).is_none() {
            return Err(LedgerError::AccountNotFound);
        }
        let (_i, mut a) = match self.resolve(caller, now) {
            Ok(x) => x,
            Err(e) => return Err(e),
        };
        let farmed = match a.touch(self.reward_rate, self.ends, now) {
            Some(f) => f,
            None => return Err(LedgerError::Overflow),
        };
        let balance = a.cheddar_balance;
        let mint_funded = a.mint_funded;
        if balance == 0 {
            return Err(LedgerError::ZeroAmount);
        }
        if !mint_funded && self.mint_funded == u32::MAX {
            return Err(LedgerError::Overflow);
        }
        a.cheddar_balance = 0;
        a.mint_funded = true;
        self.save_account(caller, a);
        self.farmed_cheddar = self.farmed_cheddar.saturating_add(farmed);
        if !mint_funded {
            self.mint_funded = self.mint_funded + 1;
        }
        Ok(MintRequest {
            receiver: caller.clone(),
            amount: balance,
            deposit: if mint_funded {
                1
            } else {
                FIRST_MINT_DEPOSIT
            },
        })
    }

    /// Settles a redemption once the mint for `receiver` has finished; only this ledger itself
    /// may call it. On success an empty record is dropped from storage; on failure the
    /// receiver's yield, accrued up to `now`, is reset to zero (the minted amount is not restored).
    pub fn mint_callback(
        &mut self,
        caller: &String,
        receiver: &String,
        amount: Balance,
        succeeded: bool,
        now: u64,
    ) -> (r: Result<(), LedgerError>)
        requires
            old(self).wf(),
        ensures
            final(self).wf(),
            r is Err ==> *final(self) == *old(self),
            caller@ != old(self).contract_id@ ==> r == Err::<(), LedgerError>(LedgerError::NotAuthorized),
            caller@ == old(self).contract_id@ && succeeded ==> r == Ok::<(), LedgerError>(()) && if stored(
                *old(self),
                receiver@,
            ) is Some && crate::account::account_is_empty(stored(*old(self), receiver@).unwrap()) {
                *final(self) == (Place {
                    accounts: final(self).accounts,
                    ..*old(self)
                }) && final(self).accounts@ == old(self).accounts@.update(
                    index_of(old(self).account_ids@, receiver@),
                    None,
                )
            } else {
                *final(self) == *old(self)
            },
            caller@ == old(self).contract_id@ && !succeeded ==> {
                let ok = can_register(*old(self), receiver@) && touch_fits(
                    resolved(*old(self), *receiver, now),
                    old(self).reward_rate,
                    old(self).ends,
                    now,
                );
                let a = place_touched(*old(self), resolved(*old(self), *receiver, now), now);
                &&& !ok ==> r == Err::<(), LedgerError>(LedgerError::Overflow)
                &&& ok ==> r == Ok::<(), LedgerError>(()) && committed(
                    *old(self),
                    *final(self),
                    *receiver,
                    now,
                    Account { cheddar_balance: 0, ..a },
                ) && final(self).bought_milk == old(self).bought_milk && final(self).mint_funded
                    == old(self).mint_funded
            },
    {
        if *caller != self.contract_id {
            return Err(LedgerError::NotAuthorized);
        }
        if succeeded {
            match self.find_index(receiver) {
                Some(i) => {
                    let empty = match &self.accounts[i] {
                        Some(a) => a.is_empty(),
                        None => false,
                    };
                    if empty {
                        let ghost s0 = self.accounts@;
                        let ghost owners = self.board.owners@;
                        self.accounts.set(i, None);
                        proof {
                            let s1 = self.accounts@;
                            lemma_total_update(s0, i as int, None);
                            assert forall|c: int| 0 <= c < owners.len() implies #[trigger] owners[c] != i by {
                                if owners[c] == i {
                                    lemma_count_pos(owners, c);
                                }
                            }
                            assert(forall|k: int| 0 <= k < s1.len() && k != i ==> s1[k] == s0[k]);
                        }
                    }
                },
                None => {},
            }
            Ok(())
        } else {
            let (_i, mut a) = match self.resolve(receiver, now) {
                Ok(x) => x,
                Err(e) => return Err(e),
            };
            let farmed = match a.touch(self.reward_rate, self.ends, now) {
                Some(f) => f,
                None => return Err(LedgerError::Overflow),
            };
            a.cheddar_balance = 0;
            self.save_account(receiver, a);
        self.farmed_cheddar = self.farmed_cheddar.saturating_add(farmed);
            Ok(())
        }
    }

    /// Credits a deposit of `amount` yield tokens to `sender_id`, after accruing its yield up to
    /// `now`; accepted from the yield-token contract only (`predecessor`), for a stored account.
    /// Returns the unused amount, which is zero.
    pub fn ft_on_transfer(
        &mut self,
        predecessor: &String,
        sender_id: &String,
        amount: Balance,
        now: u64,
    ) -> (r: Result<Balance, LedgerError>)
        requires
            old(self).wf(),
        ensures
            final(self).wf(),
            r is Err ==> *final(self) == *old(self),
            !active_at(*old(self), now) ==> r == Err::<Balance, LedgerError>(LedgerError::NotActive),
            active_at(*old(self), now) && predecessor@ != old(self).cheddar@ ==> r == Err::<
                Balance,
                LedgerError,
            >(LedgerError::InvalidExternalSender),
            active_at(*old(self), now) && predecessor@ == old(self).cheddar@ && amount == 0 ==> r
                == Err::<Balance, LedgerError>(LedgerError::ZeroAmount),
            active_at(*old(self), now) && predecessor@ == old(self).cheddar@ && amount > 0 && stored(
                *old(self),
                sender_id@,
            ) is None ==> r == Err::<Balance, LedgerError>(LedgerError::AccountNotFound),
            active_at(*old(self), now) && predecessor@ == old(self).cheddar@ && amount > 0 && stored(
                *old(self),
                sender_id@,
            ) is Some ==> {
                let s = stored(*old(self), sender_id@).unwrap();
                let a = place_touched(*old(self), s, now);
                let fits = touch_fits(s, old(self).reward_rate, old(self).ends, now);
                &&& !fits ==> r == Err::<Balance, LedgerError>(LedgerError::Overflow)
                &&& fits && a.cheddar_balance + amount > u128::MAX ==> r == Err::<Balance, LedgerError>(
                    LedgerError::Overflow,
                )
                &&& fits && a.cheddar_balance + amount <= u128::MAX ==> r == Ok::<Balance, LedgerError>(0)
                    && committed(
                    *old(self),
                    *final(self),
                    *sender_id,
                    now,
                    Account { cheddar_balance: (a.cheddar_balance + amount) as u128, ..a },
                ) && final(self).bought_milk == old(self).bought_milk && final(self).mint_funded
                    == old(self).mint_funded
            },
    {
        if !self.assert_active(now) {
            return Err(LedgerError::NotActive);
        }
        if *predecessor != self.cheddar {
            return Err(LedgerError::InvalidExternalSender);
        }
        if amount == 0 {
            return Err(LedgerError::ZeroAmount);
        }
        if self.find_index(sender_id).is_none() {
            return Err(LedgerError::AccountNotFound);
        }
        let (_i, mut a) = match self.resolve(sender_id, now) {
            Ok(x) => x,
            Err(e) => return Err(e),
        };
        let farmed = match a.touch(self.reward_rate, self.ends, now) {
            Some(f) => f,
            None => return Err(LedgerError::Overflow),
        };
        a.cheddar_balance = match a.cheddar_balance.checked_add(amount) {
            Some(b) => b,
            None => return Err(LedgerError::Overflow),
        };
        self.save_account(sender_id, a);
        self.farmed_cheddar = self.farmed_cheddar.saturating_add(farmed);
        Ok(0)
    }

    /// Admin only: grants draw tokens to `account`.
    pub fn milk(&mut self, caller: &String, account: &String, now: u64) -> (r: Result<(), LedgerError>)
        requires
            old(self).wf(),
        ensures
            final(self).wf(),
            r is Err ==> *final(self) == *old(self),
            caller@ != old(self).admin@ ==> r == Err::<(), LedgerError>(LedgerError::NotAuthorized),
            caller@ == old(self).admin@ ==> {
                let a = place_touched(*old(self), resolved(*old(self), *account, now), now);
                let ok = can_register(*old(self), account@) && touch_fits(
                    resolved(*old(self), *account, now),
                    old(self).reward_rate,
                    old(self).ends,
                    now,
                ) && a.milk_balance + ADMIN_MILK_GRANT <= u128::MAX;
                &&& !ok ==> r == Err::<(), LedgerError>(LedgerError::Overflow)
                &&& ok ==> r == Ok::<(), LedgerError>(()) && committed(
                    *old(self),
                    *final(self),
                    *account,
                    now,
                    Account { milk_balance: (a.milk_balance + ADMIN_MILK_GRANT) as u128, ..a },
                ) && final(self).bought_milk == old(self).bought_milk && final(self).mint_funded
                    == old(self).mint_funded
            },
    {
        if !self.only_admin(caller) {
            return Err(LedgerError::NotAuthorized);
        }
        let (_i, mut a) = match self.resolve(account, now) {
            Ok(x) => x,
            Err(e) => return Err(e),
        };
        let farmed = match a.touch(self.reward_rate, self.ends, now) {
            Some(f) => f,
            None => return Err(LedgerError::Overflow),
        };
        a.milk_balance = match a.milk_balance.checked_add(ADMIN_MILK_GRANT) {
            Some(b) => b,
            None => return Err(LedgerError::Overflow),
        };
        self.save_account(account, a);
        self.farmed_cheddar = self.farmed_cheddar.saturating_add(farmed);
        Ok(())
    }

    pub fn only_admin(&self, caller: &String) -> (r: bool)
        ensures
            r == (caller@ == self.admin@),
    {
        *caller == self.admin
    }
}

/// Yield per cell per nanosecond at the start: one whole token per cell per day.
pub const INITIAL_REWARD_RATE: u128 = ONE_NEAR / (24 * 60 * 60 * 1_000_000_000);

/// Draw-token price at the start: a 400th of a coin.
pub const INITIAL_MILK_PRICE: u128 = ONE_NEAR / 400;

/// Largest campaign end, in seconds, whose nanosecond value fits a `u64`.
pub const MAX_TIME_SECONDS: u64 = 18_446_744_073;

/// `p` is the ledger as created at time `now`: the ledger's own account holds every cell.
pub open spec fn is_genesis(
    p: Place,
    cheddar: String,
    admin: String,
    treasury: String,
    contract_id: String,
    ends: u64,
    now: u64,
) -> bool {
    &&& p.wf()
    &&& p.account_ids@ == seq![contract_id]
    &&& p.accounts@ == seq![Some(Account { num_pixels: TOTAL_NUM_PIXELS, ..Account::new_spec(contract_id, 0, now) })]
    &&& forall|c: int| 0 <= c < TOTAL_NUM_PIXELS ==> #[trigger] p.board.owners@[c] == 0
    &&& p.last_reward_timestamp == now
    &&& p.bought_milk == 0 && p.used_milk == 0 && p.farmed_cheddar == 0
    &&& p.is_active
    &&& p.admin == admin && p.cheddar == cheddar && p.treasury == treasury && p.contract_id == contract_id
    &&& p.mint_funded == 0
    &&& p.reward_rate == INITIAL_REWARD_RATE
    &&& p.milk_price == INITIAL_MILK_PRICE
    &&& p.blacklist@.len() == 0
    &&& p.starts == 0
    &&& p.ends == ends * FROM_NANO
}

/// Creates the ledger in `state`, unless one is there already; `ends` is in seconds.
pub fn initialize(
    state: &mut Option<Place>,
    cheddar: String,
    admin: String,
    treasury: String,
    contract_id: String,
    ends: u64,
    now: u64,
) -> (r: Result<(), LedgerError>)
    ensures
        old(state).is_some() ==> r == Err::<(), LedgerError>(LedgerError::AlreadyInitialized)
            && *final(state) == *old(state),
        old(state).is_none() && ends > MAX_TIME_SECONDS ==> r == Err::<(), LedgerError>(
            LedgerError::Overflow,
        ) && *final(state) == *old(state),
        old(state).is_none() && ends <= MAX_TIME_SECONDS ==> r == Ok::<(), LedgerError>(())
            && final(state).is_some() && is_genesis(final(state).unwrap(), cheddar, admin, treasury, contract_id, ends, now),
{
    if state.is_some() {
        return Err(LedgerError::AlreadyInitialized);
    }
    if ends > MAX_TIME_SECONDS {
        return Err(LedgerError::Overflow);
    }
    *state = Some(Place::new(cheddar, admin, treasury, contract_id, ends, now));
    Ok(())
}

impl Place {
    /// A fresh ledger at time `now`; its own account (`contract_id`) holds every cell.
    /// `ends` is the campaign end in seconds.
    pub fn new(
        cheddar: String,
        admin: String,
        treasury: String,
        contract_id: String,
        ends: u64,
        now: u64,
    ) -> (r: Place)
        requires
            ends <= MAX_TIME_SECONDS,
        ensures
            is_genesis(r, cheddar, admin, treasury, contract_id, ends, now),
    {
        let board = PixelBoard::new();
        let mut genesis = Account::new(contract_id.clone(), 0, now);
        genesis.num_pixels = TOTAL_NUM_PIXELS;
        let accounts = vec![Some(genesis)];
        let account_ids = vec![contract_id.clone()];
        proof {
            lemma_count_uniform(board.owners@, 0);
            assert(accounts@.drop_last() =~= Seq::<Option<Account>>::empty());
            assert(total_held(accounts@.drop_last()) == 0);
            assert(total_held(accounts@) == TOTAL_NUM_PIXELS);
            assert(forall|i: int| 0 <= i < TOTAL_NUM_PIXELS ==> count_owned(board.owners@, i) == TOTAL_NUM_PIXELS || i != 0);
            assert(accounts@ =~= seq![Some(Account { num_pixels: TOTAL_NUM_PIXELS, ..Account::new_spec(contract_id, 0, now) })]);
            assert(account_ids@ =~= seq![contract_id]);
        }
        Place {
            account_ids,
            accounts,
            num_accounts: 1,
            board,
            last_reward_timestamp: now,
            bought_milk: 0,
            used_milk: 0,
            farmed_cheddar: 0,
            is_active: true,
            admin,
            cheddar,
            treasury,
            contract_id,
            mint_funded: 0,
            reward_rate: INITIAL_REWARD_RATE,
            milk_price: INITIAL_MILK_PRICE,
            blacklist: Vec::new(),
            starts: 0,
            ends: ends * FROM_NANO,
        }
    }

    /// Admin only: hands the admin role to `admin`.
    pub fn change_admin(&mut self, caller: &String, admin: String) -> (r: Result<(), LedgerError>)
        requires
            old(self).wf(),
        ensures
            final(self).wf(),
            caller@ != old(self).admin@ ==> r == Err::<(), LedgerError>(LedgerError::NotAuthorized)
                && *final(self) == *old(self),
            caller@ == old(self).admin@ ==> r == Ok::<(), LedgerError>(()) && *final(self) == (Place {
                admin,
                ..*old(self)
            }),
    {
        if !self.only_admin(caller) {
            return Err(LedgerError::NotAuthorized);
        }
        self.admin = admin;
        Ok(())
    }

    /// Admin only: sets the yield per cell per nanosecond.
    pub fn update_reward_rate(&mut self, caller: &String, rewards: Balance) -> (r: Result<(), LedgerError>)
        requires
            old(self).wf(),
        ensures
            final(self).wf(),
            caller@ != old(self).admin@ ==> r == Err::<(), LedgerError>(LedgerError::NotAuthorized)
                && *final(self) == *old(self),
            caller@ == old(self).admin@ ==> r == Ok::<(), LedgerError>(()) && *final(self) == (Place {
                reward_rate: rewards,
                ..*old(self)
            }),
    {
        if !self.only_admin(caller) {
            return Err(LedgerError::NotAuthorized);
        }
        self.reward_rate = rewards;
        Ok(())
    }

    /// Admin only: switches the campaign on or off.
    pub fn toggle_active(&mut self, caller: &String) -> (r: Result<(), LedgerError>)
        requires
            old(self).wf(),
        ensures
            final(self).wf(),
            caller@ != old(self).admin@ ==> r == Err::<(), LedgerError>(LedgerError::NotAuthorized)
                && *final(self) == *old(self),
            caller@ == old(self).admin@ ==> r == Ok::<(), LedgerError>(()) && *final(self) == (Place {
                is_active: !old(self).is_active,
                ..*old(self)
            }),
    {
        if !self.only_admin(caller) {
            return Err(LedgerError::NotAuthorized);
        }
        self.is_active = !self.is_active;
        Ok(())
    }

    /// Admin only: sets the campaign end, in seconds.
    pub fn set_end(&mut self, caller: &String, ends: u64) -> (r: Result<(), LedgerError>)
        requires
            old(self).wf(),
        ensures
            final(self).wf(),
            r is Err ==> *final(self) == *old(self),
            caller@ != old(self).admin@ ==> r == Err::<(), LedgerError>(LedgerError::NotAuthorized),
            caller@ == old(self).admin@ && ends > MAX_TIME_SECONDS ==> r == Err::<(), LedgerError>(
                LedgerError::Overflow,
            ),
            caller@ == old(self).admin@ && ends <= MAX_TIME_SECONDS ==> r == Ok::<(), LedgerError>(())
                && *final(self) == (Place { ends: (ends * FROM_NANO) as u64, ..*old(self) }),
    {
        if !self.only_admin(caller) {
            return Err(LedgerError::NotAuthorized);
        }
        if ends > MAX_TIME_SECONDS {
            return Err(LedgerError::Overflow);
        }
        self.ends = ends * FROM_NANO;
        Ok(())
    }

    /// Admin only: sets the campaign start, in seconds.
    pub fn set_start(&mut self, caller: &String, starts: u64) -> (r: Result<(), LedgerError>)
        requires
            old(self).wf(),
        ensures
            final(self).wf(),
            r is Err ==> *final(self) == *old(self),
            caller@ != old(self).admin@ ==> r == Err::<(), LedgerError>(LedgerError::NotAuthorized),
            caller@ == old(self).admin@ && starts > MAX_TIME_SECONDS ==> r == Err::<(), LedgerError>(
                LedgerError::Overflow,
            ),
            caller@ == old(self).admin@ && starts <= MAX_TIME_SECONDS ==> r == Ok::<(), LedgerError>(())
                && *final(self) == (Place { starts: (starts * FROM_NANO) as u64, ..*old(self) }),
    {
        if !self.only_admin(caller) {
            return Err(LedgerError::NotAuthorized);
        }
        if starts > MAX_TIME_SECONDS {
            return Err(LedgerError::Overflow);
        }
        self.starts = starts * FROM_NANO;
        Ok(())
    }

    /// Admin only: bars `account` from redeeming.
    pub fn add_to_blacklist(&mut self, caller: &String, account: String) -> (r: Result<(), LedgerError>)
        requires
            old(self).wf(),
        ensures
            final(self).wf(),
            caller@ != old(self).admin@ ==> r == Err::<(), LedgerError>(LedgerError::NotAuthorized)
                && *final(self) == *old(self),
            caller@ == old(self).admin@ ==> r == Ok::<(), LedgerError>(()) && *final(self) == (Place {
                blacklist: final(self).blacklist,
                ..*old(self)
            }) && forall|id: Seq<char>|
                #[trigger] blacklisted(*final(self), id) == (blacklisted(*old(self), id) || id
                    == account@),
    {
        if !self.only_admin(caller) {
            return Err(LedgerError::NotAuthorized);
        }
        if !self.is_blacklisted(&account) {
            let ghost b0 = self.blacklist@;
            self.blacklist.push(account);
            proof {
                let b1 = self.blacklist@;
                assert forall|id: Seq<char>|
                    #[trigger] listed(b1, b1.len() as int, id) == (listed(b0, b0.len() as int, id) || id
                        == b1[b0.len() as int]@) by {
                    if listed(b0, b0.len() as int, id) {
                        let k = choose|k: int| 0 <= k < b0.len() && #[trigger] b0[k]@ == id;
                        assert(b1[k] == b0[k]);
                    }
                    if id == b1[b0.len() as int]@ {
                        assert(b1[b0.len() as int]@ == id);
                    }
                    if listed(b1, b1.len() as int, id) {
                        let k = choose|k: int| 0 <= k < b1.len() && #[trigger] b1[k]@ == id;
                        if k < b0.len() {
                            assert(b1[k] == b0[k]);
                        }
                    }
                }
            }
        }
        Ok(())
    }

    /// Admin only: lifts the bar on `account`.
    pub fn remove_from_blacklist(&mut self, caller: &String, account: String) -> (r: Result<
        (),
        LedgerError,
    >)
        requires
            old(self).wf(),
        ensures
            final(self).wf(),
            caller@ != old(self).admin@ ==> r == Err::<(), LedgerError>(LedgerError::NotAuthorized)
                && *final(self) == *old(self),
            caller@ == old(self).admin@ ==> r == Ok::<(), LedgerError>(()) && *final(self) == (Place {
                blacklist: final(self).blacklist,
                ..*old(self)
            }) && forall|id: Seq<char>|
                #[trigger] blacklisted(*final(self), id) == (blacklisted(*old(self), id) && id
                    != account@),
    {
        if !self.only_admin(caller) {
            return Err(LedgerError::NotAuthorized);
        }
        let ghost b0 = self.blacklist@;
        let mut kept: Vec<String> = Vec::new();
        let mut k: usize = 0;
        while k < self.blacklist.len()
            invariant
                b0 == self.blacklist@,
                k <= b0.len(),
                forall|id: Seq<char>|
                    #[trigger] listed(kept@, kept@.len() as int, id) == (listed(b0, k as int, id) && id
                        != account@),
            decreases b0.len() - k,
        {
            let ghost kept0 = kept@;
            if self.blacklist[k] != account {
                kept.push(self.blacklist[k].clone());
            }
            proof {
                assert forall|id: Seq<char>|
                    #[trigger] listed(kept@, kept@.len() as int, id) == (listed(b0, k + 1, id) && id
                        != account@) by {
                    if listed(kept@, kept@.len() as int, id) {
                        let q = choose|q: int| 0 <= q < kept@.len() && #[trigger] kept@[q]@ == id;
                        if q < kept0.len() {
                            assert(kept0[q]@ == id);
                            assert(listed(kept0, kept0.len() as int, id));
                        }
                    }
                    if listed(b0, k + 1, id) && id != account@ {
                        let q = choose|q: int| 0 <= q < k + 1 && #[trigger] b0[q]@ == id;
                        if q < k {
                            assert(listed(b0, k as int, id));
                            assert(listed(kept0, kept0.len() as int, id));
                            let q2 = choose|q2: int| 0 <= q2 < kept0.len() && #[trigger] kept0[q2]@ == id;
                            assert(kept@[q2] == kept0[q2]);
                        } else {
                            assert(kept@[kept@.len() - 1]@ == id);
                        }
                    }
                    if listed(b0, k as int, id) {
                        let q = choose|q: int| 0 <= q < k && #[trigger] b0[q]@ == id;
                        assert(0 <= q < k + 1 && b0[q]@ == id);
                    }
                }
            }
            k = k + 1;
        }
        proof {
            assert forall|id: Seq<char>| #[trigger] listed(b0, b0.len() as int, id) == blacklisted(*old(self), id) by {}
        }
        self.blacklist = kept;
        Ok(())
    }
}

/// Native currency above what storage locks plus the safety margin, or zero.
pub open spec fn liquid_balance(account_balance: u128, storage_usage: u64) -> int {
    let locked = storage_usage * STORAGE_PRICE_PER_BYTE + SAFETY_BAR;
    if account_balance > locked {
        account_balance - locked
    } else {
        0
    }
}

pub open spec fn saturating_mul(a: u128, b: u128) -> u128 {
    if a * b > u128::MAX {
        u128::MAX
    } else {
        (a * b) as u128
    }
}

impl Place {
    /// The view of the account at `account_index` with accrual up to `now` applied; nothing
    /// is written. `None` when no record is stored there or its accrual would not fit.
    pub fn get_account_by_index(&self, account_index: AccountIndex, now: u64) -> (r: Option<HumanAccount>)
        requires
            self.wf(),
        ensures
            ({
                let ok = account_index < self.accounts@.len() && self.accounts@[account_index as int]
                    is Some && touch_fits(
                    self.accounts@[account_index as int].unwrap(),
                    self.reward_rate,
                    self.ends,
                    now,
                );
                &&& !ok ==> r is None
                &&& ok ==> r == Some(
                    human_of(place_touched(*self, self.accounts@[account_index as int].unwrap(), now)),
                )
            }),
    {
        match self.get_internal_account_by_index(account_index) {
            Some(a) => {
                let mut a = a.copy();
                match a.touch(self.reward_rate, self.ends, now) {
                    Some(_) => Some(HumanAccount::from(a)),
                    None => None,
                }
            },
            None => None,
        }
    }

    /// The view of `account_id`'s account with accrual up to `now` applied; nothing is
    /// written. `None` when no record is stored or its accrual would not fit.
    pub fn get_account(&self, account_id: &String, now: u64) -> (r: Option<HumanAccount>)
        requires
            self.wf(),
        ensures
            ({
                let ok = stored(*self, account_id@) is Some && touch_fits(
                    stored(*self, account_id@).unwrap(),
                    self.reward_rate,
                    self.ends,
                    now,
                );
                &&& !ok ==> r is None
                &&& ok ==> r == Some(
                    human_of(place_touched(*self, stored(*self, account_id@).unwrap(), now)),
                )
            }),
    {
        match self.get_internal_account_by_id(account_id) {
            Some(a) => {
                let mut a = a.copy();
                match a.touch(self.reward_rate, self.ends, now) {
                    Some(_) => Some(HumanAccount::from(a)),
                    None => None,
                }
            },
            None => None,
        }
    }

    /// Draw-token balance of `account_id`; an account not stored yet has the default grant.
    /// Accrual does not change it, so none is applied. The balance must fit a `u32`.
    pub fn get_account_balance(&self, account_id: &String) -> (r: u32)
        requires
            self.wf(),
            stored(*self, account_id@) matches Some(a) ==> a.milk_balance <= u32::MAX,
        ensures
            r == match stored(*self, account_id@) {
                Some(a) => a.milk_balance as u32,
                None => DEFAULT_MILK_BALANCE,
            },
    {
        match self.get_internal_account_by_id(account_id) {
            Some(a) => a.milk_balance as u32,
            None => DEFAULT_MILK_BALANCE,
        }
    }

    pub fn get_account_num_pixels(&self, account_id: &String) -> (r: u32)
        requires
            self.wf(),
        ensures
            r == match stored(*self, account_id@) {
                Some(a) => a.num_pixels,
                None => 0,
            },
    {
        match self.get_internal_account_by_id(account_id) {
            Some(a) => a.num_pixels,
            None => 0,
        }
    }

    pub fn get_account_id_by_index(&self, account_index: AccountIndex) -> (r: Option<String>)
        requires
            self.wf(),
        ensures
            account_index < self.accounts@.len() && self.accounts@[account_index as int] is Some
                ==> r == Some(self.accounts@[account_index as int].unwrap().account_id),
            !(account_index < self.accounts@.len() && self.accounts@[account_index as int] is Some)
                ==> r is None,
    {
        match self.get_internal_account_by_index(account_index) {
            Some(a) => Some(a.account_id.clone()),
            None => None,
        }
    }

    /// Whether an index was ever registered under `account_id`.
    pub fn account_exists(&self, account_id: &String) -> (r: bool)
        requires
            self.wf(),
        ensures
            r == (index_of(self.account_ids@, account_id@) >= 0),
    {
        proof {
            lemma_index_of_bounds(self.account_ids@, account_id@);
        }
        let mut i: usize = self.account_ids.len();
        while i > 0
            invariant
                i <= self.account_ids@.len(),
                forall|k: int| i <= k < self.account_ids@.len() ==> self.account_ids@[k]@ != account_id@,
                index_of(self.account_ids@, account_id@) == -1 ==> forall|k: int|
                    0 <= k < self.account_ids@.len() ==> self.account_ids@[k]@ != account_id@,
                index_of(self.account_ids@, account_id@) >= 0 ==> self.account_ids@[index_of(
                    self.account_ids@,
                    account_id@,
                )]@ == account_id@,
                -1 <= index_of(self.account_ids@, account_id@) < self.account_ids@.len(),
            decreases i,
        {
            i = i - 1;
            if self.account_ids[i] == *account_id {
                assert(self.account_ids@[i as int]@ == account_id@);
                return true;
            }
        }
        false
    }

    pub fn get_num_accounts(&self) -> (r: u32)
        ensures
            r == self.num_accounts,
    {
        self.num_accounts
    }

    pub fn is_active(&self) -> (r: bool)
        ensures
            r == self.is_active,
    {
        self.is_active
    }

    /// The reward rate per millisecond (saturating) and the draw-token price.
    pub fn get_settings(&self) -> (r: Settings)
        ensures
            r == (Settings {
                reward_rate: saturating_mul(self.reward_rate, 1_000_000),
                milk_price: self.milk_price,
            }),
    {
        Settings { reward_rate: mul_saturating(self.reward_rate, 1_000_000), milk_price: self.milk_price }
    }

    pub fn stats(&self) -> (r: Stats)
        ensures
            r == (Stats {
                bought_milk: self.bought_milk,
                used_milk: self.used_milk,
                num_accounts: self.num_accounts,
                reward_rate: self.reward_rate,
                milk_price: self.milk_price,
                cheddar_milk_price: saturating_mul(self.milk_price, MILK_CHEDAR_FACTOR),
                starts_at: self.starts,
                ends_at: self.ends,
            }),
    {
        Stats {
            bought_milk: self.bought_milk,
            used_milk: self.used_milk,
            num_accounts: self.num_accounts,
            reward_rate: self.reward_rate,
            milk_price: self.milk_price,
            cheddar_milk_price: mul_saturating(self.milk_price, MILK_CHEDAR_FACTOR),
            starts_at: self.starts,
            ends_at: self.ends,
        }
    }

    /// How much native currency may go to the treasury, given the contract's balance and
    /// storage use: everything above the storage cost and the safety margin.
    pub fn withdraw_near(&self, account_balance: Balance, storage_usage: u64) -> (r: Balance)
        ensures
            r == liquid_balance(account_balance, storage_usage),
    {
        let storage_cost = match (storage_usage as u128).checked_mul(STORAGE_PRICE_PER_BYTE) {
            Some(c) => c,
            None => return 0,
        };
        let locked = match storage_cost.checked_add(SAFETY_BAR) {
            Some(l) => l,
            None => return 0,
        };
        if account_balance <= locked {
            return 0;
        }
        account_balance - locked
    }
}

fn mul_saturating(a: u128, b: u128) -> (r: u128)
    ensures
        r == saturating_mul(a, b),
{
    match a.checked_mul(b) {
        Some(p) => p,
        None => u128::MAX,
    }
}

} // verus!
