use vstd::prelude::*;

verus! {

/// Smallest unit of the native currency in one whole coin.
pub const ONE_NEAR: u128 = 1_000_000_000_000_000_000_000_000;

/// Purchases of at least this much native currency get the volume discount.
pub const MIN_AMOUNT_FOR_DISCOUNT: u128 = 5 * ONE_NEAR;

/// Draw tokens that a fresh account starts with.
pub const DEFAULT_MILK_BALANCE: u32 = 2;

pub type AccountIndex = u32;

pub type Balance = u128;

/// The two token kinds of an account: the draw token (`Milk`) and the yield token (`Cheddar`).
#[derive(Clone, Copy, PartialEq, Eq, Structural, Debug)]
pub enum Berry {
    Milk,
    Cheddar,
}

/// One participant's record.
#[derive(Debug)]
pub struct Account {
    pub account_id: String,
    pub account_index: AccountIndex,
    /// draw token, spent to claim cells
    pub milk_balance: Balance,
    /// yield token, accrued over time and redeemable
    pub cheddar_balance: Balance,
    /// number of cells currently held
    pub num_pixels: u32,
    /// time of the last accrual
    pub claim_timestamp: u64,
    /// true once the account has triggered a funded redemption
    pub mint_funded: bool,
}

/// Stored form of an account: one variant per schema version.
pub enum UpgradableAccount {
    BananaAccount(Account),
}

impl From<UpgradableAccount> for Account {
    fn from(account: UpgradableAccount) -> (r: Account)
        ensures
            r == (match account {
                UpgradableAccount::BananaAccount(a) => a,
            }),
    {
        match account {
            UpgradableAccount::BananaAccount(account) => account,
        }
    }
}

impl vstd::std_specs::convert::FromSpecImpl<UpgradableAccount> for Account {
    open spec fn obeys_from_spec() -> bool {
        true
    }

    open spec fn from_spec(v: UpgradableAccount) -> Account {
        match v {
            UpgradableAccount::BananaAccount(a) => a,
        }
    }
}

impl From<Account> for UpgradableAccount {
    fn from(account: Account) -> (r: UpgradableAccount)
        ensures
            r == UpgradableAccount::BananaAccount(account),
    {
        UpgradableAccount::BananaAccount(account)
    }
}

impl vstd::std_specs::convert::FromSpecImpl<Account> for UpgradableAccount {
    open spec fn obeys_from_spec() -> bool {
        true
    }

    open spec fn from_spec(v: Account) -> UpgradableAccount {
        UpgradableAccount::BananaAccount(v)
    }
}

/// The time up to which accrual runs: never past the campaign end.
pub open spec fn accrual_time(now: u64, ends: u64) -> u64 {
    if now < ends {
        now
    } else {
        ends
    }
}

/// Yield that `a` accrues between its last accrual and `accrual_time(now, ends)`.
pub open spec fn accrued(a: Account, reward_rate: u128, ends: u64, now: u64) -> int {
    let t = accrual_time(now, ends);
    if t > a.claim_timestamp {
        a.num_pixels * (t - a.claim_timestamp) * reward_rate
    } else {
        0
    }
}

/// The accrual of `a` fits in the yield balance.
pub open spec fn touch_fits(a: Account, reward_rate: u128, ends: u64, now: u64) -> bool {
    a.cheddar_balance + accrued(a, reward_rate, ends, now) <= u128::MAX
}

/// `a` after accrual up to `accrual_time(now, ends)`; unchanged when no time has passed.
pub open spec fn touched(a: Account, reward_rate: u128, ends: u64, now: u64) -> Account {
    let t = accrual_time(now, ends);
    if t > a.claim_timestamp {
        Account {
            cheddar_balance: (a.cheddar_balance + accrued(a, reward_rate, ends, now)) as u128,
            claim_timestamp: t,
            ..a
        }
    } else {
        a
    }
}

/// Draw tokens bought with `near_amount`, with the volume discount at and above the threshold.
pub open spec fn milk_for_near(near_amount: u128, milk_price: u128) -> int {
    if near_amount >= MIN_AMOUNT_FOR_DISCOUNT {
        near_amount as int / milk_price as int / 5 * 6
    } else {
        near_amount as int / milk_price as int
    }
}

/// Once accrued at `now`, an account accrues nothing more at `now`, whatever its cell count.
pub proof fn lemma_touch_settled(a: Account, b: Account, reward_rate: u128, ends: u64, now: u64)
    requires
        touch_fits(a, reward_rate, ends, now),
        b == (Account { num_pixels: b.num_pixels, ..touched(a, reward_rate, ends, now) }),
    ensures
        accrued(b, reward_rate, ends, now) == 0,
        touch_fits(b, reward_rate, ends, now),
        touched(b, reward_rate, ends, now) == b,
{
}

/// The empty predicate: the record may be dropped from storage.
pub open spec fn account_is_empty(a: Account) -> bool {
    a.account_id@.len() > 0 && (a.milk_balance == 0 || a.milk_balance == DEFAULT_MILK_BALANCE)
        && a.cheddar_balance == 0 && a.num_pixels == 0
}

pub open spec fn balance_of(a: Account, berry: Berry) -> u128 {
    match berry {
        Berry::Milk => a.milk_balance,
        Berry::Cheddar => a.cheddar_balance,
    }
}

impl Account {
    pub open spec fn new_spec(account_id: String, account_index: AccountIndex, now: u64) -> Account {
        Account {
            account_id,
            account_index,
            milk_balance: DEFAULT_MILK_BALANCE as u128,
            cheddar_balance: 0,
            num_pixels: 0,
            claim_timestamp: now,
            mint_funded: false,
        }
    }

    /// A fresh account with the default draw-token grant, created at time `now`.
    pub fn new(account_id: String, account_index: AccountIndex, now: u64) -> (r: Account)
        ensures
            r == Account::new_spec(account_id, account_index, now),
    {
        Account {
            account_id,
            account_index,
            milk_balance: DEFAULT_MILK_BALANCE as u128,
            cheddar_balance: 0,
            num_pixels: 0,
            claim_timestamp: now,
            mint_funded: false,
        }
    }

    /// An identical record.
    pub fn copy(&self) -> (r: Account)
        ensures
            r == *self,
    {
        Account {
            account_id: self.account_id.clone(),
            account_index: self.account_index,
            milk_balance: self.milk_balance,
            cheddar_balance: self.cheddar_balance,
            num_pixels: self.num_pixels,
            claim_timestamp: self.claim_timestamp,
            mint_funded: self.mint_funded,
        }
    }

    pub fn is_empty(&self) -> (r: bool)
        ensures
            r == account_is_empty(*self),
    {
        !self.account_id.as_str().is_empty() && (self.milk_balance == 0 || self.milk_balance
            == DEFAULT_MILK_BALANCE as u128) && self.cheddar_balance == 0 && self.num_pixels == 0
    }

    pub fn balance(&self, berry: Berry) -> (r: Balance)
        ensures
            r == balance_of(*self, berry),
    {
        match berry {
            Berry::Milk => self.milk_balance,
            Berry::Cheddar => self.cheddar_balance,
        }
    }

    /// Buys draw tokens for `near_amount`; returns how many were bought.
    /// `None`, with the account unchanged, when the balance would not fit.
    pub fn buy_tokens(&mut self, near_amount: Balance, milk_price: Balance) -> (r: Option<Balance>)
        requires
            milk_price > 0,
        ensures
            old(self).milk_balance + milk_for_near(near_amount, milk_price) <= u128::MAX ==> r
                == Some(milk_for_near(near_amount, milk_price) as u128) && *final(self) == (Account {
                milk_balance: (old(self).milk_balance + milk_for_near(near_amount, milk_price)) as u128,
                ..*old(self)
            }),
            old(self).milk_balance + milk_for_near(near_amount, milk_price) > u128::MAX ==> r is None
                && *final(self) == *old(self),
    {
        let amount: u128 = if near_amount >= MIN_AMOUNT_FOR_DISCOUNT {
            match (near_amount / milk_price / 5).checked_mul(6) {
                Some(a) => a,
                None => return None,
            }
        } else {
            near_amount / milk_price
        };
        match self.milk_balance.checked_add(amount) {
            Some(b) => {
                self.milk_balance = b;
                Some(amount)
            },
            None => None,
        }
    }

    /// Converts `cheddar` yield tokens into draw tokens at `milk_price` yield per draw token.
    pub fn buy_milk_with_cheddar(&mut self, cheddar: Balance, milk_price: Balance) -> (r: Result<
        Balance,
        crate::place::LedgerError,
    >)
        requires
            milk_price > 0,
        ensures
            old(self).cheddar_balance < cheddar ==> r == Err::<Balance, _>(
                crate::place::LedgerError::InsufficientBalance,
            ) && *final(self) == *old(self),
            old(self).cheddar_balance >= cheddar && old(self).milk_balance + cheddar / milk_price
                > u128::MAX ==> r == Err::<Balance, _>(crate::place::LedgerError::Overflow)
                && *final(self) == *old(self),
            old(self).cheddar_balance >= cheddar && old(self).milk_balance + cheddar / milk_price
                <= u128::MAX ==> r == Ok::<Balance, crate::place::LedgerError>(cheddar / milk_price)
                && *final(self) == (Account {
                milk_balance: (old(self).milk_balance + cheddar / milk_price) as u128,
                cheddar_balance: (old(self).cheddar_balance - cheddar) as u128,
                ..*old(self)
            }),
    {
        if self.cheddar_balance < cheddar {
            return Err(crate::place::LedgerError::InsufficientBalance);
        }
        let amount = cheddar / milk_price;
        match self.milk_balance.checked_add(amount) {
            Some(b) => {
                self.milk_balance = b;
                self.cheddar_balance = self.cheddar_balance - cheddar;
                Ok(amount)
            },
            None => Err(crate::place::LedgerError::Overflow),
        }
    }

    /// The yield that `touch` would accrue now, or `None` when the yield balance would not fit.
    pub fn farmable(&self, reward_rate: Balance, ends: u64, now: u64) -> (r: Option<Balance>)
        ensures
            touch_fits(*self, reward_rate, ends, now) ==> r == Some(
                accrued(*self, reward_rate, ends, now) as u128,
            ),
            !touch_fits(*self, reward_rate, ends, now) ==> r is None,
    {
        let block_timestamp = if now < ends {
            now
        } else {
            ends
        };
        if block_timestamp <= self.claim_timestamp {
            return Some(0);
        }
        let time_diff = block_timestamp - self.claim_timestamp;
        let pixels = self.num_pixels as u128;
        let farmed = match pixels.checked_mul(time_diff as u128) {
            Some(p) => match p.checked_mul(reward_rate) {
                Some(f) => f,
                None => {
                    proof {
                        lemma_product_overflow(pixels as int, time_diff as int, reward_rate as int);
                    }
                    return None;
                },
            },
            None => {
                proof {
                    lemma_product_overflow_first(
                        pixels as int,
                        time_diff as int,
                        reward_rate as int,
                    );
                }
                if reward_rate == 0 {
                    0
                } else {
                    return None;
                }
            },
        };
        match self.cheddar_balance.checked_add(farmed) {
            Some(_) => Some(farmed),
            None => None,
        }
    }

    /// Accrues yield up to `min(now, ends)` and returns the amount accrued.
    /// `None`, with the account unchanged, when the yield balance would not fit.
    pub fn touch(&mut self, reward_rate: Balance, ends: u64, now: u64) -> (r: Option<Balance>)
        ensures
            touch_fits(*old(self), reward_rate, ends, now) ==> r == Some(
                accrued(*old(self), reward_rate, ends, now) as u128,
            ) && *final(self) == touched(*old(self), reward_rate, ends, now),
            !touch_fits(*old(self), reward_rate, ends, now) ==> r is None && *final(self)
                == *old(self),
    {
        let farmed = match self.farmable(reward_rate, ends, now) {
            Some(f) => f,
            None => return None,
        };
        let block_timestamp = if now < ends {
            now
        } else {
            ends
        };
        if block_timestamp > self.claim_timestamp {
            self.cheddar_balance = self.cheddar_balance + farmed;
            self.claim_timestamp = block_timestamp;
        }
        Some(farmed)
    }

    /// Debits `num_pixels` units of `berry`; returns the cost.
    pub fn charge(&mut self, berry: Berry, num_pixels: u32) -> (r: Result<Balance, crate::place::LedgerError>)
        ensures
            balance_of(*old(self), berry) < num_pixels ==> r == Err::<Balance, _>(
                crate::place::LedgerError::InsufficientBalance,
            ) && *final(self) == *old(self),
            balance_of(*old(self), berry) >= num_pixels ==> r == Ok::<Balance, crate::place::LedgerError>(
                num_pixels as u128,
            ) && balance_of(*final(self), berry) == balance_of(*old(self), berry) - num_pixels
                && *final(self) == (match berry {
                Berry::Milk => Account {
                    milk_balance: (old(self).milk_balance - num_pixels) as u128,
                    ..*old(self)
                },
                Berry::Cheddar => Account {
                    cheddar_balance: (old(self).cheddar_balance - num_pixels) as u128,
                    ..*old(self)
                },
            }),
    {
        let cost = num_pixels as u128;
        match berry {
            Berry::Milk => {
                if self.milk_balance < cost {
                    return Err(crate::place::LedgerError::InsufficientBalance);
                }
                self.milk_balance = self.milk_balance - cost;
            },
            Berry::Cheddar => {
                if self.cheddar_balance < cost {
                    return Err(crate::place::LedgerError::InsufficientBalance);
                }
                self.cheddar_balance = self.cheddar_balance - cost;
            },
        }
        Ok(cost)
    }
}

proof fn lemma_product_overflow(a: int, b: int, c: int)
    requires
        a >= 0,
        b >= 0,
        c >= 0,
        a * b <= u128::MAX,
        (a * b) * c > u128::MAX,
    ensures
        a * b * c > u128::MAX,
{
}

proof fn lemma_product_overflow_first(a: int, b: int, c: int)
    requires
        a >= 0,
        b >= 0,
        c >= 0,
        a * b > u128::MAX,
    ensures
        c == 0 ==> a * b * c == 0,
        c > 0 ==> a * b * c > u128::MAX,
{
    if c > 0 {
        assert(a * b * c >= a * b) by (nonlinear_arith)
            requires
                a * b >= 0,
                c >= 1,
        ;
    }
}

} // verus!
