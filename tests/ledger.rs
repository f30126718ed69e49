use pixel_board::account::{Account, Berry, DEFAULT_MILK_BALANCE, MIN_AMOUNT_FOR_DISCOUNT, ONE_NEAR};
use pixel_board::board::{SetPixelRequest, TOTAL_NUM_PIXELS};
use pixel_board::place::{
    initialize, LedgerError, Place, FIRST_MINT_DEPOSIT, INITIAL_MILK_PRICE, INITIAL_REWARD_RATE,
    SAFETY_BAR, STORAGE_PRICE_PER_BYTE,
};

const SEC: u64 = 1_000_000_000;

fn ledger() -> Place {
    Place::new(
        "token.cheddar.near".to_string(),
        "admin.cheddar.near".to_string(),
        "treasury.near".to_string(),
        "place.meta".to_string(),
        3600,
        0,
    )
}

fn s(x: &str) -> String {
    x.to_string()
}

fn px(x: u8, y: u8) -> SetPixelRequest {
    SetPixelRequest { x, y, color: 7 }
}

fn row(y: u8, n: u8) -> Vec<SetPixelRequest> {
    (0..n).map(|x| px(x, y)).collect()
}

fn total_pixels(p: &Place) -> u64 {
    p.accounts.iter().flatten().map(|a| a.num_pixels as u64).sum()
}

fn cheddar(p: &Place, id: &str) -> u128 {
    p.get_internal_account_by_id(&s(id)).unwrap().cheddar_balance
}

#[test]
fn new_ledger_gives_every_cell_to_itself() {
    let p = ledger();
    assert_eq!(p.get_num_accounts(), 1);
    assert_eq!(p.get_account_num_pixels(&s("place.meta")), TOTAL_NUM_PIXELS);
    assert_eq!(total_pixels(&p), TOTAL_NUM_PIXELS as u64);
    assert_eq!(p.ends, 3600 * SEC);
    assert_eq!(p.reward_rate, INITIAL_REWARD_RATE);
    assert_eq!(p.milk_price, INITIAL_MILK_PRICE);
    assert!(p.is_active());
    assert_eq!(p.get_settings().reward_rate, INITIAL_REWARD_RATE * 1_000_000);
}

#[test]
fn second_initialization_is_refused() {
    let mut state: Option<Place> = None;
    let r = initialize(&mut state, s("token.cheddar.near"), s("admin.cheddar.near"), s("t"), s("place.meta"), 3600, 5);
    assert_eq!(r, Ok(()));
    let before = state.as_ref().unwrap().get_num_accounts();
    let r2 = initialize(&mut state, s("other"), s("other"), s("t"), s("place.meta"), 10, 9);
    assert_eq!(r2, Err(LedgerError::AlreadyInitialized));
    let p = state.unwrap();
    assert_eq!(p.get_num_accounts(), before);
    assert_eq!(p.admin, "admin.cheddar.near");
    assert_eq!(p.ends, 3600 * SEC);
}

#[test]
fn accrual_twice_without_elapsed_time_is_a_no_op() {
    let mut a = Account::new(s("alice"), 1, 100);
    a.num_pixels = 10;
    assert_eq!(a.touch(3, u64::MAX, 150), Some(10 * 50 * 3));
    assert_eq!(a.cheddar_balance, 1500);
    assert_eq!(a.claim_timestamp, 150);
    assert_eq!(a.touch(3, u64::MAX, 150), Some(0));
    assert_eq!(a.cheddar_balance, 1500);
    assert_eq!(a.claim_timestamp, 150);
}

#[test]
fn accrual_stops_at_campaign_end() {
    let mut a = Account::new(s("alice"), 1, 100);
    a.num_pixels = 4;
    assert_eq!(a.touch(2, 130, 1000), Some(4 * 30 * 2));
    assert_eq!(a.claim_timestamp, 130);
}

#[test]
fn accrual_overflow_fails_and_leaves_account() {
    let mut a = Account::new(s("alice"), 1, 0);
    a.num_pixels = 10;
    assert_eq!(a.touch(u128::MAX, u64::MAX, 10), None);
    assert_eq!(a.cheddar_balance, 0);
    assert_eq!(a.claim_timestamp, 0);
}

#[test]
fn empty_draw_changes_nothing() {
    let mut p = ledger();
    let r = p.draw(&s("alice"), &Vec::new(), 10 * SEC);
    assert_eq!(r, Ok(()));
    assert_eq!(p.get_num_accounts(), 1);
    assert_eq!(p.used_milk, 0);
    assert_eq!(p.farmed_cheddar, 0);
    assert_eq!(p.get_account_num_pixels(&s("place.meta")), TOTAL_NUM_PIXELS);
}

#[test]
fn draw_charges_and_moves_cells() {
    let mut p = ledger();
    assert_eq!(p.draw(&s("alice"), &row(0, 2), SEC), Ok(()));
    let a = p.get_internal_account_by_id(&s("alice")).unwrap();
    assert_eq!(a.milk_balance, 0);
    assert_eq!(a.num_pixels, 2);
    assert_eq!(a.account_index, 1);
    assert_eq!(p.used_milk, 2);
    assert_eq!(p.get_account_num_pixels(&s("place.meta")), TOTAL_NUM_PIXELS - 2);
    assert_eq!(total_pixels(&p), TOTAL_NUM_PIXELS as u64);
    assert_eq!(p.board.owners[0], 1);
    assert_eq!(p.board.colors[1], 7);
}

#[test]
fn redrawing_own_cells_costs_but_does_not_double_count() {
    let mut p = ledger();
    assert_eq!(p.milk(&s("admin.cheddar.near"), &s("alice"), SEC), Ok(()));
    assert_eq!(p.draw(&s("alice"), &row(0, 3), SEC), Ok(()));
    assert_eq!(p.draw(&s("alice"), &vec![px(0, 0), px(1, 0), px(0, 0)], 2 * SEC), Ok(()));
    let a = p.get_internal_account_by_id(&s("alice")).unwrap();
    assert_eq!(a.num_pixels, 3);
    assert_eq!(a.milk_balance, 7002 - 6);
    assert_eq!(total_pixels(&p), TOTAL_NUM_PIXELS as u64);
}

#[test]
fn cells_are_conserved_over_many_draws() {
    let mut p = ledger();
    for (i, who) in ["a", "b", "c"].iter().enumerate() {
        assert_eq!(p.milk(&s("admin.cheddar.near"), &s(who), SEC), Ok(()));
        assert_eq!(p.draw(&s(who), &row(i as u8, 50), (2 + i as u64) * SEC), Ok(()));
        assert_eq!(p.draw(&s(who), &row(0, 20 + 10 * i as u8), (3 + i as u64) * SEC), Ok(()));
        assert_eq!(total_pixels(&p), TOTAL_NUM_PIXELS as u64);
    }
    assert_eq!(p.get_account_num_pixels(&s("c")), 50 + 40);
    assert_eq!(p.get_account_num_pixels(&s("a")), 10);
}

#[test]
fn displaced_owner_is_settled_before_losing_cells() {
    let mut p = ledger();
    let t0 = 10 * SEC;
    assert_eq!(p.milk(&s("admin.cheddar.near"), &s("a"), t0), Ok(()));
    assert_eq!(p.draw(&s("a"), &row(5, 10), t0), Ok(()));
    assert_eq!(p.get_account_num_pixels(&s("a")), 10);
    let before = cheddar(&p, "a");
    let t = 7 * SEC;
    assert_eq!(p.milk(&s("admin.cheddar.near"), &s("b"), t0), Ok(()));
    assert_eq!(p.draw(&s("b"), &row(5, 4), t0 + t), Ok(()));
    let a = p.get_internal_account_by_id(&s("a")).unwrap();
    assert_eq!(a.cheddar_balance, before + 10 * (t as u128) * INITIAL_REWARD_RATE);
    assert_eq!(a.num_pixels, 6);
    assert_eq!(a.claim_timestamp, t0 + t);
    assert_eq!(p.get_account_num_pixels(&s("b")), 4);
}

#[test]
fn draw_errors_leave_ledger_unchanged() {
    let mut p = ledger();
    assert_eq!(p.draw(&s("alice"), &row(0, 3), SEC), Err(LedgerError::InsufficientBalance));
    assert_eq!(p.draw(&s("alice"), &vec![px(80, 0)], SEC), Err(LedgerError::InvalidCell));
    assert_eq!(p.draw(&s("alice"), &row(0, 1), 3601 * SEC), Err(LedgerError::NotActive));
    assert_eq!(p.get_num_accounts(), 1);
    assert_eq!(p.used_milk, 0);
    assert_eq!(p.toggle_active(&s("admin.cheddar.near")), Ok(()));
    assert_eq!(p.draw(&s("alice"), &row(0, 1), SEC), Err(LedgerError::NotActive));
}

#[test]
fn withdraw_zeroes_yield_and_requests_mint() {
    let mut p = ledger();
    assert_eq!(p.draw(&s("a"), &row(0, 2), SEC), Ok(()));
    let r = p.withdraw_crop(&s("a"), 5 * SEC).unwrap();
    let expected = 2 * 4 * (SEC as u128) * INITIAL_REWARD_RATE;
    assert_eq!(r.receiver, "a");
    assert_eq!(r.amount, expected);
    assert_eq!(r.deposit, FIRST_MINT_DEPOSIT);
    assert_eq!(cheddar(&p, "a"), 0);
    assert!(p.get_internal_account_by_id(&s("a")).unwrap().mint_funded);
    assert_eq!(p.mint_funded, 1);
    assert_eq!(p.withdraw_crop(&s("a"), 5 * SEC).unwrap_err(), LedgerError::ZeroAmount);
    let r2 = p.withdraw_crop(&s("a"), 6 * SEC).unwrap();
    assert_eq!(r2.amount, 2 * (SEC as u128) * INITIAL_REWARD_RATE);
    assert_eq!(r2.deposit, 1);
    assert_eq!(p.mint_funded, 1);
}

#[test]
fn withdraw_refusals() {
    let mut p = ledger();
    assert_eq!(p.withdraw_crop(&s("nobody"), SEC).unwrap_err(), LedgerError::AccountNotFound);
    assert_eq!(p.add_to_blacklist(&s("admin.cheddar.near"), s("bad")), Ok(()));
    assert!(p.is_blacklisted(&s("bad")));
    assert_eq!(p.withdraw_crop(&s("bad"), SEC).unwrap_err(), LedgerError::Blacklisted);
    assert_eq!(p.remove_from_blacklist(&s("admin.cheddar.near"), s("bad")), Ok(()));
    assert!(!p.is_blacklisted(&s("bad")));
    assert_eq!(p.withdraw_crop(&s("bad"), SEC).unwrap_err(), LedgerError::AccountNotFound);
}

#[test]
fn failed_mint_resets_yield_including_interim_accrual() {
    let mut p = ledger();
    assert_eq!(p.draw(&s("a"), &row(0, 2), SEC), Ok(()));
    let r = p.withdraw_crop(&s("a"), 5 * SEC).unwrap();
    assert_eq!(
        p.mint_callback(&s("a"), &s("a"), r.amount, false, 9 * SEC),
        Err(LedgerError::NotAuthorized)
    );
    assert_eq!(p.mint_callback(&s("place.meta"), &s("a"), r.amount, false, 9 * SEC), Ok(()));
    let a = p.get_internal_account_by_id(&s("a")).unwrap();
    assert_eq!(a.cheddar_balance, 0);
    assert_eq!(a.claim_timestamp, 9 * SEC);
}

#[test]
fn successful_mint_drops_only_empty_accounts() {
    let mut p = ledger();
    assert_eq!(p.register_account(&s("idle"), SEC), Ok(()));
    assert_eq!(p.ft_on_transfer(&s("token.cheddar.near"), &s("idle"), 5, SEC), Ok(0));
    let r = p.withdraw_crop(&s("idle"), SEC).unwrap();
    assert_eq!(r.amount, 5);
    assert_eq!(p.draw(&s("busy"), &row(0, 1), SEC), Ok(()));
    assert_eq!(p.mint_callback(&s("place.meta"), &s("busy"), 0, true, 2 * SEC), Ok(()));
    assert!(p.get_internal_account_by_id(&s("busy")).is_some());
    assert_eq!(p.mint_callback(&s("place.meta"), &s("idle"), 5, true, 2 * SEC), Ok(()));
    assert!(p.get_internal_account_by_id(&s("idle")).is_none());
    assert!(p.account_exists(&s("idle")));
    assert_eq!(p.register_account(&s("idle"), 3 * SEC), Ok(()));
    assert_eq!(p.get_internal_account_by_id(&s("idle")).unwrap().account_index, 3);
    assert_eq!(total_pixels(&p), TOTAL_NUM_PIXELS as u64);
}

#[test]
fn deposits_are_checked() {
    let mut p = ledger();
    assert_eq!(p.register_account(&s("a"), SEC), Ok(()));
    assert_eq!(p.ft_on_transfer(&s("fake.near"), &s("a"), 5, SEC), Err(LedgerError::InvalidExternalSender));
    assert_eq!(p.ft_on_transfer(&s("token.cheddar.near"), &s("a"), 0, SEC), Err(LedgerError::ZeroAmount));
    assert_eq!(p.ft_on_transfer(&s("token.cheddar.near"), &s("b"), 5, SEC), Err(LedgerError::AccountNotFound));
    assert_eq!(p.ft_on_transfer(&s("token.cheddar.near"), &s("a"), 5, SEC), Ok(0));
    assert_eq!(cheddar(&p, "a"), 5);
}

#[test]
fn discount_applies_from_the_threshold_exactly() {
    let price = INITIAL_MILK_PRICE;
    let mut a = Account::new(s("a"), 1, 0);
    assert_eq!(a.buy_tokens(MIN_AMOUNT_FOR_DISCOUNT, price), Some(2000 / 5 * 6));
    let mut b = Account::new(s("b"), 2, 0);
    assert_eq!(b.buy_tokens(MIN_AMOUNT_FOR_DISCOUNT - 1, price), Some(1999));
    assert_eq!(a.balance(Berry::Milk), 2400 + DEFAULT_MILK_BALANCE as u128);
}

#[test]
fn buying_tokens_through_the_ledger() {
    let mut p = ledger();
    assert_eq!(p.buy_tokens(&s("a"), ONE_NEAR / 20, SEC), Err(LedgerError::PaymentTooSmall));
    assert_eq!(p.buy_tokens(&s("a"), ONE_NEAR, SEC), Ok(400));
    assert_eq!(p.get_account_balance(&s("a")), 402);
    assert_eq!(p.bought_milk, 400);
    assert_eq!(p.get_account_balance(&s("nobody")), DEFAULT_MILK_BALANCE);
}

#[test]
fn buying_milk_with_cheddar() {
    let mut p = ledger();
    assert_eq!(p.register_account(&s("a"), SEC), Ok(()));
    let unit = INITIAL_MILK_PRICE * 120;
    assert_eq!(p.buy_milk_with_cheddar(&s("a"), unit, SEC), Err(LedgerError::InsufficientBalance));
    assert_eq!(p.ft_on_transfer(&s("token.cheddar.near"), &s("a"), 3 * unit + 1, SEC), Ok(0));
    assert_eq!(p.buy_milk_with_cheddar(&s("a"), 3 * unit, SEC), Ok(3));
    let a = p.get_internal_account_by_id(&s("a")).unwrap();
    assert_eq!(a.milk_balance, 5);
    assert_eq!(a.cheddar_balance, 1);
}

#[test]
fn charge_refuses_overdraft() {
    let mut a = Account::new(s("a"), 1, 0);
    assert_eq!(a.charge(Berry::Milk, 3), Err(LedgerError::InsufficientBalance));
    assert_eq!(a.charge(Berry::Milk, 2), Ok(2));
    assert_eq!(a.milk_balance, 0);
}

#[test]
fn empty_predicate() {
    let mut a = Account::new(s("a"), 1, 0);
    assert!(a.is_empty());
    a.milk_balance = 1;
    assert!(!a.is_empty());
    a.milk_balance = 0;
    a.num_pixels = 1;
    assert!(!a.is_empty());
    assert!(!Account::new(s(""), 1, 0).is_empty());
}

#[test]
fn views_apply_accrual_without_writing() {
    let mut p = ledger();
    assert_eq!(p.draw(&s("a"), &row(0, 2), SEC), Ok(()));
    let v = p.get_account(&s("a"), 3 * SEC).unwrap();
    assert_eq!(v.banana_balance, 2 * 2 * (SEC as u128) * INITIAL_REWARD_RATE);
    assert_eq!(v.num_pixels, 2);
    assert_eq!(cheddar(&p, "a"), 0);
    let w = p.get_account_by_index(1, 3 * SEC).unwrap();
    assert_eq!(w.banana_balance, v.banana_balance);
    assert_eq!(p.get_account_id_by_index(1), Some(s("a")));
    assert_eq!(p.get_account_id_by_index(9), None);
    assert!(p.get_account(&s("zed"), SEC).is_none());
}

#[test]
fn admin_functions_need_the_admin() {
    let mut p = ledger();
    assert_eq!(p.update_reward_rate(&s("a"), 5), Err(LedgerError::NotAuthorized));
    assert_eq!(p.update_reward_rate(&s("admin.cheddar.near"), 5), Ok(()));
    assert_eq!(p.reward_rate, 5);
    assert_eq!(p.set_end(&s("admin.cheddar.near"), 10), Ok(()));
    assert_eq!(p.ends, 10 * SEC);
    assert_eq!(p.set_start(&s("admin.cheddar.near"), 2), Ok(()));
    assert_eq!(p.starts, 2 * SEC);
    assert_eq!(p.set_end(&s("admin.cheddar.near"), u64::MAX), Err(LedgerError::Overflow));
    assert_eq!(p.change_admin(&s("admin.cheddar.near"), s("new.admin")), Ok(()));
    assert_eq!(p.milk(&s("admin.cheddar.near"), &s("a"), 3 * SEC), Err(LedgerError::NotAuthorized));
    let st = p.stats();
    assert_eq!(st.cheddar_milk_price, INITIAL_MILK_PRICE * 120);
    assert_eq!(st.starts_at, 2 * SEC);
}

#[test]
fn liquid_balance_above_storage_and_safety_bar() {
    let p = ledger();
    let locked = 1000u128 * STORAGE_PRICE_PER_BYTE + SAFETY_BAR;
    assert_eq!(p.withdraw_near(locked + 77, 1000), 77);
    assert_eq!(p.withdraw_near(locked, 1000), 0);
    assert_eq!(p.withdraw_near(u128::MAX, u64::MAX), 0);
}

#[test]
fn resolving_an_account_stores_nothing() {
    let mut p = ledger();
    let fresh = p.get_mut_account(&s("newcomer"), 2 * SEC).unwrap();
    assert_eq!(fresh.account_index, 1);
    assert_eq!(fresh.milk_balance, DEFAULT_MILK_BALANCE as u128);
    assert_eq!(fresh.claim_timestamp, 2 * SEC);
    assert_eq!(p.get_num_accounts(), 1);
    assert!(!p.account_exists(&s("newcomer")));

    assert_eq!(p.draw(&s("a"), &row(0, 2), SEC), Ok(()));
    let farmed_before = p.farmed_cheddar;
    let touched = p.get_mut_account(&s("a"), 4 * SEC).unwrap();
    let expected = 2 * 3 * (SEC as u128) * INITIAL_REWARD_RATE;
    assert_eq!(touched.cheddar_balance, expected);
    assert_eq!(touched.claim_timestamp, 4 * SEC);
    assert_eq!(cheddar(&p, "a"), 0);
    assert_eq!(p.get_internal_account_by_id(&s("a")).unwrap().claim_timestamp, SEC);
    assert_eq!(p.farmed_cheddar, farmed_before + expected);
    p.save_account(&s("a"), touched);
    assert_eq!(cheddar(&p, "a"), expected);
}

#[test]
fn draw_adds_exactly_the_accrued_yield_to_the_farmed_total() {
    let mut p = ledger();
    assert_eq!(p.milk(&s("admin.cheddar.near"), &s("a"), SEC), Ok(()));
    assert_eq!(p.draw(&s("a"), &row(1, 5), SEC), Ok(()));
    assert_eq!(p.milk(&s("admin.cheddar.near"), &s("b"), SEC), Ok(()));
    assert_eq!(p.draw(&s("b"), &row(0, 3), SEC), Ok(()));
    let before = p.farmed_cheddar;
    assert_eq!(p.draw(&s("b"), &vec![px(0, 1), px(1, 1)], 3 * SEC), Ok(()));
    let a_part = 5 * 2 * (SEC as u128) * INITIAL_REWARD_RATE;
    let b_part = 3 * 2 * (SEC as u128) * INITIAL_REWARD_RATE;
    let genesis_part = (TOTAL_NUM_PIXELS as u128 - 8) * 2 * (SEC as u128) * INITIAL_REWARD_RATE;
    assert_eq!(p.farmed_cheddar, before + a_part + b_part);
    assert_eq!(cheddar(&p, "a"), a_part);
    assert!(cheddar(&p, "place.meta") < genesis_part);
}

#[test]
fn claimed_cells_take_the_last_requested_colour() {
    let mut p = ledger();
    assert_eq!(p.milk(&s("admin.cheddar.near"), &s("a"), SEC), Ok(()));
    let reqs = vec![
        SetPixelRequest { x: 3, y: 2, color: 11 },
        SetPixelRequest { x: 4, y: 2, color: 12 },
        SetPixelRequest { x: 3, y: 2, color: 13 },
    ];
    assert_eq!(p.draw(&s("a"), &reqs, SEC), Ok(()));
    assert_eq!(p.board.colors[2 * 80 + 3], 13);
    assert_eq!(p.board.colors[2 * 80 + 4], 12);
    assert_eq!(p.board.colors[2 * 80 + 5], 0);
    assert_eq!(p.get_account_num_pixels(&s("a")), 2);
}

#[test]
fn deposit_accrues_before_crediting() {
    let mut p = ledger();
    assert_eq!(p.draw(&s("a"), &row(0, 2), SEC), Ok(()));
    let farmed_before = p.farmed_cheddar;
    assert_eq!(p.ft_on_transfer(&s("token.cheddar.near"), &s("a"), 5, 2 * SEC), Ok(0));
    let accrued = 2 * (SEC as u128) * INITIAL_REWARD_RATE;
    let a = p.get_internal_account_by_id(&s("a")).unwrap();
    assert_eq!(a.cheddar_balance, accrued + 5);
    assert_eq!(a.claim_timestamp, 2 * SEC);
    assert_eq!(p.farmed_cheddar, farmed_before + accrued);
}
