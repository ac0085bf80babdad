use pallet_erc20::{Config, Error, Event, Pallet};

fn new_ledger() -> Pallet {
    Pallet::new(Config::new(b"Token".to_vec(), b"TKN".to_vec(), 18))
}

fn balance_sum(token: &Pallet, accounts: &[u64]) -> u64 {
    accounts.iter().map(|a| token.balances(*a) as u64).sum()
}

#[test]
fn fresh_ledger_reads_zero() {
    let token = new_ledger();
    assert_eq!(token.balances(7), 0);
    assert_eq!(token.allowances(7, 8), 0);
    assert_eq!(token.total_supply(), None);
    assert_eq!(token.owner(), None);
    assert!(token.events().is_empty());
}

#[test]
fn untouched_accounts_read_zero_after_operations() {
    let mut token = new_ledger();
    assert_eq!(token.init(1, 1000), Ok(()));
    assert_eq!(token.transfer(1, 2, 100), Ok(()));
    assert_eq!(token.approve(1, 2, 50), Ok(()));
    assert_eq!(token.balances(9), 0);
    assert_eq!(token.allowances(1, 9), 0);
    assert_eq!(token.allowances(9, 2), 0);
}

#[test]
fn balances_add_up_to_supply_through_a_sequence() {
    let mut token = new_ledger();
    let accounts = [1, 2, 3, 4];
    assert_eq!(token.init(1, 1000), Ok(()));
    assert_eq!(balance_sum(&token, &accounts), 1000);
    assert_eq!(token.transfer(1, 2, 300), Ok(()));
    assert_eq!(balance_sum(&token, &accounts), 1000);
    assert_eq!(token.approve(2, 3, 200), Ok(()));
    assert_eq!(balance_sum(&token, &accounts), 1000);
    assert_eq!(token.transfer_from(3, 2, 4, 150), Ok(()));
    assert_eq!(balance_sum(&token, &accounts), 1000);
    assert_eq!(token.transfer(4, 4, 100), Ok(()));
    assert_eq!(balance_sum(&token, &accounts), 1000);
    assert_eq!(token.balances(1), 700);
    assert_eq!(token.balances(2), 150);
    assert_eq!(token.balances(3), 0);
    assert_eq!(token.balances(4), 150);
    assert_eq!(token.allowances(2, 3), 50);
    assert_eq!(token.total_supply(), Some(1000));
}

#[test]
fn failed_second_init_changes_nothing() {
    let mut token = new_ledger();
    assert_eq!(token.init(1, 1000), Ok(()));
    assert_eq!(token.init(2, 5), Err(Error::AlreadyInitialized));
    assert_eq!(token.owner(), Some(1));
    assert_eq!(token.total_supply(), Some(1000));
    assert_eq!(token.balances(1), 1000);
    assert_eq!(token.balances(2), 0);
    assert_eq!(token.events().len(), 1);
}

#[test]
fn failed_transfer_keeps_both_balances() {
    let mut token = new_ledger();
    assert_eq!(token.init(1, 1000), Ok(()));
    assert_eq!(token.transfer(1, 2, 1001), Err(Error::BalanceNotEnough));
    assert_eq!(token.balances(1), 1000);
    assert_eq!(token.balances(2), 0);
}

#[test]
fn transfer_of_whole_balance_succeeds() {
    let mut token = new_ledger();
    assert_eq!(token.init(1, 1000), Ok(()));
    assert_eq!(token.transfer(1, 2, 1000), Ok(()));
    assert_eq!(token.balances(1), 0);
    assert_eq!(token.balances(2), 1000);
}

#[test]
fn self_transfer_keeps_balance() {
    let mut token = new_ledger();
    assert_eq!(token.init(1, 1000), Ok(()));
    assert_eq!(token.transfer(1, 1, 400), Ok(()));
    assert_eq!(token.balances(1), 1000);
}

#[test]
fn second_approval_overwrites_first() {
    let mut token = new_ledger();
    assert_eq!(token.init(1, 1000), Ok(()));
    assert_eq!(token.approve(1, 2, 300), Ok(()));
    assert_eq!(token.approve(1, 2, 20), Ok(()));
    assert_eq!(token.allowances(1, 2), 20);
    assert_eq!(token.allowances(2, 1), 0);
}

#[test]
fn transfer_from_without_balance_changes_nothing() {
    let mut token = new_ledger();
    assert_eq!(token.init(1, 1000), Ok(()));
    assert_eq!(token.approve(1, 2, 1000), Ok(()));
    assert_eq!(token.transfer(1, 4, 50), Ok(()));
    assert_eq!(token.transfer_from(2, 1, 3, 1000), Err(Error::BalanceNotEnough));
    assert_eq!(token.allowances(1, 2), 1000);
    assert_eq!(token.balances(1), 950);
    assert_eq!(token.balances(3), 0);
}

#[test]
fn transfer_from_without_allowance_changes_nothing() {
    let mut token = new_ledger();
    assert_eq!(token.init(1, 1000), Ok(()));
    assert_eq!(token.approve(1, 2, 100), Ok(()));
    assert_eq!(token.transfer_from(2, 1, 3, 200), Err(Error::InsufficientAllowance));
    assert_eq!(token.allowances(1, 2), 100);
    assert_eq!(token.balances(1), 1000);
    assert_eq!(token.balances(3), 0);
}

#[test]
fn balance_is_checked_before_allowance() {
    let mut token = new_ledger();
    assert_eq!(token.init(1, 1000), Ok(()));
    assert_eq!(token.transfer_from(2, 1, 3, 2000), Err(Error::BalanceNotEnough));
}

#[test]
fn delegated_transfer_uses_up_allowance() {
    let mut token = new_ledger();
    assert_eq!(token.init(1, 1000), Ok(()));
    assert_eq!(token.approve(1, 2, 100), Ok(()));
    assert_eq!(token.transfer_from(2, 1, 3, 100), Ok(()));
    assert_eq!(token.allowances(1, 2), 0);
    assert_eq!(token.balances(1), 900);
    assert_eq!(token.balances(3), 100);
    let events = token.events();
    assert_eq!(events.len(), 4);
    assert_eq!(events[2], Event::TokenApproved { owner: 1, delegate: 2, num_of_tokens: 100 });
    assert_eq!(events[3], Event::TokenTransferred { from: 1, to: 3, num_of_tokens: 100 });
}

#[test]
fn mint_then_burn_moves_supply() {
    let mut token = new_ledger();
    assert_eq!(token.init(1, 1000), Ok(()));
    assert_eq!(token.mint(1, 2, 100), Ok(()));
    assert_eq!(token.balances(2), 100);
    assert_eq!(token.total_supply(), Some(1100));
    assert_eq!(token.burn(1, 2, 50), Ok(()));
    assert_eq!(token.balances(2), 50);
    assert_eq!(token.total_supply(), Some(1050));
    assert_eq!(token.events()[2], Event::TokenBurnt { from: 2, num_of_tokens: 50 });
}

#[test]
fn non_owner_cannot_mint_or_burn() {
    let mut token = new_ledger();
    assert_eq!(token.init(1, 1000), Ok(()));
    assert_eq!(token.mint(2, 2, 100), Err(Error::NotAuthorized));
    assert_eq!(token.burn(2, 1, 100), Err(Error::NotAuthorized));
    assert_eq!(token.balances(1), 1000);
    assert_eq!(token.balances(2), 0);
    assert_eq!(token.total_supply(), Some(1000));
    assert_eq!(token.events().len(), 1);
}

#[test]
fn operations_before_init_are_refused() {
    let mut token = new_ledger();
    assert_eq!(token.transfer(1, 2, 0), Err(Error::NotInitialized));
    assert_eq!(token.approve(1, 2, 0), Err(Error::NotInitialized));
    assert_eq!(token.transfer_from(2, 1, 3, 0), Err(Error::NotInitialized));
    assert_eq!(token.mint(1, 2, 10), Err(Error::NotAuthorized));
    assert_eq!(token.burn(1, 2, 0), Err(Error::NotAuthorized));
    assert_eq!(token.total_supply(), None);
}

#[test]
fn mint_past_u32_range_is_refused() {
    let mut token = new_ledger();
    assert_eq!(token.init(1, u32::MAX - 10), Ok(()));
    assert_eq!(token.mint(1, 2, 11), Err(Error::Overflow));
    assert_eq!(token.total_supply(), Some(u32::MAX - 10));
    assert_eq!(token.balances(2), 0);
    assert_eq!(token.mint(1, 2, 10), Ok(()));
    assert_eq!(token.total_supply(), Some(u32::MAX));
    assert_eq!(token.balances(2), 10);
}

#[test]
fn init_records_creation_event_and_config() {
    let mut token = new_ledger();
    assert_eq!(token.init(5, 0), Ok(()));
    assert_eq!(token.owner(), Some(5));
    assert_eq!(token.balances(5), 0);
    assert_eq!(token.events()[0], Event::TokenCreated { total_supply: 0, who: 5 });
    assert_eq!(token.config().symbol, b"TKN".to_vec());
    assert_eq!(token.config().decimals, 18);
}
