//! The ledger state machine: six operations that check every precondition
//! before they write anything, so that a failed call changes nothing.
use vstd::prelude::*;

use crate::config::Config;
use crate::store::{lemma_two_values_within_total, lemma_value_within_total, Table};

verus! {

/// An authenticated account identity.
pub type AccountId = u64;

/// Why an operation was refused.
#[derive(Clone, Copy, Debug, PartialEq, Eq, Structural)]
pub enum Error {
    /// The acting or source account holds fewer tokens than the amount.
    BalanceNotEnough,
    /// The spender may move fewer tokens out of the source account than the amount.
    InsufficientAllowance,
    /// The caller is not the ledger's owner.
    NotAuthorized,
    /// The ledger already has an owner.
    AlreadyInitialized,
    /// The ledger has not been initialized yet.
    NotInitialized,
    /// The total supply would leave the range of `u32`.
    Overflow,
}

/// A state change announced to observers.
#[derive(Clone, Copy, Debug, PartialEq, Eq, Structural)]
pub enum Event {
    /// The ledger was initialized with `total_supply` tokens, all held by `who`.
    TokenCreated { total_supply: u32, who: AccountId },
    /// Tokens moved from one balance to another.
    TokenTransferred { from: AccountId, to: AccountId, num_of_tokens: u32 },
    /// An allowance was set, or spent by a delegated transfer.
    TokenApproved { owner: AccountId, delegate: AccountId, num_of_tokens: u32 },
    /// New tokens were created in `to`'s balance.
    TokenMinted { to: AccountId, num_of_tokens: u32 },
    /// Tokens were destroyed from `from`'s balance.
    TokenBurnt { from: AccountId, num_of_tokens: u32 },
}

/// The token ledger: balances, allowances, total supply, owner, and the
/// events emitted so far.
pub struct Pallet {
    config: Config,
    balances: Table<AccountId>,
    allowances: Table<(AccountId, AccountId)>,
    total_supply: Option<u32>,
    owner: Option<AccountId>,
    events: Vec<Event>,
}

impl Pallet {
    /// The tokens held by `account`.
    pub closed spec fn balance_of(&self, account: AccountId) -> nat {
        self.balances.value(account)
    }

    /// The tokens that `spender` may move out of `owner`'s balance.
    pub closed spec fn allowance_of(&self, owner: AccountId, spender: AccountId) -> nat {
        self.allowances.value((owner, spender))
    }

    /// The sum of all balances.
    pub closed spec fn balance_sum(&self) -> nat {
        self.balances.total()
    }

    pub closed spec fn supply(&self) -> Option<u32> {
        self.total_supply
    }

    pub closed spec fn owner_of(&self) -> Option<AccountId> {
        self.owner
    }

    pub closed spec fn event_log(&self) -> Seq<Event> {
        self.events@
    }

    pub closed spec fn settings(&self) -> Config {
        self.config
    }

    pub closed spec fn tables_wf(&self) -> bool {
        self.balances.wf() && self.allowances.wf()
    }

    /// The ledger's invariant: owner and supply appear together, and the
    /// balances always add up to the supply (to zero before initialization).
    pub open spec fn wf(&self) -> bool {
        &&& self.tables_wf()
        &&& self.owner_of().is_some() == self.supply().is_some()
        &&& self.balance_sum() == match self.supply() {
            Some(t) => t as nat,
            None => 0,
        }
    }

    /// Every account holds the same balance in `self` and in `other`.
    pub open spec fn same_balances(&self, other: Pallet) -> bool {
        forall|a: AccountId| #[trigger] self.balance_of(a) == other.balance_of(a)
    }

    /// Every pair has the same allowance in `self` and in `other`.
    pub open spec fn same_allowances(&self, other: Pallet) -> bool {
        forall|o: AccountId, s: AccountId| #[trigger]
            self.allowance_of(o, s) == other.allowance_of(o, s)
    }

    /// Supply, owner and configuration agree in `self` and in `other`.
    pub open spec fn same_header(&self, other: Pallet) -> bool {
        &&& self.supply() == other.supply()
        &&& self.owner_of() == other.owner_of()
        &&& self.settings() == other.settings()
    }

    /// The balance of `x` once `amount` has moved from `from` to `to`.
    pub open spec fn moved(&self, from: AccountId, to: AccountId, amount: nat, x: AccountId) -> int {
        if from == to {
            self.balance_of(x) as int
        } else if x == from {
            self.balance_of(x) - amount
        } else if x == to {
            (self.balance_of(x) + amount) as int
        } else {
            self.balance_of(x) as int
        }
    }

    /// An empty, uninitialized ledger.
    pub fn new(config: Config) -> (r: Pallet)
        ensures
            r.wf(),
            forall|a: AccountId| #[trigger] r.balance_of(a) == 0,
            forall|o: AccountId, s: AccountId| #[trigger] r.allowance_of(o, s) == 0,
            r.supply() is None,
            r.owner_of() is None,
            r.event_log() == Seq::<Event>::empty(),
            r.settings() == config,
    {
        Pallet {
            config,
            balances: Table::new(),
            allowances: Table::new(),
            total_supply: None,
            owner: None,
            events: Vec::new(),
        }
    }

    /// Moves `amount` from `from` to `to`; nothing else changes.
    fn move_tokens(&mut self, from: AccountId, to: AccountId, amount: u32)
        requires
            old(self).tables_wf(),
            old(self).balance_of(from) >= amount,
            old(self).balance_sum() <= u32::MAX,
        ensures
            final(self).tables_wf(),
            forall|x: AccountId| #[trigger]
                final(self).balance_of(x) == old(self).moved(from, to, amount as nat, x),
            final(self).balance_sum() == old(self).balance_sum(),
            final(self).allowances == old(self).allowances,
            final(self).total_supply == old(self).total_supply,
            final(self).owner == old(self).owner,
            final(self).config == old(self).config,
            final(self).events == old(self).events,
    {
        if from != to {
            let from_balance = self.balances.get(&from);
            let to_balance = self.balances.get(&to);
            proof {
                lemma_two_values_within_total(self.balances.entries(), from, to);
            }
            self.balances.set(from, from_balance - amount);
            self.balances.set(to, to_balance + amount);
        }
    }

    /// Makes `caller` the owner and gives it the whole initial supply.
    pub fn init(&mut self, caller: AccountId, total_supply: u32) -> (r: Result<(), Error>)
        requires
            old(self).wf(),
        ensures
            final(self).wf(),
            r == if old(self).owner_of() is Some {
                Err::<(), Error>(Error::AlreadyInitialized)
            } else {
                Ok(())
            },
            r is Err ==> *final(self) == *old(self),
            r is Ok ==> {
                &&& final(self).owner_of() == Some(caller)
                &&& final(self).supply() == Some(total_supply)
                &&& forall|x: AccountId| #[trigger]
                    final(self).balance_of(x) == if x == caller {
                        total_supply as nat
                    } else {
                        0
                    }
                &&& final(self).same_allowances(*old(self))
                &&& final(self).settings() == old(self).settings()
                &&& final(self).event_log() == old(self).event_log().push(
                    (Event::TokenCreated { total_supply, who: caller }),
                )
            },
    {
        if self.owner.is_some() {
            return Err(Error::AlreadyInitialized);
        }
        proof {
            assert forall|x: AccountId| #[trigger] self.balances.value(x) == 0 by {
                lemma_value_within_total(self.balances.entries(), x);
            }
        }
        self.balances.set(caller, total_supply);
        self.total_supply = Some(total_supply);
        self.owner = Some(caller);
        self.events.push(Event::TokenCreated { total_supply, who: caller });
        Ok(())
    }

    /// Moves `amount` from the caller's balance to `to`.
    pub fn transfer(&mut self, caller: AccountId, to: AccountId, amount: u32) -> (r: Result<
        (),
        Error,
    >)
        requires
            old(self).wf(),
        ensures
            final(self).wf(),
            r == if old(self).supply() is None {
                Err::<(), Error>(Error::NotInitialized)
            } else if old(self).balance_of(caller) < amount {
                Err(Error::BalanceNotEnough)
            } else {
                Ok(())
            },
            r is Err ==> *final(self) == *old(self),
            r is Ok ==> {
                &&& forall|x: AccountId| #[trigger]
                    final(self).balance_of(x) == old(self).moved(caller, to, amount as nat, x)
                &&& final(self).same_allowances(*old(self))
                &&& final(self).same_header(*old(self))
                &&& final(self).event_log() == old(self).event_log().push(
                    (Event::TokenTransferred { from: caller, to, num_of_tokens: amount }),
                )
            },
            final(self).balance_sum() == old(self).balance_sum(),
    {
        if self.total_supply.is_none() {
            return Err(Error::NotInitialized);
        }
        let from_balance = self.balances.get(&caller);
        if from_balance < amount {
            return Err(Error::BalanceNotEnough);
        }
        self.move_tokens(caller, to, amount);
        let ghost moved = *self;
        self.events.push(Event::TokenTransferred { from: caller, to, num_of_tokens: amount });
        proof {
            assert forall|x: AccountId| #[trigger]
                self.balance_of(x) == old(self).moved(caller, to, amount as nat, x) by {
                assert(self.balance_of(x) == moved.balance_of(x));
            }
        }
        Ok(())
    }

    /// Lets `delegate` move up to `amount` out of the caller's balance,
    /// replacing whatever allowance the pair had before.
    pub fn approve(&mut self, caller: AccountId, delegate: AccountId, amount: u32) -> (r: Result<
        (),
        Error,
    >)
        requires
            old(self).wf(),
        ensures
            final(self).wf(),
            r == if old(self).supply() is None {
                Err::<(), Error>(Error::NotInitialized)
            } else if old(self).balance_of(caller) < amount {
                Err(Error::BalanceNotEnough)
            } else {
                Ok(())
            },
            r is Err ==> *final(self) == *old(self),
            r is Ok ==> {
                &&& forall|o: AccountId, s: AccountId| #[trigger]
                    final(self).allowance_of(o, s) == if o == caller && s == delegate {
                        amount as nat
                    } else {
                        old(self).allowance_of(o, s)
                    }
                &&& final(self).same_balances(*old(self))
                &&& final(self).same_header(*old(self))
                &&& final(self).event_log() == old(self).event_log().push(
                    (Event::TokenApproved { owner: caller, delegate, num_of_tokens: amount }),
                )
            },
            final(self).balance_sum() == old(self).balance_sum(),
    {
        if self.total_supply.is_none() {
            return Err(Error::NotInitialized);
        }
        if self.balances.get(&caller) < amount {
            return Err(Error::BalanceNotEnough);
        }
        self.allowances.set((caller, delegate), amount);
        let ghost approved = *self;
        self.events.push(Event::TokenApproved { owner: caller, delegate, num_of_tokens: amount });
        proof {
            assert forall|o: AccountId, s: AccountId| #[trigger]
                self.allowance_of(o, s) == if o == caller && s == delegate {
                    amount as nat
                } else {
                    old(self).allowance_of(o, s)
                } by {
                assert(self.allowance_of(o, s) == approved.allowance_of(o, s));
            }
        }
        Ok(())
    }

    /// The caller, as spender, moves `amount` from `from` to `to` and uses
    /// up as much of the allowance that `from` gave it.
    pub fn transfer_from(
        &mut self,
        caller: AccountId,
        from: AccountId,
        to: AccountId,
        amount: u32,
    ) -> (r: Result<(), Error>)
        requires
            old(self).wf(),
        ensures
            final(self).wf(),
            r == if old(self).supply() is None {
                Err::<(), Error>(Error::NotInitialized)
            } else if old(self).balance_of(from) < amount {
                Err(Error::BalanceNotEnough)
            } else if old(self).allowance_of(from, caller) < amount {
                Err(Error::InsufficientAllowance)
            } else {
                Ok(())
            },
            r is Err ==> *final(self) == *old(self),
            r is Ok ==> {
                &&& forall|x: AccountId| #[trigger]
                    final(self).balance_of(x) == old(self).moved(from, to, amount as nat, x)
                &&& forall|o: AccountId, s: AccountId| #[trigger]
                    final(self).allowance_of(o, s) == if o == from && s == caller {
                        old(self).allowance_of(o, s) - amount
                    } else {
                        old(self).allowance_of(o, s) as int
                    }
                &&& final(self).same_header(*old(self))
                &&& final(self).event_log() == old(self).event_log().push(
                    (Event::TokenApproved { owner: from, delegate: caller, num_of_tokens: amount }),
                ).push((Event::TokenTransferred { from, to, num_of_tokens: amount }))
            },
            final(self).balance_sum() == old(self).balance_sum(),
    {
        if self.total_supply.is_none() {
            return Err(Error::NotInitialized);
        }
        if self.balances.get(&from) < amount {
            return Err(Error::BalanceNotEnough);
        }
        let allowance = self.allowances.get(&(from, caller));
        if allowance < amount {
            return Err(Error::InsufficientAllowance);
        }
        self.allowances.set((from, caller), allowance - amount);
        let ghost spent = *self;
        self.move_tokens(from, to, amount);
        let ghost moved = *self;
        self.events.push(Event::TokenApproved { owner: from, delegate: caller, num_of_tokens: amount });
        self.events.push(Event::TokenTransferred { from, to, num_of_tokens: amount });
        proof {
            assert forall|x: AccountId| #[trigger]
                self.balance_of(x) == old(self).moved(from, to, amount as nat, x) by {
                assert(self.balance_of(x) == moved.balance_of(x));
                assert(spent.balance_of(x) == old(self).balance_of(x));
            }
            assert forall|o: AccountId, s: AccountId| #[trigger]
                self.allowance_of(o, s) == if o == from && s == caller {
                    old(self).allowance_of(o, s) - amount
                } else {
                    old(self).allowance_of(o, s) as int
                } by {
                assert(self.allowance_of(o, s) == spent.allowance_of(o, s));
            }
        }
        Ok(())
    }

    /// The owner creates `amount` new tokens in `to`'s balance.
    pub fn mint(&mut self, caller: AccountId, to: AccountId, amount: u32) -> (r: Result<
        (),
        Error,
    >)
        requires
            old(self).wf(),
        ensures
            final(self).wf(),
            r == if old(self).owner_of() != Some(caller) {
                Err::<(), Error>(Error::NotAuthorized)
            } else if old(self).supply().unwrap() + amount > u32::MAX {
                Err(Error::Overflow)
            } else {
                Ok(())
            },
            r is Err ==> *final(self) == *old(self),
            r is Ok ==> {
                &&& forall|x: AccountId| #[trigger]
                    final(self).balance_of(x) == if x == to {
                        old(self).balance_of(x) + amount
                    } else {
                        old(self).balance_of(x) as int
                    }
                &&& final(self).supply() == Some((old(self).supply().unwrap() + amount) as u32)
                &&& final(self).same_allowances(*old(self))
                &&& final(self).owner_of() == old(self).owner_of()
                &&& final(self).settings() == old(self).settings()
                &&& final(self).event_log() == old(self).event_log().push(
                    (Event::TokenMinted { to, num_of_tokens: amount }),
                )
            },
    {
        let authorized = match self.owner {
            Some(owner) => owner == caller,
            None => false,
        };
        if !authorized {
            return Err(Error::NotAuthorized);
        }
        let supply = match self.total_supply {
            Some(supply) => supply,
            None => {
                return Err(Error::NotInitialized);
            },
        };
        let new_supply = match supply.checked_add(amount) {
            Some(new_supply) => new_supply,
            None => {
                return Err(Error::Overflow);
            },
        };
        let to_balance = self.balances.get(&to);
        proof {
            lemma_value_within_total(self.balances.entries(), to);
        }
        self.balances.set(to, to_balance + amount);
        self.total_supply = Some(new_supply);
        let ghost minted = *self;
        self.events.push(Event::TokenMinted { to, num_of_tokens: amount });
        proof {
            assert forall|x: AccountId| #[trigger]
                self.balance_of(x) == if x == to {
                    old(self).balance_of(x) + amount
                } else {
                    old(self).balance_of(x) as int
                } by {
                assert(self.balance_of(x) == minted.balance_of(x));
            }
        }
        Ok(())
    }

    /// The owner destroys `amount` tokens of `from`'s balance.
    pub fn burn(&mut self, caller: AccountId, from: AccountId, amount: u32) -> (r: Result<
        (),
        Error,
    >)
        requires
            old(self).wf(),
        ensures
            final(self).wf(),
            r == if old(self).owner_of() != Some(caller) {
                Err::<(), Error>(Error::NotAuthorized)
            } else if old(self).balance_of(from) < amount {
                Err(Error::BalanceNotEnough)
            } else {
                Ok(())
            },
            r is Err ==> *final(self) == *old(self),
            r is Ok ==> {
                &&& forall|x: AccountId| #[trigger]
                    final(self).balance_of(x) == if x == from {
                        old(self).balance_of(x) - amount
                    } else {
                        old(self).balance_of(x) as int
                    }
                &&& final(self).supply() == Some((old(self).supply().unwrap() - amount) as u32)
                &&& final(self).same_allowances(*old(self))
                &&& final(self).owner_of() == old(self).owner_of()
                &&& final(self).settings() == old(self).settings()
                &&& final(self).event_log() == old(self).event_log().push(
                    (Event::TokenBurnt { from, num_of_tokens: amount }),
                )
            },
    {
        let authorized = match self.owner {
            Some(owner) => owner == caller,
            None => false,
        };
        if !authorized {
            return Err(Error::NotAuthorized);
        }
        let from_balance = self.balances.get(&from);
        if from_balance < amount {
            return Err(Error::BalanceNotEnough);
        }
        let supply = match self.total_supply {
            Some(supply) => supply,
            None => {
                return Err(Error::NotInitialized);
            },
        };
        proof {
            lemma_value_within_total(self.balances.entries(), from);
        }
        let new_supply = match supply.checked_sub(amount) {
            Some(new_supply) => new_supply,
            None => {
                return Err(Error::Overflow);
            },
        };
        self.balances.set(from, from_balance - amount);
        self.total_supply = Some(new_supply);
        let ghost burnt = *self;
        self.events.push(Event::TokenBurnt { from, num_of_tokens: amount });
        proof {
            assert forall|x: AccountId| #[trigger]
                self.balance_of(x) == if x == from {
                    old(self).balance_of(x) - amount
                } else {
                    old(self).balance_of(x) as int
                } by {
                assert(self.balance_of(x) == burnt.balance_of(x));
            }
        }
        Ok(())
    }

    /// The tokens held by `account`; zero for an account never written.
    pub fn balances(&self, account: AccountId) -> (r: u32)
        requires
            self.wf(),
        ensures
            r == self.balance_of(account),
    {
        self.balances.get(&account)
    }

    /// The tokens that `spender` may move out of `owner`'s balance; zero for
    /// a pair never approved.
    pub fn allowances(&self, owner: AccountId, spender: AccountId) -> (r: u32)
        requires
            self.wf(),
        ensures
            r == self.allowance_of(owner, spender),
    {
        self.allowances.get(&(owner, spender))
    }

    /// The total supply, absent before initialization.
    pub fn total_supply(&self) -> (r: Option<u32>)
        ensures
            r == self.supply(),
    {
        self.total_supply
    }

    /// The owner, absent before initialization.
    pub fn owner(&self) -> (r: Option<AccountId>)
        ensures
            r == self.owner_of(),
    {
        self.owner
    }

    /// The events emitted so far, oldest first.
    pub fn events(&self) -> (r: &Vec<Event>)
        ensures
            r@ == self.event_log(),
    {
        &self.events
    }

    /// The deployment-time configuration.
    pub fn config(&self) -> (r: &Config)
        ensures
            *r == self.settings(),
    {
        &self.config
    }
}

/// Once the ledger is initialized, the balances of all accounts add up to the
/// total supply; transfers, approvals and delegated transfers keep both sides
/// as they are, and mint and burn move both by the same amount.
pub proof fn lemma_balances_add_up_to_supply(ledger: Pallet)
    requires
        ledger.wf(),
        ledger.supply() is Some,
    ensures
        ledger.balance_sum() == ledger.supply().unwrap(),
{
}

/// Before initialization no account holds anything.
pub proof fn lemma_uninitialized_balances_are_zero(ledger: Pallet, account: AccountId)
    requires
        ledger.wf(),
        ledger.supply() is None,
    ensures
        ledger.balance_of(account) == 0,
{
    lemma_value_within_total(ledger.balances.entries(), account);
}

} // verus!
