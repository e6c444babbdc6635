//! The in-memory token ledger the proposal executor credits and debits.
//! Balances are kept per `(token, account)` pair and a total supply per
//! token; both stores are association lists with distinct keys, viewed as
//! maps that default to zero.

use crate::kvlist::keys_distinct;
use crate::kvlist::lemma_map_of_contains;
use crate::kvlist::lemma_map_of_index;
use crate::kvlist::lemma_map_of_push;
use crate::kvlist::lemma_map_of_update;
use crate::kvlist::map_of;
use crate::types::AccountId;
use crate::types::ExecutionError;
use crate::types::TokenBalance;
use crate::types::TokenId;
use vstd::prelude::*;

verus! {

/// Token balances and total supplies.
pub struct Ledger {
    balances: Vec<((TokenId, AccountId), TokenBalance)>,
    supplies: Vec<(TokenId, TokenBalance)>,
}

impl Ledger {
    /// The balances store as a map; absent keys mean a zero balance.
    pub closed spec fn balances_map(&self) -> Map<(TokenId, AccountId), TokenBalance> {
        map_of(self.balances@)
    }

    /// The supplies store as a map; absent keys mean a zero supply.
    pub closed spec fn supplies_map(&self) -> Map<TokenId, TokenBalance> {
        map_of(self.supplies@)
    }

    /// The balance of `account` in `token`, zero when never credited.
    pub open spec fn balance_of_spec(&self, token: TokenId, account: AccountId) -> TokenBalance {
        if self.balances_map().contains_key((token, account)) {
            self.balances_map()[(token, account)]
        } else {
            0
        }
    }

    /// The total supply of `token`, zero when never minted.
    pub open spec fn supply_of_spec(&self, token: TokenId) -> TokenBalance {
        if self.supplies_map().contains_key(token) {
            self.supplies_map()[token]
        } else {
            0
        }
    }

    /// Both stores have pairwise-distinct keys.
    pub closed spec fn wf(&self) -> bool {
        &&& keys_distinct(self.balances@)
        &&& keys_distinct(self.supplies@)
    }

    /// Minting succeeds exactly when neither the supply nor the balance
    /// would overflow.
    pub open spec fn can_mint(&self, token: TokenId, account: AccountId, amount: TokenBalance) -> bool {
        &&& self.supply_of_spec(token) + amount <= TokenBalance::MAX
        &&& self.balance_of_spec(token, account) + amount <= TokenBalance::MAX
    }

    /// Burning succeeds exactly when both the balance and the supply cover
    /// the amount.
    pub open spec fn can_burn(&self, token: TokenId, account: AccountId, amount: TokenBalance) -> bool {
        &&& self.balance_of_spec(token, account) >= amount
        &&& self.supply_of_spec(token) >= amount
    }

    /// An empty ledger.
    pub fn new() -> (l: Ledger)
        ensures
            l.wf(),
            l.balances_map() == Map::<(TokenId, AccountId), TokenBalance>::empty(),
            l.supplies_map() == Map::<TokenId, TokenBalance>::empty(),
    {
        Ledger { balances: Vec::new(), supplies: Vec::new() }
    }

    /// Index of the balances entry carrying `key`, if any.
    fn find_balance(&self, key: (TokenId, AccountId)) -> (r: Option<usize>)
        ensures
            match r {
                Some(i) => i < self.balances@.len() && self.balances@[i as int].0 == key,
                None => forall|i: int| 0 <= i < self.balances@.len() ==> self.balances@[i].0 != key,
            },
    {
        let mut i: usize = 0;
        while i < self.balances.len()
            invariant
                i <= self.balances@.len(),
                forall|j: int| 0 <= j < i ==> self.balances@[j].0 != key,
            decreases self.balances@.len() - i,
        {
            if self.balances[i].0.0 == key.0 && self.balances[i].0.1 == key.1 {
                return Some(i);
            }
            i = i + 1;
        }
        None
    }

    /// Index of the supplies entry carrying `token`, if any.
    fn find_supply(&self, token: TokenId) -> (r: Option<usize>)
        ensures
            match r {
                Some(i) => i < self.supplies@.len() && self.supplies@[i as int].0 == token,
                None => forall|i: int| 0 <= i < self.supplies@.len() ==> self.supplies@[i].0 != token,
            },
    {
        let mut i: usize = 0;
        while i < self.supplies.len()
            invariant
                i <= self.supplies@.len(),
                forall|j: int| 0 <= j < i ==> self.supplies@[j].0 != token,
            decreases self.supplies@.len() - i,
        {
            if self.supplies[i].0 == token {
                return Some(i);
            }
            i = i + 1;
        }
        None
    }

    /// The balance of `account` in `token`; the key mirrors the keyed
    /// lookup of the persisted state surface.
    pub fn balance_of(&self, key: (TokenId, AccountId)) -> (r: TokenBalance)
        requires
            self.wf(),
        ensures
            r == self.balance_of_spec(key.0, key.1),
    {
        proof {
            lemma_map_of_contains(self.balances@, key);
        }
        match self.find_balance(key) {
            Some(i) => {
                proof {
                    lemma_map_of_index(self.balances@, i as int);
                }
                self.balances[i].1
            },
            None => 0,
        }
    }

    /// The total supply of `token`.
    pub fn total_supply(&self, token: TokenId) -> (r: TokenBalance)
        requires
            self.wf(),
        ensures
            r == self.supply_of_spec(token),
    {
        proof {
            lemma_map_of_contains(self.supplies@, token);
        }
        match self.find_supply(token) {
            Some(i) => {
                proof {
                    lemma_map_of_index(self.supplies@, i as int);
                }
                self.supplies[i].1
            },
            None => 0,
        }
    }

    /// Store `value` under `key`, inserting or overwriting.
    fn set_balance(&mut self, key: (TokenId, AccountId), value: TokenBalance)
        requires
            old(self).wf(),
        ensures
            final(self).wf(),
            final(self).balances_map() == old(self).balances_map().insert(key, value),
            final(self).supplies_map() == old(self).supplies_map(),
    {
        proof {
            lemma_map_of_contains(self.balances@, key);
        }
        match self.find_balance(key) {
            Some(i) => {
                let ghost pre = self.balances@;
                self.balances[i] = (key, value);
                proof {
                    lemma_map_of_update(pre, i as int, (key, value));
                }
            },
            None => {
                let ghost pre = self.balances@;
                self.balances.push((key, value));
                proof {
                    lemma_map_of_push(pre, (key, value));
                    assert forall|a: int, b: int|
                        0 <= a < b < self.balances@.len() implies self.balances@[a].0
                        != self.balances@[b].0 by {
                        if b < pre.len() {
                            assert(pre[a].0 != pre[b].0);
                        } else {
                            assert(pre[a].0 != key);
                        }
                    }
                }
            },
        }
    }

    /// Store `value` under `token`, inserting or overwriting.
    fn set_supply(&mut self, token: TokenId, value: TokenBalance)
        requires
            old(self).wf(),
        ensures
            final(self).wf(),
            final(self).supplies_map() == old(self).supplies_map().insert(token, value),
            final(self).balances_map() == old(self).balances_map(),
    {
        proof {
            lemma_map_of_contains(self.supplies@, token);
        }
        match self.find_supply(token) {
            Some(i) => {
                let ghost pre = self.supplies@;
                self.supplies[i] = (token, value);
                proof {
                    lemma_map_of_update(pre, i as int, (token, value));
                }
            },
            None => {
                let ghost pre = self.supplies@;
                self.supplies.push((token, value));
                proof {
                    lemma_map_of_push(pre, (token, value));
                    assert forall|a: int, b: int|
                        0 <= a < b < self.supplies@.len() implies self.supplies@[a].0
                        != self.supplies@[b].0 by {
                        if b < pre.len() {
                            assert(pre[a].0 != pre[b].0);
                        } else {
                            assert(pre[a].0 != token);
                        }
                    }
                }
            },
        }
    }

    /// Credit `amount` of `token` to `account`, growing the supply by the
    /// same amount.  Fails with `Overflow`, mutating nothing, exactly when
    /// the supply or the balance would exceed the amount type.
    pub fn mint(&mut self, token: TokenId, account: AccountId, amount: TokenBalance) -> (r: Result<
        (),
        ExecutionError,
    >)
        requires
            old(self).wf(),
        ensures
            final(self).wf(),
            r.is_ok() <==> old(self).can_mint(token, account, amount),
            r.is_err() ==> r == Err::<(), ExecutionError>(ExecutionError::Overflow) && *final(self)
                == *old(self),
            r.is_ok() ==> final(self).balances_map() == old(self).balances_map().insert(
                (token, account),
                (old(self).balance_of_spec(token, account) + amount) as TokenBalance,
            ) && final(self).supplies_map() == old(self).supplies_map().insert(
                token,
                (old(self).supply_of_spec(token) + amount) as TokenBalance,
            ),
    {
        let supply = self.total_supply(token);
        let balance = self.balance_of((token, account));
        if amount > TokenBalance::MAX - supply || amount > TokenBalance::MAX - balance {
            return Err(ExecutionError::Overflow);
        }
        self.set_supply(token, supply + amount);
        self.set_balance((token, account), balance + amount);
        Ok(())
    }

    /// Debit `amount` of `token` from `account`, shrinking the supply by
    /// the same amount.  Fails with `InsufficientBalance`, mutating
    /// nothing, exactly when the balance or the supply does not cover the
    /// amount.
    pub fn burn(&mut self, token: TokenId, account: AccountId, amount: TokenBalance) -> (r: Result<
        (),
        ExecutionError,
    >)
        requires
            old(self).wf(),
        ensures
            final(self).wf(),
            r.is_ok() <==> old(self).can_burn(token, account, amount),
            r.is_err() ==> r == Err::<(), ExecutionError>(ExecutionError::InsufficientBalance)
                && *final(self) == *old(self),
            r.is_ok() ==> final(self).balances_map() == old(self).balances_map().insert(
                (token, account),
                (old(self).balance_of_spec(token, account) - amount) as TokenBalance,
            ) && final(self).supplies_map() == old(self).supplies_map().insert(
                token,
                (old(self).supply_of_spec(token) - amount) as TokenBalance,
            ),
    {
        let supply = self.total_supply(token);
        let balance = self.balance_of((token, account));
        if balance < amount || supply < amount {
            return Err(ExecutionError::InsufficientBalance);
        }
        self.set_supply(token, supply - amount);
        self.set_balance((token, account), balance - amount);
        Ok(())
    }
}

} // verus!
