//! Account rows: creation, lookup, listing, update, soft delete, and the
//! balance read/overwrite operations.
//!
//! `update_account` and `set_account_balance` overwrite both the initial and
//! the current balance; they bypass the transaction-derived ledger invariant
//! on purpose and are meant for corrections.

use crate::error::AppError;
use crate::ledger::{accounts_view, ledger_balanced, sum_delta, AccountV};
use crate::store::{
    account_ids, has_account, lemma_ids_ok_push, lemma_store_view, store_model, Store, StoreModel,
};
use crate::types::{Account, CreateAccountInput, UpdateAccountInput};
use vstd::prelude::*;

verus! {

/// The row that creating an account from `input` produces: balances start
/// equal, the premium attributes start cleared, and the row starts active.
pub open spec fn created_account_ok(a: AccountV, input: CreateAccountInput, id: i64) -> bool {
    &&& a.id == id
    &&& a.name == input.name
    &&& a.account_type == input.account_type
    &&& a.bank_id == input.bank_id
    &&& a.owner_user_id == input.owner_user_id
    &&& a.account_number == input.account_number
    &&& (match input.currency {
        Some(c) => a.currency == c,
        None => a.currency@ == "CZK"@,
    })
    &&& a.initial_balance == (match input.initial_balance {
        Some(v) => v as int,
        None => 0,
    })
    &&& a.current_balance == a.initial_balance
    &&& a.color == input.color
    &&& a.icon == input.icon
    &&& a.is_premium == false
    &&& a.premium_min_flow is None
    &&& a.credit_limit == input.credit_limit
    &&& a.active == true
}

/// The row that updating an account with `input` leaves behind: the listed
/// fields are rewritten, both balances are overwritten with the given
/// current balance (zero if absent), and the premium attributes keep their
/// stored values.
pub open spec fn updated_account_ok(a2: AccountV, a: AccountV, input: UpdateAccountInput) -> bool {
    &&& a2.id == a.id
    &&& a2.name == input.name
    &&& a2.account_type == input.account_type
    &&& a2.bank_id == input.bank_id
    &&& a2.owner_user_id == input.owner_user_id
    &&& a2.account_number == input.account_number
    &&& a2.currency == input.currency
    &&& a2.initial_balance == (match input.current_balance {
        Some(v) => v as int,
        None => 0,
    })
    &&& a2.current_balance == a2.initial_balance
    &&& a2.color == input.color
    &&& a2.icon == input.icon
    &&& a2.is_premium == a.is_premium
    &&& a2.premium_min_flow == a.premium_min_flow
    &&& a2.credit_limit == input.credit_limit
    &&& a2.active == input.active
}

impl Store {
    /// The index of the account row with this identifier, if any.
    pub(crate) fn find_account_idx(&self, account_id: i64) -> (r: Option<usize>)
        ensures
            r matches Some(j) ==> j < self@.accounts.len() && self@.accounts[j as int].id
                == account_id,
            r matches Some(j) ==> j < self.accounts@.len() && self@.accounts[j as int]
                == self.accounts@[j as int]@,
            r is None ==> !has_account(self@.accounts, account_id),
    {
        proof {
            lemma_store_view(*self);
        }
        let n = self.accounts.len();
        let mut i: usize = 0;
        while i < n
            invariant
                n == self.accounts.len(),
                0 <= i <= n,
                forall|j: int| 0 <= j < i ==> (#[trigger] self.accounts@[j]).id != account_id,
            decreases n - i,
        {
            if self.accounts[i].id == account_id {
                proof {
                    lemma_store_view(*self);
                    assert(self@.accounts[i as int] == self.accounts@[i as int]@);
                }
                return Some(i);
            }
            i = i + 1;
        }
        proof {
            lemma_store_view(*self);
            assert forall|j: int| 0 <= j < self@.accounts.len() implies (
            #[trigger] self@.accounts[j]).id != account_id by {
                assert(self@.accounts[j] == self.accounts@[j]@);
            }
        }
        None
    }

    /// Create an account row.  The new row's current balance starts equal
    /// to its initial balance, so the ledger invariant is kept whenever no
    /// stored transaction already references the fresh identifier.
    pub fn create_account(&mut self, input: CreateAccountInput) -> (r: Result<Account, AppError>)
        requires
            old(self)@.wf(),
        ensures
            final(self)@.wf(),
            r is Ok <==> old(self)@.next_id < i64::MAX,
            r matches Ok(a) ==> created_account_ok(a@, input, (old(self)@.next_id) as i64)
                && final(self)@ == (StoreModel {
                next_id: old(self)@.next_id + 1,
                accounts: old(self)@.accounts.push(a@),
                ..old(self)@
            }),
            r is Err ==> final(self)@ == old(self)@ && r->Err_0 is Internal,
            r is Ok && ledger_balanced(old(self)@.accounts, old(self)@.transactions) && sum_delta(
                old(self)@.transactions,
                (old(self)@.next_id) as i64,
            ) == 0 ==> ledger_balanced(final(self)@.accounts, final(self)@.transactions),
    {
        proof {
            lemma_store_view(*old(self));
        }
        if self.next_id == i64::MAX {
            return Err(AppError::Internal("store identifiers exhausted".to_owned()));
        }
        let id = self.next_id;
        self.next_id = self.next_id + 1;
        let initial = match input.initial_balance {
            Some(v) => v,
            None => 0,
        };
        let row = Account {
            id,
            name: input.name,
            account_type: input.account_type,
            bank_id: input.bank_id,
            owner_user_id: input.owner_user_id,
            account_number: input.account_number,
            currency: match input.currency {
                Some(c) => c,
                None => "CZK".to_owned(),
            },
            initial_balance: initial,
            current_balance: initial,
            color: input.color,
            icon: input.icon,
            is_premium: false,
            premium_min_flow: None,
            credit_limit: input.credit_limit,
            active: true,
        };
        let out = row.clone_row();
        self.accounts.push(row);
        proof {
            lemma_store_view(*self);
            let m = store_model(*old(self));
            let m2 = self@;
            assert(accounts_view(self.accounts@) =~= m.accounts.push(out@));
            assert(m2 =~= (StoreModel {
                next_id: m.next_id + 1,
                accounts: m.accounts.push(out@),
                ..m
            }));
            assert(account_ids(m.accounts.push(out@)) =~= account_ids(m.accounts).push(id));
            lemma_ids_ok_push(account_ids(m.accounts), m.next_id);
            if ledger_balanced(m.accounts, m.transactions) && sum_delta(m.transactions, id) == 0 {
                assert forall|j: int|
                    0 <= j < m2.accounts.len() implies m2.accounts[j].current_balance
                    == m2.accounts[j].initial_balance + sum_delta(
                    m2.transactions,
                    (#[trigger] m2.accounts[j]).id,
                ) by {
                    if j < m.accounts.len() {
                        assert(m2.accounts[j] == m.accounts[j]);
                    } else {
                        assert(m2.accounts[j] == out@);
                    }
                }
            }
        }
        Ok(out)
    }

    /// Look up an account row by identifier.
    pub fn get_account_by_id(&self, id: i64) -> (r: Result<Account, AppError>)
        ensures
            r is Ok <==> has_account(self@.accounts, id),
            r matches Ok(a) ==> exists|j: int|
                0 <= j < self@.accounts.len() && (#[trigger] self@.accounts[j]).id == id
                    && a@ == self@.accounts[j],
            r matches Err(e) ==> e is NotFound,
    {
        match self.find_account_idx(id) {
            Some(i) => {
                let a = self.accounts[i].clone_row();
                proof {
                    lemma_store_view(*self);
                    assert(self@.accounts[i as int] == self.accounts@[i as int]@);
                }
                Ok(a)
            },
            None => Err(AppError::NotFound("account not found".to_owned())),
        }
    }

    /// List account rows, all of them or only the active ones (the default),
    /// in table order; a name-sorted display is the presentation layer's
    /// concern and is done at the edge.
    pub fn get_accounts(&self, active_only: Option<bool>) -> (r: Vec<Account>)
        ensures
            ({
                let filter_active = match active_only {
                    Some(b) => b,
                    None => true,
                };
                if filter_active {
                    accounts_view(r@) == self@.accounts.filter(|a: AccountV| a.active)
                } else {
                    accounts_view(r@) == self@.accounts
                }
            }),
    {
        proof {
            lemma_store_view(*self);
        }
        let filter_active = match active_only {
            Some(b) => b,
            None => true,
        };
        let n = self.accounts.len();
        let mut out: Vec<Account> = Vec::new();
        let mut i: usize = 0;
        while i < n
            invariant
                n == self.accounts.len(),
                0 <= i <= n,
                self@.accounts == accounts_view(self.accounts@),
                if filter_active {
                    accounts_view(out@) == self@.accounts.take(i as int).filter(
                        |a: AccountV| a.active,
                    )
                } else {
                    accounts_view(out@) == self@.accounts.take(i as int)
                },
            decreases n - i,
        {
            let ghost prefix = self@.accounts.take(i as int);
            let ghost prefix2 = self@.accounts.take(i as int + 1);
            proof {
                assert(self@.accounts[i as int] == self.accounts@[i as int]@);
                assert(prefix2.drop_last() =~= prefix);
                assert(prefix2.last() == self@.accounts[i as int]);
            }
            if !filter_active || self.accounts[i].active {
                let row = self.accounts[i].clone_row();
                let ghost out_old = out@;
                out.push(row);
                proof {
                    assert(accounts_view(out@) =~= accounts_view(out_old).push(
                        self@.accounts[i as int],
                    ));
                    if filter_active {
                        reveal(Seq::filter);
                        assert(prefix2.filter(|a: AccountV| a.active) == prefix.filter(
                            |a: AccountV| a.active,
                        ).push(prefix2.last()));
                    }
                }
            } else {
                proof {
                    reveal(Seq::filter);
                    assert(prefix2.filter(|a: AccountV| a.active) == prefix.filter(
                        |a: AccountV| a.active,
                    ));
                }
            }
            i = i + 1;
        }
        proof {
            assert(self@.accounts.take(n as int) =~= self@.accounts);
        }
        out
    }

    /// Rewrite an account row's fields.  Both balances are overwritten with
    /// the given current balance; this bypasses the ledger invariant on
    /// purpose.
    pub fn update_account(&mut self, id: i64, input: UpdateAccountInput) -> (r: Result<
        Account,
        AppError,
    >)
        requires
            old(self)@.wf(),
        ensures
            final(self)@.wf(),
            r is Ok <==> has_account(old(self)@.accounts, id),
            r matches Ok(a) ==> exists|j: int|
                0 <= j < old(self)@.accounts.len() && (#[trigger] old(self)@.accounts[j]).id == id
                    && updated_account_ok(a@, old(self)@.accounts[j], input) && final(self)@
                    == (StoreModel {
                    accounts: old(self)@.accounts.update(j, a@),
                    ..old(self)@
                }),
            r is Err ==> final(self)@ == old(self)@ && r->Err_0 is NotFound,
    {
        match self.find_account_idx(id) {
            Some(i) => {
                proof {
                    lemma_store_view(*old(self));
                }
                let balance = match input.current_balance {
                    Some(v) => v,
                    None => 0,
                };
                let old_row = self.accounts.remove(i);
                let row = Account {
                    id: old_row.id,
                    name: input.name,
                    account_type: input.account_type,
                    bank_id: input.bank_id,
                    owner_user_id: input.owner_user_id,
                    account_number: input.account_number,
                    currency: input.currency,
                    initial_balance: balance,
                    current_balance: balance,
                    color: input.color,
                    icon: input.icon,
                    is_premium: old_row.is_premium,
                    premium_min_flow: old_row.premium_min_flow,
                    credit_limit: input.credit_limit,
                    active: input.active,
                };
                let out = row.clone_row();
                self.accounts.insert(i, row);
                proof {
                    lemma_store_view(*self);
                    let m = store_model(*old(self));
                    assert(old(self)@.accounts[i as int] == old(self).accounts@[i as int]@);
                    assert(self.accounts@ =~= old(self).accounts@.update(
                        i as int,
                        self.accounts@[i as int],
                    ));
                    assert(accounts_view(self.accounts@) =~= m.accounts.update(i as int, out@));
                    assert(self@ =~= (StoreModel {
                        accounts: m.accounts.update(i as int, out@),
                        ..m
                    }));
                    assert(account_ids(m.accounts.update(i as int, out@)) =~= account_ids(
                        m.accounts,
                    ));
                }
                Ok(out)
            },
            None => Err(AppError::NotFound("account not found".to_owned())),
        }
    }

    /// Soft-delete an account: clear its active flag.  Deleting a missing
    /// account is a no-op, as in the underlying store.
    pub fn delete_account(&mut self, id: i64) -> (r: Result<(), AppError>)
        requires
            old(self)@.wf(),
        ensures
            final(self)@.wf(),
            r is Ok,
            !has_account(old(self)@.accounts, id) ==> final(self)@ == old(self)@,
            has_account(old(self)@.accounts, id) ==> exists|j: int|
                0 <= j < old(self)@.accounts.len() && (#[trigger] old(self)@.accounts[j]).id == id
                    && final(self)@ == (StoreModel {
                    accounts: old(self)@.accounts.update(
                        j,
                        AccountV { active: false, ..old(self)@.accounts[j] },
                    ),
                    ..old(self)@
                }),
    {
        match self.find_account_idx(id) {
            Some(i) => {
                proof {
                    lemma_store_view(*old(self));
                }
                let mut row = self.accounts.remove(i);
                row.active = false;
                self.accounts.insert(i, row);
                proof {
                    lemma_store_view(*self);
                    let m = store_model(*old(self));
                    assert(old(self)@.accounts[i as int] == old(self).accounts@[i as int]@);
                    let a2 = AccountV { active: false, ..m.accounts[i as int] };
                    assert(accounts_view(self.accounts@) =~= m.accounts.update(i as int, a2));
                    assert(self@ =~= (StoreModel {
                        accounts: m.accounts.update(i as int, a2),
                        ..m
                    }));
                    assert(account_ids(m.accounts.update(i as int, a2)) =~= account_ids(
                        m.accounts,
                    ));
                }
                Ok(())
            },
            None => Ok(()),
        }
    }

    /// Read an account's current balance.
    pub fn get_account_balance(&self, id: i64) -> (r: Result<i64, AppError>)
        ensures
            r is Ok <==> has_account(self@.accounts, id),
            r matches Ok(b) ==> exists|j: int|
                0 <= j < self@.accounts.len() && (#[trigger] self@.accounts[j]).id == id && b as int
                    == self@.accounts[j].current_balance,
            r matches Err(e) ==> e is NotFound,
    {
        match self.find_account_idx(id) {
            Some(i) => {
                proof {
                    lemma_store_view(*self);
                    assert(self@.accounts[i as int] == self.accounts@[i as int]@);
                }
                Ok(self.accounts[i].current_balance)
            },
            None => Err(AppError::NotFound("account not found".to_owned())),
        }
    }

    /// Overwrite both the initial and the current balance of an account.
    /// This is the correction path that deliberately bypasses the
    /// transaction-derived invariant.
    pub fn set_account_balance(&mut self, id: i64, balance: i64) -> (r: Result<Account, AppError>)
        requires
            old(self)@.wf(),
        ensures
            final(self)@.wf(),
            r is Ok <==> has_account(old(self)@.accounts, id),
            r matches Ok(a) ==> exists|j: int|
                0 <= j < old(self)@.accounts.len() && (#[trigger] old(self)@.accounts[j]).id == id
                    && a@ == (AccountV {
                    initial_balance: balance as int,
                    current_balance: balance as int,
                    ..old(self)@.accounts[j]
                }) && final(self)@ == (StoreModel {
                    accounts: old(self)@.accounts.update(j, a@),
                    ..old(self)@
                }),
            r is Err ==> final(self)@ == old(self)@ && r->Err_0 is NotFound,
    {
        match self.find_account_idx(id) {
            Some(i) => {
                proof {
                    lemma_store_view(*old(self));
                }
                let mut row = self.accounts.remove(i);
                row.initial_balance = balance;
                row.current_balance = balance;
                let out = row.clone_row();
                self.accounts.insert(i, row);
                proof {
                    lemma_store_view(*self);
                    let m = store_model(*old(self));
                    assert(old(self)@.accounts[i as int] == old(self).accounts@[i as int]@);
                    assert(accounts_view(self.accounts@) =~= m.accounts.update(i as int, out@));
                    assert(self@ =~= (StoreModel {
                        accounts: m.accounts.update(i as int, out@),
                        ..m
                    }));
                    assert(account_ids(m.accounts.update(i as int, out@)) =~= account_ids(
                        m.accounts,
                    ));
                }
                Ok(out)
            },
            None => Err(AppError::NotFound("account not found".to_owned())),
        }
    }
}

} // verus!
