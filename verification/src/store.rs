//! The store handle: an in-memory image of the single relational store,
//! owned by one writer and passed explicitly to every operation.
//!
//! Row identifiers are handed out by a single monotone counter, so an
//! identifier is unique across its table and never reused.  The handle also
//! carries the path of the backing database file for the surrounding
//! application; the library itself never touches the file.

use crate::error::AppError;
use crate::ledger::{
    accounts_view, apply_delta, can_apply_leg, fits_i64, AccountV,
};
use crate::types::{
    Account, Bank, BudgetCategory, Category, FinancialGoal, FixedExpense, FlowGroup,
    FundWithdrawal, HouseholdMember, MemberIncome, MonthlyPlan, RecurringPayment, SavingsGoal,
    ScheduledTransfer, Tag, Transaction, User,
};
use vstd::prelude::*;

verus! {

/// Ghost image of the whole store.
pub struct StoreModel {
    pub next_id: int,
    pub accounts: Seq<AccountV>,
    pub transactions: Seq<Transaction>,
    pub recurring: Seq<RecurringPayment>,
    pub users: Seq<User>,
    pub banks: Seq<Bank>,
    pub categories: Seq<Category>,
    pub tags: Seq<Tag>,
    pub flow_groups: Seq<FlowGroup>,
    pub members: Seq<HouseholdMember>,
    pub incomes: Seq<MemberIncome>,
    pub scheduled_transfers: Seq<ScheduledTransfer>,
    pub fixed_expenses: Seq<FixedExpense>,
    pub budget_categories: Seq<BudgetCategory>,
    pub transaction_tags: Seq<(i64, i64)>,
    pub savings_goals: Seq<SavingsGoal>,
    pub financial_goals: Seq<FinancialGoal>,
    pub fund_withdrawals: Seq<FundWithdrawal>,
    pub monthly_plans: Seq<MonthlyPlan>,
    pub db_path: Option<String>,
}

/// Identifiers are pairwise distinct and all below the counter.
pub open spec fn ids_ok(ids: Seq<i64>, next: int) -> bool {
    &&& forall|j: int| 0 <= j < ids.len() ==> (#[trigger] ids[j]) < next
    &&& forall|i: int, j: int| 0 <= i < j < ids.len() ==> ids[i] != ids[j]
}

pub open spec fn account_ids(s: Seq<AccountV>) -> Seq<i64> {
    s.map_values(|a: AccountV| a.id)
}

pub open spec fn transaction_ids(s: Seq<Transaction>) -> Seq<i64> {
    s.map_values(|t: Transaction| t.id)
}

pub open spec fn recurring_ids(s: Seq<RecurringPayment>) -> Seq<i64> {
    s.map_values(|p: RecurringPayment| p.id)
}

pub open spec fn user_ids(s: Seq<User>) -> Seq<i64> {
    s.map_values(|u: User| u.id)
}

pub open spec fn bank_ids(s: Seq<Bank>) -> Seq<i64> {
    s.map_values(|b: Bank| b.id)
}

pub open spec fn category_ids(s: Seq<Category>) -> Seq<i64> {
    s.map_values(|c: Category| c.id)
}

pub open spec fn tag_ids(s: Seq<Tag>) -> Seq<i64> {
    s.map_values(|t: Tag| t.id)
}

pub open spec fn flow_group_ids(s: Seq<FlowGroup>) -> Seq<i64> {
    s.map_values(|f: FlowGroup| f.id)
}

pub open spec fn member_ids(s: Seq<HouseholdMember>) -> Seq<i64> {
    s.map_values(|m: HouseholdMember| m.id.unwrap())
}

pub open spec fn income_ids(s: Seq<MemberIncome>) -> Seq<i64> {
    s.map_values(|m: MemberIncome| m.id.unwrap())
}

pub open spec fn transfer_ids(s: Seq<ScheduledTransfer>) -> Seq<i64> {
    s.map_values(|m: ScheduledTransfer| m.id.unwrap())
}

pub open spec fn expense_ids(s: Seq<FixedExpense>) -> Seq<i64> {
    s.map_values(|m: FixedExpense| m.id.unwrap())
}

pub open spec fn budget_ids(s: Seq<BudgetCategory>) -> Seq<i64> {
    s.map_values(|m: BudgetCategory| m.id.unwrap())
}

pub open spec fn savings_goal_ids(s: Seq<SavingsGoal>) -> Seq<i64> {
    s.map_values(|g: SavingsGoal| g.id)
}

pub open spec fn financial_goal_ids(s: Seq<FinancialGoal>) -> Seq<i64> {
    s.map_values(|g: FinancialGoal| g.id)
}

pub open spec fn withdrawal_ids(s: Seq<FundWithdrawal>) -> Seq<i64> {
    s.map_values(|w: FundWithdrawal| w.id)
}

pub open spec fn plan_ids(s: Seq<MonthlyPlan>) -> Seq<i64> {
    s.map_values(|p: MonthlyPlan| p.id)
}

/// No two monthly plans share a goal, year and month: the store's
/// uniqueness constraint on that key.
pub open spec fn plan_keys_unique(s: Seq<MonthlyPlan>) -> bool {
    forall|i: int, j: int|
        0 <= i < j < s.len() ==> !(s[i].goal_id == s[j].goal_id && s[i].year == s[j].year
            && s[i].month == s[j].month)
}

impl StoreModel {
    /// Well-formedness of the store: the counter is live, every row of a
    /// table whose identifier is optional actually carries one, and every
    /// table's identifiers are distinct and below the counter.
    pub open spec fn wf(self) -> bool {
        &&& 1 <= self.next_id <= i64::MAX
        &&& ids_ok(account_ids(self.accounts), self.next_id)
        &&& ids_ok(transaction_ids(self.transactions), self.next_id)
        &&& ids_ok(recurring_ids(self.recurring), self.next_id)
        &&& ids_ok(user_ids(self.users), self.next_id)
        &&& ids_ok(bank_ids(self.banks), self.next_id)
        &&& ids_ok(category_ids(self.categories), self.next_id)
        &&& (forall|j: int|
            0 <= j < self.categories.len() ==> (#[trigger] self.categories[j]).children is None)
        &&& category_forest(self.categories)
        &&& ids_ok(tag_ids(self.tags), self.next_id)
        &&& ids_ok(flow_group_ids(self.flow_groups), self.next_id)
        &&& (forall|j: int|
            0 <= j < self.members.len() ==> (#[trigger] self.members[j]).id is Some)
        &&& ids_ok(member_ids(self.members), self.next_id)
        &&& (forall|j: int|
            0 <= j < self.incomes.len() ==> (#[trigger] self.incomes[j]).id is Some)
        &&& ids_ok(income_ids(self.incomes), self.next_id)
        &&& (forall|j: int|
            0 <= j < self.scheduled_transfers.len() ==> (#[trigger] self.scheduled_transfers[j]).id
                is Some)
        &&& ids_ok(transfer_ids(self.scheduled_transfers), self.next_id)
        &&& (forall|j: int|
            0 <= j < self.fixed_expenses.len() ==> (#[trigger] self.fixed_expenses[j]).id is Some)
        &&& ids_ok(expense_ids(self.fixed_expenses), self.next_id)
        &&& (forall|j: int|
            0 <= j < self.budget_categories.len() ==> (#[trigger] self.budget_categories[j]).id
                is Some)
        &&& ids_ok(budget_ids(self.budget_categories), self.next_id)
        &&& ids_ok(savings_goal_ids(self.savings_goals), self.next_id)
        &&& ids_ok(financial_goal_ids(self.financial_goals), self.next_id)
        &&& ids_ok(withdrawal_ids(self.fund_withdrawals), self.next_id)
        &&& ids_ok(plan_ids(self.monthly_plans), self.next_id)
        &&& plan_keys_unique(self.monthly_plans)
    }
}

/// Every category row's parent, when present, has a smaller identifier.
/// This is deliberately stronger than asking that the parent links form
/// no cycle: the parents-first layout is kept as a store invariant — a
/// category is never re-parented under a later row — and is the measure
/// on which the tree builders' termination rests.  A weaker, merely
/// acyclic table would admit the same trees, but every edit would then
/// owe a global cycle check; the stricter invariant makes each edit's
/// check local to the row.
pub open spec fn category_forest(cats: Seq<Category>) -> bool {
    forall|j: int|
        0 <= j < cats.len() ==> ((#[trigger] cats[j]).parent_category_id matches Some(p) ==> p
            < cats[j].id)
}

/// Some account row carries this identifier.
pub open spec fn has_account(av: Seq<AccountV>, account_id: i64) -> bool {
    exists|j: int| 0 <= j < av.len() && (#[trigger] av[j]).id == account_id
}

/// The single mutable store, guarded by the caller's exclusive access.
pub struct Store {
    pub(crate) next_id: i64,
    pub(crate) accounts: Vec<Account>,
    pub(crate) transactions: Vec<Transaction>,
    pub(crate) recurring: Vec<RecurringPayment>,
    pub(crate) users: Vec<User>,
    pub(crate) banks: Vec<Bank>,
    pub(crate) categories: Vec<Category>,
    pub(crate) tags: Vec<Tag>,
    pub(crate) flow_groups: Vec<FlowGroup>,
    pub(crate) members: Vec<HouseholdMember>,
    pub(crate) incomes: Vec<MemberIncome>,
    pub(crate) scheduled_transfers: Vec<ScheduledTransfer>,
    pub(crate) fixed_expenses: Vec<FixedExpense>,
    pub(crate) budget_categories: Vec<BudgetCategory>,
    pub(crate) transaction_tags: Vec<(i64, i64)>,
    pub(crate) savings_goals: Vec<SavingsGoal>,
    pub(crate) financial_goals: Vec<FinancialGoal>,
    pub(crate) fund_withdrawals: Vec<FundWithdrawal>,
    pub(crate) monthly_plans: Vec<MonthlyPlan>,
    pub(crate) db_path: Option<String>,
}

impl View for Store {
    type V = StoreModel;

    closed spec fn view(&self) -> StoreModel {
        StoreModel {
            next_id: self.next_id as int,
            accounts: accounts_view(self.accounts@),
            transactions: self.transactions@,
            recurring: self.recurring@,
            users: self.users@,
            banks: self.banks@,
            categories: self.categories@,
            tags: self.tags@,
            flow_groups: self.flow_groups@,
            members: self.members@,
            incomes: self.incomes@,
            scheduled_transfers: self.scheduled_transfers@,
            fixed_expenses: self.fixed_expenses@,
            budget_categories: self.budget_categories@,
            transaction_tags: self.transaction_tags@,
            savings_goals: self.savings_goals@,
            financial_goals: self.financial_goals@,
            fund_withdrawals: self.fund_withdrawals@,
            monthly_plans: self.monthly_plans@,
            db_path: self.db_path,
        }
    }
}

/// The model a store handle denotes, written out field by field.
pub(crate) open spec fn store_model(s: Store) -> StoreModel {
    StoreModel {
        next_id: s.next_id as int,
        accounts: accounts_view(s.accounts@),
        transactions: s.transactions@,
        recurring: s.recurring@,
        users: s.users@,
        banks: s.banks@,
        categories: s.categories@,
        tags: s.tags@,
        flow_groups: s.flow_groups@,
        members: s.members@,
        incomes: s.incomes@,
        scheduled_transfers: s.scheduled_transfers@,
        fixed_expenses: s.fixed_expenses@,
        budget_categories: s.budget_categories@,
        transaction_tags: s.transaction_tags@,
        savings_goals: s.savings_goals@,
        financial_goals: s.financial_goals@,
        fund_withdrawals: s.fund_withdrawals@,
        monthly_plans: s.monthly_plans@,
        db_path: s.db_path,
    }
}

/// The view of a store handle is exactly its field-by-field model.
pub(crate) proof fn lemma_store_view(s: Store)
    ensures
        s@ == store_model(s),
{
}

/// The model of a store that holds nothing yet.
pub open spec fn empty_store_model() -> StoreModel {
    StoreModel {
        next_id: 1,
        accounts: Seq::empty(),
        transactions: Seq::empty(),
        recurring: Seq::empty(),
        users: Seq::empty(),
        banks: Seq::empty(),
        categories: Seq::empty(),
        tags: Seq::empty(),
        flow_groups: Seq::empty(),
        members: Seq::empty(),
        incomes: Seq::empty(),
        scheduled_transfers: Seq::empty(),
        fixed_expenses: Seq::empty(),
        budget_categories: Seq::empty(),
        transaction_tags: Seq::empty(),
        savings_goals: Seq::empty(),
        financial_goals: Seq::empty(),
        fund_withdrawals: Seq::empty(),
        monthly_plans: Seq::empty(),
        db_path: None,
    }
}

/// An empty store is well formed.
pub proof fn lemma_empty_store_wf()
    ensures
        empty_store_model().wf(),
{
    assert(account_ids(Seq::empty()) =~= Seq::<i64>::empty());
    assert(transaction_ids(Seq::empty()) =~= Seq::<i64>::empty());
    assert(recurring_ids(Seq::empty()) =~= Seq::<i64>::empty());
    assert(user_ids(Seq::empty()) =~= Seq::<i64>::empty());
    assert(bank_ids(Seq::empty()) =~= Seq::<i64>::empty());
    assert(category_ids(Seq::empty()) =~= Seq::<i64>::empty());
    assert(tag_ids(Seq::empty()) =~= Seq::<i64>::empty());
    assert(flow_group_ids(Seq::empty()) =~= Seq::<i64>::empty());
    assert(member_ids(Seq::empty()) =~= Seq::<i64>::empty());
    assert(income_ids(Seq::empty()) =~= Seq::<i64>::empty());
    assert(transfer_ids(Seq::empty()) =~= Seq::<i64>::empty());
    assert(expense_ids(Seq::empty()) =~= Seq::<i64>::empty());
    assert(budget_ids(Seq::empty()) =~= Seq::<i64>::empty());
    assert(savings_goal_ids(Seq::empty()) =~= Seq::<i64>::empty());
    assert(financial_goal_ids(Seq::empty()) =~= Seq::<i64>::empty());
    assert(withdrawal_ids(Seq::empty()) =~= Seq::<i64>::empty());
    assert(plan_ids(Seq::empty()) =~= Seq::<i64>::empty());
}

/// Adding a fresh identifier keeps a table's identifiers well formed.
pub proof fn lemma_ids_ok_push(ids: Seq<i64>, next: int)
    requires
        ids_ok(ids, next),
        0 <= next < i64::MAX,
    ensures
        ids_ok(ids.push(next as i64), next + 1),
{
    let ids2 = ids.push(next as i64);
    assert forall|j: int| 0 <= j < ids2.len() implies (#[trigger] ids2[j]) < next + 1 by {
        if j < ids.len() {
            assert(ids2[j] == ids[j]);
        } else {
            assert(ids2[j] == next as i64);
        }
    }
    assert forall|i: int, j: int| 0 <= i < j < ids2.len() implies ids2[i] != ids2[j] by {
        assert(ids2[i] == (if i < ids.len() {
            ids[i]
        } else {
            next as i64
        }));
        assert(ids2[j] == (if j < ids.len() {
            ids[j]
        } else {
            next as i64
        }));
    }
}

/// A table's identifiers stay well formed as the counter grows.
pub proof fn lemma_ids_ok_grow(ids: Seq<i64>, n1: int, n2: int)
    requires
        ids_ok(ids, n1),
        n1 <= n2,
    ensures
        ids_ok(ids, n2),
{
}

/// Removing a row keeps a table's identifiers well formed.
pub proof fn lemma_ids_ok_remove(ids: Seq<i64>, i: int, next: int)
    requires
        ids_ok(ids, next),
        0 <= i < ids.len(),
    ensures
        ids_ok(ids.remove(i), next),
{
    assert forall|j: int| 0 <= j < ids.remove(i).len() implies (#[trigger] ids.remove(i)[j])
        < next by {
        if j < i {
            assert(ids.remove(i)[j] == ids[j]);
        } else {
            assert(ids.remove(i)[j] == ids[j + 1]);
        }
    }
    assert forall|j: int, k: int| 0 <= j < k < ids.remove(i).len() implies ids.remove(i)[j]
        != ids.remove(i)[k] by {
        assert(ids.remove(i)[j] == (if j < i {
            ids[j]
        } else {
            ids[j + 1]
        }));
        assert(ids.remove(i)[k] == (if k < i {
            ids[k]
        } else {
            ids[k + 1]
        }));
    }
}

impl Store {
    /// A fresh, empty store.
    pub fn new() -> (s: Store)
        ensures
            s@ == empty_store_model(),
            s@.wf(),
    {
        let s = Store {
            next_id: 1,
            accounts: Vec::new(),
            transactions: Vec::new(),
            recurring: Vec::new(),
            users: Vec::new(),
            banks: Vec::new(),
            categories: Vec::new(),
            tags: Vec::new(),
            flow_groups: Vec::new(),
            members: Vec::new(),
            incomes: Vec::new(),
            scheduled_transfers: Vec::new(),
            fixed_expenses: Vec::new(),
            budget_categories: Vec::new(),
            transaction_tags: Vec::new(),
            savings_goals: Vec::new(),
            financial_goals: Vec::new(),
            fund_withdrawals: Vec::new(),
            monthly_plans: Vec::new(),
            db_path: None,
        };
        proof {
            assert(accounts_view(Seq::empty()) =~= Seq::<AccountV>::empty());
            assert(s@ =~= empty_store_model());
            lemma_empty_store_wf();
        }
        s
    }

    /// Record the path of the backing database file.  Fails if the store
    /// has already been initialised with one.
    pub fn init_database(&mut self, path: String) -> (r: Result<(), AppError>)
        ensures
            r is Ok <==> old(self)@.db_path is None,
            r is Ok ==> final(self)@ == (StoreModel { db_path: Some(path), ..old(self)@ }),
            r is Err ==> final(self)@ == old(self)@ && r->Err_0 is Internal,
    {
        match &self.db_path {
            Some(_) => Err(AppError::Internal("database already initialised".to_owned())),
            None => {
                self.db_path = Some(path);
                Ok(())
            },
        }
    }

    /// The path of the backing database file, if one has been recorded.
    pub fn get_db_path(&self) -> (r: Result<String, AppError>)
        ensures
            r is Ok <==> self@.db_path is Some,
            r matches Ok(p) ==> self@.db_path matches Some(q) && p == q,
            r matches Err(e) ==> e is Internal,
    {
        match &self.db_path {
            Some(p) => Ok(p.clone()),
            None => Err(AppError::Internal("database path is not set".to_owned())),
        }
    }

    /// The balance-adjustment primitive: atomically add `amount_change` to
    /// the current balance of the account with this identifier.  No other
    /// operation may write the balance column directly.  Balances may go
    /// negative; the only failures are a missing account and a balance the
    /// store cannot represent.
    pub fn update_account_balance(&mut self, account_id: i64, amount_change: i64) -> (r: Result<
        (),
        AppError,
    >)
        requires
            old(self)@.wf(),
        ensures
            final(self)@.wf(),
            r is Ok <==> has_account(old(self)@.accounts, account_id) && can_apply_leg(
                old(self)@.accounts,
                account_id,
                amount_change as int,
            ),
            r is Ok ==> final(self)@ == (StoreModel {
                accounts: apply_delta(old(self)@.accounts, account_id, amount_change as int),
                ..old(self)@
            }),
            r is Err ==> final(self)@ == old(self)@,
            r matches Err(e) ==> (if has_account(old(self)@.accounts, account_id) {
                e is Database
            } else {
                e is NotFound
            }),
    {
        let n = self.accounts.len();
        let mut i: usize = 0;
        while i < n
            invariant
                n == self.accounts.len(),
                0 <= i <= n,
                *self == *old(self),
                old(self)@.wf(),
                forall|j: int| 0 <= j < i ==> (#[trigger] self.accounts@[j]).id != account_id,
            decreases n - i,
        {
            if self.accounts[i].id == account_id {
                let cur = self.accounts[i].current_balance;
                let nb: i128 = (cur as i128) + (amount_change as i128);
                proof {
                    let m = old(self)@;
                    assert(m.accounts.len() == old(self).accounts@.len());
                    assert(m.accounts[i as int] == old(self).accounts@[i as int]@);
                }
                if nb < (i64::MIN as i128) || nb > (i64::MAX as i128) {
                    proof {
                        let m = old(self)@;
                        assert(m.accounts[i as int] == old(self).accounts@[i as int]@);
                        assert(m.accounts[i as int].id == account_id);
                        assert(m.accounts[i as int].current_balance + (amount_change as int) == nb
                            as int);
                        assert(!fits_i64(
                            m.accounts[i as int].current_balance + (amount_change as int),
                        ));
                        assert(!can_apply_leg(m.accounts, account_id, amount_change as int));
                    }
                    return Err(
                        AppError::Database("account balance out of range".to_owned()),
                    );
                }
                let mut row = self.accounts.remove(i);
                row.current_balance = nb as i64;
                self.accounts.insert(i, row);
                proof {
                    let m = old(self)@;
                    assert(m.accounts.len() == old(self).accounts@.len());
                    let av2 = accounts_view(self.accounts@);
                    let target = apply_delta(m.accounts, account_id, amount_change as int);
                    assert(av2.len() == self.accounts@.len());
                    assert(m.accounts.len() == old(self).accounts@.len());
                    assert forall|j: int| 0 <= j < av2.len() implies av2[j] == target[j] by {
                        assert(av2[j] == self.accounts@[j]@);
                        assert(m.accounts[j] == old(self).accounts@[j]@);
                        if j != i {
                            assert(self.accounts@[j] == old(self).accounts@[j]);
                            // identifiers are unique, so no other row matches
                            assert(account_ids(m.accounts)[j] == m.accounts[j].id);
                            assert(account_ids(m.accounts)[i as int] == m.accounts[i as int].id);
                            assert(account_ids(m.accounts)[j] != account_ids(m.accounts)[
                                i as int]);
                        }
                    }
                    assert(av2 =~= target);
                    assert(account_ids(av2) =~= account_ids(m.accounts));
                    assert(final(self)@ =~= (StoreModel { accounts: target, ..m }));
                    assert(has_account(m.accounts, account_id));
                    assert forall|j: int|
                        0 <= j < m.accounts.len() && m.accounts[j].id == account_id implies fits_i64(
                        #[trigger] m.accounts[j].current_balance + (amount_change as int),
                    ) by {
                        if j != i {
                            assert(account_ids(m.accounts)[j] == m.accounts[j].id);
                            assert(account_ids(m.accounts)[i as int] == m.accounts[i as int].id);
                            assert(account_ids(m.accounts)[j] != account_ids(m.accounts)[
                                i as int]);
                        } else {
                            assert(m.accounts[j].current_balance + (amount_change as int) == nb
                                as int);
                        }
                    }
                    assert(can_apply_leg(m.accounts, account_id, amount_change as int));
                }
                return Ok(());
            }
            i = i + 1;
        }
        proof {
            let m = old(self)@;
            assert(m.accounts.len() == old(self).accounts@.len());
            assert forall|j: int| 0 <= j < m.accounts.len() implies (#[trigger] m.accounts[j]).id
                != account_id by {
                assert(m.accounts[j] == old(self).accounts@[j]@);
            }
            assert(!has_account(m.accounts, account_id));
        }
        Err(AppError::NotFound("account not found".to_owned()))
    }

    /// Apply one balance adjustment the way a posting does: a missing
    /// account is tolerated and the adjustment for it silently skipped;
    /// only a balance the store cannot represent makes it fail, leaving
    /// every row unchanged.
    pub(crate) fn apply_leg(&mut self, account_id: i64, delta: i128) -> (ok: bool)
        requires
            old(self)@.wf(),
            -(i64::MAX as int) - 1 <= delta as int <= (i64::MAX as int) + 1,
        ensures
            final(self)@.wf(),
            ok == can_apply_leg(old(self)@.accounts, account_id, delta as int),
            ok ==> final(self)@ == (StoreModel {
                accounts: apply_delta(old(self)@.accounts, account_id, delta as int),
                ..old(self)@
            }),
            !ok ==> final(self)@ == old(self)@,
    {
        let n = self.accounts.len();
        let mut i: usize = 0;
        while i < n
            invariant
                n == self.accounts.len(),
                0 <= i <= n,
                *self == *old(self),
                old(self)@.wf(),
                -(i64::MAX as int) - 1 <= delta as int <= (i64::MAX as int) + 1,
                forall|j: int| 0 <= j < i ==> (#[trigger] self.accounts@[j]).id != account_id,
            decreases n - i,
        {
            if self.accounts[i].id == account_id {
                let cur = self.accounts[i].current_balance;
                let nb: i128 = (cur as i128) + delta;
                proof {
                    let m = old(self)@;
                    assert(m.accounts.len() == old(self).accounts@.len());
                    assert(m.accounts[i as int] == old(self).accounts@[i as int]@);
                }
                if nb < (i64::MIN as i128) || nb > (i64::MAX as i128) {
                    proof {
                        let m = old(self)@;
                        assert(m.accounts[i as int] == old(self).accounts@[i as int]@);
                        assert(m.accounts[i as int].id == account_id);
                        assert(m.accounts[i as int].current_balance + (delta as int) == nb as int);
                        assert(!fits_i64(m.accounts[i as int].current_balance + (delta as int)));
                        assert(!can_apply_leg(m.accounts, account_id, delta as int));
                    }
                    return false;
                }
                let mut row = self.accounts.remove(i);
                row.current_balance = nb as i64;
                self.accounts.insert(i, row);
                proof {
                    let m = old(self)@;
                    assert(m.accounts.len() == old(self).accounts@.len());
                    let av2 = accounts_view(self.accounts@);
                    let target = apply_delta(m.accounts, account_id, delta as int);
                    assert(av2.len() == self.accounts@.len());
                    assert forall|j: int| 0 <= j < av2.len() implies av2[j] == target[j] by {
                        assert(av2[j] == self.accounts@[j]@);
                        assert(m.accounts[j] == old(self).accounts@[j]@);
                        if j != i {
                            assert(self.accounts@[j] == old(self).accounts@[j]);
                            assert(account_ids(m.accounts)[j] == m.accounts[j].id);
                            assert(account_ids(m.accounts)[i as int] == m.accounts[i as int].id);
                            assert(account_ids(m.accounts)[j] != account_ids(m.accounts)[
                                i as int]);
                        }
                    }
                    assert(av2 =~= target);
                    assert(account_ids(av2) =~= account_ids(m.accounts));
                    assert(final(self)@ =~= (StoreModel { accounts: target, ..m }));
                    assert(has_account(m.accounts, account_id));
                    assert forall|j: int|
                        0 <= j < m.accounts.len() && m.accounts[j].id == account_id implies fits_i64(
                        #[trigger] m.accounts[j].current_balance + (delta as int),
                    ) by {
                        if j != i {
                            assert(account_ids(m.accounts)[j] == m.accounts[j].id);
                            assert(account_ids(m.accounts)[i as int] == m.accounts[i as int].id);
                            assert(account_ids(m.accounts)[j] != account_ids(m.accounts)[
                                i as int]);
                        } else {
                            assert(m.accounts[j].current_balance + (delta as int) == nb as int);
                        }
                    }
                    assert(can_apply_leg(m.accounts, account_id, delta as int));
                }
                return true;
            }
            i = i + 1;
        }
        proof {
            let m = old(self)@;
            assert(m.accounts.len() == old(self).accounts@.len());
            assert forall|j: int|
                0 <= j < m.accounts.len() implies (#[trigger] m.accounts[j]).id != account_id by {
                assert(m.accounts[j] == old(self).accounts@[j]@);
            }
            assert(can_apply_leg(m.accounts, account_id, delta as int));
            let target = apply_delta(m.accounts, account_id, delta as int);
            assert forall|j: int| 0 <= j < m.accounts.len() implies target[j] == m.accounts[j] by {
                assert(m.accounts[j].id != account_id);
            }
            assert(target =~= m.accounts);
            assert(final(self)@ =~= (StoreModel { accounts: target, ..m }));
        }
        true
    }
}

} // verus!
