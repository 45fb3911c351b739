//! The backup/restore engine: serialising the full relational graph into a
//! portable snapshot, and rebuilding a store from one.
//!
//! Export walks every top-level collection and nests each parent's
//! children under it.  Import is destructive-then-rebuild: it clears the
//! affected tables child-before-parent, then re-inserts parents first and
//! children under the *new* parent identifiers — the snapshot's own
//! identifiers carry no persistence guarantee.

use crate::date::Date;
use crate::error::AppError;
use crate::ledger::{accounts_view, AccountV};
use crate::store::{has_account, lemma_store_view, store_model, Store, StoreModel};
use crate::categories::has_category;
use crate::types::{
    AccountExtended, BackupData, Bank, BankWithAccounts, BudgetCategory, Category, FixedExpense,
    FullBackup, HouseholdMember, HouseholdMemberWithIncomes, MemberIncome, ScheduledTransfer,
    Transaction, TransactionFilters, TxStatus, TxType,
};
use vstd::prelude::*;

verus! {

/// The member part of a snapshot: one entry per member row, in table
/// order, each holding exactly the income rows that reference it.
pub open spec fn members_part_ok(m: StoreModel, s: Seq<HouseholdMemberWithIncomes>) -> bool {
    &&& s.len() == m.members.len()
    &&& forall|k: int|
        0 <= k < s.len() ==> (#[trigger] s[k]).member == m.members[k] && s[k].incomes@
            == m.incomes.filter(
            |inc: MemberIncome| inc.member_id == m.members[k].id.unwrap(),
        )
}

/// The snapshot row of a bank-owned account.
pub open spec fn account_ext_of(e: AccountExtended, a: AccountV) -> bool {
    &&& e.id == Some(a.id)
    &&& e.name == a.name
    &&& e.account_type == a.account_type
    &&& e.bank_id == a.bank_id
    &&& e.owner_user_id == a.owner_user_id
    &&& e.account_number == a.account_number
    &&& e.currency == a.currency
    &&& e.initial_balance as int == a.initial_balance
    &&& e.current_balance as int == a.current_balance
    &&& e.color == a.color
    &&& e.icon == a.icon
    &&& e.is_premium == a.is_premium
    &&& e.premium_min_flow == a.premium_min_flow
    &&& e.active == a.active
}

/// A list of snapshot account rows mirrors a list of account rows.
pub open spec fn accounts_ext_ok(es: Seq<AccountExtended>, avs: Seq<AccountV>) -> bool {
    &&& es.len() == avs.len()
    &&& forall|k: int| 0 <= k < es.len() ==> account_ext_of(#[trigger] es[k], avs[k])
}

/// The bank part of a snapshot: one entry per bank row, in table order,
/// each holding exactly the accounts that reference it.
pub open spec fn banks_part_ok(m: StoreModel, s: Seq<BankWithAccounts>) -> bool {
    &&& s.len() == m.banks.len()
    &&& forall|k: int|
        0 <= k < s.len() ==> (#[trigger] s[k]).bank == m.banks[k] && accounts_ext_ok(
            s[k].accounts@,
            m.accounts.filter(|a: AccountV| a.bank_id == Some(m.banks[k].id)),
        )
}

/// The whole snapshot payload of a store.
pub open spec fn backup_data_ok(m: StoreModel, d: BackupData) -> bool {
    &&& members_part_ok(m, d.household_members@)
    &&& banks_part_ok(m, d.banks@)
    &&& d.scheduled_transfers@ == m.scheduled_transfers
    &&& d.fixed_expenses@ == m.fixed_expenses
    &&& d.budget_categories@ == m.budget_categories
}

/// The account row that restoring a snapshot account under the fresh
/// identifiers produces.  The snapshot carries no credit limit, so the
/// restored row has none.
pub open spec fn restored_account(e: AccountExtended, bank_id: i64, id: i64) -> AccountV {
    AccountV {
        id,
        name: e.name,
        account_type: e.account_type,
        bank_id: Some(bank_id),
        owner_user_id: e.owner_user_id,
        account_number: e.account_number,
        currency: e.currency,
        initial_balance: e.initial_balance as int,
        current_balance: e.current_balance as int,
        color: e.color,
        icon: e.icon,
        is_premium: e.is_premium,
        premium_min_flow: e.premium_min_flow,
        credit_limit: None,
        active: e.active,
    }
}

/// One bank's snapshot accounts restored in order under successive fresh
/// identifiers, together with the counter left behind.
pub open spec fn import_accounts_spec(es: Seq<AccountExtended>, bank_id: i64, next: int) -> (
    Seq<AccountV>,
    int,
)
    decreases es.len(),
{
    if es.len() == 0 {
        (Seq::empty(), next)
    } else {
        let rest = import_accounts_spec(es.drop_first(), bank_id, next + 1);
        (seq![restored_account(es[0], bank_id, next as i64)] + rest.0, rest.1)
    }
}

/// The bank row that restoring a snapshot bank produces.
pub open spec fn restored_bank(b: Bank, id: i64) -> Bank {
    Bank {
        id,
        name: b.name,
        short_name: b.short_name,
        logo: b.logo,
        color: b.color,
        notes: b.notes,
        active: b.active,
    }
}

/// The snapshot's banks restored in order, each immediately followed by
/// its accounts under the new bank identifier.
pub open spec fn import_banks_spec(bs: Seq<BankWithAccounts>, next: int) -> (
    Seq<Bank>,
    Seq<AccountV>,
    int,
)
    decreases bs.len(),
{
    if bs.len() == 0 {
        (Seq::empty(), Seq::empty(), next)
    } else {
        let b = restored_bank(bs[0].bank, next as i64);
        let accs = import_accounts_spec(bs[0].accounts@, b.id, next + 1);
        let rest = import_banks_spec(bs.drop_first(), accs.1);
        (seq![b] + rest.0, accs.0 + rest.1, rest.2)
    }
}

/// The income row that restoring a snapshot income under the new member
/// identifier produces.
pub open spec fn restored_income(inc: MemberIncome, member_id: i64, id: i64) -> MemberIncome {
    MemberIncome {
        id: Some(id),
        member_id,
        name: inc.name,
        amount: inc.amount,
        frequency: inc.frequency,
        day_of_month: inc.day_of_month,
        account_id: inc.account_id,
        is_active: inc.is_active,
    }
}

/// One member's snapshot incomes restored in order.
pub open spec fn import_incomes_spec(es: Seq<MemberIncome>, member_id: i64, next: int) -> (
    Seq<MemberIncome>,
    int,
)
    decreases es.len(),
{
    if es.len() == 0 {
        (Seq::empty(), next)
    } else {
        let rest = import_incomes_spec(es.drop_first(), member_id, next + 1);
        (seq![restored_income(es[0], member_id, next as i64)] + rest.0, rest.1)
    }
}

/// The member row that restoring a snapshot member produces.
pub open spec fn restored_member(mm: HouseholdMember, id: i64) -> HouseholdMember {
    HouseholdMember { id: Some(id), name: mm.name, color: mm.color, avatar: mm.avatar }
}

/// The snapshot's members restored in order, each immediately followed by
/// its incomes under the new member identifier.
pub open spec fn import_members_spec(ms: Seq<HouseholdMemberWithIncomes>, next: int) -> (
    Seq<HouseholdMember>,
    Seq<MemberIncome>,
    int,
)
    decreases ms.len(),
{
    if ms.len() == 0 {
        (Seq::empty(), Seq::empty(), next)
    } else {
        let mm = restored_member(ms[0].member, next as i64);
        let incs = import_incomes_spec(ms[0].incomes@, mm.id.unwrap(), next + 1);
        let rest = import_members_spec(ms.drop_first(), incs.1);
        (seq![mm] + rest.0, incs.0 + rest.1, rest.2)
    }
}

/// The transfer row that restoring a snapshot transfer produces.
pub open spec fn restored_transfer(t: ScheduledTransfer, id: i64) -> ScheduledTransfer {
    ScheduledTransfer {
        id: Some(id),
        name: t.name,
        from_account_id: t.from_account_id,
        to_account_id: t.to_account_id,
        amount: t.amount,
        day_of_month: t.day_of_month,
        description: t.description,
        category: t.category,
        display_order: t.display_order,
        is_active: t.is_active,
    }
}

/// The snapshot's transfers restored in order.
pub open spec fn import_transfers_spec(ts: Seq<ScheduledTransfer>, next: int) -> (
    Seq<ScheduledTransfer>,
    int,
)
    decreases ts.len(),
{
    if ts.len() == 0 {
        (Seq::empty(), next)
    } else {
        let rest = import_transfers_spec(ts.drop_first(), next + 1);
        (seq![restored_transfer(ts[0], next as i64)] + rest.0, rest.1)
    }
}

/// The fixed-expense row that restoring a snapshot expense produces.
pub open spec fn restored_expense(t: FixedExpense, id: i64) -> FixedExpense {
    FixedExpense {
        id: Some(id),
        name: t.name,
        amount: t.amount,
        category: t.category,
        frequency: t.frequency,
        day_of_month: t.day_of_month,
        account_id: t.account_id,
        assigned_to: t.assigned_to,
        is_active: t.is_active,
        notes: t.notes,
    }
}

/// The snapshot's fixed expenses restored in order.
pub open spec fn import_expenses_spec(ts: Seq<FixedExpense>, next: int) -> (Seq<FixedExpense>, int)
    decreases ts.len(),
{
    if ts.len() == 0 {
        (Seq::empty(), next)
    } else {
        let rest = import_expenses_spec(ts.drop_first(), next + 1);
        (seq![restored_expense(ts[0], next as i64)] + rest.0, rest.1)
    }
}

/// The budget-category row that restoring a snapshot budget produces.
pub open spec fn restored_budget(t: BudgetCategory, id: i64) -> BudgetCategory {
    BudgetCategory {
        id: Some(id),
        name: t.name,
        budget_type: t.budget_type,
        monthly_limit: t.monthly_limit,
        color: t.color,
        icon: t.icon,
        assigned_to: t.assigned_to,
    }
}

/// The snapshot's budget categories restored in order.
pub open spec fn import_budgets_spec(ts: Seq<BudgetCategory>, next: int) -> (
    Seq<BudgetCategory>,
    int,
)
    decreases ts.len(),
{
    if ts.len() == 0 {
        (Seq::empty(), next)
    } else {
        let rest = import_budgets_spec(ts.drop_first(), next + 1);
        (seq![restored_budget(ts[0], next as i64)] + rest.0, rest.1)
    }
}

/// Restoring accounts advances the counter by exactly one per row.
pub proof fn lemma_import_accounts_next(es: Seq<AccountExtended>, bank_id: i64, next: int)
    ensures
        import_accounts_spec(es, bank_id, next).1 == next + es.len(),
        import_accounts_spec(es, bank_id, next).0.len() == es.len(),
    decreases es.len(),
{
    if es.len() > 0 {
        lemma_import_accounts_next(es.drop_first(), bank_id, next + 1);
    }
}

/// Restoring incomes advances the counter by exactly one per row.
pub proof fn lemma_import_incomes_next(es: Seq<MemberIncome>, member_id: i64, next: int)
    ensures
        import_incomes_spec(es, member_id, next).1 == next + es.len(),
        import_incomes_spec(es, member_id, next).0.len() == es.len(),
    decreases es.len(),
{
    if es.len() > 0 {
        lemma_import_incomes_next(es.drop_first(), member_id, next + 1);
    }
}

/// Restoring banks never moves the counter backwards, and moves it at
/// least once per bank.
pub proof fn lemma_import_banks_next(bs: Seq<BankWithAccounts>, next: int)
    ensures
        import_banks_spec(bs, next).2 >= next,
        bs.len() > 0 ==> import_banks_spec(bs, next).2 >= next + 1,
        import_banks_spec(bs, next).0.len() == bs.len(),
    decreases bs.len(),
{
    if bs.len() > 0 {
        lemma_import_accounts_next(bs[0].accounts@, next as i64, next + 1);
        lemma_import_banks_next(bs.drop_first(), next + 1 + bs[0].accounts@.len());
    }
}

/// Restoring members never moves the counter backwards, and moves it at
/// least once per member.
pub proof fn lemma_import_members_next(ms: Seq<HouseholdMemberWithIncomes>, next: int)
    ensures
        import_members_spec(ms, next).2 >= next,
        ms.len() > 0 ==> import_members_spec(ms, next).2 >= next + 1,
        import_members_spec(ms, next).0.len() == ms.len(),
    decreases ms.len(),
{
    if ms.len() > 0 {
        lemma_import_incomes_next(ms[0].incomes@, next as i64, next + 1);
        lemma_import_members_next(ms.drop_first(), next + 1 + ms[0].incomes@.len());
    }
}

/// Restoring transfers advances the counter by exactly one per row.
pub proof fn lemma_import_transfers_next(ts: Seq<ScheduledTransfer>, next: int)
    ensures
        import_transfers_spec(ts, next).1 == next + ts.len(),
        import_transfers_spec(ts, next).0.len() == ts.len(),
    decreases ts.len(),
{
    if ts.len() > 0 {
        lemma_import_transfers_next(ts.drop_first(), next + 1);
    }
}

/// Restoring expenses advances the counter by exactly one per row.
pub proof fn lemma_import_expenses_next(ts: Seq<FixedExpense>, next: int)
    ensures
        import_expenses_spec(ts, next).1 == next + ts.len(),
        import_expenses_spec(ts, next).0.len() == ts.len(),
    decreases ts.len(),
{
    if ts.len() > 0 {
        lemma_import_expenses_next(ts.drop_first(), next + 1);
    }
}

/// Restoring budgets advances the counter by exactly one per row.
pub proof fn lemma_import_budgets_next(ts: Seq<BudgetCategory>, next: int)
    ensures
        import_budgets_spec(ts, next).1 == next + ts.len(),
        import_budgets_spec(ts, next).0.len() == ts.len(),
    decreases ts.len(),
{
    if ts.len() > 0 {
        lemma_import_budgets_next(ts.drop_first(), next + 1);
    }
}

/// The counter the whole rebuild would leave behind.
pub open spec fn import_end_next(m: StoreModel, d: BackupData) -> int {
    let n1 = import_banks_spec(d.banks@, m.next_id).2;
    let n2 = import_members_spec(d.household_members@, n1).2;
    let n3 = import_transfers_spec(d.scheduled_transfers@, n2).1;
    let n4 = import_expenses_spec(d.fixed_expenses@, n3).1;
    import_budgets_spec(d.budget_categories@, n4).1
}

/// The store a successful rebuild of snapshot `d` over store `m` leaves
/// behind: the affected tables cleared and repopulated from the snapshot
/// under fresh identifiers, everything else untouched.  Accounts that
/// belong to no bank survive the rebuild.
pub open spec fn imported_model(m: StoreModel, d: BackupData) -> StoreModel {
    let kept = m.accounts.filter(|a: AccountV| a.bank_id is None);
    let ib = import_banks_spec(d.banks@, m.next_id);
    let im = import_members_spec(d.household_members@, ib.2);
    let it = import_transfers_spec(d.scheduled_transfers@, im.2);
    let ie = import_expenses_spec(d.fixed_expenses@, it.1);
    let iu = import_budgets_spec(d.budget_categories@, ie.1);
    StoreModel {
        next_id: iu.1,
        accounts: kept + ib.1,
        banks: ib.0,
        members: im.0,
        incomes: im.1,
        scheduled_transfers: it.0,
        fixed_expenses: ie.0,
        budget_categories: iu.0,
        ..m
    }
}

/// Where a stopped member rebuild leaves the store `m`: the members
/// before some index fully restored with their incomes and, when the
/// counter still covered the member's own row, that member's row plus the
/// prefix of its incomes that still had identifiers.
pub open spec fn members_restore_stopped(
    m: StoreModel,
    ms: Seq<HouseholdMemberWithIncomes>,
    f: StoreModel,
) -> bool {
    exists|k: int|
        #![trigger ms.take(k)]
        0 <= k < ms.len() && ({
            let p = import_members_spec(ms.take(k), m.next_id);
            ||| (p.2 == i64::MAX && f == (StoreModel {
                next_id: i64::MAX as int,
                members: m.members + p.0,
                incomes: m.incomes + p.1,
                ..m
            }))
            ||| (p.2 < i64::MAX && import_incomes_spec(ms[k].incomes@, p.2 as i64, p.2 + 1).1
                > i64::MAX && f == (StoreModel {
                next_id: i64::MAX as int,
                members: m.members + p.0.push(restored_member(ms[k].member, p.2 as i64)),
                incomes: m.incomes + p.1 + import_incomes_spec(
                    ms[k].incomes@.take(i64::MAX - (p.2 + 1)),
                    p.2 as i64,
                    p.2 + 1,
                ).0,
                ..m
            }))
        })
}

/// Extending the restored member prefix by one element appends its member
/// row and its restored incomes.
proof fn import_members_snoc(ms: Seq<HouseholdMemberWithIncomes>, next: int, i: int)
    requires
        0 <= i < ms.len(),
    ensures
        ({
            let p = import_members_spec(ms.take(i), next);
            let q = import_members_spec(ms.take(i + 1), next);
            let incs = import_incomes_spec(ms[i].incomes@, p.2 as i64, p.2 + 1);
            &&& q.0 == p.0.push(restored_member(ms[i].member, p.2 as i64))
            &&& q.1 == p.1 + incs.0
            &&& q.2 == incs.1
        }),
    decreases i,
{
    reveal_with_fuel(import_members_spec, 3);
    let p = import_members_spec(ms.take(i), next);
    let q = import_members_spec(ms.take(i + 1), next);
    if i == 0 {
        assert(ms.take(0) =~= Seq::<HouseholdMemberWithIncomes>::empty());
        assert(ms.take(1)[0] == ms[0]);
        assert(ms.take(1).drop_first() =~= Seq::<HouseholdMemberWithIncomes>::empty());
        let incs = import_incomes_spec(ms[0].incomes@, next as i64, next + 1);
        assert(q.0 =~= p.0.push(restored_member(ms[0].member, next as i64)));
        assert(q.1 =~= p.1 + incs.0);
    } else {
        let ms1 = ms.drop_first();
        assert(ms.take(i)[0] == ms[0]);
        assert(ms.take(i + 1)[0] == ms[0]);
        assert(ms.take(i).drop_first() =~= ms1.take(i - 1));
        assert(ms.take(i + 1).drop_first() =~= ms1.take(i));
        let a0 = import_incomes_spec(ms[0].incomes@, next as i64, next + 1);
        import_members_snoc(ms1, a0.1, i - 1);
        assert(ms1[i - 1] == ms[i]);
        assert(q.0 =~= p.0.push(restored_member(ms[i].member, p.2 as i64)));
        assert(q.1 =~= p.1 + import_incomes_spec(ms[i].incomes@, p.2 as i64, p.2 + 1).0);
    }
}

/// Where a stopped rebuild leaves the store: the affected tables were
/// cleared, every phase before the failing one is fully rebuilt, and the
/// failing phase holds exactly the prefix of its rows that still had
/// identifiers.  Only the identifier counter running out can stop a
/// rebuild, so the boundary is a function of the starting counter.
pub open spec fn rebuild_stopped(m: StoreModel, d: BackupData, f: StoreModel) -> bool {
    let cleared = StoreModel {
        accounts: m.accounts.filter(|a: AccountV| a.bank_id is None),
        banks: Seq::<Bank>::empty(),
        members: Seq::<HouseholdMember>::empty(),
        incomes: Seq::<MemberIncome>::empty(),
        scheduled_transfers: Seq::<ScheduledTransfer>::empty(),
        fixed_expenses: Seq::<FixedExpense>::empty(),
        budget_categories: Seq::<BudgetCategory>::empty(),
        ..m
    };
    let ib = import_banks_spec(d.banks@, m.next_id);
    let b_done = StoreModel {
        next_id: ib.2,
        banks: ib.0,
        accounts: cleared.accounts + ib.1,
        ..cleared
    };
    let im = import_members_spec(d.household_members@, ib.2);
    let m_done = StoreModel { next_id: im.2, members: im.0, incomes: im.1, ..b_done };
    let it = import_transfers_spec(d.scheduled_transfers@, im.2);
    let t_done = StoreModel { next_id: it.1, scheduled_transfers: it.0, ..m_done };
    let ie = import_expenses_spec(d.fixed_expenses@, it.1);
    let e_done = StoreModel { next_id: ie.1, fixed_expenses: ie.0, ..t_done };
    ||| banks_restore_stopped(cleared, d.banks@, f)
    ||| (ib.2 <= i64::MAX && members_restore_stopped(b_done, d.household_members@, f))
    ||| (im.2 <= i64::MAX && it.1 > i64::MAX && f == (StoreModel {
        next_id: i64::MAX as int,
        scheduled_transfers: import_transfers_spec(
            d.scheduled_transfers@.take(i64::MAX - im.2),
            im.2,
        ).0,
        ..m_done
    }))
    ||| (it.1 <= i64::MAX && ie.1 > i64::MAX && f == (StoreModel {
        next_id: i64::MAX as int,
        fixed_expenses: import_expenses_spec(d.fixed_expenses@.take(i64::MAX - it.1), it.1).0,
        ..t_done
    }))
    ||| (ie.1 <= i64::MAX && import_budgets_spec(d.budget_categories@, ie.1).1 > i64::MAX && f
        == (StoreModel {
        next_id: i64::MAX as int,
        budget_categories: import_budgets_spec(
            d.budget_categories@.take(i64::MAX - ie.1),
            ie.1,
        ).0,
        ..e_done
    }))
}

/// Where a stopped bank rebuild leaves the store `m`: the banks before
/// some index fully restored with their accounts and, when the counter
/// still covered the bank's own row, that bank's row plus the prefix of
/// its accounts that still had identifiers.
pub open spec fn banks_restore_stopped(
    m: StoreModel,
    bs: Seq<BankWithAccounts>,
    f: StoreModel,
) -> bool {
    exists|k: int|
        #![trigger bs.take(k)]
        0 <= k < bs.len() && ({
            let p = import_banks_spec(bs.take(k), m.next_id);
            ||| (p.2 == i64::MAX && f == (StoreModel {
                next_id: i64::MAX as int,
                banks: m.banks + p.0,
                accounts: m.accounts + p.1,
                ..m
            }))
            ||| (p.2 < i64::MAX && import_accounts_spec(bs[k].accounts@, p.2 as i64, p.2 + 1).1
                > i64::MAX && f == (StoreModel {
                next_id: i64::MAX as int,
                banks: m.banks + p.0.push(restored_bank(bs[k].bank, p.2 as i64)),
                accounts: m.accounts + p.1 + import_accounts_spec(
                    bs[k].accounts@.take(i64::MAX - (p.2 + 1)),
                    p.2 as i64,
                    p.2 + 1,
                ).0,
                ..m
            }))
        })
}

/// Extending the restored bank prefix by one element appends its bank row
/// and its restored accounts.
proof fn import_banks_snoc(bs: Seq<BankWithAccounts>, next: int, i: int)
    requires
        0 <= i < bs.len(),
    ensures
        ({
            let p = import_banks_spec(bs.take(i), next);
            let q = import_banks_spec(bs.take(i + 1), next);
            let accs = import_accounts_spec(bs[i].accounts@, p.2 as i64, p.2 + 1);
            &&& q.0 == p.0.push(restored_bank(bs[i].bank, p.2 as i64))
            &&& q.1 == p.1 + accs.0
            &&& q.2 == accs.1
        }),
    decreases i,
{
    reveal_with_fuel(import_banks_spec, 3);
    let p = import_banks_spec(bs.take(i), next);
    let q = import_banks_spec(bs.take(i + 1), next);
    if i == 0 {
        assert(bs.take(0) =~= Seq::<BankWithAccounts>::empty());
        assert(bs.take(1)[0] == bs[0]);
        assert(bs.take(1).drop_first() =~= Seq::<BankWithAccounts>::empty());
        let accs = import_accounts_spec(bs[0].accounts@, next as i64, next + 1);
        assert(q.0 =~= p.0.push(restored_bank(bs[0].bank, next as i64)));
        assert(q.1 =~= p.1 + accs.0);
    } else {
        let bs1 = bs.drop_first();
        assert(bs.take(i)[0] == bs[0]);
        assert(bs.take(i + 1)[0] == bs[0]);
        assert(bs.take(i).drop_first() =~= bs1.take(i - 1));
        assert(bs.take(i + 1).drop_first() =~= bs1.take(i));
        let a0 = import_accounts_spec(bs[0].accounts@, next as i64, next + 1);
        import_banks_snoc(bs1, a0.1, i - 1);
        assert(bs1[i - 1] == bs[i]);
        let p1 = import_banks_spec(bs1.take(i - 1), a0.1);
        let q1 = import_banks_spec(bs1.take(i), a0.1);
        assert(q.0 =~= p.0.push(restored_bank(bs[i].bank, p.2 as i64)));
        assert(q.1 =~= p.1 + import_accounts_spec(bs[i].accounts@, p.2 as i64, p.2 + 1).0);
    }
}

impl Store {
    /// Export the full relational graph as a snapshot, tagged with the
    /// format version and the caller's timestamp.
    pub fn export_full_backup(&self, created_at: String) -> (r: FullBackup)
        requires
            self@.wf(),
        ensures
            r.version@ == "1.0.0"@,
            r.created_at == created_at,
            backup_data_ok(self@, r.data),
    {
        proof {
            lemma_store_view(*self);
        }
        // household members, each with its incomes
        let nm = self.members.len();
        let mut members_out: Vec<HouseholdMemberWithIncomes> = Vec::new();
        let mut i: usize = 0;
        while i < nm
            invariant
                nm == self.members.len(),
                0 <= i <= nm,
                self@.wf(),
                self@ == store_model(*self),
                members_out@.len() == i,
                forall|k: int|
                    0 <= k < i ==> (#[trigger] members_out@[k]).member == self@.members[k]
                        && members_out@[k].incomes@ == self@.incomes.filter(
                        |inc: MemberIncome| inc.member_id == self@.members[k].id.unwrap(),
                    ),
            decreases nm - i,
        {
            let member = self.members[i].clone_row();
            proof {
                assert(self@.members[i as int] == self.members@[i as int]);
                assert(self@.members[i as int].id is Some);
            }
            let member_id = match member.id {
                Some(x) => x,
                None => 0,
            };
            let incomes = self.get_member_incomes(member_id);
            members_out.push(HouseholdMemberWithIncomes { member, incomes });
            i = i + 1;
        }
        // banks, each with its accounts
        let nb = self.banks.len();
        let mut banks_out: Vec<BankWithAccounts> = Vec::new();
        let mut ib: usize = 0;
        while ib < nb
            invariant
                nb == self.banks.len(),
                0 <= ib <= nb,
                self@ == store_model(*self),
                banks_out@.len() == ib,
                forall|k: int|
                    0 <= k < ib ==> (#[trigger] banks_out@[k]).bank == self@.banks[k]
                        && accounts_ext_ok(
                        banks_out@[k].accounts@,
                        self@.accounts.filter(
                            |a: AccountV| a.bank_id == Some(self@.banks[k].id),
                        ),
                    ),
            decreases nb - ib,
        {
            let bank = self.banks[ib].clone_row();
            let bid = bank.id;
            // the accounts referencing this bank, in table order
            let na = self.accounts.len();
            let mut accs: Vec<AccountExtended> = Vec::new();
            let mut ia: usize = 0;
            while ia < na
                invariant
                    na == self.accounts.len(),
                    0 <= ia <= na,
                    self@ == store_model(*self),
                    accounts_ext_ok(
                        accs@,
                        accounts_view(self.accounts@.take(ia as int)).filter(
                            |a: AccountV| a.bank_id == Some(bid),
                        ),
                    ),
                decreases na - ia,
            {
                let ghost pred = |a: AccountV| a.bank_id == Some(bid);
                let ghost prefix = accounts_view(self.accounts@.take(ia as int));
                let ghost prefix2 = accounts_view(self.accounts@.take(ia as int + 1));
                proof {
                    assert(self.accounts@.take(ia as int + 1).drop_last() =~= self.accounts@.take(
                        ia as int,
                    ));
                    assert(prefix2.drop_last() =~= prefix);
                    assert(prefix2.last() == self.accounts@[ia as int]@);
                }
                let is_here = match self.accounts[ia].bank_id {
                    Some(b) => b == bid,
                    None => false,
                };
                if is_here {
                    let a = &self.accounts[ia];
                    let e = AccountExtended {
                        id: Some(a.id),
                        name: a.name.clone(),
                        account_type: a.account_type.clone(),
                        bank_id: a.bank_id,
                        owner_user_id: a.owner_user_id,
                        account_number: crate::types::clone_opt_string(&a.account_number),
                        currency: a.currency.clone(),
                        initial_balance: a.initial_balance,
                        current_balance: a.current_balance,
                        color: crate::types::clone_opt_string(&a.color),
                        icon: crate::types::clone_opt_string(&a.icon),
                        is_premium: a.is_premium,
                        premium_min_flow: a.premium_min_flow,
                        active: a.active,
                    };
                    accs.push(e);
                    proof {
                        reveal(Seq::filter);
                        assert(prefix2.filter(pred) == prefix.filter(pred).push(prefix2.last()));
                        assert(account_ext_of(accs@.last(), self.accounts@[ia as int]@));
                    }
                } else {
                    proof {
                        reveal(Seq::filter);
                        assert(prefix2.filter(pred) == prefix.filter(pred));
                    }
                }
                ia = ia + 1;
            }
            proof {
                assert(self.accounts@.take(na as int) =~= self.accounts@);
            }
            banks_out.push(BankWithAccounts { bank, accounts: accs });
            ib = ib + 1;
        }
        // flat collections, copied whole
        let transfers = self.copy_transfers();
        let expenses = self.copy_expenses();
        let budgets = self.copy_budgets();
        FullBackup {
            version: "1.0.0".to_owned(),
            created_at,
            data: BackupData {
                household_members: members_out,
                banks: banks_out,
                scheduled_transfers: transfers,
                fixed_expenses: expenses,
                budget_categories: budgets,
            },
        }
    }

    /// Restore one bank's snapshot accounts under the new bank
    /// identifier.  Fails only when the identifier counter runs out.
    fn restore_accounts(&mut self, accs: &Vec<AccountExtended>, bank_id: i64) -> (ok: bool)
        requires
            old(self)@.wf(),
        ensures
            final(self)@.wf(),
            ({
                let fa = import_accounts_spec(accs@, bank_id, old(self)@.next_id);
                &&& (ok ==> fa.1 <= i64::MAX && final(self)@ == (StoreModel {
                    next_id: fa.1,
                    accounts: old(self)@.accounts + fa.0,
                    ..old(self)@
                }))
                &&& (!ok ==> fa.1 > i64::MAX && final(self)@ == (StoreModel {
                    next_id: i64::MAX as int,
                    accounts: old(self)@.accounts + import_accounts_spec(
                        accs@.take(i64::MAX - old(self)@.next_id),
                        bank_id, old(self)@.next_id,
                    ).0,
                    ..old(self)@
                }))
            }),
    {
        proof {
            lemma_store_view(*old(self));
            assert(accs@.skip(0) =~= accs@);
            assert(accs@.take(0) =~= Seq::<AccountExtended>::empty());
            assert(old(self)@.accounts + import_accounts_spec(accs@.take(0), bank_id, old(self)@.next_id).0
                =~= old(self)@.accounts);
        }
        let n = accs.len();
        let mut i: usize = 0;
        while i < n
            invariant
                n == accs@.len(),
                0 <= i <= n,
                self@.wf(),
                (StoreModel {
                    next_id: old(self)@.next_id,
                    accounts: old(self)@.accounts,
                    ..self@
                }) == old(self)@,
                self@.next_id == old(self)@.next_id + i,
                self@.accounts == old(self)@.accounts + import_accounts_spec(
                    accs@.take(i as int),
                    bank_id, old(self)@.next_id,
                ).0,
                ({
                    let fa = import_accounts_spec(accs@, bank_id, old(self)@.next_id);
                    let rem = import_accounts_spec(
                        accs@.skip(i as int),
                        bank_id,
                        self@.next_id,
                    );
                    fa.1 == rem.1 && old(self)@.accounts + fa.0 == self@.accounts + rem.0
                }),
            decreases n - i,
        {
            proof {
                assert(accs@.skip(i as int).drop_first() =~= accs@.skip(i as int + 1));
                assert(accs@.skip(i as int)[0] == accs@[i as int]);
            }
            if self.next_id == i64::MAX {
                proof {
                    lemma_store_view(*self);
                    lemma_import_accounts_next(accs@.skip(i as int), bank_id, self@.next_id);
                    assert(i as int == i64::MAX - old(self)@.next_id);
                    assert(self@ =~= (StoreModel {
                        next_id: i64::MAX as int,
                        accounts: old(self)@.accounts + import_accounts_spec(
                            accs@.take(i64::MAX - old(self)@.next_id),
                            bank_id, old(self)@.next_id,
                        ).0,
                        ..old(self)@
                    }));
                }
                return false;
            }
            proof {
                lemma_store_view(*self);
            }
            let ghost pre = self@;
            let id = self.next_id;
            self.next_id = self.next_id + 1;
            let e = &accs[i];
            let row = crate::types::Account {
                id,
                name: e.name.clone(),
                account_type: e.account_type.clone(),
                bank_id: Some(bank_id),
                owner_user_id: e.owner_user_id,
                account_number: crate::types::clone_opt_string(&e.account_number),
                currency: e.currency.clone(),
                initial_balance: e.initial_balance,
                current_balance: e.current_balance,
                color: crate::types::clone_opt_string(&e.color),
                icon: crate::types::clone_opt_string(&e.icon),
                is_premium: e.is_premium,
                premium_min_flow: e.premium_min_flow,
                credit_limit: None,
                active: e.active,
            };
            proof {
                assert(row@ == restored_account(accs@[i as int], bank_id, id));
            }
            self.accounts.push(row);
            proof {
                lemma_store_view(*self);
                assert(accounts_view(self.accounts@) =~= pre.accounts.push(
                    restored_account(accs@[i as int], bank_id, id),
                ));
                assert(self@ =~= (StoreModel {
                    next_id: pre.next_id + 1,
                    accounts: pre.accounts.push(restored_account(accs@[i as int], bank_id, id)),
                    ..pre
                }));
                assert(crate::store::account_ids(
                    pre.accounts.push(restored_account(accs@[i as int], bank_id, id)),
                ) =~= crate::store::account_ids(pre.accounts).push(id));
                crate::store::lemma_ids_ok_push(
                    crate::store::account_ids(pre.accounts),
                    pre.next_id,
                );
                assert(pre.accounts.push(restored_account(accs@[i as int], bank_id, id))
                    =~= pre.accounts + seq![restored_account(accs@[i as int], bank_id, id)]);
                assert(old(self)@.accounts + import_accounts_spec(
                    accs@,
                    bank_id,
                    old(self)@.next_id,
                ).0 =~= self@.accounts + import_accounts_spec(
                    accs@.skip(i as int + 1),
                    bank_id,
                    self@.next_id as int,
                ).0);
                import_accounts_snoc(accs@, bank_id, old(self)@.next_id, i as int);
                assert((old(self)@.next_id + i) as i64 == id);
                assert(self@.accounts =~= old(self)@.accounts + import_accounts_spec(
                    accs@.take(i as int + 1),
                    bank_id,
                    old(self)@.next_id,
                ).0);
            }
            i = i + 1;
        }
        proof {
            assert(accs@.skip(n as int) =~= Seq::<AccountExtended>::empty());
            let fa = import_accounts_spec(accs@, bank_id, old(self)@.next_id);
            assert(old(self)@.accounts + fa.0 =~= self@.accounts);
            assert(self@ =~= (StoreModel {
                next_id: fa.1,
                accounts: old(self)@.accounts + fa.0,
                ..old(self)@
            }));
        }
        true
    }

    /// Restore the snapshot's banks, each with its accounts.  Fails only
    /// when the identifier counter runs out.
    fn restore_banks(&mut self, banks: &Vec<BankWithAccounts>) -> (ok: bool)
        requires
            old(self)@.wf(),
        ensures
            final(self)@.wf(),
            ({
                let fb = import_banks_spec(banks@, old(self)@.next_id);
                &&& (ok ==> fb.2 <= i64::MAX && final(self)@ == (StoreModel {
                    next_id: fb.2,
                    banks: old(self)@.banks + fb.0,
                    accounts: old(self)@.accounts + fb.1,
                    ..old(self)@
                }))
                &&& (!ok ==> fb.2 > i64::MAX && banks_restore_stopped(
                    old(self)@,
                    banks@,
                    final(self)@,
                ))
            }),
    {
        proof {
            lemma_store_view(*old(self));
            assert(banks@.skip(0) =~= banks@);
            assert(banks@.take(0) =~= Seq::<BankWithAccounts>::empty());
            assert(old(self)@.banks + import_banks_spec(banks@.take(0), old(self)@.next_id).0
                =~= old(self)@.banks);
            assert(old(self)@.accounts + import_banks_spec(banks@.take(0), old(self)@.next_id).1
                =~= old(self)@.accounts);
        }
        let n = banks.len();
        let mut i: usize = 0;
        while i < n
            invariant
                n == banks@.len(),
                0 <= i <= n,
                self@.wf(),
                (StoreModel {
                    next_id: old(self)@.next_id,
                    banks: old(self)@.banks,
                    accounts: old(self)@.accounts,
                    ..self@
                }) == old(self)@,
                self@.next_id == import_banks_spec(banks@.take(i as int), old(self)@.next_id).2,
                self@.banks == old(self)@.banks + import_banks_spec(
                    banks@.take(i as int),
                    old(self)@.next_id,
                ).0,
                self@.accounts == old(self)@.accounts + import_banks_spec(
                    banks@.take(i as int),
                    old(self)@.next_id,
                ).1,
                ({
                    let fb = import_banks_spec(banks@, old(self)@.next_id);
                    let rem = import_banks_spec(banks@.skip(i as int), self@.next_id);
                    &&& fb.2 == rem.2
                    &&& old(self)@.banks + fb.0 == self@.banks + rem.0
                    &&& old(self)@.accounts + fb.1 == self@.accounts + rem.1
                }),
            decreases n - i,
        {
            proof {
                assert(banks@.skip(i as int).drop_first() =~= banks@.skip(i as int + 1));
                assert(banks@.skip(i as int)[0] == banks@[i as int]);
            }
            if self.next_id == i64::MAX {
                proof {
                    lemma_store_view(*self);
                    lemma_import_banks_next(banks@.skip(i as int), self@.next_id);
                    let p = import_banks_spec(banks@.take(i as int), old(self)@.next_id);
                    assert(p.2 == i64::MAX);
                    assert(self@ =~= (StoreModel {
                        next_id: i64::MAX as int,
                        banks: old(self)@.banks + p.0,
                        accounts: old(self)@.accounts + p.1,
                        ..old(self)@
                    }));
                    assert(banks_restore_stopped(old(self)@, banks@, self@));
                }
                return false;
            }
            proof {
                lemma_store_view(*self);
            }
            let ghost pre = self@;
            let id = self.next_id;
            self.next_id = self.next_id + 1;
            let snap = &banks[i];
            let row = Bank {
                id,
                name: snap.bank.name.clone(),
                short_name: crate::types::clone_opt_string(&snap.bank.short_name),
                logo: crate::types::clone_opt_string(&snap.bank.logo),
                color: snap.bank.color.clone(),
                notes: crate::types::clone_opt_string(&snap.bank.notes),
                active: snap.bank.active,
            };
            proof {
                assert(row == restored_bank(banks@[i as int].bank, id));
            }
            self.banks.push(row);
            let ghost mid = StoreModel {
                next_id: pre.next_id + 1,
                banks: pre.banks.push(restored_bank(banks@[i as int].bank, id)),
                ..pre
            };
            proof {
                lemma_store_view(*self);
                assert(self@ =~= mid);
                assert(crate::store::bank_ids(
                    pre.banks.push(restored_bank(banks@[i as int].bank, id)),
                ) =~= crate::store::bank_ids(pre.banks).push(id));
                crate::store::lemma_ids_ok_push(crate::store::bank_ids(pre.banks), pre.next_id);
                assert(mid.wf());
            }
            let ok = self.restore_accounts(&snap.accounts, id);
            if !ok {
                proof {
                    let rem = import_banks_spec(banks@.skip(i as int), pre.next_id);
                    lemma_import_banks_next(
                        banks@.skip(i as int + 1),
                        import_accounts_spec(
                            banks@[i as int].accounts@,
                            id,
                            pre.next_id + 1,
                        ).1,
                    );
                    let p = import_banks_spec(banks@.take(i as int), old(self)@.next_id);
                    assert(p.2 < i64::MAX);
                    assert(id as int == p.2);
                    assert(self@ =~= (StoreModel {
                        next_id: i64::MAX as int,
                        banks: old(self)@.banks + p.0.push(
                            restored_bank(banks@[i as int].bank, p.2 as i64),
                        ),
                        accounts: old(self)@.accounts + p.1 + import_accounts_spec(
                            banks@[i as int].accounts@.take(i64::MAX - (p.2 + 1)),
                            p.2 as i64,
                            p.2 + 1,
                        ).0,
                        ..old(self)@
                    }));
                    assert(banks_restore_stopped(old(self)@, banks@, self@));
                }
                return false;
            }
            proof {
                let fa = import_accounts_spec(banks@[i as int].accounts@, id, mid.next_id);
                assert(pre.banks + import_banks_spec(banks@.skip(i as int), pre.next_id).0
                    =~= self@.banks + import_banks_spec(
                    banks@.skip(i as int + 1),
                    self@.next_id as int,
                ).0);
                assert(pre.accounts + import_banks_spec(banks@.skip(i as int), pre.next_id).1
                    =~= self@.accounts + import_banks_spec(
                    banks@.skip(i as int + 1),
                    self@.next_id as int,
                ).1);
                import_banks_snoc(banks@, old(self)@.next_id, i as int);
                let p = import_banks_spec(banks@.take(i as int), old(self)@.next_id);
                assert(id as int == p.2);
                assert(self@.banks =~= old(self)@.banks + import_banks_spec(
                    banks@.take(i as int + 1),
                    old(self)@.next_id,
                ).0);
                assert(self@.accounts =~= old(self)@.accounts + import_banks_spec(
                    banks@.take(i as int + 1),
                    old(self)@.next_id,
                ).1);
                assert(self@.next_id == import_banks_spec(
                    banks@.take(i as int + 1),
                    old(self)@.next_id,
                ).2);
            }
            i = i + 1;
        }
        proof {
            assert(banks@.skip(n as int) =~= Seq::<BankWithAccounts>::empty());
            let fb = import_banks_spec(banks@, old(self)@.next_id);
            assert(old(self)@.banks + fb.0 =~= self@.banks);
            assert(old(self)@.accounts + fb.1 =~= self@.accounts);
            assert(self@ =~= (StoreModel {
                next_id: fb.2,
                banks: old(self)@.banks + fb.0,
                accounts: old(self)@.accounts + fb.1,
                ..old(self)@
            }));
        }
        true
    }

    /// Restore one member's snapshot incomes under the new member
    /// identifier.  Fails only when the identifier counter runs out.
    fn restore_incomes(&mut self, incs: &Vec<MemberIncome>, member_id: i64) -> (ok: bool)
        requires
            old(self)@.wf(),
        ensures
            final(self)@.wf(),
            ({
                let fa = import_incomes_spec(incs@, member_id, old(self)@.next_id);
                &&& (ok ==> fa.1 <= i64::MAX && final(self)@ == (StoreModel {
                    next_id: fa.1,
                    incomes: old(self)@.incomes + fa.0,
                    ..old(self)@
                }))
                &&& (!ok ==> fa.1 > i64::MAX && final(self)@ == (StoreModel {
                    next_id: i64::MAX as int,
                    incomes: old(self)@.incomes + import_incomes_spec(
                        incs@.take(i64::MAX - old(self)@.next_id),
                        member_id, old(self)@.next_id,
                    ).0,
                    ..old(self)@
                }))
            }),
    {
        proof {
            lemma_store_view(*old(self));
            assert(incs@.skip(0) =~= incs@);
            assert(incs@.take(0) =~= Seq::<MemberIncome>::empty());
            assert(old(self)@.incomes + import_incomes_spec(incs@.take(0), member_id, old(self)@.next_id).0
                =~= old(self)@.incomes);
        }
        let n = incs.len();
        let mut i: usize = 0;
        while i < n
            invariant
                n == incs@.len(),
                0 <= i <= n,
                self@.wf(),
                (StoreModel {
                    next_id: old(self)@.next_id,
                    incomes: old(self)@.incomes,
                    ..self@
                }) == old(self)@,
                self@.next_id == old(self)@.next_id + i,
                self@.incomes == old(self)@.incomes + import_incomes_spec(
                    incs@.take(i as int),
                    member_id, old(self)@.next_id,
                ).0,
                ({
                    let fa = import_incomes_spec(incs@, member_id, old(self)@.next_id);
                    let rem = import_incomes_spec(incs@.skip(i as int), member_id, self@.next_id);
                    fa.1 == rem.1 && old(self)@.incomes + fa.0 == self@.incomes + rem.0
                }),
            decreases n - i,
        {
            proof {
                assert(incs@.skip(i as int).drop_first() =~= incs@.skip(i as int + 1));
                assert(incs@.skip(i as int)[0] == incs@[i as int]);
            }
            if self.next_id == i64::MAX {
                proof {
                    lemma_store_view(*self);
                    lemma_import_incomes_next(incs@.skip(i as int), member_id, self@.next_id);
                    assert(i as int == i64::MAX - old(self)@.next_id);
                    assert(self@ =~= (StoreModel {
                        next_id: i64::MAX as int,
                        incomes: old(self)@.incomes + import_incomes_spec(
                            incs@.take(i64::MAX - old(self)@.next_id),
                            member_id, old(self)@.next_id,
                        ).0,
                        ..old(self)@
                    }));
                }
                return false;
            }
            proof {
                lemma_store_view(*self);
            }
            let ghost pre = self@;
            let id = self.next_id;
            self.next_id = self.next_id + 1;
            let e = &incs[i];
            let row = MemberIncome {
                id: Some(id),
                member_id,
                name: e.name.clone(),
                amount: e.amount,
                frequency: e.frequency.clone(),
                day_of_month: e.day_of_month,
                account_id: e.account_id,
                is_active: e.is_active,
            };
            proof {
                assert(row == restored_income(incs@[i as int], member_id, id));
            }
            self.incomes.push(row);
            proof {
                lemma_store_view(*self);
                let r2 = restored_income(incs@[i as int], member_id, id);
                assert(self@ =~= (StoreModel {
                    next_id: pre.next_id + 1,
                    incomes: pre.incomes.push(r2),
                    ..pre
                }));
                assert(crate::store::income_ids(pre.incomes.push(r2))
                    =~= crate::store::income_ids(pre.incomes).push(id));
                crate::store::lemma_ids_ok_push(
                    crate::store::income_ids(pre.incomes),
                    pre.next_id,
                );
                assert forall|j2: int|
                    0 <= j2 < pre.incomes.push(r2).len() implies (#[trigger] pre.incomes.push(
                    r2,
                )[j2]).id is Some by {
                    if j2 < pre.incomes.len() {
                        assert(pre.incomes.push(r2)[j2] == pre.incomes[j2]);
                    } else {
                        assert(pre.incomes.push(r2)[j2] == r2);
                    }
                }
                assert(pre.incomes.push(r2) =~= pre.incomes + seq![r2]);
                import_incomes_snoc(incs@, member_id, old(self)@.next_id, i as int);
                assert((old(self)@.next_id + i) as i64 == id);
                assert(self@.incomes =~= old(self)@.incomes + import_incomes_spec(
                    incs@.take(i as int + 1),
                    member_id, old(self)@.next_id,
                ).0);
                assert(old(self)@.incomes + import_incomes_spec(
                    incs@,
                    member_id,
                    old(self)@.next_id,
                ).0 =~= self@.incomes + import_incomes_spec(
                    incs@.skip(i as int + 1),
                    member_id,
                    self@.next_id,
                ).0);
            }
            i = i + 1;
        }
        proof {
            assert(incs@.skip(n as int) =~= Seq::<MemberIncome>::empty());
            let fa = import_incomes_spec(incs@, member_id, old(self)@.next_id);
            assert(old(self)@.incomes + fa.0 =~= self@.incomes);
            assert(self@ =~= (StoreModel {
                next_id: fa.1,
                incomes: old(self)@.incomes + fa.0,
                ..old(self)@
            }));
        }
        true
    }

    /// Restore the snapshot's members, each with its incomes.  Fails only
    /// when the identifier counter runs out.
    fn restore_members(&mut self, members: &Vec<HouseholdMemberWithIncomes>) -> (ok: bool)
        requires
            old(self)@.wf(),
        ensures
            final(self)@.wf(),
            ({
                let fm = import_members_spec(members@, old(self)@.next_id);
                &&& (ok ==> fm.2 <= i64::MAX && final(self)@ == (StoreModel {
                    next_id: fm.2,
                    members: old(self)@.members + fm.0,
                    incomes: old(self)@.incomes + fm.1,
                    ..old(self)@
                }))
                &&& (!ok ==> fm.2 > i64::MAX && members_restore_stopped(
                    old(self)@,
                    members@,
                    final(self)@,
                ))
            }),
    {
        proof {
            lemma_store_view(*old(self));
            assert(members@.skip(0) =~= members@);
            assert(members@.take(0) =~= Seq::<HouseholdMemberWithIncomes>::empty());
            assert(old(self)@.members + import_members_spec(
                members@.take(0),
                old(self)@.next_id,
            ).0 =~= old(self)@.members);
            assert(old(self)@.incomes + import_members_spec(
                members@.take(0),
                old(self)@.next_id,
            ).1 =~= old(self)@.incomes);
        }
        let n = members.len();
        let mut i: usize = 0;
        while i < n
            invariant
                n == members@.len(),
                0 <= i <= n,
                self@.wf(),
                (StoreModel {
                    next_id: old(self)@.next_id,
                    members: old(self)@.members,
                    incomes: old(self)@.incomes,
                    ..self@
                }) == old(self)@,
                self@.next_id == import_members_spec(
                    members@.take(i as int),
                    old(self)@.next_id,
                ).2,
                self@.members == old(self)@.members + import_members_spec(
                    members@.take(i as int),
                    old(self)@.next_id,
                ).0,
                self@.incomes == old(self)@.incomes + import_members_spec(
                    members@.take(i as int),
                    old(self)@.next_id,
                ).1,
                ({
                    let fm = import_members_spec(members@, old(self)@.next_id);
                    let rem = import_members_spec(members@.skip(i as int), self@.next_id);
                    &&& fm.2 == rem.2
                    &&& old(self)@.members + fm.0 == self@.members + rem.0
                    &&& old(self)@.incomes + fm.1 == self@.incomes + rem.1
                }),
            decreases n - i,
        {
            proof {
                assert(members@.skip(i as int).drop_first() =~= members@.skip(i as int + 1));
                assert(members@.skip(i as int)[0] == members@[i as int]);
            }
            if self.next_id == i64::MAX {
                proof {
                    lemma_store_view(*self);
                    lemma_import_members_next(members@.skip(i as int), self@.next_id);
                    let p = import_members_spec(members@.take(i as int), old(self)@.next_id);
                    assert(p.2 == i64::MAX);
                    assert(self@ =~= (StoreModel {
                        next_id: i64::MAX as int,
                        members: old(self)@.members + p.0,
                        incomes: old(self)@.incomes + p.1,
                        ..old(self)@
                    }));
                    assert(members_restore_stopped(old(self)@, members@, self@));
                }
                return false;
            }
            proof {
                lemma_store_view(*self);
            }
            let ghost pre = self@;
            let id = self.next_id;
            self.next_id = self.next_id + 1;
            let snap = &members[i];
            let row = HouseholdMember {
                id: Some(id),
                name: snap.member.name.clone(),
                color: snap.member.color.clone(),
                avatar: crate::types::clone_opt_string(&snap.member.avatar),
            };
            proof {
                assert(row == restored_member(members@[i as int].member, id));
            }
            self.members.push(row);
            let ghost mid = StoreModel {
                next_id: pre.next_id + 1,
                members: pre.members.push(restored_member(members@[i as int].member, id)),
                ..pre
            };
            proof {
                lemma_store_view(*self);
                let r2 = restored_member(members@[i as int].member, id);
                assert(self@ =~= mid);
                assert(crate::store::member_ids(pre.members.push(r2))
                    =~= crate::store::member_ids(pre.members).push(id));
                crate::store::lemma_ids_ok_push(
                    crate::store::member_ids(pre.members),
                    pre.next_id,
                );
                assert forall|j2: int|
                    0 <= j2 < pre.members.push(r2).len() implies (#[trigger] pre.members.push(
                    r2,
                )[j2]).id is Some by {
                    if j2 < pre.members.len() {
                        assert(pre.members.push(r2)[j2] == pre.members[j2]);
                    } else {
                        assert(pre.members.push(r2)[j2] == r2);
                    }
                }
                assert(mid.wf());
            }
            let ok = self.restore_incomes(&snap.incomes, id);
            if !ok {
                proof {
                    lemma_import_members_next(
                        members@.skip(i as int + 1),
                        import_incomes_spec(
                            members@[i as int].incomes@,
                            id,
                            pre.next_id + 1,
                        ).1,
                    );
                    let p = import_members_spec(members@.take(i as int), old(self)@.next_id);
                    assert(p.2 < i64::MAX);
                    assert(id as int == p.2);
                    assert(self@ =~= (StoreModel {
                        next_id: i64::MAX as int,
                        members: old(self)@.members + p.0.push(
                            restored_member(members@[i as int].member, p.2 as i64),
                        ),
                        incomes: old(self)@.incomes + p.1 + import_incomes_spec(
                            members@[i as int].incomes@.take(i64::MAX - (p.2 + 1)),
                            p.2 as i64,
                            p.2 + 1,
                        ).0,
                        ..old(self)@
                    }));
                    assert(members_restore_stopped(old(self)@, members@, self@));
                }
                return false;
            }
            proof {
                assert(pre.members + import_members_spec(
                    members@.skip(i as int),
                    pre.next_id,
                ).0 =~= self@.members + import_members_spec(
                    members@.skip(i as int + 1),
                    self@.next_id,
                ).0);
                assert(pre.incomes + import_members_spec(
                    members@.skip(i as int),
                    pre.next_id,
                ).1 =~= self@.incomes + import_members_spec(
                    members@.skip(i as int + 1),
                    self@.next_id,
                ).1);
                import_members_snoc(members@, old(self)@.next_id, i as int);
                let p = import_members_spec(members@.take(i as int), old(self)@.next_id);
                assert(id as int == p.2);
                assert(self@.members =~= old(self)@.members + import_members_spec(
                    members@.take(i as int + 1),
                    old(self)@.next_id,
                ).0);
                assert(self@.incomes =~= old(self)@.incomes + import_members_spec(
                    members@.take(i as int + 1),
                    old(self)@.next_id,
                ).1);
                assert(self@.next_id == import_members_spec(
                    members@.take(i as int + 1),
                    old(self)@.next_id,
                ).2);
            }
            i = i + 1;
        }
        proof {
            assert(members@.skip(n as int) =~= Seq::<HouseholdMemberWithIncomes>::empty());
            let fm = import_members_spec(members@, old(self)@.next_id);
            assert(old(self)@.members + fm.0 =~= self@.members);
            assert(old(self)@.incomes + fm.1 =~= self@.incomes);
            assert(self@ =~= (StoreModel {
                next_id: fm.2,
                members: old(self)@.members + fm.0,
                incomes: old(self)@.incomes + fm.1,
                ..old(self)@
            }));
        }
        true
    }

    /// Restore the snapshot's scheduled transfers.  Fails only when the
    /// identifier counter runs out.
    fn restore_transfers(&mut self, ts: &Vec<ScheduledTransfer>) -> (ok: bool)
        requires
            old(self)@.wf(),
        ensures
            final(self)@.wf(),
            ({
                let ft = import_transfers_spec(ts@, old(self)@.next_id);
                &&& (ok ==> ft.1 <= i64::MAX && final(self)@ == (StoreModel {
                    next_id: ft.1,
                    scheduled_transfers: old(self)@.scheduled_transfers + ft.0,
                    ..old(self)@
                }))
                &&& (!ok ==> ft.1 > i64::MAX && final(self)@ == (StoreModel {
                    next_id: i64::MAX as int,
                    scheduled_transfers: old(self)@.scheduled_transfers + import_transfers_spec(
                        ts@.take(i64::MAX - old(self)@.next_id),
                        old(self)@.next_id,
                    ).0,
                    ..old(self)@
                }))
            }),
    {
        proof {
            lemma_store_view(*old(self));
            assert(ts@.skip(0) =~= ts@);
            assert(ts@.take(0) =~= Seq::<ScheduledTransfer>::empty());
            assert(old(self)@.scheduled_transfers + import_transfers_spec(ts@.take(0), old(self)@.next_id).0
                =~= old(self)@.scheduled_transfers);
        }
        let n = ts.len();
        let mut i: usize = 0;
        while i < n
            invariant
                n == ts@.len(),
                0 <= i <= n,
                self@.wf(),
                (StoreModel {
                    next_id: old(self)@.next_id,
                    scheduled_transfers: old(self)@.scheduled_transfers,
                    ..self@
                }) == old(self)@,
                self@.next_id == old(self)@.next_id + i,
                self@.scheduled_transfers == old(self)@.scheduled_transfers + import_transfers_spec(
                    ts@.take(i as int),
                    old(self)@.next_id,
                ).0,
                ({
                    let ft = import_transfers_spec(ts@, old(self)@.next_id);
                    let rem = import_transfers_spec(ts@.skip(i as int), self@.next_id);
                    ft.1 == rem.1 && old(self)@.scheduled_transfers + ft.0
                        == self@.scheduled_transfers + rem.0
                }),
            decreases n - i,
        {
            proof {
                assert(ts@.skip(i as int).drop_first() =~= ts@.skip(i as int + 1));
                assert(ts@.skip(i as int)[0] == ts@[i as int]);
            }
            if self.next_id == i64::MAX {
                proof {
                    lemma_store_view(*self);
                    lemma_import_transfers_next(ts@.skip(i as int), self@.next_id);
                    assert(i as int == i64::MAX - old(self)@.next_id);
                    assert(self@ =~= (StoreModel {
                        next_id: i64::MAX as int,
                        scheduled_transfers: old(self)@.scheduled_transfers + import_transfers_spec(
                            ts@.take(i64::MAX - old(self)@.next_id),
                            old(self)@.next_id,
                        ).0,
                        ..old(self)@
                    }));
                }
                return false;
            }
            proof {
                lemma_store_view(*self);
            }
            let ghost pre = self@;
            let id = self.next_id;
            self.next_id = self.next_id + 1;
            let e = &ts[i];
            let row = ScheduledTransfer {
                id: Some(id),
                name: e.name.clone(),
                from_account_id: e.from_account_id,
                to_account_id: e.to_account_id,
                amount: e.amount,
                day_of_month: e.day_of_month,
                description: crate::types::clone_opt_string(&e.description),
                category: crate::types::clone_opt_string(&e.category),
                display_order: e.display_order,
                is_active: e.is_active,
            };
            proof {
                assert(row == restored_transfer(ts@[i as int], id));
            }
            self.scheduled_transfers.push(row);
            proof {
                lemma_store_view(*self);
                let r2 = restored_transfer(ts@[i as int], id);
                assert(self@ =~= (StoreModel {
                    next_id: pre.next_id + 1,
                    scheduled_transfers: pre.scheduled_transfers.push(r2),
                    ..pre
                }));
                assert(crate::store::transfer_ids(pre.scheduled_transfers.push(r2))
                    =~= crate::store::transfer_ids(pre.scheduled_transfers).push(id));
                crate::store::lemma_ids_ok_push(
                    crate::store::transfer_ids(pre.scheduled_transfers),
                    pre.next_id,
                );
                assert forall|j2: int|
                    0 <= j2 < pre.scheduled_transfers.push(r2).len() implies (
                #[trigger] pre.scheduled_transfers.push(r2)[j2]).id is Some by {
                    if j2 < pre.scheduled_transfers.len() {
                        assert(pre.scheduled_transfers.push(r2)[j2]
                            == pre.scheduled_transfers[j2]);
                    } else {
                        assert(pre.scheduled_transfers.push(r2)[j2] == r2);
                    }
                }
                assert(pre.scheduled_transfers.push(r2) =~= pre.scheduled_transfers + seq![r2]);
                import_transfers_snoc(ts@, old(self)@.next_id, i as int);
                assert((old(self)@.next_id + i) as i64 == id);
                assert(self@.scheduled_transfers =~= old(self)@.scheduled_transfers + import_transfers_spec(
                    ts@.take(i as int + 1),
                    old(self)@.next_id,
                ).0);
                assert(old(self)@.scheduled_transfers + import_transfers_spec(
                    ts@,
                    old(self)@.next_id,
                ).0 =~= self@.scheduled_transfers + import_transfers_spec(
                    ts@.skip(i as int + 1),
                    self@.next_id,
                ).0);
            }
            i = i + 1;
        }
        proof {
            assert(ts@.skip(n as int) =~= Seq::<ScheduledTransfer>::empty());
            let ft = import_transfers_spec(ts@, old(self)@.next_id);
            assert(old(self)@.scheduled_transfers + ft.0 =~= self@.scheduled_transfers);
            assert(self@ =~= (StoreModel {
                next_id: ft.1,
                scheduled_transfers: old(self)@.scheduled_transfers + ft.0,
                ..old(self)@
            }));
        }
        true
    }

    /// Restore the snapshot's fixed expenses.  Fails only when the
    /// identifier counter runs out.
    fn restore_expenses(&mut self, ts: &Vec<FixedExpense>) -> (ok: bool)
        requires
            old(self)@.wf(),
        ensures
            final(self)@.wf(),
            ({
                let ft = import_expenses_spec(ts@, old(self)@.next_id);
                &&& (ok ==> ft.1 <= i64::MAX && final(self)@ == (StoreModel {
                    next_id: ft.1,
                    fixed_expenses: old(self)@.fixed_expenses + ft.0,
                    ..old(self)@
                }))
                &&& (!ok ==> ft.1 > i64::MAX && final(self)@ == (StoreModel {
                    next_id: i64::MAX as int,
                    fixed_expenses: old(self)@.fixed_expenses + import_expenses_spec(
                        ts@.take(i64::MAX - old(self)@.next_id),
                        old(self)@.next_id,
                    ).0,
                    ..old(self)@
                }))
            }),
    {
        proof {
            lemma_store_view(*old(self));
            assert(ts@.skip(0) =~= ts@);
            assert(ts@.take(0) =~= Seq::<FixedExpense>::empty());
            assert(old(self)@.fixed_expenses + import_expenses_spec(ts@.take(0), old(self)@.next_id).0
                =~= old(self)@.fixed_expenses);
        }
        let n = ts.len();
        let mut i: usize = 0;
        while i < n
            invariant
                n == ts@.len(),
                0 <= i <= n,
                self@.wf(),
                (StoreModel {
                    next_id: old(self)@.next_id,
                    fixed_expenses: old(self)@.fixed_expenses,
                    ..self@
                }) == old(self)@,
                self@.next_id == old(self)@.next_id + i,
                self@.fixed_expenses == old(self)@.fixed_expenses + import_expenses_spec(
                    ts@.take(i as int),
                    old(self)@.next_id,
                ).0,
                ({
                    let ft = import_expenses_spec(ts@, old(self)@.next_id);
                    let rem = import_expenses_spec(ts@.skip(i as int), self@.next_id);
                    ft.1 == rem.1 && old(self)@.fixed_expenses + ft.0 == self@.fixed_expenses
                        + rem.0
                }),
            decreases n - i,
        {
            proof {
                assert(ts@.skip(i as int).drop_first() =~= ts@.skip(i as int + 1));
                assert(ts@.skip(i as int)[0] == ts@[i as int]);
            }
            if self.next_id == i64::MAX {
                proof {
                    lemma_store_view(*self);
                    lemma_import_expenses_next(ts@.skip(i as int), self@.next_id);
                    assert(i as int == i64::MAX - old(self)@.next_id);
                    assert(self@ =~= (StoreModel {
                        next_id: i64::MAX as int,
                        fixed_expenses: old(self)@.fixed_expenses + import_expenses_spec(
                            ts@.take(i64::MAX - old(self)@.next_id),
                            old(self)@.next_id,
                        ).0,
                        ..old(self)@
                    }));
                }
                return false;
            }
            proof {
                lemma_store_view(*self);
            }
            let ghost pre = self@;
            let id = self.next_id;
            self.next_id = self.next_id + 1;
            let e = &ts[i];
            let row = FixedExpense {
                id: Some(id),
                name: e.name.clone(),
                amount: e.amount,
                category: e.category.clone(),
                frequency: e.frequency.clone(),
                day_of_month: e.day_of_month,
                account_id: e.account_id,
                assigned_to: crate::types::clone_opt_string(&e.assigned_to),
                is_active: e.is_active,
                notes: crate::types::clone_opt_string(&e.notes),
            };
            proof {
                assert(row == restored_expense(ts@[i as int], id));
            }
            self.fixed_expenses.push(row);
            proof {
                lemma_store_view(*self);
                let r2 = restored_expense(ts@[i as int], id);
                assert(self@ =~= (StoreModel {
                    next_id: pre.next_id + 1,
                    fixed_expenses: pre.fixed_expenses.push(r2),
                    ..pre
                }));
                assert(crate::store::expense_ids(pre.fixed_expenses.push(r2))
                    =~= crate::store::expense_ids(pre.fixed_expenses).push(id));
                crate::store::lemma_ids_ok_push(
                    crate::store::expense_ids(pre.fixed_expenses),
                    pre.next_id,
                );
                assert forall|j2: int|
                    0 <= j2 < pre.fixed_expenses.push(r2).len() implies (
                #[trigger] pre.fixed_expenses.push(r2)[j2]).id is Some by {
                    if j2 < pre.fixed_expenses.len() {
                        assert(pre.fixed_expenses.push(r2)[j2] == pre.fixed_expenses[j2]);
                    } else {
                        assert(pre.fixed_expenses.push(r2)[j2] == r2);
                    }
                }
                assert(pre.fixed_expenses.push(r2) =~= pre.fixed_expenses + seq![r2]);
                import_expenses_snoc(ts@, old(self)@.next_id, i as int);
                assert((old(self)@.next_id + i) as i64 == id);
                assert(self@.fixed_expenses =~= old(self)@.fixed_expenses + import_expenses_spec(
                    ts@.take(i as int + 1),
                    old(self)@.next_id,
                ).0);
                assert(old(self)@.fixed_expenses + import_expenses_spec(
                    ts@,
                    old(self)@.next_id,
                ).0 =~= self@.fixed_expenses + import_expenses_spec(
                    ts@.skip(i as int + 1),
                    self@.next_id,
                ).0);
            }
            i = i + 1;
        }
        proof {
            assert(ts@.skip(n as int) =~= Seq::<FixedExpense>::empty());
            let ft = import_expenses_spec(ts@, old(self)@.next_id);
            assert(old(self)@.fixed_expenses + ft.0 =~= self@.fixed_expenses);
            assert(self@ =~= (StoreModel {
                next_id: ft.1,
                fixed_expenses: old(self)@.fixed_expenses + ft.0,
                ..old(self)@
            }));
        }
        true
    }

    /// Restore the snapshot's budget categories.  Fails only when the
    /// identifier counter runs out.
    fn restore_budgets(&mut self, ts: &Vec<BudgetCategory>) -> (ok: bool)
        requires
            old(self)@.wf(),
        ensures
            final(self)@.wf(),
            ({
                let ft = import_budgets_spec(ts@, old(self)@.next_id);
                &&& (ok ==> ft.1 <= i64::MAX && final(self)@ == (StoreModel {
                    next_id: ft.1,
                    budget_categories: old(self)@.budget_categories + ft.0,
                    ..old(self)@
                }))
                &&& (!ok ==> ft.1 > i64::MAX && final(self)@ == (StoreModel {
                    next_id: i64::MAX as int,
                    budget_categories: old(self)@.budget_categories + import_budgets_spec(
                        ts@.take(i64::MAX - old(self)@.next_id),
                        old(self)@.next_id,
                    ).0,
                    ..old(self)@
                }))
            }),
    {
        proof {
            lemma_store_view(*old(self));
            assert(ts@.skip(0) =~= ts@);
            assert(ts@.take(0) =~= Seq::<BudgetCategory>::empty());
            assert(old(self)@.budget_categories + import_budgets_spec(ts@.take(0), old(self)@.next_id).0
                =~= old(self)@.budget_categories);
        }
        let n = ts.len();
        let mut i: usize = 0;
        while i < n
            invariant
                n == ts@.len(),
                0 <= i <= n,
                self@.wf(),
                (StoreModel {
                    next_id: old(self)@.next_id,
                    budget_categories: old(self)@.budget_categories,
                    ..self@
                }) == old(self)@,
                self@.next_id == old(self)@.next_id + i,
                self@.budget_categories == old(self)@.budget_categories + import_budgets_spec(
                    ts@.take(i as int),
                    old(self)@.next_id,
                ).0,
                ({
                    let ft = import_budgets_spec(ts@, old(self)@.next_id);
                    let rem = import_budgets_spec(ts@.skip(i as int), self@.next_id);
                    ft.1 == rem.1 && old(self)@.budget_categories + ft.0
                        == self@.budget_categories + rem.0
                }),
            decreases n - i,
        {
            proof {
                assert(ts@.skip(i as int).drop_first() =~= ts@.skip(i as int + 1));
                assert(ts@.skip(i as int)[0] == ts@[i as int]);
            }
            if self.next_id == i64::MAX {
                proof {
                    lemma_store_view(*self);
                    lemma_import_budgets_next(ts@.skip(i as int), self@.next_id);
                    assert(i as int == i64::MAX - old(self)@.next_id);
                    assert(self@ =~= (StoreModel {
                        next_id: i64::MAX as int,
                        budget_categories: old(self)@.budget_categories + import_budgets_spec(
                            ts@.take(i64::MAX - old(self)@.next_id),
                            old(self)@.next_id,
                        ).0,
                        ..old(self)@
                    }));
                }
                return false;
            }
            proof {
                lemma_store_view(*self);
            }
            let ghost pre = self@;
            let id = self.next_id;
            self.next_id = self.next_id + 1;
            let e = &ts[i];
            let row = BudgetCategory {
                id: Some(id),
                name: e.name.clone(),
                budget_type: e.budget_type.clone(),
                monthly_limit: e.monthly_limit,
                color: e.color.clone(),
                icon: crate::types::clone_opt_string(&e.icon),
                assigned_to: crate::types::clone_opt_string(&e.assigned_to),
            };
            proof {
                assert(row == restored_budget(ts@[i as int], id));
            }
            self.budget_categories.push(row);
            proof {
                lemma_store_view(*self);
                let r2 = restored_budget(ts@[i as int], id);
                assert(self@ =~= (StoreModel {
                    next_id: pre.next_id + 1,
                    budget_categories: pre.budget_categories.push(r2),
                    ..pre
                }));
                assert(crate::store::budget_ids(pre.budget_categories.push(r2))
                    =~= crate::store::budget_ids(pre.budget_categories).push(id));
                crate::store::lemma_ids_ok_push(
                    crate::store::budget_ids(pre.budget_categories),
                    pre.next_id,
                );
                assert forall|j2: int|
                    0 <= j2 < pre.budget_categories.push(r2).len() implies (
                #[trigger] pre.budget_categories.push(r2)[j2]).id is Some by {
                    if j2 < pre.budget_categories.len() {
                        assert(pre.budget_categories.push(r2)[j2] == pre.budget_categories[j2]);
                    } else {
                        assert(pre.budget_categories.push(r2)[j2] == r2);
                    }
                }
                assert(pre.budget_categories.push(r2) =~= pre.budget_categories + seq![r2]);
                import_budgets_snoc(ts@, old(self)@.next_id, i as int);
                assert((old(self)@.next_id + i) as i64 == id);
                assert(self@.budget_categories =~= old(self)@.budget_categories + import_budgets_spec(
                    ts@.take(i as int + 1),
                    old(self)@.next_id,
                ).0);
                assert(old(self)@.budget_categories + import_budgets_spec(
                    ts@,
                    old(self)@.next_id,
                ).0 =~= self@.budget_categories + import_budgets_spec(
                    ts@.skip(i as int + 1),
                    self@.next_id,
                ).0);
            }
            i = i + 1;
        }
        proof {
            assert(ts@.skip(n as int) =~= Seq::<BudgetCategory>::empty());
            let ft = import_budgets_spec(ts@, old(self)@.next_id);
            assert(old(self)@.budget_categories + ft.0 =~= self@.budget_categories);
            assert(self@ =~= (StoreModel {
                next_id: ft.1,
                budget_categories: old(self)@.budget_categories + ft.0,
                ..old(self)@
            }));
        }
        true
    }

    /// Restore the store from a snapshot: clear the affected tables
    /// child-before-parent, then rebuild them parents-first under fresh
    /// identifiers.  There is no rollback: a failure partway (only the
    /// identifier counter running out can cause one) leaves the prefix of
    /// the rebuild that had completed.
    pub fn import_full_backup(&mut self, backup: &FullBackup) -> (r: Result<(), AppError>)
        requires
            old(self)@.wf(),
        ensures
            final(self)@.wf(),
            r is Ok <==> import_end_next(old(self)@, backup.data) <= i64::MAX,
            r is Ok ==> final(self)@ == imported_model(old(self)@, backup.data),
            r is Err ==> rebuild_stopped(old(self)@, backup.data, final(self)@),
            r matches Err(e) ==> e is Internal,
    {
        proof {
            lemma_store_view(*old(self));
        }
        // clear the affected tables, children before parents
        self.incomes = Vec::new();
        self.members = Vec::new();
        self.scheduled_transfers = Vec::new();
        // bank-owned accounts go; accounts without a bank survive
        let na = self.accounts.len();
        let mut kept: Vec<crate::types::Account> = Vec::new();
        let mut ia: usize = 0;
        while ia < na
            invariant
                na == self.accounts.len(),
                0 <= ia <= na,
                self.accounts == old(self).accounts,
                accounts_view(kept@) == accounts_view(self.accounts@.take(ia as int)).filter(
                    |a: AccountV| a.bank_id is None,
                ),
            decreases na - ia,
        {
            let ghost pred = |a: AccountV| a.bank_id is None;
            let ghost prefix = accounts_view(self.accounts@.take(ia as int));
            let ghost prefix2 = accounts_view(self.accounts@.take(ia as int + 1));
            proof {
                assert(self.accounts@.take(ia as int + 1).drop_last() =~= self.accounts@.take(
                    ia as int,
                ));
                assert(prefix2.drop_last() =~= prefix);
                assert(prefix2.last() == self.accounts@[ia as int]@);
            }
            let keep = match self.accounts[ia].bank_id {
                Some(_) => false,
                None => true,
            };
            if keep {
                let row = self.accounts[ia].clone_row();
                let ghost kept_old = kept@;
                kept.push(row);
                proof {
                    assert(accounts_view(kept@) =~= accounts_view(kept_old).push(
                        self.accounts@[ia as int]@,
                    ));
                    reveal(Seq::filter);
                    assert(prefix2.filter(pred) == prefix.filter(pred).push(prefix2.last()));
                }
            } else {
                proof {
                    reveal(Seq::filter);
                    assert(prefix2.filter(pred) == prefix.filter(pred));
                }
            }
            ia = ia + 1;
        }
        self.accounts = kept;
        self.banks = Vec::new();
        self.fixed_expenses = Vec::new();
        self.budget_categories = Vec::new();
        let ghost m = store_model(*old(self));
        let ghost cleared = StoreModel {
            accounts: m.accounts.filter(|a: AccountV| a.bank_id is None),
            banks: Seq::<Bank>::empty(),
            members: Seq::<HouseholdMember>::empty(),
            incomes: Seq::<MemberIncome>::empty(),
            scheduled_transfers: Seq::<ScheduledTransfer>::empty(),
            fixed_expenses: Seq::<FixedExpense>::empty(),
            budget_categories: Seq::<BudgetCategory>::empty(),
            ..m
        };
        proof {
            lemma_store_view(*self);
            assert(old(self).accounts@.take(na as int) =~= old(self).accounts@);
            assert(self@ =~= cleared);
            crate::banks::lemma_filter_ids_ok(
                m.accounts,
                |a: AccountV| a.bank_id is None,
                m.next_id,
            );
            assert(crate::store::bank_ids(Seq::<Bank>::empty()) =~= Seq::<i64>::empty());
            assert(crate::store::member_ids(Seq::<HouseholdMember>::empty())
                =~= Seq::<i64>::empty());
            assert(crate::store::income_ids(Seq::<MemberIncome>::empty())
                =~= Seq::<i64>::empty());
            assert(crate::store::transfer_ids(Seq::<ScheduledTransfer>::empty())
                =~= Seq::<i64>::empty());
            assert(crate::store::expense_ids(Seq::<FixedExpense>::empty())
                =~= Seq::<i64>::empty());
            assert(crate::store::budget_ids(Seq::<BudgetCategory>::empty())
                =~= Seq::<i64>::empty());
            assert(cleared.wf());
        }
        // rebuild, parents before children
        let ghost ib = import_banks_spec(backup.data.banks@, cleared.next_id);
        let ghost im = import_members_spec(backup.data.household_members@, ib.2);
        let ghost it = import_transfers_spec(backup.data.scheduled_transfers@, im.2);
        let ghost ie = import_expenses_spec(backup.data.fixed_expenses@, it.1);
        let ghost iu = import_budgets_spec(backup.data.budget_categories@, ie.1);
        if !self.restore_banks(&backup.data.banks) {
            proof {
                lemma_import_members_next(backup.data.household_members@, ib.2);
                lemma_import_transfers_next(backup.data.scheduled_transfers@, im.2);
                lemma_import_expenses_next(backup.data.fixed_expenses@, it.1);
                lemma_import_budgets_next(backup.data.budget_categories@, ie.1);
                assert(banks_restore_stopped(cleared, backup.data.banks@, self@));
                assert(rebuild_stopped(m, backup.data, self@));
            }
            return Err(AppError::Internal("store identifiers exhausted".to_owned()));
        }
        let ghost b_done = StoreModel {
            next_id: ib.2,
            banks: ib.0,
            accounts: cleared.accounts + ib.1,
            ..cleared
        };
        proof {
            assert(self@ =~= b_done);
        }
        if !self.restore_members(&backup.data.household_members) {
            proof {
                lemma_import_transfers_next(backup.data.scheduled_transfers@, im.2);
                lemma_import_expenses_next(backup.data.fixed_expenses@, it.1);
                lemma_import_budgets_next(backup.data.budget_categories@, ie.1);
                assert(members_restore_stopped(b_done, backup.data.household_members@, self@));
                assert(rebuild_stopped(m, backup.data, self@));
            }
            return Err(AppError::Internal("store identifiers exhausted".to_owned()));
        }
        let ghost m_done = StoreModel { next_id: im.2, members: im.0, incomes: im.1, ..b_done };
        proof {
            assert(self@ =~= m_done);
        }
        if !self.restore_transfers(&backup.data.scheduled_transfers) {
            proof {
                lemma_import_expenses_next(backup.data.fixed_expenses@, it.1);
                lemma_import_budgets_next(backup.data.budget_categories@, ie.1);
                assert(self@ =~= (StoreModel {
                    next_id: i64::MAX as int,
                    scheduled_transfers: import_transfers_spec(
                        backup.data.scheduled_transfers@.take(i64::MAX - im.2),
                        im.2,
                    ).0,
                    ..m_done
                }));
                assert(rebuild_stopped(m, backup.data, self@));
            }
            return Err(AppError::Internal("store identifiers exhausted".to_owned()));
        }
        let ghost t_done = StoreModel { next_id: it.1, scheduled_transfers: it.0, ..m_done };
        proof {
            assert(self@ =~= t_done);
        }
        if !self.restore_expenses(&backup.data.fixed_expenses) {
            proof {
                lemma_import_budgets_next(backup.data.budget_categories@, ie.1);
                assert(self@ =~= (StoreModel {
                    next_id: i64::MAX as int,
                    fixed_expenses: import_expenses_spec(
                        backup.data.fixed_expenses@.take(i64::MAX - it.1),
                        it.1,
                    ).0,
                    ..t_done
                }));
                assert(rebuild_stopped(m, backup.data, self@));
            }
            return Err(AppError::Internal("store identifiers exhausted".to_owned()));
        }
        let ghost e_done = StoreModel { next_id: ie.1, fixed_expenses: ie.0, ..t_done };
        proof {
            assert(self@ =~= e_done);
        }
        if !self.restore_budgets(&backup.data.budget_categories) {
            proof {
                assert(self@ =~= (StoreModel {
                    next_id: i64::MAX as int,
                    budget_categories: import_budgets_spec(
                        backup.data.budget_categories@.take(i64::MAX - ie.1),
                        ie.1,
                    ).0,
                    ..e_done
                }));
                assert(rebuild_stopped(m, backup.data, self@));
            }
            return Err(AppError::Internal("store identifiers exhausted".to_owned()));
        }
        proof {
            assert(cleared.accounts + ib.1 =~= Seq::<AccountV>::empty() + (cleared.accounts
                + ib.1));
            assert(Seq::<Bank>::empty() + ib.0 =~= ib.0);
            assert(Seq::<HouseholdMember>::empty() + im.0 =~= im.0);
            assert(Seq::<MemberIncome>::empty() + im.1 =~= im.1);
            assert(Seq::<ScheduledTransfer>::empty() + it.0 =~= it.0);
            assert(Seq::<FixedExpense>::empty() + ie.0 =~= ie.0);
            assert(Seq::<BudgetCategory>::empty() + iu.0 =~= iu.0);
            assert(self@ =~= imported_model(m, backup.data));
        }
        Ok(())
    }

    /// Every scheduled transfer, copied in table order.
    fn copy_transfers(&self) -> (r: Vec<ScheduledTransfer>)
        ensures
            r@ == self@.scheduled_transfers,
    {
        proof {
            lemma_store_view(*self);
        }
        let n = self.scheduled_transfers.len();
        let mut out: Vec<ScheduledTransfer> = Vec::new();
        let mut i: usize = 0;
        while i < n
            invariant
                n == self.scheduled_transfers.len(),
                0 <= i <= n,
                out@ == self.scheduled_transfers@.take(i as int),
            decreases n - i,
        {
            out.push(self.scheduled_transfers[i].clone_row());
            proof {
                assert(self.scheduled_transfers@.take(i as int + 1)
                    =~= self.scheduled_transfers@.take(i as int).push(
                    self.scheduled_transfers@[i as int],
                ));
            }
            i = i + 1;
        }
        proof {
            assert(self.scheduled_transfers@.take(n as int) =~= self.scheduled_transfers@);
        }
        out
    }

    /// Every fixed expense, copied in table order.
    fn copy_expenses(&self) -> (r: Vec<FixedExpense>)
        ensures
            r@ == self@.fixed_expenses,
    {
        proof {
            lemma_store_view(*self);
        }
        let n = self.fixed_expenses.len();
        let mut out: Vec<FixedExpense> = Vec::new();
        let mut i: usize = 0;
        while i < n
            invariant
                n == self.fixed_expenses.len(),
                0 <= i <= n,
                out@ == self.fixed_expenses@.take(i as int),
            decreases n - i,
        {
            out.push(self.fixed_expenses[i].clone_row());
            proof {
                assert(self.fixed_expenses@.take(i as int + 1) =~= self.fixed_expenses@.take(
                    i as int,
                ).push(self.fixed_expenses@[i as int]));
            }
            i = i + 1;
        }
        proof {
            assert(self.fixed_expenses@.take(n as int) =~= self.fixed_expenses@);
        }
        out
    }

    /// Every budget category, copied in table order.
    fn copy_budgets(&self) -> (r: Vec<BudgetCategory>)
        ensures
            r@ == self@.budget_categories,
    {
        proof {
            lemma_store_view(*self);
        }
        let n = self.budget_categories.len();
        let mut out: Vec<BudgetCategory> = Vec::new();
        let mut i: usize = 0;
        while i < n
            invariant
                n == self.budget_categories.len(),
                0 <= i <= n,
                out@ == self.budget_categories@.take(i as int),
            decreases n - i,
        {
            out.push(self.budget_categories[i].clone_row());
            proof {
                assert(self.budget_categories@.take(i as int + 1)
                    =~= self.budget_categories@.take(i as int).push(
                    self.budget_categories@[i as int],
                ));
            }
            i = i + 1;
        }
        proof {
            assert(self.budget_categories@.take(n as int) =~= self.budget_categories@);
        }
        out
    }
}

// ---------------------------------------------------------------------------
// The round-trip law: restoring a snapshot reproduces its leaf records.
// ---------------------------------------------------------------------------

/// The two member rows carry the same leaf data (identifiers aside).
pub open spec fn member_leaf_eq(a: HouseholdMember, b: HouseholdMember) -> bool {
    &&& a.name == b.name
    &&& a.color == b.color
    &&& a.avatar == b.avatar
}

/// The two income rows carry the same leaf data (identifiers and member
/// references aside).
pub open spec fn income_leaf_eq(a: MemberIncome, b: MemberIncome) -> bool {
    &&& a.name == b.name
    &&& a.amount == b.amount
    &&& a.frequency == b.frequency
    &&& a.day_of_month == b.day_of_month
    &&& a.account_id == b.account_id
    &&& a.is_active == b.is_active
}

/// The two bank rows carry the same leaf data (identifiers aside).
pub open spec fn bank_leaf_eq(a: Bank, b: Bank) -> bool {
    &&& a.name == b.name
    &&& a.short_name == b.short_name
    &&& a.logo == b.logo
    &&& a.color == b.color
    &&& a.notes == b.notes
    &&& a.active == b.active
}

/// The two snapshot account rows carry the same leaf data (identifiers
/// and bank references aside).
pub open spec fn account_leaf_eq(a: AccountExtended, b: AccountExtended) -> bool {
    &&& a.name == b.name
    &&& a.account_type == b.account_type
    &&& a.owner_user_id == b.owner_user_id
    &&& a.account_number == b.account_number
    &&& a.currency == b.currency
    &&& a.initial_balance == b.initial_balance
    &&& a.current_balance == b.current_balance
    &&& a.color == b.color
    &&& a.icon == b.icon
    &&& a.is_premium == b.is_premium
    &&& a.premium_min_flow == b.premium_min_flow
    &&& a.active == b.active
}

/// The two transfer rows carry the same leaf data (identifiers aside).
pub open spec fn transfer_leaf_eq(a: ScheduledTransfer, b: ScheduledTransfer) -> bool {
    &&& a.name == b.name
    &&& a.from_account_id == b.from_account_id
    &&& a.to_account_id == b.to_account_id
    &&& a.amount == b.amount
    &&& a.day_of_month == b.day_of_month
    &&& a.description == b.description
    &&& a.category == b.category
    &&& a.display_order == b.display_order
    &&& a.is_active == b.is_active
}

/// The two expense rows carry the same leaf data (identifiers aside).
pub open spec fn expense_leaf_eq(a: FixedExpense, b: FixedExpense) -> bool {
    &&& a.name == b.name
    &&& a.account_id == b.account_id
    &&& a.amount == b.amount
    &&& a.category == b.category
    &&& a.frequency == b.frequency
    &&& a.day_of_month == b.day_of_month
    &&& a.assigned_to == b.assigned_to
    &&& a.is_active == b.is_active
    &&& a.notes == b.notes
}

/// The two budget rows carry the same leaf data (identifiers aside).
pub open spec fn budget_leaf_eq(a: BudgetCategory, b: BudgetCategory) -> bool {
    &&& a.name == b.name
    &&& a.budget_type == b.budget_type
    &&& a.monthly_limit == b.monthly_limit
    &&& a.color == b.color
    &&& a.icon == b.icon
    &&& a.assigned_to == b.assigned_to
}

/// The two snapshots hold the same set of leaf records — the same names,
/// amounts and relationships, member for member, bank for bank, child for
/// child — whatever their numeric identifiers.
pub open spec fn backup_leaves_eq(a: BackupData, b: BackupData) -> bool {
    &&& a.household_members@.len() == b.household_members@.len()
    &&& (forall|k: int|
        0 <= k < a.household_members@.len() ==> {
            &&& member_leaf_eq(
                (#[trigger] a.household_members@[k]).member,
                b.household_members@[k].member,
            )
            &&& a.household_members@[k].incomes@.len()
                == b.household_members@[k].incomes@.len()
            &&& (forall|j: int|
                0 <= j < a.household_members@[k].incomes@.len() ==> income_leaf_eq(
                    (#[trigger] a.household_members@[k].incomes@[j]),
                    b.household_members@[k].incomes@[j],
                ))
        })
    &&& a.banks@.len() == b.banks@.len()
    &&& (forall|k: int|
        0 <= k < a.banks@.len() ==> {
            &&& bank_leaf_eq((#[trigger] a.banks@[k]).bank, b.banks@[k].bank)
            &&& a.banks@[k].accounts@.len() == b.banks@[k].accounts@.len()
            &&& (forall|j: int|
                0 <= j < a.banks@[k].accounts@.len() ==> account_leaf_eq(
                    (#[trigger] a.banks@[k].accounts@[j]),
                    b.banks@[k].accounts@[j],
                ))
        })
    &&& a.scheduled_transfers@.len() == b.scheduled_transfers@.len()
    &&& (forall|k: int|
        0 <= k < a.scheduled_transfers@.len() ==> transfer_leaf_eq(
            (#[trigger] a.scheduled_transfers@[k]),
            b.scheduled_transfers@[k],
        ))
    &&& a.fixed_expenses@.len() == b.fixed_expenses@.len()
    &&& (forall|k: int|
        0 <= k < a.fixed_expenses@.len() ==> expense_leaf_eq(
            (#[trigger] a.fixed_expenses@[k]),
            b.fixed_expenses@[k],
        ))
    &&& a.budget_categories@.len() == b.budget_categories@.len()
    &&& (forall|k: int|
        0 <= k < a.budget_categories@.len() ==> budget_leaf_eq(
            (#[trigger] a.budget_categories@[k]),
            b.budget_categories@[k],
        ))
}

/// Each restored account row, by position.
proof fn lemma_import_accounts_rows(es: Seq<AccountExtended>, bank_id: i64, next: int)
    ensures
        import_accounts_spec(es, bank_id, next).0.len() == es.len(),
        forall|k: int|
            0 <= k < es.len() ==> #[trigger] import_accounts_spec(es, bank_id, next).0[k]
                == restored_account(es[k], bank_id, (next + k) as i64),
    decreases es.len(),
{
    if es.len() > 0 {
        lemma_import_accounts_rows(es.drop_first(), bank_id, next + 1);
        let r = import_accounts_spec(es, bank_id, next);
        let rest = import_accounts_spec(es.drop_first(), bank_id, next + 1);
        assert forall|k: int|
            0 <= k < es.len() implies #[trigger] r.0[k] == restored_account(
            es[k],
            bank_id,
            (next + k) as i64,
        ) by {
            if k > 0 {
                assert(r.0[k] == rest.0[k - 1]);
                assert(es.drop_first()[k - 1] == es[k]);
            }
        }
    }
}

/// Each restored income row, by position.
proof fn lemma_import_incomes_rows(es: Seq<MemberIncome>, member_id: i64, next: int)
    ensures
        import_incomes_spec(es, member_id, next).0.len() == es.len(),
        forall|k: int|
            0 <= k < es.len() ==> #[trigger] import_incomes_spec(es, member_id, next).0[k]
                == restored_income(es[k], member_id, (next + k) as i64),
    decreases es.len(),
{
    if es.len() > 0 {
        lemma_import_incomes_rows(es.drop_first(), member_id, next + 1);
        let r = import_incomes_spec(es, member_id, next);
        let rest = import_incomes_spec(es.drop_first(), member_id, next + 1);
        assert forall|k: int|
            0 <= k < es.len() implies #[trigger] r.0[k] == restored_income(
            es[k],
            member_id,
            (next + k) as i64,
        ) by {
            if k > 0 {
                assert(r.0[k] == rest.0[k - 1]);
                assert(es.drop_first()[k - 1] == es[k]);
            }
        }
    }
}

/// Each restored transfer row, by position.
proof fn lemma_import_transfers_rows(ts: Seq<ScheduledTransfer>, next: int)
    ensures
        import_transfers_spec(ts, next).0.len() == ts.len(),
        forall|k: int|
            0 <= k < ts.len() ==> #[trigger] import_transfers_spec(ts, next).0[k]
                == restored_transfer(ts[k], (next + k) as i64),
    decreases ts.len(),
{
    if ts.len() > 0 {
        lemma_import_transfers_rows(ts.drop_first(), next + 1);
        let r = import_transfers_spec(ts, next);
        let rest = import_transfers_spec(ts.drop_first(), next + 1);
        assert forall|k: int|
            0 <= k < ts.len() implies #[trigger] r.0[k] == restored_transfer(
            ts[k],
            (next + k) as i64,
        ) by {
            if k > 0 {
                assert(r.0[k] == rest.0[k - 1]);
                assert(ts.drop_first()[k - 1] == ts[k]);
            }
        }
    }
}

/// Each restored expense row, by position.
proof fn lemma_import_expenses_rows(ts: Seq<FixedExpense>, next: int)
    ensures
        import_expenses_spec(ts, next).0.len() == ts.len(),
        forall|k: int|
            0 <= k < ts.len() ==> #[trigger] import_expenses_spec(ts, next).0[k]
                == restored_expense(ts[k], (next + k) as i64),
    decreases ts.len(),
{
    if ts.len() > 0 {
        lemma_import_expenses_rows(ts.drop_first(), next + 1);
        let r = import_expenses_spec(ts, next);
        let rest = import_expenses_spec(ts.drop_first(), next + 1);
        assert forall|k: int|
            0 <= k < ts.len() implies #[trigger] r.0[k] == restored_expense(
            ts[k],
            (next + k) as i64,
        ) by {
            if k > 0 {
                assert(r.0[k] == rest.0[k - 1]);
                assert(ts.drop_first()[k - 1] == ts[k]);
            }
        }
    }
}

/// Each restored budget row, by position.
proof fn lemma_import_budgets_rows(ts: Seq<BudgetCategory>, next: int)
    ensures
        import_budgets_spec(ts, next).0.len() == ts.len(),
        forall|k: int|
            0 <= k < ts.len() ==> #[trigger] import_budgets_spec(ts, next).0[k]
                == restored_budget(ts[k], (next + k) as i64),
    decreases ts.len(),
{
    if ts.len() > 0 {
        lemma_import_budgets_rows(ts.drop_first(), next + 1);
        let r = import_budgets_spec(ts, next);
        let rest = import_budgets_spec(ts.drop_first(), next + 1);
        assert forall|k: int|
            0 <= k < ts.len() implies #[trigger] r.0[k] == restored_budget(
            ts[k],
            (next + k) as i64,
        ) by {
            if k > 0 {
                assert(r.0[k] == rest.0[k - 1]);
                assert(ts.drop_first()[k - 1] == ts[k]);
            }
        }
    }
}


/// Extending the restored prefix by one element appends its restored row.
proof fn import_accounts_snoc(es: Seq<AccountExtended>, bank_id: i64, next: int, i: int)
    requires
        0 <= i < es.len(),
    ensures
        import_accounts_spec(es.take(i + 1), bank_id, next).0 == import_accounts_spec(
            es.take(i),
            bank_id, next,
        ).0.push(restored_account(es[i], bank_id, (next + i) as i64)),
{
    lemma_import_accounts_rows(es.take(i + 1), bank_id, next);
    lemma_import_accounts_rows(es.take(i), bank_id, next);
    let a = import_accounts_spec(es.take(i + 1), bank_id, next).0;
    let b = import_accounts_spec(es.take(i), bank_id, next).0.push(restored_account(es[i], bank_id, (next + i) as i64));
    assert forall|k: int| 0 <= k < i + 1 implies a[k] == b[k] by {
        if k < i {
            assert(es.take(i + 1)[k] == es[k]);
            assert(es.take(i)[k] == es[k]);
        } else {
            assert(es.take(i + 1)[k] == es[i]);
        }
    }
    assert(a =~= b);
}

/// Extending the restored prefix by one element appends its restored row.
proof fn import_incomes_snoc(es: Seq<MemberIncome>, member_id: i64, next: int, i: int)
    requires
        0 <= i < es.len(),
    ensures
        import_incomes_spec(es.take(i + 1), member_id, next).0 == import_incomes_spec(
            es.take(i),
            member_id, next,
        ).0.push(restored_income(es[i], member_id, (next + i) as i64)),
{
    lemma_import_incomes_rows(es.take(i + 1), member_id, next);
    lemma_import_incomes_rows(es.take(i), member_id, next);
    let a = import_incomes_spec(es.take(i + 1), member_id, next).0;
    let b = import_incomes_spec(es.take(i), member_id, next).0.push(restored_income(es[i], member_id, (next + i) as i64));
    assert forall|k: int| 0 <= k < i + 1 implies a[k] == b[k] by {
        if k < i {
            assert(es.take(i + 1)[k] == es[k]);
            assert(es.take(i)[k] == es[k]);
        } else {
            assert(es.take(i + 1)[k] == es[i]);
        }
    }
    assert(a =~= b);
}

/// Extending the restored prefix by one element appends its restored row.
proof fn import_transfers_snoc(es: Seq<ScheduledTransfer>, next: int, i: int)
    requires
        0 <= i < es.len(),
    ensures
        import_transfers_spec(es.take(i + 1), next).0 == import_transfers_spec(
            es.take(i),
            next,
        ).0.push(restored_transfer(es[i], (next + i) as i64)),
{
    lemma_import_transfers_rows(es.take(i + 1), next);
    lemma_import_transfers_rows(es.take(i), next);
    let a = import_transfers_spec(es.take(i + 1), next).0;
    let b = import_transfers_spec(es.take(i), next).0.push(restored_transfer(es[i], (next + i) as i64));
    assert forall|k: int| 0 <= k < i + 1 implies a[k] == b[k] by {
        if k < i {
            assert(es.take(i + 1)[k] == es[k]);
            assert(es.take(i)[k] == es[k]);
        } else {
            assert(es.take(i + 1)[k] == es[i]);
        }
    }
    assert(a =~= b);
}

/// Extending the restored prefix by one element appends its restored row.
proof fn import_expenses_snoc(es: Seq<FixedExpense>, next: int, i: int)
    requires
        0 <= i < es.len(),
    ensures
        import_expenses_spec(es.take(i + 1), next).0 == import_expenses_spec(
            es.take(i),
            next,
        ).0.push(restored_expense(es[i], (next + i) as i64)),
{
    lemma_import_expenses_rows(es.take(i + 1), next);
    lemma_import_expenses_rows(es.take(i), next);
    let a = import_expenses_spec(es.take(i + 1), next).0;
    let b = import_expenses_spec(es.take(i), next).0.push(restored_expense(es[i], (next + i) as i64));
    assert forall|k: int| 0 <= k < i + 1 implies a[k] == b[k] by {
        if k < i {
            assert(es.take(i + 1)[k] == es[k]);
            assert(es.take(i)[k] == es[k]);
        } else {
            assert(es.take(i + 1)[k] == es[i]);
        }
    }
    assert(a =~= b);
}

/// Extending the restored prefix by one element appends its restored row.
proof fn import_budgets_snoc(es: Seq<BudgetCategory>, next: int, i: int)
    requires
        0 <= i < es.len(),
    ensures
        import_budgets_spec(es.take(i + 1), next).0 == import_budgets_spec(
            es.take(i),
            next,
        ).0.push(restored_budget(es[i], (next + i) as i64)),
{
    lemma_import_budgets_rows(es.take(i + 1), next);
    lemma_import_budgets_rows(es.take(i), next);
    let a = import_budgets_spec(es.take(i + 1), next).0;
    let b = import_budgets_spec(es.take(i), next).0.push(restored_budget(es[i], (next + i) as i64));
    assert forall|k: int| 0 <= k < i + 1 implies a[k] == b[k] by {
        if k < i {
            assert(es.take(i + 1)[k] == es[k]);
            assert(es.take(i)[k] == es[k]);
        } else {
            assert(es.take(i + 1)[k] == es[i]);
        }
    }
    assert(a =~= b);
}

/// Filtering by a bank keeps a list of rows that all reference it.
proof fn lemma_filter_accounts_all(xs: Seq<AccountV>, bid: i64)
    requires
        forall|j: int| 0 <= j < xs.len() ==> (#[trigger] xs[j]).bank_id == Some(bid),
    ensures
        xs.filter(|a: AccountV| a.bank_id == Some(bid)) == xs,
    decreases xs.len(),
{
    reveal(Seq::filter);
    if xs.len() > 0 {
        assert forall|j: int|
            0 <= j < xs.drop_last().len() implies (#[trigger] xs.drop_last()[j]).bank_id == Some(
            bid,
        ) by {
            assert(xs.drop_last()[j] == xs[j]);
        }
        lemma_filter_accounts_all(xs.drop_last(), bid);
        assert(xs.filter(|a: AccountV| a.bank_id == Some(bid)) =~= xs);
    } else {
        assert(xs.filter(|a: AccountV| a.bank_id == Some(bid)) =~= xs);
    }
}

/// Filtering by a bank drops a list of rows none of which reference it.
proof fn lemma_filter_accounts_none(xs: Seq<AccountV>, bid: i64)
    requires
        forall|j: int| 0 <= j < xs.len() ==> (#[trigger] xs[j]).bank_id != Some(bid),
    ensures
        xs.filter(|a: AccountV| a.bank_id == Some(bid)) == Seq::<AccountV>::empty(),
    decreases xs.len(),
{
    reveal(Seq::filter);
    if xs.len() > 0 {
        assert forall|j: int|
            0 <= j < xs.drop_last().len() implies (#[trigger] xs.drop_last()[j]).bank_id != Some(
            bid,
        ) by {
            assert(xs.drop_last()[j] == xs[j]);
        }
        lemma_filter_accounts_none(xs.drop_last(), bid);
    }
}

/// Filtering by a member keeps a list of incomes that all reference it.
proof fn lemma_filter_incomes_all(xs: Seq<MemberIncome>, pid: i64)
    requires
        forall|j: int| 0 <= j < xs.len() ==> (#[trigger] xs[j]).member_id == pid,
    ensures
        xs.filter(|inc: MemberIncome| inc.member_id == pid) == xs,
    decreases xs.len(),
{
    reveal(Seq::filter);
    if xs.len() > 0 {
        assert forall|j: int|
            0 <= j < xs.drop_last().len() implies (#[trigger] xs.drop_last()[j]).member_id
            == pid by {
            assert(xs.drop_last()[j] == xs[j]);
        }
        lemma_filter_incomes_all(xs.drop_last(), pid);
        assert(xs.filter(|inc: MemberIncome| inc.member_id == pid) =~= xs);
    } else {
        assert(xs.filter(|inc: MemberIncome| inc.member_id == pid) =~= xs);
    }
}

/// Filtering by a member drops a list of incomes none of which reference
/// it.
proof fn lemma_filter_incomes_none(xs: Seq<MemberIncome>, pid: i64)
    requires
        forall|j: int| 0 <= j < xs.len() ==> (#[trigger] xs[j]).member_id != pid,
    ensures
        xs.filter(|inc: MemberIncome| inc.member_id == pid) == Seq::<MemberIncome>::empty(),
    decreases xs.len(),
{
    reveal(Seq::filter);
    if xs.len() > 0 {
        assert forall|j: int|
            0 <= j < xs.drop_last().len() implies (#[trigger] xs.drop_last()[j]).member_id
            != pid by {
            assert(xs.drop_last()[j] == xs[j]);
        }
        lemma_filter_incomes_none(xs.drop_last(), pid);
    }
}

/// A list of restored account rows mirrors its snapshot list.
pub open spec fn accounts_restored_ok(
    xs: Seq<AccountV>,
    ys: Seq<AccountExtended>,
    bid: i64,
) -> bool {
    &&& xs.len() == ys.len()
    &&& forall|j: int|
        0 <= j < xs.len() ==> (#[trigger] xs[j]) == restored_account(ys[j], bid, xs[j].id)
}

/// The restored banks, their identifiers and their account blocks, by
/// position: each bank keeps its snapshot's leaf fields under a fresh
/// identifier, the identifiers are distinct, and filtering the restored
/// accounts by a restored bank's identifier yields exactly that bank's
/// snapshot accounts, in order.
proof fn lemma_import_banks_rows(bs: Seq<BankWithAccounts>, next: int)
    requires
        0 <= next,
        import_banks_spec(bs, next).2 <= i64::MAX,
    ensures
        ({
            let r = import_banks_spec(bs, next);
            &&& r.0.len() == bs.len()
            &&& (forall|k: int|
                0 <= k < bs.len() ==> (#[trigger] r.0[k]) == restored_bank(
                    bs[k].bank,
                    r.0[k].id,
                ) && next <= r.0[k].id < r.2)
            &&& (forall|k: int, k2: int|
                0 <= k < k2 < bs.len() ==> r.0[k].id < r.0[k2].id)
            &&& (forall|j: int|
                0 <= j < r.1.len() ==> ((#[trigger] r.1[j]).bank_id matches Some(b) && next <= b
                    < r.2))
            &&& (forall|k: int|
                0 <= k < bs.len() ==> accounts_restored_ok(
                    r.1.filter(|a: AccountV| a.bank_id == Some((#[trigger] r.0[k]).id)),
                    bs[k].accounts@,
                    r.0[k].id,
                ))
        }),
    decreases bs.len(),
{
    let r = import_banks_spec(bs, next);
    if bs.len() > 0 {
        let b0 = restored_bank(bs[0].bank, next as i64);
        let accs = import_accounts_spec(bs[0].accounts@, b0.id, next + 1);
        let rest = import_banks_spec(bs.drop_first(), accs.1);
        lemma_import_accounts_next(bs[0].accounts@, b0.id, next + 1);
        lemma_import_accounts_rows(bs[0].accounts@, b0.id, next + 1);
        lemma_import_banks_next(bs.drop_first(), accs.1);
        lemma_import_banks_rows(bs.drop_first(), accs.1);
        assert(r.0 == seq![b0] + rest.0);
        assert(r.1 == accs.0 + rest.1);
        assert(r.2 == rest.2);
        assert forall|k: int|
            0 <= k < bs.len() implies (#[trigger] r.0[k]) == restored_bank(bs[k].bank, r.0[k].id)
            && next <= r.0[k].id < r.2 by {
            if k == 0 {
                assert(r.0[0] == b0);
            } else {
                assert(r.0[k] == rest.0[k - 1]);
                assert(bs.drop_first()[k - 1] == bs[k]);
            }
        }
        assert forall|k: int, k2: int| 0 <= k < k2 < bs.len() implies r.0[k].id < r.0[k2].id by {
            if k == 0 {
                assert(r.0[k2] == rest.0[k2 - 1]);
                assert(rest.0[k2 - 1].id >= accs.1);
            } else {
                assert(r.0[k] == rest.0[k - 1]);
                assert(r.0[k2] == rest.0[k2 - 1]);
            }
        }
        assert forall|j: int|
            0 <= j < r.1.len() implies ((#[trigger] r.1[j]).bank_id matches Some(b) && next <= b
            < r.2) by {
            if j < accs.0.len() {
                assert(r.1[j] == accs.0[j]);
                assert(accs.0[j] == restored_account(
                    bs[0].accounts@[j],
                    b0.id,
                    (next + 1 + j) as i64,
                ));
            } else {
                assert(r.1[j] == rest.1[j - accs.0.len()]);
            }
        }
        assert forall|k: int|
            0 <= k < bs.len() implies accounts_restored_ok(
            r.1.filter(|a: AccountV| a.bank_id == Some((#[trigger] r.0[k]).id)),
            bs[k].accounts@,
            r.0[k].id,
        ) by {
            let bid = r.0[k].id;
            Seq::filter_distributes_over_add(
                accs.0,
                rest.1,
                |a: AccountV| a.bank_id == Some(bid),
            );
            if k == 0 {
                assert(bid == b0.id);
                assert forall|j: int|
                    0 <= j < accs.0.len() implies (#[trigger] accs.0[j]).bank_id == Some(bid) by {
                    assert(accs.0[j] == restored_account(
                        bs[0].accounts@[j],
                        b0.id,
                        (next + 1 + j) as i64,
                    ));
                }
                lemma_filter_accounts_all(accs.0, bid);
                assert forall|j: int|
                    0 <= j < rest.1.len() implies (#[trigger] rest.1[j]).bank_id != Some(bid) by {
                    assert(rest.1[j].bank_id matches Some(b) && accs.1 <= b < rest.2);
                }
                lemma_filter_accounts_none(rest.1, bid);
                assert(r.1.filter(|a: AccountV| a.bank_id == Some(bid)) =~= accs.0);
                assert forall|j: int|
                    0 <= j < accs.0.len() implies (#[trigger] accs.0[j]) == restored_account(
                    bs[0].accounts@[j],
                    bid,
                    accs.0[j].id,
                ) by {
                    assert(accs.0[j] == restored_account(
                        bs[0].accounts@[j],
                        b0.id,
                        (next + 1 + j) as i64,
                    ));
                }
            } else {
                assert(r.0[k] == rest.0[k - 1]);
                assert(bs.drop_first()[k - 1] == bs[k]);
                assert(rest.0[k - 1].id >= accs.1);
                assert forall|j: int|
                    0 <= j < accs.0.len() implies (#[trigger] accs.0[j]).bank_id != Some(bid) by {
                    assert(accs.0[j] == restored_account(
                        bs[0].accounts@[j],
                        b0.id,
                        (next + 1 + j) as i64,
                    ));
                }
                lemma_filter_accounts_none(accs.0, bid);
                assert(accounts_restored_ok(
                    rest.1.filter(|a: AccountV| a.bank_id == Some(bid)),
                    bs[k].accounts@,
                    bid,
                ));
                assert(r.1.filter(|a: AccountV| a.bank_id == Some(bid)) =~= rest.1.filter(
                    |a: AccountV| a.bank_id == Some(bid),
                ));
            }
        }
    }
}

/// A list of restored income rows mirrors its snapshot list.
pub open spec fn incomes_restored_ok(
    xs: Seq<MemberIncome>,
    ys: Seq<MemberIncome>,
    pid: i64,
) -> bool {
    &&& xs.len() == ys.len()
    &&& forall|j: int|
        0 <= j < xs.len() ==> (#[trigger] xs[j]) == restored_income(ys[j], pid, xs[j].id.unwrap())
            && xs[j].id is Some
}

/// The restored members, their identifiers and their income blocks, by
/// position — the member analogue of the bank lemma.
proof fn lemma_import_members_rows(ms: Seq<HouseholdMemberWithIncomes>, next: int)
    requires
        0 <= next,
        import_members_spec(ms, next).2 <= i64::MAX,
    ensures
        ({
            let r = import_members_spec(ms, next);
            &&& r.0.len() == ms.len()
            &&& (forall|k: int|
                0 <= k < ms.len() ==> (#[trigger] r.0[k]) == restored_member(
                    ms[k].member,
                    r.0[k].id.unwrap(),
                ) && r.0[k].id is Some && next <= r.0[k].id.unwrap() < r.2)
            &&& (forall|k: int, k2: int|
                0 <= k < k2 < ms.len() ==> r.0[k].id.unwrap() < r.0[k2].id.unwrap())
            &&& (forall|j: int|
                0 <= j < r.1.len() ==> next <= (#[trigger] r.1[j]).member_id < r.2)
            &&& (forall|k: int|
                0 <= k < ms.len() ==> incomes_restored_ok(
                    r.1.filter(
                        |inc: MemberIncome| inc.member_id == (#[trigger] r.0[k]).id.unwrap(),
                    ),
                    ms[k].incomes@,
                    r.0[k].id.unwrap(),
                ))
        }),
    decreases ms.len(),
{
    let r = import_members_spec(ms, next);
    if ms.len() > 0 {
        let m0 = restored_member(ms[0].member, next as i64);
        let incs = import_incomes_spec(ms[0].incomes@, m0.id.unwrap(), next + 1);
        let rest = import_members_spec(ms.drop_first(), incs.1);
        lemma_import_incomes_next(ms[0].incomes@, m0.id.unwrap(), next + 1);
        lemma_import_incomes_rows(ms[0].incomes@, m0.id.unwrap(), next + 1);
        lemma_import_members_next(ms.drop_first(), incs.1);
        lemma_import_members_rows(ms.drop_first(), incs.1);
        assert(r.0 == seq![m0] + rest.0);
        assert(r.1 == incs.0 + rest.1);
        assert(r.2 == rest.2);
        assert forall|k: int|
            0 <= k < ms.len() implies (#[trigger] r.0[k]) == restored_member(
            ms[k].member,
            r.0[k].id.unwrap(),
        ) && r.0[k].id is Some && next <= r.0[k].id.unwrap() < r.2 by {
            if k == 0 {
                assert(r.0[0] == m0);
            } else {
                assert(r.0[k] == rest.0[k - 1]);
                assert(ms.drop_first()[k - 1] == ms[k]);
            }
        }
        assert forall|k: int, k2: int|
            0 <= k < k2 < ms.len() implies r.0[k].id.unwrap() < r.0[k2].id.unwrap() by {
            if k == 0 {
                assert(r.0[k2] == rest.0[k2 - 1]);
                assert(rest.0[k2 - 1].id.unwrap() >= incs.1);
            } else {
                assert(r.0[k] == rest.0[k - 1]);
                assert(r.0[k2] == rest.0[k2 - 1]);
            }
        }
        assert forall|j: int|
            0 <= j < r.1.len() implies next <= (#[trigger] r.1[j]).member_id < r.2 by {
            if j < incs.0.len() {
                assert(r.1[j] == incs.0[j]);
                assert(incs.0[j] == restored_income(
                    ms[0].incomes@[j],
                    m0.id.unwrap(),
                    (next + 1 + j) as i64,
                ));
            } else {
                assert(r.1[j] == rest.1[j - incs.0.len()]);
            }
        }
        assert forall|k: int|
            0 <= k < ms.len() implies incomes_restored_ok(
            r.1.filter(|inc: MemberIncome| inc.member_id == (#[trigger] r.0[k]).id.unwrap()),
            ms[k].incomes@,
            r.0[k].id.unwrap(),
        ) by {
            let pid = r.0[k].id.unwrap();
            Seq::filter_distributes_over_add(
                incs.0,
                rest.1,
                |inc: MemberIncome| inc.member_id == pid,
            );
            if k == 0 {
                assert(pid == m0.id.unwrap());
                assert forall|j: int|
                    0 <= j < incs.0.len() implies (#[trigger] incs.0[j]).member_id == pid by {
                    assert(incs.0[j] == restored_income(
                        ms[0].incomes@[j],
                        m0.id.unwrap(),
                        (next + 1 + j) as i64,
                    ));
                }
                lemma_filter_incomes_all(incs.0, pid);
                assert forall|j: int|
                    0 <= j < rest.1.len() implies (#[trigger] rest.1[j]).member_id != pid by {
                    assert(incs.1 <= rest.1[j].member_id < rest.2);
                }
                lemma_filter_incomes_none(rest.1, pid);
                assert(r.1.filter(|inc: MemberIncome| inc.member_id == pid) =~= incs.0);
                assert forall|j: int|
                    0 <= j < incs.0.len() implies (#[trigger] incs.0[j]) == restored_income(
                    ms[0].incomes@[j],
                    pid,
                    incs.0[j].id.unwrap(),
                ) && incs.0[j].id is Some by {
                    assert(incs.0[j] == restored_income(
                        ms[0].incomes@[j],
                        m0.id.unwrap(),
                        (next + 1 + j) as i64,
                    ));
                }
            } else {
                assert(r.0[k] == rest.0[k - 1]);
                assert(ms.drop_first()[k - 1] == ms[k]);
                assert(rest.0[k - 1].id.unwrap() >= incs.1);
                assert forall|j: int|
                    0 <= j < incs.0.len() implies (#[trigger] incs.0[j]).member_id != pid by {
                    assert(incs.0[j] == restored_income(
                        ms[0].incomes@[j],
                        m0.id.unwrap(),
                        (next + 1 + j) as i64,
                    ));
                }
                lemma_filter_incomes_none(incs.0, pid);
                assert(incomes_restored_ok(
                    rest.1.filter(|inc: MemberIncome| inc.member_id == pid),
                    ms[k].incomes@,
                    pid,
                ));
                assert(r.1.filter(|inc: MemberIncome| inc.member_id == pid) =~= rest.1.filter(
                    |inc: MemberIncome| inc.member_id == pid,
                ));
            }
        }
    }
}

/// The round-trip law of the backup engine: restoring a snapshot into a
/// store and exporting the result reproduces the snapshot's leaf records
/// — the same names, amounts and relationships, parent by parent and
/// child by child — even though every numeric identifier differs.
pub proof fn lemma_restore_preserves_leaves(m: StoreModel, d: BackupData, d2: BackupData)
    requires
        m.wf(),
        import_end_next(m, d) <= i64::MAX,
        backup_data_ok(imported_model(m, d), d2),
    ensures
        backup_leaves_eq(d2, d),
{
    let m2 = imported_model(m, d);
    let kept = m.accounts.filter(|a: AccountV| a.bank_id is None);
    let ib = import_banks_spec(d.banks@, m.next_id);
    let im = import_members_spec(d.household_members@, ib.2);
    let it = import_transfers_spec(d.scheduled_transfers@, im.2);
    let ie = import_expenses_spec(d.fixed_expenses@, it.1);
    let iu = import_budgets_spec(d.budget_categories@, ie.1);
    lemma_import_banks_next(d.banks@, m.next_id);
    lemma_import_members_next(d.household_members@, ib.2);
    lemma_import_transfers_next(d.scheduled_transfers@, im.2);
    lemma_import_expenses_next(d.fixed_expenses@, it.1);
    lemma_import_budgets_next(d.budget_categories@, ie.1);
    lemma_import_banks_rows(d.banks@, m.next_id);
    lemma_import_members_rows(d.household_members@, ib.2);
    lemma_import_transfers_rows(d.scheduled_transfers@, im.2);
    lemma_import_expenses_rows(d.fixed_expenses@, it.1);
    lemma_import_budgets_rows(d.budget_categories@, ie.1);
    // flat collections
    assert forall|k: int|
        0 <= k < d2.scheduled_transfers@.len() implies transfer_leaf_eq(
        (#[trigger] d2.scheduled_transfers@[k]),
        d.scheduled_transfers@[k],
    ) by {
        assert(d2.scheduled_transfers@[k] == it.0[k]);
        assert(it.0[k] == restored_transfer(d.scheduled_transfers@[k], (im.2 + k) as i64));
    }
    assert forall|k: int|
        0 <= k < d2.fixed_expenses@.len() implies expense_leaf_eq(
        (#[trigger] d2.fixed_expenses@[k]),
        d.fixed_expenses@[k],
    ) by {
        assert(d2.fixed_expenses@[k] == ie.0[k]);
        assert(ie.0[k] == restored_expense(d.fixed_expenses@[k], (it.1 + k) as i64));
    }
    assert forall|k: int|
        0 <= k < d2.budget_categories@.len() implies budget_leaf_eq(
        (#[trigger] d2.budget_categories@[k]),
        d.budget_categories@[k],
    ) by {
        assert(d2.budget_categories@[k] == iu.0[k]);
        assert(iu.0[k] == restored_budget(d.budget_categories@[k], (ie.1 + k) as i64));
    }
    // members with their incomes
    assert(d2.household_members@.len() == d.household_members@.len());
    assert forall|k: int| 0 <= k < d2.household_members@.len() implies {
        &&& member_leaf_eq(
            (#[trigger] d2.household_members@[k]).member,
            d.household_members@[k].member,
        )
        &&& d2.household_members@[k].incomes@.len()
            == d.household_members@[k].incomes@.len()
        &&& (forall|j: int|
            0 <= j < d2.household_members@[k].incomes@.len() ==> income_leaf_eq(
                (#[trigger] d2.household_members@[k].incomes@[j]),
                d.household_members@[k].incomes@[j],
            ))
    } by {
        assert(d2.household_members@[k].member == m2.members[k]);
        assert(m2.members[k] == restored_member(
            d.household_members@[k].member,
            im.0[k].id.unwrap(),
        ));
        let pid = im.0[k].id.unwrap();
        assert(d2.household_members@[k].incomes@ == m2.incomes.filter(
            |inc: MemberIncome| inc.member_id == pid,
        ));
        assert(incomes_restored_ok(
            im.1.filter(|inc: MemberIncome| inc.member_id == pid),
            d.household_members@[k].incomes@,
            pid,
        ));
        assert forall|j: int|
            0 <= j < d2.household_members@[k].incomes@.len() implies income_leaf_eq(
            (#[trigger] d2.household_members@[k].incomes@[j]),
            d.household_members@[k].incomes@[j],
        ) by {
            let xs = im.1.filter(|inc: MemberIncome| inc.member_id == pid);
            assert(d2.household_members@[k].incomes@[j] == xs[j]);
            assert(xs[j] == restored_income(
                d.household_members@[k].incomes@[j],
                pid,
                xs[j].id.unwrap(),
            ));
        }
    }
    // banks with their accounts
    assert(d2.banks@.len() == d.banks@.len());
    assert forall|k: int| 0 <= k < d2.banks@.len() implies {
        &&& bank_leaf_eq((#[trigger] d2.banks@[k]).bank, d.banks@[k].bank)
        &&& d2.banks@[k].accounts@.len() == d.banks@[k].accounts@.len()
        &&& (forall|j: int|
            0 <= j < d2.banks@[k].accounts@.len() ==> account_leaf_eq(
                (#[trigger] d2.banks@[k].accounts@[j]),
                d.banks@[k].accounts@[j],
            ))
    } by {
        assert(d2.banks@[k].bank == m2.banks[k]);
        assert(m2.banks[k] == restored_bank(d.banks@[k].bank, ib.0[k].id));
        let bid = ib.0[k].id;
        assert(accounts_ext_ok(
            d2.banks@[k].accounts@,
            m2.accounts.filter(|a: AccountV| a.bank_id == Some(bid)),
        ));
        // the surviving bankless accounts contribute nothing to the filter
        Seq::filter_distributes_over_add(kept, ib.1, |a: AccountV| a.bank_id == Some(bid));
        m.accounts.filter_lemma(|a: AccountV| a.bank_id is None);
        assert forall|j: int|
            0 <= j < kept.len() implies (#[trigger] kept[j]).bank_id != Some(bid) by {
            assert(kept[j].bank_id is None);
        }
        lemma_filter_accounts_none(kept, bid);
        assert(m2.accounts.filter(|a: AccountV| a.bank_id == Some(bid)) =~= ib.1.filter(
            |a: AccountV| a.bank_id == Some(bid),
        ));
        assert(accounts_restored_ok(
            ib.1.filter(|a: AccountV| a.bank_id == Some(bid)),
            d.banks@[k].accounts@,
            bid,
        ));
        assert forall|j: int|
            0 <= j < d2.banks@[k].accounts@.len() implies account_leaf_eq(
            (#[trigger] d2.banks@[k].accounts@[j]),
            d.banks@[k].accounts@[j],
        ) by {
            let xs = ib.1.filter(|a: AccountV| a.bank_id == Some(bid));
            assert(account_ext_of(d2.banks@[k].accounts@[j], xs[j]));
            assert(xs[j] == restored_account(d.banks@[k].accounts@[j], bid, xs[j].id));
        }
    }
}


/// One line of the delimited transaction export: the row's own values
/// together with the names of the category and accounts it references.
/// A reference that matches no row exports as an absent name.
pub struct TransactionExportRow {
    pub id: i64,
    pub date: Date,
    pub amount: i64,
    pub currency: String,
    pub transaction_type: TxType,
    pub description: Option<String>,
    pub status: TxStatus,
    pub category_name: Option<String>,
    pub from_account_name: Option<String>,
    pub to_account_name: Option<String>,
}

/// `name` is the name of the account row carrying `wanted`, or absent when
/// no reference or no such row exists.
pub open spec fn account_name_ok(
    av: Seq<AccountV>,
    wanted: Option<i64>,
    name: Option<String>,
) -> bool {
    match wanted {
        None => name is None,
        Some(id) => if has_account(av, id) {
            exists|j: int|
                0 <= j < av.len() && (#[trigger] av[j]).id == id && name == Some(av[j].name)
        } else {
            name is None
        },
    }
}

/// `name` is the name of the category row carrying `wanted`, or absent
/// when no reference or no such row exists.
pub open spec fn category_name_ok(
    cats: Seq<Category>,
    wanted: Option<i64>,
    name: Option<String>,
) -> bool {
    match wanted {
        None => name is None,
        Some(id) => if has_category(cats, id) {
            exists|j: int|
                0 <= j < cats.len() && (#[trigger] cats[j]).id == id && name == Some(cats[j].name)
        } else {
            name is None
        },
    }
}

/// The export line of one transaction row against the store.
pub open spec fn export_row_ok(r: TransactionExportRow, t: Transaction, m: StoreModel) -> bool {
    &&& r.id == t.id
    &&& r.date == t.date
    &&& r.amount == t.amount
    &&& r.currency == t.currency
    &&& r.transaction_type == t.transaction_type
    &&& r.description == t.description
    &&& r.status == t.status
    &&& category_name_ok(m.categories, t.category_id, r.category_name)
    &&& account_name_ok(m.accounts, t.from_account_id, r.from_account_name)
    &&& account_name_ok(m.accounts, t.to_account_id, r.to_account_name)
}

impl Store {
    /// The name of the account a reference points at, if any.
    fn lookup_account_name(&self, wanted: Option<i64>) -> (r: Option<String>)
        ensures
            account_name_ok(self@.accounts, wanted, r),
    {
        match wanted {
            None => None,
            Some(id) => match self.find_account_idx(id) {
                Some(j) => {
                    proof {
                        lemma_store_view(*self);
                    }
                    Some(self.accounts[j].name.clone())
                },
                None => None,
            },
        }
    }

    /// The name of the category a reference points at, if any.
    fn lookup_category_name(&self, wanted: Option<i64>) -> (r: Option<String>)
        ensures
            category_name_ok(self@.categories, wanted, r),
    {
        match wanted {
            None => None,
            Some(id) => match self.find_category_idx(id) {
                Some(j) => {
                    proof {
                        lemma_store_view(*self);
                    }
                    Some(self.categories[j].name.clone())
                },
                None => None,
            },
        }
    }

    /// The delimited-text view of the transactions — every one, or only
    /// those the optional filters admit — newest first (dates descending,
    /// ties broken by identifier descending), with the referenced category
    /// and account names joined in.  Rendering and writing the lines is
    /// the presentation layer's work.
    pub fn transaction_export_rows(&self, filters: Option<TransactionFilters>) -> (r: Vec<
        TransactionExportRow,
    >)
        ensures
            ({
                let ts = crate::transactions::sorted_desc_of(
                    match filters {
                        Some(f) => self@.transactions.filter(
                            |t: Transaction| crate::transactions::matches_filters(t, f),
                        ),
                        None => self@.transactions,
                    },
                );
                &&& r@.len() == ts.len()
                &&& forall|k: int|
                    0 <= k < r@.len() ==> export_row_ok(#[trigger] r@[k], ts[k], self@)
            }),
    {
        let listed = match &filters {
            Some(f) => self.listed_transactions(Some(f)),
            None => self.listed_transactions(None),
        };
        let n = listed.len();
        let mut out: Vec<TransactionExportRow> = Vec::new();
        let mut i: usize = 0;
        while i < n
            invariant
                n == listed@.len(),
                0 <= i <= n,
                out@.len() == i,
                forall|k: int|
                    0 <= k < i ==> export_row_ok(#[trigger] out@[k], listed@[k], self@),
            decreases n - i,
        {
            let t = &listed[i];
            let row = TransactionExportRow {
                id: t.id,
                date: t.date,
                amount: t.amount,
                currency: t.currency.clone(),
                transaction_type: t.transaction_type,
                description: crate::types::clone_opt_string(&t.description),
                status: t.status,
                category_name: self.lookup_category_name(t.category_id),
                from_account_name: self.lookup_account_name(t.from_account_id),
                to_account_name: self.lookup_account_name(t.to_account_id),
            };
            out.push(row);
            i = i + 1;
        }
        out
    }
}

} // verus!
