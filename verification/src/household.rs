//! Household planning rows: members with their incomes, scheduled
//! transfers, fixed expenses and budget categories.  These are the
//! collections the full-graph snapshot walks.

use crate::error::AppError;
use crate::store::{
    budget_ids, expense_ids, income_ids, lemma_ids_ok_push, lemma_ids_ok_remove, lemma_store_view,
    member_ids, store_model, transfer_ids, Store, StoreModel,
};
use crate::types::{
    BudgetCategory, CreateBudgetCategoryInput, CreateFixedExpenseInput, CreateIncomeInput,
    CreateMemberInput, CreateTransferInput, FixedExpense, HouseholdMember, MemberIncome,
    ScheduledTransfer,
};
use vstd::prelude::*;

verus! {

/// Some member row carries this identifier.
pub open spec fn has_member(ms: Seq<HouseholdMember>, id: i64) -> bool {
    exists|j: int| 0 <= j < ms.len() && (#[trigger] ms[j]).id == Some(id)
}

/// Some income row carries this identifier.
pub open spec fn has_income(ms: Seq<MemberIncome>, id: i64) -> bool {
    exists|j: int| 0 <= j < ms.len() && (#[trigger] ms[j]).id == Some(id)
}

/// Some scheduled-transfer row carries this identifier.
pub open spec fn has_transfer(ms: Seq<ScheduledTransfer>, id: i64) -> bool {
    exists|j: int| 0 <= j < ms.len() && (#[trigger] ms[j]).id == Some(id)
}

/// Some fixed-expense row carries this identifier.
pub open spec fn has_expense(ms: Seq<FixedExpense>, id: i64) -> bool {
    exists|j: int| 0 <= j < ms.len() && (#[trigger] ms[j]).id == Some(id)
}

/// Some budget-category row carries this identifier.
pub open spec fn has_budget(ms: Seq<BudgetCategory>, id: i64) -> bool {
    exists|j: int| 0 <= j < ms.len() && (#[trigger] ms[j]).id == Some(id)
}

/// The row that creating a household member from `input` produces.
pub open spec fn created_member_ok(m2: HouseholdMember, input: CreateMemberInput, id: i64) -> bool {
    &&& m2.id == Some(id)
    &&& m2.name == input.name
    &&& (match input.color {
        Some(c) => m2.color == c,
        None => m2.color@ == "#3B82F6"@,
    })
    &&& m2.avatar == input.avatar
}

/// The row that creating a member income from `input` produces.
pub open spec fn created_income_ok(m2: MemberIncome, input: CreateIncomeInput, id: i64) -> bool {
    &&& m2.id == Some(id)
    &&& m2.member_id == input.member_id
    &&& m2.name == input.name
    &&& m2.amount == input.amount
    &&& (match input.frequency {
        Some(f) => m2.frequency == f,
        None => m2.frequency@ == "monthly"@,
    })
    &&& m2.day_of_month == input.day_of_month
    &&& m2.account_id == input.account_id
    &&& m2.is_active == true
}

/// The highest display order among the stored transfers (zero when there
/// are none, as the store's aggregate default gives).
pub open spec fn max_display_order(s: Seq<ScheduledTransfer>) -> int
    decreases s.len(),
{
    if s.len() == 0 {
        0
    } else {
        let r = max_display_order(s.drop_last());
        if s.last().display_order > r {
            s.last().display_order as int
        } else {
            r
        }
    }
}

/// The display order a newly created transfer receives: one past the
/// highest stored one, saturating at the column's limit.
pub open spec fn next_display_order(s: Seq<ScheduledTransfer>) -> int {
    if max_display_order(s) >= i32::MAX {
        i32::MAX as int
    } else {
        max_display_order(s) + 1
    }
}

/// The row that creating a scheduled transfer from `input` produces, at
/// the given display order.
pub open spec fn created_transfer_ok(
    m2: ScheduledTransfer,
    input: CreateTransferInput,
    id: i64,
    order: i32,
) -> bool {
    &&& m2.id == Some(id)
    &&& m2.name == input.name
    &&& m2.from_account_id == input.from_account_id
    &&& m2.to_account_id == input.to_account_id
    &&& m2.amount == input.amount
    &&& m2.day_of_month == input.day_of_month
    &&& m2.description == input.description
    &&& (match input.category {
        Some(c) => m2.category == Some(c),
        None => m2.category matches Some(c2) && c2@ == "internal"@,
    })
    &&& m2.display_order == order
    &&& m2.is_active == true
}

/// The row that updating a scheduled transfer with `input` leaves behind:
/// the display order and active flag keep their stored values.
pub open spec fn updated_transfer_ok(
    m2: ScheduledTransfer,
    m: ScheduledTransfer,
    input: CreateTransferInput,
) -> bool {
    &&& m2.id == m.id
    &&& m2.name == input.name
    &&& m2.from_account_id == input.from_account_id
    &&& m2.to_account_id == input.to_account_id
    &&& m2.amount == input.amount
    &&& m2.day_of_month == input.day_of_month
    &&& m2.description == input.description
    &&& (match input.category {
        Some(c) => m2.category == Some(c),
        None => m2.category matches Some(c2) && c2@ == "internal"@,
    })
    &&& m2.display_order == m.display_order
    &&& m2.is_active == m.is_active
}

/// The row that creating a fixed expense from `input` produces.
pub open spec fn created_expense_ok(m2: FixedExpense, input: CreateFixedExpenseInput, id: i64) -> bool {
    &&& m2.id == Some(id)
    &&& m2.name == input.name
    &&& m2.amount == input.amount
    &&& m2.category == input.category
    &&& (match input.frequency {
        Some(f) => m2.frequency == f,
        None => m2.frequency@ == "monthly"@,
    })
    &&& m2.day_of_month == input.day_of_month
    &&& m2.account_id == input.account_id
    &&& (match input.assigned_to {
        Some(a) => m2.assigned_to == Some(a),
        None => m2.assigned_to matches Some(a2) && a2@ == "shared"@,
    })
    &&& m2.is_active == true
    &&& m2.notes == input.notes
}

/// The row that updating a fixed expense with `input` leaves behind: the
/// active flag keeps its stored value.
pub open spec fn updated_expense_ok(
    m2: FixedExpense,
    m: FixedExpense,
    input: CreateFixedExpenseInput,
) -> bool {
    &&& m2.id == m.id
    &&& m2.name == input.name
    &&& m2.amount == input.amount
    &&& m2.category == input.category
    &&& (match input.frequency {
        Some(f) => m2.frequency == f,
        None => m2.frequency@ == "monthly"@,
    })
    &&& m2.day_of_month == input.day_of_month
    &&& m2.account_id == input.account_id
    &&& (match input.assigned_to {
        Some(a) => m2.assigned_to == Some(a),
        None => m2.assigned_to matches Some(a2) && a2@ == "shared"@,
    })
    &&& m2.is_active == m.is_active
    &&& m2.notes == input.notes
}

/// The row that creating a budget category from `input` produces.
pub open spec fn created_budget_ok(
    m2: BudgetCategory,
    input: CreateBudgetCategoryInput,
    id: i64,
) -> bool {
    &&& m2.id == Some(id)
    &&& m2.name == input.name
    &&& m2.budget_type == input.budget_type
    &&& m2.monthly_limit == input.monthly_limit
    &&& (match input.color {
        Some(c) => m2.color == c,
        None => m2.color@ == "#6B7280"@,
    })
    &&& m2.icon == input.icon
    &&& (match input.assigned_to {
        Some(a) => m2.assigned_to == Some(a),
        None => m2.assigned_to matches Some(a2) && a2@ == "shared"@,
    })
}

impl Store {
    /// List every household member, in insertion order.
    pub fn get_household_members(&self) -> (r: Vec<HouseholdMember>)
        ensures
            r@ == self@.members,
    {
        proof {
            lemma_store_view(*self);
        }
        let n = self.members.len();
        let mut out: Vec<HouseholdMember> = Vec::new();
        let mut i: usize = 0;
        while i < n
            invariant
                n == self.members.len(),
                0 <= i <= n,
                out@ == self.members@.take(i as int),
            decreases n - i,
        {
            let row = self.members[i].clone_row();
            out.push(row);
            proof {
                assert(self.members@.take(i as int + 1) =~= self.members@.take(i as int).push(
                    self.members@[i as int],
                ));
            }
            i = i + 1;
        }
        proof {
            assert(self.members@.take(n as int) =~= self.members@);
        }
        out
    }

    /// Create a household member.
    pub fn create_household_member(&mut self, input: CreateMemberInput) -> (r: Result<
        HouseholdMember,
        AppError,
    >)
        requires
            old(self)@.wf(),
        ensures
            final(self)@.wf(),
            r is Ok <==> old(self)@.next_id < i64::MAX,
            r matches Ok(m2) ==> created_member_ok(m2, input, (old(self)@.next_id) as i64)
                && final(self)@ == (StoreModel {
                next_id: old(self)@.next_id + 1,
                members: old(self)@.members.push(m2),
                ..old(self)@
            }),
            r is Err ==> final(self)@ == old(self)@ && r->Err_0 is Internal,
    {
        proof {
            lemma_store_view(*old(self));
        }
        if self.next_id == i64::MAX {
            return Err(AppError::Internal("store identifiers exhausted".to_owned()));
        }
        let id = self.next_id;
        self.next_id = self.next_id + 1;
        let row = HouseholdMember {
            id: Some(id),
            name: input.name,
            color: match input.color {
                Some(c) => c,
                None => "#3B82F6".to_owned(),
            },
            avatar: input.avatar,
        };
        let out = row.clone_row();
        self.members.push(row);
        proof {
            lemma_store_view(*self);
            let m = store_model(*old(self));
            assert(self@ =~= (StoreModel {
                next_id: m.next_id + 1,
                members: m.members.push(out),
                ..m
            }));
            assert(member_ids(m.members.push(out)) =~= member_ids(m.members).push(id));
            lemma_ids_ok_push(member_ids(m.members), m.next_id);
            assert forall|j2: int| 0 <= j2 < m.members.push(out).len()
                implies (#[trigger] m.members.push(out)[j2]).id is Some by {
                if j2 < m.members.len() {
                    assert(m.members.push(out)[j2] == m.members[j2]);
                } else {
                    assert(m.members.push(out)[j2] == out);
                }
            }
        }
        Ok(out)
    }

    /// Hard-delete a household member; the member's income rows are left
    /// for their own deletion path.  Deleting a missing member is a no-op.
    pub fn delete_household_member(&mut self, id: i64) -> (r: Result<(), AppError>)
        requires
            old(self)@.wf(),
        ensures
            final(self)@.wf(),
            r is Ok,
            !has_member(old(self)@.members, id) ==> final(self)@ == old(self)@,
            has_member(old(self)@.members, id) ==> exists|j: int|
                0 <= j < old(self)@.members.len() && (#[trigger] old(self)@.members[j]).id == Some(
                    id,
                ) && final(self)@ == (StoreModel {
                    members: old(self)@.members.remove(j),
                    ..old(self)@
                }),
    {
        proof {
            lemma_store_view(*old(self));
        }
        let n = self.members.len();
        let mut i: usize = 0;
        while i < n
            invariant
                n == self.members.len(),
                0 <= i <= n,
                *self == *old(self),
                old(self)@.wf(),
                forall|j: int| 0 <= j < i ==> (#[trigger] self.members@[j]).id != Some(id),
            decreases n - i,
        {
            let found = match self.members[i].id {
                Some(x) => x == id,
                None => false,
            };
            if found {
                self.members.remove(i);
                proof {
                    lemma_store_view(*self);
                    lemma_store_view(*old(self));
                    let m = store_model(*old(self));
                    assert(self@ =~= (StoreModel { members: m.members.remove(i as int), ..m }));
                    assert(member_ids(m.members.remove(i as int)) =~= member_ids(
                        m.members,
                    ).remove(i as int));
                    lemma_ids_ok_remove(member_ids(m.members), i as int, m.next_id);
                    assert forall|j2: int| 0 <= j2 < m.members.remove(i as int).len()
                        implies (#[trigger] m.members.remove(i as int)[j2]).id is Some by {
                        if j2 < i {
                            assert(m.members.remove(i as int)[j2] == m.members[j2]);
                        } else {
                            assert(m.members.remove(i as int)[j2] == m.members[j2 + 1]);
                        }
                    }
                }
                return Ok(());
            }
            i = i + 1;
        }
        proof {
            lemma_store_view(*self);
        }
        Ok(())
    }

    /// List one member's income rows, in insertion order.
    pub fn get_member_incomes(&self, member_id: i64) -> (r: Vec<MemberIncome>)
        ensures
            r@ == self@.incomes.filter(|m2: MemberIncome| m2.member_id == member_id),
    {
        proof {
            lemma_store_view(*self);
        }
        let n = self.incomes.len();
        let mut out: Vec<MemberIncome> = Vec::new();
        let mut i: usize = 0;
        while i < n
            invariant
                n == self.incomes.len(),
                0 <= i <= n,
                out@ == self.incomes@.take(i as int).filter(
                    |m2: MemberIncome| m2.member_id == member_id,
                ),
            decreases n - i,
        {
            let ghost pred = |m2: MemberIncome| m2.member_id == member_id;
            let ghost prefix = self.incomes@.take(i as int);
            let ghost prefix2 = self.incomes@.take(i as int + 1);
            proof {
                assert(prefix2.drop_last() =~= prefix);
                assert(prefix2.last() == self.incomes@[i as int]);
            }
            if self.incomes[i].member_id == member_id {
                let row = self.incomes[i].clone_row();
                out.push(row);
                proof {
                    reveal(Seq::filter);
                    assert(prefix2.filter(pred) == prefix.filter(pred).push(prefix2.last()));
                }
            } else {
                proof {
                    reveal(Seq::filter);
                    assert(prefix2.filter(pred) == prefix.filter(pred));
                }
            }
            i = i + 1;
        }
        proof {
            assert(self.incomes@.take(n as int) =~= self.incomes@);
        }
        out
    }

    /// List every active income row, in insertion order.
    pub fn get_all_incomes(&self) -> (r: Vec<MemberIncome>)
        ensures
            r@ == self@.incomes.filter(|m2: MemberIncome| m2.is_active),
    {
        proof {
            lemma_store_view(*self);
        }
        let n = self.incomes.len();
        let mut out: Vec<MemberIncome> = Vec::new();
        let mut i: usize = 0;
        while i < n
            invariant
                n == self.incomes.len(),
                0 <= i <= n,
                out@ == self.incomes@.take(i as int).filter(|m2: MemberIncome| m2.is_active),
            decreases n - i,
        {
            let ghost pred = |m2: MemberIncome| m2.is_active;
            let ghost prefix = self.incomes@.take(i as int);
            let ghost prefix2 = self.incomes@.take(i as int + 1);
            proof {
                assert(prefix2.drop_last() =~= prefix);
                assert(prefix2.last() == self.incomes@[i as int]);
            }
            if self.incomes[i].is_active {
                let row = self.incomes[i].clone_row();
                out.push(row);
                proof {
                    reveal(Seq::filter);
                    assert(prefix2.filter(pred) == prefix.filter(pred).push(prefix2.last()));
                }
            } else {
                proof {
                    reveal(Seq::filter);
                    assert(prefix2.filter(pred) == prefix.filter(pred));
                }
            }
            i = i + 1;
        }
        proof {
            assert(self.incomes@.take(n as int) =~= self.incomes@);
        }
        out
    }

    /// Create a member income row.
    pub fn create_member_income(&mut self, input: CreateIncomeInput) -> (r: Result<
        MemberIncome,
        AppError,
    >)
        requires
            old(self)@.wf(),
        ensures
            final(self)@.wf(),
            r is Ok <==> old(self)@.next_id < i64::MAX,
            r matches Ok(m2) ==> created_income_ok(m2, input, (old(self)@.next_id) as i64)
                && final(self)@ == (StoreModel {
                next_id: old(self)@.next_id + 1,
                incomes: old(self)@.incomes.push(m2),
                ..old(self)@
            }),
            r is Err ==> final(self)@ == old(self)@ && r->Err_0 is Internal,
    {
        proof {
            lemma_store_view(*old(self));
        }
        if self.next_id == i64::MAX {
            return Err(AppError::Internal("store identifiers exhausted".to_owned()));
        }
        let id = self.next_id;
        self.next_id = self.next_id + 1;
        let row = MemberIncome {
            id: Some(id),
            member_id: input.member_id,
            name: input.name,
            amount: input.amount,
            frequency: match input.frequency {
                Some(f) => f,
                None => "monthly".to_owned(),
            },
            day_of_month: input.day_of_month,
            account_id: input.account_id,
            is_active: true,
        };
        let out = row.clone_row();
        self.incomes.push(row);
        proof {
            lemma_store_view(*self);
            let m = store_model(*old(self));
            assert(self@ =~= (StoreModel {
                next_id: m.next_id + 1,
                incomes: m.incomes.push(out),
                ..m
            }));
            assert(income_ids(m.incomes.push(out)) =~= income_ids(m.incomes).push(id));
            lemma_ids_ok_push(income_ids(m.incomes), m.next_id);
            assert forall|j2: int| 0 <= j2 < m.incomes.push(out).len()
                implies (#[trigger] m.incomes.push(out)[j2]).id is Some by {
                if j2 < m.incomes.len() {
                    assert(m.incomes.push(out)[j2] == m.incomes[j2]);
                } else {
                    assert(m.incomes.push(out)[j2] == out);
                }
            }
        }
        Ok(out)
    }

    /// Hard-delete a member income; deleting a missing one is a no-op.
    pub fn delete_member_income(&mut self, id: i64) -> (r: Result<(), AppError>)
        requires
            old(self)@.wf(),
        ensures
            final(self)@.wf(),
            r is Ok,
            !has_income(old(self)@.incomes, id) ==> final(self)@ == old(self)@,
            has_income(old(self)@.incomes, id) ==> exists|j: int|
                0 <= j < old(self)@.incomes.len() && (#[trigger] old(self)@.incomes[j]).id == Some(
                    id,
                ) && final(self)@ == (StoreModel {
                    incomes: old(self)@.incomes.remove(j),
                    ..old(self)@
                }),
    {
        proof {
            lemma_store_view(*old(self));
        }
        let n = self.incomes.len();
        let mut i: usize = 0;
        while i < n
            invariant
                n == self.incomes.len(),
                0 <= i <= n,
                *self == *old(self),
                old(self)@.wf(),
                forall|j: int| 0 <= j < i ==> (#[trigger] self.incomes@[j]).id != Some(id),
            decreases n - i,
        {
            let found = match self.incomes[i].id {
                Some(x) => x == id,
                None => false,
            };
            if found {
                self.incomes.remove(i);
                proof {
                    lemma_store_view(*self);
                    lemma_store_view(*old(self));
                    let m = store_model(*old(self));
                    assert(self@ =~= (StoreModel { incomes: m.incomes.remove(i as int), ..m }));
                    assert(income_ids(m.incomes.remove(i as int)) =~= income_ids(
                        m.incomes,
                    ).remove(i as int));
                    lemma_ids_ok_remove(income_ids(m.incomes), i as int, m.next_id);
                    assert forall|j2: int| 0 <= j2 < m.incomes.remove(i as int).len()
                        implies (#[trigger] m.incomes.remove(i as int)[j2]).id is Some by {
                        if j2 < i {
                            assert(m.incomes.remove(i as int)[j2] == m.incomes[j2]);
                        } else {
                            assert(m.incomes.remove(i as int)[j2] == m.incomes[j2 + 1]);
                        }
                    }
                }
                return Ok(());
            }
            i = i + 1;
        }
        proof {
            lemma_store_view(*self);
        }
        Ok(())
    }

    /// List every active scheduled transfer, in insertion order; a
    /// day-of-month-sorted display is done at the edge.
    pub fn get_scheduled_transfers(&self) -> (r: Vec<ScheduledTransfer>)
        ensures
            r@ == self@.scheduled_transfers.filter(|m2: ScheduledTransfer| m2.is_active),
    {
        proof {
            lemma_store_view(*self);
        }
        let n = self.scheduled_transfers.len();
        let mut out: Vec<ScheduledTransfer> = Vec::new();
        let mut i: usize = 0;
        while i < n
            invariant
                n == self.scheduled_transfers.len(),
                0 <= i <= n,
                out@ == self.scheduled_transfers@.take(i as int).filter(
                    |m2: ScheduledTransfer| m2.is_active,
                ),
            decreases n - i,
        {
            let ghost pred = |m2: ScheduledTransfer| m2.is_active;
            let ghost prefix = self.scheduled_transfers@.take(i as int);
            let ghost prefix2 = self.scheduled_transfers@.take(i as int + 1);
            proof {
                assert(prefix2.drop_last() =~= prefix);
                assert(prefix2.last() == self.scheduled_transfers@[i as int]);
            }
            if self.scheduled_transfers[i].is_active {
                let row = self.scheduled_transfers[i].clone_row();
                out.push(row);
                proof {
                    reveal(Seq::filter);
                    assert(prefix2.filter(pred) == prefix.filter(pred).push(prefix2.last()));
                }
            } else {
                proof {
                    reveal(Seq::filter);
                    assert(prefix2.filter(pred) == prefix.filter(pred));
                }
            }
            i = i + 1;
        }
        proof {
            assert(self.scheduled_transfers@.take(n as int) =~= self.scheduled_transfers@);
        }
        out
    }

    /// Create a scheduled transfer, placing it after the highest existing
    /// display order.
    pub fn create_scheduled_transfer(&mut self, input: CreateTransferInput) -> (r: Result<
        ScheduledTransfer,
        AppError,
    >)
        requires
            old(self)@.wf(),
        ensures
            final(self)@.wf(),
            r is Ok <==> old(self)@.next_id < i64::MAX,
            r matches Ok(m2) ==> m2.display_order as int == next_display_order(
                old(self)@.scheduled_transfers,
            ) && created_transfer_ok(m2, input, (old(self)@.next_id) as i64, m2.display_order)
                && final(self)@ == (StoreModel {
                next_id: old(self)@.next_id + 1,
                scheduled_transfers: old(self)@.scheduled_transfers.push(m2),
                ..old(self)@
            }),
            r is Err ==> final(self)@ == old(self)@ && r->Err_0 is Internal,
    {
        proof {
            lemma_store_view(*old(self));
        }
        if self.next_id == i64::MAX {
            return Err(AppError::Internal("store identifiers exhausted".to_owned()));
        }
        let id = self.next_id;
        self.next_id = self.next_id + 1;
        // next display order: one past the highest stored one
        let n = self.scheduled_transfers.len();
        let mut max_order: i32 = 0;
        let mut i: usize = 0;
        while i < n
            invariant
                n == self.scheduled_transfers.len(),
                0 <= i <= n,
                max_order as int == max_display_order(self.scheduled_transfers@.take(i as int)),
            decreases n - i,
        {
            proof {
                assert(self.scheduled_transfers@.take(i as int + 1).drop_last()
                    =~= self.scheduled_transfers@.take(i as int));
            }
            if self.scheduled_transfers[i].display_order > max_order {
                max_order = self.scheduled_transfers[i].display_order;
            }
            i = i + 1;
        }
        proof {
            assert(self.scheduled_transfers@.take(n as int) =~= self.scheduled_transfers@);
        }
        let order = if max_order == i32::MAX {
            i32::MAX
        } else {
            max_order + 1
        };
        let row = ScheduledTransfer {
            id: Some(id),
            name: input.name,
            from_account_id: input.from_account_id,
            to_account_id: input.to_account_id,
            amount: input.amount,
            day_of_month: input.day_of_month,
            description: input.description,
            category: Some(
                match input.category {
                    Some(c) => c,
                    None => "internal".to_owned(),
                },
            ),
            display_order: order,
            is_active: true,
        };
        let out = row.clone_row();
        self.scheduled_transfers.push(row);
        proof {
            lemma_store_view(*self);
            let m = store_model(*old(self));
            assert(self@ =~= (StoreModel {
                next_id: m.next_id + 1,
                scheduled_transfers: m.scheduled_transfers.push(out),
                ..m
            }));
            assert(transfer_ids(m.scheduled_transfers.push(out)) =~= transfer_ids(
                m.scheduled_transfers,
            ).push(id));
            lemma_ids_ok_push(transfer_ids(m.scheduled_transfers), m.next_id);
            assert forall|j2: int| 0 <= j2 < m.scheduled_transfers.push(out).len()
                implies (#[trigger] m.scheduled_transfers.push(out)[j2]).id is Some by {
                if j2 < m.scheduled_transfers.len() {
                    assert(m.scheduled_transfers.push(out)[j2] == m.scheduled_transfers[j2]);
                } else {
                    assert(m.scheduled_transfers.push(out)[j2] == out);
                }
            }
        }
        Ok(out)
    }

    /// Rewrite a scheduled transfer's fields; its display order and active
    /// flag keep their stored values.
    pub fn update_scheduled_transfer(&mut self, id: i64, input: CreateTransferInput) -> (r: Result<
        ScheduledTransfer,
        AppError,
    >)
        requires
            old(self)@.wf(),
        ensures
            final(self)@.wf(),
            r is Ok <==> has_transfer(old(self)@.scheduled_transfers, id),
            r matches Ok(m2) ==> exists|j: int|
                0 <= j < old(self)@.scheduled_transfers.len() && (
                #[trigger] old(self)@.scheduled_transfers[j]).id == Some(id)
                    && updated_transfer_ok(m2, old(self)@.scheduled_transfers[j], input)
                    && final(self)@ == (StoreModel {
                    scheduled_transfers: old(self)@.scheduled_transfers.update(j, m2),
                    ..old(self)@
                }),
            r is Err ==> final(self)@ == old(self)@ && r->Err_0 is NotFound,
    {
        proof {
            lemma_store_view(*old(self));
        }
        let n = self.scheduled_transfers.len();
        let mut i: usize = 0;
        while i < n
            invariant
                n == self.scheduled_transfers.len(),
                0 <= i <= n,
                *self == *old(self),
                old(self)@.wf(),
                forall|j: int|
                    0 <= j < i ==> (#[trigger] self.scheduled_transfers@[j]).id != Some(id),
            decreases n - i,
        {
            let found = match self.scheduled_transfers[i].id {
                Some(x) => x == id,
                None => false,
            };
            if found {
                let old_row = self.scheduled_transfers.remove(i);
                let row = ScheduledTransfer {
                    id: old_row.id,
                    name: input.name,
                    from_account_id: input.from_account_id,
                    to_account_id: input.to_account_id,
                    amount: input.amount,
                    day_of_month: input.day_of_month,
                    description: input.description,
                    category: Some(
                        match input.category {
                            Some(c) => c,
                            None => "internal".to_owned(),
                        },
                    ),
                    display_order: old_row.display_order,
                    is_active: old_row.is_active,
                };
                let out = row.clone_row();
                self.scheduled_transfers.insert(i, row);
                proof {
                    lemma_store_view(*self);
                    lemma_store_view(*old(self));
                    let m = store_model(*old(self));
                    assert(self.scheduled_transfers@ =~= old(self).scheduled_transfers@.update(
                        i as int,
                        out,
                    ));
                    assert(self@ =~= (StoreModel {
                        scheduled_transfers: m.scheduled_transfers.update(i as int, out),
                        ..m
                    }));
                    assert(transfer_ids(m.scheduled_transfers.update(i as int, out))
                        =~= transfer_ids(m.scheduled_transfers));
                    assert forall|j2: int|
                        0 <= j2 < m.scheduled_transfers.update(i as int, out).len() implies (
                    #[trigger] m.scheduled_transfers.update(i as int, out)[j2]).id is Some by {
                        if j2 != i {
                            assert(m.scheduled_transfers.update(i as int, out)[j2]
                                == m.scheduled_transfers[j2]);
                        }
                    }
                }
                return Ok(out);
            }
            i = i + 1;
        }
        proof {
            lemma_store_view(*self);
        }
        Err(AppError::NotFound("scheduled transfer not found".to_owned()))
    }

    /// Hard-delete a scheduled transfer; deleting a missing one is a
    /// no-op.
    pub fn delete_scheduled_transfer(&mut self, id: i64) -> (r: Result<(), AppError>)
        requires
            old(self)@.wf(),
        ensures
            final(self)@.wf(),
            r is Ok,
            !has_transfer(old(self)@.scheduled_transfers, id) ==> final(self)@ == old(self)@,
            has_transfer(old(self)@.scheduled_transfers, id) ==> exists|j: int|
                0 <= j < old(self)@.scheduled_transfers.len() && (
                #[trigger] old(self)@.scheduled_transfers[j]).id == Some(id) && final(self)@
                    == (StoreModel {
                    scheduled_transfers: old(self)@.scheduled_transfers.remove(j),
                    ..old(self)@
                }),
    {
        proof {
            lemma_store_view(*old(self));
        }
        let n = self.scheduled_transfers.len();
        let mut i: usize = 0;
        while i < n
            invariant
                n == self.scheduled_transfers.len(),
                0 <= i <= n,
                *self == *old(self),
                old(self)@.wf(),
                forall|j: int|
                    0 <= j < i ==> (#[trigger] self.scheduled_transfers@[j]).id != Some(id),
            decreases n - i,
        {
            let found = match self.scheduled_transfers[i].id {
                Some(x) => x == id,
                None => false,
            };
            if found {
                self.scheduled_transfers.remove(i);
                proof {
                    lemma_store_view(*self);
                    lemma_store_view(*old(self));
                    let m = store_model(*old(self));
                    assert(self@ =~= (StoreModel {
                        scheduled_transfers: m.scheduled_transfers.remove(i as int),
                        ..m
                    }));
                    assert(transfer_ids(m.scheduled_transfers.remove(i as int)) =~= transfer_ids(
                        m.scheduled_transfers,
                    ).remove(i as int));
                    lemma_ids_ok_remove(transfer_ids(m.scheduled_transfers), i as int, m.next_id);
                    assert forall|j2: int| 0 <= j2 < m.scheduled_transfers.remove(i as int).len()
                        implies (#[trigger] m.scheduled_transfers.remove(i as int)[j2]).id is Some by {
                        if j2 < i {
                            assert(m.scheduled_transfers.remove(i as int)[j2] == m.scheduled_transfers[j2]);
                        } else {
                            assert(m.scheduled_transfers.remove(i as int)[j2] == m.scheduled_transfers[j2 + 1]);
                        }
                    }
                }
                return Ok(());
            }
            i = i + 1;
        }
        proof {
            lemma_store_view(*self);
        }
        Ok(())
    }

    /// List every active fixed expense, in insertion order; a
    /// day-of-month-sorted display is done at the edge.
    pub fn get_fixed_expenses(&self) -> (r: Vec<FixedExpense>)
        ensures
            r@ == self@.fixed_expenses.filter(|m2: FixedExpense| m2.is_active),
    {
        proof {
            lemma_store_view(*self);
        }
        let n = self.fixed_expenses.len();
        let mut out: Vec<FixedExpense> = Vec::new();
        let mut i: usize = 0;
        while i < n
            invariant
                n == self.fixed_expenses.len(),
                0 <= i <= n,
                out@ == self.fixed_expenses@.take(i as int).filter(
                    |m2: FixedExpense| m2.is_active,
                ),
            decreases n - i,
        {
            let ghost pred = |m2: FixedExpense| m2.is_active;
            let ghost prefix = self.fixed_expenses@.take(i as int);
            let ghost prefix2 = self.fixed_expenses@.take(i as int + 1);
            proof {
                assert(prefix2.drop_last() =~= prefix);
                assert(prefix2.last() == self.fixed_expenses@[i as int]);
            }
            if self.fixed_expenses[i].is_active {
                let row = self.fixed_expenses[i].clone_row();
                out.push(row);
                proof {
                    reveal(Seq::filter);
                    assert(prefix2.filter(pred) == prefix.filter(pred).push(prefix2.last()));
                }
            } else {
                proof {
                    reveal(Seq::filter);
                    assert(prefix2.filter(pred) == prefix.filter(pred));
                }
            }
            i = i + 1;
        }
        proof {
            assert(self.fixed_expenses@.take(n as int) =~= self.fixed_expenses@);
        }
        out
    }

    /// Create a fixed-expense row.
    pub fn create_fixed_expense(&mut self, input: CreateFixedExpenseInput) -> (r: Result<
        FixedExpense,
        AppError,
    >)
        requires
            old(self)@.wf(),
        ensures
            final(self)@.wf(),
            r is Ok <==> old(self)@.next_id < i64::MAX,
            r matches Ok(m2) ==> created_expense_ok(m2, input, (old(self)@.next_id) as i64)
                && final(self)@ == (StoreModel {
                next_id: old(self)@.next_id + 1,
                fixed_expenses: old(self)@.fixed_expenses.push(m2),
                ..old(self)@
            }),
            r is Err ==> final(self)@ == old(self)@ && r->Err_0 is Internal,
    {
        proof {
            lemma_store_view(*old(self));
        }
        if self.next_id == i64::MAX {
            return Err(AppError::Internal("store identifiers exhausted".to_owned()));
        }
        let id = self.next_id;
        self.next_id = self.next_id + 1;
        let row = FixedExpense {
            id: Some(id),
            name: input.name,
            amount: input.amount,
            category: input.category,
            frequency: match input.frequency {
                Some(f) => f,
                None => "monthly".to_owned(),
            },
            day_of_month: input.day_of_month,
            account_id: input.account_id,
            assigned_to: Some(
                match input.assigned_to {
                    Some(a) => a,
                    None => "shared".to_owned(),
                },
            ),
            is_active: true,
            notes: input.notes,
        };
        let out = row.clone_row();
        self.fixed_expenses.push(row);
        proof {
            lemma_store_view(*self);
            let m = store_model(*old(self));
            assert(self@ =~= (StoreModel {
                next_id: m.next_id + 1,
                fixed_expenses: m.fixed_expenses.push(out),
                ..m
            }));
            assert(expense_ids(m.fixed_expenses.push(out)) =~= expense_ids(
                m.fixed_expenses,
            ).push(id));
            lemma_ids_ok_push(expense_ids(m.fixed_expenses), m.next_id);
            assert forall|j2: int| 0 <= j2 < m.fixed_expenses.push(out).len()
                implies (#[trigger] m.fixed_expenses.push(out)[j2]).id is Some by {
                if j2 < m.fixed_expenses.len() {
                    assert(m.fixed_expenses.push(out)[j2] == m.fixed_expenses[j2]);
                } else {
                    assert(m.fixed_expenses.push(out)[j2] == out);
                }
            }
        }
        Ok(out)
    }

    /// Rewrite a fixed expense's fields; its active flag keeps its stored
    /// value.
    pub fn update_fixed_expense(&mut self, id: i64, input: CreateFixedExpenseInput) -> (r: Result<
        FixedExpense,
        AppError,
    >)
        requires
            old(self)@.wf(),
        ensures
            final(self)@.wf(),
            r is Ok <==> has_expense(old(self)@.fixed_expenses, id),
            r matches Ok(m2) ==> exists|j: int|
                0 <= j < old(self)@.fixed_expenses.len() && (
                #[trigger] old(self)@.fixed_expenses[j]).id == Some(id) && updated_expense_ok(
                    m2,
                    old(self)@.fixed_expenses[j],
                    input,
                ) && final(self)@ == (StoreModel {
                    fixed_expenses: old(self)@.fixed_expenses.update(j, m2),
                    ..old(self)@
                }),
            r is Err ==> final(self)@ == old(self)@ && r->Err_0 is NotFound,
    {
        proof {
            lemma_store_view(*old(self));
        }
        let n = self.fixed_expenses.len();
        let mut i: usize = 0;
        while i < n
            invariant
                n == self.fixed_expenses.len(),
                0 <= i <= n,
                *self == *old(self),
                old(self)@.wf(),
                forall|j: int| 0 <= j < i ==> (#[trigger] self.fixed_expenses@[j]).id != Some(id),
            decreases n - i,
        {
            let found = match self.fixed_expenses[i].id {
                Some(x) => x == id,
                None => false,
            };
            if found {
                let old_row = self.fixed_expenses.remove(i);
                let row = FixedExpense {
                    id: old_row.id,
                    name: input.name,
                    amount: input.amount,
                    category: input.category,
                    frequency: match input.frequency {
                        Some(f) => f,
                        None => "monthly".to_owned(),
                    },
                    day_of_month: input.day_of_month,
                    account_id: input.account_id,
                    assigned_to: Some(
                        match input.assigned_to {
                            Some(a) => a,
                            None => "shared".to_owned(),
                        },
                    ),
                    is_active: old_row.is_active,
                    notes: input.notes,
                };
                let out = row.clone_row();
                self.fixed_expenses.insert(i, row);
                proof {
                    lemma_store_view(*self);
                    lemma_store_view(*old(self));
                    let m = store_model(*old(self));
                    assert(self.fixed_expenses@ =~= old(self).fixed_expenses@.update(
                        i as int,
                        out,
                    ));
                    assert(self@ =~= (StoreModel {
                        fixed_expenses: m.fixed_expenses.update(i as int, out),
                        ..m
                    }));
                    assert(expense_ids(m.fixed_expenses.update(i as int, out)) =~= expense_ids(
                        m.fixed_expenses,
                    ));
                    assert(m.fixed_expenses[i as int].id is Some);
                    assert forall|j2: int| 0 <= j2 < m.fixed_expenses.update(i as int, out).len()
                        implies (#[trigger] m.fixed_expenses.update(i as int, out)[j2]).id is Some by {
                        if j2 != i {
                            assert(m.fixed_expenses.update(i as int, out)[j2] == m.fixed_expenses[j2]);
                        }
                    }
                }
                return Ok(out);
            }
            i = i + 1;
        }
        proof {
            lemma_store_view(*self);
        }
        Err(AppError::NotFound("fixed expense not found".to_owned()))
    }

    /// Hard-delete a fixed expense; deleting a missing one is a no-op.
    pub fn delete_fixed_expense(&mut self, id: i64) -> (r: Result<(), AppError>)
        requires
            old(self)@.wf(),
        ensures
            final(self)@.wf(),
            r is Ok,
            !has_expense(old(self)@.fixed_expenses, id) ==> final(self)@ == old(self)@,
            has_expense(old(self)@.fixed_expenses, id) ==> exists|j: int|
                0 <= j < old(self)@.fixed_expenses.len() && (
                #[trigger] old(self)@.fixed_expenses[j]).id == Some(id) && final(self)@
                    == (StoreModel {
                    fixed_expenses: old(self)@.fixed_expenses.remove(j),
                    ..old(self)@
                }),
    {
        proof {
            lemma_store_view(*old(self));
        }
        let n = self.fixed_expenses.len();
        let mut i: usize = 0;
        while i < n
            invariant
                n == self.fixed_expenses.len(),
                0 <= i <= n,
                *self == *old(self),
                old(self)@.wf(),
                forall|j: int| 0 <= j < i ==> (#[trigger] self.fixed_expenses@[j]).id != Some(id),
            decreases n - i,
        {
            let found = match self.fixed_expenses[i].id {
                Some(x) => x == id,
                None => false,
            };
            if found {
                self.fixed_expenses.remove(i);
                proof {
                    lemma_store_view(*self);
                    lemma_store_view(*old(self));
                    let m = store_model(*old(self));
                    assert(self@ =~= (StoreModel {
                        fixed_expenses: m.fixed_expenses.remove(i as int),
                        ..m
                    }));
                    assert(expense_ids(m.fixed_expenses.remove(i as int)) =~= expense_ids(
                        m.fixed_expenses,
                    ).remove(i as int));
                    lemma_ids_ok_remove(expense_ids(m.fixed_expenses), i as int, m.next_id);
                    assert forall|j2: int| 0 <= j2 < m.fixed_expenses.remove(i as int).len()
                        implies (#[trigger] m.fixed_expenses.remove(i as int)[j2]).id is Some by {
                        if j2 < i {
                            assert(m.fixed_expenses.remove(i as int)[j2] == m.fixed_expenses[j2]);
                        } else {
                            assert(m.fixed_expenses.remove(i as int)[j2] == m.fixed_expenses[j2 + 1]);
                        }
                    }
                }
                return Ok(());
            }
            i = i + 1;
        }
        proof {
            lemma_store_view(*self);
        }
        Ok(())
    }

    /// List every budget category, in insertion order.
    pub fn get_budget_categories(&self) -> (r: Vec<BudgetCategory>)
        ensures
            r@ == self@.budget_categories,
    {
        proof {
            lemma_store_view(*self);
        }
        let n = self.budget_categories.len();
        let mut out: Vec<BudgetCategory> = Vec::new();
        let mut i: usize = 0;
        while i < n
            invariant
                n == self.budget_categories.len(),
                0 <= i <= n,
                out@ == self.budget_categories@.take(i as int),
            decreases n - i,
        {
            let row = self.budget_categories[i].clone_row();
            out.push(row);
            proof {
                assert(self.budget_categories@.take(i as int + 1)
                    =~= self.budget_categories@.take(i as int).push(
                    self.budget_categories@[i as int],
                ));
            }
            i = i + 1;
        }
        proof {
            assert(self.budget_categories@.take(n as int) =~= self.budget_categories@);
        }
        out
    }

    /// Create a budget-category row.
    pub fn create_budget_category(&mut self, input: CreateBudgetCategoryInput) -> (r: Result<
        BudgetCategory,
        AppError,
    >)
        requires
            old(self)@.wf(),
        ensures
            final(self)@.wf(),
            r is Ok <==> old(self)@.next_id < i64::MAX,
            r matches Ok(m2) ==> created_budget_ok(m2, input, (old(self)@.next_id) as i64)
                && final(self)@ == (StoreModel {
                next_id: old(self)@.next_id + 1,
                budget_categories: old(self)@.budget_categories.push(m2),
                ..old(self)@
            }),
            r is Err ==> final(self)@ == old(self)@ && r->Err_0 is Internal,
    {
        proof {
            lemma_store_view(*old(self));
        }
        if self.next_id == i64::MAX {
            return Err(AppError::Internal("store identifiers exhausted".to_owned()));
        }
        let id = self.next_id;
        self.next_id = self.next_id + 1;
        let row = BudgetCategory {
            id: Some(id),
            name: input.name,
            budget_type: input.budget_type,
            monthly_limit: input.monthly_limit,
            color: match input.color {
                Some(c) => c,
                None => "#6B7280".to_owned(),
            },
            icon: input.icon,
            assigned_to: Some(
                match input.assigned_to {
                    Some(a) => a,
                    None => "shared".to_owned(),
                },
            ),
        };
        let out = row.clone_row();
        self.budget_categories.push(row);
        proof {
            lemma_store_view(*self);
            let m = store_model(*old(self));
            assert(self@ =~= (StoreModel {
                next_id: m.next_id + 1,
                budget_categories: m.budget_categories.push(out),
                ..m
            }));
            assert(budget_ids(m.budget_categories.push(out)) =~= budget_ids(
                m.budget_categories,
            ).push(id));
            lemma_ids_ok_push(budget_ids(m.budget_categories), m.next_id);
            assert forall|j2: int| 0 <= j2 < m.budget_categories.push(out).len()
                implies (#[trigger] m.budget_categories.push(out)[j2]).id is Some by {
                if j2 < m.budget_categories.len() {
                    assert(m.budget_categories.push(out)[j2] == m.budget_categories[j2]);
                } else {
                    assert(m.budget_categories.push(out)[j2] == out);
                }
            }
        }
        Ok(out)
    }

    /// Hard-delete a budget category; deleting a missing one is a no-op.
    pub fn delete_budget_category(&mut self, id: i64) -> (r: Result<(), AppError>)
        requires
            old(self)@.wf(),
        ensures
            final(self)@.wf(),
            r is Ok,
            !has_budget(old(self)@.budget_categories, id) ==> final(self)@ == old(self)@,
            has_budget(old(self)@.budget_categories, id) ==> exists|j: int|
                0 <= j < old(self)@.budget_categories.len() && (
                #[trigger] old(self)@.budget_categories[j]).id == Some(id) && final(self)@
                    == (StoreModel {
                    budget_categories: old(self)@.budget_categories.remove(j),
                    ..old(self)@
                }),
    {
        proof {
            lemma_store_view(*old(self));
        }
        let n = self.budget_categories.len();
        let mut i: usize = 0;
        while i < n
            invariant
                n == self.budget_categories.len(),
                0 <= i <= n,
                *self == *old(self),
                old(self)@.wf(),
                forall|j: int|
                    0 <= j < i ==> (#[trigger] self.budget_categories@[j]).id != Some(id),
            decreases n - i,
        {
            let found = match self.budget_categories[i].id {
                Some(x) => x == id,
                None => false,
            };
            if found {
                self.budget_categories.remove(i);
                proof {
                    lemma_store_view(*self);
                    lemma_store_view(*old(self));
                    let m = store_model(*old(self));
                    assert(self@ =~= (StoreModel {
                        budget_categories: m.budget_categories.remove(i as int),
                        ..m
                    }));
                    assert(budget_ids(m.budget_categories.remove(i as int)) =~= budget_ids(
                        m.budget_categories,
                    ).remove(i as int));
                    lemma_ids_ok_remove(budget_ids(m.budget_categories), i as int, m.next_id);
                    assert forall|j2: int| 0 <= j2 < m.budget_categories.remove(i as int).len()
                        implies (#[trigger] m.budget_categories.remove(i as int)[j2]).id is Some by {
                        if j2 < i {
                            assert(m.budget_categories.remove(i as int)[j2] == m.budget_categories[j2]);
                        } else {
                            assert(m.budget_categories.remove(i as int)[j2] == m.budget_categories[j2 + 1]);
                        }
                    }
                }
                return Ok(());
            }
            i = i + 1;
        }
        proof {
            lemma_store_view(*self);
        }
        Ok(())
    }
}

} // verus!
