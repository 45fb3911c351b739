//! Savings goals: targets with a tracked saved amount.

use crate::error::AppError;
use crate::store::{
    lemma_ids_ok_push, lemma_ids_ok_remove, lemma_store_view, savings_goal_ids, store_model, Store,
    StoreModel,
};
use crate::types::{CreateSavingsGoalInput, SavingsGoal, UpdateSavingsGoalInput};
use vstd::prelude::*;

verus! {

/// Some savings-goal row carries this identifier.
pub open spec fn has_savings_goal(gs: Seq<SavingsGoal>, id: i64) -> bool {
    exists|j: int| 0 <= j < gs.len() && (#[trigger] gs[j]).id == id
}

/// The row that creating a savings goal from `input` produces: nothing
/// saved yet, and the goal starts active.
pub open spec fn created_savings_ok(g: SavingsGoal, input: CreateSavingsGoalInput, id: i64) -> bool {
    &&& g.id == id
    &&& g.name == input.name
    &&& g.target_amount == input.target_amount
    &&& g.current_amount == 0
    &&& (match input.currency {
        Some(c) => g.currency == c,
        None => g.currency@ == "CZK"@,
    })
    &&& g.deadline == input.deadline
    &&& g.account_id == input.account_id
    &&& g.auto_deposit_amount == input.auto_deposit_amount
    &&& g.auto_deposit_frequency == input.auto_deposit_frequency
    &&& g.active == true
}

/// The row that updating a savings goal with `input` leaves behind.
pub open spec fn updated_savings_ok(
    g2: SavingsGoal,
    g: SavingsGoal,
    input: UpdateSavingsGoalInput,
) -> bool {
    &&& g2.id == g.id
    &&& g2.name == input.name
    &&& g2.target_amount == input.target_amount
    &&& g2.current_amount == input.current_amount
    &&& g2.currency == input.currency
    &&& g2.deadline == input.deadline
    &&& g2.account_id == input.account_id
    &&& g2.auto_deposit_amount == input.auto_deposit_amount
    &&& g2.auto_deposit_frequency == input.auto_deposit_frequency
    &&& g2.active == input.active
}

impl Store {
    /// Create a savings-goal row.
    pub fn create_savings_goal(&mut self, input: CreateSavingsGoalInput) -> (r: Result<
        SavingsGoal,
        AppError,
    >)
        requires
            old(self)@.wf(),
        ensures
            final(self)@.wf(),
            r is Ok <==> old(self)@.next_id < i64::MAX,
            r matches Ok(g) ==> created_savings_ok(g, input, (old(self)@.next_id) as i64)
                && final(self)@ == (StoreModel {
                next_id: old(self)@.next_id + 1,
                savings_goals: old(self)@.savings_goals.push(g),
                ..old(self)@
            }),
            r is Err ==> final(self)@ == old(self)@ && r->Err_0 is Internal,
    {
        proof {
            lemma_store_view(*old(self));
        }
        if self.next_id == i64::MAX {
            return Err(AppError::Internal("store identifiers exhausted".to_owned()));
        }
        let id = self.next_id;
        self.next_id = self.next_id + 1;
        let row = SavingsGoal {
            id,
            name: input.name,
            target_amount: input.target_amount,
            current_amount: 0,
            currency: match input.currency {
                Some(c) => c,
                None => "CZK".to_owned(),
            },
            deadline: input.deadline,
            account_id: input.account_id,
            auto_deposit_amount: input.auto_deposit_amount,
            auto_deposit_frequency: input.auto_deposit_frequency,
            active: true,
        };
        let out = row.clone_row();
        self.savings_goals.push(row);
        proof {
            lemma_store_view(*self);
            let m = store_model(*old(self));
            assert(self@ =~= (StoreModel {
                next_id: m.next_id + 1,
                savings_goals: m.savings_goals.push(out),
                ..m
            }));
            assert(savings_goal_ids(m.savings_goals.push(out)) =~= savings_goal_ids(
                m.savings_goals,
            ).push(id));
            lemma_ids_ok_push(savings_goal_ids(m.savings_goals), m.next_id);
        }
        Ok(out)
    }

    /// List every savings-goal row, in insertion order; a name-sorted
    /// display is done at the edge.
    pub fn get_savings_goals(&self) -> (r: Vec<SavingsGoal>)
        ensures
            r@ == self@.savings_goals,
    {
        proof {
            lemma_store_view(*self);
        }
        let n = self.savings_goals.len();
        let mut out: Vec<SavingsGoal> = Vec::new();
        let mut i: usize = 0;
        while i < n
            invariant
                n == self.savings_goals.len(),
                0 <= i <= n,
                out@ == self.savings_goals@.take(i as int),
            decreases n - i,
        {
            out.push(self.savings_goals[i].clone_row());
            proof {
                assert(self.savings_goals@.take(i as int + 1) =~= self.savings_goals@.take(
                    i as int,
                ).push(self.savings_goals@[i as int]));
            }
            i = i + 1;
        }
        proof {
            assert(self.savings_goals@.take(n as int) =~= self.savings_goals@);
        }
        out
    }

    /// Rewrite a savings goal's fields, the saved amount included.
    pub fn update_savings_goal(&mut self, id: i64, input: UpdateSavingsGoalInput) -> (r: Result<
        SavingsGoal,
        AppError,
    >)
        requires
            old(self)@.wf(),
        ensures
            final(self)@.wf(),
            r is Ok <==> has_savings_goal(old(self)@.savings_goals, id),
            r matches Ok(g) ==> exists|j: int|
                0 <= j < old(self)@.savings_goals.len() && (
                #[trigger] old(self)@.savings_goals[j]).id == id && updated_savings_ok(
                    g,
                    old(self)@.savings_goals[j],
                    input,
                ) && final(self)@ == (StoreModel {
                    savings_goals: old(self)@.savings_goals.update(j, g),
                    ..old(self)@
                }),
            r is Err ==> final(self)@ == old(self)@ && r->Err_0 is NotFound,
    {
        proof {
            lemma_store_view(*old(self));
        }
        let n = self.savings_goals.len();
        let mut i: usize = 0;
        while i < n
            invariant
                n == self.savings_goals.len(),
                0 <= i <= n,
                *self == *old(self),
                old(self)@.wf(),
                forall|j: int| 0 <= j < i ==> (#[trigger] self.savings_goals@[j]).id != id,
            decreases n - i,
        {
            if self.savings_goals[i].id == id {
                let old_row = self.savings_goals.remove(i);
                let row = SavingsGoal {
                    id: old_row.id,
                    name: input.name,
                    target_amount: input.target_amount,
                    current_amount: input.current_amount,
                    currency: input.currency,
                    deadline: input.deadline,
                    account_id: input.account_id,
                    auto_deposit_amount: input.auto_deposit_amount,
                    auto_deposit_frequency: input.auto_deposit_frequency,
                    active: input.active,
                };
                let out = row.clone_row();
                self.savings_goals.insert(i, row);
                proof {
                    lemma_store_view(*self);
                    lemma_store_view(*old(self));
                    let m = store_model(*old(self));
                    assert(self.savings_goals@ =~= old(self).savings_goals@.update(i as int, out));
                    assert(self@ =~= (StoreModel {
                        savings_goals: m.savings_goals.update(i as int, out),
                        ..m
                    }));
                    assert(savings_goal_ids(m.savings_goals.update(i as int, out))
                        =~= savings_goal_ids(m.savings_goals));
                }
                return Ok(out);
            }
            i = i + 1;
        }
        proof {
            lemma_store_view(*self);
        }
        Err(AppError::NotFound("savings goal not found".to_owned()))
    }

    /// Hard-delete a savings goal; deleting a missing one is a no-op.
    pub fn delete_savings_goal(&mut self, id: i64) -> (r: Result<(), AppError>)
        requires
            old(self)@.wf(),
        ensures
            final(self)@.wf(),
            r is Ok,
            !has_savings_goal(old(self)@.savings_goals, id) ==> final(self)@ == old(self)@,
            has_savings_goal(old(self)@.savings_goals, id) ==> exists|j: int|
                0 <= j < old(self)@.savings_goals.len() && (
                #[trigger] old(self)@.savings_goals[j]).id == id && final(self)@ == (StoreModel {
                    savings_goals: old(self)@.savings_goals.remove(j),
                    ..old(self)@
                }),
    {
        proof {
            lemma_store_view(*old(self));
        }
        let n = self.savings_goals.len();
        let mut i: usize = 0;
        while i < n
            invariant
                n == self.savings_goals.len(),
                0 <= i <= n,
                *self == *old(self),
                old(self)@.wf(),
                forall|j: int| 0 <= j < i ==> (#[trigger] self.savings_goals@[j]).id != id,
            decreases n - i,
        {
            if self.savings_goals[i].id == id {
                self.savings_goals.remove(i);
                proof {
                    lemma_store_view(*self);
                    lemma_store_view(*old(self));
                    let m = store_model(*old(self));
                    assert(self@ =~= (StoreModel {
                        savings_goals: m.savings_goals.remove(i as int),
                        ..m
                    }));
                    assert(savings_goal_ids(m.savings_goals.remove(i as int)) =~= savings_goal_ids(
                        m.savings_goals,
                    ).remove(i as int));
                    lemma_ids_ok_remove(savings_goal_ids(m.savings_goals), i as int, m.next_id);
                }
                return Ok(());
            }
            i = i + 1;
        }
        proof {
            lemma_store_view(*self);
        }
        Ok(())
    }
}

} // verus!
