//! Financial goals and funds: variable weekly targets, funds with a
//! tracked balance, and yearly targets; plus the withdrawals drawn from a
//! fund and the per-month plans kept for each goal.

use crate::date::Date;
use crate::error::AppError;
use crate::ledger::fits_i64;
use crate::store::{
    financial_goal_ids, lemma_ids_ok_push, lemma_store_view, plan_ids,
    store_model, withdrawal_ids, Store, StoreModel,
};
use crate::types::{
    CreateGoalInput, CreateWithdrawalInput, FinancialGoal, FundWithdrawal, MonthlyPlan,
    UpdateGoalInput,
};
use vstd::prelude::*;

verus! {

/// Some financial-goal row carries this identifier.
pub open spec fn has_financial_goal(gs: Seq<FinancialGoal>, id: i64) -> bool {
    exists|j: int| 0 <= j < gs.len() && (#[trigger] gs[j]).id == id
}

/// Some monthly-plan row carries this goal, year and month.
pub open spec fn has_plan_key(ps: Seq<MonthlyPlan>, goal_id: i64, year: i32, month: i32) -> bool {
    exists|j: int|
        0 <= j < ps.len() && (#[trigger] ps[j]).goal_id == goal_id && ps[j].year == year
            && ps[j].month == month
}

/// The row that creating a financial goal from `input` produces: the fund
/// balance and saved amount default to zero, and the goal starts active.
pub open spec fn created_goal_ok(g: FinancialGoal, input: CreateGoalInput, id: i64) -> bool {
    &&& g.id == id
    &&& g.name == input.name
    &&& g.goal_type == input.goal_type
    &&& g.icon == input.icon
    &&& g.color == input.color
    &&& g.weekly_amount == input.weekly_amount
    &&& g.day_of_week == input.day_of_week
    &&& g.monthly_contribution == input.monthly_contribution
    &&& g.current_balance == Some(
        match input.current_balance {
            Some(b) => b,
            None => 0i64,
        },
    )
    &&& g.yearly_amount == input.yearly_amount
    &&& g.target_month == input.target_month
    &&& g.current_saved == Some(
        match input.current_saved {
            Some(b) => b,
            None => 0i64,
        },
    )
    &&& g.account_id == input.account_id
    &&& g.notes == input.notes
    &&& g.is_active == true
}

/// The row that updating a financial goal with `input` leaves behind.
pub open spec fn updated_goal_ok(g2: FinancialGoal, g: FinancialGoal, input: UpdateGoalInput) -> bool {
    &&& g2.id == g.id
    &&& g2.name == input.name
    &&& g2.goal_type == input.goal_type
    &&& g2.icon == input.icon
    &&& g2.color == input.color
    &&& g2.weekly_amount == input.weekly_amount
    &&& g2.day_of_week == input.day_of_week
    &&& g2.monthly_contribution == input.monthly_contribution
    &&& g2.current_balance == input.current_balance
    &&& g2.yearly_amount == input.yearly_amount
    &&& g2.target_month == input.target_month
    &&& g2.current_saved == input.current_saved
    &&& g2.account_id == input.account_id
    &&& g2.notes == input.notes
    &&& g2.is_active == input.is_active
}

/// Adding `delta` to the goal's fund balance stays representable (a goal
/// without a tracked balance has nothing to overflow).
pub open spec fn fund_delta_ok(g: FinancialGoal, delta: int) -> bool {
    match g.current_balance {
        None => true,
        Some(b) => fits_i64(b + delta),
    }
}

/// The goal after `delta` is applied to its fund balance; a goal without
/// a tracked balance is left as it is.
pub open spec fn fund_adjusted_ok(g2: FinancialGoal, g: FinancialGoal, delta: int) -> bool {
    match g.current_balance {
        None => g2 == g,
        Some(b) => g2 == (FinancialGoal { current_balance: Some((b + delta) as i64), ..g }),
    }
}


/// Contributing an amount to a fund and then drawing the same amount
/// restores the goal row exactly: the two balance movements are inverses.
pub proof fn lemma_fund_adjust_round_trip(
    g: FinancialGoal,
    g1: FinancialGoal,
    g2: FinancialGoal,
    amount: i64,
)
    requires
        fund_delta_ok(g, amount as int),
        fund_adjusted_ok(g1, g, amount as int),
        fund_adjusted_ok(g2, g1, -(amount as int)),
    ensures
        g2 == g,
{
}

/// The row that an upsert of a monthly plan writes: the counts, amounts
/// and notes; the identifier and the key stay.
pub open spec fn plan_written_ok(
    p2: MonthlyPlan,
    p: MonthlyPlan,
    planned_count: i32,
    realized_count: i32,
    planned_amount: i64,
    realized_amount: i64,
    notes: Option<String>,
) -> bool {
    p2 == (MonthlyPlan {
        planned_count,
        realized_count,
        planned_amount,
        realized_amount,
        notes,
        ..p
    })
}

impl Store {
    /// The index of the financial-goal row with this identifier, if any.
    pub(crate) fn find_goal_idx(&self, id: i64) -> (r: Option<usize>)
        ensures
            r matches Some(j) ==> j < self@.financial_goals.len()
                && self@.financial_goals[j as int].id == id,
            r matches Some(j) ==> j < self.financial_goals@.len(),
            r is None ==> !has_financial_goal(self@.financial_goals, id),
    {
        proof {
            lemma_store_view(*self);
        }
        let n = self.financial_goals.len();
        let mut i: usize = 0;
        while i < n
            invariant
                n == self.financial_goals.len(),
                0 <= i <= n,
                forall|j: int| 0 <= j < i ==> (#[trigger] self.financial_goals@[j]).id != id,
            decreases n - i,
        {
            if self.financial_goals[i].id == id {
                proof {
                    lemma_store_view(*self);
                }
                return Some(i);
            }
            i = i + 1;
        }
        proof {
            lemma_store_view(*self);
        }
        None
    }

    /// Create a financial-goal row.
    pub fn create_financial_goal(&mut self, input: CreateGoalInput) -> (r: Result<
        FinancialGoal,
        AppError,
    >)
        requires
            old(self)@.wf(),
        ensures
            final(self)@.wf(),
            r is Ok <==> old(self)@.next_id < i64::MAX,
            r matches Ok(g) ==> created_goal_ok(g, input, (old(self)@.next_id) as i64)
                && final(self)@ == (StoreModel {
                next_id: old(self)@.next_id + 1,
                financial_goals: old(self)@.financial_goals.push(g),
                ..old(self)@
            }),
            r is Err ==> final(self)@ == old(self)@ && r->Err_0 is Internal,
    {
        proof {
            lemma_store_view(*old(self));
        }
        if self.next_id == i64::MAX {
            return Err(AppError::Internal("store identifiers exhausted".to_owned()));
        }
        let id = self.next_id;
        self.next_id = self.next_id + 1;
        let row = FinancialGoal {
            id,
            name: input.name,
            goal_type: input.goal_type,
            icon: input.icon,
            color: input.color,
            weekly_amount: input.weekly_amount,
            day_of_week: input.day_of_week,
            monthly_contribution: input.monthly_contribution,
            current_balance: Some(
                match input.current_balance {
                    Some(b) => b,
                    None => 0,
                },
            ),
            yearly_amount: input.yearly_amount,
            target_month: input.target_month,
            current_saved: Some(
                match input.current_saved {
                    Some(b) => b,
                    None => 0,
                },
            ),
            account_id: input.account_id,
            notes: input.notes,
            is_active: true,
        };
        let out = row.clone_row();
        self.financial_goals.push(row);
        proof {
            lemma_store_view(*self);
            let m = store_model(*old(self));
            assert(self@ =~= (StoreModel {
                next_id: m.next_id + 1,
                financial_goals: m.financial_goals.push(out),
                ..m
            }));
            assert(financial_goal_ids(m.financial_goals.push(out)) =~= financial_goal_ids(
                m.financial_goals,
            ).push(id));
            lemma_ids_ok_push(financial_goal_ids(m.financial_goals), m.next_id);
        }
        Ok(out)
    }

    /// List every active financial goal, in insertion order; a name-sorted
    /// display is done at the edge.
    pub fn get_financial_goals(&self) -> (r: Vec<FinancialGoal>)
        ensures
            r@ == self@.financial_goals.filter(|g: FinancialGoal| g.is_active),
    {
        proof {
            lemma_store_view(*self);
        }
        let n = self.financial_goals.len();
        let mut out: Vec<FinancialGoal> = Vec::new();
        let mut i: usize = 0;
        while i < n
            invariant
                n == self.financial_goals.len(),
                0 <= i <= n,
                out@ == self.financial_goals@.take(i as int).filter(
                    |g: FinancialGoal| g.is_active,
                ),
            decreases n - i,
        {
            let ghost pred = |g: FinancialGoal| g.is_active;
            let ghost prefix = self.financial_goals@.take(i as int);
            let ghost prefix2 = self.financial_goals@.take(i as int + 1);
            proof {
                assert(prefix2.drop_last() =~= prefix);
                assert(prefix2.last() == self.financial_goals@[i as int]);
            }
            if self.financial_goals[i].is_active {
                out.push(self.financial_goals[i].clone_row());
                proof {
                    reveal(Seq::filter);
                    assert(prefix2.filter(pred) == prefix.filter(pred).push(prefix2.last()));
                }
            } else {
                proof {
                    reveal(Seq::filter);
                    assert(prefix2.filter(pred) == prefix.filter(pred));
                }
            }
            i = i + 1;
        }
        proof {
            assert(self.financial_goals@.take(n as int) =~= self.financial_goals@);
        }
        out
    }

    /// Rewrite a financial goal's fields, its balances included.
    pub fn update_financial_goal(&mut self, id: i64, input: UpdateGoalInput) -> (r: Result<
        FinancialGoal,
        AppError,
    >)
        requires
            old(self)@.wf(),
        ensures
            final(self)@.wf(),
            r is Ok <==> has_financial_goal(old(self)@.financial_goals, id),
            r matches Ok(g) ==> exists|j: int|
                0 <= j < old(self)@.financial_goals.len() && (
                #[trigger] old(self)@.financial_goals[j]).id == id && updated_goal_ok(
                    g,
                    old(self)@.financial_goals[j],
                    input,
                ) && final(self)@ == (StoreModel {
                    financial_goals: old(self)@.financial_goals.update(j, g),
                    ..old(self)@
                }),
            r is Err ==> final(self)@ == old(self)@ && r->Err_0 is NotFound,
    {
        match self.find_goal_idx(id) {
            Some(i) => {
                proof {
                    lemma_store_view(*old(self));
                }
                let old_row = self.financial_goals.remove(i);
                let row = FinancialGoal {
                    id: old_row.id,
                    name: input.name,
                    goal_type: input.goal_type,
                    icon: input.icon,
                    color: input.color,
                    weekly_amount: input.weekly_amount,
                    day_of_week: input.day_of_week,
                    monthly_contribution: input.monthly_contribution,
                    current_balance: input.current_balance,
                    yearly_amount: input.yearly_amount,
                    target_month: input.target_month,
                    current_saved: input.current_saved,
                    account_id: input.account_id,
                    notes: input.notes,
                    is_active: input.is_active,
                };
                let out = row.clone_row();
                self.financial_goals.insert(i, row);
                proof {
                    lemma_store_view(*self);
                    let m = store_model(*old(self));
                    assert(self.financial_goals@ =~= old(self).financial_goals@.update(
                        i as int,
                        out,
                    ));
                    assert(self@ =~= (StoreModel {
                        financial_goals: m.financial_goals.update(i as int, out),
                        ..m
                    }));
                    assert(financial_goal_ids(m.financial_goals.update(i as int, out))
                        =~= financial_goal_ids(m.financial_goals));
                }
                Ok(out)
            },
            None => Err(AppError::NotFound("financial goal not found".to_owned())),
        }
    }

    /// Soft-delete a financial goal: clear its active flag.  Deleting a
    /// missing goal is a no-op.
    pub fn delete_financial_goal(&mut self, id: i64) -> (r: Result<(), AppError>)
        requires
            old(self)@.wf(),
        ensures
            final(self)@.wf(),
            r is Ok,
            !has_financial_goal(old(self)@.financial_goals, id) ==> final(self)@ == old(self)@,
            has_financial_goal(old(self)@.financial_goals, id) ==> exists|j: int|
                0 <= j < old(self)@.financial_goals.len() && (
                #[trigger] old(self)@.financial_goals[j]).id == id && final(self)@ == (StoreModel {
                    financial_goals: old(self)@.financial_goals.update(
                        j,
                        FinancialGoal { is_active: false, ..old(self)@.financial_goals[j] },
                    ),
                    ..old(self)@
                }),
    {
        match self.find_goal_idx(id) {
            Some(i) => {
                proof {
                    lemma_store_view(*old(self));
                }
                let mut row = self.financial_goals.remove(i);
                row.is_active = false;
                self.financial_goals.insert(i, row);
                proof {
                    lemma_store_view(*self);
                    let m = store_model(*old(self));
                    let g2 = FinancialGoal { is_active: false, ..m.financial_goals[i as int] };
                    assert(self.financial_goals@ =~= old(self).financial_goals@.update(
                        i as int,
                        self.financial_goals@[i as int],
                    ));
                    assert(self.financial_goals@[i as int] == g2);
                    assert(self@ =~= (StoreModel {
                        financial_goals: m.financial_goals.update(i as int, g2),
                        ..m
                    }));
                    assert(financial_goal_ids(m.financial_goals.update(i as int, g2))
                        =~= financial_goal_ids(m.financial_goals));
                }
                Ok(())
            },
            None => Ok(()),
        }
    }

    /// Apply `delta` to a goal's tracked fund balance: the found row's
    /// balance moves by `delta`; a goal without a balance, like a missing
    /// goal, is left untouched.
    fn adjust_fund_balance(&mut self, goal_id: i64, delta: i128) -> (ok: bool)
        requires
            old(self)@.wf(),
            -(i64::MAX as int) - 1 <= delta as int <= (i64::MAX as int) + 1,
        ensures
            final(self)@.wf(),
            ({
                let gs = old(self)@.financial_goals;
                &&& (ok <==> (forall|j: int|
                    0 <= j < gs.len() && (#[trigger] gs[j]).id == goal_id ==> fund_delta_ok(
                        gs[j],
                        delta as int,
                    )))
                &&& (!ok ==> final(self)@ == old(self)@)
                &&& (ok && !has_financial_goal(gs, goal_id) ==> final(self)@ == old(self)@)
                &&& (ok && has_financial_goal(gs, goal_id) ==> exists|j: int|
                    0 <= j < gs.len() && (#[trigger] gs[j]).id == goal_id && fund_adjusted_ok(
                        final(self)@.financial_goals[j],
                        gs[j],
                        delta as int,
                    ) && final(self)@ == (StoreModel {
                        financial_goals: gs.update(j, final(self)@.financial_goals[j]),
                        ..old(self)@
                    }))
            }),
    {
        proof {
            lemma_store_view(*old(self));
        }
        let n = self.financial_goals.len();
        let mut i: usize = 0;
        while i < n
            invariant
                n == self.financial_goals.len(),
                0 <= i <= n,
                *self == *old(self),
                old(self)@.wf(),
                -(i64::MAX as int) - 1 <= delta as int <= (i64::MAX as int) + 1,
                forall|j: int| 0 <= j < i ==> (#[trigger] self.financial_goals@[j]).id != goal_id,
            decreases n - i,
        {
            if self.financial_goals[i].id == goal_id {
                match self.financial_goals[i].current_balance {
                    None => {
                        proof {
                            lemma_store_view(*self);
                            lemma_store_view(*old(self));
                            let m = store_model(*old(self));
                            assert forall|j: int|
                                0 <= j < m.financial_goals.len() && (
                                #[trigger] m.financial_goals[j]).id == goal_id
                                implies fund_delta_ok(m.financial_goals[j], delta as int) by {
                                if j != i {
                                    assert(financial_goal_ids(m.financial_goals)[j]
                                        == m.financial_goals[j].id);
                                    assert(financial_goal_ids(m.financial_goals)[i as int]
                                        == m.financial_goals[i as int].id);
                                }
                            }
                            assert(self@.financial_goals[i as int] == m.financial_goals[i as int]);
                            assert(m.financial_goals.update(i as int, m.financial_goals[i as int])
                                =~= m.financial_goals);
                            assert(self@ =~= (StoreModel {
                                financial_goals: m.financial_goals.update(
                                    i as int,
                                    m.financial_goals[i as int],
                                ),
                                ..m
                            }));
                        }
                        return true;
                    },
                    Some(b) => {
                        let nb: i128 = (b as i128) + delta;
                        if nb < (i64::MIN as i128) || nb > (i64::MAX as i128) {
                            proof {
                                lemma_store_view(*self);
                                lemma_store_view(*old(self));
                                let m = store_model(*old(self));
                                assert(m.financial_goals[i as int].id == goal_id);
                                assert(!fund_delta_ok(m.financial_goals[i as int], delta as int));
                            }
                            return false;
                        }
                        let mut row = self.financial_goals.remove(i);
                        row.current_balance = Some(nb as i64);
                        self.financial_goals.insert(i, row);
                        proof {
                            lemma_store_view(*self);
                            lemma_store_view(*old(self));
                            let m = store_model(*old(self));
                            let g2 = FinancialGoal {
                                current_balance: Some((b + delta as int) as i64),
                                ..m.financial_goals[i as int]
                            };
                            assert(self.financial_goals@ =~= old(self).financial_goals@.update(
                                i as int,
                                self.financial_goals@[i as int],
                            ));
                            assert(self.financial_goals@[i as int] == g2);
                            assert(self@ =~= (StoreModel {
                                financial_goals: m.financial_goals.update(i as int, g2),
                                ..m
                            }));
                            assert(financial_goal_ids(m.financial_goals.update(i as int, g2))
                                =~= financial_goal_ids(m.financial_goals));
                            assert forall|j: int|
                                0 <= j < m.financial_goals.len() && (
                                #[trigger] m.financial_goals[j]).id == goal_id
                                implies fund_delta_ok(m.financial_goals[j], delta as int) by {
                                if j != i {
                                    assert(financial_goal_ids(m.financial_goals)[j]
                                        == m.financial_goals[j].id);
                                    assert(financial_goal_ids(m.financial_goals)[i as int]
                                        == m.financial_goals[i as int].id);
                                }
                            }
                        }
                        return true;
                    },
                }
            }
            i = i + 1;
        }
        proof {
            lemma_store_view(*self);
            lemma_store_view(*old(self));
            let m = store_model(*old(self));
            assert forall|j: int|
                0 <= j < m.financial_goals.len() implies (#[trigger] m.financial_goals[j]).id
                != goal_id by {
                assert(m.financial_goals[j] == self.financial_goals@[j]);
            }
        }
        true
    }

    /// Record a withdrawal from a fund: the row is persisted first, then
    /// the goal's tracked balance is lowered by the amount.  A goal
    /// without a tracked balance, like a missing goal, leaves the balance
    /// side untouched; an unrepresentable balance fails after the row is
    /// already recorded, as in the non-transactional store.
    pub fn create_fund_withdrawal(&mut self, input: CreateWithdrawalInput, today: Date) -> (r:
        Result<FundWithdrawal, AppError>)
        requires
            old(self)@.wf(),
        ensures
            final(self)@.wf(),
            ({
                let m = old(self)@;
                let gs = m.financial_goals;
                let can = forall|j: int|
                    0 <= j < gs.len() && (#[trigger] gs[j]).id == input.goal_id ==> fund_delta_ok(
                        gs[j],
                        -(input.amount as int),
                    );
                &&& (m.next_id == i64::MAX ==> (r matches Err(e) && e is Internal && final(self)@
                    == m))
                &&& (r is Ok <==> m.next_id < i64::MAX && can)
                &&& (r matches Ok(w) ==> w.id == m.next_id as i64 && w.goal_id == input.goal_id
                    && w.amount == input.amount && w.description == input.description && w.date
                    == (match input.date {
                    Some(d) => d,
                    None => today,
                }) && (if has_financial_goal(gs, input.goal_id) {
                    exists|j: int|
                        0 <= j < gs.len() && (#[trigger] gs[j]).id == input.goal_id
                            && fund_adjusted_ok(
                            final(self)@.financial_goals[j],
                            gs[j],
                            -(input.amount as int),
                        ) && final(self)@ == (StoreModel {
                            next_id: m.next_id + 1,
                            fund_withdrawals: m.fund_withdrawals.push(w),
                            financial_goals: gs.update(j, final(self)@.financial_goals[j]),
                            ..m
                        })
                } else {
                    final(self)@ == (StoreModel {
                        next_id: m.next_id + 1,
                        fund_withdrawals: m.fund_withdrawals.push(w),
                        ..m
                    })
                }))
                &&& (m.next_id < i64::MAX && !can ==> (r matches Err(e) && e is Database && exists|
                    w: FundWithdrawal,
                |
                    w.id == m.next_id as i64 && w.goal_id == input.goal_id && w.amount
                        == input.amount && w.description == input.description && w.date == (
                    match input.date {
                        Some(d) => d,
                        None => today,
                    }) && final(self)@ == (StoreModel {
                        next_id: m.next_id + 1,
                        fund_withdrawals: m.fund_withdrawals.push(w),
                        ..m
                    })))
            }),
    {
        proof {
            lemma_store_view(*old(self));
        }
        if self.next_id == i64::MAX {
            return Err(AppError::Internal("store identifiers exhausted".to_owned()));
        }
        let id = self.next_id;
        self.next_id = self.next_id + 1;
        let row = FundWithdrawal {
            id,
            goal_id: input.goal_id,
            amount: input.amount,
            description: input.description,
            date: match input.date {
                Some(d) => d,
                None => today,
            },
        };
        let out = row.clone_row();
        self.fund_withdrawals.push(row);
        let ghost mid = StoreModel {
            next_id: old(self)@.next_id + 1,
            fund_withdrawals: old(self)@.fund_withdrawals.push(out),
            ..old(self)@
        };
        proof {
            lemma_store_view(*self);
            let m = store_model(*old(self));
            assert(self@ =~= mid);
            assert(withdrawal_ids(m.fund_withdrawals.push(out)) =~= withdrawal_ids(
                m.fund_withdrawals,
            ).push(id));
            lemma_ids_ok_push(withdrawal_ids(m.fund_withdrawals), m.next_id);
            assert(mid.wf());
        }
        let ok = self.adjust_fund_balance(input.goal_id, -(input.amount as i128));
        if !ok {
            proof {
                assert(self@ == mid);
            }
            return Err(AppError::Database("fund balance out of range".to_owned()));
        }
        proof {
            let m = old(self)@;
            let gs = m.financial_goals;
            if has_financial_goal(gs, input.goal_id) {
                let j = choose|j: int|
                    0 <= j < gs.len() && (#[trigger] gs[j]).id == input.goal_id
                        && fund_adjusted_ok(
                        self@.financial_goals[j],
                        gs[j],
                        -(input.amount as int),
                    ) && self@ == (StoreModel {
                        financial_goals: gs.update(j, self@.financial_goals[j]),
                        ..mid
                    });
                assert(self@ =~= (StoreModel {
                    next_id: m.next_id + 1,
                    fund_withdrawals: m.fund_withdrawals.push(out),
                    financial_goals: gs.update(j, self@.financial_goals[j]),
                    ..m
                }));
            } else {
                assert(self@ =~= (StoreModel {
                    next_id: m.next_id + 1,
                    fund_withdrawals: m.fund_withdrawals.push(out),
                    ..m
                }));
            }
        }
        Ok(out)
    }

    /// List one goal's withdrawals, in insertion order; a newest-first
    /// display is done at the edge.
    pub fn get_fund_withdrawals(&self, goal_id: i64) -> (r: Vec<FundWithdrawal>)
        ensures
            r@ == self@.fund_withdrawals.filter(|w: FundWithdrawal| w.goal_id == goal_id),
    {
        proof {
            lemma_store_view(*self);
        }
        let n = self.fund_withdrawals.len();
        let mut out: Vec<FundWithdrawal> = Vec::new();
        let mut i: usize = 0;
        while i < n
            invariant
                n == self.fund_withdrawals.len(),
                0 <= i <= n,
                out@ == self.fund_withdrawals@.take(i as int).filter(
                    |w: FundWithdrawal| w.goal_id == goal_id,
                ),
            decreases n - i,
        {
            let ghost pred = |w: FundWithdrawal| w.goal_id == goal_id;
            let ghost prefix = self.fund_withdrawals@.take(i as int);
            let ghost prefix2 = self.fund_withdrawals@.take(i as int + 1);
            proof {
                assert(prefix2.drop_last() =~= prefix);
                assert(prefix2.last() == self.fund_withdrawals@[i as int]);
            }
            if self.fund_withdrawals[i].goal_id == goal_id {
                out.push(self.fund_withdrawals[i].clone_row());
                proof {
                    reveal(Seq::filter);
                    assert(prefix2.filter(pred) == prefix.filter(pred).push(prefix2.last()));
                }
            } else {
                proof {
                    reveal(Seq::filter);
                    assert(prefix2.filter(pred) == prefix.filter(pred));
                }
            }
            i = i + 1;
        }
        proof {
            assert(self.fund_withdrawals@.take(n as int) =~= self.fund_withdrawals@);
        }
        out
    }

    /// Add a contribution to a goal's tracked fund balance and return the
    /// updated row.
    pub fn add_fund_contribution(&mut self, goal_id: i64, amount: i64) -> (r: Result<
        FinancialGoal,
        AppError,
    >)
        requires
            old(self)@.wf(),
        ensures
            final(self)@.wf(),
            ({
                let gs = old(self)@.financial_goals;
                let can = forall|j: int|
                    0 <= j < gs.len() && (#[trigger] gs[j]).id == goal_id ==> fund_delta_ok(
                        gs[j],
                        amount as int,
                    );
                &&& (r is Ok <==> has_financial_goal(gs, goal_id) && can)
                &&& (r is Err ==> final(self)@ == old(self)@)
                &&& (r matches Err(e) ==> (if has_financial_goal(gs, goal_id) {
                    e is Database
                } else {
                    e is NotFound
                }))
                &&& (r matches Ok(g) ==> exists|j: int|
                    0 <= j < gs.len() && (#[trigger] gs[j]).id == goal_id && fund_adjusted_ok(
                        g,
                        gs[j],
                        amount as int,
                    ) && final(self)@ == (StoreModel {
                        financial_goals: gs.update(j, g),
                        ..old(self)@
                    }))
            }),
    {
        proof {
            lemma_store_view(*old(self));
        }
        let n = self.financial_goals.len();
        let mut i: usize = 0;
        while i < n
            invariant
                n == self.financial_goals.len(),
                0 <= i <= n,
                *self == *old(self),
                old(self)@.wf(),
                forall|j: int| 0 <= j < i ==> (#[trigger] self.financial_goals@[j]).id != goal_id,
            decreases n - i,
        {
            if self.financial_goals[i].id == goal_id {
                proof {
                    lemma_store_view(*self);
                    lemma_store_view(*old(self));
                    let m = store_model(*old(self));
                    assert forall|j: int|
                        0 <= j < m.financial_goals.len() && (#[trigger] m.financial_goals[j]).id
                            == goal_id implies j == i by {
                        if j != i {
                            assert(financial_goal_ids(m.financial_goals)[j]
                                == m.financial_goals[j].id);
                            assert(financial_goal_ids(m.financial_goals)[i as int]
                                == m.financial_goals[i as int].id);
                        }
                    }
                }
                match self.financial_goals[i].current_balance {
                    None => {
                        let g = self.financial_goals[i].clone_row();
                        proof {
                            lemma_store_view(*self);
                            let m = store_model(*old(self));
                            assert(m.financial_goals.update(i as int, g) =~= m.financial_goals);
                            assert(self@ =~= (StoreModel {
                                financial_goals: m.financial_goals.update(i as int, g),
                                ..m
                            }));
                        }
                        return Ok(g);
                    },
                    Some(b) => {
                        let nb: i128 = (b as i128) + (amount as i128);
                        if nb < (i64::MIN as i128) || nb > (i64::MAX as i128) {
                            proof {
                                let m = store_model(*old(self));
                                assert(m.financial_goals[i as int].id == goal_id);
                                assert(!fund_delta_ok(m.financial_goals[i as int], amount as int));
                            }
                            return Err(
                                AppError::Database("fund balance out of range".to_owned()),
                            );
                        }
                        let mut row = self.financial_goals.remove(i);
                        row.current_balance = Some(nb as i64);
                        let g = row.clone_row();
                        self.financial_goals.insert(i, row);
                        proof {
                            lemma_store_view(*self);
                            let m = store_model(*old(self));
                            assert(self.financial_goals@ =~= old(self).financial_goals@.update(
                                i as int,
                                g,
                            ));
                            assert(fund_adjusted_ok(g, m.financial_goals[i as int], amount as int));
                            assert(self@ =~= (StoreModel {
                                financial_goals: m.financial_goals.update(i as int, g),
                                ..m
                            }));
                            assert(financial_goal_ids(m.financial_goals.update(i as int, g))
                                =~= financial_goal_ids(m.financial_goals));
                        }
                        return Ok(g);
                    },
                }
            }
            i = i + 1;
        }
        proof {
            lemma_store_view(*self);
            lemma_store_view(*old(self));
            let m = store_model(*old(self));
            assert forall|j: int|
                0 <= j < m.financial_goals.len() implies (#[trigger] m.financial_goals[j]).id
                != goal_id by {
                assert(m.financial_goals[j] == self.financial_goals@[j]);
            }
        }
        Err(AppError::NotFound("financial goal not found".to_owned()))
    }
}


impl Store {
    /// The index of the plan row carrying this goal, year and month, if
    /// any.
    pub(crate) fn find_plan_idx(&self, goal_id: i64, year: i32, month: i32) -> (r: Option<usize>)
        ensures
            r matches Some(j) ==> j < self@.monthly_plans.len()
                && self@.monthly_plans[j as int].goal_id == goal_id
                && self@.monthly_plans[j as int].year == year
                && self@.monthly_plans[j as int].month == month,
            r matches Some(j) ==> j < self.monthly_plans@.len(),
            r is None ==> !has_plan_key(self@.monthly_plans, goal_id, year, month),
    {
        proof {
            lemma_store_view(*self);
        }
        let n = self.monthly_plans.len();
        let mut i: usize = 0;
        while i < n
            invariant
                n == self.monthly_plans.len(),
                0 <= i <= n,
                forall|j: int|
                    0 <= j < i ==> !((#[trigger] self.monthly_plans@[j]).goal_id == goal_id
                        && self.monthly_plans@[j].year == year && self.monthly_plans@[j].month
                        == month),
            decreases n - i,
        {
            if self.monthly_plans[i].goal_id == goal_id && self.monthly_plans[i].year == year
                && self.monthly_plans[i].month == month {
                proof {
                    lemma_store_view(*self);
                }
                return Some(i);
            }
            i = i + 1;
        }
        proof {
            lemma_store_view(*self);
        }
        None
    }

    /// The plan stored for a goal's month, if one exists.
    pub fn get_monthly_plan(&self, goal_id: i64, year: i32, month: i32) -> (r: Result<
        Option<MonthlyPlan>,
        AppError,
    >)
        ensures
            r is Ok,
            r matches Ok(o) ==> (o is Some <==> has_plan_key(
                self@.monthly_plans,
                goal_id,
                year,
                month,
            )),
            r matches Ok(o) && o matches Some(p) ==> exists|j: int|
                0 <= j < self@.monthly_plans.len() && (#[trigger] self@.monthly_plans[j]).goal_id
                    == goal_id && self@.monthly_plans[j].year == year
                    && self@.monthly_plans[j].month == month && p == self@.monthly_plans[j],
    {
        match self.find_plan_idx(goal_id, year, month) {
            Some(i) => {
                let p = self.monthly_plans[i].clone_row();
                proof {
                    lemma_store_view(*self);
                }
                Ok(Some(p))
            },
            None => Ok(None),
        }
    }

    /// Write a goal's plan for a month: the stored row for that key is
    /// overwritten, or a fresh row inserted when none exists — the
    /// store's conflict-or-insert on the (goal, year, month) key.
    pub fn create_or_update_monthly_plan(
        &mut self,
        goal_id: i64,
        year: i32,
        month: i32,
        planned_count: i32,
        realized_count: i32,
        planned_amount: i64,
        realized_amount: i64,
        notes: Option<String>,
    ) -> (r: Result<MonthlyPlan, AppError>)
        requires
            old(self)@.wf(),
        ensures
            final(self)@.wf(),
            ({
                let ps = old(self)@.monthly_plans;
                &&& (has_plan_key(ps, goal_id, year, month) ==> (r matches Ok(p) && exists|j: int|
                    0 <= j < ps.len() && (#[trigger] ps[j]).goal_id == goal_id && ps[j].year
                        == year && ps[j].month == month && plan_written_ok(
                        p,
                        ps[j],
                        planned_count,
                        realized_count,
                        planned_amount,
                        realized_amount,
                        notes,
                    ) && final(self)@ == (StoreModel {
                        monthly_plans: ps.update(j, p),
                        ..old(self)@
                    })))
                &&& (!has_plan_key(ps, goal_id, year, month) ==> {
                    &&& (r is Ok <==> old(self)@.next_id < i64::MAX)
                    &&& (r matches Ok(p) ==> p.id == old(self)@.next_id as i64 && p.goal_id
                        == goal_id && p.year == year && p.month == month && p.planned_count
                        == planned_count && p.realized_count == realized_count && p.planned_amount
                        == planned_amount && p.realized_amount == realized_amount && p.notes
                        == notes && final(self)@ == (StoreModel {
                        next_id: old(self)@.next_id + 1,
                        monthly_plans: ps.push(p),
                        ..old(self)@
                    }))
                    &&& (r is Err ==> final(self)@ == old(self)@ && r->Err_0 is Internal)
                })
            }),
    {
        proof {
            lemma_store_view(*old(self));
        }
        match self.find_plan_idx(goal_id, year, month) {
            Some(i) => {
                let old_row = self.monthly_plans.remove(i);
                let row = MonthlyPlan {
                    id: old_row.id,
                    goal_id: old_row.goal_id,
                    year: old_row.year,
                    month: old_row.month,
                    planned_count,
                    realized_count,
                    planned_amount,
                    realized_amount,
                    notes,
                };
                let out = row.clone_row();
                self.monthly_plans.insert(i, row);
                proof {
                    lemma_store_view(*self);
                    let m = store_model(*old(self));
                    assert(self.monthly_plans@ =~= old(self).monthly_plans@.update(i as int, out));
                    assert(self@ =~= (StoreModel {
                        monthly_plans: m.monthly_plans.update(i as int, out),
                        ..m
                    }));
                    assert(plan_ids(m.monthly_plans.update(i as int, out)) =~= plan_ids(
                        m.monthly_plans,
                    ));
                    let ps2 = m.monthly_plans.update(i as int, out);
                    assert forall|a: int, b: int|
                        #![trigger ps2[a], ps2[b]]
                        0 <= a < b < ps2.len() implies !(ps2[a].goal_id == ps2[b].goal_id
                        && ps2[a].year == ps2[b].year && ps2[a].month == ps2[b].month) by {
                        if a != i && b != i {
                            assert(ps2[a] == m.monthly_plans[a]);
                            assert(ps2[b] == m.monthly_plans[b]);
                        } else if a == i {
                            assert(ps2[b] == m.monthly_plans[b]);
                        } else {
                            assert(ps2[a] == m.monthly_plans[a]);
                        }
                    }
                    assert(crate::store::plan_keys_unique(ps2));
                }
                Ok(out)
            },
            None => {
                if self.next_id == i64::MAX {
                    return Err(AppError::Internal("store identifiers exhausted".to_owned()));
                }
                let id = self.next_id;
                self.next_id = self.next_id + 1;
                let row = MonthlyPlan {
                    id,
                    goal_id,
                    year,
                    month,
                    planned_count,
                    realized_count,
                    planned_amount,
                    realized_amount,
                    notes,
                };
                let out = row.clone_row();
                self.monthly_plans.push(row);
                proof {
                    lemma_store_view(*self);
                    let m = store_model(*old(self));
                    assert(self@ =~= (StoreModel {
                        next_id: m.next_id + 1,
                        monthly_plans: m.monthly_plans.push(out),
                        ..m
                    }));
                    assert(plan_ids(m.monthly_plans.push(out)) =~= plan_ids(
                        m.monthly_plans,
                    ).push(id));
                    lemma_ids_ok_push(plan_ids(m.monthly_plans), m.next_id);
                    let ps2 = m.monthly_plans.push(out);
                    assert forall|a: int, b: int|
                        #![trigger ps2[a], ps2[b]]
                        0 <= a < b < ps2.len() implies !(ps2[a].goal_id == ps2[b].goal_id
                        && ps2[a].year == ps2[b].year && ps2[a].month == ps2[b].month) by {
                        if b < m.monthly_plans.len() {
                            assert(ps2[a] == m.monthly_plans[a]);
                            assert(ps2[b] == m.monthly_plans[b]);
                        } else {
                            assert(ps2[b] == out);
                            assert(ps2[a] == m.monthly_plans[a]);
                        }
                    }
                    assert(crate::store::plan_keys_unique(ps2));
                }
                Ok(out)
            },
        }
    }

    /// A goal's most recently recorded plans, up to `limit` of them
    /// (twelve when unset; a negative limit means no cap), in insertion
    /// order.
    pub fn get_monthly_plans_history(&self, goal_id: i64, limit: Option<i32>) -> (r: Vec<
        MonthlyPlan,
    >)
        ensures
            ({
                let all = self@.monthly_plans.filter(|p: MonthlyPlan| p.goal_id == goal_id);
                let lim = (match limit {
                    Some(l) => l,
                    None => 12,
                }) as int;
                if lim < 0 || all.len() <= lim {
                    r@ == all
                } else {
                    r@ == all.subrange(all.len() - lim, all.len() as int)
                }
            }),
    {
        proof {
            lemma_store_view(*self);
        }
        let n = self.monthly_plans.len();
        let mut all: Vec<MonthlyPlan> = Vec::new();
        let mut i: usize = 0;
        while i < n
            invariant
                n == self.monthly_plans.len(),
                0 <= i <= n,
                all@ == self.monthly_plans@.take(i as int).filter(
                    |p: MonthlyPlan| p.goal_id == goal_id,
                ),
            decreases n - i,
        {
            let ghost pred = |p: MonthlyPlan| p.goal_id == goal_id;
            let ghost prefix = self.monthly_plans@.take(i as int);
            let ghost prefix2 = self.monthly_plans@.take(i as int + 1);
            proof {
                assert(prefix2.drop_last() =~= prefix);
                assert(prefix2.last() == self.monthly_plans@[i as int]);
            }
            if self.monthly_plans[i].goal_id == goal_id {
                all.push(self.monthly_plans[i].clone_row());
                proof {
                    reveal(Seq::filter);
                    assert(prefix2.filter(pred) == prefix.filter(pred).push(prefix2.last()));
                }
            } else {
                proof {
                    reveal(Seq::filter);
                    assert(prefix2.filter(pred) == prefix.filter(pred));
                }
            }
            i = i + 1;
        }
        proof {
            assert(self.monthly_plans@.take(n as int) =~= self.monthly_plans@);
        }
        let lim = match limit {
            Some(l) => l,
            None => 12,
        };
        if lim < 0 || all.len() <= lim as usize {
            return all;
        }
        let start = all.len() - lim as usize;
        let mut out: Vec<MonthlyPlan> = Vec::new();
        let mut k: usize = start;
        while k < all.len()
            invariant
                start <= k <= all@.len(),
                start == all@.len() - lim,
                0 <= lim,
                out@ == all@.subrange(start as int, k as int),
            decreases all@.len() - k,
        {
            out.push(all[k].clone_row());
            proof {
                assert(all@.subrange(start as int, k as int + 1) =~= all@.subrange(
                    start as int,
                    k as int,
                ).push(all@[k as int]));
            }
            k = k + 1;
        }
        out
    }
}

} // verus!
