//! The recurring-payment scheduler: payment rows, and the sweep that
//! materialises every due payment into a completed expense transaction.
//!
//! A payment is due when it is active and its next execution date is on or
//! before the sweep day.  The sweep posts one transaction per due payment,
//! applies the balance effect directly, and advances the payment's dates;
//! it never deactivates a payment.  The sweep is deliberately not
//! idempotent per day: a payment whose recomputed next date has not passed
//! the sweep day is posted again by the next sweep.

use crate::date::{
    calculate_next_execution_date, date_le, date_le_spec, frequency_of, next_occurrence_spec,
    parse_frequency, Date,
};
use crate::error::AppError;
use crate::ledger::{
    apply_delta, apply_legs, can_apply_leg, ledger_balanced, lemma_legs_one,
    lemma_post_preserves_balance, tx_legs,
};
use crate::store::{
    lemma_ids_ok_push, lemma_ids_ok_remove, lemma_store_view, recurring_ids, store_model, Store,
    StoreModel,
};
use crate::types::{
    CreateRecurringPaymentInput, RecurringPayment, Transaction, TxStatus, TxType,
    UpdateRecurringPaymentInput,
};
use vstd::prelude::*;

verus! {

/// Some recurring-payment row carries this identifier.
pub open spec fn has_recurring(recs: Seq<RecurringPayment>, id: i64) -> bool {
    exists|j: int| 0 <= j < recs.len() && (#[trigger] recs[j]).id == id
}

/// The row that creating a recurring payment from `input` produces: its
/// first next execution date is computed from the creation day, and it has
/// never executed.
pub open spec fn created_recurring_ok(
    p: RecurringPayment,
    input: CreateRecurringPaymentInput,
    id: i64,
    today: Date,
) -> bool {
    &&& p.id == id
    &&& p.name == input.name
    &&& p.amount == input.amount
    &&& (match input.currency {
        Some(c) => p.currency == c,
        None => p.currency@ == "CZK"@,
    })
    &&& p.frequency == frequency_of(input.frequency@)
    &&& p.frequency_value == (match input.frequency_value {
        Some(v) => v,
        None => 1,
    })
    &&& p.day_of_period == input.day_of_period
    &&& p.account_id == input.account_id
    &&& p.category_id == input.category_id
    &&& p.description == input.description
    &&& p.active == true
    &&& p.next_execution_date == Some(
        next_occurrence_spec(p.frequency, p.frequency_value as int, p.day_of_period, today),
    )
    &&& p.last_execution_date is None
}

/// The row that updating a recurring payment with `input` leaves behind:
/// the listed fields are rewritten; the execution dates, which the
/// scheduler owns, keep their stored values.
pub open spec fn updated_recurring_ok(
    p2: RecurringPayment,
    p: RecurringPayment,
    input: UpdateRecurringPaymentInput,
) -> bool {
    &&& p2.id == p.id
    &&& p2.name == input.name
    &&& p2.amount == input.amount
    &&& p2.currency == input.currency
    &&& p2.frequency == frequency_of(input.frequency@)
    &&& p2.frequency_value == input.frequency_value
    &&& p2.day_of_period == input.day_of_period
    &&& p2.account_id == input.account_id
    &&& p2.category_id == input.category_id
    &&& p2.description == input.description
    &&& p2.active == input.active
    &&& p2.next_execution_date == p.next_execution_date
    &&& p2.last_execution_date == p.last_execution_date
}

/// A payment the sweep must materialise on `today`: active, with a next
/// execution date on or before `today`.
pub open spec fn payment_due(p: RecurringPayment, today: Date) -> bool {
    p.active && (p.next_execution_date matches Some(d) && date_le_spec(d, today))
}

/// The completed expense transaction that posting payment `p` on `today`
/// inserts, under the fresh identifier `id`.
pub open spec fn posting_of(p: RecurringPayment, today: Date, id: i64) -> Transaction {
    Transaction {
        id,
        date: today,
        amount: p.amount,
        currency: p.currency,
        transaction_type: TxType::Expense,
        from_account_id: Some(p.account_id),
        to_account_id: None,
        category_id: p.category_id,
        description: p.description,
        owner_user_id: None,
        is_shared: false,
        status: TxStatus::Completed,
        recurring_payment_id: Some(p.id),
        flow_group_id: None,
        notes: None,
    }
}

/// Payment `p` after the sweep has posted it on `today`: its last
/// execution is `today` and its next one is recomputed from `today`.
pub open spec fn advanced_payment(p: RecurringPayment, today: Date) -> RecurringPayment {
    RecurringPayment {
        next_execution_date: Some(
            next_occurrence_spec(p.frequency, p.frequency_value as int, p.day_of_period, today),
        ),
        last_execution_date: Some(today),
        ..p
    }
}

/// How a sweep ended: every due payment posted, the identifier counter
/// exhausted, or a balance the store cannot represent.
#[derive(Clone, Copy, Debug, PartialEq, Eq, Structural)]
pub enum SweepOutcome {
    Done,
    IdsExhausted,
    BalanceOverflow,
}

/// The sweep, processing payments from index `i` onward in store order.
/// Posting a payment inserts its transaction row first, then applies the
/// balance effect (a missing account is tolerated), then advances the
/// payment.  A failure stops the sweep where it stands, leaving the
/// already-processed prefix in place — exactly the partial state the
/// non-transactional store would be left in.
pub open spec fn sweep_from(m: StoreModel, today: Date, i: int) -> (StoreModel, SweepOutcome)
    decreases m.recurring.len() - i,
{
    if i < 0 || i >= m.recurring.len() {
        (m, SweepOutcome::Done)
    } else {
        let p = m.recurring[i];
        if !payment_due(p, today) {
            sweep_from(m, today, i + 1)
        } else if m.next_id >= i64::MAX {
            (m, SweepOutcome::IdsExhausted)
        } else {
            let t = posting_of(p, today, m.next_id as i64);
            let m1 = StoreModel {
                next_id: m.next_id + 1,
                transactions: m.transactions.push(t),
                ..m
            };
            if !can_apply_leg(m1.accounts, p.account_id, -(p.amount as int)) {
                (m1, SweepOutcome::BalanceOverflow)
            } else {
                let m2 = StoreModel {
                    accounts: apply_delta(m1.accounts, p.account_id, -(p.amount as int)),
                    ..m1
                };
                let m3 = StoreModel {
                    recurring: m2.recurring.update(i, advanced_payment(p, today)),
                    ..m2
                };
                sweep_from(m3, today, i + 1)
            }
        }
    }
}

/// A whole sweep of the store on `today`.
pub open spec fn sweep_spec(m: StoreModel, today: Date) -> (StoreModel, SweepOutcome) {
    sweep_from(m, today, 0)
}

impl Store {
    /// The index of the recurring-payment row with this identifier, if any.
    pub(crate) fn find_recurring_idx(&self, id: i64) -> (r: Option<usize>)
        ensures
            r matches Some(j) ==> j < self@.recurring.len() && self@.recurring[j as int].id == id,
            r matches Some(j) ==> j < self.recurring@.len(),
            r is None ==> !has_recurring(self@.recurring, id),
    {
        proof {
            lemma_store_view(*self);
        }
        let n = self.recurring.len();
        let mut i: usize = 0;
        while i < n
            invariant
                n == self.recurring.len(),
                0 <= i <= n,
                forall|j: int| 0 <= j < i ==> (#[trigger] self.recurring@[j]).id != id,
            decreases n - i,
        {
            if self.recurring[i].id == id {
                proof {
                    lemma_store_view(*self);
                }
                return Some(i);
            }
            i = i + 1;
        }
        proof {
            lemma_store_view(*self);
        }
        None
    }

    /// Create a recurring payment.  Its first next execution date is
    /// computed from `today`, the day the payment is created.
    pub fn create_recurring_payment(
        &mut self,
        input: CreateRecurringPaymentInput,
        today: Date,
    ) -> (r: Result<RecurringPayment, AppError>)
        requires
            old(self)@.wf(),
        ensures
            final(self)@.wf(),
            r is Ok <==> old(self)@.next_id < i64::MAX,
            r matches Ok(p) ==> created_recurring_ok(p, input, (old(self)@.next_id) as i64, today)
                && final(self)@ == (StoreModel {
                next_id: old(self)@.next_id + 1,
                recurring: old(self)@.recurring.push(p),
                ..old(self)@
            }),
            r is Err ==> final(self)@ == old(self)@ && r->Err_0 is Internal,
    {
        proof {
            lemma_store_view(*old(self));
        }
        if self.next_id == i64::MAX {
            return Err(AppError::Internal("store identifiers exhausted".to_owned()));
        }
        let id = self.next_id;
        self.next_id = self.next_id + 1;
        let frequency = parse_frequency(&input.frequency);
        let frequency_value = match input.frequency_value {
            Some(v) => v,
            None => 1,
        };
        let next = calculate_next_execution_date(
            frequency,
            frequency_value,
            input.day_of_period,
            today,
        );
        let row = RecurringPayment {
            id,
            name: input.name,
            amount: input.amount,
            currency: match input.currency {
                Some(c) => c,
                None => "CZK".to_owned(),
            },
            frequency,
            frequency_value,
            day_of_period: input.day_of_period,
            account_id: input.account_id,
            category_id: input.category_id,
            description: input.description,
            active: true,
            next_execution_date: Some(next),
            last_execution_date: None,
        };
        let out = row.clone_row();
        self.recurring.push(row);
        proof {
            lemma_store_view(*self);
            let m = store_model(*old(self));
            assert(self@ =~= (StoreModel {
                next_id: m.next_id + 1,
                recurring: m.recurring.push(out),
                ..m
            }));
            assert(recurring_ids(m.recurring.push(out)) =~= recurring_ids(m.recurring).push(id));
            lemma_ids_ok_push(recurring_ids(m.recurring), m.next_id);
        }
        Ok(out)
    }

    /// List every recurring-payment row, in insertion order; a name-sorted
    /// display is done at the edge.
    pub fn get_recurring_payments(&self) -> (r: Vec<RecurringPayment>)
        ensures
            r@ == self@.recurring,
    {
        proof {
            lemma_store_view(*self);
        }
        let n = self.recurring.len();
        let mut out: Vec<RecurringPayment> = Vec::new();
        let mut i: usize = 0;
        while i < n
            invariant
                n == self.recurring.len(),
                0 <= i <= n,
                out@ == self.recurring@.take(i as int),
            decreases n - i,
        {
            let row = self.recurring[i].clone_row();
            out.push(row);
            proof {
                assert(self.recurring@.take(i as int + 1) =~= self.recurring@.take(i as int).push(
                    self.recurring@[i as int],
                ));
            }
            i = i + 1;
        }
        proof {
            assert(self.recurring@.take(n as int) =~= self.recurring@);
        }
        out
    }

    /// Rewrite a recurring payment's fields.  The execution dates are the
    /// scheduler's own and are not touched.
    pub fn update_recurring_payment(&mut self, id: i64, input: UpdateRecurringPaymentInput) -> (r:
        Result<RecurringPayment, AppError>)
        requires
            old(self)@.wf(),
        ensures
            final(self)@.wf(),
            r is Ok <==> has_recurring(old(self)@.recurring, id),
            r matches Ok(p) ==> exists|j: int|
                0 <= j < old(self)@.recurring.len() && (#[trigger] old(self)@.recurring[j]).id
                    == id && updated_recurring_ok(p, old(self)@.recurring[j], input)
                    && final(self)@ == (StoreModel {
                    recurring: old(self)@.recurring.update(j, p),
                    ..old(self)@
                }),
            r is Err ==> final(self)@ == old(self)@ && r->Err_0 is NotFound,
    {
        match self.find_recurring_idx(id) {
            Some(i) => {
                proof {
                    lemma_store_view(*old(self));
                }
                let frequency = parse_frequency(&input.frequency);
                let old_row = self.recurring.remove(i);
                let row = RecurringPayment {
                    id: old_row.id,
                    name: input.name,
                    amount: input.amount,
                    currency: input.currency,
                    frequency,
                    frequency_value: input.frequency_value,
                    day_of_period: input.day_of_period,
                    account_id: input.account_id,
                    category_id: input.category_id,
                    description: input.description,
                    active: input.active,
                    next_execution_date: old_row.next_execution_date,
                    last_execution_date: old_row.last_execution_date,
                };
                let out = row.clone_row();
                self.recurring.insert(i, row);
                proof {
                    lemma_store_view(*self);
                    let m = store_model(*old(self));
                    assert(self.recurring@ =~= old(self).recurring@.update(i as int, out));
                    assert(self@ =~= (StoreModel {
                        recurring: m.recurring.update(i as int, out),
                        ..m
                    }));
                    assert(recurring_ids(m.recurring.update(i as int, out)) =~= recurring_ids(
                        m.recurring,
                    ));
                }
                Ok(out)
            },
            None => Err(AppError::NotFound("recurring payment not found".to_owned())),
        }
    }

    /// Hard-delete a recurring payment; deleting a missing one is a no-op.
    pub fn delete_recurring_payment(&mut self, id: i64) -> (r: Result<(), AppError>)
        requires
            old(self)@.wf(),
        ensures
            final(self)@.wf(),
            r is Ok,
            !has_recurring(old(self)@.recurring, id) ==> final(self)@ == old(self)@,
            has_recurring(old(self)@.recurring, id) ==> exists|j: int|
                0 <= j < old(self)@.recurring.len() && (#[trigger] old(self)@.recurring[j]).id
                    == id && final(self)@ == (StoreModel {
                    recurring: old(self)@.recurring.remove(j),
                    ..old(self)@
                }),
    {
        match self.find_recurring_idx(id) {
            Some(i) => {
                proof {
                    lemma_store_view(*old(self));
                }
                self.recurring.remove(i);
                proof {
                    lemma_store_view(*self);
                    let m = store_model(*old(self));
                    assert(self@ =~= (StoreModel {
                        recurring: m.recurring.remove(i as int),
                        ..m
                    }));
                    assert(recurring_ids(m.recurring.remove(i as int)) =~= recurring_ids(
                        m.recurring,
                    ).remove(i as int));
                    lemma_ids_ok_remove(recurring_ids(m.recurring), i as int, m.next_id);
                }
                Ok(())
            },
            None => Ok(()),
        }
    }

    /// The sweep: materialise every due payment, in store order, as of
    /// `today`.  Each due payment is posted as a completed expense
    /// transaction dated `today`, its balance effect applied directly, and
    /// its dates advanced from `today`.  Failing partway leaves the
    /// processed prefix in place.
    pub fn process_recurring_payments(&mut self, today: Date) -> (r: Result<(), AppError>)
        requires
            old(self)@.wf(),
        ensures
            final(self)@.wf(),
            final(self)@ == sweep_spec(old(self)@, today).0,
            r is Ok <==> sweep_spec(old(self)@, today).1 is Done,
            r matches Err(e) ==> (if sweep_spec(old(self)@, today).1 is IdsExhausted {
                e is Internal
            } else {
                e is Database
            }),
            r is Ok && ledger_balanced(old(self)@.accounts, old(self)@.transactions)
                ==> ledger_balanced(final(self)@.accounts, final(self)@.transactions),
    {
        proof {
            lemma_store_view(*old(self));
        }
        let n = self.recurring.len();
        let mut i: usize = 0;
        while i < n
            invariant
                n == self.recurring.len(),
                0 <= i <= n,
                self@.wf(),
                sweep_from(old(self)@, today, 0) == sweep_from(self@, today, i as int),
                ledger_balanced(old(self)@.accounts, old(self)@.transactions) ==> ledger_balanced(
                    self@.accounts,
                    self@.transactions,
                ),
            decreases n - i,
        {
            let ghost mloop = self@;
            proof {
                lemma_store_view(*self);
            }
            let active = self.recurring[i].active;
            let due = active && (match self.recurring[i].next_execution_date {
                Some(d) => date_le(d, today),
                None => false,
            });
            proof {
                assert(mloop.recurring[i as int] == self.recurring@[i as int]);
                assert(due == payment_due(mloop.recurring[i as int], today));
            }
            if due {
                if self.next_id == i64::MAX {
                    proof {
                        assert(sweep_from(mloop, today, i as int) == (mloop,
                        SweepOutcome::IdsExhausted));
                    }
                    return Err(AppError::Internal("store identifiers exhausted".to_owned()));
                }
                let id = self.next_id;
                self.next_id = self.next_id + 1;
                let p = self.recurring[i].clone_row();
                let ghost pg = mloop.recurring[i as int];
                let t = Transaction {
                    id,
                    date: today,
                    amount: p.amount,
                    currency: p.currency.clone(),
                    transaction_type: TxType::Expense,
                    from_account_id: Some(p.account_id),
                    to_account_id: None,
                    category_id: p.category_id,
                    description: crate::types::clone_opt_string(&p.description),
                    owner_user_id: None,
                    is_shared: false,
                    status: TxStatus::Completed,
                    recurring_payment_id: Some(p.id),
                    flow_group_id: None,
                    notes: None,
                };
                proof {
                    assert(t == posting_of(pg, today, id));
                }
                let ghost tg = t;
                self.transactions.push(t);
                let ghost m1 = StoreModel {
                    next_id: mloop.next_id + 1,
                    transactions: mloop.transactions.push(tg),
                    ..mloop
                };
                proof {
                    lemma_store_view(*self);
                    assert(self@ =~= m1);
                    assert(crate::store::transaction_ids(mloop.transactions.push(tg))
                        =~= crate::store::transaction_ids(mloop.transactions).push(id));
                    lemma_ids_ok_push(crate::store::transaction_ids(mloop.transactions),
                    mloop.next_id);
                    assert(m1.wf());
                }
                let ok = self.apply_leg(p.account_id, -(p.amount as i128));
                if !ok {
                    proof {
                        assert(!can_apply_leg(m1.accounts, pg.account_id, -(pg.amount as int)));
                        assert(sweep_from(mloop, today, i as int) == (m1,
                        SweepOutcome::BalanceOverflow));
                        assert(self@ == m1);
                    }
                    return Err(AppError::Database("account balance out of range".to_owned()));
                }
                let ghost m2 = StoreModel {
                    accounts: apply_delta(m1.accounts, pg.account_id, -(pg.amount as int)),
                    ..m1
                };
                proof {
                    assert(self@ == m2);
                }
                let next = calculate_next_execution_date(
                    p.frequency,
                    p.frequency_value,
                    p.day_of_period,
                    today,
                );
                proof {
                    lemma_store_view(*self);
                }
                let ghost recs_before = self.recurring@;
                proof {
                    assert(recs_before == m2.recurring);
                }
                let mut row = self.recurring.remove(i);
                row.last_execution_date = Some(today);
                row.next_execution_date = Some(next);
                self.recurring.insert(i, row);
                let ghost m3 = StoreModel {
                    recurring: m2.recurring.update(i as int, advanced_payment(pg, today)),
                    ..m2
                };
                proof {
                    lemma_store_view(*self);
                    assert(self.recurring@ =~= recs_before.update(
                        i as int,
                        self.recurring@[i as int],
                    ));
                    assert(self.recurring@[i as int] == advanced_payment(pg, today));
                    assert(self@ =~= m3);
                    assert(recurring_ids(m2.recurring.update(
                        i as int,
                        advanced_payment(pg, today),
                    )) =~= recurring_ids(m2.recurring));
                    assert(m3.wf());
                    assert(sweep_from(mloop, today, i as int) == sweep_from(m3, today, i as int
                        + 1));
                    // the posting preserves the ledger invariant
                    if ledger_balanced(mloop.accounts, mloop.transactions) {
                        assert(tx_legs(tg) =~= seq![(pg.account_id, -(pg.amount as int))]);
                        lemma_legs_one(mloop.accounts, (pg.account_id, -(pg.amount as int)));
                        lemma_post_preserves_balance(mloop.accounts, mloop.transactions, tg);
                        assert(apply_legs(mloop.accounts, tx_legs(tg)) == m3.accounts);
                        assert(ledger_balanced(m3.accounts, m3.transactions));
                    }
                }
            } else {
                proof {
                    assert(sweep_from(mloop, today, i as int) == sweep_from(
                        mloop,
                        today,
                        i as int + 1,
                    ));
                }
            }
            i = i + 1;
        }
        proof {
            lemma_store_view(*self);
            assert(self@.recurring.len() == self.recurring@.len());
            assert(sweep_from(self@, today, n as int) == (self@, SweepOutcome::Done));
        }
        Ok(())
    }
}


/// How many transaction rows are postings linked to this payment.
pub open spec fn postings_linked(txs: Seq<Transaction>, payment_id: i64) -> int
    decreases txs.len(),
{
    if txs.len() == 0 {
        0
    } else {
        postings_linked(txs.drop_last(), payment_id) + (
        if txs.last().recurring_payment_id == Some(payment_id) {
            1int
        } else {
            0int
        })
    }
}

/// How many payments from index `i` onward are due on `today` and carry
/// this identifier.
pub open spec fn due_posts_for(
    recs: Seq<RecurringPayment>,
    today: Date,
    i: int,
    payment_id: i64,
) -> int
    decreases recs.len() - i,
{
    if i < 0 || i >= recs.len() {
        0
    } else {
        (if payment_due(recs[i], today) && recs[i].id == payment_id {
            1int
        } else {
            0int
        }) + due_posts_for(recs, today, i + 1, payment_id)
    }
}

/// Appending one transaction adds its link to the count.
proof fn lemma_postings_linked_push(txs: Seq<Transaction>, t: Transaction, payment_id: i64)
    ensures
        postings_linked(txs.push(t), payment_id) == postings_linked(txs, payment_id) + (
        if t.recurring_payment_id == Some(payment_id) {
            1int
        } else {
            0int
        }),
{
    assert(txs.push(t).drop_last() =~= txs);
    assert(txs.push(t).last() == t);
}

/// The due count reads only the rows from index `i` onward.
proof fn lemma_due_posts_agree(
    recs1: Seq<RecurringPayment>,
    recs2: Seq<RecurringPayment>,
    today: Date,
    i: int,
    payment_id: i64,
)
    requires
        recs1.len() == recs2.len(),
        forall|j: int| i <= j < recs1.len() ==> recs1[j] == recs2[j],
    ensures
        due_posts_for(recs1, today, i, payment_id) == due_posts_for(recs2, today, i, payment_id),
    decreases recs1.len() - i,
{
    if 0 <= i < recs1.len() {
        lemma_due_posts_agree(recs1, recs2, today, i + 1, payment_id);
    }
}

/// What a completed sweep did, payment by payment: every due payment from
/// index `i` onward was advanced and posted exactly once, nothing else
/// changed among the payments, and each payment's posting count grew by
/// exactly its number of due occurrences.
proof fn lemma_sweep_from_effects(m: StoreModel, today: Date, i: int)
    requires
        0 <= i,
        (sweep_from(m, today, i).1 is Done),
    ensures
        ({
            let m2 = sweep_from(m, today, i).0;
            &&& m2.recurring.len() == m.recurring.len()
            &&& (forall|j: int|
                0 <= j < m.recurring.len() ==> #[trigger] m2.recurring[j] == (
                if i <= j && payment_due(m.recurring[j], today) {
                    advanced_payment(m.recurring[j], today)
                } else {
                    m.recurring[j]
                }))
            &&& (forall|pid: i64|
                #[trigger] postings_linked(m2.transactions, pid) == postings_linked(
                    m.transactions,
                    pid,
                ) + due_posts_for(m.recurring, today, i, pid))
        }),
    decreases m.recurring.len() - i,
{
    let r = sweep_from(m, today, i);
    if i >= m.recurring.len() {
        assert forall|pid: i64|
            #[trigger] postings_linked(r.0.transactions, pid) == postings_linked(
            m.transactions,
            pid,
        ) + due_posts_for(m.recurring, today, i, pid) by {
            assert(due_posts_for(m.recurring, today, i, pid) == 0);
        }
    } else {
        let p = m.recurring[i];
        if !payment_due(p, today) {
            lemma_sweep_from_effects(m, today, i + 1);
        } else {
            let t = posting_of(p, today, m.next_id as i64);
            let m1 = StoreModel {
                next_id: m.next_id + 1,
                transactions: m.transactions.push(t),
                ..m
            };
            let m2 = StoreModel {
                accounts: apply_delta(m1.accounts, p.account_id, -(p.amount as int)),
                ..m1
            };
            let m3 = StoreModel {
                recurring: m2.recurring.update(i, advanced_payment(p, today)),
                ..m2
            };
            lemma_sweep_from_effects(m3, today, i + 1);
            let mf = sweep_from(m3, today, i + 1).0;
            assert forall|j: int|
                0 <= j < m.recurring.len() implies #[trigger] mf.recurring[j] == (
            if i <= j && payment_due(m.recurring[j], today) {
                advanced_payment(m.recurring[j], today)
            } else {
                m.recurring[j]
            }) by {
                if j == i {
                    assert(m3.recurring[j] == advanced_payment(p, today));
                } else {
                    assert(m3.recurring[j] == m.recurring[j]);
                }
            }
            assert forall|pid: i64|
                #[trigger] postings_linked(mf.transactions, pid) == postings_linked(
                m.transactions,
                pid,
            ) + due_posts_for(m.recurring, today, i, pid) by {
                lemma_postings_linked_push(m.transactions, t, pid);
                assert forall|j: int| i + 1 <= j < m.recurring.len() implies m3.recurring[j]
                    == m.recurring[j] by {}
                lemma_due_posts_agree(m3.recurring, m.recurring, today, i + 1, pid);
                assert(t.recurring_payment_id == Some(p.id));
            }
        }
    }
}

/// Among payments with pairwise distinct identifiers, exactly one due
/// occurrence is counted for the identifier of a due payment.
proof fn lemma_due_posts_single(
    recs: Seq<RecurringPayment>,
    today: Date,
    i: int,
    payment_id: i64,
    k: int,
)
    requires
        0 <= i < recs.len(),
        recs[i].id == payment_id,
        payment_due(recs[i], today),
        forall|a: int, b: int| 0 <= a < b < recs.len() ==> recs[a].id != recs[b].id,
        0 <= k <= recs.len(),
    ensures
        due_posts_for(recs, today, k, payment_id) == (if k <= i {
            1int
        } else {
            0int
        }),
    decreases recs.len() - k,
{
    if k < recs.len() {
        lemma_due_posts_single(recs, today, i, payment_id, k + 1);
        if k != i {
            assert(recs[k].id != recs[i].id);
        }
    }
}

/// A whole sweep on `today` runs to completion.
pub open spec fn sweep_done(m: StoreModel, today: Date) -> bool {
    sweep_spec(m, today).1 is Done
}

/// Two consecutive sweeps on `today` both run to completion.
pub open spec fn two_sweeps_done(m: StoreModel, today: Date) -> bool {
    sweep_done(m, today) && sweep_done(sweep_spec(m, today).0, today)
}

/// After posting on `today`, the payment's recomputed next execution date
/// still does not pass `today`, so it is due again at once.
pub open spec fn still_due_after_posting(p: RecurringPayment, today: Date) -> bool {
    date_le_spec(
        next_occurrence_spec(p.frequency, p.frequency_value as int, p.day_of_period, today),
        today,
    )
}

/// After two sweeps on `today`, the payment at index `i` carries two more
/// postings than it did before them.
pub open spec fn posted_twice_by_sweeps(m: StoreModel, today: Date, i: int) -> bool {
    let p = m.recurring[i];
    let m1 = sweep_spec(m, today).0;
    let m2 = sweep_spec(m1, today).0;
    postings_linked(m2.transactions, p.id) == postings_linked(m.transactions, p.id) + 2
}


/// Rows of a table with well-formed identifiers are pairwise distinct.
proof fn lemma_recurring_rows_distinct(recs: Seq<RecurringPayment>, next: int)
    requires
        crate::store::ids_ok(recurring_ids(recs), next),
    ensures
        forall|a: int, b: int| 0 <= a < b < recs.len() ==> recs[a].id != recs[b].id,
{
    assert forall|a: int, b: int| 0 <= a < b < recs.len() implies recs[a].id != recs[b].id by {
        assert(recurring_ids(recs)[a] == recs[a].id);
        assert(recurring_ids(recs)[b] == recs[b].id);
    }
}

/// The sweep is not idempotent per day, by design: a payment due on
/// `today` whose recomputed next execution date still does not pass
/// `today` is due again after the sweep, and a second sweep on the same
/// day posts it a second time.  Two sweeps without advancing the clock
/// therefore post such a due payment twice.
pub proof fn lemma_sweep_twice_reposts(m: StoreModel, today: Date, i: int)
    requires
        m.wf(),
        two_sweeps_done(m, today),
        0 <= i < m.recurring.len(),
        payment_due(m.recurring[i], today),
        still_due_after_posting(m.recurring[i], today),
    ensures
        posted_twice_by_sweeps(m, today, i),
{
    let p = m.recurring[i];
    let m1 = sweep_spec(m, today).0;
    let m2 = sweep_spec(m1, today).0;
    lemma_sweep_from_effects(m, today, 0);
    lemma_sweep_from_effects(m1, today, 0);
    lemma_recurring_rows_distinct(m.recurring, m.next_id);
    assert forall|a: int, b: int|
        0 <= a < b < m1.recurring.len() implies m1.recurring[a].id != m1.recurring[b].id by {
        assert(m1.recurring[a].id == m.recurring[a].id);
        assert(m1.recurring[b].id == m.recurring[b].id);
    }
    lemma_due_posts_single(m.recurring, today, i, p.id, 0);
    assert(m1.recurring[i] == advanced_payment(p, today));
    assert(payment_due(m1.recurring[i], today));
    lemma_due_posts_single(m1.recurring, today, i, p.id, 0);
    assert(postings_linked(m1.transactions, p.id) == postings_linked(m.transactions, p.id) + 1);
    assert(postings_linked(m2.transactions, p.id) == postings_linked(m1.transactions, p.id) + 1);
}


/// Relies on chrono's `Utc::now` and `NaiveDate`: the current civil date
/// in UTC.  The clock is built from a nonnegative offset since 1970, so
/// the year has that lower bound; beyond calendar validity, the clock
/// decides everything else.
#[verifier::external_body]
fn today_utc() -> (r: Date)
    ensures
        r.year >= 1970,
        1 <= r.month <= 12,
        1 <= r.day,
        r.day as int <= crate::date::days_in_month(r.year as int, r.month as int),
{
    let d = chrono::Utc::now().date_naive();
    Date {
        year: chrono::Datelike::year(&d),
        month: chrono::Datelike::month(&d) as u8,
        day: chrono::Datelike::day(&d) as u8,
    }
}

impl Store {
    /// The sweep as the presentation layer drives it: materialise every
    /// payment due as of the current UTC date.
    pub fn sweep(&mut self) -> (r: Result<(), AppError>)
        requires
            old(self)@.wf(),
        ensures
            final(self)@.wf(),
            exists|d: Date|
                (#[trigger] sweep_spec(old(self)@, d)).0 == final(self)@ && (r is Ok
                    <==> sweep_done(old(self)@, d)) && d.year >= 1970 && 1 <= d.month <= 12 && 1
                    <= d.day && d.day as int <= crate::date::days_in_month(
                    d.year as int,
                    d.month as int,
                ),
    {
        let today = today_utc();
        let r = self.process_recurring_payments(today);
        proof {
            assert(sweep_spec(old(self)@, today).0 == self@ && (r is Ok <==> sweep_done(
                old(self)@,
                today,
            )) && today.year >= 1970 && 1 <= today.month <= 12 && 1 <= today.day && today.day
                as int <= crate::date::days_in_month(today.year as int, today.month as int));
        }
        r
    }
}

} // verus!
