//! The ledger-consistency model: what a transaction does to account
//! balances, stated over unbounded integers, together with the lemmas that
//! carry the ledger invariant across posting, reversing and deleting.
//!
//! An account's invariant is that its current balance equals its initial
//! balance plus the signed sum of the effects of every non-planned
//! transaction touching it (scheduler postings are such transactions).

use crate::types::{Account, Transaction, TxStatus, TxType};
use vstd::prelude::*;

verus! {

/// Ghost mirror of an account row, with balances as unbounded integers so
/// that balance arithmetic is total.
pub struct AccountV {
    pub id: i64,
    pub name: String,
    pub account_type: String,
    pub bank_id: Option<i64>,
    pub owner_user_id: Option<i64>,
    pub account_number: Option<String>,
    pub currency: String,
    pub initial_balance: int,
    pub current_balance: int,
    pub color: Option<String>,
    pub icon: Option<String>,
    pub is_premium: bool,
    pub premium_min_flow: Option<i64>,
    pub credit_limit: Option<i64>,
    pub active: bool,
}

impl View for Account {
    type V = AccountV;

    open spec fn view(&self) -> AccountV {
        AccountV {
            id: self.id,
            name: self.name,
            account_type: self.account_type,
            bank_id: self.bank_id,
            owner_user_id: self.owner_user_id,
            account_number: self.account_number,
            currency: self.currency,
            initial_balance: self.initial_balance as int,
            current_balance: self.current_balance as int,
            color: self.color,
            icon: self.icon,
            is_premium: self.is_premium,
            premium_min_flow: self.premium_min_flow,
            credit_limit: self.credit_limit,
            active: self.active,
        }
    }
}

/// The account table seen as a sequence of ghost rows.
pub open spec fn accounts_view(s: Seq<Account>) -> Seq<AccountV> {
    s.map_values(|a: Account| a@)
}

/// `x` is representable in the store's balance column.
pub open spec fn fits_i64(x: int) -> bool {
    i64::MIN <= x <= i64::MAX
}

/// The balance adjustments `(account, signed amount)` that posting a
/// transaction with the given status, type, accounts and amount performs,
/// in the order the store performs them.  A planned transaction performs
/// none.  A transfer without a source account performs none — both legs
/// are skipped, mirroring the stored procedure it models.
pub open spec fn legs_of(
    status: TxStatus,
    typ: TxType,
    from: Option<i64>,
    to: Option<i64>,
    amount: i64,
) -> Seq<(i64, int)> {
    if status is Planned {
        seq![]
    } else {
        match typ {
            TxType::Expense => match from {
                Some(f) => seq![(f, -(amount as int))],
                None => seq![],
            },
            TxType::Income => match to {
                Some(u) => seq![(u, amount as int)],
                None => seq![],
            },
            TxType::Transfer => match from {
                Some(f) => match to {
                    Some(u) => seq![(f, -(amount as int)), (u, amount as int)],
                    None => seq![(f, -(amount as int))],
                },
                None => seq![],
            },
        }
    }
}

/// The balance adjustments that posting the stored row `t` performs.
pub open spec fn tx_legs(t: Transaction) -> Seq<(i64, int)> {
    legs_of(t.status, t.transaction_type, t.from_account_id, t.to_account_id, t.amount)
}

/// The mirror image of `legs`: the adjustments that reverse it.
pub open spec fn neg_legs(legs: Seq<(i64, int)>) -> Seq<(i64, int)> {
    legs.map_values(|l: (i64, int)| (l.0, -l.1))
}

/// Net effect of a list of adjustments on one account.
pub open spec fn legs_delta(legs: Seq<(i64, int)>, account_id: i64) -> int
    decreases legs.len(),
{
    if legs.len() == 0 {
        0
    } else {
        (if legs[0].0 == account_id {
            legs[0].1
        } else {
            0
        }) + legs_delta(legs.drop_first(), account_id)
    }
}

/// Signed effect of transaction `t` on the balance of `account_id`.
pub open spec fn tx_delta(t: Transaction, account_id: i64) -> int {
    legs_delta(tx_legs(t), account_id)
}

/// Signed sum of the effects of all transactions in `txs` on `account_id`.
pub open spec fn sum_delta(txs: Seq<Transaction>, account_id: i64) -> int
    decreases txs.len(),
{
    if txs.len() == 0 {
        0
    } else {
        sum_delta(txs.drop_last(), account_id) + tx_delta(txs.last(), account_id)
    }
}

/// One adjustment applied to the account table: every row whose id matches
/// has the signed amount added to its current balance.
pub open spec fn apply_delta(av: Seq<AccountV>, account_id: i64, delta: int) -> Seq<AccountV> {
    av.map_values(
        |a: AccountV|
            if a.id == account_id {
                AccountV { current_balance: a.current_balance + delta, ..a }
            } else {
                a
            },
    )
}

/// A list of adjustments applied in order.
pub open spec fn apply_legs(av: Seq<AccountV>, legs: Seq<(i64, int)>) -> Seq<AccountV>
    decreases legs.len(),
{
    if legs.len() == 0 {
        av
    } else {
        apply_legs(apply_delta(av, legs[0].0, legs[0].1), legs.drop_first())
    }
}

/// One adjustment leaves every touched balance representable.
pub open spec fn can_apply_leg(av: Seq<AccountV>, account_id: i64, delta: int) -> bool {
    forall|j: int|
        0 <= j < av.len() && av[j].id == account_id ==> fits_i64(
            #[trigger] av[j].current_balance + delta,
        )
}

/// Every adjustment in the list stays representable, applied in order.
pub open spec fn can_apply_legs(av: Seq<AccountV>, legs: Seq<(i64, int)>) -> bool
    decreases legs.len(),
{
    legs.len() == 0 || (can_apply_leg(av, legs[0].0, legs[0].1) && can_apply_legs(
        apply_delta(av, legs[0].0, legs[0].1),
        legs.drop_first(),
    ))
}

/// The adjustments applied in order up to (and not including) the first one
/// that would leave a balance unrepresentable: the state the store is left
/// in when posting fails partway.
pub open spec fn apply_legs_until_fail(av: Seq<AccountV>, legs: Seq<(i64, int)>) -> Seq<AccountV>
    decreases legs.len(),
{
    if legs.len() == 0 {
        av
    } else if can_apply_leg(av, legs[0].0, legs[0].1) {
        apply_legs_until_fail(apply_delta(av, legs[0].0, legs[0].1), legs.drop_first())
    } else {
        av
    }
}

/// Unfolding of the adjustment-list functions for an empty list.
pub proof fn lemma_legs_empty(av: Seq<AccountV>)
    ensures
        apply_legs(av, Seq::<(i64, int)>::empty()) == av,
        can_apply_legs(av, Seq::<(i64, int)>::empty()),
        apply_legs_until_fail(av, Seq::<(i64, int)>::empty()) == av,
{
}

/// Unfolding of the adjustment-list functions for a single adjustment.
pub proof fn lemma_legs_one(av: Seq<AccountV>, leg: (i64, int))
    ensures
        can_apply_legs(av, seq![leg]) == can_apply_leg(av, leg.0, leg.1),
        apply_legs(av, seq![leg]) == apply_delta(av, leg.0, leg.1),
        !can_apply_leg(av, leg.0, leg.1) ==> apply_legs_until_fail(av, seq![leg]) == av,
        can_apply_leg(av, leg.0, leg.1) ==> apply_legs_until_fail(av, seq![leg]) == apply_delta(
            av,
            leg.0,
            leg.1,
        ),
{
    let legs = seq![leg];
    assert(legs[0] == leg);
    assert(legs.drop_first() =~= Seq::<(i64, int)>::empty());
    lemma_legs_empty(apply_delta(av, leg.0, leg.1));
}

/// Unfolding of the adjustment-list functions for two adjustments.
pub proof fn lemma_legs_two(av: Seq<AccountV>, l0: (i64, int), l1: (i64, int))
    ensures
        can_apply_legs(av, seq![l0, l1]) == (can_apply_leg(av, l0.0, l0.1) && can_apply_leg(
            apply_delta(av, l0.0, l0.1),
            l1.0,
            l1.1,
        )),
        apply_legs(av, seq![l0, l1]) == apply_delta(apply_delta(av, l0.0, l0.1), l1.0, l1.1),
        !can_apply_leg(av, l0.0, l0.1) ==> apply_legs_until_fail(av, seq![l0, l1]) == av,
        can_apply_leg(av, l0.0, l0.1) && !can_apply_leg(apply_delta(av, l0.0, l0.1), l1.0, l1.1)
            ==> apply_legs_until_fail(av, seq![l0, l1]) == apply_delta(av, l0.0, l0.1),
        can_apply_leg(av, l0.0, l0.1) && can_apply_leg(apply_delta(av, l0.0, l0.1), l1.0, l1.1)
            ==> apply_legs_until_fail(av, seq![l0, l1]) == apply_delta(
            apply_delta(av, l0.0, l0.1),
            l1.0,
            l1.1,
        ),
{
    let legs = seq![l0, l1];
    assert(legs[0] == l0);
    assert(legs.drop_first() =~= seq![l1]);
    lemma_legs_one(apply_delta(av, l0.0, l0.1), l1);
}

/// The account invariant, for one account row.
pub open spec fn account_balanced(a: AccountV, txs: Seq<Transaction>) -> bool {
    a.current_balance == a.initial_balance + sum_delta(txs, a.id)
}

/// The ledger invariant: every account row agrees with the transaction
/// history.
pub open spec fn ledger_balanced(av: Seq<AccountV>, txs: Seq<Transaction>) -> bool {
    forall|j: int| 0 <= j < av.len() ==> account_balanced(#[trigger] av[j], txs)
}

/// Applying a list of adjustments changes each row's current balance by the
/// row's net delta and nothing else.
pub proof fn lemma_apply_legs_pointwise(av: Seq<AccountV>, legs: Seq<(i64, int)>)
    ensures
        apply_legs(av, legs).len() == av.len(),
        forall|j: int|
            0 <= j < av.len() ==> apply_legs(av, legs)[j] == (AccountV {
                current_balance: av[j].current_balance + legs_delta(legs, #[trigger] av[j].id),
                ..av[j]
            }),
    decreases legs.len(),
{
    if legs.len() == 0 {
        assert forall|j: int| 0 <= j < av.len() implies apply_legs(av, legs)[j] == (AccountV {
            current_balance: av[j].current_balance + legs_delta(legs, av[j].id),
            ..av[j]
        }) by {
            assert(legs_delta(legs, av[j].id) == 0);
        }
    } else {
        let av1 = apply_delta(av, legs[0].0, legs[0].1);
        lemma_apply_legs_pointwise(av1, legs.drop_first());
        assert forall|j: int| 0 <= j < av.len() implies apply_legs(av, legs)[j] == (AccountV {
            current_balance: av[j].current_balance + legs_delta(legs, av[j].id),
            ..av[j]
        }) by {
            assert(av1[j] == if av[j].id == legs[0].0 {
                AccountV { current_balance: av[j].current_balance + legs[0].1, ..av[j] }
            } else {
                av[j]
            });
        }
    }
}

/// Reversing a list of adjustments negates its net delta on every account.
pub proof fn lemma_neg_legs_delta(legs: Seq<(i64, int)>, account_id: i64)
    ensures
        legs_delta(neg_legs(legs), account_id) == -legs_delta(legs, account_id),
    decreases legs.len(),
{
    if legs.len() > 0 {
        lemma_neg_legs_delta(legs.drop_first(), account_id);
        assert(neg_legs(legs).drop_first() =~= neg_legs(legs.drop_first()));
    }
}

/// Appending a transaction adds its effect to the signed sum.
pub proof fn lemma_sum_delta_push(txs: Seq<Transaction>, t: Transaction, account_id: i64)
    ensures
        sum_delta(txs.push(t), account_id) == sum_delta(txs, account_id) + tx_delta(t, account_id),
{
    assert(txs.push(t).drop_last() =~= txs);
    assert(txs.push(t).last() == t);
}

/// Removing a transaction subtracts its effect from the signed sum.
pub proof fn lemma_sum_delta_remove(txs: Seq<Transaction>, i: int, account_id: i64)
    requires
        0 <= i < txs.len(),
    ensures
        sum_delta(txs.remove(i), account_id) == sum_delta(txs, account_id) - tx_delta(
            txs[i],
            account_id,
        ),
    decreases txs.len(),
{
    if i == txs.len() - 1 {
        assert(txs.remove(i) =~= txs.drop_last());
    } else {
        lemma_sum_delta_remove(txs.drop_last(), i, account_id);
        assert(txs.remove(i).drop_last() =~= txs.drop_last().remove(i));
        assert(txs.remove(i).last() == txs.last());
    }
}

/// Posting a transaction and appending its row preserves the ledger
/// invariant.
pub proof fn lemma_post_preserves_balance(av: Seq<AccountV>, txs: Seq<Transaction>, t: Transaction)
    requires
        ledger_balanced(av, txs),
    ensures
        ledger_balanced(apply_legs(av, tx_legs(t)), txs.push(t)),
{
    lemma_apply_legs_pointwise(av, tx_legs(t));
    let av2 = apply_legs(av, tx_legs(t));
    assert forall|j: int| 0 <= j < av2.len() implies account_balanced(
        av2[j],
        txs.push(t),
    ) by {
        lemma_sum_delta_push(txs, t, av[j].id);
    }
}

/// Reversing a stored transaction's effect and removing its row preserves
/// the ledger invariant.
pub proof fn lemma_reverse_preserves_balance(av: Seq<AccountV>, txs: Seq<Transaction>, i: int)
    requires
        ledger_balanced(av, txs),
        0 <= i < txs.len(),
    ensures
        ledger_balanced(apply_legs(av, neg_legs(tx_legs(txs[i]))), txs.remove(i)),
{
    let legs = neg_legs(tx_legs(txs[i]));
    lemma_apply_legs_pointwise(av, legs);
    let av2 = apply_legs(av, legs);
    assert forall|j: int| 0 <= j < av2.len() implies account_balanced(
        av2[j],
        txs.remove(i),
    ) by {
        lemma_neg_legs_delta(tx_legs(txs[i]), av[j].id);
        lemma_sum_delta_remove(txs, i, av[j].id);
    }
}

/// Posting a transaction's effect and then its mirror image restores every
/// account to its starting state: creating and then deleting a transaction
/// is balance-neutral.
pub proof fn lemma_post_reverse_round_trip(av: Seq<AccountV>, t: Transaction)
    ensures
        apply_legs(apply_legs(av, tx_legs(t)), neg_legs(tx_legs(t))) == av,
{
    let legs = tx_legs(t);
    let av1 = apply_legs(av, legs);
    lemma_apply_legs_pointwise(av, legs);
    lemma_apply_legs_pointwise(av1, neg_legs(legs));
    assert forall|j: int| 0 <= j < av.len() implies apply_legs(av1, neg_legs(legs))[j] == av[j] by {
        lemma_neg_legs_delta(legs, av[j].id);
        assert(av1[j].id == av[j].id);
    }
    assert(apply_legs(av1, neg_legs(legs)) =~= av);
}

} // verus!
