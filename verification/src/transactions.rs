//! The transaction processor: creating, listing, updating and deleting
//! transactions, and the transaction/tag links.
//!
//! Creating a non-planned transaction persists the row first and then
//! applies its balance effect; deleting one applies the inverse effect
//! before removing the row.  Updating a transaction only rewrites the
//! row's fields — it deliberately does not reverse or reapply any balance
//! effect; balance correction on edit is the caller's responsibility.

use crate::date::{date_le, date_le_spec};
use crate::error::AppError;
use crate::ledger::{
    apply_delta, apply_legs, apply_legs_until_fail, can_apply_leg, can_apply_legs, ledger_balanced,
    legs_of, lemma_legs_empty, lemma_legs_one, lemma_legs_two, lemma_post_preserves_balance,
    lemma_reverse_preserves_balance, neg_legs, tx_legs,
};
use crate::store::{
    lemma_ids_ok_push, lemma_ids_ok_remove, lemma_store_view, store_model, tag_ids,
    transaction_ids, Store, StoreModel,
};
use crate::types::{
    parse_status, parse_tx_type, status_of, tx_type_of, CreateTagInput, CreateTransactionInput,
    Tag, Transaction, TransactionFilters, TxStatus, TxType, UpdateTransactionInput,
};
use vstd::prelude::*;

verus! {

/// Some transaction row carries this identifier.
pub open spec fn has_tx(txs: Seq<Transaction>, id: i64) -> bool {
    exists|j: int| 0 <= j < txs.len() && (#[trigger] txs[j]).id == id
}

/// The index of the transaction row with this identifier (meaningful when
/// `has_tx` holds; identifiers are unique in a well-formed store).
pub open spec fn tx_idx_of(txs: Seq<Transaction>, id: i64) -> int {
    choose|j: int| 0 <= j < txs.len() && (#[trigger] txs[j]).id == id
}

/// The row that creating a transaction from `input` produces: the type and
/// status strings are parsed, the currency defaults, and the row carries
/// no link to a recurring payment or flow group.
pub open spec fn created_tx_ok(t: Transaction, input: CreateTransactionInput, id: i64) -> bool {
    &&& t.id == id
    &&& t.date == input.date
    &&& t.amount == input.amount
    &&& (match input.currency {
        Some(c) => t.currency == c,
        None => t.currency@ == "CZK"@,
    })
    &&& Some(t.transaction_type) == tx_type_of(input.transaction_type@)
    &&& t.from_account_id == input.from_account_id
    &&& t.to_account_id == input.to_account_id
    &&& t.category_id == input.category_id
    &&& t.description == input.description
    &&& t.owner_user_id == input.owner_user_id
    &&& t.is_shared == (match input.is_shared {
        Some(b) => b,
        None => false,
    })
    &&& t.status == status_of(input.status)
    &&& t.recurring_payment_id is None
    &&& t.flow_group_id is None
    &&& t.notes == input.notes
}

/// The row that updating a transaction with `input` leaves behind: the
/// listed fields are rewritten; the identifier and the links to a
/// recurring payment and a flow group keep their stored values.
pub open spec fn updated_tx_ok(
    t2: Transaction,
    t: Transaction,
    input: UpdateTransactionInput,
) -> bool {
    &&& t2.id == t.id
    &&& t2.date == input.date
    &&& t2.amount == input.amount
    &&& t2.currency == input.currency
    &&& Some(t2.transaction_type) == tx_type_of(input.transaction_type@)
    &&& t2.from_account_id == input.from_account_id
    &&& t2.to_account_id == input.to_account_id
    &&& t2.category_id == input.category_id
    &&& t2.description == input.description
    &&& t2.owner_user_id == input.owner_user_id
    &&& t2.is_shared == input.is_shared
    &&& t2.status == status_of(Some(input.status))
    &&& t2.recurring_payment_id == t.recurring_payment_id
    &&& t2.flow_group_id == t.flow_group_id
    &&& t2.notes == input.notes
}

/// The ASCII-lower-case image of one character: the letters `A` through
/// `Z` fold to their lower-case forms, everything else is unchanged.
pub open spec fn ascii_lower_char(c: char) -> char {
    match c {
        'A' => 'a',
        'B' => 'b',
        'C' => 'c',
        'D' => 'd',
        'E' => 'e',
        'F' => 'f',
        'G' => 'g',
        'H' => 'h',
        'I' => 'i',
        'J' => 'j',
        'K' => 'k',
        'L' => 'l',
        'M' => 'm',
        'N' => 'n',
        'O' => 'o',
        'P' => 'p',
        'Q' => 'q',
        'R' => 'r',
        'S' => 's',
        'T' => 't',
        'U' => 'u',
        'V' => 'v',
        'W' => 'w',
        'X' => 'x',
        'Y' => 'y',
        'Z' => 'z',
        _ => c,
    }
}

/// The ASCII-lower-case image of a character sequence.
pub open spec fn ascii_lower_seq(s: Seq<char>) -> Seq<char> {
    s.map_values(|c: char| ascii_lower_char(c))
}

/// Relies on str::to_ascii_lowercase: every ASCII upper-case letter is
/// mapped to its lower-case form and every other character is unchanged.
#[verifier::external_body]
fn ascii_lower(s: &str) -> (r: String)
    ensures
        r@ == ascii_lower_seq(s@),
{
    s.to_ascii_lowercase()
}

/// The window of `n` characters of `hay` starting at `i`.
pub open spec fn sub_at(hay: Seq<char>, n: int, i: int) -> Seq<char> {
    hay.subrange(i, i + n)
}

/// `needle` occurs as a contiguous substring of `hay`.
pub open spec fn contains_sub(hay: Seq<char>, needle: Seq<char>) -> bool {
    exists|i: int|
        0 <= i <= hay.len() - needle.len() && #[trigger] sub_at(hay, needle.len() as int, i)
            == needle
}

/// Relies on str::contains: true exactly when the pattern occurs as a
/// substring of the string slice.
#[verifier::external_body]
fn str_contains(hay: &str, needle: &str) -> (r: bool)
    ensures
        r == contains_sub(hay@, needle@),
{
    hay.contains(needle)
}

/// An optional text column matches a search string when it is present and
/// contains it with ASCII letter case folded — as the store's pattern
/// match does.  Pattern metacharacters are taken literally.
pub open spec fn text_matches(field: Option<String>, q: String) -> bool {
    field matches Some(s) && contains_sub(ascii_lower_seq(s@), ascii_lower_seq(q@))
}

/// The listing filters a transaction row passes: the date range, the
/// amount range, and the free-text search over description and notes.
pub open spec fn matches_filters(t: Transaction, f: TransactionFilters) -> bool {
    &&& (f.start_date matches Some(s) ==> date_le_spec(s, t.date))
    &&& (f.end_date matches Some(e) ==> date_le_spec(t.date, e))
    &&& (f.min_amount matches Some(m) ==> t.amount >= m)
    &&& (f.max_amount matches Some(m) ==> t.amount <= m)
    &&& (f.search_query matches Some(q) ==> text_matches(t.description, q) || text_matches(
        t.notes,
        q,
    ))
}


/// The listing order's key comparison: `a` sorts at or after `b` when its
/// date is earlier, or its identifier is no larger on the same date.
pub open spec fn tx_key_le(a: Transaction, b: Transaction) -> bool {
    if a.date == b.date {
        a.id <= b.id
    } else {
        date_le_spec(a.date, b.date)
    }
}

/// The rows run newest first: dates descending, ties broken by identifier
/// descending.
pub open spec fn rows_sorted_desc(s: Seq<Transaction>) -> bool {
    forall|i: int, j: int| 0 <= i <= j < s.len() ==> tx_key_le(#[trigger] s[j], #[trigger] s[i])
}

/// `t` placed into the descending list `s`, before the first row that
/// sorts at or below it.
pub open spec fn insert_sorted(t: Transaction, s: Seq<Transaction>) -> Seq<Transaction>
    decreases s.len(),
{
    if s.len() == 0 {
        seq![t]
    } else if tx_key_le(s[0], t) {
        seq![t] + s
    } else {
        seq![s[0]] + insert_sorted(t, s.drop_first())
    }
}

/// The rows of `s` arranged newest first: dates descending, ties broken by
/// identifier descending.
pub open spec fn sorted_desc_of(s: Seq<Transaction>) -> Seq<Transaction>
    decreases s.len(),
{
    if s.len() == 0 {
        s
    } else {
        insert_sorted(s.last(), sorted_desc_of(s.drop_last()))
    }
}

/// Placing a row lands it exactly at the first position whose row sorts at
/// or below it.
proof fn lemma_insert_sorted_at(s: Seq<Transaction>, t: Transaction, j: int)
    requires
        0 <= j <= s.len(),
        forall|k: int| 0 <= k < j ==> !tx_key_le(#[trigger] s[k], t),
        j < s.len() ==> tx_key_le(s[j], t),
    ensures
        insert_sorted(t, s) == s.insert(j, t),
    decreases s.len(),
{
    if s.len() == 0 {
        assert(insert_sorted(t, s) =~= s.insert(0, t));
    } else if j == 0 {
        assert(seq![t] + s =~= s.insert(0, t));
    } else {
        assert(!tx_key_le(s[0], t));
        assert forall|k: int| 0 <= k < j - 1 implies !tx_key_le(
            #[trigger] s.drop_first()[k],
            t,
        ) by {
            assert(s.drop_first()[k] == s[k + 1]);
        }
        lemma_insert_sorted_at(s.drop_first(), t, j - 1);
        assert(seq![s[0]] + s.drop_first().insert(j - 1, t) =~= s.insert(j, t));
    }
}

/// Placing a row into a descending list keeps it descending.
proof fn lemma_insert_sorted_sorted(t: Transaction, s: Seq<Transaction>)
    requires
        rows_sorted_desc(s),
    ensures
        rows_sorted_desc(insert_sorted(t, s)),
    decreases s.len(),
{
    let r = insert_sorted(t, s);
    if s.len() == 0 {
    } else if tx_key_le(s[0], t) {
        assert forall|i: int, j: int| 0 <= i <= j < r.len() implies tx_key_le(
            #[trigger] r[j],
            #[trigger] r[i],
        ) by {
            if i == 0 && j > 0 {
                assert(r[j] == s[j - 1]);
                assert(tx_key_le(s[j - 1], s[0]));
            } else if i > 0 {
                assert(r[i] == s[i - 1]);
                assert(r[j] == s[j - 1]);
            }
        }
    } else {
        assert forall|i2: int, j2: int|
            0 <= i2 <= j2 < s.drop_first().len() implies tx_key_le(
            #[trigger] s.drop_first()[j2],
            #[trigger] s.drop_first()[i2],
        ) by {
            assert(s.drop_first()[i2] == s[i2 + 1]);
            assert(s.drop_first()[j2] == s[j2 + 1]);
        }
        lemma_insert_sorted_sorted(t, s.drop_first());
        let inner = insert_sorted(t, s.drop_first());
        lemma_insert_sorted_contains(t, s.drop_first());
        assert forall|i: int, j: int| 0 <= i <= j < r.len() implies tx_key_le(
            #[trigger] r[j],
            #[trigger] r[i],
        ) by {
            if i > 0 {
                assert(r[i] == inner[i - 1]);
                assert(r[j] == inner[j - 1]);
            } else if j > 0 {
                // the head dominates the tail: every tail row is either a
                // row of `s` below the head, or `t`, which the head beats
                assert(r[0] == s[0]);
                assert(r[j] == inner[j - 1]);
            }
        }
    }
}

/// Every row of a placement is the placed row or a row of the list.
proof fn lemma_insert_sorted_contains(t: Transaction, s: Seq<Transaction>)
    ensures
        forall|j: int|
            0 <= j < insert_sorted(t, s).len() ==> (#[trigger] insert_sorted(t, s)[j]) == t
                || s.contains(insert_sorted(t, s)[j]),
    decreases s.len(),
{
    let r = insert_sorted(t, s);
    if s.len() == 0 {
    } else if tx_key_le(s[0], t) {
        assert forall|j: int| 0 <= j < r.len() implies (#[trigger] r[j]) == t || s.contains(
            r[j],
        ) by {
            if j > 0 {
                assert(r[j] == s[j - 1]);
            }
        }
    } else {
        lemma_insert_sorted_contains(t, s.drop_first());
        let inner = insert_sorted(t, s.drop_first());
        assert forall|j: int| 0 <= j < r.len() implies (#[trigger] r[j]) == t || s.contains(
            r[j],
        ) by {
            if j == 0 {
                assert(r[0] == s[0]);
                assert(s.contains(s[0]));
            } else {
                assert(r[j] == inner[j - 1]);
                if inner[j - 1] != t {
                    let k = choose|k: int|
                        0 <= k < s.drop_first().len() && s.drop_first()[k] == inner[j - 1];
                    assert(s[k + 1] == inner[j - 1]);
                }
            }
        }
    }
}

/// Placing a row adds exactly it to the list's contents.
proof fn lemma_insert_sorted_multiset(t: Transaction, s: Seq<Transaction>)
    ensures
        insert_sorted(t, s).to_multiset() == s.to_multiset().insert(t),
    decreases s.len(),
{
    broadcast use vstd::seq_lib::group_to_multiset_ensures;

    let r = insert_sorted(t, s);
    if s.len() == 0 {
        assert(r =~= Seq::<Transaction>::empty().push(t));
        assert(r.to_multiset() =~= s.to_multiset().insert(t));
    } else if tx_key_le(s[0], t) {
        assert(r =~= s.insert(0, t));
        assert(r.remove(0) =~= s);
        assert(r[0] == t);
        assert(s.to_multiset() == r.to_multiset().remove(t));
        assert(r.contains(t));
        assert(r.to_multiset().count(t) > 0);
        assert(r.to_multiset() =~= s.to_multiset().insert(t));
    } else {
        lemma_insert_sorted_multiset(t, s.drop_first());
        let inner = insert_sorted(t, s.drop_first());
        assert(r =~= inner.insert(0, s[0]));
        assert(r.remove(0) =~= inner);
        assert(r[0] == s[0]);
        assert(inner.to_multiset() == r.to_multiset().remove(s[0]));
        assert(r.contains(s[0]));
        assert(r.to_multiset().count(s[0]) > 0);
        assert(r.to_multiset() =~= inner.to_multiset().insert(s[0]));
        assert(s =~= s.drop_first().insert(0, s[0]));
        assert(s.remove(0) =~= s.drop_first());
        assert(s.to_multiset() =~= s.drop_first().to_multiset().insert(s[0]));
        assert(s.drop_first().to_multiset().insert(t).insert(s[0])
            =~= s.drop_first().to_multiset().insert(s[0]).insert(t));
    }
}

/// The listing arrangement is a descending permutation: it holds exactly
/// the rows it was given, newest first.
pub proof fn lemma_sorted_desc_of_ensures(s: Seq<Transaction>)
    ensures
        rows_sorted_desc(sorted_desc_of(s)),
        sorted_desc_of(s).to_multiset() == s.to_multiset(),
        sorted_desc_of(s).len() == s.len(),
    decreases s.len(),
{
    broadcast use vstd::seq_lib::group_to_multiset_ensures;

    if s.len() > 0 {
        lemma_sorted_desc_of_ensures(s.drop_last());
        lemma_insert_sorted_sorted(s.last(), sorted_desc_of(s.drop_last()));
        lemma_insert_sorted_multiset(s.last(), sorted_desc_of(s.drop_last()));
        assert(s =~= s.drop_last().push(s.last()));
        assert(s.to_multiset() =~= s.drop_last().to_multiset().insert(s.last()));
        assert(sorted_desc_of(s).to_multiset().len() == s.to_multiset().len());
    }
}

/// Executable key comparison of the listing order.
fn tx_key_le_exec(a: &Transaction, b: &Transaction) -> (r: bool)
    ensures
        r == tx_key_le(*a, *b),
{
    if a.date == b.date {
        a.id <= b.id
    } else {
        date_le(a.date, b.date)
    }
}

/// The row that creating a tag from `input` produces.
pub open spec fn created_tag_ok(t: Tag, input: CreateTagInput, id: i64) -> bool {
    &&& t.id == id
    &&& t.name == input.name
    &&& (match input.color {
        Some(c) => t.color == c,
        None => t.color@ == "#8B5CF6"@,
    })
}

/// A transaction/tag link is present.
pub open spec fn has_link(links: Seq<(i64, i64)>, transaction_id: i64, tag_id: i64) -> bool {
    exists|j: int|
        0 <= j < links.len() && (#[trigger] links[j]).0 == transaction_id && links[j].1 == tag_id
}

impl Store {
    /// The index of the transaction row with this identifier, if any.
    pub(crate) fn find_tx_idx(&self, id: i64) -> (r: Option<usize>)
        ensures
            r matches Some(j) ==> j < self@.transactions.len() && self@.transactions[j as int].id
                == id,
            r matches Some(j) ==> j < self.transactions@.len(),
            r is None ==> !has_tx(self@.transactions, id),
    {
        proof {
            lemma_store_view(*self);
        }
        let n = self.transactions.len();
        let mut i: usize = 0;
        while i < n
            invariant
                n == self.transactions.len(),
                0 <= i <= n,
                forall|j: int| 0 <= j < i ==> (#[trigger] self.transactions@[j]).id != id,
            decreases n - i,
        {
            if self.transactions[i].id == id {
                proof {
                    lemma_store_view(*self);
                }
                return Some(i);
            }
            i = i + 1;
        }
        proof {
            lemma_store_view(*self);
        }
        None
    }

    /// Create a transaction.  The row is persisted first; then, unless the
    /// transaction is planned, its balance effect is applied leg by leg.
    /// An unknown type string is rejected; a missing referenced account is
    /// tolerated and that leg skipped.  If a leg fails, the row stays and
    /// the earlier legs stay applied, as in the non-transactional store
    /// this models.
    pub fn create_transaction(&mut self, input: CreateTransactionInput) -> (r: Result<
        Transaction,
        AppError,
    >)
        requires
            old(self)@.wf(),
        ensures
            final(self)@.wf(),
            ({
                let m = old(self)@;
                let typ = tx_type_of(input.transaction_type@);
                let legs = legs_of(
                    status_of(input.status),
                    typ.unwrap(),
                    input.from_account_id,
                    input.to_account_id,
                    input.amount,
                );
                &&& (typ is None ==> (r matches Err(e) && e is InvalidInput && final(self)@
                    == m))
                &&& (typ is Some && m.next_id == i64::MAX ==> (r matches Err(e) && e is Internal
                    && final(self)@ == m))
                &&& (r is Ok <==> typ is Some && m.next_id < i64::MAX && can_apply_legs(
                    m.accounts,
                    legs,
                ))
                &&& (r matches Ok(t) ==> created_tx_ok(t, input, (m.next_id) as i64) && tx_legs(t)
                    == legs && final(self)@ == (StoreModel {
                    next_id: m.next_id + 1,
                    transactions: m.transactions.push(t),
                    accounts: apply_legs(m.accounts, legs),
                    ..m
                }))
                &&& (typ is Some && m.next_id < i64::MAX && !can_apply_legs(m.accounts, legs)
                    ==> (r matches Err(e) && e is Database && exists|t: Transaction|
                    created_tx_ok(t, input, (m.next_id) as i64) && final(self)@ == (StoreModel {
                        next_id: m.next_id + 1,
                        transactions: m.transactions.push(t),
                        accounts: apply_legs_until_fail(m.accounts, legs),
                        ..m
                    })))
                &&& (r is Ok && status_of(input.status) is Planned ==> final(self)@.accounts
                    == m.accounts)
                &&& (r is Ok && ledger_balanced(m.accounts, m.transactions) ==> ledger_balanced(
                    final(self)@.accounts,
                    final(self)@.transactions,
                ))
            }),
    {
        proof {
            lemma_store_view(*old(self));
        }
        let typ = match parse_tx_type(&input.transaction_type) {
            Some(t) => t,
            None => {
                return Err(AppError::InvalidInput("unknown transaction type".to_owned()));
            },
        };
        if self.next_id == i64::MAX {
            return Err(AppError::Internal("store identifiers exhausted".to_owned()));
        }
        let st = parse_status(&input.status);
        let id = self.next_id;
        self.next_id = self.next_id + 1;
        let row = Transaction {
            id,
            date: input.date,
            amount: input.amount,
            currency: match input.currency {
                Some(c) => c,
                None => "CZK".to_owned(),
            },
            transaction_type: typ,
            from_account_id: input.from_account_id,
            to_account_id: input.to_account_id,
            category_id: input.category_id,
            description: input.description,
            owner_user_id: input.owner_user_id,
            is_shared: match input.is_shared {
                Some(b) => b,
                None => false,
            },
            status: st,
            recurring_payment_id: None,
            flow_group_id: None,
            notes: input.notes,
        };
        let out = row.clone_row();
        let amount = out.amount;
        let from = out.from_account_id;
        let to = out.to_account_id;
        self.transactions.push(row);
        let ghost m = store_model(*old(self));
        let ghost legs = tx_legs(out);
        let ghost mid = StoreModel {
            next_id: m.next_id + 1,
            transactions: m.transactions.push(out),
            ..m
        };
        proof {
            lemma_store_view(*self);
            assert(self@ =~= mid);
            assert(transaction_ids(m.transactions.push(out)) =~= transaction_ids(
                m.transactions,
            ).push(id));
            lemma_ids_ok_push(transaction_ids(m.transactions), m.next_id);
            assert(mid.wf());
            assert(mid.accounts == m.accounts);
            assert(legs == legs_of(st, typ, from, to, amount));
        }
        // Apply the balance effect, leg by leg, exactly as the row states it.
        if match st {
            TxStatus::Planned => false,
            TxStatus::Completed => true,
        } {
            match typ {
                TxType::Expense => {
                    if let Some(f) = from {
                        proof {
                            assert(legs =~= seq![(f, -(amount as int))]);
                            lemma_legs_one(m.accounts, (f, -(amount as int)));
                        }
                        let delta: i128 = -(amount as i128);
                        let ok = self.apply_leg(f, delta);
                        if !ok {
                            proof {
                                assert(!can_apply_legs(m.accounts, legs));
                                assert(self@ =~= (StoreModel {
                                    accounts: apply_legs_until_fail(m.accounts, legs),
                                    ..mid
                                }));
                            }
                            return Err(
                                AppError::Database("account balance out of range".to_owned()),
                            );
                        }
                        proof {
                            assert(can_apply_legs(m.accounts, legs));
                            assert(self@.accounts == apply_legs(m.accounts, legs));
                        }
                    } else {
                        proof {
                            assert(legs =~= Seq::<(i64, int)>::empty());
                            lemma_legs_empty(m.accounts);
                        }
                    }
                },
                TxType::Income => {
                    if let Some(u) = to {
                        proof {
                            assert(legs =~= seq![(u, amount as int)]);
                            lemma_legs_one(m.accounts, (u, amount as int));
                        }
                        let ok = self.apply_leg(u, amount as i128);
                        if !ok {
                            proof {
                                assert(!can_apply_legs(m.accounts, legs));
                                assert(self@ =~= (StoreModel {
                                    accounts: apply_legs_until_fail(m.accounts, legs),
                                    ..mid
                                }));
                            }
                            return Err(
                                AppError::Database("account balance out of range".to_owned()),
                            );
                        }
                        proof {
                            assert(can_apply_legs(m.accounts, legs));
                            assert(self@.accounts == apply_legs(m.accounts, legs));
                        }
                    } else {
                        proof {
                            assert(legs =~= Seq::<(i64, int)>::empty());
                            lemma_legs_empty(m.accounts);
                        }
                    }
                },
                TxType::Transfer => {
                    if let Some(f) = from {
                        let ghost av1 = apply_delta(m.accounts, f, -(amount as int));
                        if let Some(u) = to {
                            proof {
                                assert(legs =~= seq![(f, -(amount as int)), (u, amount as int)]);
                                lemma_legs_two(
                                    m.accounts,
                                    (f, -(amount as int)),
                                    (u, amount as int),
                                );
                            }
                            let d1: i128 = -(amount as i128);
                            let ok1 = self.apply_leg(f, d1);
                            if !ok1 {
                                proof {
                                    assert(!can_apply_legs(m.accounts, legs));
                                    assert(self@ =~= (StoreModel {
                                        accounts: apply_legs_until_fail(m.accounts, legs),
                                        ..mid
                                    }));
                                }
                                return Err(
                                    AppError::Database("account balance out of range".to_owned()),
                                );
                            }
                            let ok2 = self.apply_leg(u, amount as i128);
                            if !ok2 {
                                proof {
                                    assert(!can_apply_leg(av1, u, amount as int));
                                    assert(!can_apply_legs(m.accounts, legs));
                                    assert(apply_legs_until_fail(m.accounts, legs) == av1);
                                    assert(self@ =~= (StoreModel {
                                        accounts: apply_legs_until_fail(m.accounts, legs),
                                        ..mid
                                    }));
                                }
                                return Err(
                                    AppError::Database("account balance out of range".to_owned()),
                                );
                            }
                            proof {
                                assert(can_apply_legs(m.accounts, legs));
                                assert(self@.accounts == apply_delta(av1, u, amount as int));
                                assert(self@.accounts == apply_legs(m.accounts, legs));
                            }
                        } else {
                            proof {
                                assert(legs =~= seq![(f, -(amount as int))]);
                                lemma_legs_one(m.accounts, (f, -(amount as int)));
                            }
                            let ok = self.apply_leg(f, -(amount as i128));
                            if !ok {
                                proof {
                                    assert(!can_apply_legs(m.accounts, legs));
                                    assert(self@ =~= (StoreModel {
                                        accounts: apply_legs_until_fail(m.accounts, legs),
                                        ..mid
                                    }));
                                }
                                return Err(
                                    AppError::Database("account balance out of range".to_owned()),
                                );
                            }
                            proof {
                                assert(can_apply_legs(m.accounts, legs));
                                assert(self@.accounts == apply_legs(m.accounts, legs));
                            }
                        }
                    } else {
                        proof {
                            assert(legs =~= Seq::<(i64, int)>::empty());
                            lemma_legs_empty(m.accounts);
                        }
                    }
                },
            }
        } else {
            proof {
                assert(legs =~= Seq::<(i64, int)>::empty());
                lemma_legs_empty(m.accounts);
            }
        }
        proof {
            assert(can_apply_legs(m.accounts, legs));
            assert(self@ =~= (StoreModel {
                next_id: m.next_id + 1,
                transactions: m.transactions.push(out),
                accounts: apply_legs(m.accounts, legs),
                ..m
            }));
            if ledger_balanced(m.accounts, m.transactions) {
                lemma_post_preserves_balance(m.accounts, m.transactions, out);
            }
        }
        Ok(out)
    }

    /// Look up a transaction row by identifier.
    pub fn get_transaction_by_id(&self, id: i64) -> (r: Result<Transaction, AppError>)
        ensures
            r is Ok <==> has_tx(self@.transactions, id),
            r matches Ok(t) ==> exists|j: int|
                0 <= j < self@.transactions.len() && (#[trigger] self@.transactions[j]).id == id
                    && t == self@.transactions[j],
            r matches Err(e) ==> e is NotFound,
    {
        match self.find_tx_idx(id) {
            Some(i) => {
                let t = self.transactions[i].clone_row();
                proof {
                    lemma_store_view(*self);
                }
                Ok(t)
            },
            None => Err(AppError::NotFound("transaction not found".to_owned())),
        }
    }

    /// The filtered rows, arranged newest first: dates descending, ties
    /// broken by identifier descending — the listing order of the store.
    pub(crate) fn listed_transactions(&self, filters: Option<&TransactionFilters>) -> (r: Vec<
        Transaction,
    >)
        ensures
            r@ == sorted_desc_of(
                match filters {
                    Some(f) => self@.transactions.filter(
                        |t: Transaction| matches_filters(t, *f),
                    ),
                    None => self@.transactions,
                },
            ),
    {
        proof {
            lemma_store_view(*self);
        }
        // gather the admitted rows, in table order
        let n = self.transactions.len();
        let mut base: Vec<Transaction> = Vec::new();
        let mut i: usize = 0;
        while i < n
            invariant
                n == self.transactions.len(),
                0 <= i <= n,
                base@ == (match filters {
                    Some(f) => self.transactions@.take(i as int).filter(
                        |t: Transaction| matches_filters(t, *f),
                    ),
                    None => self.transactions@.take(i as int),
                }),
            decreases n - i,
        {
            let ghost prefix = self.transactions@.take(i as int);
            let ghost prefix2 = self.transactions@.take(i as int + 1);
            proof {
                assert(prefix2.drop_last() =~= prefix);
                assert(prefix2.last() == self.transactions@[i as int]);
            }
            let keep = match filters {
                Some(f) => tx_matches_filters(&self.transactions[i], f),
                None => true,
            };
            if keep {
                base.push(self.transactions[i].clone_row());
                proof {
                    if let Some(f) = filters {
                        let ghost pred = |t: Transaction| matches_filters(t, *f);
                        reveal(Seq::filter);
                        assert(prefix2.filter(pred) == prefix.filter(pred).push(prefix2.last()));
                    }
                }
            } else {
                proof {
                    if let Some(f) = filters {
                        let ghost pred = |t: Transaction| matches_filters(t, *f);
                        reveal(Seq::filter);
                        assert(prefix2.filter(pred) == prefix.filter(pred));
                    }
                }
            }
            i = i + 1;
        }
        proof {
            assert(self.transactions@.take(n as int) =~= self.transactions@);
        }
        // arrange them newest first
        let nb = base.len();
        let mut out: Vec<Transaction> = Vec::new();
        let mut k: usize = 0;
        while k < nb
            invariant
                nb == base.len(),
                0 <= k <= nb,
                out@ == sorted_desc_of(base@.take(k as int)),
            decreases nb - k,
        {
            let ghost bprefix = base@.take(k as int);
            let ghost bprefix2 = base@.take(k as int + 1);
            proof {
                assert(bprefix2.drop_last() =~= bprefix);
                assert(bprefix2.last() == base@[k as int]);
            }
            let row = base[k].clone_row();
            // find the first position whose row sorts at or below this one
            let no = out.len();
            let mut j: usize = 0;
            while j < no && !tx_key_le_exec(&out[j], &row)
                invariant
                    no == out.len(),
                    0 <= j <= no,
                    out@ == sorted_desc_of(base@.take(k as int)),
                    row == base@[k as int],
                    forall|jj: int| 0 <= jj < j ==> !tx_key_le(#[trigger] out@[jj], row),
                decreases no - j,
            {
                j = j + 1;
            }
            proof {
                lemma_insert_sorted_at(out@, row, j as int);
            }
            out.insert(j, row);
            k = k + 1;
        }
        proof {
            assert(base@.take(nb as int) =~= base@);
        }
        out
    }

    /// List every transaction row, newest first: dates descending, ties
    /// broken by identifier descending.
    pub fn get_transactions(&self) -> (r: Vec<Transaction>)
        ensures
            r@ == sorted_desc_of(self@.transactions),
    {
        self.listed_transactions(None)
    }

    /// List the transaction rows that pass the given filters, newest
    /// first: dates descending, ties broken by identifier descending.
    pub fn get_transactions_filtered(&self, filters: TransactionFilters) -> (r: Vec<Transaction>)
        ensures
            r@ == sorted_desc_of(
                self@.transactions.filter(|t: Transaction| matches_filters(t, filters)),
            ),
    {
        self.listed_transactions(Some(&filters))
    }

    /// Rewrite a transaction row's fields.  This does not reverse the old
    /// balance effect nor apply a new one: account balances are left
    /// exactly as they were, and correcting them is the caller's
    /// responsibility.
    pub fn update_transaction(&mut self, id: i64, input: UpdateTransactionInput) -> (r: Result<
        Transaction,
        AppError,
    >)
        requires
            old(self)@.wf(),
        ensures
            final(self)@.wf(),
            final(self)@.accounts == old(self)@.accounts,
            tx_type_of(input.transaction_type@) is None ==> (r matches Err(e) && e
                is InvalidInput && final(self)@ == old(self)@),
            tx_type_of(input.transaction_type@) is Some ==> {
                &&& (r is Ok <==> has_tx(old(self)@.transactions, id))
                &&& (r matches Ok(t) ==> exists|j: int|
                    0 <= j < old(self)@.transactions.len() && (
                    #[trigger] old(self)@.transactions[j]).id == id && updated_tx_ok(
                        t,
                        old(self)@.transactions[j],
                        input,
                    ) && final(self)@ == (StoreModel {
                        transactions: old(self)@.transactions.update(j, t),
                        ..old(self)@
                    }))
                &&& (r is Err ==> final(self)@ == old(self)@ && r->Err_0 is NotFound)
            },
    {
        proof {
            lemma_store_view(*old(self));
        }
        let typ = match parse_tx_type(&input.transaction_type) {
            Some(t) => t,
            None => {
                return Err(AppError::InvalidInput("unknown transaction type".to_owned()));
            },
        };
        let st = parse_status(&Some(input.status.clone()));
        proof {
            assert(st == status_of(Some(input.status)));
        }
        match self.find_tx_idx(id) {
            Some(i) => {
                let old_row = self.transactions.remove(i);
                let row = Transaction {
                    id: old_row.id,
                    date: input.date,
                    amount: input.amount,
                    currency: input.currency,
                    transaction_type: typ,
                    from_account_id: input.from_account_id,
                    to_account_id: input.to_account_id,
                    category_id: input.category_id,
                    description: input.description,
                    owner_user_id: input.owner_user_id,
                    is_shared: input.is_shared,
                    status: st,
                    recurring_payment_id: old_row.recurring_payment_id,
                    flow_group_id: old_row.flow_group_id,
                    notes: input.notes,
                };
                let out = row.clone_row();
                self.transactions.insert(i, row);
                proof {
                    lemma_store_view(*self);
                    let m = store_model(*old(self));
                    assert(self.transactions@ =~= old(self).transactions@.update(i as int, out));
                    assert(self@ =~= (StoreModel {
                        transactions: m.transactions.update(i as int, out),
                        ..m
                    }));
                    assert(transaction_ids(m.transactions.update(i as int, out))
                        =~= transaction_ids(m.transactions));
                }
                Ok(out)
            },
            None => Err(AppError::NotFound("transaction not found".to_owned())),
        }
    }

    /// Delete a transaction.  Unless the row was planned, its balance
    /// effect is reversed leg by leg before the row is removed; a missing
    /// referenced account means that leg was never applied and is skipped
    /// in reverse too.  If reversing a leg fails, the row stays and the
    /// earlier reversals stay applied.
    pub fn delete_transaction(&mut self, id: i64) -> (r: Result<(), AppError>)
        requires
            old(self)@.wf(),
        ensures
            final(self)@.wf(),
            !has_tx(old(self)@.transactions, id) ==> (r matches Err(e) && e is NotFound
                && final(self)@ == old(self)@),
            has_tx(old(self)@.transactions, id) ==> ({
                let m = old(self)@;
                let j = tx_idx_of(m.transactions, id);
                let t = m.transactions[j];
                let legs = neg_legs(tx_legs(t));
                &&& (r is Ok <==> can_apply_legs(m.accounts, legs))
                &&& (r is Ok ==> final(self)@ == (StoreModel {
                    transactions: m.transactions.remove(j),
                    accounts: apply_legs(m.accounts, legs),
                    ..m
                }))
                &&& (r matches Err(e) ==> e is Database && final(self)@ == (StoreModel {
                    accounts: apply_legs_until_fail(m.accounts, legs),
                    ..m
                }))
                &&& (r is Ok && t.status is Planned ==> final(self)@.accounts == m.accounts)
                &&& (r is Ok && ledger_balanced(m.accounts, m.transactions) ==> ledger_balanced(
                    final(self)@.accounts,
                    final(self)@.transactions,
                ))
            }),
    {
        proof {
            lemma_store_view(*old(self));
        }
        let i = match self.find_tx_idx(id) {
            Some(i) => i,
            None => {
                return Err(AppError::NotFound("transaction not found".to_owned()));
            },
        };
        let ghost m = store_model(*old(self));
        proof {
            // the found index is the unique matching one
            let j = tx_idx_of(m.transactions, id);
            assert(m.transactions[i as int].id == id);
            assert(0 <= j < m.transactions.len() && m.transactions[j].id == id);
            if j != i {
                assert(transaction_ids(m.transactions)[j] == m.transactions[j].id);
                assert(transaction_ids(m.transactions)[i as int] == m.transactions[i as int].id);
            }
            assert(tx_idx_of(m.transactions, id) == i as int);
        }
        let st = self.transactions[i].status;
        let typ = self.transactions[i].transaction_type;
        let from = self.transactions[i].from_account_id;
        let to = self.transactions[i].to_account_id;
        let amount = self.transactions[i].amount;
        let ghost t = m.transactions[i as int];
        let ghost legs = neg_legs(tx_legs(t));
        proof {
            assert(tx_legs(t) == legs_of(st, typ, from, to, amount));
        }
        // Reverse the balance effect: the mirror image of posting.
        if match st {
            TxStatus::Planned => false,
            TxStatus::Completed => true,
        } {
            match typ {
                TxType::Expense => {
                    if let Some(f) = from {
                        proof {
                            assert(tx_legs(t) =~= seq![(f, -(amount as int))]);
                            assert(legs =~= seq![(f, amount as int)]);
                            lemma_legs_one(m.accounts, (f, amount as int));
                        }
                        let ok = self.apply_leg(f, amount as i128);
                        if !ok {
                            proof {
                                assert(!can_apply_legs(m.accounts, legs));
                                assert(self@ =~= (StoreModel {
                                    accounts: apply_legs_until_fail(m.accounts, legs),
                                    ..m
                                }));
                            }
                            return Err(
                                AppError::Database("account balance out of range".to_owned()),
                            );
                        }
                        proof {
                            assert(can_apply_legs(m.accounts, legs));
                            assert(self@.accounts == apply_legs(m.accounts, legs));
                        }
                    } else {
                        proof {
                            assert(tx_legs(t) =~= Seq::<(i64, int)>::empty());
                            assert(legs =~= Seq::<(i64, int)>::empty());
                            lemma_legs_empty(m.accounts);
                        }
                    }
                },
                TxType::Income => {
                    if let Some(u) = to {
                        proof {
                            assert(tx_legs(t) =~= seq![(u, amount as int)]);
                            assert(legs =~= seq![(u, -(amount as int))]);
                            lemma_legs_one(m.accounts, (u, -(amount as int)));
                        }
                        let ok = self.apply_leg(u, -(amount as i128));
                        if !ok {
                            proof {
                                assert(!can_apply_legs(m.accounts, legs));
                                assert(self@ =~= (StoreModel {
                                    accounts: apply_legs_until_fail(m.accounts, legs),
                                    ..m
                                }));
                            }
                            return Err(
                                AppError::Database("account balance out of range".to_owned()),
                            );
                        }
                        proof {
                            assert(can_apply_legs(m.accounts, legs));
                            assert(self@.accounts == apply_legs(m.accounts, legs));
                        }
                    } else {
                        proof {
                            assert(tx_legs(t) =~= Seq::<(i64, int)>::empty());
                            assert(legs =~= Seq::<(i64, int)>::empty());
                            lemma_legs_empty(m.accounts);
                        }
                    }
                },
                TxType::Transfer => {
                    if let Some(f) = from {
                        let ghost av1 = apply_delta(m.accounts, f, amount as int);
                        if let Some(u) = to {
                            proof {
                                assert(tx_legs(t) =~= seq![
                                    (f, -(amount as int)),
                                    (u, amount as int),
                                ]);
                                assert(legs =~= seq![(f, amount as int), (u, -(amount as int))]);
                                lemma_legs_two(
                                    m.accounts,
                                    (f, amount as int),
                                    (u, -(amount as int)),
                                );
                            }
                            let ok1 = self.apply_leg(f, amount as i128);
                            if !ok1 {
                                proof {
                                    assert(!can_apply_legs(m.accounts, legs));
                                    assert(self@ =~= (StoreModel {
                                        accounts: apply_legs_until_fail(m.accounts, legs),
                                        ..m
                                    }));
                                }
                                return Err(
                                    AppError::Database("account balance out of range".to_owned()),
                                );
                            }
                            let ok2 = self.apply_leg(u, -(amount as i128));
                            if !ok2 {
                                proof {
                                    assert(!can_apply_leg(av1, u, -(amount as int)));
                                    assert(!can_apply_legs(m.accounts, legs));
                                    assert(apply_legs_until_fail(m.accounts, legs) == av1);
                                    assert(self@ =~= (StoreModel {
                                        accounts: apply_legs_until_fail(m.accounts, legs),
                                        ..m
                                    }));
                                }
                                return Err(
                                    AppError::Database("account balance out of range".to_owned()),
                                );
                            }
                            proof {
                                assert(can_apply_legs(m.accounts, legs));
                                assert(self@.accounts == apply_delta(av1, u, -(amount as int)));
                                assert(self@.accounts == apply_legs(m.accounts, legs));
                            }
                        } else {
                            proof {
                                assert(tx_legs(t) =~= seq![(f, -(amount as int))]);
                                assert(legs =~= seq![(f, amount as int)]);
                                lemma_legs_one(m.accounts, (f, amount as int));
                            }
                            let ok = self.apply_leg(f, amount as i128);
                            if !ok {
                                proof {
                                    assert(!can_apply_legs(m.accounts, legs));
                                    assert(self@ =~= (StoreModel {
                                        accounts: apply_legs_until_fail(m.accounts, legs),
                                        ..m
                                    }));
                                }
                                return Err(
                                    AppError::Database("account balance out of range".to_owned()),
                                );
                            }
                            proof {
                                assert(can_apply_legs(m.accounts, legs));
                                assert(self@.accounts == apply_legs(m.accounts, legs));
                            }
                        }
                    } else {
                        proof {
                            assert(tx_legs(t) =~= Seq::<(i64, int)>::empty());
                            assert(legs =~= Seq::<(i64, int)>::empty());
                            lemma_legs_empty(m.accounts);
                        }
                    }
                },
            }
        } else {
            proof {
                assert(tx_legs(t) =~= Seq::<(i64, int)>::empty());
                assert(legs =~= Seq::<(i64, int)>::empty());
                lemma_legs_empty(m.accounts);
            }
        }
        proof {
            lemma_store_view(*self);
            assert(self.transactions@ == m.transactions);
        }
        self.transactions.remove(i);
        proof {
            lemma_store_view(*self);
            assert(can_apply_legs(m.accounts, legs));
            assert(self@ =~= (StoreModel {
                transactions: m.transactions.remove(i as int),
                accounts: apply_legs(m.accounts, legs),
                ..m
            }));
            assert(transaction_ids(m.transactions.remove(i as int)) =~= transaction_ids(
                m.transactions,
            ).remove(i as int));
            lemma_ids_ok_remove(transaction_ids(m.transactions), i as int, m.next_id);
            if ledger_balanced(m.accounts, m.transactions) {
                lemma_reverse_preserves_balance(m.accounts, m.transactions, i as int);
            }
        }
        Ok(())
    }

    /// Create a tag row.
    pub fn create_tag(&mut self, input: CreateTagInput) -> (r: Result<Tag, AppError>)
        requires
            old(self)@.wf(),
        ensures
            final(self)@.wf(),
            r is Ok <==> old(self)@.next_id < i64::MAX,
            r matches Ok(t) ==> created_tag_ok(t, input, (old(self)@.next_id) as i64)
                && final(self)@ == (StoreModel {
                next_id: old(self)@.next_id + 1,
                tags: old(self)@.tags.push(t),
                ..old(self)@
            }),
            r is Err ==> final(self)@ == old(self)@ && r->Err_0 is Internal,
    {
        proof {
            lemma_store_view(*old(self));
        }
        if self.next_id == i64::MAX {
            return Err(AppError::Internal("store identifiers exhausted".to_owned()));
        }
        let id = self.next_id;
        self.next_id = self.next_id + 1;
        let row = Tag {
            id,
            name: input.name,
            color: match input.color {
                Some(c) => c,
                None => "#8B5CF6".to_owned(),
            },
        };
        let out = row.clone_row();
        self.tags.push(row);
        proof {
            lemma_store_view(*self);
            let m = store_model(*old(self));
            assert(self@ =~= (StoreModel {
                next_id: m.next_id + 1,
                tags: m.tags.push(out),
                ..m
            }));
            assert(tag_ids(m.tags.push(out)) =~= tag_ids(m.tags).push(id));
            lemma_ids_ok_push(tag_ids(m.tags), m.next_id);
        }
        Ok(out)
    }

    /// List every tag row, in insertion order.
    pub fn get_tags(&self) -> (r: Vec<Tag>)
        ensures
            r@ == self@.tags,
    {
        proof {
            lemma_store_view(*self);
        }
        let n = self.tags.len();
        let mut out: Vec<Tag> = Vec::new();
        let mut i: usize = 0;
        while i < n
            invariant
                n == self.tags.len(),
                0 <= i <= n,
                out@ == self.tags@.take(i as int),
            decreases n - i,
        {
            let row = self.tags[i].clone_row();
            out.push(row);
            proof {
                assert(self.tags@.take(i as int + 1) =~= self.tags@.take(i as int).push(
                    self.tags@[i as int],
                ));
            }
            i = i + 1;
        }
        proof {
            assert(self.tags@.take(n as int) =~= self.tags@);
        }
        out
    }

    /// Link a tag to a transaction; linking an already linked pair is a
    /// no-op.
    pub fn add_tag_to_transaction(&mut self, transaction_id: i64, tag_id: i64) -> (r: Result<
        (),
        AppError,
    >)
        requires
            old(self)@.wf(),
        ensures
            final(self)@.wf(),
            r is Ok,
            has_link(old(self)@.transaction_tags, transaction_id, tag_id) ==> final(self)@ == old(
                self,
            )@,
            !has_link(old(self)@.transaction_tags, transaction_id, tag_id) ==> final(self)@
                == (StoreModel {
                transaction_tags: old(self)@.transaction_tags.push((transaction_id, tag_id)),
                ..old(self)@
            }),
    {
        proof {
            lemma_store_view(*old(self));
        }
        let n = self.transaction_tags.len();
        let mut i: usize = 0;
        while i < n
            invariant
                n == self.transaction_tags.len(),
                0 <= i <= n,
                *self == *old(self),
                old(self)@.wf(),
                forall|j: int|
                    0 <= j < i ==> !((#[trigger] self.transaction_tags@[j]).0 == transaction_id
                        && self.transaction_tags@[j].1 == tag_id),
            decreases n - i,
        {
            if self.transaction_tags[i].0 == transaction_id && self.transaction_tags[i].1 == tag_id {
                proof {
                    lemma_store_view(*self);
                }
                return Ok(());
            }
            i = i + 1;
        }
        self.transaction_tags.push((transaction_id, tag_id));
        proof {
            lemma_store_view(*self);
            let m = store_model(*old(self));
            assert(self@ =~= (StoreModel {
                transaction_tags: m.transaction_tags.push((transaction_id, tag_id)),
                ..m
            }));
        }
        Ok(())
    }

    /// Remove the link between a tag and a transaction, if present.
    pub fn remove_tag_from_transaction(&mut self, transaction_id: i64, tag_id: i64) -> (r: Result<
        (),
        AppError,
    >)
        requires
            old(self)@.wf(),
        ensures
            final(self)@.wf(),
            r is Ok,
            final(self)@ == (StoreModel {
                transaction_tags: old(self)@.transaction_tags.filter(
                    |p: (i64, i64)| !(p.0 == transaction_id && p.1 == tag_id),
                ),
                ..old(self)@
            }),
    {
        proof {
            lemma_store_view(*old(self));
        }
        let n = self.transaction_tags.len();
        let mut out: Vec<(i64, i64)> = Vec::new();
        let mut i: usize = 0;
        while i < n
            invariant
                n == self.transaction_tags.len(),
                *self == *old(self),
                0 <= i <= n,
                out@ == self.transaction_tags@.take(i as int).filter(
                    |p: (i64, i64)| !(p.0 == transaction_id && p.1 == tag_id),
                ),
            decreases n - i,
        {
            let ghost pred = |p: (i64, i64)| !(p.0 == transaction_id && p.1 == tag_id);
            let ghost prefix = self.transaction_tags@.take(i as int);
            let ghost prefix2 = self.transaction_tags@.take(i as int + 1);
            proof {
                assert(prefix2.drop_last() =~= prefix);
                assert(prefix2.last() == self.transaction_tags@[i as int]);
            }
            let p = self.transaction_tags[i];
            if !(p.0 == transaction_id && p.1 == tag_id) {
                out.push(p);
                proof {
                    reveal(Seq::filter);
                    assert(prefix2.filter(pred) == prefix.filter(pred).push(prefix2.last()));
                }
            } else {
                proof {
                    reveal(Seq::filter);
                    assert(prefix2.filter(pred) == prefix.filter(pred));
                }
            }
            i = i + 1;
        }
        self.transaction_tags = out;
        proof {
            lemma_store_view(*self);
            let pred = |p: (i64, i64)| !(p.0 == transaction_id && p.1 == tag_id);
            let m = store_model(*old(self));
            assert(old(self).transaction_tags@.take(n as int) =~= old(self).transaction_tags@);
            assert(self@ =~= (StoreModel {
                transaction_tags: m.transaction_tags.filter(pred),
                ..m
            }));
        }
        Ok(())
    }
}

/// Executable check of the listing filters.
fn tx_matches_filters(t: &Transaction, f: &TransactionFilters) -> (r: bool)
    ensures
        r == matches_filters(*t, *f),
{
    let date_ok = (match &f.start_date {
        Some(s) => crate::date::date_le(*s, t.date),
        None => true,
    }) && (match &f.end_date {
        Some(e) => crate::date::date_le(t.date, *e),
        None => true,
    });
    let amount_ok = (match &f.min_amount {
        Some(m) => t.amount >= *m,
        None => true,
    }) && (match &f.max_amount {
        Some(m) => t.amount <= *m,
        None => true,
    });
    let search_ok = match &f.search_query {
        Some(q) => {
            let q_folded = ascii_lower(q.as_str());
            let in_desc = match &t.description {
                Some(s) => str_contains(ascii_lower(s.as_str()).as_str(), q_folded.as_str()),
                None => false,
            };
            let in_notes = match &t.notes {
                Some(s) => str_contains(ascii_lower(s.as_str()).as_str(), q_folded.as_str()),
                None => false,
            };
            in_desc || in_notes
        },
        None => true,
    };
    date_ok && amount_ok && search_ok
}

} // verus!
