//! Bank rows.  Bank names are unique, and because of that uniqueness
//! constraint banks are hard-deleted — together with the accounts that
//! reference them — so that a deleted bank's name can be used again.

use crate::error::AppError;
use crate::ledger::{accounts_view, AccountV};
use crate::store::{
    account_ids, bank_ids, lemma_ids_ok_push, lemma_store_view, store_model, Store, StoreModel,
};
use crate::types::{Bank, CreateBankInput, UpdateBankInput};
use vstd::prelude::*;

verus! {

/// Some bank row carries this identifier.
pub open spec fn has_bank(banks: Seq<Bank>, id: i64) -> bool {
    exists|j: int| 0 <= j < banks.len() && (#[trigger] banks[j]).id == id
}

/// Some bank row carries this name.
pub open spec fn has_bank_name(banks: Seq<Bank>, name: Seq<char>) -> bool {
    exists|j: int| 0 <= j < banks.len() && (#[trigger] banks[j]).name@ == name
}

/// Some bank row other than the one at `keep` carries this name.
pub open spec fn has_other_bank_name(banks: Seq<Bank>, name: Seq<char>, keep: int) -> bool {
    exists|j: int| 0 <= j < banks.len() && j != keep && (#[trigger] banks[j]).name@ == name
}

/// Some bank row with a different identifier carries this name.
pub open spec fn bank_name_taken_by_other(banks: Seq<Bank>, name: Seq<char>, id: i64) -> bool {
    exists|j: int| 0 <= j < banks.len() && (#[trigger] banks[j]).id != id && banks[j].name@ == name
}

/// The row that creating a bank from `input` produces.
pub open spec fn created_bank_ok(b: Bank, input: CreateBankInput, id: i64) -> bool {
    &&& b.id == id
    &&& b.name == input.name
    &&& b.short_name == input.short_name
    &&& b.logo == input.logo
    &&& (match input.color {
        Some(c) => b.color == c,
        None => b.color@ == "#10B981"@,
    })
    &&& b.notes == input.notes
    &&& b.active == true
}

/// The row that updating a bank with `input` leaves behind.
pub open spec fn updated_bank_ok(b2: Bank, b: Bank, input: UpdateBankInput) -> bool {
    &&& b2.id == b.id
    &&& b2.name == input.name
    &&& b2.short_name == input.short_name
    &&& b2.logo == input.logo
    &&& b2.color == input.color
    &&& b2.notes == input.notes
    &&& b2.active == input.active
}

impl Store {
    /// The index of the bank row with this identifier, if any.
    pub(crate) fn find_bank_idx(&self, id: i64) -> (r: Option<usize>)
        ensures
            r matches Some(j) ==> j < self@.banks.len() && self@.banks[j as int].id == id,
            r matches Some(j) ==> j < self.banks@.len(),
            r is None ==> !has_bank(self@.banks, id),
    {
        proof {
            lemma_store_view(*self);
        }
        let n = self.banks.len();
        let mut i: usize = 0;
        while i < n
            invariant
                n == self.banks.len(),
                0 <= i <= n,
                forall|j: int| 0 <= j < i ==> (#[trigger] self.banks@[j]).id != id,
            decreases n - i,
        {
            if self.banks[i].id == id {
                proof {
                    lemma_store_view(*self);
                }
                return Some(i);
            }
            i = i + 1;
        }
        proof {
            lemma_store_view(*self);
        }
        None
    }

    /// Whether some bank row other than the one at index `skip` (pass the
    /// table length to skip none) carries this name.
    fn bank_name_taken(&self, name: &String, skip: usize) -> (r: bool)
        ensures
            r == has_other_bank_name(self@.banks, name@, skip as int),
    {
        proof {
            lemma_store_view(*self);
        }
        let n = self.banks.len();
        let mut i: usize = 0;
        while i < n
            invariant
                n == self.banks.len(),
                0 <= i <= n,
                forall|j: int|
                    0 <= j < i && j != skip ==> (#[trigger] self.banks@[j]).name@ != name@,
            decreases n - i,
        {
            if i != skip && self.banks[i].name == *name {
                proof {
                    lemma_store_view(*self);
                }
                return true;
            }
            i = i + 1;
        }
        proof {
            lemma_store_view(*self);
        }
        false
    }

    /// Create a bank row.  A name already carried by another bank is
    /// refused by the store's uniqueness constraint.
    pub fn create_bank(&mut self, input: CreateBankInput) -> (r: Result<Bank, AppError>)
        requires
            old(self)@.wf(),
        ensures
            final(self)@.wf(),
            r is Ok <==> old(self)@.next_id < i64::MAX && !has_bank_name(
                old(self)@.banks,
                input.name@,
            ),
            r matches Ok(b) ==> created_bank_ok(b, input, (old(self)@.next_id) as i64)
                && final(self)@ == (StoreModel {
                next_id: old(self)@.next_id + 1,
                banks: old(self)@.banks.push(b),
                ..old(self)@
            }),
            r is Err ==> final(self)@ == old(self)@,
            r matches Err(e) ==> (if has_bank_name(old(self)@.banks, input.name@) {
                e is Database
            } else {
                e is Internal
            }),
    {
        proof {
            lemma_store_view(*old(self));
        }
        let n = self.banks.len();
        if self.bank_name_taken(&input.name, n) {
            proof {
                let m = store_model(*old(self));
                assert forall|j: int|
                    0 <= j < m.banks.len() && m.banks[j].name@ == input.name@ implies j
                    != n as int by {}
                assert(has_bank_name(m.banks, input.name@) == has_other_bank_name(
                    m.banks,
                    input.name@,
                    n as int,
                ));
            }
            return Err(AppError::Database("bank name already exists".to_owned()));
        }
        proof {
            let m = store_model(*old(self));
            assert(has_bank_name(m.banks, input.name@) == has_other_bank_name(
                m.banks,
                input.name@,
                n as int,
            ));
        }
        if self.next_id == i64::MAX {
            return Err(AppError::Internal("store identifiers exhausted".to_owned()));
        }
        let id = self.next_id;
        self.next_id = self.next_id + 1;
        let row = Bank {
            id,
            name: input.name,
            short_name: input.short_name,
            logo: input.logo,
            color: match input.color {
                Some(c) => c,
                None => "#10B981".to_owned(),
            },
            notes: input.notes,
            active: true,
        };
        let out = row.clone_row();
        self.banks.push(row);
        proof {
            lemma_store_view(*self);
            let m = store_model(*old(self));
            assert(self@ =~= (StoreModel {
                next_id: m.next_id + 1,
                banks: m.banks.push(out),
                ..m
            }));
            assert(bank_ids(m.banks.push(out)) =~= bank_ids(m.banks).push(id));
            lemma_ids_ok_push(bank_ids(m.banks), m.next_id);
        }
        Ok(out)
    }

    /// List bank rows, all of them or only the active ones, in insertion
    /// order; a name-sorted display is done at the edge.
    pub fn get_banks(&self, active_only: bool) -> (r: Vec<Bank>)
        ensures
            active_only ==> r@ == self@.banks.filter(|b: Bank| b.active),
            !active_only ==> r@ == self@.banks,
    {
        proof {
            lemma_store_view(*self);
        }
        let n = self.banks.len();
        let mut out: Vec<Bank> = Vec::new();
        let mut i: usize = 0;
        while i < n
            invariant
                n == self.banks.len(),
                0 <= i <= n,
                active_only ==> out@ == self.banks@.take(i as int).filter(|b: Bank| b.active),
                !active_only ==> out@ == self.banks@.take(i as int),
            decreases n - i,
        {
            let ghost prefix = self.banks@.take(i as int);
            let ghost prefix2 = self.banks@.take(i as int + 1);
            proof {
                assert(prefix2.drop_last() =~= prefix);
                assert(prefix2.last() == self.banks@[i as int]);
            }
            if !active_only || self.banks[i].active {
                let row = self.banks[i].clone_row();
                out.push(row);
                proof {
                    if active_only {
                        reveal(Seq::filter);
                        assert(prefix2.filter(|b: Bank| b.active) == prefix.filter(
                            |b: Bank| b.active,
                        ).push(prefix2.last()));
                    }
                }
            } else {
                proof {
                    reveal(Seq::filter);
                    assert(prefix2.filter(|b: Bank| b.active) == prefix.filter(|b: Bank| b.active));
                }
            }
            i = i + 1;
        }
        proof {
            assert(self.banks@.take(n as int) =~= self.banks@);
        }
        out
    }

    /// Rewrite a bank row's fields.  Renaming it to a name carried by
    /// another bank is refused by the store's uniqueness constraint.
    pub fn update_bank(&mut self, id: i64, input: UpdateBankInput) -> (r: Result<Bank, AppError>)
        requires
            old(self)@.wf(),
        ensures
            final(self)@.wf(),
            r is Err ==> final(self)@ == old(self)@,
            !has_bank(old(self)@.banks, id) ==> (r matches Err(e) && e is NotFound),
            r is Ok <==> has_bank(old(self)@.banks, id) && !bank_name_taken_by_other(
                old(self)@.banks,
                input.name@,
                id,
            ),
            has_bank(old(self)@.banks, id) ==> ({
                &&& (r matches Ok(b) ==> exists|j: int|
                    0 <= j < old(self)@.banks.len() && (#[trigger] old(self)@.banks[j]).id == id
                        && !has_other_bank_name(old(self)@.banks, input.name@, j)
                        && updated_bank_ok(b, old(self)@.banks[j], input) && final(self)@
                        == (StoreModel { banks: old(self)@.banks.update(j, b), ..old(self)@ }))
                &&& (r matches Err(e) ==> e is Database)
            }),
    {
        match self.find_bank_idx(id) {
            Some(i) => {
                proof {
                    lemma_store_view(*old(self));
                    let m = store_model(*old(self));
                    assert forall|j: int|
                        0 <= j < m.banks.len() implies ((#[trigger] m.banks[j]).id != id <==> j
                        != i) by {
                        if j != i {
                            assert(bank_ids(m.banks)[j] == m.banks[j].id);
                            assert(bank_ids(m.banks)[i as int] == m.banks[i as int].id);
                        }
                    }
                    assert(has_other_bank_name(m.banks, input.name@, i as int)
                        == bank_name_taken_by_other(m.banks, input.name@, id));
                }
                if self.bank_name_taken(&input.name, i) {
                    return Err(AppError::Database("bank name already exists".to_owned()));
                }
                let old_row = self.banks.remove(i);
                let row = Bank {
                    id: old_row.id,
                    name: input.name,
                    short_name: input.short_name,
                    logo: input.logo,
                    color: input.color,
                    notes: input.notes,
                    active: input.active,
                };
                let out = row.clone_row();
                self.banks.insert(i, row);
                proof {
                    lemma_store_view(*self);
                    let m = store_model(*old(self));
                    assert(self.banks@ =~= old(self).banks@.update(i as int, out));
                    assert(self@ =~= (StoreModel { banks: m.banks.update(i as int, out), ..m }));
                    assert(bank_ids(m.banks.update(i as int, out)) =~= bank_ids(m.banks));
                }
                Ok(out)
            },
            None => Err(AppError::NotFound("bank not found".to_owned())),
        }
    }

    /// Hard-delete a bank and every account that references it, freeing
    /// the bank's unique name for re-use.  Deleting a missing bank still
    /// removes any accounts that reference the identifier.
    pub fn delete_bank(&mut self, id: i64) -> (r: Result<(), AppError>)
        requires
            old(self)@.wf(),
        ensures
            final(self)@.wf(),
            r is Ok,
            final(self)@ == (StoreModel {
                accounts: old(self)@.accounts.filter(|a: AccountV| a.bank_id != Some(id)),
                banks: (if has_bank(old(self)@.banks, id) {
                    old(self)@.banks.remove(
                        choose|j: int|
                            0 <= j < old(self)@.banks.len() && (#[trigger] old(self)@.banks[j]).id
                                == id,
                    )
                } else {
                    old(self)@.banks
                }),
                ..old(self)@
            }),
    {
        proof {
            lemma_store_view(*old(self));
        }
        // remove the bank's accounts first, as the store's delete order does
        let n = self.accounts.len();
        let mut kept: Vec<crate::types::Account> = Vec::new();
        let mut i: usize = 0;
        while i < n
            invariant
                n == self.accounts.len(),
                *self == *old(self),
                old(self)@.wf(),
                0 <= i <= n,
                accounts_view(kept@) == accounts_view(self.accounts@.take(i as int)).filter(
                    |a: AccountV| a.bank_id != Some(id),
                ),
            decreases n - i,
        {
            let ghost pred = |a: AccountV| a.bank_id != Some(id);
            let ghost prefix = accounts_view(self.accounts@.take(i as int));
            let ghost prefix2 = accounts_view(self.accounts@.take(i as int + 1));
            proof {
                assert(self.accounts@.take(i as int + 1).drop_last() =~= self.accounts@.take(
                    i as int,
                ));
                assert(prefix2.drop_last() =~= prefix);
                assert(prefix2.last() == self.accounts@[i as int]@);
            }
            let keep = match self.accounts[i].bank_id {
                Some(b) => b != id,
                None => true,
            };
            if keep {
                let row = self.accounts[i].clone_row();
                let ghost kept_old = kept@;
                kept.push(row);
                proof {
                    assert(accounts_view(kept@) =~= accounts_view(kept_old).push(
                        self.accounts@[i as int]@,
                    ));
                    reveal(Seq::filter);
                    assert(prefix2.filter(pred) == prefix.filter(pred).push(prefix2.last()));
                }
            } else {
                proof {
                    reveal(Seq::filter);
                    assert(prefix2.filter(pred) == prefix.filter(pred));
                }
            }
            i = i + 1;
        }
        self.accounts = kept;
        proof {
            lemma_store_view(*self);
            let m = store_model(*old(self));
            assert(old(self).accounts@.take(n as int) =~= old(self).accounts@);
            assert(accounts_view(self.accounts@) == m.accounts.filter(
                |a: AccountV| a.bank_id != Some(id),
            ));
            lemma_filter_ids_ok(m.accounts, |a: AccountV| a.bank_id != Some(id), m.next_id);
        }
        // then remove the bank row itself
        match self.find_bank_idx(id) {
            Some(i2) => {
                let ghost banks_before = self.banks@;
                self.banks.remove(i2);
                proof {
                    lemma_store_view(*self);
                    let m = store_model(*old(self));
                    assert(banks_before == m.banks);
                    let j = choose|j: int|
                        0 <= j < m.banks.len() && (#[trigger] m.banks[j]).id == id;
                    if j != i2 {
                        assert(bank_ids(m.banks)[j] == m.banks[j].id);
                        assert(bank_ids(m.banks)[i2 as int] == m.banks[i2 as int].id);
                    }
                    assert(j == i2 as int);
                    assert(self@ =~= (StoreModel {
                        accounts: m.accounts.filter(|a: AccountV| a.bank_id != Some(id)),
                        banks: m.banks.remove(i2 as int),
                        ..m
                    }));
                    assert(bank_ids(m.banks.remove(i2 as int)) =~= bank_ids(m.banks).remove(
                        i2 as int,
                    ));
                    crate::store::lemma_ids_ok_remove(bank_ids(m.banks), i2 as int, m.next_id);
                }
                Ok(())
            },
            None => {
                proof {
                    lemma_store_view(*self);
                    let m = store_model(*old(self));
                    assert(self@ =~= (StoreModel {
                        accounts: m.accounts.filter(|a: AccountV| a.bank_id != Some(id)),
                        ..m
                    }));
                }
                Ok(())
            },
        }
    }
}

/// Keeping a subset of rows keeps a table's identifiers well formed.
pub(crate) proof fn lemma_filter_ids_ok(av: Seq<AccountV>, pred: spec_fn(AccountV) -> bool, next: int)
    requires
        crate::store::ids_ok(account_ids(av), next),
    ensures
        crate::store::ids_ok(account_ids(av.filter(pred)), next),
    decreases av.len(),
{
    reveal(Seq::filter);
    if av.len() > 0 {
        let idsd = account_ids(av.drop_last());
        assert forall|j: int| 0 <= j < idsd.len() implies (#[trigger] idsd[j]) < next by {
            assert(av.drop_last()[j] == av[j]);
            assert(idsd[j] == account_ids(av)[j]);
        }
        assert forall|p: int, q: int| 0 <= p < q < idsd.len() implies idsd[p] != idsd[q] by {
            assert(av.drop_last()[p] == av[p]);
            assert(av.drop_last()[q] == av[q]);
            assert(idsd[p] == account_ids(av)[p]);
            assert(idsd[q] == account_ids(av)[q]);
        }
        lemma_filter_ids_ok(av.drop_last(), pred, next);
        if pred(av.last()) {
            let fa = av.drop_last().filter(pred);
            assert(av.filter(pred) == fa.push(av.last()));
            assert(account_ids(fa.push(av.last())) =~= account_ids(fa).push(av.last().id));
            assert(account_ids(av)[av.len() - 1] == av.last().id);
            av.filter_lemma(pred);
            assert forall|i: int, j: int|
                0 <= i < j < account_ids(fa).push(av.last().id).len() implies account_ids(
                fa,
            ).push(av.last().id)[i] != account_ids(fa).push(av.last().id)[j] by {
                lemma_filter_member_distinct(av, pred, i, j);
            }
        } else {
            assert(av.filter(pred) == av.drop_last().filter(pred));
        }
    }
}

/// Helper: any two positions of a filtered table hold rows with distinct
/// identifiers, because filtering keeps distinct rows of a distinct table.
proof fn lemma_filter_member_distinct(
    av: Seq<AccountV>,
    pred: spec_fn(AccountV) -> bool,
    i: int,
    j: int,
)
    requires
        forall|p: int, q: int| 0 <= p < q < av.len() ==> account_ids(av)[p] != account_ids(av)[q],
        0 <= i < j < av.filter(pred).len(),
    ensures
        av.filter(pred)[i].id != av.filter(pred)[j].id,
{
    lemma_filter_positions(av, pred, i, j);
}

/// Helper: two positions of a filtered sequence come from two distinct
/// positions of the original, in order.
proof fn lemma_filter_positions(av: Seq<AccountV>, pred: spec_fn(AccountV) -> bool, i: int, j: int)
    requires
        forall|p: int, q: int| 0 <= p < q < av.len() ==> account_ids(av)[p] != account_ids(av)[q],
        0 <= i < j < av.filter(pred).len(),
    ensures
        av.filter(pred)[i].id != av.filter(pred)[j].id,
    decreases av.len(),
{
    reveal(Seq::filter);
    if av.len() > 0 {
        assert forall|p: int, q: int|
            0 <= p < q < av.drop_last().len() implies account_ids(av.drop_last())[p]
            != account_ids(av.drop_last())[q] by {
            assert(account_ids(av.drop_last())[p] == av.drop_last()[p].id);
            assert(av.drop_last()[p] == av[p]);
            assert(av.drop_last()[q] == av[q]);
            assert(account_ids(av)[p] == av[p].id);
            assert(account_ids(av)[q] == av[q].id);
        }
        let fa = av.drop_last().filter(pred);
        if pred(av.last()) {
            if j < fa.len() {
                lemma_filter_positions(av.drop_last(), pred, i, j);
            } else {
                // j is the appended last row; i comes from the prefix
                lemma_filter_row_source(av.drop_last(), pred, i);
                let k = choose|k: int| 0 <= k < av.drop_last().len() && av.drop_last()[k] == fa[i];
                assert(av.filter(pred)[i] == fa[i]);
                assert(av.filter(pred)[j] == av.last());
                assert(av.drop_last()[k] == av[k]);
                assert(account_ids(av)[k] == av[k].id);
                assert(account_ids(av)[av.len() - 1] == av.last().id);
                assert(av[k].id != av.last().id);
            }
        } else {
            lemma_filter_positions(av.drop_last(), pred, i, j);
        }
    }
}

/// Helper: every row of a filtered table occurs in the unfiltered one.
proof fn lemma_filter_row_source(av: Seq<AccountV>, pred: spec_fn(AccountV) -> bool, i: int)
    requires
        0 <= i < av.filter(pred).len(),
    ensures
        exists|k: int| 0 <= k < av.len() && av[k] == av.filter(pred)[i],
    decreases av.len(),
{
    reveal(Seq::filter);
    if av.len() > 0 {
        let fa = av.drop_last().filter(pred);
        if pred(av.last()) && i == fa.len() {
            assert(av[av.len() - 1] == av.filter(pred)[i]);
        } else {
            lemma_filter_row_source(av.drop_last(), pred, i);
            let k = choose|k: int| 0 <= k < av.drop_last().len() && av.drop_last()[k] == fa[i];
            assert(av[k] == av.filter(pred)[i]);
        }
    }
}

} // verus!
