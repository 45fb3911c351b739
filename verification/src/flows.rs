//! Flow groups: named groupings of transactions.  Deleting a flow group
//! first detaches every transaction that references it.

use crate::error::AppError;
use crate::store::{
    flow_group_ids, lemma_ids_ok_push, lemma_ids_ok_remove, lemma_store_view, store_model, Store,
    StoreModel,
};
use crate::types::{CreateFlowGroupInput, FlowGroup, Transaction, UpdateFlowGroupInput};
use vstd::prelude::*;

verus! {

/// Some flow-group row carries this identifier.
pub open spec fn has_flow_group(flows: Seq<FlowGroup>, id: i64) -> bool {
    exists|j: int| 0 <= j < flows.len() && (#[trigger] flows[j]).id == id
}

/// The row that creating a flow group from `input` produces.
pub open spec fn created_flow_ok(f: FlowGroup, input: CreateFlowGroupInput, id: i64) -> bool {
    &&& f.id == id
    &&& f.name == input.name
    &&& f.description == input.description
    &&& (match input.color {
        Some(c) => f.color == c,
        None => f.color@ == "#F59E0B"@,
    })
    &&& f.is_template == (match input.is_template {
        Some(b) => b,
        None => false,
    })
}

/// The row that updating a flow group with `input` leaves behind.
pub open spec fn updated_flow_ok(f2: FlowGroup, f: FlowGroup, input: UpdateFlowGroupInput) -> bool {
    &&& f2.id == f.id
    &&& f2.name == input.name
    &&& f2.description == input.description
    &&& f2.color == input.color
    &&& f2.is_template == input.is_template
}

/// The transaction table with every reference to flow group `id` cleared.
pub open spec fn detached_from_flow(txs: Seq<Transaction>, id: i64) -> Seq<Transaction> {
    txs.map_values(
        |t: Transaction|
            if t.flow_group_id == Some(id) {
                Transaction { flow_group_id: None, ..t }
            } else {
                t
            },
    )
}

impl Store {
    /// The index of the flow-group row with this identifier, if any.
    pub(crate) fn find_flow_idx(&self, id: i64) -> (r: Option<usize>)
        ensures
            r matches Some(j) ==> j < self@.flow_groups.len() && self@.flow_groups[j as int].id
                == id,
            r matches Some(j) ==> j < self.flow_groups@.len(),
            r is None ==> !has_flow_group(self@.flow_groups, id),
    {
        proof {
            lemma_store_view(*self);
        }
        let n = self.flow_groups.len();
        let mut i: usize = 0;
        while i < n
            invariant
                n == self.flow_groups.len(),
                0 <= i <= n,
                forall|j: int| 0 <= j < i ==> (#[trigger] self.flow_groups@[j]).id != id,
            decreases n - i,
        {
            if self.flow_groups[i].id == id {
                proof {
                    lemma_store_view(*self);
                }
                return Some(i);
            }
            i = i + 1;
        }
        proof {
            lemma_store_view(*self);
        }
        None
    }

    /// Create a flow-group row.
    pub fn create_flow_group(&mut self, input: CreateFlowGroupInput) -> (r: Result<
        FlowGroup,
        AppError,
    >)
        requires
            old(self)@.wf(),
        ensures
            final(self)@.wf(),
            r is Ok <==> old(self)@.next_id < i64::MAX,
            r matches Ok(f) ==> created_flow_ok(f, input, (old(self)@.next_id) as i64)
                && final(self)@ == (StoreModel {
                next_id: old(self)@.next_id + 1,
                flow_groups: old(self)@.flow_groups.push(f),
                ..old(self)@
            }),
            r is Err ==> final(self)@ == old(self)@ && r->Err_0 is Internal,
    {
        proof {
            lemma_store_view(*old(self));
        }
        if self.next_id == i64::MAX {
            return Err(AppError::Internal("store identifiers exhausted".to_owned()));
        }
        let id = self.next_id;
        self.next_id = self.next_id + 1;
        let row = FlowGroup {
            id,
            name: input.name,
            description: input.description,
            color: match input.color {
                Some(c) => c,
                None => "#F59E0B".to_owned(),
            },
            is_template: match input.is_template {
                Some(b) => b,
                None => false,
            },
        };
        let out = row.clone_row();
        self.flow_groups.push(row);
        proof {
            lemma_store_view(*self);
            let m = store_model(*old(self));
            assert(self@ =~= (StoreModel {
                next_id: m.next_id + 1,
                flow_groups: m.flow_groups.push(out),
                ..m
            }));
            assert(flow_group_ids(m.flow_groups.push(out)) =~= flow_group_ids(
                m.flow_groups,
            ).push(id));
            lemma_ids_ok_push(flow_group_ids(m.flow_groups), m.next_id);
        }
        Ok(out)
    }

    /// Look up a flow-group row by identifier.
    pub fn get_flow_group_by_id(&self, id: i64) -> (r: Result<FlowGroup, AppError>)
        ensures
            r is Ok <==> has_flow_group(self@.flow_groups, id),
            r matches Ok(f) ==> exists|j: int|
                0 <= j < self@.flow_groups.len() && (#[trigger] self@.flow_groups[j]).id == id && f
                    == self@.flow_groups[j],
            r matches Err(e) ==> e is NotFound,
    {
        match self.find_flow_idx(id) {
            Some(i) => {
                let f = self.flow_groups[i].clone_row();
                proof {
                    lemma_store_view(*self);
                }
                Ok(f)
            },
            None => Err(AppError::NotFound("flow group not found".to_owned())),
        }
    }

    /// List every flow-group row, in insertion order; a name-sorted display
    /// is done at the edge.
    pub fn get_flow_groups(&self) -> (r: Vec<FlowGroup>)
        ensures
            r@ == self@.flow_groups,
    {
        proof {
            lemma_store_view(*self);
        }
        let n = self.flow_groups.len();
        let mut out: Vec<FlowGroup> = Vec::new();
        let mut i: usize = 0;
        while i < n
            invariant
                n == self.flow_groups.len(),
                0 <= i <= n,
                out@ == self.flow_groups@.take(i as int),
            decreases n - i,
        {
            let row = self.flow_groups[i].clone_row();
            out.push(row);
            proof {
                assert(self.flow_groups@.take(i as int + 1) =~= self.flow_groups@.take(
                    i as int,
                ).push(self.flow_groups@[i as int]));
            }
            i = i + 1;
        }
        proof {
            assert(self.flow_groups@.take(n as int) =~= self.flow_groups@);
        }
        out
    }

    /// Rewrite a flow-group row's fields.
    pub fn update_flow_group(&mut self, id: i64, input: UpdateFlowGroupInput) -> (r: Result<
        FlowGroup,
        AppError,
    >)
        requires
            old(self)@.wf(),
        ensures
            final(self)@.wf(),
            r is Ok <==> has_flow_group(old(self)@.flow_groups, id),
            r matches Ok(f) ==> exists|j: int|
                0 <= j < old(self)@.flow_groups.len() && (#[trigger] old(self)@.flow_groups[j]).id
                    == id && updated_flow_ok(f, old(self)@.flow_groups[j], input)
                    && final(self)@ == (StoreModel {
                    flow_groups: old(self)@.flow_groups.update(j, f),
                    ..old(self)@
                }),
            r is Err ==> final(self)@ == old(self)@ && r->Err_0 is NotFound,
    {
        match self.find_flow_idx(id) {
            Some(i) => {
                proof {
                    lemma_store_view(*old(self));
                }
                let old_row = self.flow_groups.remove(i);
                let row = FlowGroup {
                    id: old_row.id,
                    name: input.name,
                    description: input.description,
                    color: input.color,
                    is_template: input.is_template,
                };
                let out = row.clone_row();
                self.flow_groups.insert(i, row);
                proof {
                    lemma_store_view(*self);
                    let m = store_model(*old(self));
                    assert(self.flow_groups@ =~= old(self).flow_groups@.update(i as int, out));
                    assert(self@ =~= (StoreModel {
                        flow_groups: m.flow_groups.update(i as int, out),
                        ..m
                    }));
                    assert(flow_group_ids(m.flow_groups.update(i as int, out)) =~= flow_group_ids(
                        m.flow_groups,
                    ));
                }
                Ok(out)
            },
            None => Err(AppError::NotFound("flow group not found".to_owned())),
        }
    }

    /// Delete a flow group: first detach every transaction that references
    /// it, then remove the row.  Deleting a missing flow group still
    /// detaches.
    pub fn delete_flow_group(&mut self, id: i64) -> (r: Result<(), AppError>)
        requires
            old(self)@.wf(),
        ensures
            final(self)@.wf(),
            r is Ok,
            final(self)@ == (StoreModel {
                transactions: detached_from_flow(old(self)@.transactions, id),
                flow_groups: (if has_flow_group(old(self)@.flow_groups, id) {
                    old(self)@.flow_groups.remove(
                        choose|j: int|
                            0 <= j < old(self)@.flow_groups.len() && (
                            #[trigger] old(self)@.flow_groups[j]).id == id,
                    )
                } else {
                    old(self)@.flow_groups
                }),
                ..old(self)@
            }),
    {
        proof {
            lemma_store_view(*old(self));
        }
        let n = self.transactions.len();
        let mut i: usize = 0;
        while i < n
            invariant
                n == self.transactions.len(),
                0 <= i <= n,
                old(self)@.wf(),
                self.next_id == old(self).next_id,
                self.accounts == old(self).accounts,
                self.recurring == old(self).recurring,
                self.users == old(self).users,
                self.banks == old(self).banks,
                self.categories == old(self).categories,
                self.tags == old(self).tags,
                self.flow_groups == old(self).flow_groups,
                self.members == old(self).members,
                self.incomes == old(self).incomes,
                self.scheduled_transfers == old(self).scheduled_transfers,
                self.fixed_expenses == old(self).fixed_expenses,
                self.budget_categories == old(self).budget_categories,
                self.transaction_tags == old(self).transaction_tags,
                self.savings_goals == old(self).savings_goals,
                self.financial_goals == old(self).financial_goals,
                self.fund_withdrawals == old(self).fund_withdrawals,
                self.monthly_plans == old(self).monthly_plans,
                self.db_path == old(self).db_path,
                forall|j: int|
                    0 <= j < i ==> #[trigger] self.transactions@[j] == (
                    if old(self).transactions@[j].flow_group_id == Some(id) {
                        Transaction { flow_group_id: None, ..old(self).transactions@[j] }
                    } else {
                        old(self).transactions@[j]
                    }),
                forall|j: int|
                    i <= j < n ==> #[trigger] self.transactions@[j] == old(self).transactions@[j],
            decreases n - i,
        {
            let clear = match self.transactions[i].flow_group_id {
                Some(f) => f == id,
                None => false,
            };
            if clear {
                let mut row = self.transactions.remove(i);
                row.flow_group_id = None;
                self.transactions.insert(i, row);
            }
            i = i + 1;
        }
        proof {
            lemma_store_view(*self);
            let m = store_model(*old(self));
            assert(self.transactions@ =~= detached_from_flow(m.transactions, id));
            assert(crate::store::transaction_ids(detached_from_flow(m.transactions, id))
                =~= crate::store::transaction_ids(m.transactions));
            assert(self@ =~= (StoreModel {
                transactions: detached_from_flow(m.transactions, id),
                ..m
            }));
        }
        match self.find_flow_idx(id) {
            Some(i2) => {
                proof {
                    lemma_store_view(*self);
                }
                self.flow_groups.remove(i2);
                proof {
                    lemma_store_view(*self);
                    let m = store_model(*old(self));
                    let j = choose|j: int|
                        0 <= j < m.flow_groups.len() && (#[trigger] m.flow_groups[j]).id == id;
                    if j != i2 {
                        assert(flow_group_ids(m.flow_groups)[j] == m.flow_groups[j].id);
                        assert(flow_group_ids(m.flow_groups)[i2 as int] == m.flow_groups[
                        i2 as int].id);
                    }
                    assert(j == i2 as int);
                    assert(self@ =~= (StoreModel {
                        transactions: detached_from_flow(m.transactions, id),
                        flow_groups: m.flow_groups.remove(i2 as int),
                        ..m
                    }));
                    assert(flow_group_ids(m.flow_groups.remove(i2 as int)) =~= flow_group_ids(
                        m.flow_groups,
                    ).remove(i2 as int));
                    lemma_ids_ok_remove(flow_group_ids(m.flow_groups), i2 as int, m.next_id);
                }
                Ok(())
            },
            None => Ok(()),
        }
    }

    /// Attach a transaction to a flow group.  The flow group must exist;
    /// attaching a missing transaction is a no-op.
    pub fn add_transaction_to_flow(&mut self, flow_id: i64, transaction_id: i64) -> (r: Result<
        (),
        AppError,
    >)
        requires
            old(self)@.wf(),
        ensures
            final(self)@.wf(),
            r is Ok <==> has_flow_group(old(self)@.flow_groups, flow_id),
            r is Err ==> final(self)@ == old(self)@ && r->Err_0 is Database,
            r is Ok ==> ({
                ||| (!crate::transactions::has_tx(old(self)@.transactions, transaction_id)
                    && final(self)@ == old(self)@)
                ||| (exists|j: int|
                    0 <= j < old(self)@.transactions.len() && (
                    #[trigger] old(self)@.transactions[j]).id == transaction_id && final(self)@
                        == (StoreModel {
                        transactions: old(self)@.transactions.update(
                            j,
                            Transaction {
                                flow_group_id: Some(flow_id),
                                ..old(self)@.transactions[j]
                            },
                        ),
                        ..old(self)@
                    }))
            }),
    {
        match self.find_flow_idx(flow_id) {
            Some(_) => {},
            None => {
                return Err(
                    AppError::Database("flow group does not exist".to_owned()),
                );
            },
        };
        match self.find_tx_idx(transaction_id) {
            Some(i) => {
                proof {
                    lemma_store_view(*old(self));
                }
                let mut row = self.transactions.remove(i);
                row.flow_group_id = Some(flow_id);
                self.transactions.insert(i, row);
                proof {
                    lemma_store_view(*self);
                    let m = store_model(*old(self));
                    let t2 = Transaction {
                        flow_group_id: Some(flow_id),
                        ..m.transactions[i as int]
                    };
                    assert(self.transactions@ =~= old(self).transactions@.update(
                        i as int,
                        self.transactions@[i as int],
                    ));
                    assert(self.transactions@[i as int] == t2);
                    assert(self@ =~= (StoreModel {
                        transactions: m.transactions.update(i as int, t2),
                        ..m
                    }));
                    assert(crate::store::transaction_ids(m.transactions.update(i as int, t2))
                        =~= crate::store::transaction_ids(m.transactions));
                }
                Ok(())
            },
            None => Ok(()),
        }
    }

    /// Detach a transaction from whatever flow group it references.
    pub fn remove_transaction_from_flow(&mut self, _flow_id: i64, transaction_id: i64) -> (r:
        Result<(), AppError>)
        requires
            old(self)@.wf(),
        ensures
            final(self)@.wf(),
            r is Ok,
            !crate::transactions::has_tx(old(self)@.transactions, transaction_id) ==> final(self)@
                == old(self)@,
            crate::transactions::has_tx(old(self)@.transactions, transaction_id) ==> exists|j: int|
                0 <= j < old(self)@.transactions.len() && (#[trigger] old(self)@.transactions[j]).id
                    == transaction_id && final(self)@ == (StoreModel {
                    transactions: old(self)@.transactions.update(
                        j,
                        Transaction { flow_group_id: None, ..old(self)@.transactions[j] },
                    ),
                    ..old(self)@
                }),
    {
        match self.find_tx_idx(transaction_id) {
            Some(i) => {
                proof {
                    lemma_store_view(*old(self));
                }
                let mut row = self.transactions.remove(i);
                row.flow_group_id = None;
                self.transactions.insert(i, row);
                proof {
                    lemma_store_view(*self);
                    let m = store_model(*old(self));
                    let t2 = Transaction { flow_group_id: None, ..m.transactions[i as int] };
                    assert(self.transactions@ =~= old(self).transactions@.update(
                        i as int,
                        self.transactions@[i as int],
                    ));
                    assert(self.transactions@[i as int] == t2);
                    assert(self@ =~= (StoreModel {
                        transactions: m.transactions.update(i as int, t2),
                        ..m
                    }));
                    assert(crate::store::transaction_ids(m.transactions.update(i as int, t2))
                        =~= crate::store::transaction_ids(m.transactions));
                }
                Ok(())
            },
            None => Ok(()),
        }
    }
}

} // verus!
