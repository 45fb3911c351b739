//! Reporting sums: the monthly income/expense summary and the per-category
//! expense breakdown.  Amounts are integer sums; a percentage share is a
//! presentation-layer ratio and is left to it.

use crate::date::{
    date_le, date_le_spec, date_ord, date_valid, lemma_date_ord_le, lemma_next_date_ord,
    lemma_next_date_tight, next_date, Date,
};
use crate::error::AppError;
use crate::ledger::fits_i64;
use crate::store::{lemma_store_view, store_model, Store};
use crate::types::{Category, Transaction, TxStatus, TxType};
use vstd::prelude::*;

verus! {

/// The income and expense totals of one calendar month, with the expense
/// breakdown by category.
pub struct MonthlySummary {
    pub year: i32,
    pub month: u8,
    pub total_income: i64,
    pub total_expense: i64,
    pub net_change: i64,
    pub by_category: Vec<CategoryBreakdown>,
}

/// One category's share of the completed expenses of a report window.
pub struct CategoryBreakdown {
    pub category_id: i64,
    pub category_name: String,
    pub category_color: String,
    pub amount: i64,
    pub transaction_count: i64,
}

/// Sum of the amounts of the rows the window predicate admits.
pub open spec fn sum_matching(txs: Seq<Transaction>, w: spec_fn(Transaction) -> bool) -> int
    decreases txs.len(),
{
    if txs.len() == 0 {
        0
    } else {
        sum_matching(txs.drop_last(), w) + (if w(txs.last()) {
            txs.last().amount as int
        } else {
            0int
        })
    }
}

/// How many rows the window predicate admits.
pub open spec fn count_matching(txs: Seq<Transaction>, w: spec_fn(Transaction) -> bool) -> int
    decreases txs.len(),
{
    if txs.len() == 0 {
        0
    } else {
        count_matching(txs.drop_last(), w) + (if w(txs.last()) {
            1int
        } else {
            0int
        })
    }
}

/// A completed row of the given type dated inside `[start, end)`.
pub open spec fn in_window(t: Transaction, typ: TxType, start: Date, end: Date) -> bool {
    t.status is Completed && t.transaction_type == typ && date_le_spec(start, t.date)
        && !date_le_spec(end, t.date)
}

/// A completed row of the given type dated inside `[start, thru]`.
pub open spec fn in_window_thru(t: Transaction, typ: TxType, start: Date, thru: Date) -> bool {
    t.status is Completed && t.transaction_type == typ && date_le_spec(start, t.date)
        && date_le_spec(t.date, thru)
}

/// The rows of the expense breakdown over `cats`: one row per category
/// that some admitted expense references, in table order, carrying that
/// category's summed amount and row count.
pub open spec fn breakdown_ok(
    rows: Seq<CategoryBreakdown>,
    cats: Seq<Category>,
    txs: Seq<Transaction>,
    w: spec_fn(Transaction) -> bool,
) -> bool {
    let active = cats.filter(
        |c: Category| count_matching(txs, |t: Transaction| w(t) && t.category_id == Some(c.id))
            > 0,
    );
    &&& rows.len() == active.len()
    &&& forall|k: int|
        0 <= k < rows.len() ==> {
            &&& (#[trigger] rows[k]).category_id == active[k].id
            &&& rows[k].category_name == active[k].name
            &&& rows[k].category_color == active[k].color
            &&& rows[k].amount as int == sum_matching(
                txs,
                |t: Transaction| w(t) && t.category_id == Some(active[k].id),
            )
            &&& rows[k].transaction_count as int == count_matching(
                txs,
                |t: Transaction| w(t) && t.category_id == Some(active[k].id),
            )
        }
}


/// One day of the cash-flow series: that day's completed income and
/// expense sums and the running balance of the series up to it.
pub struct CashFlowData {
    pub date: Date,
    pub income: i64,
    pub expense: i64,
    pub balance: i64,
}

/// How many completed rows are dated on `dd`.
pub open spec fn day_count(txs: Seq<Transaction>, dd: Date) -> int {
    count_matching(txs, |t: Transaction| t.status is Completed && t.date == dd)
}

/// Sum of the completed income amounts dated on `dd`.
pub open spec fn day_income(txs: Seq<Transaction>, dd: Date) -> int {
    sum_matching(
        txs,
        |t: Transaction| t.status is Completed && t.transaction_type is Income && t.date == dd,
    )
}

/// Sum of the completed expense amounts dated on `dd`.
pub open spec fn day_expense(txs: Seq<Transaction>, dd: Date) -> int {
    sum_matching(
        txs,
        |t: Transaction| t.status is Completed && t.transaction_type is Expense && t.date == dd,
    )
}

/// The running balance of the series through index `k`.
pub open spec fn balance_prefix(rows: Seq<CashFlowData>, k: int) -> int
    decreases k + 1,
{
    if k < 0 {
        0
    } else {
        balance_prefix(rows, k - 1) + rows[k].income - rows[k].expense
    }
}

/// The cash-flow series of the window: one entry per calendar day in
/// `[start, end]` that carries at least one completed row, in ascending
/// day order, with that day's income and expense sums and the running
/// balance.
pub open spec fn cash_flow_ok(
    rows: Seq<CashFlowData>,
    txs: Seq<Transaction>,
    start: Date,
    end: Date,
) -> bool {
    &&& (forall|k: int|
        0 <= k < rows.len() ==> {
            let dd = (#[trigger] rows[k]).date;
            &&& date_le_spec(start, dd) && date_le_spec(dd, end) && date_valid(dd)
            &&& day_count(txs, dd) > 0
            &&& rows[k].income as int == day_income(txs, dd)
            &&& rows[k].expense as int == day_expense(txs, dd)
            &&& rows[k].balance as int == balance_prefix(rows, k)
        })
    &&& (forall|i: int, j: int|
        0 <= i < j < rows.len() ==> date_ord(rows[i].date) < date_ord(rows[j].date))
    &&& (forall|dd: Date|
        date_valid(dd) && date_le_spec(start, dd) && date_le_spec(dd, end) && #[trigger]
        day_count(txs, dd) > 0 ==> exists|k: int|
            0 <= k < rows.len() && (#[trigger] rows[k]).date == dd)
}

/// Every category's admitted sum and row count is representable: the
/// condition under which a breakdown succeeds.
pub open spec fn breakdown_sums_fit(
    cats: Seq<Category>,
    txs: Seq<Transaction>,
    w: spec_fn(Transaction) -> bool,
) -> bool {
    forall|k: int|
        0 <= k < cats.len() ==> fits_i64(
            sum_matching(
                txs,
                |t: Transaction| w(t) && t.category_id == Some((#[trigger] cats[k]).id),
            ),
        ) && fits_i64(
            count_matching(
                txs,
                |t: Transaction| w(t) && t.category_id == Some(cats[k].id),
            ),
        )
}


/// Appending a row leaves earlier prefix balances alone and extends the
/// last one by the new row's net amount.
proof fn lemma_balance_prefix_push(old_rows: Seq<CashFlowData>, rows: Seq<CashFlowData>, k: int)
    requires
        rows.len() == old_rows.len() + 1,
        forall|j: int| 0 <= j < old_rows.len() ==> rows[j] == old_rows[j],
        0 <= k < rows.len(),
    ensures
        k < old_rows.len() ==> balance_prefix(rows, k) == balance_prefix(old_rows, k),
        k == rows.len() - 1 ==> balance_prefix(rows, k) == balance_prefix(
            old_rows,
            old_rows.len() - 1,
        ) + rows[k].income - rows[k].expense,
{
    if k < old_rows.len() {
        lemma_balance_prefix_same(old_rows, rows, k);
    } else {
        lemma_balance_prefix_same(old_rows, rows, k - 1);
    }
}

/// Prefix balances agree on a shared prefix.
proof fn lemma_balance_prefix_same(old_rows: Seq<CashFlowData>, rows: Seq<CashFlowData>, k: int)
    requires
        forall|j: int| 0 <= j <= k ==> j < old_rows.len() && j < rows.len() && rows[j] == old_rows[j],
        k < old_rows.len(),
        k < rows.len(),
    ensures
        balance_prefix(rows, k) == balance_prefix(old_rows, k),
    decreases k + 1,
{
    if k >= 0 {
        lemma_balance_prefix_same(old_rows, rows, k - 1);
    }
}

impl Store {
    /// Exact sum and count of the rows of a type admitted by the window,
    /// reported unrepresentable when either leaves the store's range.
    fn sum_window(&self, typ: TxType, start: Date, end: Date, thru: bool) -> (r: Option<
        (i64, i64),
    >)
        ensures
            ({
                let w = if thru {
                    |t: Transaction| in_window_thru(t, typ, start, end)
                } else {
                    |t: Transaction| in_window(t, typ, start, end)
                };
                &&& (r matches Some(p) ==> p.0 as int == sum_matching(self@.transactions, w)
                    && p.1 as int == count_matching(self@.transactions, w))
                &&& (r is Some <==> fits_i64(sum_matching(self@.transactions, w)) && fits_i64(
                    count_matching(self@.transactions, w),
                ))
            }),
    {
        proof {
            lemma_store_view(*self);
        }
        let ghost w = if thru {
            |t: Transaction| in_window_thru(t, typ, start, end)
        } else {
            |t: Transaction| in_window(t, typ, start, end)
        };
        let n = self.transactions.len();
        let mut acc: i128 = 0;
        let mut count: i128 = 0;
        let mut i: usize = 0;
        while i < n
            invariant
                n == self.transactions.len(),
                0 <= i <= n,
                count == count_matching(self.transactions@.take(i as int), w),
                acc as int == sum_matching(self.transactions@.take(i as int), w),
                -(i as int) * 0x8000_0000_0000_0000 <= acc as int <= (i as int)
                    * 0x8000_0000_0000_0000,
                0 <= count <= i,
                w == (if thru {
                    |t: Transaction| in_window_thru(t, typ, start, end)
                } else {
                    |t: Transaction| in_window(t, typ, start, end)
                }),
            decreases n - i,
        {
            let ghost prefix = self.transactions@.take(i as int);
            let ghost prefix2 = self.transactions@.take(i as int + 1);
            proof {
                assert(prefix2.drop_last() =~= prefix);
                assert(prefix2.last() == self.transactions@[i as int]);
                assert(((i as int) + 1) * 0x8000_0000_0000_0000 == (i as int)
                    * 0x8000_0000_0000_0000 + 0x8000_0000_0000_0000) by (nonlinear_arith);
            }
            let t = &self.transactions[i];
            let matched_type = match (t.status, t.transaction_type, typ) {
                (TxStatus::Completed, TxType::Expense, TxType::Expense) => true,
                (TxStatus::Completed, TxType::Income, TxType::Income) => true,
                (TxStatus::Completed, TxType::Transfer, TxType::Transfer) => true,
                _ => false,
            };
            let dated = if thru {
                date_le(start, t.date) && date_le(t.date, end)
            } else {
                date_le(start, t.date) && !date_le(end, t.date)
            };
            if matched_type && dated {
                acc = acc + (t.amount as i128);
                count = count + 1;
            }
            i = i + 1;
        }
        proof {
            assert(self.transactions@.take(n as int) =~= self.transactions@);
        }
        if acc >= (i64::MIN as i128) && acc <= (i64::MAX as i128) && count <= (i64::MAX as i128) {
            Some((acc as i64, count as i64))
        } else {
            None
        }
    }

    /// Exact sum and count of one category's admitted expenses, reported
    /// unrepresentable when either leaves the store's range.
    fn category_window(
        &self,
        cid: i64,
        start: Date,
        end: Date,
        thru: bool,
        Ghost(w): Ghost<spec_fn(Transaction) -> bool>,
    ) -> (r: Option<(i64, i64)>)
        requires
            w == (if thru {
                |t: Transaction| in_window_thru(t, TxType::Expense, start, end)
            } else {
                |t: Transaction| in_window(t, TxType::Expense, start, end)
            }),
        ensures
            ({
                let wc = |t: Transaction| w(t) && t.category_id == Some(cid);
                &&& (r matches Some(p) ==> p.0 as int == sum_matching(self@.transactions, wc)
                    && p.1 as int == count_matching(self@.transactions, wc))
                &&& (r is Some <==> fits_i64(sum_matching(self@.transactions, wc)) && fits_i64(
                    count_matching(self@.transactions, wc),
                ))
            }),
    {
        proof {
            lemma_store_view(*self);
        }
        let ghost wc = |t: Transaction| w(t) && t.category_id == Some(cid);
        let n = self.transactions.len();
        let mut acc: i128 = 0;
        let mut count: i128 = 0;
        let mut i: usize = 0;
        while i < n
            invariant
                n == self.transactions.len(),
                0 <= i <= n,
                count == count_matching(self.transactions@.take(i as int), wc),
                acc as int == sum_matching(self.transactions@.take(i as int), wc),
                -(i as int) * 0x8000_0000_0000_0000 <= acc as int <= (i as int)
                    * 0x8000_0000_0000_0000,
                0 <= count <= i,
                w == (if thru {
                    |t: Transaction| in_window_thru(t, TxType::Expense, start, end)
                } else {
                    |t: Transaction| in_window(t, TxType::Expense, start, end)
                }),
                wc == (|t: Transaction| w(t) && t.category_id == Some(cid)),
            decreases n - i,
        {
            let ghost prefix = self.transactions@.take(i as int);
            let ghost prefix2 = self.transactions@.take(i as int + 1);
            proof {
                assert(prefix2.drop_last() =~= prefix);
                assert(prefix2.last() == self.transactions@[i as int]);
                assert(((i as int) + 1) * 0x8000_0000_0000_0000 == (i as int)
                    * 0x8000_0000_0000_0000 + 0x8000_0000_0000_0000) by (nonlinear_arith);
            }
            let t = &self.transactions[i];
            let matched_type = match (t.status, t.transaction_type) {
                (TxStatus::Completed, TxType::Expense) => true,
                _ => false,
            };
            let dated = if thru {
                date_le(start, t.date) && date_le(t.date, end)
            } else {
                date_le(start, t.date) && !date_le(end, t.date)
            };
            let in_cat = match t.category_id {
                Some(c) => c == cid,
                None => false,
            };
            if matched_type && dated && in_cat {
                acc = acc + (t.amount as i128);
                count = count + 1;
            }
            i = i + 1;
        }
        proof {
            assert(self.transactions@.take(n as int) =~= self.transactions@);
        }
        if acc >= (i64::MIN as i128) && acc <= (i64::MAX as i128) && count <= (i64::MAX as i128) {
            Some((acc as i64, count as i64))
        } else {
            None
        }
    }

    /// The expense breakdown by category over the window.  Fails only when
    /// some category's sum or count leaves the store's range.
    fn breakdown_window(&self, start: Date, end: Date, thru: bool) -> (r: Result<
        Vec<CategoryBreakdown>,
        AppError,
    >)
        ensures
            ({
                let w = if thru {
                    |t: Transaction| in_window_thru(t, TxType::Expense, start, end)
                } else {
                    |t: Transaction| in_window(t, TxType::Expense, start, end)
                };
                &&& (r matches Ok(rows) ==> breakdown_ok(
                    rows@,
                    self@.categories,
                    self@.transactions,
                    w,
                ))
                &&& (r is Ok <==> breakdown_sums_fit(self@.categories, self@.transactions, w))
            }),
            r matches Err(e) ==> e is Database,
    {
        proof {
            lemma_store_view(*self);
        }
        let ghost w = if thru {
            |t: Transaction| in_window_thru(t, TxType::Expense, start, end)
        } else {
            |t: Transaction| in_window(t, TxType::Expense, start, end)
        };
        let ghost active_pred = |c: Category|
            count_matching(
                self@.transactions,
                |t: Transaction| w(t) && t.category_id == Some(c.id),
            ) > 0;
        let nc = self.categories.len();
        let mut rows: Vec<CategoryBreakdown> = Vec::new();
        let mut i: usize = 0;
        while i < nc
            invariant
                nc == self.categories.len(),
                0 <= i <= nc,
                self@ == store_model(*self),
                w == (if thru {
                    |t: Transaction| in_window_thru(t, TxType::Expense, start, end)
                } else {
                    |t: Transaction| in_window(t, TxType::Expense, start, end)
                }),
                active_pred == (|c: Category|
                    count_matching(
                        self@.transactions,
                        |t: Transaction| w(t) && t.category_id == Some(c.id),
                    ) > 0),
                forall|k2: int|
                    0 <= k2 < i ==> fits_i64(
                        sum_matching(
                            self@.transactions,
                            |t: Transaction| w(t) && t.category_id == Some(
                                (#[trigger] self@.categories[k2]).id,
                            ),
                        ),
                    ) && fits_i64(
                        count_matching(
                            self@.transactions,
                            |t: Transaction| w(t) && t.category_id == Some(
                                self@.categories[k2].id,
                            ),
                        ),
                    ),
                ({
                    let active = self.categories@.take(i as int).filter(active_pred);
                    &&& rows@.len() == active.len()
                    &&& forall|k: int|
                        0 <= k < rows@.len() ==> {
                            &&& (#[trigger] rows@[k]).category_id == active[k].id
                            &&& rows@[k].category_name == active[k].name
                            &&& rows@[k].category_color == active[k].color
                            &&& rows@[k].amount as int == sum_matching(
                                self@.transactions,
                                |t: Transaction| w(t) && t.category_id == Some(active[k].id),
                            )
                            &&& rows@[k].transaction_count as int == count_matching(
                                self@.transactions,
                                |t: Transaction| w(t) && t.category_id == Some(active[k].id),
                            )
                        }
                }),
            decreases nc - i,
        {
            let ghost prefix = self.categories@.take(i as int);
            let ghost prefix2 = self.categories@.take(i as int + 1);
            proof {
                assert(prefix2.drop_last() =~= prefix);
                assert(prefix2.last() == self.categories@[i as int]);
            }
            let cid = self.categories[i].id;
            let sums = self.category_window(cid, start, end, thru, Ghost(w));
            let positive = match &sums {
                Some(p) => p.1 > 0,
                None => true,
            };
            if positive {
                let (total, count) = match sums {
                    Some(p) => p,
                    None => {
                        proof {
                            assert(!breakdown_sums_fit(
                                self@.categories,
                                self@.transactions,
                                w,
                            ));
                        }
                        return Err(
                            AppError::Database("category sum out of range".to_owned()),
                        );
                    },
                };
                let c = &self.categories[i];
                rows.push(CategoryBreakdown {
                    category_id: c.id,
                    category_name: c.name.clone(),
                    category_color: c.color.clone(),
                    amount: total,
                    transaction_count: count,
                });
                proof {
                    reveal(Seq::filter);
                    assert(active_pred(prefix2.last()));
                    assert(prefix2.filter(active_pred) == prefix.filter(active_pred).push(
                        prefix2.last(),
                    ));
                }
            } else {
                proof {
                    reveal(Seq::filter);
                    assert(!active_pred(prefix2.last()));
                    assert(prefix2.filter(active_pred) == prefix.filter(active_pred));
                }
            }
            i = i + 1;
        }
        proof {
            assert(self.categories@.take(nc as int) =~= self.categories@);
        }
        Ok(rows)
    }

    /// The income and expense totals of one calendar month, with the
    /// expense breakdown by category.  Fails only when a sum leaves the
    /// store's amount range.
    pub fn get_monthly_summary(&self, year: i32, month: u8) -> (r: Result<
        MonthlySummary,
        AppError,
    >)
        requires
            year < i32::MAX,
            month < u8::MAX,
        ensures
            ({
                let start = Date { year, month, day: 1 };
                let end = if month == 12 {
                    Date { year: (year + 1) as i32, month: 1, day: 1 }
                } else {
                    Date { year, month: (month + 1) as u8, day: 1 }
                };
                let income = sum_matching(
                    self@.transactions,
                    |t: Transaction| in_window(t, TxType::Income, start, end),
                );
                let expense = sum_matching(
                    self@.transactions,
                    |t: Transaction| in_window(t, TxType::Expense, start, end),
                );
                &&& (r matches Ok(s) ==> s.year == year && s.month == month && s.total_income
                    as int == income && s.total_expense as int == expense && s.net_change as int
                    == income - expense && breakdown_ok(
                    s.by_category@,
                    self@.categories,
                    self@.transactions,
                    |t: Transaction| in_window(t, TxType::Expense, start, end),
                ))
                &&& (r is Ok <==> fits_i64(income) && fits_i64(
                    count_matching(
                        self@.transactions,
                        |t: Transaction| in_window(t, TxType::Income, start, end),
                    ),
                ) && fits_i64(expense) && fits_i64(
                    count_matching(
                        self@.transactions,
                        |t: Transaction| in_window(t, TxType::Expense, start, end),
                    ),
                ) && fits_i64(income - expense) && breakdown_sums_fit(
                    self@.categories,
                    self@.transactions,
                    |t: Transaction| in_window(t, TxType::Expense, start, end),
                ))
                &&& (r matches Err(e) ==> e is Database)
            }),
    {
        let start = Date { year, month, day: 1 };
        let end = if month == 12 {
            Date { year: year + 1, month: 1, day: 1 }
        } else {
            Date { year, month: month + 1, day: 1 }
        };
        let total_income = match self.sum_window(TxType::Income, start, end, false) {
            Some(p) => p.0,
            None => {
                return Err(AppError::Database("income sum out of range".to_owned()));
            },
        };
        let total_expense = match self.sum_window(TxType::Expense, start, end, false) {
            Some(p) => p.0,
            None => {
                return Err(AppError::Database("expense sum out of range".to_owned()));
            },
        };
        let net: i128 = (total_income as i128) - (total_expense as i128);
        if net < (i64::MIN as i128) || net > (i64::MAX as i128) {
            return Err(AppError::Database("net change out of range".to_owned()));
        }
        let by_category = self.breakdown_window(start, end, false)?;
        Ok(
            MonthlySummary {
                year,
                month,
                total_income,
                total_expense,
                net_change: net as i64,
                by_category,
            },
        )
    }

    /// The expense breakdown by category over an inclusive date range.
    pub fn get_category_breakdown(&self, start_date: Date, end_date: Date) -> (r: Result<
        Vec<CategoryBreakdown>,
        AppError,
    >)
        ensures
            r matches Ok(rows) ==> breakdown_ok(
                rows@,
                self@.categories,
                self@.transactions,
                |t: Transaction| in_window_thru(t, TxType::Expense, start_date, end_date),
            ),
            r is Ok <==> breakdown_sums_fit(
                self@.categories,
                self@.transactions,
                |t: Transaction| in_window_thru(t, TxType::Expense, start_date, end_date),
            ),
            r matches Err(e) ==> e is Database,
    {
        self.breakdown_window(start_date, end_date, true)
    }

    /// One day's completed income and expense sums and its completed row
    /// count, reported unrepresentable when a value leaves the store's
    /// range.
    fn day_window(&self, dd: Date) -> (r: Option<(i64, i64, i64)>)
        ensures
            r matches Some(p) ==> p.0 as int == day_income(self@.transactions, dd) && p.1 as int
                == day_expense(self@.transactions, dd) && p.2 as int == day_count(
                self@.transactions,
                dd,
            ),
            r is Some <==> fits_i64(day_income(self@.transactions, dd)) && fits_i64(
                day_expense(self@.transactions, dd),
            ) && fits_i64(day_count(self@.transactions, dd)),
    {
        proof {
            lemma_store_view(*self);
        }
        let ghost wi = |t: Transaction| t.status is Completed && t.transaction_type is Income
            && t.date == dd;
        let ghost we = |t: Transaction| t.status is Completed && t.transaction_type is Expense
            && t.date == dd;
        let ghost wc = |t: Transaction| t.status is Completed && t.date == dd;
        let n = self.transactions.len();
        let mut inc: i128 = 0;
        let mut exp: i128 = 0;
        let mut count: i128 = 0;
        let mut i: usize = 0;
        while i < n
            invariant
                n == self.transactions.len(),
                0 <= i <= n,
                inc as int == sum_matching(self.transactions@.take(i as int), wi),
                exp as int == sum_matching(self.transactions@.take(i as int), we),
                count == count_matching(self.transactions@.take(i as int), wc),
                -(i as int) * 0x8000_0000_0000_0000 <= inc as int <= (i as int)
                    * 0x8000_0000_0000_0000,
                -(i as int) * 0x8000_0000_0000_0000 <= exp as int <= (i as int)
                    * 0x8000_0000_0000_0000,
                0 <= count <= i,
                wi == (|t: Transaction| t.status is Completed && t.transaction_type is Income
                    && t.date == dd),
                we == (|t: Transaction| t.status is Completed && t.transaction_type is Expense
                    && t.date == dd),
                wc == (|t: Transaction| t.status is Completed && t.date == dd),
            decreases n - i,
        {
            let ghost prefix = self.transactions@.take(i as int);
            let ghost prefix2 = self.transactions@.take(i as int + 1);
            proof {
                assert(prefix2.drop_last() =~= prefix);
                assert(prefix2.last() == self.transactions@[i as int]);
                assert(((i as int) + 1) * 0x8000_0000_0000_0000 == (i as int)
                    * 0x8000_0000_0000_0000 + 0x8000_0000_0000_0000) by (nonlinear_arith);
            }
            let t = &self.transactions[i];
            let completed = match t.status {
                TxStatus::Completed => true,
                TxStatus::Planned => false,
            };
            if completed && t.date == dd {
                count = count + 1;
                match t.transaction_type {
                    TxType::Income => {
                        inc = inc + (t.amount as i128);
                    },
                    TxType::Expense => {
                        exp = exp + (t.amount as i128);
                    },
                    TxType::Transfer => {},
                }
            }
            i = i + 1;
        }
        proof {
            assert(self.transactions@.take(n as int) =~= self.transactions@);
        }
        if inc >= (i64::MIN as i128) && inc <= (i64::MAX as i128) && exp >= (i64::MIN as i128)
            && exp <= (i64::MAX as i128) && count <= (i64::MAX as i128) {
            Some((inc as i64, exp as i64, count as i64))
        } else {
            None
        }
    }

    /// The cash-flow series of an inclusive date window: one entry per
    /// calendar day carrying at least one completed row, in ascending day
    /// order, with the day's income and expense sums and a running
    /// balance.  Fails only when a sum or the running balance leaves the
    /// store's amount range.
    pub fn get_cash_flow_data(&self, start_date: Date, end_date: Date) -> (r: Result<
        Vec<CashFlowData>,
        AppError,
    >)
        requires
            date_valid(start_date),
            date_valid(end_date),
        ensures
            r matches Ok(rows) ==> cash_flow_ok(rows@, self@.transactions, start_date, end_date),
            r matches Err(e) ==> e is Database,
    {
        let mut out: Vec<CashFlowData> = Vec::new();
        if !date_le(start_date, end_date) {
            proof {
                assert forall|dd: Date|
                    date_valid(dd) && date_le_spec(start_date, dd) && date_le_spec(dd, end_date)
                        && #[trigger] day_count(self@.transactions, dd) > 0 implies exists|k: int|
                    0 <= k < out@.len() && (#[trigger] out@[k]).date == dd by {
                    lemma_date_ord_le(start_date, dd);
                    lemma_date_ord_le(dd, end_date);
                    lemma_date_ord_le(start_date, end_date);
                }
            }
            return Ok(out);
        }
        proof {
            lemma_store_view(*self);
        }
        let mut running: i128 = 0;
        let mut day = start_date;
        let mut done = false;
        while !done
            invariant
                date_valid(day),
                date_valid(start_date),
                date_valid(end_date),
                date_le_spec(start_date, day),
                !done ==> date_le_spec(day, end_date),
                done ==> day == end_date,
                self@ == store_model(*self),
                forall|k: int|
                    0 <= k < out@.len() ==> {
                        let dd = (#[trigger] out@[k]).date;
                        &&& date_le_spec(start_date, dd) && date_valid(dd)
                        &&& (if done {
                            date_le_spec(dd, end_date)
                        } else {
                            !date_le_spec(day, dd)
                        })
                        &&& day_count(self@.transactions, dd) > 0
                        &&& out@[k].income as int == day_income(self@.transactions, dd)
                        &&& out@[k].expense as int == day_expense(self@.transactions, dd)
                        &&& out@[k].balance as int == balance_prefix(out@, k)
                    },
                forall|i2: int, j2: int|
                    0 <= i2 < j2 < out@.len() ==> date_ord(out@[i2].date) < date_ord(
                        out@[j2].date,
                    ),
                !done ==> (forall|dd: Date|
                    date_valid(dd) && date_le_spec(start_date, dd) && !date_le_spec(day, dd)
                        && #[trigger] day_count(self@.transactions, dd) > 0 ==> exists|k: int|
                        0 <= k < out@.len() && (#[trigger] out@[k]).date == dd),
                done ==> (forall|dd: Date|
                    date_valid(dd) && date_le_spec(start_date, dd) && date_le_spec(dd, end_date)
                        && #[trigger] day_count(self@.transactions, dd) > 0 ==> exists|k: int|
                        0 <= k < out@.len() && (#[trigger] out@[k]).date == dd),
                running as int == balance_prefix(out@, out@.len() - 1),
                out@.len() <= date_ord(day) - date_ord(start_date) + (if done {
                    1int
                } else {
                    0int
                }),
                -(out@.len() as int) * 0x2_0000_0000_0000_0000 <= running as int <= (out@.len()
                    as int) * 0x2_0000_0000_0000_0000,
            decreases (if done {
                0int
            } else {
                date_ord(end_date) - date_ord(day) + 1
            }),
        {
            let sums = match self.day_window(day) {
                Some(p) => p,
                None => {
                    return Err(AppError::Database("day sum out of range".to_owned()));
                },
            };
            if sums.2 > 0 {
                proof {
                    assert(((out@.len() as int) + 1) * 0x2_0000_0000_0000_0000 == (out@.len()
                        as int) * 0x2_0000_0000_0000_0000 + 0x2_0000_0000_0000_0000)
                        by (nonlinear_arith);
                }
                let delta: i128 = (sums.0 as i128) - (sums.1 as i128);
                running = running + delta;
                if running < (i64::MIN as i128) || running > (i64::MAX as i128) {
                    return Err(
                        AppError::Database("running balance out of range".to_owned()),
                    );
                }
                let ghost out_old = out@;
                out.push(
                    CashFlowData {
                        date: day,
                        income: sums.0,
                        expense: sums.1,
                        balance: running as i64,
                    },
                );
                proof {
                    assert(out@.drop_last() =~= out_old);
                    assert forall|k: int| 0 <= k < out@.len() implies #[trigger] out@[k].balance
                        as int == balance_prefix(out@, k) by {
                        lemma_balance_prefix_push(out_old, out@, k);
                    }
                    assert(running as int == balance_prefix(out@, out@.len() - 1)) by {
                        lemma_balance_prefix_push(out_old, out@, out@.len() - 1);
                    }
                    assert forall|k: int|
                        0 <= k < out_old.len() implies date_ord(#[trigger] out_old[k].date)
                        < date_ord(day) by {
                        lemma_date_ord_le(day, out_old[k].date);
                    }
                }
            }
            if day == end_date {
                proof {
                    assert forall|k: int|
                        0 <= k < out@.len() implies date_le_spec(
                        (#[trigger] out@[k]).date,
                        end_date,
                    ) by {
                        if !date_le_spec(day, out@[k].date) {
                            lemma_date_ord_le(out@[k].date, day);
                            lemma_date_ord_le(day, out@[k].date);
                        }
                    }
                    assert forall|dd: Date|
                        date_valid(dd) && date_le_spec(start_date, dd) && date_le_spec(
                            dd,
                            end_date,
                        ) && #[trigger] day_count(self@.transactions, dd) > 0 implies exists|
                        k: int,
                    |
                        0 <= k < out@.len() && (#[trigger] out@[k]).date == dd by {
                        if date_le_spec(day, dd) {
                            lemma_date_ord_le(day, dd);
                            lemma_date_ord_le(dd, end_date);
                            lemma_date_ord_le(dd, day);
                            assert(dd == day);
                            assert(out@[out@.len() - 1].date == dd);
                        }
                    }
                }
                done = true;
            } else {
                proof {
                    lemma_date_ord_le(day, end_date);
                    if day == (Date { year: crate::date::MAX_YEAR, month: 12, day: 31 }) {
                        lemma_date_ord_le(end_date, day);
                        assert(date_le_spec(end_date, day));
                        assert(day == end_date);
                    }
                    lemma_next_date_ord(day);
                }
                let ghost day_old = day;
                day = next_date(day);
                proof {
                    assert forall|k: int|
                        0 <= k < out@.len() implies !date_le_spec(day, #[trigger] out@[k].date) by {
                        if date_le_spec(day, out@[k].date) {
                            lemma_date_ord_le(day, out@[k].date);
                        }
                    }
                    assert forall|dd: Date|
                        date_valid(dd) && date_le_spec(start_date, dd) && !date_le_spec(day, dd)
                            && #[trigger] day_count(self@.transactions, dd) > 0 implies exists|
                        k: int,
                    |
                        0 <= k < out@.len() && (#[trigger] out@[k]).date == dd by {
                        if date_le_spec(day_old, dd) {
                            lemma_next_date_tight(day_old, dd);
                            assert(dd == day_old);
                            assert(out@[out@.len() - 1].date == dd);
                        }
                    }
                    assert(date_le_spec(start_date, day)) by {
                        lemma_date_ord_le(start_date, day_old);
                        lemma_date_ord_le(start_date, day);
                    }
                }
            }
        }
        proof {
            assert(cash_flow_ok(out@, self@.transactions, start_date, end_date));
        }
        Ok(out)
    }
}

} // verus!