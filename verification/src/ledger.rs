//! The ledger: every account's newest balance, in the order the accounts
//! were listed, with a running total.

use vstd::prelude::*;
use crate::date::Date;
use crate::record::{BalanceRecord, BalanceRecordView};

verus! {

/// One row of the ledger. `total` is the sum of the amounts down to this row.
#[derive(Debug)]
pub struct LedgerRow {
    pub account_name: String,
    pub amount: i64,
    pub date: Date,
    pub total: i128,
}

/// What a `LedgerRow` holds, as plain values.
pub struct LedgerRowView {
    pub account_name: Seq<char>,
    pub amount: int,
    pub date: Date,
    pub total: int,
}

impl View for LedgerRow {
    type V = LedgerRowView;

    open spec fn view(&self) -> LedgerRowView {
        LedgerRowView {
            account_name: self.account_name@,
            amount: self.amount as int,
            date: self.date,
            total: self.total as int,
        }
    }
}

impl DeepView for LedgerRow {
    type V = LedgerRowView;

    open spec fn deep_view(&self) -> LedgerRowView {
        self@
    }
}

impl LedgerRow {
    /// A copy of this row.
    pub fn duplicate(&self) -> (r: LedgerRow)
        ensures
            r == *self,
    {
        LedgerRow {
            account_name: self.account_name.clone(),
            amount: self.amount,
            date: self.date,
            total: self.total,
        }
    }
}

/// The sum of the amounts of the first `n` snapshots.
pub open spec fn amount_sum(snapshots: Seq<BalanceRecordView>, n: int) -> int
    decreases n,
{
    if n <= 0 {
        0
    } else {
        amount_sum(snapshots, n - 1) + snapshots[n - 1].amount
    }
}

/// The ledger of `snapshots`: the same rows in the same order, each with the
/// sum of the amounts from the first row down to itself.
pub open spec fn ledger_of(snapshots: Seq<BalanceRecordView>) -> Seq<LedgerRowView> {
    Seq::new(
        snapshots.len(),
        |k: int|
            LedgerRowView {
                account_name: snapshots[k].account_name,
                amount: snapshots[k].amount,
                date: snapshots[k].date,
                total: amount_sum(snapshots, k + 1),
            },
    )
}

/// A sum of `n` amounts of 64 bits stays within `n` times their range.
pub proof fn lemma_amount_sum_bounds(snapshots: Seq<BalanceRecordView>, n: int)
    requires
        0 <= n <= snapshots.len(),
        forall|k: int|
            0 <= k < snapshots.len() ==> i64::MIN <= (#[trigger] snapshots[k]).amount <= i64::MAX,
    ensures
        n * i64::MIN <= amount_sum(snapshots, n) <= n * i64::MAX,
    decreases n,
{
    if n > 0 {
        lemma_amount_sum_bounds(snapshots, n - 1);
        assert((n - 1) * i64::MIN + i64::MIN == n * i64::MIN) by (nonlinear_arith);
        assert((n - 1) * i64::MAX + i64::MAX == n * i64::MAX) by (nonlinear_arith);
    }
}

/// The ledger has one row for each snapshot, in the snapshots' order, with
/// the snapshot's account, amount and date.
pub proof fn lemma_ledger_keeps_rows(snapshots: Seq<BalanceRecordView>)
    ensures
        ledger_of(snapshots).len() == snapshots.len(),
        forall|k: int|
            0 <= k < snapshots.len() ==> {
                let row = #[trigger] ledger_of(snapshots)[k];
                &&& row.account_name == snapshots[k].account_name
                &&& row.amount == snapshots[k].amount
                &&& row.date == snapshots[k].date
            },
{
}

/// The total of row `k` is the sum of the amounts of the rows 0 to `k`: it
/// starts at the first amount and grows by each row's amount.
pub proof fn lemma_running_total(snapshots: Seq<BalanceRecordView>)
    ensures
        forall|k: int|
            0 <= k < snapshots.len() ==> (#[trigger] ledger_of(snapshots)[k]).total == amount_sum(
                snapshots,
                k + 1,
            ),
        snapshots.len() > 0 ==> ledger_of(snapshots)[0].total == snapshots[0].amount,
        forall|k: int|
            1 <= k < snapshots.len() ==> (#[trigger] ledger_of(snapshots)[k]).total == ledger_of(
                snapshots,
            )[k - 1].total + snapshots[k].amount,
{
    if snapshots.len() > 0 {
        assert(amount_sum(snapshots, 1) == amount_sum(snapshots, 0) + snapshots[0].amount);
    }
}

/// Builds the ledger from the accounts' snapshots, given in the order in
/// which the accounts were listed.
pub fn build_ledger(snapshots: &Vec<BalanceRecord>) -> (ledger: Vec<LedgerRow>)
    ensures
        ledger.deep_view() == ledger_of(snapshots.deep_view()),
        ledger.len() == snapshots.len(),
{
    let mut ledger: Vec<LedgerRow> = Vec::new();
    let mut total: i128 = 0;
    let mut k: usize = 0;
    while k < snapshots.len()
        invariant
            0 <= k <= snapshots.len(),
            ledger.len() == k,
            total == amount_sum(snapshots.deep_view(), k as int),
            forall|j: int| 0 <= j < k ==> (#[trigger] ledger[j])@ == ledger_of(snapshots.deep_view())[j],
        decreases snapshots.len() - k,
    {
        proof {
            lemma_amount_sum_bounds(snapshots.deep_view(), k as int);
            assert(k * i64::MIN >= usize::MAX * i64::MIN) by (nonlinear_arith)
                requires
                    0 <= k <= usize::MAX,
            ;
            assert(k * i64::MAX <= usize::MAX * i64::MAX) by (nonlinear_arith)
                requires
                    0 <= k <= usize::MAX,
            ;
        }
        let row = &snapshots[k];
        total = total + row.amount as i128;
        ledger.push(
            LedgerRow {
                account_name: row.account_name.clone(),
                amount: row.amount,
                date: row.date,
                total,
            },
        );
        k = k + 1;
    }
    ledger
}

} // verus!
