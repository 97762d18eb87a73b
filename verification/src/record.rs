//! Balance records and the choice of an account's newest one.

use vstd::prelude::*;
use crate::date::Date;

verus! {

/// One dated balance of one account. `amount` counts hundredths.
#[derive(Debug)]
pub struct BalanceRecord {
    pub date: Date,
    pub amount: i64,
    pub account_name: String,
}

/// What a `BalanceRecord` holds, as plain values.
pub struct BalanceRecordView {
    pub date: Date,
    pub amount: int,
    pub account_name: Seq<char>,
}

impl View for BalanceRecord {
    type V = BalanceRecordView;

    open spec fn view(&self) -> BalanceRecordView {
        BalanceRecordView {
            date: self.date,
            amount: self.amount as int,
            account_name: self.account_name@,
        }
    }
}

impl DeepView for BalanceRecord {
    type V = BalanceRecordView;

    open spec fn deep_view(&self) -> BalanceRecordView {
        self@
    }
}

impl BalanceRecord {
    /// A copy of this record.
    pub fn duplicate(&self) -> (r: BalanceRecord)
        ensures
            r == *self,
    {
        BalanceRecord {
            date: self.date,
            amount: self.amount,
            account_name: self.account_name.clone(),
        }
    }
}

/// The position of the newest record: the last one among those with the
/// greatest date. 0 for an empty sequence.
pub open spec fn newest_position(rows: Seq<BalanceRecordView>) -> int
    decreases rows.len(),
{
    if rows.len() <= 1 {
        0
    } else {
        let earlier = newest_position(rows.drop_last());
        if rows[earlier].date.not_after(rows.last().date) {
            rows.len() - 1
        } else {
            earlier
        }
    }
}

/// Of the rows of one account, the one to keep: no row has a later date, and
/// every row behind it has an earlier one.
pub proof fn lemma_newest_is_last_maximum(rows: Seq<BalanceRecordView>)
    requires
        rows.len() > 0,
    ensures
        0 <= newest_position(rows) < rows.len(),
        forall|j: int|
            0 <= j < rows.len() ==> (#[trigger] rows[j]).date.not_after(
                rows[newest_position(rows)].date,
            ),
        forall|j: int|
            newest_position(rows) < j < rows.len() ==> (#[trigger] rows[j]).date.before(
                rows[newest_position(rows)].date,
            ),
    decreases rows.len(),
{
    if rows.len() > 1 {
        let front = rows.drop_last();
        lemma_newest_is_last_maximum(front);
        assert(forall|j: int| 0 <= j < front.len() ==> front[j] == rows[j]);
    }
}

/// The newest record of `rows`, which are one account's balances in the
/// order of its file: `None` only where there is no row.
pub fn newest_balance(rows: &Vec<BalanceRecord>) -> (r: Option<BalanceRecord>)
    ensures
        r is None <==> rows.len() == 0,
        r matches Some(rec) ==> rec == rows[newest_position(rows.deep_view())],
{
    if rows.len() == 0 {
        return None;
    }
    let mut best: usize = 0;
    let mut i: usize = 1;
    while i < rows.len()
        invariant
            1 <= i <= rows.len(),
            0 <= best < i,
            best == newest_position(rows.deep_view().take(i as int)),
        decreases rows.len() - i,
    {
        proof {
            let next = rows.deep_view().take(i + 1);
            assert(next.drop_last() =~= rows.deep_view().take(i as int));
        }
        if rows[best].date.is_not_after(&rows[i].date) {
            best = i;
        }
        i = i + 1;
    }
    assert(rows.deep_view().take(i as int) =~= rows.deep_view());
    Some(rows[best].duplicate())
}

} // verus!
