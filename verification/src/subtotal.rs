//! Subtotals of the classified ledger, one for each category.
//!
//! The categories come in the order in which the rows first show them. Rows
//! without a category form a group of their own.

use vstd::prelude::*;
use crate::classify::{
    fans_out, label_view, left_join, matching_types, CategoryEntryView, ClassifiedRow,
    ClassifiedRowView,
};
use crate::ledger::LedgerRowView;

verus! {

/// The sum of the amounts of one category.
#[derive(Debug)]
pub struct SubtotalRow {
    pub account_type: Option<String>,
    pub amount_sum: i128,
}

/// What a `SubtotalRow` holds, as plain values.
pub struct SubtotalRowView {
    pub account_type: Option<Seq<char>>,
    pub amount_sum: int,
}

impl View for SubtotalRow {
    type V = SubtotalRowView;

    open spec fn view(&self) -> SubtotalRowView {
        SubtotalRowView {
            account_type: label_view(self.account_type),
            amount_sum: self.amount_sum as int,
        }
    }
}

impl DeepView for SubtotalRow {
    type V = SubtotalRowView;

    open spec fn deep_view(&self) -> SubtotalRowView {
        self@
    }
}

/// The categories of `rows`, each once, in the order of their first row.
pub open spec fn group_keys(rows: Seq<ClassifiedRowView>) -> Seq<Option<Seq<char>>>
    decreases rows.len(),
{
    if rows.len() == 0 {
        Seq::empty()
    } else {
        let keys = group_keys(rows.drop_last());
        if keys.contains(rows.last().account_type) {
            keys
        } else {
            keys.push(rows.last().account_type)
        }
    }
}

/// The sum of the amounts of the rows whose category is `key`.
pub open spec fn group_sum(rows: Seq<ClassifiedRowView>, key: Option<Seq<char>>) -> int
    decreases rows.len(),
{
    if rows.len() == 0 {
        0
    } else if rows.last().account_type == key {
        group_sum(rows.drop_last(), key) + rows.last().amount
    } else {
        group_sum(rows.drop_last(), key)
    }
}

/// The subtotals of `rows`: for each category, in first-seen order, the sum
/// of the amounts of its rows.
pub open spec fn subtotals_of(rows: Seq<ClassifiedRowView>) -> Seq<SubtotalRowView> {
    Seq::new(
        group_keys(rows).len(),
        |t: int|
            SubtotalRowView {
                account_type: group_keys(rows)[t],
                amount_sum: group_sum(rows, group_keys(rows)[t]),
            },
    )
}

/// The sum of the amounts of all of `rows`.
pub open spec fn classified_total(rows: Seq<ClassifiedRowView>) -> int
    decreases rows.len(),
{
    if rows.len() == 0 {
        0
    } else {
        classified_total(rows.drop_last()) + rows.last().amount
    }
}

/// The sum of the amounts of the whole ledger.
pub open spec fn ledger_total(ledger: Seq<LedgerRowView>) -> int
    decreases ledger.len(),
{
    if ledger.len() == 0 {
        0
    } else {
        ledger_total(ledger.drop_last()) + ledger.last().amount
    }
}

/// The sum of the first `n` subtotals.
pub open spec fn subtotal_sum(subtotals: Seq<SubtotalRowView>, n: int) -> int
    decreases n,
{
    if n <= 0 {
        0
    } else {
        subtotal_sum(subtotals, n - 1) + subtotals[n - 1].amount_sum
    }
}

/// The sum over the first `n` of `keys` of the amounts of each key's rows.
pub open spec fn keyed_sum(
    rows: Seq<ClassifiedRowView>,
    keys: Seq<Option<Seq<char>>>,
    n: int,
) -> int
    decreases n,
{
    if n <= 0 {
        0
    } else {
        keyed_sum(rows, keys, n - 1) + group_sum(rows, keys[n - 1])
    }
}

/// No category is listed twice, every row's category is listed, and every
/// listed category is that of some row.
pub proof fn lemma_group_keys(rows: Seq<ClassifiedRowView>)
    ensures
        group_keys(rows).no_duplicates(),
        forall|i: int|
            0 <= i < rows.len() ==> group_keys(rows).contains((#[trigger] rows[i]).account_type),
        forall|t: int|
            0 <= t < group_keys(rows).len() ==> exists|i: int|
                0 <= i < rows.len() && (#[trigger] rows[i]).account_type == #[trigger] group_keys(
                    rows,
                )[t],
        group_keys(rows).len() <= rows.len(),
    decreases rows.len(),
{
    if rows.len() > 0 {
        let front = rows.drop_last();
        let keys = group_keys(front);
        lemma_group_keys(front);
        assert(forall|i: int| 0 <= i < front.len() ==> front[i] == rows[i]);
        let last = rows.last().account_type;
        let all = group_keys(rows);
        if !keys.contains(last) {
            assert(all[keys.len() as int] == last);
            assert forall|i: int| 0 <= i < rows.len() implies all.contains(
                (#[trigger] rows[i]).account_type,
            ) by {
                if i < front.len() {
                    let t = choose|t: int| 0 <= t < keys.len() && keys[t] == front[i].account_type;
                    assert(all[t] == rows[i].account_type);
                }
            }
        }
        assert forall|t: int| 0 <= t < all.len() implies exists|i: int|
            0 <= i < rows.len() && (#[trigger] rows[i]).account_type == #[trigger] all[t] by {
            if t < keys.len() {
                let i = choose|i: int|
                    0 <= i < front.len() && (#[trigger] front[i]).account_type == keys[t];
                assert(rows[i].account_type == all[t]);
            }
        }
    }
}

/// Each subtotal is the sum of the amounts of the rows of its category; no
/// two subtotals have the same category, and every row's category has one.
pub proof fn lemma_subtotals_by_category(rows: Seq<ClassifiedRowView>)
    ensures
        forall|t: int|
            0 <= t < subtotals_of(rows).len() ==> (#[trigger] subtotals_of(rows)[t]).amount_sum
                == group_sum(rows, subtotals_of(rows)[t].account_type),
        forall|s: int, t: int|
            0 <= s < t < subtotals_of(rows).len() ==> (#[trigger] subtotals_of(
                rows,
            )[s]).account_type != (#[trigger] subtotals_of(rows)[t]).account_type,
        forall|i: int|
            0 <= i < rows.len() ==> exists|t: int|
                0 <= t < subtotals_of(rows).len() && (#[trigger] subtotals_of(rows)[t]).account_type
                    == (#[trigger] rows[i]).account_type,
{
    lemma_group_keys(rows);
    let keys = group_keys(rows);
    assert forall|i: int| 0 <= i < rows.len() implies exists|t: int|
        0 <= t < subtotals_of(rows).len() && (#[trigger] subtotals_of(rows)[t]).account_type == (
        #[trigger] rows[i]).account_type by {
        let t = choose|t: int| 0 <= t < keys.len() && keys[t] == rows[i].account_type;
        assert(subtotals_of(rows)[t].account_type == rows[i].account_type);
    }
}

/// A category that is not listed has no rows, so its amounts sum to zero.
pub proof fn lemma_unlisted_key_sums_to_zero(rows: Seq<ClassifiedRowView>, key: Option<Seq<char>>)
    requires
        !group_keys(rows).contains(key),
    ensures
        group_sum(rows, key) == 0,
    decreases rows.len(),
{
    if rows.len() > 0 {
        let front = rows.drop_last();
        let keys = group_keys(front);
        let last = rows.last().account_type;
        if !keys.contains(last) {
            assert(group_keys(rows)[keys.len() as int] == last);
            if keys.contains(key) {
                let t = choose|t: int| 0 <= t < keys.len() && keys[t] == key;
                assert(group_keys(rows)[t] == key);
            }
        }
        lemma_unlisted_key_sums_to_zero(front, key);
    }
}

/// One more row adds its amount to the sum over a list of distinct
/// categories if its own category is among them, and nothing otherwise.
proof fn lemma_keyed_sum_of_one_more_row(
    rows: Seq<ClassifiedRowView>,
    keys: Seq<Option<Seq<char>>>,
    n: int,
)
    requires
        rows.len() > 0,
        0 <= n <= keys.len(),
        keys.no_duplicates(),
    ensures
        keyed_sum(rows, keys, n) == keyed_sum(rows.drop_last(), keys, n) + if exists|t: int|
            0 <= t < n && keys[t] == rows.last().account_type {
            rows.last().amount
        } else {
            0
        },
    decreases n,
{
    if n > 0 {
        lemma_keyed_sum_of_one_more_row(rows, keys, n - 1);
        let last = rows.last().account_type;
        if keys[n - 1] == last {
            assert(forall|t: int| 0 <= t < n - 1 ==> #[trigger] keys[t] != keys[n - 1]);
            assert(exists|t: int| 0 <= t < n && keys[t] == last);
        } else if exists|t: int| 0 <= t < n && keys[t] == last {
            let t = choose|t: int| 0 <= t < n && keys[t] == last;
            assert(0 <= t < n - 1 && keys[t] == last);
        }
    }
}

/// The sum over the first `n` keys reads no key behind them.
proof fn lemma_keyed_sum_reads_prefix(
    rows: Seq<ClassifiedRowView>,
    keys: Seq<Option<Seq<char>>>,
    longer: Seq<Option<Seq<char>>>,
    n: int,
)
    requires
        0 <= n <= keys.len() <= longer.len(),
        forall|t: int| 0 <= t < keys.len() ==> keys[t] == longer[t],
    ensures
        keyed_sum(rows, keys, n) == keyed_sum(rows, longer, n),
    decreases n,
{
    if n > 0 {
        lemma_keyed_sum_reads_prefix(rows, keys, longer, n - 1);
    }
}

/// The sum of the first `n` subtotals is the sum over the first `n` categories.
proof fn lemma_subtotal_sum_is_keyed_sum(rows: Seq<ClassifiedRowView>, n: int)
    requires
        0 <= n <= group_keys(rows).len(),
    ensures
        subtotal_sum(subtotals_of(rows), n) == keyed_sum(rows, group_keys(rows), n),
    decreases n,
{
    if n > 0 {
        lemma_subtotal_sum_is_keyed_sum(rows, n - 1);
    }
}

/// The subtotals add up to the sum of all the rows' amounts: every row
/// counts in exactly one subtotal.
pub proof fn lemma_subtotals_add_up(rows: Seq<ClassifiedRowView>)
    ensures
        subtotals_of(rows).len() == group_keys(rows).len(),
        subtotal_sum(subtotals_of(rows), subtotals_of(rows).len() as int) == classified_total(rows),
    decreases rows.len(),
{
    let all = group_keys(rows);
    lemma_subtotal_sum_is_keyed_sum(rows, all.len() as int);
    if rows.len() > 0 {
        let front = rows.drop_last();
        let keys = group_keys(front);
        let last = rows.last().account_type;
        lemma_subtotals_add_up(front);
        lemma_subtotal_sum_is_keyed_sum(front, keys.len() as int);
        lemma_group_keys(front);
        if keys.contains(last) {
            lemma_keyed_sum_of_one_more_row(rows, keys, keys.len() as int);
        } else {
            lemma_keyed_sum_of_one_more_row(rows, all, keys.len() as int);
            lemma_keyed_sum_reads_prefix(front, keys, all, keys.len() as int);
            lemma_unlisted_key_sums_to_zero(front, last);
        }
    }
}

/// A join that repeats no row keeps the ledger's amounts, so the subtotals
/// add up to the sum of the ledger.
pub proof fn lemma_subtotals_add_up_to_ledger(
    ledger: Seq<LedgerRowView>,
    categories: Seq<CategoryEntryView>,
)
    requires
        !fans_out(ledger, categories),
    ensures
        classified_total(left_join(ledger, categories)) == ledger_total(ledger),
        subtotal_sum(
            subtotals_of(left_join(ledger, categories)),
            subtotals_of(left_join(ledger, categories)).len() as int,
        ) == ledger_total(ledger),
    decreases ledger.len(),
{
    lemma_subtotals_add_up(left_join(ledger, categories));
    if ledger.len() > 0 {
        let front = ledger.drop_last();
        if fans_out(front, categories) {
            let i = choose|i: int|
                0 <= i < front.len() && matching_types(
                    (#[trigger] front[i]).account_name,
                    categories,
                ).len() > 1;
            assert(matching_types(ledger[i].account_name, categories).len() > 1);
        }
        lemma_subtotals_add_up_to_ledger(front, categories);
        let joined = left_join(ledger, categories);
        assert(joined.drop_last() =~= left_join(front, categories));
    }
}

/// A sum of amounts of 64 bits over at most `rows.len()` rows stays within
/// that many times their range.
proof fn lemma_group_sum_bounds(rows: Seq<ClassifiedRowView>, key: Option<Seq<char>>)
    requires
        forall|k: int| 0 <= k < rows.len() ==> i64::MIN <= (#[trigger] rows[k]).amount <= i64::MAX,
    ensures
        rows.len() * i64::MIN <= group_sum(rows, key) <= rows.len() * i64::MAX,
    decreases rows.len(),
{
    if rows.len() > 0 {
        let front = rows.drop_last();
        lemma_group_sum_bounds(front, key);
        let n = rows.len() as int;
        assert((n - 1) * i64::MIN + i64::MIN == n * i64::MIN) by (nonlinear_arith);
        assert((n - 1) * i64::MAX + i64::MAX == n * i64::MAX) by (nonlinear_arith);
    }
}

/// Tells whether two optional labels hold the same text, or both none.
pub fn same_label(a: &Option<String>, b: &Option<String>) -> (r: bool)
    ensures
        r == (label_view(*a) == label_view(*b)),
{
    match a {
        Some(x) => match b {
            Some(y) => *x == *y,
            None => false,
        },
        None => b.is_none(),
    }
}

/// A copy of an optional label.
pub fn copy_label(label: &Option<String>) -> (r: Option<String>)
    ensures
        r == *label,
{
    match label {
        Some(text) => Some(text.clone()),
        None => None,
    }
}

/// The place of the subtotal of the category `key`, if there is one.
fn find_group(subtotals: &Vec<SubtotalRow>, key: &Option<String>) -> (r: Option<usize>)
    ensures
        r matches Some(p) ==> p < subtotals.len() && label_view(subtotals[p as int].account_type)
            == label_view(*key),
        r is None ==> forall|q: int|
            0 <= q < subtotals.len() ==> label_view((#[trigger] subtotals[q]).account_type)
                != label_view(*key),
{
    let mut p: usize = 0;
    while p < subtotals.len()
        invariant
            0 <= p <= subtotals.len(),
            forall|q: int|
                0 <= q < p ==> label_view((#[trigger] subtotals[q]).account_type) != label_view(
                    *key,
                ),
        decreases subtotals.len() - p,
    {
        if same_label(&subtotals[p].account_type, key) {
            return Some(p);
        }
        p = p + 1;
    }
    None
}

/// Groups the classified rows by category and sums the amounts of each group.
pub fn subtotals(rows: &Vec<ClassifiedRow>) -> (result: Vec<SubtotalRow>)
    ensures
        result.deep_view() == subtotals_of(rows.deep_view()),
        result.len() <= rows.len(),
{
    let mut result: Vec<SubtotalRow> = Vec::new();
    let mut i: usize = 0;
    while i < rows.len()
        invariant
            0 <= i <= rows.len(),
            result.deep_view() == subtotals_of(rows.deep_view().take(i as int)),
        decreases rows.len() - i,
    {
        let row = &rows[i];
        let ghost seen = rows.deep_view().take(i as int);
        let ghost next = rows.deep_view().take(i + 1);
        let ghost keys = group_keys(seen);
        let ghost before = result.deep_view();
        proof {
            assert(next.drop_last() =~= seen);
            lemma_group_keys(seen);
            assert(before.len() == keys.len());
            assert(forall|q: int|
                0 <= q < result.len() ==> (#[trigger] result[q])@ == before[q] && before[q].account_type
                    == keys[q]);
        }
        match find_group(&result, &row.account_type) {
            Some(p) => {
                proof {
                    lemma_group_sum_bounds(seen, keys[p as int]);
                    assert(seen.len() * i64::MIN >= usize::MAX * i64::MIN) by (nonlinear_arith)
                        requires
                            0 <= seen.len() <= usize::MAX,
                    ;
                    assert(seen.len() * i64::MAX <= usize::MAX * i64::MAX) by (nonlinear_arith)
                        requires
                            0 <= seen.len() <= usize::MAX,
                    ;
                }
                let sum = result[p].amount_sum + row.amount as i128;
                let label = copy_label(&result[p].account_type);
                result.set(p, SubtotalRow { account_type: label, amount_sum: sum });
                proof {
                    assert forall|t: int| 0 <= t < keys.len() implies result.deep_view()[t]
                        == subtotals_of(next)[t] by {
                    }
                }
            },
            None => {
                proof {
                    if keys.contains(row@.account_type) {
                        let t = choose|t: int| 0 <= t < keys.len() && keys[t] == row@.account_type;
                        assert(label_view(result[t].account_type) == keys[t]);
                    }
                    lemma_unlisted_key_sums_to_zero(seen, row@.account_type);
                }
                let label = copy_label(&row.account_type);
                result.push(SubtotalRow { account_type: label, amount_sum: row.amount as i128 });
                proof {
                    assert forall|t: int| 0 <= t < keys.len() + 1 implies result.deep_view()[t]
                        == subtotals_of(next)[t] by {
                    }
                }
            },
        }
        i = i + 1;
    }
    proof {
        assert(rows.deep_view().take(i as int) =~= rows.deep_view());
        lemma_group_keys(rows.deep_view());
    }
    result
}

} // verus!
