//! Category labels, joined onto the ledger by account name.
//!
//! The join is a left join. A ledger row whose account has no entry in the
//! lookup keeps no label; one whose account has several entries is repeated,
//! once for each of them, in the order of the lookup.

use vstd::prelude::*;
use crate::date::Date;
use crate::ledger::{LedgerRow, LedgerRowView};

verus! {

/// One entry of the category lookup.
#[derive(Debug)]
pub struct CategoryEntry {
    pub account_name: String,
    pub account_type: String,
}

/// What a `CategoryEntry` holds, as plain values.
pub struct CategoryEntryView {
    pub account_name: Seq<char>,
    pub account_type: Seq<char>,
}

impl View for CategoryEntry {
    type V = CategoryEntryView;

    open spec fn view(&self) -> CategoryEntryView {
        CategoryEntryView { account_name: self.account_name@, account_type: self.account_type@ }
    }
}

impl DeepView for CategoryEntry {
    type V = CategoryEntryView;

    open spec fn deep_view(&self) -> CategoryEntryView {
        self@
    }
}

/// A ledger row with its category, if the lookup has one for its account.
#[derive(Debug)]
pub struct ClassifiedRow {
    pub account_name: String,
    pub amount: i64,
    pub date: Date,
    pub total: i128,
    pub account_type: Option<String>,
}

/// What a `ClassifiedRow` holds, as plain values.
pub struct ClassifiedRowView {
    pub account_name: Seq<char>,
    pub amount: int,
    pub date: Date,
    pub total: int,
    pub account_type: Option<Seq<char>>,
}

/// What an optional label holds.
pub open spec fn label_view(label: Option<String>) -> Option<Seq<char>> {
    match label {
        Some(text) => Some(text@),
        None => None,
    }
}

impl View for ClassifiedRow {
    type V = ClassifiedRowView;

    open spec fn view(&self) -> ClassifiedRowView {
        ClassifiedRowView {
            account_name: self.account_name@,
            amount: self.amount as int,
            date: self.date,
            total: self.total as int,
            account_type: label_view(self.account_type),
        }
    }
}

impl DeepView for ClassifiedRow {
    type V = ClassifiedRowView;

    open spec fn deep_view(&self) -> ClassifiedRowView {
        self@
    }
}

impl ClassifiedRowView {
    /// The ledger row that this row came from.
    pub open spec fn ledger_row(self) -> LedgerRowView {
        LedgerRowView {
            account_name: self.account_name,
            amount: self.amount,
            date: self.date,
            total: self.total,
        }
    }
}

/// The categories that the lookup holds for the account `name`, in the
/// lookup's order.
pub open spec fn matching_types(name: Seq<char>, categories: Seq<CategoryEntryView>) -> Seq<
    Seq<char>,
>
    decreases categories.len(),
{
    if categories.len() == 0 {
        Seq::empty()
    } else {
        let front = matching_types(name, categories.drop_last());
        if categories.last().account_name == name {
            front.push(categories.last().account_type)
        } else {
            front
        }
    }
}

/// The ledger row `row` with the label `account_type`.
pub open spec fn labelled(row: LedgerRowView, account_type: Option<Seq<char>>) -> ClassifiedRowView {
    ClassifiedRowView {
        account_name: row.account_name,
        amount: row.amount,
        date: row.date,
        total: row.total,
        account_type,
    }
}

/// One copy of `row` for each of `types`, in their order.
pub open spec fn labelled_each(row: LedgerRowView, types: Seq<Seq<char>>) -> Seq<
    ClassifiedRowView,
> {
    Seq::new(types.len(), |t: int| labelled(row, Some(types[t])))
}

/// What the join makes of one ledger row.
pub open spec fn join_row(row: LedgerRowView, categories: Seq<CategoryEntryView>) -> Seq<
    ClassifiedRowView,
> {
    let types = matching_types(row.account_name, categories);
    if types.len() == 0 {
        seq![labelled(row, None)]
    } else {
        labelled_each(row, types)
    }
}

/// The left join of the ledger with the lookup, on the account name.
pub open spec fn left_join(ledger: Seq<LedgerRowView>, categories: Seq<CategoryEntryView>) -> Seq<
    ClassifiedRowView,
>
    decreases ledger.len(),
{
    if ledger.len() == 0 {
        Seq::empty()
    } else {
        left_join(ledger.drop_last(), categories) + join_row(ledger.last(), categories)
    }
}

/// Whether some ledger row has more than one entry in the lookup, so that
/// the join repeats it.
pub open spec fn fans_out(ledger: Seq<LedgerRowView>, categories: Seq<CategoryEntryView>) -> bool {
    exists|i: int|
        0 <= i < ledger.len() && matching_types(
            (#[trigger] ledger[i]).account_name,
            categories,
        ).len() > 1
}

/// The accounts of the ledger rows that the join repeats, in the order of
/// the ledger.
pub open spec fn repeated_accounts(
    ledger: Seq<LedgerRowView>,
    categories: Seq<CategoryEntryView>,
) -> Seq<Seq<char>>
    decreases ledger.len(),
{
    if ledger.len() == 0 {
        Seq::empty()
    } else {
        let front = repeated_accounts(ledger.drop_last(), categories);
        if matching_types(ledger.last().account_name, categories).len() > 1 {
            front.push(ledger.last().account_name)
        } else {
            front
        }
    }
}

/// Whether no two entries of the lookup name the same account.
pub open spec fn keys_are_unique(categories: Seq<CategoryEntryView>) -> bool {
    forall|i: int, j: int|
        0 <= i < j < categories.len() ==> (#[trigger] categories[i]).account_name != (
        #[trigger] categories[j]).account_name
}

/// A lookup without repeated accounts holds at most one category for any account.
pub proof fn lemma_unique_keys_match_once(name: Seq<char>, categories: Seq<CategoryEntryView>)
    requires
        keys_are_unique(categories),
    ensures
        matching_types(name, categories).len() <= 1,
        matching_types(name, categories).len() == 1 ==> exists|i: int|
            0 <= i < categories.len() && (#[trigger] categories[i]).account_name == name,
        matching_types(name, categories).len() == 0 ==> forall|i: int|
            0 <= i < categories.len() ==> (#[trigger] categories[i]).account_name != name,
    decreases categories.len(),
{
    if categories.len() > 0 {
        let front = categories.drop_last();
        assert(forall|i: int| 0 <= i < front.len() ==> front[i] == categories[i]);
        lemma_unique_keys_match_once(name, front);
        if categories.last().account_name == name {
            if matching_types(name, front).len() == 1 {
                let i = choose|i: int|
                    0 <= i < front.len() && (#[trigger] front[i]).account_name == name;
                assert(categories[i].account_name != categories[categories.len() - 1].account_name);
            }
        }
    }
}

/// The join repeats a row exactly where it lists an account as repeated.
pub proof fn lemma_repeated_accounts(ledger: Seq<LedgerRowView>, categories: Seq<CategoryEntryView>)
    ensures
        repeated_accounts(ledger, categories).len() > 0 <==> fans_out(ledger, categories),
    decreases ledger.len(),
{
    if ledger.len() > 0 {
        let front = ledger.drop_last();
        lemma_repeated_accounts(front, categories);
        assert(forall|i: int| 0 <= i < front.len() ==> front[i] == ledger[i]);
        if fans_out(front, categories) {
            let i = choose|i: int|
                0 <= i < front.len() && matching_types(
                    (#[trigger] front[i]).account_name,
                    categories,
                ).len() > 1;
            assert(matching_types(ledger[i].account_name, categories).len() > 1);
        }
        if matching_types(ledger.last().account_name, categories).len() > 1 {
            assert(matching_types(ledger[ledger.len() - 1].account_name, categories).len() > 1);
        }
        if fans_out(ledger, categories) {
            let i = choose|i: int|
                0 <= i < ledger.len() && matching_types(
                    (#[trigger] ledger[i]).account_name,
                    categories,
                ).len() > 1;
            if i < front.len() {
                assert(matching_types(front[i].account_name, categories).len() > 1);
            }
        }
    }
}

/// The join of a ledger in two parts is the join of the first part followed
/// by the join of the second.
pub proof fn lemma_left_join_concat(
    first: Seq<LedgerRowView>,
    second: Seq<LedgerRowView>,
    categories: Seq<CategoryEntryView>,
)
    ensures
        left_join(first + second, categories) == left_join(first, categories) + left_join(
            second,
            categories,
        ),
    decreases second.len(),
{
    if second.len() > 0 {
        let whole = first + second;
        assert(whole.drop_last() =~= first + second.drop_last());
        lemma_left_join_concat(first, second.drop_last(), categories);
    }
}

/// The join makes at least one row of each ledger row, and exactly one
/// where the lookup has at most one entry for the row's account.
pub proof fn lemma_join_row_len(row: LedgerRowView, categories: Seq<CategoryEntryView>)
    ensures
        join_row(row, categories).len() >= 1,
        join_row(row, categories).len() == 1 <==> matching_types(
            row.account_name,
            categories,
        ).len() <= 1,
        forall|t: int|
            0 <= t < join_row(row, categories).len() ==> (#[trigger] join_row(
                row,
                categories,
            )[t]).ledger_row() == row,
{
}

/// The join has at least as many rows as the ledger, and as many exactly
/// where no ledger row's account has more than one entry in the lookup.
pub proof fn lemma_left_join_len(ledger: Seq<LedgerRowView>, categories: Seq<CategoryEntryView>)
    ensures
        left_join(ledger, categories).len() >= ledger.len(),
        left_join(ledger, categories).len() == ledger.len() <==> !fans_out(ledger, categories),
    decreases ledger.len(),
{
    if ledger.len() > 0 {
        let front = ledger.drop_last();
        lemma_left_join_len(front, categories);
        assert(forall|i: int| 0 <= i < front.len() ==> front[i] == ledger[i]);
        if fans_out(front, categories) {
            let i = choose|i: int|
                0 <= i < front.len() && matching_types(
                    (#[trigger] front[i]).account_name,
                    categories,
                ).len() > 1;
            assert(matching_types(ledger[i].account_name, categories).len() > 1);
        }
        if fans_out(ledger, categories) {
            let i = choose|i: int|
                0 <= i < ledger.len() && matching_types(
                    (#[trigger] ledger[i]).account_name,
                    categories,
                ).len() > 1;
            if i < front.len() {
                assert(matching_types(front[i].account_name, categories).len() > 1);
            }
        }
    }
}

/// With a lookup that names no account twice, the join has exactly the
/// ledger's number of rows.
pub proof fn lemma_unique_keys_keep_len(
    ledger: Seq<LedgerRowView>,
    categories: Seq<CategoryEntryView>,
)
    requires
        keys_are_unique(categories),
    ensures
        left_join(ledger, categories).len() == ledger.len(),
{
    lemma_left_join_len(ledger, categories);
    if fans_out(ledger, categories) {
        let i = choose|i: int|
            0 <= i < ledger.len() && matching_types(
                (#[trigger] ledger[i]).account_name,
                categories,
            ).len() > 1;
        lemma_unique_keys_match_once(ledger[i].account_name, categories);
    }
}

/// Every ledger row is found in the join, with its account, amount, date and
/// total: the rows made of row `i` start where the join of the rows before
/// it ends.
pub proof fn lemma_every_row_is_joined(
    ledger: Seq<LedgerRowView>,
    categories: Seq<CategoryEntryView>,
    i: int,
)
    requires
        0 <= i < ledger.len(),
    ensures
        ({
            let start = left_join(ledger.take(i), categories).len() as int;
            &&& 0 <= start < left_join(ledger, categories).len()
            &&& left_join(ledger, categories)[start].ledger_row() == ledger[i]
        }),
{
    let before = ledger.take(i);
    let after = ledger.skip(i + 1);
    let one = seq![ledger[i]];
    assert(ledger =~= (before + one) + after);
    lemma_left_join_concat(before + one, after, categories);
    lemma_left_join_concat(before, one, categories);
    assert(left_join(one.drop_last(), categories) =~= Seq::<ClassifiedRowView>::empty());
}

fn label_row(row: &LedgerRow, account_type: Option<String>) -> (r: ClassifiedRow)
    ensures
        r@ == labelled(row@, label_view(account_type)),
{
    ClassifiedRow {
        account_name: row.account_name.clone(),
        amount: row.amount,
        date: row.date,
        total: row.total,
        account_type,
    }
}

/// Counts the entries that the lookup holds for the account `name`.
pub fn count_matches(name: &String, categories: &Vec<CategoryEntry>) -> (count: usize)
    ensures
        count == matching_types(name@, categories.deep_view()).len(),
{
    let mut count: usize = 0;
    let mut j: usize = 0;
    while j < categories.len()
        invariant
            0 <= j <= categories.len(),
            count == matching_types(name@, categories.deep_view().take(j as int)).len(),
            count <= j,
        decreases categories.len() - j,
    {
        proof {
            let next = categories.deep_view().take(j + 1);
            assert(next.drop_last() =~= categories.deep_view().take(j as int));
        }
        if categories[j].account_name == *name {
            count = count + 1;
        }
        j = j + 1;
    }
    assert(categories.deep_view().take(j as int) =~= categories.deep_view());
    count
}

/// Tells whether the join would repeat a ledger row, because the lookup
/// holds more than one entry for its account.
pub fn has_fan_out(ledger: &Vec<LedgerRow>, categories: &Vec<CategoryEntry>) -> (r: bool)
    ensures
        r == fans_out(ledger.deep_view(), categories.deep_view()),
{
    let mut i: usize = 0;
    while i < ledger.len()
        invariant
            0 <= i <= ledger.len(),
            forall|k: int|
                0 <= k < i ==> matching_types(
                    (#[trigger] ledger.deep_view()[k]).account_name,
                    categories.deep_view(),
                ).len() <= 1,
        decreases ledger.len() - i,
    {
        assert(ledger.deep_view()[i as int] == ledger[i as int]@);
        if count_matches(&ledger[i].account_name, categories) > 1 {
            return true;
        }
        i = i + 1;
    }
    false
}

/// Lists the accounts of the ledger rows that the join repeats, in the order
/// of the ledger.
pub fn list_repeated_accounts(ledger: &Vec<LedgerRow>, categories: &Vec<CategoryEntry>) -> (names:
    Vec<String>)
    ensures
        names.deep_view() == repeated_accounts(ledger.deep_view(), categories.deep_view()),
        names.len() > 0 <==> fans_out(ledger.deep_view(), categories.deep_view()),
{
    let mut names: Vec<String> = Vec::new();
    let mut i: usize = 0;
    while i < ledger.len()
        invariant
            0 <= i <= ledger.len(),
            names.deep_view() == repeated_accounts(
                ledger.deep_view().take(i as int),
                categories.deep_view(),
            ),
        decreases ledger.len() - i,
    {
        let ghost before = names.deep_view();
        proof {
            let next = ledger.deep_view().take(i + 1);
            assert(next.drop_last() =~= ledger.deep_view().take(i as int));
            assert(next.last() == ledger[i as int]@);
        }
        if count_matches(&ledger[i].account_name, categories) > 1 {
            names.push(ledger[i].account_name.clone());
            assert(names.deep_view() =~= before.push(ledger[i as int].account_name@));
        }
        i = i + 1;
    }
    proof {
        assert(ledger.deep_view().take(i as int) =~= ledger.deep_view());
        lemma_repeated_accounts(ledger.deep_view(), categories.deep_view());
        assert(names.deep_view().len() == names.len());
    }
    names
}

/// Joins the category labels onto the ledger.
pub fn classify(ledger: &Vec<LedgerRow>, categories: &Vec<CategoryEntry>) -> (rows: Vec<
    ClassifiedRow,
>)
    ensures
        rows.deep_view() == left_join(ledger.deep_view(), categories.deep_view()),
        rows.len() >= ledger.len(),
{
    let mut rows: Vec<ClassifiedRow> = Vec::new();
    let mut i: usize = 0;
    while i < ledger.len()
        invariant
            0 <= i <= ledger.len(),
            rows.deep_view() == left_join(ledger.deep_view().take(i as int), categories.deep_view()),
        decreases ledger.len() - i,
    {
        let row = &ledger[i];
        let ghost done = rows.deep_view();
        let mut found = false;
        let mut j: usize = 0;
        while j < categories.len()
            invariant
                0 <= j <= categories.len(),
                found == (matching_types(
                    row.account_name@,
                    categories.deep_view().take(j as int),
                ).len() > 0),
                rows.deep_view() == done + labelled_each(
                    row@,
                    matching_types(row.account_name@, categories.deep_view().take(j as int)),
                ),
            decreases categories.len() - j,
        {
            proof {
                let next = categories.deep_view().take(j + 1);
                assert(next.drop_last() =~= categories.deep_view().take(j as int));
            }
            if categories[j].account_name == row.account_name {
                let ghost before = rows.deep_view();
                let label = categories[j].account_type.clone();
                rows.push(label_row(row, Some(label)));
                found = true;
                proof {
                    assert(rows.deep_view() =~= before.push(
                        labelled(row@, Some(categories[j as int].account_type@)),
                    ));
                }
            }
            j = j + 1;
        }
        assert(categories.deep_view().take(j as int) =~= categories.deep_view());
        if !found {
            rows.push(label_row(row, None));
        }
        proof {
            let next = ledger.deep_view().take(i + 1);
            assert(next.drop_last() =~= ledger.deep_view().take(i as int));
        }
        i = i + 1;
    }
    proof {
        assert(ledger.deep_view().take(i as int) =~= ledger.deep_view());
        lemma_left_join_len(ledger.deep_view(), categories.deep_view());
    }
    rows
}

} // verus!
