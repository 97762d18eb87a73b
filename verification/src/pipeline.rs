//! A run from the loaded files to the reports.
//!
//! A file that could not be opened is left out, and the run goes on. A
//! file that was opened and is no table of an account ends the run: there
//! is no report of a part of the accounts.

use vstd::prelude::*;
use crate::classify::{
    classify, fans_out, left_join, list_repeated_accounts, repeated_accounts, CategoryEntry,
    CategoryEntryView, ClassifiedRow,
};
use crate::ledger::{build_ledger, ledger_of, LedgerRow};
use crate::loader::{
    categories_of_text, load_account, load_categories, snapshot_of_text, SchemaError,
};
use crate::record::{BalanceRecord, BalanceRecordView};
use crate::report::{
    show_table, shown_header, shown_rows, stored_table_text, table_drawing, write_csv,
    DisplayConfig,
};
use crate::subtotal::subtotals_of;
use crate::tables::{
    detail_table, detail_table_of, ledger_table, ledger_table_of, show_subtotals,
    subtotal_table_of, SubtotalReport,
};

verus! {

/// What came of loading one file of the manifest.
#[derive(Debug)]
pub enum LoadOutcome {
    /// The newest balance of the account.
    Loaded(BalanceRecord),
    /// The file could not be opened.
    Unreadable,
    /// The file was opened and is no table of an account.
    Refused(SchemaError),
}

/// What a `LoadOutcome` holds, as plain values.
pub enum LoadOutcomeView {
    Loaded(BalanceRecordView),
    Unreadable,
    Refused(SchemaError),
}

impl View for LoadOutcome {
    type V = LoadOutcomeView;

    open spec fn view(&self) -> LoadOutcomeView {
        match self {
            LoadOutcome::Loaded(row) => LoadOutcomeView::Loaded(row@),
            LoadOutcome::Unreadable => LoadOutcomeView::Unreadable,
            LoadOutcome::Refused(e) => LoadOutcomeView::Refused(*e),
        }
    }
}

impl DeepView for LoadOutcome {
    type V = LoadOutcomeView;

    open spec fn deep_view(&self) -> LoadOutcomeView {
        self@
    }
}

/// The file that ended the run, by its place among the outcomes, and why.
#[derive(Clone, Copy, Debug, PartialEq, Eq, Structural)]
pub struct Refusal {
    pub file: usize,
    pub error: SchemaError,
}

/// Why a run ended without a report.
#[derive(Clone, Copy, Debug, PartialEq, Eq, Structural)]
pub enum RunError {
    /// A file of the manifest is no table of an account.
    Account(Refusal),
    /// The category lookup is no table.
    Categories(SchemaError),
}

/// What the content of a file of the manifest comes to; `None` stands for a
/// file that could not be opened.
pub open spec fn outcome_of(content: Option<Seq<char>>) -> LoadOutcomeView {
    match content {
        None => LoadOutcomeView::Unreadable,
        Some(text) => match snapshot_of_text(text) {
            Ok(row) => LoadOutcomeView::Loaded(row),
            Err(e) => LoadOutcomeView::Refused(e),
        },
    }
}

/// The snapshots of the files that were loaded, in the order of the outcomes.
pub open spec fn loaded_snapshots(outcomes: Seq<LoadOutcomeView>) -> Seq<BalanceRecordView>
    decreases outcomes.len(),
{
    if outcomes.len() == 0 {
        Seq::empty()
    } else {
        match outcomes.last() {
            LoadOutcomeView::Loaded(row) => loaded_snapshots(outcomes.drop_last()).push(row),
            _ => loaded_snapshots(outcomes.drop_last()),
        }
    }
}

/// The number of files that were loaded.
pub open spec fn loaded_count(outcomes: Seq<LoadOutcomeView>) -> nat
    decreases outcomes.len(),
{
    if outcomes.len() == 0 {
        0
    } else if outcomes.last() is Loaded {
        loaded_count(outcomes.drop_last()) + 1
    } else {
        loaded_count(outcomes.drop_last())
    }
}

/// The place of the first outcome that is a refusal, or the number of
/// outcomes if none is.
pub open spec fn first_refused(outcomes: Seq<LoadOutcomeView>) -> int
    decreases outcomes.len(),
{
    if outcomes.len() == 0 {
        0
    } else if outcomes[0] is Refused {
        0
    } else {
        1 + first_refused(outcomes.skip(1))
    }
}

/// Where no outcome before place `i` is a refusal, and `i` is the end of
/// the outcomes or a refusal, `i` is the place of the first refusal.
proof fn lemma_first_refused(outcomes: Seq<LoadOutcomeView>, i: int)
    requires
        0 <= i <= outcomes.len(),
        forall|j: int| 0 <= j < i ==> !((#[trigger] outcomes[j]) is Refused),
        i == outcomes.len() || outcomes[i] is Refused,
    ensures
        first_refused(outcomes) == i,
    decreases outcomes.len(),
{
    if outcomes.len() > 0 && i > 0 {
        let rest = outcomes.skip(1);
        lemma_first_refused(rest, i - 1);
    }
}

/// The snapshots of outcomes in two parts are those of the first part
/// followed by those of the second.
pub proof fn lemma_loaded_snapshots_concat(first: Seq<LoadOutcomeView>, second: Seq<LoadOutcomeView>)
    ensures
        loaded_snapshots(first + second) == loaded_snapshots(first) + loaded_snapshots(second),
    decreases second.len(),
{
    if second.len() > 0 {
        let whole = first + second;
        assert(whole.drop_last() =~= first + second.drop_last());
        lemma_loaded_snapshots_concat(first, second.drop_last());
    }
}

/// The ledger has as many rows as files were loaded.
pub proof fn lemma_ledger_row_count(outcomes: Seq<LoadOutcomeView>)
    ensures
        ledger_of(loaded_snapshots(outcomes)).len() == loaded_count(outcomes),
    decreases outcomes.len(),
{
    if outcomes.len() > 0 {
        lemma_ledger_row_count(outcomes.drop_last());
    }
}

/// The ledger has a row for each file that was loaded and for no other, in
/// the order of the manifest: the row of the loaded file at place `i` stands
/// behind the rows of the files that were loaded before it.
pub proof fn lemma_ledger_follows_manifest(outcomes: Seq<LoadOutcomeView>, i: int)
    requires
        0 <= i < outcomes.len(),
        outcomes[i] is Loaded,
    ensures
        ({
            let ledger = ledger_of(loaded_snapshots(outcomes));
            let place = loaded_snapshots(outcomes.take(i)).len() as int;
            let row = outcomes[i]->Loaded_0;
            &&& ledger.len() == loaded_snapshots(outcomes).len()
            &&& ledger.len() == loaded_snapshots(outcomes.take(i)).len() + 1 + loaded_snapshots(
                outcomes.skip(i + 1),
            ).len()
            &&& 0 <= place < ledger.len()
            &&& ledger[place].account_name == row.account_name
            &&& ledger[place].amount == row.amount
            &&& ledger[place].date == row.date
        }),
{
    let before = outcomes.take(i);
    let after = outcomes.skip(i + 1);
    let one = seq![outcomes[i]];
    assert(outcomes =~= (before + one) + after);
    lemma_loaded_snapshots_concat(before + one, after);
    lemma_loaded_snapshots_concat(before, one);
    assert(loaded_snapshots(one.drop_last()) =~= Seq::<BalanceRecordView>::empty());
}

/// What comes of the content of one file of the manifest; `None` stands for
/// a file that could not be opened.
pub fn load_outcome(content: Option<&str>) -> (outcome: LoadOutcome)
    ensures
        outcome@ == outcome_of(crate::paths::text_view(content)),
{
    match content {
        None => LoadOutcome::Unreadable,
        Some(text) => match load_account(text) {
            Ok(row) => LoadOutcome::Loaded(row),
            Err(e) => LoadOutcome::Refused(e),
        },
    }
}

/// Gathers the snapshots of the files that were loaded, in the order of the
/// manifest. The first file that was refused ends the run.
pub fn gather_snapshots(outcomes: &Vec<LoadOutcome>) -> (r: Result<Vec<BalanceRecord>, Refusal>)
    ensures
        match r {
            Ok(snapshots) => first_refused(outcomes.deep_view()) == outcomes.len()
                && snapshots.deep_view() == loaded_snapshots(outcomes.deep_view()),
            Err(refusal) => refusal.file == first_refused(outcomes.deep_view()) && refusal.file
                < outcomes.len() && outcomes[refusal.file as int]@ == LoadOutcomeView::Refused(
                refusal.error,
            ),
        },
{
    let ghost all = outcomes.deep_view();
    let mut refused: usize = 0;
    while refused < outcomes.len()
        invariant
            0 <= refused <= outcomes.len(),
            all == outcomes.deep_view(),
            forall|j: int| 0 <= j < refused ==> !((#[trigger] all[j]) is Refused),
        decreases outcomes.len() - refused,
    {
        match &outcomes[refused] {
            LoadOutcome::Refused(e) => {
                proof {
                    lemma_first_refused(all, refused as int);
                }
                return Err(Refusal { file: refused, error: *e });
            },
            _ => {},
        }
        refused = refused + 1;
    }
    proof {
        lemma_first_refused(all, refused as int);
    }
    let mut snapshots: Vec<BalanceRecord> = Vec::new();
    let mut k: usize = 0;
    while k < outcomes.len()
        invariant
            0 <= k <= outcomes.len(),
            all == outcomes.deep_view(),
            snapshots.deep_view() == loaded_snapshots(all.take(k as int)),
        decreases outcomes.len() - k,
    {
        proof {
            let next = all.take(k + 1);
            assert(next.drop_last() =~= all.take(k as int));
        }
        match &outcomes[k] {
            LoadOutcome::Loaded(row) => {
                snapshots.push(row.duplicate());
            },
            _ => {},
        }
        k = k + 1;
    }
    assert(all.take(k as int) =~= all);
    Ok(snapshots)
}

/// The reports of a run.
#[derive(Debug)]
pub struct Report {
    /// The ledger: the snapshots with their running total.
    pub ledger: Vec<LedgerRow>,
    /// The ledger with the categories joined on.
    pub classified: Vec<ClassifiedRow>,
    /// Whether the join has repeated a row, because the lookup names its
    /// account more than once: the subtotals then count its amount each time.
    pub fan_out: bool,
    /// The accounts of the rows that the join has repeated.
    pub repeated: Vec<String>,
    /// The ledger as text to store.
    pub stored_ledger: String,
    /// The classified ledger as text to store.
    pub stored_detail: String,
    /// The classified ledger as a table drawn for the console.
    pub detail_drawing: String,
    /// The subtotals by category.
    pub subtotals: SubtotalReport,
}

/// Whether `report` is the report of these snapshots and categories, shown
/// with these settings.
pub open spec fn is_report_of(
    report: Report,
    snapshots: Seq<BalanceRecordView>,
    categories: Seq<CategoryEntryView>,
    config: DisplayConfig,
) -> bool {
    let ledger = ledger_of(snapshots);
    let classified = left_join(ledger, categories);
    let sums = subtotal_table_of(subtotals_of(classified));
    &&& report.ledger.deep_view() == ledger
    &&& report.classified.deep_view() == classified
    &&& report.fan_out == fans_out(ledger, categories)
    &&& report.repeated.deep_view() == repeated_accounts(ledger, categories)
    &&& report.stored_ledger@ == stored_table_text(ledger_table_of(ledger))
    &&& report.stored_detail@ == stored_table_text(detail_table_of(classified))
    &&& report.detail_drawing@ == table_drawing(
        shown_header(detail_table_of(classified), config),
        shown_rows(detail_table_of(classified), config),
    )
    &&& report.subtotals.rows.deep_view() == subtotals_of(classified)
    &&& report.subtotals.drawing@ == table_drawing(
        shown_header(sums, config),
        shown_rows(sums, config),
    )
    &&& report.subtotals.stored@ == stored_table_text(sums)
}

/// A second run on the same snapshots, categories and settings gives the
/// same ledger, the same rows and sums, and the same texts, character for
/// character.
pub proof fn lemma_run_is_repeatable(
    first: Report,
    second: Report,
    snapshots: Seq<BalanceRecordView>,
    categories: Seq<CategoryEntryView>,
    config: DisplayConfig,
)
    requires
        is_report_of(first, snapshots, categories, config),
        is_report_of(second, snapshots, categories, config),
    ensures
        first.ledger.deep_view() == second.ledger.deep_view(),
        first.classified.deep_view() == second.classified.deep_view(),
        first.fan_out == second.fan_out,
        first.repeated.deep_view() == second.repeated.deep_view(),
        first.stored_ledger@ == second.stored_ledger@,
        first.stored_detail@ == second.stored_detail@,
        first.detail_drawing@ == second.detail_drawing@,
        first.subtotals.rows.deep_view() == second.subtotals.rows.deep_view(),
        first.subtotals.drawing@ == second.subtotals.drawing@,
        first.subtotals.stored@ == second.subtotals.stored@,
{
}

/// Builds the reports from the snapshots, given in the order of the
/// manifest, and the category lookup.
pub fn build_report(
    snapshots: &Vec<BalanceRecord>,
    categories: &Vec<CategoryEntry>,
    config: &DisplayConfig,
) -> (report: Report)
    ensures
        is_report_of(report, snapshots.deep_view(), categories.deep_view(), *config),
{
    let ledger = build_ledger(snapshots);
    let classified = classify(&ledger, categories);
    let repeated = list_repeated_accounts(&ledger, categories);
    let fan_out = repeated.len() > 0;
    let stored_ledger = write_csv(&ledger_table(&ledger));
    let detail = detail_table(&classified);
    let stored_detail = write_csv(&detail);
    let detail_drawing = show_table(&detail, config);
    let subtotals = show_subtotals(&classified, config);
    Report {
        ledger,
        classified,
        fan_out,
        repeated,
        stored_ledger,
        stored_detail,
        detail_drawing,
        subtotals,
    }
}

/// Runs from the outcomes of loading the files of the manifest, in its
/// order, and the text of the category lookup to the reports. A refused
/// file of an account ends the run, and so does a lookup that is no table.
pub fn run(outcomes: &Vec<LoadOutcome>, categories_text: &str, config: &DisplayConfig) -> (r:
    Result<Report, RunError>)
    ensures
        match r {
            Ok(report) => first_refused(outcomes.deep_view()) == outcomes.len()
                && categories_of_text(categories_text@) is Ok && is_report_of(
                report,
                loaded_snapshots(outcomes.deep_view()),
                categories_of_text(categories_text@)->Ok_0,
                *config,
            ),
            Err(RunError::Account(refusal)) => refusal.file == first_refused(outcomes.deep_view())
                && refusal.file < outcomes.len() && outcomes[refusal.file as int]@
                == LoadOutcomeView::Refused(refusal.error),
            Err(RunError::Categories(e)) => first_refused(outcomes.deep_view()) == outcomes.len()
                && categories_of_text(categories_text@) == Err::<
                Seq<CategoryEntryView>,
                SchemaError,
            >(e),
        },
{
    let snapshots = match gather_snapshots(outcomes) {
        Err(refusal) => { return Err(RunError::Account(refusal)); },
        Ok(snapshots) => snapshots,
    };
    let categories = match load_categories(categories_text) {
        Err(e) => { return Err(RunError::Categories(e)); },
        Ok(categories) => categories,
    };
    Ok(build_report(&snapshots, &categories, config))
}

} // verus!
