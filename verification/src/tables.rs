//! The three tables of a run: the ledger, the classified ledger and the
//! subtotals, with the names and the order of their columns.

use vstd::prelude::*;
use crate::amount::{amount_text, lemma_amount_text_reads_back};
use crate::classify::{ClassifiedRow, ClassifiedRowView};
use crate::csv::{is_readable_record, lemma_records_read_back, text_of_records};
use crate::date::{date_text, lemma_date_text_reads_back};
use crate::ledger::{LedgerRow, LedgerRowView};
use crate::loader::{
    account_name_column, account_type_column, amount_column, balance_of_fields, balances_of_rows,
    balances_of_text, date_column, BalanceColumns, SchemaError,
};
use crate::record::BalanceRecordView;
use crate::report::{
    show_table, shown_header, shown_rows, stored_records, stored_table_text, table_drawing,
    write_csv, Cell, CellView, DisplayConfig, Table, TableView,
};
use crate::subtotal::{subtotals, subtotals_of, SubtotalRow, SubtotalRowView};
use crate::text::lemma_first_position;

verus! {

/// The name of the column of running totals.
pub open spec fn total_column() -> Seq<char> {
    "Total"@
}

/// The value of an optional label: its text, or no value.
pub open spec fn label_cell(label: Option<Seq<char>>) -> CellView {
    match label {
        Some(text) => CellView::Text(text),
        None => CellView::Null,
    }
}

/// The values of one row of the ledger: account, amount, date and total.
pub open spec fn ledger_cells(row: LedgerRowView) -> Seq<CellView> {
    seq![
        CellView::Text(row.account_name),
        CellView::Amount(row.amount),
        CellView::Day(row.date),
        CellView::Amount(row.total),
    ]
}

/// The table of the ledger, with the columns `Account Name`, `Amount`,
/// `Date` and `Total`.
pub open spec fn ledger_table_of(ledger: Seq<LedgerRowView>) -> TableView {
    TableView {
        columns: seq![account_name_column(), amount_column(), date_column(), total_column()],
        rows: Seq::new(ledger.len(), |k: int| ledger_cells(ledger[k])),
    }
}

/// The values of one row of the classified ledger: those of the ledger row,
/// then the category.
pub open spec fn detail_cells(row: ClassifiedRowView) -> Seq<CellView> {
    seq![
        CellView::Text(row.account_name),
        CellView::Amount(row.amount),
        CellView::Day(row.date),
        CellView::Amount(row.total),
        label_cell(row.account_type),
    ]
}

/// The table of the classified ledger, with the columns `Account Name`,
/// `Amount`, `Date`, `Total` and `account_type`.
pub open spec fn detail_table_of(rows: Seq<ClassifiedRowView>) -> TableView {
    TableView {
        columns: seq![
            account_name_column(),
            amount_column(),
            date_column(),
            total_column(),
            account_type_column(),
        ],
        rows: Seq::new(rows.len(), |k: int| detail_cells(rows[k])),
    }
}

/// The values of one subtotal: the category, then the sum.
pub open spec fn subtotal_cells(row: SubtotalRowView) -> Seq<CellView> {
    seq![label_cell(row.account_type), CellView::Amount(row.amount_sum)]
}

/// The table of the subtotals, with the columns `account_type` and `Amount`.
pub open spec fn subtotal_table_of(rows: Seq<SubtotalRowView>) -> TableView {
    TableView {
        columns: seq![account_type_column(), amount_column()],
        rows: Seq::new(rows.len(), |k: int| subtotal_cells(rows[k])),
    }
}

/// The balances that the rows of a ledger hold: each row's date, amount and
/// account.
pub open spec fn balances_of_ledger(ledger: Seq<LedgerRowView>) -> Seq<BalanceRecordView> {
    Seq::new(
        ledger.len(),
        |k: int|
            BalanceRecordView {
                date: ledger[k].date,
                amount: ledger[k].amount,
                account_name: ledger[k].account_name,
            },
    )
}

/// The balances that the rows of a classified ledger hold.
pub open spec fn balances_of_detail(rows: Seq<ClassifiedRowView>) -> Seq<BalanceRecordView> {
    Seq::new(
        rows.len(),
        |k: int|
            BalanceRecordView {
                date: rows[k].date,
                amount: rows[k].amount,
                account_name: rows[k].account_name,
            },
    )
}

/// The names of the columns are four different texts.
proof fn lemma_column_names_differ()
    ensures
        account_name_column() != amount_column(),
        account_name_column() != date_column(),
        amount_column() != date_column(),
{
    reveal_strlit("Account Name");
    reveal_strlit("Amount");
    reveal_strlit("Date");
    assert(account_name_column().len() == 12);
    assert(amount_column().len() == 6);
}

/// Records whose first three columns are the account, the amount and the
/// date hold, row by row, the balances that were written into them.
proof fn lemma_records_hold_balances(
    records: Seq<Seq<Seq<char>>>,
    rows: Seq<BalanceRecordView>,
    count: int,
)
    requires
        records.len() == rows.len() + 1,
        0 <= count <= rows.len(),
        records[0].len() >= 3,
        forall|k: int|
            0 <= k < rows.len() ==> {
                let fields = #[trigger] records[k + 1];
                &&& fields.len() == records[0].len()
                &&& fields[0] == rows[k].account_name
                &&& fields[1] == amount_text(rows[k].amount)
                &&& fields[2] == date_text(rows[k].date)
                &&& rows[k].date.is_valid()
                &&& i64::MIN <= rows[k].amount <= i64::MAX
            },
    ensures
        balances_of_rows(
            records,
            BalanceColumns { width: records[0].len() as int, date: 2, amount: 1, account_name: 0 },
            count,
        ) == Ok::<Seq<BalanceRecordView>, SchemaError>(rows.take(count)),
    decreases count,
{
    let columns = BalanceColumns {
        width: records[0].len() as int,
        date: 2,
        amount: 1,
        account_name: 0,
    };
    if count <= 0 {
        assert(rows.take(0) =~= Seq::<BalanceRecordView>::empty());
    } else {
        lemma_records_hold_balances(records, rows, count - 1);
        let k = count - 1;
        let fields = records[k + 1];
        lemma_date_text_reads_back(rows[k].date);
        lemma_amount_text_reads_back(rows[k].amount);
        assert(balance_of_fields(fields, columns, k) == Ok::<BalanceRecordView, SchemaError>(
            rows[k],
        ));
        assert(rows.take(count) =~= rows.take(count - 1).push(rows[k]));
    }
}

/// A stored table whose first three columns are `Account Name`, `Amount`
/// and `Date` is read back as the balances that were written into it.
proof fn lemma_stored_balances_read_back(records: Seq<Seq<Seq<char>>>, rows: Seq<BalanceRecordView>)
    requires
        records.len() == rows.len() + 1,
        records[0].len() >= 3,
        records[0][0] == account_name_column(),
        records[0][1] == amount_column(),
        records[0][2] == date_column(),
        forall|k: int|
            0 <= k < rows.len() ==> {
                let fields = #[trigger] records[k + 1];
                &&& fields.len() == records[0].len()
                &&& fields[0] == rows[k].account_name
                &&& fields[1] == amount_text(rows[k].amount)
                &&& fields[2] == date_text(rows[k].date)
                &&& rows[k].date.is_valid()
                &&& i64::MIN <= rows[k].amount <= i64::MAX
            },
    ensures
        balances_of_text(text_of_records(records)) == Ok::<
            Seq<BalanceRecordView>,
            SchemaError,
        >(rows),
{
    let header = records[0];
    lemma_column_names_differ();
    lemma_first_position(header, amount_column(), 1);
    lemma_first_position(header, date_column(), 2);
    lemma_records_hold_balances(records, rows, rows.len() as int);
    assert(rows.take(rows.len() as int) =~= rows);
    assert forall|k: int| 0 <= k < records.len() implies is_readable_record(
        #[trigger] records[k],
    ) by {
        if k > 0 {
            assert(records[(k - 1) + 1].len() == records[0].len());
        }
    }
    lemma_records_read_back(records);
}

/// Writing the ledger and reading the text as the table of an account gives
/// each row's account, amount and date back, in the ledger's order.
pub proof fn lemma_stored_ledger_reads_back(ledger: Seq<LedgerRowView>)
    requires
        forall|k: int|
            0 <= k < ledger.len() ==> (#[trigger] ledger[k]).date.is_valid() && i64::MIN
                <= ledger[k].amount <= i64::MAX,
    ensures
        balances_of_text(stored_table_text(ledger_table_of(ledger))) == Ok::<
            Seq<BalanceRecordView>,
            SchemaError,
        >(balances_of_ledger(ledger)),
{
    let table = ledger_table_of(ledger);
    let records = stored_records(table);
    let rows = balances_of_ledger(ledger);
    assert forall|k: int| 0 <= k < rows.len() implies {
        let fields = #[trigger] records[k + 1];
        &&& fields.len() == records[0].len()
        &&& fields[0] == rows[k].account_name
        &&& fields[1] == amount_text(rows[k].amount)
        &&& fields[2] == date_text(rows[k].date)
        &&& rows[k].date.is_valid()
        &&& i64::MIN <= rows[k].amount <= i64::MAX
    } by {
    }
    lemma_stored_balances_read_back(records, rows);
}

/// Writing the classified ledger and reading the text as the table of an
/// account gives each row's account, amount and date back, in the rows' order.
pub proof fn lemma_stored_detail_reads_back(rows: Seq<ClassifiedRowView>)
    requires
        forall|k: int|
            0 <= k < rows.len() ==> (#[trigger] rows[k]).date.is_valid() && i64::MIN
                <= rows[k].amount <= i64::MAX,
    ensures
        balances_of_text(stored_table_text(detail_table_of(rows))) == Ok::<
            Seq<BalanceRecordView>,
            SchemaError,
        >(balances_of_detail(rows)),
{
    let table = detail_table_of(rows);
    let records = stored_records(table);
    let balances = balances_of_detail(rows);
    assert forall|k: int| 0 <= k < balances.len() implies {
        let fields = #[trigger] records[k + 1];
        &&& fields.len() == records[0].len()
        &&& fields[0] == balances[k].account_name
        &&& fields[1] == amount_text(balances[k].amount)
        &&& fields[2] == date_text(balances[k].date)
        &&& balances[k].date.is_valid()
        &&& i64::MIN <= balances[k].amount <= i64::MAX
    } by {
    }
    lemma_stored_balances_read_back(records, balances);
}

/// The value of an optional label.
fn cell_of_label(label: &Option<String>) -> (cell: Cell)
    ensures
        cell@ == label_cell(crate::classify::label_view(*label)),
{
    match label {
        Some(text) => Cell::Text(text.clone()),
        None => Cell::Null,
    }
}

/// The table of the ledger.
pub fn ledger_table(ledger: &Vec<LedgerRow>) -> (table: Table)
    ensures
        table@ == ledger_table_of(ledger.deep_view()),
{
    let mut columns: Vec<String> = Vec::new();
    columns.push("Account Name".to_owned());
    columns.push("Amount".to_owned());
    columns.push("Date".to_owned());
    columns.push("Total".to_owned());
    let mut rows: Vec<Vec<Cell>> = Vec::new();
    let mut k: usize = 0;
    while k < ledger.len()
        invariant
            0 <= k <= ledger.len(),
            rows.len() == k,
            forall|t: int|
                0 <= t < k ==> (#[trigger] rows[t]).deep_view() == ledger_cells(ledger[t]@),
        decreases ledger.len() - k,
    {
        let row = &ledger[k];
        let mut cells: Vec<Cell> = Vec::new();
        cells.push(Cell::Text(row.account_name.clone()));
        cells.push(Cell::Amount(row.amount as i128));
        cells.push(Cell::Day(row.date));
        cells.push(Cell::Amount(row.total));
        rows.push(cells);
        k = k + 1;
    }
    let table = Table { columns, rows };
    proof {
        assert(table@.columns =~= ledger_table_of(ledger.deep_view()).columns);
        assert(table@.rows =~= ledger_table_of(ledger.deep_view()).rows);
    }
    table
}

/// The table of the classified ledger.
pub fn detail_table(classified: &Vec<ClassifiedRow>) -> (table: Table)
    ensures
        table@ == detail_table_of(classified.deep_view()),
{
    let mut columns: Vec<String> = Vec::new();
    columns.push("Account Name".to_owned());
    columns.push("Amount".to_owned());
    columns.push("Date".to_owned());
    columns.push("Total".to_owned());
    columns.push("account_type".to_owned());
    let mut rows: Vec<Vec<Cell>> = Vec::new();
    let mut k: usize = 0;
    while k < classified.len()
        invariant
            0 <= k <= classified.len(),
            rows.len() == k,
            forall|t: int|
                0 <= t < k ==> (#[trigger] rows[t]).deep_view() == detail_cells(classified[t]@),
        decreases classified.len() - k,
    {
        let row = &classified[k];
        let mut cells: Vec<Cell> = Vec::new();
        cells.push(Cell::Text(row.account_name.clone()));
        cells.push(Cell::Amount(row.amount as i128));
        cells.push(Cell::Day(row.date));
        cells.push(Cell::Amount(row.total));
        cells.push(cell_of_label(&row.account_type));
        rows.push(cells);
        k = k + 1;
    }
    let table = Table { columns, rows };
    proof {
        assert(table@.columns =~= detail_table_of(classified.deep_view()).columns);
        assert(table@.rows =~= detail_table_of(classified.deep_view()).rows);
    }
    table
}

/// The table of the subtotals.
pub fn subtotal_table(rows: &Vec<SubtotalRow>) -> (table: Table)
    ensures
        table@ == subtotal_table_of(rows.deep_view()),
{
    let mut columns: Vec<String> = Vec::new();
    columns.push("account_type".to_owned());
    columns.push("Amount".to_owned());
    let mut lines: Vec<Vec<Cell>> = Vec::new();
    let mut k: usize = 0;
    while k < rows.len()
        invariant
            0 <= k <= rows.len(),
            lines.len() == k,
            forall|t: int|
                0 <= t < k ==> (#[trigger] lines[t]).deep_view() == subtotal_cells(rows[t]@),
        decreases rows.len() - k,
    {
        let row = &rows[k];
        let mut cells: Vec<Cell> = Vec::new();
        cells.push(cell_of_label(&row.account_type));
        cells.push(Cell::Amount(row.amount_sum));
        lines.push(cells);
        k = k + 1;
    }
    let table = Table { columns, rows: lines };
    proof {
        assert(table@.columns =~= subtotal_table_of(rows.deep_view()).columns);
        assert(table@.rows =~= subtotal_table_of(rows.deep_view()).rows);
    }
    table
}

/// The subtotals of a run: the rows, the table drawn for the console, and
/// the delimited text to store.
#[derive(Debug)]
pub struct SubtotalReport {
    pub rows: Vec<SubtotalRow>,
    pub drawing: String,
    pub stored: String,
}

/// Sums the amounts of each category and reports the sums: as rows, as a
/// table drawn for the console, and as the text to store.
pub fn show_subtotals(classified: &Vec<ClassifiedRow>, config: &DisplayConfig) -> (report:
    SubtotalReport)
    ensures
        report.rows.deep_view() == subtotals_of(classified.deep_view()),
        report.drawing@ == table_drawing(
            shown_header(subtotal_table_of(subtotals_of(classified.deep_view())), *config),
            shown_rows(subtotal_table_of(subtotals_of(classified.deep_view())), *config),
        ),
        report.stored@ == stored_table_text(
            subtotal_table_of(subtotals_of(classified.deep_view())),
        ),
{
    let rows = subtotals(classified);
    let table = subtotal_table(&rows);
    let drawing = show_table(&table, config);
    let stored = write_csv(&table);
    SubtotalReport { rows, drawing, stored }
}

} // verus!
