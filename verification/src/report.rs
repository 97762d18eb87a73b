//! The reports: the tables of the ledger, of the classified ledger and of
//! the subtotals, as stored text and as shown on a console.
//!
//! Stored text holds every amount with two digits of hundredths and no
//! grouping. Shown text groups the digits and puts a dollar sign before
//! them. The settings of the display never touch what is stored.

use vstd::prelude::*;
use crate::amount::{amount_text, currency_text, format_amount, format_currency};
use crate::csv::{text_of_records, write_records};
use crate::date::{date_text, Date};
use crate::text::{chars_of, string_of};

verus! {

/// One value of a table.
#[derive(Debug)]
pub enum Cell {
    Text(String),
    /// An amount, in hundredths.
    Amount(i128),
    Day(Date),
    /// No value.
    Null,
}

/// What a `Cell` holds, as a plain value.
pub enum CellView {
    Text(Seq<char>),
    Amount(int),
    Day(Date),
    Null,
}

impl View for Cell {
    type V = CellView;

    open spec fn view(&self) -> CellView {
        match self {
            Cell::Text(s) => CellView::Text(s@),
            Cell::Amount(v) => CellView::Amount(*v as int),
            Cell::Day(d) => CellView::Day(*d),
            Cell::Null => CellView::Null,
        }
    }
}

impl DeepView for Cell {
    type V = CellView;

    open spec fn deep_view(&self) -> CellView {
        self@
    }
}

/// A table: the names of its columns and its rows of values.
#[derive(Debug)]
pub struct Table {
    pub columns: Vec<String>,
    pub rows: Vec<Vec<Cell>>,
}

/// What a `Table` holds, as plain values.
pub struct TableView {
    pub columns: Seq<Seq<char>>,
    pub rows: Seq<Seq<CellView>>,
}

impl View for Table {
    type V = TableView;

    open spec fn view(&self) -> TableView {
        TableView { columns: self.columns.deep_view(), rows: self.rows.deep_view() }
    }
}

/// How tables are shown on a console.
#[derive(Clone, Copy, Debug)]
pub struct DisplayConfig {
    /// No more rows of a table than this are shown.
    pub max_rows: usize,
    /// No more characters of a value than this are shown.
    pub max_string_len: usize,
    /// What stands between the groups of three digits of an amount.
    pub thousands_separator: char,
}

/// The settings with which the reports are shown: up to 999999 rows, up to
/// 50 characters of a value, and a comma between groups of digits.
pub fn configure_the_environment() -> (config: DisplayConfig)
    ensures
        config.max_rows == 999999,
        config.max_string_len == 50,
        config.thousands_separator == ',',
{
    DisplayConfig { max_rows: 999999, max_string_len: 50, thousands_separator: ',' }
}

/// The first `limit` characters of `text`, or all of it where it has no more.
pub open spec fn cut(text: Seq<char>, limit: int) -> Seq<char> {
    if text.len() <= limit {
        text
    } else {
        text.take(limit)
    }
}

/// The text in which a value is stored; no character for no value.
pub open spec fn stored_text(cell: CellView) -> Seq<char> {
    match cell {
        CellView::Text(s) => s,
        CellView::Amount(v) => amount_text(v),
        CellView::Day(d) => date_text(d),
        CellView::Null => Seq::empty(),
    }
}

/// The text in which a value is shown, or `None` for no value.
pub open spec fn shown_text(cell: CellView, config: DisplayConfig) -> Option<Seq<char>> {
    match cell {
        CellView::Text(s) => Some(cut(s, config.max_string_len as int)),
        CellView::Amount(v) => Some(
            cut(currency_text(v, config.thousands_separator), config.max_string_len as int),
        ),
        CellView::Day(d) => Some(cut(date_text(d), config.max_string_len as int)),
        CellView::Null => None,
    }
}

/// What stands in a shown table for a value: its shown text, and no
/// character for no value.
pub open spec fn shown_cell(cell: CellView, config: DisplayConfig) -> Seq<char> {
    match shown_text(cell, config) {
        Some(text) => text,
        None => Seq::empty(),
    }
}

/// The stored texts of the values of one row.
pub open spec fn stored_row(cells: Seq<CellView>) -> Seq<Seq<char>> {
    Seq::new(cells.len(), |j: int| stored_text(cells[j]))
}

/// The records of the stored table: the names of the columns, then the rows.
pub open spec fn stored_records(table: TableView) -> Seq<Seq<Seq<char>>> {
    Seq::new(
        table.rows.len() + 1,
        |k: int|
            if k == 0 {
                table.columns
            } else {
                stored_row(table.rows[k - 1])
            },
    )
}

/// The delimited text in which a table is stored.
pub open spec fn stored_table_text(table: TableView) -> Seq<char> {
    text_of_records(stored_records(table))
}

/// The names of the columns as they are shown.
pub open spec fn shown_header(table: TableView, config: DisplayConfig) -> Seq<Seq<char>> {
    Seq::new(table.columns.len(), |j: int| cut(table.columns[j], config.max_string_len as int))
}

/// The number of rows of a table that are shown.
pub open spec fn shown_row_count(table: TableView, config: DisplayConfig) -> int {
    if table.rows.len() <= config.max_rows {
        table.rows.len() as int
    } else {
        config.max_rows as int
    }
}

/// The rows of a table as they are shown: the first rows, as many as the
/// settings allow, each value as its shown text.
pub open spec fn shown_rows(table: TableView, config: DisplayConfig) -> Seq<Seq<Seq<char>>> {
    Seq::new(
        shown_row_count(table, config) as nat,
        |k: int| Seq::new(table.rows[k].len(), |j: int| shown_cell(table.rows[k][j], config)),
    )
}

/// What `comfy_table` draws of a header and rows of texts, as the lines of
/// the table with a line break between them.
pub uninterp spec fn table_drawing(header: Seq<Seq<char>>, rows: Seq<Seq<Seq<char>>>) -> Seq<char>;

/// Draws a table with `comfy_table`: `Table::new`, `force_no_tty`, so that
/// no terminal is asked for its width or its colours, `set_header` with
/// `header`, `add_row` with each of `rows` in their order, and the table's
/// `to_string`. Nothing is proved of the drawing; the contract gives it a
/// name, which says that the same header and rows are drawn the same way.
#[verifier::external_body]
fn draw_table(header: &Vec<String>, rows: &Vec<Vec<String>>) -> (drawing: String)
    ensures
        drawing@ == table_drawing(header.deep_view(), rows.deep_view()),
{
    let mut table = comfy_table::Table::new();
    table.force_no_tty();
    table.set_header(header);
    for row in rows.iter() {
        table.add_row(row);
    }
    table.to_string()
}

/// The first `limit` characters of `text`.
pub fn cut_text(text: &str, limit: usize) -> (r: String)
    ensures
        r@ == cut(text@, limit as int),
{
    let chars = chars_of(text);
    if chars.len() <= limit {
        let r = string_of(&chars, 0, chars.len());
        r
    } else {
        string_of(&chars, 0, limit)
    }
}

/// The text in which a value is shown, or `None` for no value: a text as it
/// is, an amount with a dollar sign and grouped digits, a date as
/// `YYYY-MM-DD`, each cut to the length that the settings allow.
pub fn any_to_string(any: &Cell, config: &DisplayConfig) -> (r: Option<String>)
    ensures
        r is Some <==> shown_text(any@, *config) is Some,
        r matches Some(text) ==> shown_text(any@, *config) == Some(text@),
{
    match any {
        Cell::Text(s) => Some(cut_text(s.as_str(), config.max_string_len)),
        Cell::Amount(v) => {
            let whole = format_currency(*v, config.thousands_separator);
            Some(cut_text(whole.as_str(), config.max_string_len))
        },
        Cell::Day(d) => {
            let whole = d.to_text();
            Some(cut_text(whole.as_str(), config.max_string_len))
        },
        Cell::Null => None,
    }
}

/// The text in which a value is stored.
pub fn stored_cell_text(cell: &Cell) -> (r: String)
    ensures
        r@ == stored_text(cell@),
{
    match cell {
        Cell::Text(s) => s.clone(),
        Cell::Amount(v) => format_amount(*v),
        Cell::Day(d) => d.to_text(),
        Cell::Null => String::new(),
    }
}

/// The names of the columns of a table, in their order.
pub fn columns_names(table: &Table) -> (names: Vec<String>)
    ensures
        names.deep_view() == table@.columns,
{
    let mut names: Vec<String> = Vec::new();
    let mut j: usize = 0;
    while j < table.columns.len()
        invariant
            0 <= j <= table.columns.len(),
            names.len() == j,
            forall|t: int| 0 <= t < j ==> (#[trigger] names[t])@ == table.columns[t]@,
        decreases table.columns.len() - j,
    {
        names.push(table.columns[j].clone());
        j = j + 1;
    }
    names
}

/// The delimited text in which a table is stored: a line of the names of
/// the columns, then a line for each row.
pub fn write_csv(table: &Table) -> (text: String)
    ensures
        text@ == stored_table_text(table@),
{
    let mut records: Vec<Vec<String>> = Vec::new();
    records.push(columns_names(table));
    let mut k: usize = 0;
    while k < table.rows.len()
        invariant
            0 <= k <= table.rows.len(),
            records.len() == k + 1,
            forall|t: int|
                0 <= t <= k ==> (#[trigger] records[t]).deep_view() == stored_records(table@)[t],
        decreases table.rows.len() - k,
    {
        let cells = &table.rows[k];
        let mut fields: Vec<String> = Vec::new();
        let mut j: usize = 0;
        while j < cells.len()
            invariant
                0 <= j <= cells.len(),
                fields.len() == j,
                forall|t: int| 0 <= t < j ==> (#[trigger] fields[t])@ == stored_text(cells[t]@),
            decreases cells.len() - j,
        {
            fields.push(stored_cell_text(&cells[j]));
            j = j + 1;
        }
        records.push(fields);
        k = k + 1;
    }
    assert(records.deep_view() =~= stored_records(table@));
    write_records(&records)
}

/// The shown texts of the first rows of a table, as many as the settings allow.
pub fn shown_texts(table: &Table, config: &DisplayConfig) -> (rows: Vec<Vec<String>>)
    ensures
        rows.deep_view() == shown_rows(table@, *config),
{
    let count = if table.rows.len() <= config.max_rows {
        table.rows.len()
    } else {
        config.max_rows
    };
    let mut rows: Vec<Vec<String>> = Vec::new();
    let mut k: usize = 0;
    while k < count
        invariant
            0 <= k <= count <= table.rows.len(),
            count == shown_row_count(table@, *config),
            rows.len() == k,
            forall|t: int|
                0 <= t < k ==> (#[trigger] rows[t]).deep_view() == shown_rows(table@, *config)[t],
        decreases count - k,
    {
        let cells = &table.rows[k];
        let mut texts: Vec<String> = Vec::new();
        let mut j: usize = 0;
        while j < cells.len()
            invariant
                0 <= j <= cells.len(),
                texts.len() == j,
                forall|t: int|
                    0 <= t < j ==> (#[trigger] texts[t])@ == shown_cell(cells[t]@, *config),
            decreases cells.len() - j,
        {
            let text = match any_to_string(&cells[j], config) {
                Some(text) => text,
                None => String::new(),
            };
            texts.push(text);
            j = j + 1;
        }
        rows.push(texts);
        k = k + 1;
    }
    rows
}

/// Draws a table for the console: the names of its columns and its first
/// rows, as many as the settings allow, each value as its shown text.
pub fn show_table(table: &Table, config: &DisplayConfig) -> (drawing: String)
    ensures
        drawing@ == table_drawing(shown_header(table@, *config), shown_rows(table@, *config)),
{
    let mut header: Vec<String> = Vec::new();
    let mut j: usize = 0;
    while j < table.columns.len()
        invariant
            0 <= j <= table.columns.len(),
            header.len() == j,
            forall|t: int|
                0 <= t < j ==> (#[trigger] header[t])@ == cut(
                    table.columns[t]@,
                    config.max_string_len as int,
                ),
        decreases table.columns.len() - j,
    {
        header.push(cut_text(table.columns[j].as_str(), config.max_string_len));
        j = j + 1;
    }
    assert(header.deep_view() =~= shown_header(table@, *config));
    let rows = shown_texts(table, config);
    draw_table(&header, &rows)
}

} // verus!
