//! Reading the tables: an account's balances and the category lookup.
//!
//! A table is delimited text whose first record names the columns. The
//! columns that a table needs are found by their names, wherever they stand;
//! other columns are passed over. A table that cannot be read is refused as
//! a whole.

use vstd::prelude::*;
use crate::amount::{amount_of_text, parse_amount};
use crate::classify::{CategoryEntry, CategoryEntryView};
use crate::csv::{parse_csv, records_of_text};
use crate::date::{date_of_text, parse_date};
use crate::record::{newest_balance, newest_position, BalanceRecord, BalanceRecordView};
use crate::text::{decimal_text, first_position, lemma_first_position, push_decimal};

verus! {

/// A column that a table must have.
#[derive(Clone, Copy, Debug, PartialEq, Eq, Structural)]
pub enum Column {
    Date,
    Amount,
    AccountName,
    AccountType,
}

/// Why a table was refused.
#[derive(Clone, Copy, Debug, PartialEq, Eq, Structural)]
pub enum SchemaError {
    /// The text is no delimited text: a quote stands inside a field without
    /// quotes, a character follows a closing quote, or the text ends inside quotes.
    Malformed,
    /// The text has no record, so no names of columns.
    NoHeader,
    /// The first record does not name this column.
    MissingColumn(Column),
    /// The row, counted from 0 behind the header, has not as many fields as
    /// the header.
    RowLength { row: usize },
    /// The date of the row is no date written as `YYYY-MM-DD`.
    BadDate { row: usize },
    /// The amount of the row is no amount.
    BadAmount { row: usize },
    /// The table of an account has no row, so no newest balance.
    NoRows,
}

/// The name of the column of dates.
pub open spec fn date_column() -> Seq<char> {
    "Date"@
}

/// The name of the column of amounts.
pub open spec fn amount_column() -> Seq<char> {
    "Amount"@
}

/// The name of the column of account names.
pub open spec fn account_name_column() -> Seq<char> {
    "Account Name"@
}

/// The name of the column of categories.
pub open spec fn account_type_column() -> Seq<char> {
    "account_type"@
}

/// The name of a column, as the first record of a table has to hold it.
pub open spec fn column_name(column: Column) -> Seq<char> {
    match column {
        Column::Date => date_column(),
        Column::Amount => amount_column(),
        Column::AccountName => account_name_column(),
        Column::AccountType => account_type_column(),
    }
}

/// The words that say why a table was refused. Rows are counted from 1 in them.
pub open spec fn error_text(error: SchemaError) -> Seq<char> {
    match error {
        SchemaError::Malformed => "the text is no delimited text"@,
        SchemaError::NoHeader => "the table has no line of column names"@,
        SchemaError::MissingColumn(column) => "the column '"@ + column_name(column)
            + "' is missing"@,
        SchemaError::RowLength { row } => "row "@ + decimal_text((row + 1) as nat)
            + " has not as many fields as the header"@,
        SchemaError::BadDate { row } => "row "@ + decimal_text((row + 1) as nat)
            + " holds no date"@,
        SchemaError::BadAmount { row } => "row "@ + decimal_text((row + 1) as nat)
            + " holds no amount"@,
        SchemaError::NoRows => "the table has no row"@,
    }
}

impl Column {
    /// The name of this column.
    pub fn name(&self) -> (name: &'static str)
        ensures
            name@ == column_name(*self),
    {
        match self {
            Column::Date => "Date",
            Column::Amount => "Amount",
            Column::AccountName => "Account Name",
            Column::AccountType => "account_type",
        }
    }
}

/// The words `before`, the number of the row counted from 1, and `behind`.
fn row_message(before: &str, row: usize, behind: &str) -> (message: String)
    ensures
        message@ == before@ + decimal_text((row + 1) as nat) + behind@,
{
    let mut message = before.to_owned();
    push_decimal(&mut message, row as u128 + 1);
    message.append(behind);
    message
}

impl SchemaError {
    /// Says in words why the table was refused.
    pub fn describe(&self) -> (message: String)
        ensures
            message@ == error_text(*self),
    {
        match self {
            SchemaError::Malformed => "the text is no delimited text".to_owned(),
            SchemaError::NoHeader => "the table has no line of column names".to_owned(),
            SchemaError::MissingColumn(column) => {
                let mut message = "the column '".to_owned();
                message.append(column.name());
                message.append("' is missing");
                message
            },
            SchemaError::RowLength { row } => row_message(
                "row ",
                *row,
                " has not as many fields as the header",
            ),
            SchemaError::BadDate { row } => row_message("row ", *row, " holds no date"),
            SchemaError::BadAmount { row } => row_message("row ", *row, " holds no amount"),
            SchemaError::NoRows => "the table has no row".to_owned(),
        }
    }
}

/// The places of the columns that a balance needs, and the number of
/// fields of a row.
pub struct BalanceColumns {
    pub width: int,
    pub date: int,
    pub amount: int,
    pub account_name: int,
}

/// The balance that the fields of one row hold, or what is wrong with the row.
pub open spec fn balance_of_fields(fields: Seq<Seq<char>>, columns: BalanceColumns, row: int) -> Result<
    BalanceRecordView,
    SchemaError,
> {
    if fields.len() != columns.width {
        Err(SchemaError::RowLength { row: row as usize })
    } else {
        match date_of_text(fields[columns.date]) {
            None => Err(SchemaError::BadDate { row: row as usize }),
            Some(date) => match amount_of_text(fields[columns.amount]) {
                None => Err(SchemaError::BadAmount { row: row as usize }),
                Some(amount) => Ok(
                    BalanceRecordView { date, amount, account_name: fields[columns.account_name] },
                ),
            },
        }
    }
}

/// The balances of the first `count` rows behind the header, or what is
/// wrong with the first row that cannot be read.
pub open spec fn balances_of_rows(
    records: Seq<Seq<Seq<char>>>,
    columns: BalanceColumns,
    count: int,
) -> Result<Seq<BalanceRecordView>, SchemaError>
    decreases count,
{
    if count <= 0 {
        Ok(Seq::empty())
    } else {
        match balances_of_rows(records, columns, count - 1) {
            Err(e) => Err(e),
            Ok(rows) => match balance_of_fields(records[count], columns, count - 1) {
                Err(e) => Err(e),
                Ok(row) => Ok(rows.push(row)),
            },
        }
    }
}

/// The balances that the records of a table hold.
pub open spec fn balances_of_records(records: Seq<Seq<Seq<char>>>) -> Result<
    Seq<BalanceRecordView>,
    SchemaError,
> {
    if records.len() == 0 {
        Err(SchemaError::NoHeader)
    } else {
        let header = records[0];
        let columns = BalanceColumns {
            width: header.len() as int,
            date: first_position(header, date_column()),
            amount: first_position(header, amount_column()),
            account_name: first_position(header, account_name_column()),
        };
        if columns.date == header.len() {
            Err(SchemaError::MissingColumn(Column::Date))
        } else if columns.amount == header.len() {
            Err(SchemaError::MissingColumn(Column::Amount))
        } else if columns.account_name == header.len() {
            Err(SchemaError::MissingColumn(Column::AccountName))
        } else {
            balances_of_rows(records, columns, records.len() - 1)
        }
    }
}

/// The balances that the text of an account's table holds, in the order of
/// its rows, or why the table is refused.
pub open spec fn balances_of_text(text: Seq<char>) -> Result<Seq<BalanceRecordView>, SchemaError> {
    match records_of_text(text) {
        None => Err(SchemaError::Malformed),
        Some(records) => balances_of_records(records),
    }
}

/// The newest balance that the text of an account's table holds.
pub open spec fn snapshot_of_text(text: Seq<char>) -> Result<BalanceRecordView, SchemaError> {
    match balances_of_text(text) {
        Err(e) => Err(e),
        Ok(rows) => if rows.len() == 0 {
            Err(SchemaError::NoRows)
        } else {
            Ok(rows[newest_position(rows)])
        },
    }
}

/// The entries of the first `count` rows behind the header, or what is
/// wrong with the first row that cannot be read.
pub open spec fn categories_of_rows(
    records: Seq<Seq<Seq<char>>>,
    account_name: int,
    account_type: int,
    count: int,
) -> Result<Seq<CategoryEntryView>, SchemaError>
    decreases count,
{
    if count <= 0 {
        Ok(Seq::empty())
    } else {
        match categories_of_rows(records, account_name, account_type, count - 1) {
            Err(e) => Err(e),
            Ok(rows) => if records[count].len() != records[0].len() {
                Err(SchemaError::RowLength { row: (count - 1) as usize })
            } else {
                Ok(
                    rows.push(
                        CategoryEntryView {
                            account_name: records[count][account_name],
                            account_type: records[count][account_type],
                        },
                    ),
                )
            },
        }
    }
}

/// The entries that the text of the category lookup holds, in the order of
/// its rows, or why the table is refused.
pub open spec fn categories_of_text(text: Seq<char>) -> Result<Seq<CategoryEntryView>, SchemaError> {
    match records_of_text(text) {
        None => Err(SchemaError::Malformed),
        Some(records) => if records.len() == 0 {
            Err(SchemaError::NoHeader)
        } else {
            let header = records[0];
            let account_name = first_position(header, account_name_column());
            let account_type = first_position(header, account_type_column());
            if account_name == header.len() {
                Err(SchemaError::MissingColumn(Column::AccountName))
            } else if account_type == header.len() {
                Err(SchemaError::MissingColumn(Column::AccountType))
            } else {
                categories_of_rows(records, account_name, account_type, records.len() - 1)
            }
        },
    }
}

/// A row that cannot be read refuses the table, whatever rows follow it.
proof fn lemma_first_bad_balance_decides(
    records: Seq<Seq<Seq<char>>>,
    columns: BalanceColumns,
    count: int,
    more: int,
)
    requires
        0 <= count <= more,
        balances_of_rows(records, columns, count) is Err,
    ensures
        balances_of_rows(records, columns, more) == balances_of_rows(records, columns, count),
    decreases more - count,
{
    if count < more {
        lemma_first_bad_balance_decides(records, columns, count, more - 1);
    }
}

/// A row that cannot be read refuses the lookup, whatever rows follow it.
proof fn lemma_first_bad_category_decides(
    records: Seq<Seq<Seq<char>>>,
    account_name: int,
    account_type: int,
    count: int,
    more: int,
)
    requires
        0 <= count <= more,
        categories_of_rows(records, account_name, account_type, count) is Err,
    ensures
        categories_of_rows(records, account_name, account_type, more) == categories_of_rows(
            records,
            account_name,
            account_type,
            count,
        ),
    decreases more - count,
{
    if count < more {
        lemma_first_bad_category_decides(records, account_name, account_type, count, more - 1);
    }
}

/// The place of the first field of `header` that holds `name`, or the
/// number of its fields if none does.
pub fn find_column(header: &Vec<String>, name: &str) -> (place: usize)
    ensures
        place == first_position(header.deep_view(), name@),
        place <= header.len(),
{
    let wanted = name.to_owned();
    let mut place: usize = 0;
    let mut found = false;
    while place < header.len() && !found
        invariant
            0 <= place <= header.len(),
            wanted@ == name@,
            forall|j: int| 0 <= j < place ==> (#[trigger] header[j])@ != name@,
            found ==> place < header.len() && header[place as int]@ == name@,
        decreases header.len() - place + if found { 0int } else { 1int },
    {
        if header[place] == wanted {
            found = true;
        } else {
            place = place + 1;
        }
    }
    proof {
        let names = header.deep_view();
        lemma_first_position(names, name@, place as int);
    }
    place
}

/// Reads the table of one account: its balances, in the order of its rows.
pub fn parse_balance_table(text: &str) -> (r: Result<Vec<BalanceRecord>, SchemaError>)
    ensures
        match balances_of_text(text@) {
            Ok(rows) => r is Ok && r->Ok_0.deep_view() == rows,
            Err(e) => r is Err && r->Err_0 == e,
        },
{
    let records = match parse_csv(text) {
        None => { return Err(SchemaError::Malformed); },
        Some(records) => records,
    };
    if records.len() == 0 {
        return Err(SchemaError::NoHeader);
    }
    let ghost all = records.deep_view();
    let header = &records[0];
    let date = find_column(header, "Date");
    let amount = find_column(header, "Amount");
    let account_name = find_column(header, "Account Name");
    if date == header.len() {
        return Err(SchemaError::MissingColumn(Column::Date));
    }
    if amount == header.len() {
        return Err(SchemaError::MissingColumn(Column::Amount));
    }
    if account_name == header.len() {
        return Err(SchemaError::MissingColumn(Column::AccountName));
    }
    let ghost columns = BalanceColumns {
        width: header.len() as int,
        date: date as int,
        amount: amount as int,
        account_name: account_name as int,
    };
    let mut rows: Vec<BalanceRecord> = Vec::new();
    let mut k: usize = 1;
    assert(rows.deep_view() =~= Seq::<BalanceRecordView>::empty());
    while k < records.len()
        invariant
            1 <= k <= records.len(),
            rows.len() == k - 1,
            all == records.deep_view(),
            *header == records[0],
            columns.width == records[0].len(),
            columns.date == date < columns.width,
            columns.amount == amount < columns.width,
            columns.account_name == account_name < columns.width,
            balances_of_text(text@) == balances_of_rows(all, columns, all.len() - 1),
            balances_of_rows(all, columns, k - 1) == Ok::<Seq<BalanceRecordView>, SchemaError>(
                rows.deep_view(),
            ),
        decreases records.len() - k,
    {
        let fields = &records[k];
        let ghost before = rows.deep_view();
        proof {
            if balances_of_rows(all, columns, k as int) is Err {
                lemma_first_bad_balance_decides(all, columns, k as int, all.len() - 1);
            }
        }
        if fields.len() != header.len() {
            return Err(SchemaError::RowLength { row: k - 1 });
        }
        let day = match parse_date(fields[date].as_str()) {
            None => { return Err(SchemaError::BadDate { row: k - 1 }); },
            Some(day) => day,
        };
        let value = match parse_amount(fields[amount].as_str()) {
            None => { return Err(SchemaError::BadAmount { row: k - 1 }); },
            Some(value) => value,
        };
        rows.push(
            BalanceRecord { date: day, amount: value, account_name: fields[account_name].clone() },
        );
        proof {
            assert(rows.deep_view() =~= before.push(rows[k - 1]@));
        }
        k = k + 1;
    }
    Ok(rows)
}

/// Reads the table of one account and keeps its newest balance.
pub fn load_account(text: &str) -> (r: Result<BalanceRecord, SchemaError>)
    ensures
        match snapshot_of_text(text@) {
            Ok(row) => r is Ok && r->Ok_0@ == row,
            Err(e) => r is Err && r->Err_0 == e,
        },
{
    let rows = match parse_balance_table(text) {
        Err(e) => { return Err(e); },
        Ok(rows) => rows,
    };
    match newest_balance(&rows) {
        None => Err(SchemaError::NoRows),
        Some(row) => {
            proof {
                crate::record::lemma_newest_is_last_maximum(rows.deep_view());
            }
            Ok(row)
        },
    }
}

/// Reads the category lookup: its entries, in the order of its rows.
pub fn load_categories(text: &str) -> (r: Result<Vec<CategoryEntry>, SchemaError>)
    ensures
        match categories_of_text(text@) {
            Ok(rows) => r is Ok && r->Ok_0.deep_view() == rows,
            Err(e) => r is Err && r->Err_0 == e,
        },
{
    let records = match parse_csv(text) {
        None => { return Err(SchemaError::Malformed); },
        Some(records) => records,
    };
    if records.len() == 0 {
        return Err(SchemaError::NoHeader);
    }
    let ghost all = records.deep_view();
    let header = &records[0];
    let account_name = find_column(header, "Account Name");
    let account_type = find_column(header, "account_type");
    if account_name == header.len() {
        return Err(SchemaError::MissingColumn(Column::AccountName));
    }
    if account_type == header.len() {
        return Err(SchemaError::MissingColumn(Column::AccountType));
    }
    let mut rows: Vec<CategoryEntry> = Vec::new();
    let mut k: usize = 1;
    assert(rows.deep_view() =~= Seq::<CategoryEntryView>::empty());
    while k < records.len()
        invariant
            1 <= k <= records.len(),
            rows.len() == k - 1,
            all == records.deep_view(),
            *header == records[0],
            account_name < records[0].len(),
            account_type < records[0].len(),
            categories_of_text(text@) == categories_of_rows(
                all,
                account_name as int,
                account_type as int,
                all.len() - 1,
            ),
            categories_of_rows(all, account_name as int, account_type as int, k - 1) == Ok::<
                Seq<CategoryEntryView>,
                SchemaError,
            >(rows.deep_view()),
        decreases records.len() - k,
    {
        let fields = &records[k];
        let ghost before = rows.deep_view();
        proof {
            if categories_of_rows(all, account_name as int, account_type as int, k as int) is Err {
                lemma_first_bad_category_decides(
                    all,
                    account_name as int,
                    account_type as int,
                    k as int,
                    all.len() - 1,
                );
            }
        }
        if fields.len() != header.len() {
            return Err(SchemaError::RowLength { row: k - 1 });
        }
        rows.push(
            CategoryEntry {
                account_name: fields[account_name].clone(),
                account_type: fields[account_type].clone(),
            },
        );
        proof {
            assert(rows.deep_view() =~= before.push(rows[k - 1]@));
        }
        k = k + 1;
    }
    Ok(rows)
}

} // verus!
