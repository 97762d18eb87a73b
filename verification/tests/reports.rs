use balances::classify::CategoryEntry;
use balances::date::Date;
use balances::loader::{
    load_account, load_categories, parse_balance_table, Column, SchemaError,
};
use balances::pipeline::{
    build_report, gather_snapshots, load_outcome, run, LoadOutcome, Refusal, RunError,
};
use balances::record::BalanceRecord;
use balances::report::{
    any_to_string, columns_names, configure_the_environment, cut_text, show_table,
    stored_cell_text, write_csv, Cell, DisplayConfig, Table,
};
use balances::tables::{detail_table, ledger_table, show_subtotals, subtotal_table};

const CHECKING: &str = "\"Date\",\"Amount\",\"Account Name\"\n\
\"2021-10-19\",\"10,900.44\",\"My Checking\"\n\
\"2021-10-19\",\"11,900.44\",\"My Checking\"\n\
\"2021-10-19\",\"9,900.44\",\"My Checking\"\n";

const SAVINGS: &str = "Account Name,Date,Amount\nSavings,2021-09-01,450.00\nSavings,2021-11-01,500.00\n";

const CATEGORIES: &str = "Account Name,account_type\nMy Checking,cash\nSavings,cash\n";

fn day(year: u16, month: u8, day: u8) -> Date {
    Date::new(year, month, day).unwrap()
}

fn outcomes() -> Vec<LoadOutcome> {
    vec![load_outcome(Some(CHECKING)), load_outcome(None), load_outcome(Some(SAVINGS))]
}

#[test]
fn settings_of_the_display() {
    let config = configure_the_environment();
    assert_eq!(config.max_rows, 999999);
    assert_eq!(config.max_string_len, 50);
    assert_eq!(config.thousands_separator, ',');
}

#[test]
fn table_of_an_account_is_read_in_the_order_of_its_rows() {
    let rows = parse_balance_table(CHECKING).unwrap();
    assert_eq!(rows.len(), 3);
    assert_eq!(rows[0].amount, 1090044);
    assert_eq!(rows[1].amount, 1190044);
    assert_eq!(rows[2].amount, 990044);
    assert!(rows.iter().all(|r| r.account_name == "My Checking" && r.date == day(2021, 10, 19)));
}

#[test]
fn columns_are_found_by_their_names() {
    let rows = parse_balance_table("Note,Amount,Account Name,Date\nx,1.50,A,2020-01-02\n").unwrap();
    assert_eq!(rows.len(), 1);
    assert_eq!(rows[0].amount, 150);
    assert_eq!(rows[0].account_name, "A");
    assert_eq!(rows[0].date, day(2020, 1, 2));
}

#[test]
fn loader_keeps_the_last_row_of_the_greatest_date() {
    let snapshot = load_account(CHECKING).unwrap();
    assert_eq!(snapshot.date, day(2021, 10, 19));
    assert_eq!(snapshot.amount, 990044);
    assert_eq!(snapshot.account_name, "My Checking");
    let savings = load_account(SAVINGS).unwrap();
    assert_eq!(savings.date, day(2021, 11, 1));
    assert_eq!(savings.amount, 50000);
}

#[test]
fn table_that_cannot_be_read_is_refused() {
    assert_eq!(parse_balance_table("Date,Amount\n\"x").err(), Some(SchemaError::Malformed));
    assert_eq!(parse_balance_table("").err(), Some(SchemaError::NoHeader));
    assert_eq!(
        parse_balance_table("Amount,Account Name\n1,A\n").err(),
        Some(SchemaError::MissingColumn(Column::Date))
    );
    assert_eq!(
        parse_balance_table("Date,Account Name\n2020-01-01,A\n").err(),
        Some(SchemaError::MissingColumn(Column::Amount))
    );
    assert_eq!(
        parse_balance_table("Date,Amount,account name\n").err(),
        Some(SchemaError::MissingColumn(Column::AccountName))
    );
    assert_eq!(
        parse_balance_table("Date,Amount,Account Name\n2020-01-01,1,A\n2020-01-02,2\n").err(),
        Some(SchemaError::RowLength { row: 1 })
    );
    assert_eq!(
        parse_balance_table("Date,Amount,Account Name\n2020-13-01,1,A\n").err(),
        Some(SchemaError::BadDate { row: 0 })
    );
    assert_eq!(
        parse_balance_table("Date,Amount,Account Name\n2020-01-01,1,A\n2020-01-02,x,A\n").err(),
        Some(SchemaError::BadAmount { row: 1 })
    );
    assert_eq!(
        parse_balance_table("Date,Amount,Account Name\n2020-01-01,1,A\nbad,x,A\n2020,1\n").err(),
        Some(SchemaError::BadDate { row: 1 })
    );
}

#[test]
fn table_without_rows_has_no_newest_balance() {
    assert!(parse_balance_table("Date,Amount,Account Name\n").unwrap().is_empty());
    assert_eq!(load_account("Date,Amount,Account Name\n").err(), Some(SchemaError::NoRows));
    assert_eq!(load_account("").err(), Some(SchemaError::NoHeader));
}

#[test]
fn category_lookup_is_read() {
    let lookup = load_categories("account_type,x,Account Name\ncash,1,A\ndebt,2,B\ncash,3,A\n").unwrap();
    assert_eq!(lookup.len(), 3);
    assert_eq!(lookup[1].account_name, "B");
    assert_eq!(lookup[1].account_type, "debt");
    assert_eq!(lookup[2].account_name, "A");
}

#[test]
fn category_lookup_that_cannot_be_read_is_refused() {
    assert_eq!(load_categories("a,\"b").err(), Some(SchemaError::Malformed));
    assert_eq!(load_categories("\n").err(), Some(SchemaError::NoHeader));
    assert_eq!(
        load_categories("name,account_type\n").err(),
        Some(SchemaError::MissingColumn(Column::AccountName))
    );
    assert_eq!(
        load_categories("Account Name,type\n").err(),
        Some(SchemaError::MissingColumn(Column::AccountType))
    );
    assert_eq!(
        load_categories("Account Name,account_type\nA\n").err(),
        Some(SchemaError::RowLength { row: 0 })
    );
}

#[test]
fn values_are_shown_and_stored() {
    let config = configure_the_environment();
    assert_eq!(any_to_string(&Cell::Text("My Checking".into()), &config), Some("My Checking".into()));
    assert_eq!(any_to_string(&Cell::Amount(990044), &config), Some("$9,900.44".into()));
    assert_eq!(any_to_string(&Cell::Day(day(2021, 10, 19)), &config), Some("2021-10-19".into()));
    assert_eq!(any_to_string(&Cell::Null, &config), None);
    assert_eq!(stored_cell_text(&Cell::Amount(990044)), "9900.44");
    assert_eq!(stored_cell_text(&Cell::Day(day(2021, 10, 19))), "2021-10-19");
    assert_eq!(stored_cell_text(&Cell::Text("a,b".into())), "a,b");
    assert_eq!(stored_cell_text(&Cell::Null), "");
}

#[test]
fn shown_values_are_cut_to_the_length_of_the_settings() {
    let config = DisplayConfig { max_rows: 10, max_string_len: 4, thousands_separator: '.' };
    assert_eq!(any_to_string(&Cell::Text("Savings".into()), &config), Some("Savi".into()));
    assert_eq!(any_to_string(&Cell::Text("abcd".into()), &config), Some("abcd".into()));
    assert_eq!(any_to_string(&Cell::Amount(123456789), &config), Some("$1.2".into()));
    assert_eq!(cut_text("h\u{e9}llo", 2), "h\u{e9}");
    assert_eq!(cut_text("abc", 0), "");
    assert_eq!(cut_text("abc", 3), "abc");
}

#[test]
fn ledger_is_stored_with_four_columns() {
    let snapshots = gather_snapshots(&outcomes()).unwrap();
    let report = build_report(&snapshots, &Vec::new(), &configure_the_environment());
    assert_eq!(
        report.stored_ledger,
        "Account Name,Amount,Date,Total\n\
My Checking,9900.44,2021-10-19,9900.44\n\
Savings,500.00,2021-11-01,10400.44\n"
    );
    assert_eq!(
        report.stored_detail,
        "Account Name,Amount,Date,Total,account_type\n\
My Checking,9900.44,2021-10-19,9900.44,\n\
Savings,500.00,2021-11-01,10400.44,\n"
    );
}

#[test]
fn stored_ledger_is_read_back() {
    let snapshots = vec![
        BalanceRecord { date: day(2021, 10, 19), amount: 990044, account_name: "Doe, \"J\"".into() },
        BalanceRecord { date: day(1999, 1, 1), amount: -5, account_name: "two\nlines\r".into() },
        BalanceRecord { date: day(2000, 2, 29), amount: i64::MIN, account_name: String::new() },
    ];
    let lookup = vec![CategoryEntry { account_name: String::new(), account_type: "x,y".into() }];
    let report = build_report(&snapshots, &lookup, &configure_the_environment());
    for text in [&report.stored_ledger, &report.stored_detail] {
        let rows = parse_balance_table(text).unwrap();
        assert_eq!(rows.len(), 3);
        for k in 0..3 {
            assert_eq!(rows[k].account_name, snapshots[k].account_name);
            assert_eq!(rows[k].amount, snapshots[k].amount);
            assert_eq!(rows[k].date, snapshots[k].date);
        }
    }
}

#[test]
fn tables_name_their_columns_in_a_fixed_order() {
    let snapshots = gather_snapshots(&outcomes()).unwrap();
    let report = build_report(&snapshots, &Vec::new(), &configure_the_environment());
    assert_eq!(columns_names(&ledger_table(&report.ledger)), ["Account Name", "Amount", "Date", "Total"]);
    assert_eq!(
        columns_names(&detail_table(&report.classified)),
        ["Account Name", "Amount", "Date", "Total", "account_type"]
    );
    assert_eq!(columns_names(&subtotal_table(&report.subtotals.rows)), ["account_type", "Amount"]);
}

#[test]
fn table_is_stored_as_delimited_text() {
    let table = Table {
        columns: vec!["a".into(), "b,c".into()],
        rows: vec![
            vec![Cell::Text("x".into()), Cell::Amount(-150)],
            vec![Cell::Null, Cell::Day(day(2020, 5, 6))],
        ],
    };
    assert_eq!(write_csv(&table), "a,\"b,c\"\nx,-1.50\n,2020-05-06\n");
}

#[test]
fn table_is_drawn_with_its_header_and_rows() {
    let table = Table {
        columns: vec!["Account Name".into(), "Amount".into()],
        rows: vec![
            vec![Cell::Text("My Checking".into()), Cell::Amount(990044)],
            vec![Cell::Text("Savings".into()), Cell::Null],
        ],
    };
    let drawing = show_table(&table, &configure_the_environment());
    let lines: Vec<&str> = drawing.lines().collect();
    assert!(lines.len() >= 4, "{}", drawing);
    assert!(lines.iter().any(|l| l.contains("Account Name") && l.contains("Amount")));
    assert!(lines.iter().any(|l| l.contains("My Checking") && l.contains("$9,900.44")));
    assert!(lines.iter().any(|l| l.contains("Savings")));
    let width = lines[0].chars().count();
    assert!(lines.iter().all(|l| l.chars().count() == width), "{}", drawing);
    assert_eq!(drawing, show_table(&table, &configure_the_environment()));
}

#[test]
fn table_is_drawn_with_no_more_rows_than_the_settings_allow() {
    let table = Table {
        columns: vec!["n".into()],
        rows: vec![
            vec![Cell::Text("first".into())],
            vec![Cell::Text("second".into())],
            vec![Cell::Text("third".into())],
        ],
    };
    let config = DisplayConfig { max_rows: 2, max_string_len: 3, thousands_separator: ',' };
    let drawing = show_table(&table, &config);
    assert!(drawing.contains("fir") && !drawing.contains("firs"));
    assert!(drawing.contains("sec"));
    assert!(!drawing.contains("thi"));
}

#[test]
fn subtotals_are_reported() {
    let snapshots = gather_snapshots(&outcomes()).unwrap();
    let lookup = load_categories(CATEGORIES).unwrap();
    let report = build_report(&snapshots, &lookup, &configure_the_environment());
    let sums = show_subtotals(&report.classified, &configure_the_environment());
    assert_eq!(sums.rows.len(), 1);
    assert_eq!(sums.rows[0].account_type, Some("cash".to_string()));
    assert_eq!(sums.rows[0].amount_sum, 1040044);
    assert_eq!(sums.stored, "account_type,Amount\ncash,10400.44\n");
    assert!(sums.drawing.contains("$10,400.44"));
    assert!(sums.drawing.contains("account_type"));
    assert_eq!(sums.stored, report.subtotals.stored);
    assert_eq!(sums.drawing, report.subtotals.drawing);
}

#[test]
fn unreadable_files_are_left_out() {
    let snapshots = gather_snapshots(&outcomes()).unwrap();
    assert_eq!(snapshots.len(), 2);
    assert_eq!(snapshots[0].account_name, "My Checking");
    assert_eq!(snapshots[1].account_name, "Savings");
    assert!(gather_snapshots(&vec![load_outcome(None)]).unwrap().is_empty());
}

#[test]
fn first_refused_file_ends_the_run() {
    let outcomes = vec![
        load_outcome(Some(CHECKING)),
        load_outcome(Some("Date,Amount,Account Name\nx,1,A\n")),
        load_outcome(None),
        load_outcome(Some("nothing")),
    ];
    let refusal = Refusal { file: 1, error: SchemaError::BadDate { row: 0 } };
    assert_eq!(gather_snapshots(&outcomes).err(), Some(refusal));
    let r = run(&outcomes, CATEGORIES, &configure_the_environment());
    assert_eq!(r.err(), Some(RunError::Account(refusal)));
}

#[test]
fn category_lookup_that_is_no_table_ends_the_run() {
    let r = run(&outcomes(), "Account Name\nA\n", &configure_the_environment());
    assert_eq!(r.err(), Some(RunError::Categories(SchemaError::MissingColumn(Column::AccountType))));
}

#[test]
fn run_of_two_accounts() {
    let report = run(&outcomes(), CATEGORIES, &configure_the_environment()).unwrap();
    assert_eq!(report.ledger.len(), 2);
    assert_eq!(report.ledger[0].account_name, "My Checking");
    assert_eq!(report.ledger[0].amount, 990044);
    assert_eq!(report.ledger[0].date, day(2021, 10, 19));
    assert_eq!(report.ledger[0].total, 990044);
    assert_eq!(report.ledger[1].account_name, "Savings");
    assert_eq!(report.ledger[1].amount, 50000);
    assert_eq!(report.ledger[1].date, day(2021, 11, 1));
    assert_eq!(report.ledger[1].total, 1040044);
    assert_eq!(report.classified.len(), 2);
    assert!(!report.fan_out);
    assert!(report.repeated.is_empty());
    assert_eq!(
        report.stored_detail,
        "Account Name,Amount,Date,Total,account_type\n\
My Checking,9900.44,2021-10-19,9900.44,cash\n\
Savings,500.00,2021-11-01,10400.44,cash\n"
    );
    assert!(report.detail_drawing.contains("$10,400.44"));
    assert!(report.detail_drawing.contains("2021-11-01"));
    assert_eq!(report.subtotals.rows.len(), 1);
}

#[test]
fn run_flags_a_lookup_that_repeats_an_account() {
    let lookup = "Account Name,account_type\nSavings,cash\nSavings,reserve\n";
    let report = run(&outcomes(), lookup, &configure_the_environment()).unwrap();
    assert!(report.fan_out);
    assert_eq!(report.repeated, ["Savings"]);
    assert_eq!(report.classified.len(), 3);
    assert_eq!(report.ledger.len(), 2);
    let all: i128 = report.subtotals.rows.iter().map(|s| s.amount_sum).sum();
    assert_eq!(all, 990044 + 50000 + 50000);
}

#[test]
fn refusals_are_said_in_words() {
    assert_eq!(SchemaError::Malformed.describe(), "the text is no delimited text");
    assert_eq!(SchemaError::NoHeader.describe(), "the table has no line of column names");
    assert_eq!(
        SchemaError::MissingColumn(Column::AccountName).describe(),
        "the column 'Account Name' is missing"
    );
    assert_eq!(
        SchemaError::MissingColumn(Column::AccountType).describe(),
        "the column 'account_type' is missing"
    );
    assert_eq!(SchemaError::MissingColumn(Column::Date).describe(), "the column 'Date' is missing");
    assert_eq!(
        SchemaError::MissingColumn(Column::Amount).describe(),
        "the column 'Amount' is missing"
    );
    assert_eq!(
        SchemaError::RowLength { row: 0 }.describe(),
        "row 1 has not as many fields as the header"
    );
    assert_eq!(SchemaError::BadDate { row: 9 }.describe(), "row 10 holds no date");
    assert_eq!(
        SchemaError::BadAmount { row: usize::MAX }.describe(),
        format!("row {} holds no amount", usize::MAX as u128 + 1)
    );
    assert_eq!(SchemaError::NoRows.describe(), "the table has no row");
}
