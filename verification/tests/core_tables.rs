use balances::classify::{
    classify, count_matches, has_fan_out, list_repeated_accounts, CategoryEntry,
};
use balances::date::Date;
use balances::ledger::{build_ledger, LedgerRow};
use balances::record::{newest_balance, BalanceRecord};
use balances::subtotal::{same_label, subtotals};

fn day(year: u16, month: u8, day: u8) -> Date {
    Date::new(year, month, day).unwrap()
}

fn balance(date: Date, amount: i64, name: &str) -> BalanceRecord {
    BalanceRecord { date, amount, account_name: name.to_string() }
}

fn entry(name: &str, kind: &str) -> CategoryEntry {
    CategoryEntry { account_name: name.to_string(), account_type: kind.to_string() }
}

fn sample_ledger() -> Vec<LedgerRow> {
    build_ledger(&vec![
        balance(day(2021, 10, 19), 990044, "My Checking"),
        balance(day(2021, 11, 1), 50000, "Savings"),
        balance(day(2020, 1, 31), -2500, "Card"),
    ])
}

#[test]
fn newest_of_no_rows_is_none() {
    assert!(newest_balance(&Vec::new()).is_none());
}

#[test]
fn newest_of_one_row_is_that_row() {
    let rows = vec![balance(day(2023, 12, 19), 123456, "Bank of Example")];
    let newest = newest_balance(&rows).unwrap();
    assert_eq!(newest.date, day(2023, 12, 19));
    assert_eq!(newest.amount, 123456);
    assert_eq!(newest.account_name, "Bank of Example");
}

#[test]
fn newest_takes_the_last_row_of_the_greatest_date() {
    let rows = vec![
        balance(day(2021, 10, 19), 1090044, "My Checking"),
        balance(day(2021, 10, 19), 1190044, "My Checking"),
        balance(day(2021, 10, 19), 990044, "My Checking"),
    ];
    let newest = newest_balance(&rows).unwrap();
    assert_eq!(newest.date, day(2021, 10, 19));
    assert_eq!(newest.amount, 990044);
    assert_eq!(newest.account_name, "My Checking");
}

#[test]
fn newest_ignores_the_order_of_the_file() {
    let rows = vec![
        balance(day(2022, 3, 1), 1, "A"),
        balance(day(2023, 1, 15), 2, "A"),
        balance(day(2021, 12, 31), 3, "A"),
        balance(day(2023, 1, 15), 4, "A"),
        balance(day(2023, 1, 14), 5, "A"),
    ];
    assert_eq!(newest_balance(&rows).unwrap().amount, 4);
}

#[test]
fn newest_compares_year_before_month_before_day() {
    let rows = vec![
        balance(day(2020, 12, 31), 1, "A"),
        balance(day(2021, 1, 1), 2, "A"),
        balance(day(2020, 2, 29), 3, "A"),
    ];
    assert_eq!(newest_balance(&rows).unwrap().amount, 2);
}

#[test]
fn ledger_of_two_accounts_has_running_total() {
    let ledger = build_ledger(&vec![
        balance(day(2021, 10, 19), 990044, "My Checking"),
        balance(day(2021, 11, 1), 50000, "Savings"),
    ]);
    assert_eq!(ledger.len(), 2);
    assert_eq!(ledger[0].account_name, "My Checking");
    assert_eq!(ledger[0].amount, 990044);
    assert_eq!(ledger[0].date, day(2021, 10, 19));
    assert_eq!(ledger[0].total, 990044);
    assert_eq!(ledger[1].account_name, "Savings");
    assert_eq!(ledger[1].amount, 50000);
    assert_eq!(ledger[1].date, day(2021, 11, 1));
    assert_eq!(ledger[1].total, 1040044);
}

#[test]
fn ledger_keeps_the_order_of_the_snapshots() {
    let ledger = sample_ledger();
    let names: Vec<&str> = ledger.iter().map(|r| r.account_name.as_str()).collect();
    assert_eq!(names, vec!["My Checking", "Savings", "Card"]);
    let totals: Vec<i128> = ledger.iter().map(|r| r.total).collect();
    assert_eq!(totals, vec![990044, 1040044, 1037544]);
}

#[test]
fn ledger_of_nothing_is_empty() {
    assert!(build_ledger(&Vec::new()).is_empty());
}

#[test]
fn ledger_total_does_not_overflow_64_bits() {
    let ledger = build_ledger(&vec![
        balance(day(2021, 1, 1), i64::MAX, "A"),
        balance(day(2021, 1, 1), i64::MAX, "B"),
        balance(day(2021, 1, 1), i64::MIN, "C"),
    ]);
    assert_eq!(ledger[1].total, 2 * (i64::MAX as i128));
    assert_eq!(ledger[2].total, 2 * (i64::MAX as i128) + i64::MIN as i128);
}

#[test]
fn ledger_is_the_same_on_a_second_run() {
    let first = sample_ledger();
    let second = sample_ledger();
    assert_eq!(first.len(), second.len());
    for k in 0..first.len() {
        assert_eq!(first[k].account_name, second[k].account_name);
        assert_eq!(first[k].total, second[k].total);
    }
}

#[test]
fn classify_labels_matched_rows_and_keeps_the_others() {
    let ledger = sample_ledger();
    let lookup = vec![entry("Savings", "cash"), entry("Card", "debt")];
    let rows = classify(&ledger, &lookup);
    assert_eq!(rows.len(), 3);
    assert_eq!(rows[0].account_name, "My Checking");
    assert_eq!(rows[0].account_type, None);
    assert_eq!(rows[0].total, 990044);
    assert_eq!(rows[1].account_type, Some("cash".to_string()));
    assert_eq!(rows[2].account_type, Some("debt".to_string()));
    assert_eq!(rows[2].amount, -2500);
    assert_eq!(rows[2].date, day(2020, 1, 31));
    assert!(!has_fan_out(&ledger, &lookup));
}

#[test]
fn classify_repeats_a_row_for_each_of_its_entries() {
    let ledger = sample_ledger();
    let lookup = vec![
        entry("Savings", "cash"),
        entry("Other", "none"),
        entry("Savings", "reserve"),
    ];
    let rows = classify(&ledger, &lookup);
    assert_eq!(rows.len(), 4);
    let labels: Vec<Option<&str>> = rows.iter().map(|r| r.account_type.as_deref()).collect();
    assert_eq!(labels, vec![None, Some("cash"), Some("reserve"), None]);
    assert_eq!(rows[1].account_name, "Savings");
    assert_eq!(rows[2].account_name, "Savings");
    assert_eq!(rows[2].total, 1040044);
    assert!(has_fan_out(&ledger, &lookup));
    assert_eq!(list_repeated_accounts(&ledger, &lookup), ["Savings"]);
    assert_eq!(count_matches(&"Savings".to_string(), &lookup), 2);
    assert_eq!(count_matches(&"Card".to_string(), &lookup), 0);
}

#[test]
fn classify_matches_names_exactly() {
    let ledger = sample_ledger();
    let lookup = vec![entry("savings", "cash"), entry("Savings ", "cash")];
    let rows = classify(&ledger, &lookup);
    assert!(rows.iter().all(|r| r.account_type.is_none()));
}

#[test]
fn repeated_keys_of_other_accounts_do_not_fan_out() {
    let ledger = sample_ledger();
    let lookup = vec![entry("Other", "a"), entry("Other", "b")];
    assert_eq!(classify(&ledger, &lookup).len(), ledger.len());
    assert!(!has_fan_out(&ledger, &lookup));
    assert!(list_repeated_accounts(&ledger, &lookup).is_empty());
}

#[test]
fn subtotals_group_in_first_seen_order() {
    let ledger = build_ledger(&vec![
        balance(day(2021, 1, 1), 100, "A"),
        balance(day(2021, 1, 1), 250, "B"),
        balance(day(2021, 1, 1), 40, "C"),
        balance(day(2021, 1, 1), -10, "D"),
        balance(day(2021, 1, 1), 7, "E"),
    ]);
    let lookup = vec![
        entry("A", "zeta"),
        entry("B", "alpha"),
        entry("C", "zeta"),
        entry("E", "alpha"),
    ];
    let sums = subtotals(&classify(&ledger, &lookup));
    assert_eq!(sums.len(), 3);
    assert_eq!(sums[0].account_type, Some("zeta".to_string()));
    assert_eq!(sums[0].amount_sum, 140);
    assert_eq!(sums[1].account_type, Some("alpha".to_string()));
    assert_eq!(sums[1].amount_sum, 257);
    assert_eq!(sums[2].account_type, None);
    assert_eq!(sums[2].amount_sum, -10);
    let all: i128 = sums.iter().map(|s| s.amount_sum).sum();
    assert_eq!(all, 387);
}

#[test]
fn subtotals_count_a_repeated_row_each_time() {
    let ledger = build_ledger(&vec![balance(day(2021, 1, 1), 100, "A")]);
    let lookup = vec![entry("A", "x"), entry("A", "y"), entry("A", "x")];
    let sums = subtotals(&classify(&ledger, &lookup));
    assert_eq!(sums.len(), 2);
    assert_eq!(sums[0].amount_sum, 200);
    assert_eq!(sums[1].amount_sum, 100);
}

#[test]
fn subtotals_of_nothing_are_empty() {
    assert!(subtotals(&Vec::new()).is_empty());
}

#[test]
fn labels_are_the_same_by_their_text() {
    assert!(same_label(&None, &None));
    assert!(same_label(&Some("a".to_string()), &Some("a".to_string())));
    assert!(!same_label(&Some("a".to_string()), &Some("b".to_string())));
    assert!(!same_label(&Some(String::new()), &None));
}
