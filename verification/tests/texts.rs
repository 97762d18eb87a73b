use balances::amount::{format_amount, format_currency, parse_amount};
use balances::csv::{parse_csv, write_records};
use balances::date::{parse_date, Date};
use balances::manifest::{char_is_space, manifest_lines, read_filenames_from_file};
use balances::text::{char_is_digit, chars_of, value_of_digit};
use balances::paths::{expand_tilde, join_path};

fn texts(fields: &[&str]) -> Vec<String> {
    fields.iter().map(|f| f.to_string()).collect()
}

#[test]
fn amount_with_grouped_digits_is_read() {
    assert_eq!(parse_amount("10,900.44"), Some(1090044));
    assert_eq!(parse_amount("9,900.44"), Some(990044));
    assert_eq!(parse_amount("1,234,567.8"), Some(123456780));
}

#[test]
fn amount_without_fraction_is_read() {
    assert_eq!(parse_amount("1234"), Some(123400));
    assert_eq!(parse_amount("0"), Some(0));
    assert_eq!(parse_amount("500.00"), Some(50000));
    assert_eq!(parse_amount("007.5"), Some(750));
}

#[test]
fn negative_amount_is_read() {
    assert_eq!(parse_amount("-25.00"), Some(-2500));
    assert_eq!(parse_amount("-0.5"), Some(-50));
    assert_eq!(parse_amount("-0.00"), Some(0));
}

#[test]
fn text_that_is_no_amount_is_refused() {
    for text in [
        "", "-", ".", ".5", "5.", "1.234", "1,", ",1", "1,,2", "1.2.3", "abc", "12a", "+5", " 5",
        "5 ", "$5", "1e3", "--5", "1.-5", "1.5,", "1,.5",
    ] {
        assert_eq!(parse_amount(text), None, "{:?}", text);
    }
}

#[test]
fn amount_at_the_limits_of_64_bits() {
    assert_eq!(parse_amount("92233720368547758.07"), Some(i64::MAX));
    assert_eq!(parse_amount("92233720368547758.08"), None);
    assert_eq!(parse_amount("-92233720368547758.08"), Some(i64::MIN));
    assert_eq!(parse_amount("-92233720368547758.09"), None);
    assert_eq!(parse_amount("92233720368547759"), None);
    assert_eq!(parse_amount("99999999999999999999999999999999999999999999"), None);
}

#[test]
fn amount_is_stored_with_two_digits_of_hundredths() {
    assert_eq!(format_amount(990044), "9900.44");
    assert_eq!(format_amount(50000), "500.00");
    assert_eq!(format_amount(5), "0.05");
    assert_eq!(format_amount(0), "0.00");
    assert_eq!(format_amount(-2500), "-25.00");
    assert_eq!(format_amount(-7), "-0.07");
    assert_eq!(format_amount(i128::MIN), "-1701411834604692317316873037158841057.28");
}

#[test]
fn amount_is_shown_as_currency() {
    assert_eq!(format_currency(990044, ','), "$9,900.44");
    assert_eq!(format_currency(1040044, ','), "$10,400.44");
    assert_eq!(format_currency(99999, ','), "$999.99");
    assert_eq!(format_currency(100000, ','), "$1,000.00");
    assert_eq!(format_currency(100000000, ','), "$1,000,000.00");
    assert_eq!(format_currency(100100, ','), "$1,001.00");
    assert_eq!(format_currency(0, ','), "$0.00");
    assert_eq!(format_currency(-123450, ','), "$-1,234.50");
    assert_eq!(format_currency(123456789, ' '), "$1 234 567.89");
}

#[test]
fn stored_amount_is_read_back() {
    for v in [0i64, 1, -1, 99, 100, -100, 990044, i64::MAX, i64::MIN, 1234567890123] {
        assert_eq!(parse_amount(&format_amount(v as i128)), Some(v));
    }
}

#[test]
fn date_is_read() {
    let d = parse_date("2023-12-19").unwrap();
    assert_eq!((d.year(), d.month(), d.day()), (2023, 12, 19));
    assert_eq!(parse_date("2024-02-29"), Date::new(2024, 2, 29));
    assert_eq!(parse_date("2000-02-29"), Date::new(2000, 2, 29));
    assert_eq!(parse_date("0000-01-01"), Date::new(0, 1, 1));
    assert_eq!(parse_date("9999-12-31"), Date::new(9999, 12, 31));
}

#[test]
fn text_that_is_no_date_is_refused() {
    for text in [
        "", "2023-12-19 ", " 2023-12-19", "2023-2-19", "23-12-19", "2023/12/19", "2023-13-01",
        "2023-00-10", "2023-01-00", "2023-01-32", "2023-02-29", "1900-02-29", "2023-04-31",
        "2023-12-1a", "20231219", "2023-12-19T00:00", "19-12-2023",
    ] {
        assert_eq!(parse_date(text), None, "{:?}", text);
    }
}

#[test]
fn date_is_made_of_a_day_of_the_calendar_only() {
    assert!(Date::new(2023, 2, 28).is_some());
    assert!(Date::new(2023, 2, 29).is_none());
    assert!(Date::new(2100, 2, 29).is_none());
    assert!(Date::new(2400, 2, 29).is_some());
    assert!(Date::new(10000, 1, 1).is_none());
    assert!(Date::new(2023, 0, 1).is_none());
    assert!(Date::new(2023, 13, 1).is_none());
    assert!(Date::new(2023, 6, 31).is_none());
    assert!(Date::new(2023, 7, 31).is_some());
}

#[test]
fn date_is_written_with_leading_zeros() {
    assert_eq!(Date::new(2021, 10, 19).unwrap().to_text(), "2021-10-19");
    assert_eq!(Date::new(987, 1, 2).unwrap().to_text(), "0987-01-02");
    assert_eq!(parse_date(&Date::new(5, 3, 9).unwrap().to_text()), Date::new(5, 3, 9));
}

#[test]
fn dates_are_ordered() {
    let a = Date::new(2021, 10, 19).unwrap();
    let b = Date::new(2021, 11, 1).unwrap();
    assert!(a.is_not_after(&b));
    assert!(!b.is_not_after(&a));
    assert!(a.is_not_after(&a));
    assert!(Date::new(2020, 12, 31).unwrap().is_not_after(&Date::new(2021, 1, 1).unwrap()));
}

#[test]
fn records_are_read_from_delimited_text() {
    let records = parse_csv("a,b,c\n1,2,3\n").unwrap();
    assert_eq!(records, vec![texts(&["a", "b", "c"]), texts(&["1", "2", "3"])]);
}

#[test]
fn quoted_fields_are_read() {
    let text = "\"Date\",\"Amount\",\"Account Name\"\n\"2021-10-19\",\"10,900.44\",\"My Checking\"\n";
    let records = parse_csv(text).unwrap();
    assert_eq!(
        records,
        vec![
            texts(&["Date", "Amount", "Account Name"]),
            texts(&["2021-10-19", "10,900.44", "My Checking"]),
        ]
    );
}

#[test]
fn quotes_and_breaks_inside_quotes_are_part_of_the_field() {
    let records = parse_csv("\"say \"\"hi\"\"\",\"two\nlines\",\"\"\n").unwrap();
    assert_eq!(records, vec![texts(&["say \"hi\"", "two\nlines", ""])]);
}

#[test]
fn last_record_needs_no_line_break() {
    assert_eq!(parse_csv("a,b").unwrap(), vec![texts(&["a", "b"])]);
    assert_eq!(parse_csv("a,").unwrap(), vec![texts(&["a", ""])]);
    assert_eq!(parse_csv("a,\"b\"").unwrap(), vec![texts(&["a", "b"])]);
}

#[test]
fn carriage_returns_and_empty_lines_are_passed_over() {
    let records = parse_csv("a,b\r\n\r\n\n1,2\r\n").unwrap();
    assert_eq!(records, vec![texts(&["a", "b"]), texts(&["1", "2"])]);
    assert_eq!(parse_csv("").unwrap(), Vec::<Vec<String>>::new());
    assert_eq!(parse_csv("\n\n").unwrap(), Vec::<Vec<String>>::new());
}

#[test]
fn empty_fields_are_kept() {
    assert_eq!(parse_csv(",\n").unwrap(), vec![texts(&["", ""])]);
    assert_eq!(parse_csv("a,,c\n").unwrap(), vec![texts(&["a", "", "c"])]);
}

#[test]
fn malformed_text_is_refused() {
    assert_eq!(parse_csv("ab\"c,d\n"), None);
    assert_eq!(parse_csv("\"ab\"c,d\n"), None);
    assert_eq!(parse_csv("a,\"bc\n"), None);
    assert_eq!(parse_csv("a,\"bc\"\"\n"), None);
}

#[test]
fn records_are_written_as_delimited_text() {
    let records = vec![
        texts(&["Account Name", "Amount"]),
        texts(&["Doe, Jane", "1.00"]),
        texts(&["say \"hi\"", ""]),
        texts(&["two\nlines", "x"]),
    ];
    let text = write_records(&records);
    assert_eq!(
        text,
        "Account Name,Amount\n\"Doe, Jane\",1.00\n\"say \"\"hi\"\"\",\n\"two\nlines\",x\n"
    );
    assert_eq!(parse_csv(&text), Some(records));
}

#[test]
fn manifest_lists_one_path_to_a_line() {
    let entries = manifest_lines("checking.csv\n  savings.csv  \n\n\t\ncards/visa.csv");
    assert_eq!(entries, texts(&["checking.csv", "savings.csv", "cards/visa.csv"]));
}

#[test]
fn manifest_keeps_space_inside_a_path() {
    let entries = manifest_lines("my files/a b.csv\r\n\u{a0}x.csv\u{3000}\r\n");
    assert_eq!(entries, texts(&["my files/a b.csv", "x.csv"]));
}

#[test]
fn empty_manifest_lists_nothing() {
    assert!(manifest_lines("").is_empty());
    assert!(manifest_lines("\n \n\r\n").is_empty());
    assert!(read_filenames_from_file("\n \n\r\n", "/data").is_empty());
}

#[test]
fn manifest_lists_as_the_standard_library_trims() {
    let text = " a \n\tb\t\n\u{2003}c\u{2003}\n\u{200b}d\n";
    let expected: Vec<String> =
        text.lines().map(|l| l.trim()).filter(|l| !l.is_empty()).map(String::from).collect();
    assert_eq!(manifest_lines(text), expected);
}

#[test]
fn paths_of_a_manifest_are_seen_from_its_directory() {
    let paths = read_filenames_from_file(
        "checking.csv\n\n  cards/visa.csv \n/abs/savings.csv\n",
        "/home/jane/.local/share/fi/balances",
    );
    assert_eq!(
        paths,
        texts(&[
            "/home/jane/.local/share/fi/balances/checking.csv",
            "/home/jane/.local/share/fi/balances/cards/visa.csv",
            "/abs/savings.csv",
        ])
    );
    assert_eq!(read_filenames_from_file("a.csv\nb.csv", ""), texts(&["a.csv", "b.csv"]));
}

#[test]
fn tilde_is_replaced_by_the_home_directory() {
    assert_eq!(
        expand_tilde("~/.local/share/fi/balances/", Some("/home/jane")),
        "/home/jane/.local/share/fi/balances/"
    );
    assert_eq!(expand_tilde("~/x", Some("/home/jane/")), "/home/jane/x");
    assert_eq!(expand_tilde("~/", Some("/home/jane")), "/home/jane/");
    assert_eq!(expand_tilde("~//etc", Some("/home/jane")), "/etc");
}

#[test]
fn other_paths_stay_as_they_are() {
    assert_eq!(expand_tilde("~/x", None), "~/x");
    assert_eq!(expand_tilde("/etc/x", Some("/home/jane")), "/etc/x");
    assert_eq!(expand_tilde("~x", Some("/home/jane")), "~x");
    assert_eq!(expand_tilde("~", Some("/home/jane")), "~");
    assert_eq!(expand_tilde("", Some("/home/jane")), "");
}

#[test]
fn paths_are_joined_as_the_standard_library_joins() {
    for (base, rest) in [
        ("/data", "a.csv"),
        ("/data/", "a.csv"),
        ("", "a.csv"),
        ("/data", "/abs/a.csv"),
        ("rel", "sub/a.csv"),
        ("/data", ""),
        ("/", "a"),
    ] {
        let expected = std::path::Path::new(base).join(rest);
        assert_eq!(join_path(base, rest), expected.to_str().unwrap(), "{:?} {:?}", base, rest);
    }
}

#[test]
fn white_space_is_that_of_the_standard_library() {
    for code in 0u32..=0x10FFFF {
        if let Some(c) = char::from_u32(code) {
            assert_eq!(char_is_space(c), c.is_whitespace(), "{:x}", code);
        }
    }
}

#[test]
fn digits_are_the_ten_decimal_digits() {
    for code in 0u32..=0x10FFFF {
        if let Some(c) = char::from_u32(code) {
            assert_eq!(char_is_digit(c), c.is_ascii_digit(), "{:x}", code);
            assert_eq!(value_of_digit(c) as u32, c.to_digit(10).unwrap_or(0), "{:x}", code);
        }
    }
}

#[test]
fn characters_of_a_text_are_taken_one_by_one() {
    assert_eq!(chars_of("h\u{e9}llo, \u{4e16}\u{754c}"), "h\u{e9}llo, \u{4e16}\u{754c}".chars().collect::<Vec<char>>());
    assert!(chars_of("").is_empty());
}
