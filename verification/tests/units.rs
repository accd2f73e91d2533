//! Unit checks of the date rules, the text helpers, and the extraction
//! stage's record values.

use birthdays::calendar::make_calendar;
use birthdays::date::{date_from_parts, Date};
use birthdays::record::Record;
use birthdays::table::records_from_csv;
use birthdays::text::{normalize_birthday, trim};

#[test]
fn date_validity_follows_the_gregorian_calendar() {
    assert!(date_from_parts(2020, 2, 29).is_some());
    assert!(date_from_parts(2019, 2, 29).is_none());
    assert!(date_from_parts(1900, 2, 29).is_none());
    assert!(date_from_parts(2000, 2, 29).is_some());
    assert!(date_from_parts(1990, 4, 31).is_none());
    assert!(date_from_parts(1990, 4, 30).is_some());
    assert!(date_from_parts(1990, 0, 1).is_none());
    assert!(date_from_parts(1990, 13, 1).is_none());
    assert!(date_from_parts(1990, 1, 0).is_none());
    assert!(date_from_parts(-1, 1, 1).is_none());
    assert!(date_from_parts(10000, 1, 1).is_none());
    assert!(date_from_parts(0, 1, 1).is_some());
    assert!(date_from_parts(9999, 12, 31).is_some());
}

#[test]
fn stamp_is_the_zero_padded_eight_digit_date() {
    let d = date_from_parts(7, 3, 5).unwrap();
    assert_eq!(d.stamp(), "00070305");
    let d = date_from_parts(1995, 12, 31).unwrap();
    assert_eq!(d.stamp(), "19951231");
}

#[test]
fn trim_removes_whitespace_at_both_ends_only() {
    assert_eq!(trim("  Anna  "), "Anna");
    assert_eq!(trim("Anna Lena"), "Anna Lena");
    assert_eq!(trim("\t a b \r\n"), "a b");
    assert_eq!(trim("   "), "");
    assert_eq!(trim(""), "");
}

#[test]
fn normalization_substitutes_only_the_leading_year_placeholder() {
    assert_eq!(normalize_birthday("--06-15"), "1900-06-15");
    assert_eq!(normalize_birthday("1995-03-17"), "1995-03-17");
    assert_eq!(normalize_birthday("--"), "1900-");
    assert_eq!(normalize_birthday("-"), "-");
    assert_eq!(normalize_birthday(""), "");
}

#[test]
fn extraction_keeps_row_order_and_builds_trimmed_names() {
    let input = b"Extra,First Name,Last Name,Birthday\r\nx,Anna,,1990-01-01\r\ny,,Berg,1991-02-02\r\nz,,,1992-03-03\r\n";
    let records: Vec<Record> = records_from_csv(input);
    assert_eq!(records.len(), 3);
    assert_eq!(records[0].name, "Anna");
    assert_eq!(records[1].name, "Berg");
    assert_eq!(records[2].name, "");
    assert_eq!(records[0].birthday, Date { year: 1990, month: 1, day: 1 });
    assert_eq!(records[1].birthday, Date { year: 1991, month: 2, day: 2 });
    assert_eq!(records[2].birthday, Date { year: 1992, month: 3, day: 3 });
}

#[test]
fn extraction_without_name_columns_still_works() {
    let records = records_from_csv(b"Birthday\r\n1990-06-15\r\n");
    assert_eq!(records.len(), 1);
    assert_eq!(records[0].name, "");
    assert_eq!(records[0].birthday, Date { year: 1990, month: 6, day: 15 });
}

#[test]
fn extraction_without_birthday_column_yields_nothing() {
    let records = records_from_csv(b"First Name,Last Name\r\nAnna,Berg\r\n");
    assert_eq!(records.len(), 0);
}

#[test]
fn rendering_hand_built_records_emits_one_block_per_record() {
    let records = vec![
        Record { name: String::from("Ada"), birthday: date_from_parts(1815, 12, 10).unwrap() },
        Record { name: String::new(), birthday: date_from_parts(1900, 6, 15).unwrap() },
    ];
    let doc = make_calendar(&records);
    let lines: Vec<&str> = doc.split("\r\n").collect::<Vec<&str>>();
    assert_eq!(lines.iter().filter(|l| **l == "BEGIN:VEVENT").count(), 2);
    assert_eq!(lines.iter().filter(|l| **l == "DTSTART:18151210").count(), 1);
    assert_eq!(lines.iter().filter(|l| **l == "DTSTART:19000615").count(), 1);
    assert_eq!(lines.iter().filter(|l| **l == "SUMMARY:Geburtstag Ada").count(), 1);
    // an empty name keeps the template's trailing space
    assert_eq!(lines.iter().filter(|l| **l == "SUMMARY:Geburtstag ").count(), 1);
}

#[test]
fn year_omitted_leap_day_is_dropped_with_the_placeholder_year() {
    // 1900 is not a leap year, so a year-omitted 29 February cannot survive
    // the placeholder substitution.
    let records = records_from_csv(b"Birthday\r\n--02-29\r\n");
    assert_eq!(records.len(), 0);
    let records = records_from_csv(b"Birthday\r\n2020-02-29\r\n");
    assert_eq!(records.len(), 1);
}
