//! End-to-end runs over tabular input: which rows survive, what the
//! document looks like, and how it reads back as iCalendar text.

use birthdays::calendar::{count_equal_lines, split_document_lines};
use birthdays::document_from_csv;

fn doc_lines(doc: &str) -> Vec<String> {
    assert!(doc.ends_with("\r\n"), "document must end in CRLF");
    doc.split("\r\n").map(|l| l.to_string()).collect::<Vec<String>>()
}

fn count_lines(doc: &str, target: &str) -> usize {
    doc_lines(doc).iter().filter(|l| l.as_str() == target).count()
}

#[test]
fn full_iso_birthday_keeps_its_date() {
    let doc = document_from_csv(b"First Name,Last Name,Birthday\r\nMax,Mustermann,1995-03-17\r\n");
    assert_eq!(count_lines(&doc, "BEGIN:VEVENT"), 1);
    assert_eq!(count_lines(&doc, "DTSTART:19950317"), 1);
    assert_eq!(count_lines(&doc, "SUMMARY:Geburtstag Max Mustermann"), 1);
    assert_eq!(count_lines(&doc, "RRULE:FREQ=YEARLY"), 1);
}

#[test]
fn year_omitted_birthday_gets_placeholder_year() {
    let doc = document_from_csv(b"First Name,Last Name,Birthday\r\nAnna,Muster,--06-15\r\n");
    assert_eq!(count_lines(&doc, "DTSTART:19000615"), 1);
}

#[test]
fn missing_birthday_drops_only_that_row() {
    let input = b"First Name,Last Name,Birthday\r\nAnna,A,1990-01-01\r\nBob,B,\r\nCarl,C,2000-12-31\r\n";
    let doc = document_from_csv(input);
    assert_eq!(count_lines(&doc, "BEGIN:VEVENT"), 2);
    assert_eq!(count_lines(&doc, "SUMMARY:Geburtstag Anna A"), 1);
    assert_eq!(count_lines(&doc, "SUMMARY:Geburtstag Carl C"), 1);
    assert_eq!(count_lines(&doc, "SUMMARY:Geburtstag Bob B"), 0);
    assert_eq!(count_lines(&doc, "DTSTART:19900101"), 1);
    assert_eq!(count_lines(&doc, "DTSTART:20001231"), 1);
}

#[test]
fn unparseable_birthday_drops_only_that_row() {
    let input =
        b"First Name,Last Name,Birthday\r\nAnna,A,not-a-date\r\nCarl,C,2000-12-31\r\n";
    let doc = document_from_csv(input);
    assert_eq!(count_lines(&doc, "BEGIN:VEVENT"), 1);
    assert_eq!(count_lines(&doc, "SUMMARY:Geburtstag Anna A"), 0);
    assert_eq!(count_lines(&doc, "SUMMARY:Geburtstag Carl C"), 1);
    assert_eq!(count_lines(&doc, "END:VCALENDAR"), 1);
}

#[test]
fn zero_valid_rows_still_yield_a_document() {
    let doc = document_from_csv(b"First Name,Last Name,Birthday\r\n");
    assert_eq!(doc, "BEGIN:VCALENDAR\r\nVERSION:2.0\r\nPRODID:ics-rs\r\nEND:VCALENDAR\r\n");
}

#[test]
fn empty_input_still_yields_a_document() {
    let doc = document_from_csv(b"");
    assert_eq!(doc, "BEGIN:VCALENDAR\r\nVERSION:2.0\r\nPRODID:ics-rs\r\nEND:VCALENDAR\r\n");
}

#[test]
fn first_name_alone_has_no_stray_space() {
    let doc = document_from_csv(b"First Name,Birthday\r\nAnna,1990-06-15\r\n");
    assert_eq!(count_lines(&doc, "SUMMARY:Geburtstag Anna"), 1);
}

#[test]
fn identical_rows_get_distinct_identifiers() {
    let input = b"First Name,Last Name,Birthday\r\nAnna,A,1990-01-01\r\nAnna,A,1990-01-01\r\n";
    let doc = document_from_csv(input);
    let uids: Vec<String> = doc_lines(&doc)
        .iter()
        .filter(|l| l.starts_with("UID:"))
        .map(|l| l["UID:".len()..].to_string())
        .collect();
    assert_eq!(uids.len(), 2);
    assert_ne!(uids[0], uids[1]);
    for uid in &uids {
        assert_eq!(uid.len(), 36);
        assert!(uid.chars().all(|c| c == '-' || c.is_ascii_hexdigit()));
    }
}

#[test]
fn two_runs_over_the_same_input_differ_in_identifiers_only() {
    let input = b"First Name,Last Name,Birthday\r\nAnna,A,1990-01-01\r\n";
    let one = document_from_csv(input);
    let two = document_from_csv(input);
    let strip = |doc: &str| -> Vec<String> {
        doc_lines(doc).into_iter().filter(|l| !l.starts_with("UID:")).collect::<Vec<String>>()
    };
    assert_eq!(strip(&one), strip(&two));
    assert_ne!(one, two);
}

#[test]
fn round_trip_finds_one_event_per_surviving_row_with_one_alarm_each() {
    let input = b"First Name,Last Name,Birthday\r\nAnna,A,1990-01-01\r\nBad,B,nope\r\nCarl,C,2000-12-31\r\nDora,D,--02-01\r\n";
    let doc = document_from_csv(input);
    let lines = doc_lines(&doc);
    let mut events: usize = 0;
    let mut alarms_in_event: usize = 0;
    let mut in_event = false;
    let mut in_alarm = false;
    for line in &lines {
        match line.as_str() {
            "BEGIN:VEVENT" => {
                assert!(!in_event);
                in_event = true;
                alarms_in_event = 0;
            }
            "END:VEVENT" => {
                assert!(in_event && !in_alarm);
                assert_eq!(alarms_in_event, 1);
                in_event = false;
                events += 1;
            }
            "BEGIN:VALARM" => {
                assert!(in_event && !in_alarm);
                in_alarm = true;
                alarms_in_event += 1;
            }
            "END:VALARM" => {
                assert!(in_alarm);
                in_alarm = false;
            }
            _ => {}
        }
    }
    assert_eq!(events, 3);
    assert_eq!(count_lines(&doc, "ACTION:AUDIO"), 3);
    assert_eq!(count_lines(&doc, "TRIGGER;RELATED=END:PT8H"), 3);
}

#[test]
fn verified_reader_finds_the_same_blocks() {
    let input =
        b"First Name,Last Name,Birthday\r\nAnna,A,1990-01-01\r\nBad,B,nope\r\nCarl,C,2000-12-31\r\n";
    let doc = document_from_csv(input);
    let lines = split_document_lines(&doc);
    assert_eq!(count_equal_lines(&lines, &String::from("BEGIN:VEVENT")), 2);
    assert_eq!(count_equal_lines(&lines, &String::from("BEGIN:VALARM")), 2);
    assert_eq!(count_equal_lines(&lines, &String::from("END:VCALENDAR")), 1);
    assert_eq!(lines.last().unwrap(), "");
    assert_eq!(lines.len(), 2 * 10 + 4 + 1);
}

#[test]
fn rightmost_duplicate_column_wins() {
    let doc = document_from_csv(b"Birthday,Birthday\r\n1990-01-01,1991-02-02\r\n");
    assert_eq!(count_lines(&doc, "DTSTART:19910202"), 1);
    assert_eq!(count_lines(&doc, "DTSTART:19900101"), 0);
}

#[test]
fn quoted_fields_and_short_rows_follow_table_rules() {
    let input = b"First Name,Last Name,Birthday\r\nJohn,\"Smith, Jr\",1980-05-05\r\nonly-one-field\r\n";
    let doc = document_from_csv(input);
    assert_eq!(count_lines(&doc, "BEGIN:VEVENT"), 1);
    assert_eq!(count_lines(&doc, "SUMMARY:Geburtstag John Smith, Jr"), 1);
}

#[test]
fn non_ascii_names_survive_intact() {
    let doc = document_from_csv(
        "First Name,Last Name,Birthday\r\nJörg,Müller,1960-01-02\r\n".as_bytes(),
    );
    assert_eq!(count_lines(&doc, "SUMMARY:Geburtstag Jörg Müller"), 1);
    assert_eq!(count_lines(&doc, "DTSTART:19600102"), 1);
}

#[test]
fn document_frame_is_in_order() {
    let doc = document_from_csv(b"First Name,Last Name,Birthday\r\nAnna,A,1990-01-01\r\n");
    let lines = doc_lines(&doc);
    assert_eq!(lines[0], "BEGIN:VCALENDAR");
    assert_eq!(lines[1], "VERSION:2.0");
    assert_eq!(lines[2], "PRODID:ics-rs");
    assert_eq!(lines[3], "BEGIN:VEVENT");
    assert_eq!(lines[lines.len() - 2], "END:VCALENDAR");
    assert_eq!(lines[lines.len() - 1], "");
}
