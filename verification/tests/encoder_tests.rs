use lunar_ics::dates::{SolarDate, Timestamp};
use lunar_ics::encode::encode;
use lunar_ics::resolver::resolve_input;

fn sd(year: u16, month: u8, day: u8) -> SolarDate {
    SolarDate { year, month, day }
}

fn ts(year: u16, month: u8, day: u8, hour: u8, minute: u8, second: u8) -> Timestamp {
    Timestamp { year, month, day, hour, minute, second }
}

fn lines_of(doc: &str) -> Vec<&str> {
    let mut lines: Vec<&str> = doc.split("\r\n").collect();
    assert_eq!(lines.pop(), Some(""));
    lines
}

#[test]
fn single_entry_document_text() {
    let doc = encode(
        "Birthday",
        &vec![sd(1993, 4, 16)],
        "Asia/Seoul",
        &ts(2023, 6, 3, 12, 34, 56),
        7,
    );
    let expected = "BEGIN:VCALENDAR\r\n\
                    VERSION:2.0\r\n\
                    CALSCALE:GREGORIAN\r\n\
                    PRODID:-//lunar-ical//heek.kr//\r\n\
                    BEGIN:VEVENT\r\n\
                    UID:7-0@lunar-ical\r\n\
                    DTSTAMP;TZID=Asia/Seoul:20230603T123456Z\r\n\
                    DTSTART;VALUE=DATE:19930416\r\n\
                    SUMMARY:Birthday\r\n\
                    END:VEVENT\r\n\
                    END:VCALENDAR\r\n";
    assert_eq!(doc, expected);
}

#[test]
fn empty_document_is_valid() {
    let doc = encode("Anything", &vec![], "UTC", &ts(2023, 6, 3, 0, 0, 0), 1);
    let expected = "BEGIN:VCALENDAR\r\n\
                    VERSION:2.0\r\n\
                    CALSCALE:GREGORIAN\r\n\
                    PRODID:-//lunar-ical//heek.kr//\r\n\
                    END:VCALENDAR\r\n";
    assert_eq!(doc, expected);
}

#[test]
fn title_is_escaped() {
    let doc = encode(
        "a,b;c\\d\ne\rf",
        &vec![sd(2000, 1, 1)],
        "UTC",
        &ts(2023, 1, 1, 0, 0, 0),
        1,
    );
    assert!(doc.contains("SUMMARY:a\\,b\\;c\\\\d\\nef\r\n"));
    // The raw line feed must not survive: every line is a property.
    assert_eq!(lines_of(&doc).len(), 11);
}

#[test]
fn timezone_is_escaped() {
    let doc = encode(
        "T",
        &vec![sd(2000, 1, 1)],
        "Odd;Zone",
        &ts(2023, 1, 1, 0, 0, 0),
        1,
    );
    assert!(doc.contains("DTSTAMP;TZID=Odd\\;Zone:20230101T000000Z\r\n"));
}

#[test]
fn identifiers_unique_within_document() {
    let dates = vec![sd(1993, 4, 16), sd(1994, 5, 5), sd(1995, 4, 24)];
    let doc = encode("Birthday", &dates, "Asia/Seoul", &ts(2023, 6, 3, 1, 2, 3), 42);
    let lines = lines_of(&doc);
    let begins = lines.iter().filter(|l| **l == "BEGIN:VEVENT").count();
    assert_eq!(begins, 3);
    let uids: Vec<&&str> = lines.iter().filter(|l| l.starts_with("UID:")).collect();
    assert_eq!(
        uids,
        vec![&"UID:42-0@lunar-ical", &"UID:42-1@lunar-ical", &"UID:42-2@lunar-ical"]
    );
    for i in 0..uids.len() {
        for j in 0..i {
            assert_ne!(uids[i], uids[j]);
        }
    }
}

#[test]
fn fresh_seed_changes_identifiers_only() {
    let dates = vec![sd(1993, 4, 16), sd(1994, 5, 5)];
    let first = encode("Birthday", &dates, "Asia/Seoul", &ts(2023, 6, 3, 1, 2, 3), 10);
    let second = encode("Birthday", &dates, "Asia/Seoul", &ts(2024, 7, 4, 5, 6, 7), 11);
    let a = lines_of(&first);
    let b = lines_of(&second);
    assert_eq!(a.len(), b.len());
    for (x, y) in a.iter().zip(b.iter()) {
        if x.starts_with("UID:") || x.starts_with("DTSTAMP") {
            assert_ne!(x, y);
        } else {
            assert_eq!(x, y);
        }
    }
}

#[test]
fn korean_title_three_entries() {
    let dates = resolve_input("1993.03.25", false, 3);
    let doc = encode("생일", &dates, "Asia/Seoul", &ts(2023, 6, 3, 0, 0, 0), 5);
    let lines = lines_of(&doc);
    let summaries = lines.iter().filter(|l| **l == "SUMMARY:생일").count();
    assert_eq!(summaries, 3);
    let starts: Vec<&&str> = lines
        .iter()
        .filter(|l| l.starts_with("DTSTART;VALUE=DATE:"))
        .collect();
    assert_eq!(
        starts,
        vec![
            &"DTSTART;VALUE=DATE:19930416",
            &"DTSTART;VALUE=DATE:19940505",
            &"DTSTART;VALUE=DATE:19950424"
        ]
    );
}

#[test]
fn fields_are_zero_padded() {
    let doc = encode("T", &vec![sd(800, 1, 2)], "UTC", &ts(9, 1, 2, 3, 4, 5), 0);
    assert!(doc.contains("DTSTART;VALUE=DATE:08000102\r\n"));
    assert!(doc.contains("DTSTAMP;TZID=UTC:00090102T030405Z\r\n"));
    assert!(doc.contains("UID:0-0@lunar-ical\r\n"));
}

#[test]
fn large_seed_is_printed_in_full() {
    let doc = encode(
        "T",
        &vec![sd(2000, 12, 31)],
        "UTC",
        &ts(2023, 1, 1, 0, 0, 0),
        18446744073709551615,
    );
    assert!(doc.contains("UID:18446744073709551615-0@lunar-ical\r\n"));
}
