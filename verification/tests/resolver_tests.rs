use lunar_ics::dates::{LunarDate, SolarDate};
use lunar_ics::parse::parse_lunar_date;
use lunar_ics::resolver::{resolve, resolve_input};

fn sd(year: u16, month: u8, day: u8) -> SolarDate {
    SolarDate { year, month, day }
}

#[test]
fn empty_input_yields_no_dates() {
    let dates = resolve_input("", false, 100);
    assert!(dates.is_empty());
}

#[test]
fn junk_input_yields_no_dates() {
    assert!(resolve_input("abc", false, 100).is_empty());
    assert!(resolve_input("1993-03-25", false, 100).is_empty());
    assert!(resolve_input("1993.03", false, 100).is_empty());
    assert!(resolve_input("1993.03.25.07", false, 100).is_empty());
    assert!(resolve_input("1993..25", false, 100).is_empty());
    assert!(resolve_input(".1993.03.25", false, 100).is_empty());
    assert!(resolve_input("1993.03.25.", false, 100).is_empty());
    assert!(resolve_input("생일", false, 100).is_empty());
}

#[test]
fn zero_component_is_rejected() {
    assert!(resolve_input("0.3.25", false, 100).is_empty());
    assert!(resolve_input("1993.0.25", false, 100).is_empty());
    assert!(resolve_input("1993.3.0", false, 100).is_empty());
}

#[test]
fn sign_characters_are_rejected() {
    assert!(resolve_input("+1993.03.25", false, 100).is_empty());
    assert!(resolve_input("1993.-3.25", false, 100).is_empty());
}

#[test]
fn oversized_component_is_rejected() {
    // 2^32 does not fit the parsed integer type.
    assert!(resolve_input("4294967296.3.25", false, 100).is_empty());
    // u32::MAX parses, but no lunar year that large is in the table.
    assert!(resolve_input("4294967295.3.25", false, 100).is_empty());
}

#[test]
fn parse_accepts_exactly_three_parts() {
    assert_eq!(
        parse_lunar_date("1993.03.25", true),
        Some(LunarDate { year: 1993, month: 3, is_leap_month: true, day: 25 })
    );
    assert_eq!(parse_lunar_date("1993.03.25.07", false), None);
    assert_eq!(parse_lunar_date("1993.03", false), None);
    assert_eq!(parse_lunar_date("", false), None);
}

#[test]
fn three_year_recurrence_from_lunar_spring() {
    let dates = resolve_input("1993.03.25", false, 3);
    assert_eq!(dates, vec![sd(1993, 4, 16), sd(1994, 5, 5), sd(1995, 4, 24)]);
}

#[test]
fn result_is_cut_to_repeat_count() {
    let dates = resolve_input("1993.03.25", false, 2);
    assert_eq!(dates, vec![sd(1993, 4, 16), sd(1994, 5, 5)]);
    let one = resolve_input("1993.03.25", false, 1);
    assert_eq!(one, vec![sd(1993, 4, 16)]);
}

#[test]
fn leap_month_years_are_sparse() {
    // A third leap month occurs in 1993 and then not again until 2012.
    let dates = resolve_input("1993.03.25", true, 2);
    assert_eq!(dates, vec![sd(1993, 5, 16), sd(2012, 5, 15)]);
}

#[test]
fn nonexistent_leap_month_is_skipped() {
    // 1994 has no third leap month; the first qualifying year is 2012.
    let dates = resolve_input("1994.03.25", true, 1);
    assert_eq!(dates, vec![sd(2012, 5, 15)]);
}

#[test]
fn horizon_limits_results() {
    // The conversion table ends in lunar year 2050: asking for 100
    // entries from 2049 yields two, without an error.
    let dates = resolve_input("2049.03.25", false, 100);
    assert_eq!(dates, vec![sd(2049, 4, 26), sd(2050, 4, 16)]);
}

#[test]
fn month_out_of_range_yields_no_dates() {
    let dates = resolve_input("1993.13.25", false, 100);
    assert!(dates.is_empty());
}

#[test]
fn same_request_same_dates() {
    let first = resolve_input("1993.03.25", false, 5);
    let second = resolve_input("1993.03.25", false, 5);
    assert_eq!(first, second);
    let base = parse_lunar_date("1993.03.25", false).unwrap();
    let third = resolve(&base, 5);
    assert_eq!(first, third);
}

#[test]
fn output_is_strictly_increasing() {
    let dates = resolve_input("1993.03.25", false, 50);
    for w in dates.windows(2) {
        let (a, b) = (w[0], w[1]);
        assert!((a.year, a.month, a.day) < (b.year, b.month, b.day));
    }
}
