//! Differential check: for inputs that need no escaping and no line
//! folding, the verified encoder produces byte-for-byte the document
//! that the `ical` crate's generator builds from the same fields.

use ical::generator::{Emitter, IcalCalendarBuilder, IcalEventBuilder};
use ical::property::Property;

use lunar_ics::dates::{SolarDate, Timestamp};
use lunar_ics::encode::encode;

#[test]
fn matches_reference_generator_output() {
    let dates = vec![
        SolarDate { year: 1993, month: 4, day: 16 },
        SolarDate { year: 1994, month: 5, day: 5 },
    ];
    let now = Timestamp { year: 2023, month: 6, day: 3, hour: 12, minute: 34, second: 56 };
    let ours = encode("Birthday", &dates, "Asia/Seoul", &now, 7);

    let mut cal = IcalCalendarBuilder::version("2.0")
        .gregorian()
        .prodid("-//lunar-ical//heek.kr//")
        .build();
    for (k, day) in ["19930416", "19940505"].iter().enumerate() {
        let event = IcalEventBuilder::tzid("Asia/Seoul")
            .uid(format!("7-{}@lunar-ical", k))
            .changed("20230603T123456Z")
            .one_day(*day)
            .set(Property {
                name: String::from("SUMMARY"),
                params: None,
                value: Some(String::from("Birthday")),
            })
            .build();
        cal.events.push(event);
    }
    assert_eq!(ours, cal.generate());
}
