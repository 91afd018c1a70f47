//! The encoder's document-level laws, stated and proved once over the
//! line specification: how many entries a document holds, that entry
//! identifiers never collide, and that the flat text determines the
//! lines, so a consumer splitting on CRLF recovers exactly what was
//! encoded.

use vstd::prelude::*;

use crate::dates::{timestamp_wf, SolarDate, Timestamp};
use crate::encode::{
    crlf, date_stamp, document_lines, event_lines, events_lines, header_lines, render, uid_text,
    utc_stamp,
};
use crate::numeral::{
    decimal, digit_char, lemma_decimal_digits, lemma_decimal_injective, lemma_pad2_injective,
    lemma_pad4_injective, pad2, pad4,
};
use crate::parse::is_digit;
use crate::text::{crlf_free, escape_text, lemma_crlf_free_concat, lemma_escape_crlf_free};

verus! {

/// How many lines of `lines` are exactly `target`.
pub open spec fn count_lines_equal(lines: Seq<Seq<char>>, target: Seq<char>) -> int
    decreases lines.len(),
{
    if lines.len() == 0 {
        0
    } else {
        count_lines_equal(lines.drop_last(), target) + if lines.last() == target {
            1int
        } else {
            0int
        }
    }
}

/// Counting distributes over concatenation of line lists.
proof fn lemma_count_concat(a: Seq<Seq<char>>, b: Seq<Seq<char>>, target: Seq<char>)
    ensures
        count_lines_equal(a + b, target) == count_lines_equal(a, target) + count_lines_equal(
            b,
            target,
        ),
    decreases b.len(),
{
    if b.len() == 0 {
        assert(a + b =~= a);
    } else {
        assert((a + b).drop_last() =~= a + b.drop_last());
        lemma_count_concat(a, b.drop_last(), target);
        assert((a + b).last() == b.last());
    }
}

/// One event block holds exactly one `BEGIN:VEVENT` line.
proof fn lemma_event_lines_one_begin(
    title: Seq<char>,
    tz: Seq<char>,
    now: Timestamp,
    seed: u64,
    k: int,
    d: SolarDate,
)
    ensures
        count_lines_equal(event_lines(title, tz, now, seed, k, d), "BEGIN:VEVENT"@) == 1,
{
    reveal_with_fuel(count_lines_equal, 8);
    reveal_strlit("BEGIN:VEVENT");
    reveal_strlit("UID:");
    reveal_strlit("DTSTAMP;TZID=");
    reveal_strlit("DTSTART;VALUE=DATE:");
    reveal_strlit("SUMMARY:");
    reveal_strlit("END:VEVENT");
    let ev = event_lines(title, tz, now, seed, k, d);
    let l0 = "BEGIN:VEVENT"@;
    let l1 = "UID:"@ + uid_text(seed, k);
    let l2 = "DTSTAMP;TZID="@ + escape_text(tz) + seq![':'] + utc_stamp(now);
    let l3 = "DTSTART;VALUE=DATE:"@ + date_stamp(d);
    let l4 = "SUMMARY:"@ + escape_text(title);
    let l5 = "END:VEVENT"@;
    assert(l1[0] == 'U' && l0[0] == 'B');
    assert(l2[0] == 'D');
    assert(l3[0] == 'D');
    assert(l4[0] == 'S');
    assert(l5.len() != l0.len());
    assert(ev.drop_last() =~= seq![l0, l1, l2, l3, l4]);
    assert(ev.drop_last().drop_last() =~= seq![l0, l1, l2, l3]);
    assert(ev.drop_last().drop_last().drop_last() =~= seq![l0, l1, l2]);
    assert(ev.drop_last().drop_last().drop_last().drop_last() =~= seq![l0, l1]);
    assert(ev.drop_last().drop_last().drop_last().drop_last().drop_last() =~= seq![l0]);
    assert(seq![l0].drop_last() =~= Seq::<Seq<char>>::empty());
}

/// The opening lines and the closing line hold no `BEGIN:VEVENT`.
proof fn lemma_frame_no_begin()
    ensures
        count_lines_equal(header_lines(), "BEGIN:VEVENT"@) == 0,
        count_lines_equal(seq!["END:VCALENDAR"@], "BEGIN:VEVENT"@) == 0,
{
    reveal_with_fuel(count_lines_equal, 8);
    reveal_strlit("BEGIN:VEVENT");
    reveal_strlit("BEGIN:VCALENDAR");
    reveal_strlit("VERSION:2.0");
    reveal_strlit("CALSCALE:GREGORIAN");
    reveal_strlit("PRODID:-//lunar-ical//heek.kr//");
    reveal_strlit("END:VCALENDAR");
    let h = header_lines();
    assert("BEGIN:VCALENDAR"@.len() != "BEGIN:VEVENT"@.len());
    assert("VERSION:2.0"@.len() != "BEGIN:VEVENT"@.len());
    assert("CALSCALE:GREGORIAN"@.len() != "BEGIN:VEVENT"@.len());
    assert("PRODID:-//lunar-ical//heek.kr//"@.len() != "BEGIN:VEVENT"@.len());
    assert("END:VCALENDAR"@.len() != "BEGIN:VEVENT"@.len());
    assert(h.drop_last() =~= seq!["BEGIN:VCALENDAR"@, "VERSION:2.0"@, "CALSCALE:GREGORIAN"@]);
    assert(h.drop_last().drop_last() =~= seq!["BEGIN:VCALENDAR"@, "VERSION:2.0"@]);
    assert(h.drop_last().drop_last().drop_last() =~= seq!["BEGIN:VCALENDAR"@]);
    assert(seq!["BEGIN:VCALENDAR"@].drop_last() =~= Seq::<Seq<char>>::empty());
    assert(seq!["END:VCALENDAR"@].drop_last() =~= Seq::<Seq<char>>::empty());
}

/// The first `n` event blocks hold `n` `BEGIN:VEVENT` lines.
proof fn lemma_events_lines_count(
    title: Seq<char>,
    tz: Seq<char>,
    now: Timestamp,
    seed: u64,
    dates: Seq<SolarDate>,
    n: int,
)
    requires
        n >= 0,
    ensures
        count_lines_equal(events_lines(title, tz, now, seed, dates, n), "BEGIN:VEVENT"@) == n,
    decreases n,
{
    if n > 0 {
        lemma_events_lines_count(title, tz, now, seed, dates, n - 1);
        lemma_count_concat(
            events_lines(title, tz, now, seed, dates, n - 1),
            event_lines(title, tz, now, seed, n - 1, dates[n - 1]),
            "BEGIN:VEVENT"@,
        );
        lemma_event_lines_one_begin(title, tz, now, seed, n - 1, dates[n - 1]);
    }
}

/// Encoding `n` dates yields a document with exactly `n` entries: the
/// number of `BEGIN:VEVENT` lines equals the number of dates given.
pub proof fn lemma_document_entry_count(
    title: Seq<char>,
    dates: Seq<SolarDate>,
    tz: Seq<char>,
    now: Timestamp,
    seed: u64,
)
    ensures
        count_lines_equal(document_lines(title, dates, tz, now, seed), "BEGIN:VEVENT"@)
            == dates.len(),
{
    let ev = events_lines(title, tz, now, seed, dates, dates.len() as int);
    lemma_frame_no_begin();
    lemma_events_lines_count(title, tz, now, seed, dates, dates.len() as int);
    lemma_count_concat(header_lines(), ev, "BEGIN:VEVENT"@);
    lemma_count_concat(header_lines() + ev, seq!["END:VCALENDAR"@], "BEGIN:VEVENT"@);
}

/// Within one document two different entries never share an
/// identifier: the entry numbers differ, and a decimal numeral names
/// its number uniquely.
pub proof fn lemma_uid_unique(seed: u64, i: int, j: int)
    requires
        0 <= i,
        0 <= j,
        i != j,
    ensures
        uid_text(seed, i) != uid_text(seed, j),
{
    let ds = decimal(seed as int);
    let di = decimal(i);
    let dj = decimal(j);
    let u1 = uid_text(seed, i);
    let u2 = uid_text(seed, j);
    if u1 == u2 {
        if di.len() == dj.len() {
            assert forall|t: int| 0 <= t < di.len() implies di[t] == dj[t] by {
                assert(u1[ds.len() + 1 + t] == di[t]);
                assert(u2[ds.len() + 1 + t] == dj[t]);
            }
            assert(di =~= dj);
            lemma_decimal_injective(i, j);
        } else {
            assert(u1.len() == ds.len() + 1 + di.len() + "@lunar-ical"@.len());
            assert(u2.len() == ds.len() + 1 + dj.len() + "@lunar-ical"@.len());
        }
        assert(false);
    }
}

/// Two documents encoded from different seeds never share an
/// identifier at the same entry number.
pub proof fn lemma_uid_distinct_seeds(seed1: u64, seed2: u64, k: int)
    requires
        seed1 != seed2,
        0 <= k,
    ensures
        uid_text(seed1, k) != uid_text(seed2, k),
{
    let d1 = decimal(seed1 as int);
    let d2 = decimal(seed2 as int);
    let dk = decimal(k);
    let u1 = uid_text(seed1, k);
    let u2 = uid_text(seed2, k);
    if u1 == u2 {
        if d1.len() == d2.len() {
            assert forall|t: int| 0 <= t < d1.len() implies d1[t] == d2[t] by {
                assert(u1[t] == d1[t]);
                assert(u2[t] == d2[t]);
            }
            assert(d1 =~= d2);
            lemma_decimal_injective(seed1 as int, seed2 as int);
        } else {
            assert(u1.len() == d1.len() + 1 + dk.len() + "@lunar-ical"@.len());
            assert(u2.len() == d2.len() + 1 + dk.len() + "@lunar-ical"@.len());
        }
        assert(false);
    }
}

/// The first `n` event blocks lay out six lines per entry.
proof fn lemma_events_lines_index(
    title: Seq<char>,
    tz: Seq<char>,
    now: Timestamp,
    seed: u64,
    dates: Seq<SolarDate>,
    n: int,
    k: int,
    j: int,
)
    requires
        0 <= k < n,
        0 <= j < 6,
    ensures
        events_lines(title, tz, now, seed, dates, n).len() == 6 * n,
        events_lines(title, tz, now, seed, dates, n)[6 * k + j] == event_lines(
            title,
            tz,
            now,
            seed,
            k,
            dates[k],
        )[j],
    decreases n,
{
    lemma_events_lines_len(title, tz, now, seed, dates, n);
    if k == n - 1 {
        lemma_events_lines_len(title, tz, now, seed, dates, n - 1);
        assert(events_lines(title, tz, now, seed, dates, n)[6 * k + j] == event_lines(
            title,
            tz,
            now,
            seed,
            n - 1,
            dates[n - 1],
        )[j]);
    } else {
        lemma_events_lines_index(title, tz, now, seed, dates, n - 1, k, j);
        lemma_events_lines_len(title, tz, now, seed, dates, n - 1);
    }
}

/// Six lines per entry.
proof fn lemma_events_lines_len(
    title: Seq<char>,
    tz: Seq<char>,
    now: Timestamp,
    seed: u64,
    dates: Seq<SolarDate>,
    n: int,
)
    ensures
        events_lines(title, tz, now, seed, dates, n).len() == if n <= 0 {
            0int
        } else {
            6 * n
        },
    decreases n,
{
    if n > 0 {
        lemma_events_lines_len(title, tz, now, seed, dates, n - 1);
    }
}

/// Where each line of entry `k` stands in the finished document: four
/// header lines come first, then six lines per entry.
#[verifier::rlimit(30)]
pub proof fn lemma_document_line_index(
    title: Seq<char>,
    dates: Seq<SolarDate>,
    tz: Seq<char>,
    now: Timestamp,
    seed: u64,
    k: int,
    j: int,
)
    requires
        0 <= k < dates.len(),
        0 <= j < 6,
    ensures
        document_lines(title, dates, tz, now, seed).len() == 5 + 6 * dates.len(),
        document_lines(title, dates, tz, now, seed)[4 + 6 * k + j] == event_lines(
            title,
            tz,
            now,
            seed,
            k,
            dates[k],
        )[j],
{
    lemma_events_lines_index(title, tz, now, seed, dates, dates.len() as int, k, j);
    let h = header_lines();
    let ev = events_lines(title, tz, now, seed, dates, dates.len() as int);
    let dl = document_lines(title, dates, tz, now, seed);
    assert(6 * k + j < 6 * dates.len());
    assert((h + ev)[4 + 6 * k + j] == ev[6 * k + j]);
    assert(dl[4 + 6 * k + j] == (h + ev)[4 + 6 * k + j]);
}

/// Re-encoding the same dates and title with a fresh seed changes
/// every entry identifier and nothing of the dates or the title: the
/// two documents have the same shape, the same `DTSTART` and `SUMMARY`
/// lines, and entry for entry different `UID` lines.
#[verifier::rlimit(30)]
pub proof fn lemma_fresh_identifiers(
    title: Seq<char>,
    dates: Seq<SolarDate>,
    tz: Seq<char>,
    now1: Timestamp,
    seed1: u64,
    now2: Timestamp,
    seed2: u64,
)
    requires
        seed1 != seed2,
    ensures
        document_lines(title, dates, tz, now1, seed1).len() == document_lines(
            title,
            dates,
            tz,
            now2,
            seed2,
        ).len(),
        forall|k: int|
            0 <= k < dates.len() ==> #[trigger] document_lines(title, dates, tz, now1, seed1)[4
                + 6 * k + 3] == document_lines(title, dates, tz, now2, seed2)[4 + 6 * k + 3],
        forall|k: int|
            0 <= k < dates.len() ==> #[trigger] document_lines(title, dates, tz, now1, seed1)[4
                + 6 * k + 4] == document_lines(title, dates, tz, now2, seed2)[4 + 6 * k + 4],
        forall|k: int|
            0 <= k < dates.len() ==> #[trigger] document_lines(title, dates, tz, now1, seed1)[4
                + 6 * k + 1] != document_lines(title, dates, tz, now2, seed2)[4 + 6 * k + 1],
{
    if dates.len() > 0 {
        lemma_document_line_index(title, dates, tz, now1, seed1, 0, 0);
        lemma_document_line_index(title, dates, tz, now2, seed2, 0, 0);
    }
    assert forall|k: int| 0 <= k < dates.len() implies #[trigger] document_lines(
        title,
        dates,
        tz,
        now1,
        seed1,
    )[4 + 6 * k + 3] == document_lines(title, dates, tz, now2, seed2)[4 + 6 * k + 3] by {
        lemma_document_line_index(title, dates, tz, now1, seed1, k, 3);
        lemma_document_line_index(title, dates, tz, now2, seed2, k, 3);
    }
    assert forall|k: int| 0 <= k < dates.len() implies #[trigger] document_lines(
        title,
        dates,
        tz,
        now1,
        seed1,
    )[4 + 6 * k + 4] == document_lines(title, dates, tz, now2, seed2)[4 + 6 * k + 4] by {
        lemma_document_line_index(title, dates, tz, now1, seed1, k, 4);
        lemma_document_line_index(title, dates, tz, now2, seed2, k, 4);
    }
    assert forall|k: int| 0 <= k < dates.len() implies #[trigger] document_lines(
        title,
        dates,
        tz,
        now1,
        seed1,
    )[4 + 6 * k + 1] != document_lines(title, dates, tz, now2, seed2)[4 + 6 * k + 1] by {
        lemma_document_line_index(title, dates, tz, now1, seed1, k, 1);
        lemma_document_line_index(title, dates, tz, now2, seed2, k, 1);
        lemma_uid_line_distinct(seed1, seed2, k);
    }
}

/// Within one document no two entries share an identifier line: the
/// `UID` lines at any two entry positions differ.
pub proof fn lemma_document_uids_unique(
    title: Seq<char>,
    dates: Seq<SolarDate>,
    tz: Seq<char>,
    now: Timestamp,
    seed: u64,
)
    ensures
        forall|k1: int, k2: int|
            0 <= k1 < k2 < dates.len() ==> #[trigger] document_lines(title, dates, tz, now, seed)[4
                + 6 * k1 + 1] != #[trigger] document_lines(title, dates, tz, now, seed)[4 + 6 * k2
                + 1],
{
    assert forall|k1: int, k2: int| 0 <= k1 < k2 < dates.len() implies #[trigger] document_lines(
        title,
        dates,
        tz,
        now,
        seed,
    )[4 + 6 * k1 + 1] != #[trigger] document_lines(title, dates, tz, now, seed)[4 + 6 * k2
        + 1] by {
        lemma_document_line_index(title, dates, tz, now, seed, k1, 1);
        lemma_document_line_index(title, dates, tz, now, seed, k2, 1);
        lemma_uid_unique(seed, k1, k2);
        let u1 = uid_text(seed, k1);
        let u2 = uid_text(seed, k2);
        let line1 = "UID:"@ + u1;
        let line2 = "UID:"@ + u2;
        if line1 == line2 {
            assert(line1.len() == "UID:"@.len() + u1.len());
            assert(line2.len() == "UID:"@.len() + u2.len());
            assert(u1.len() == u2.len());
            assert forall|t: int| 0 <= t < u1.len() implies u1[t] == u2[t] by {
                assert(line1["UID:"@.len() + t] == u1[t]);
                assert(line2["UID:"@.len() + t] == u2[t]);
            }
            assert(u1 =~= u2);
            assert(false);
        }
    }
}

/// Prefixing the fixed property name keeps distinct identifiers
/// distinct.
proof fn lemma_uid_line_distinct(seed1: u64, seed2: u64, k: int)
    requires
        seed1 != seed2,
        0 <= k,
    ensures
        "UID:"@ + uid_text(seed1, k) != "UID:"@ + uid_text(seed2, k),
{
    lemma_uid_distinct_seeds(seed1, seed2, k);
    let u1 = uid_text(seed1, k);
    let u2 = uid_text(seed2, k);
    let line1 = "UID:"@ + u1;
    let line2 = "UID:"@ + u2;
    if line1 == line2 {
        assert(line1.len() == "UID:"@.len() + u1.len());
        assert(line2.len() == "UID:"@.len() + u2.len());
        assert(u1.len() == u2.len());
        assert forall|t: int| 0 <= t < u1.len() implies u1[t] == u2[t] by {
            assert(line1["UID:"@.len() + t] == u1[t]);
            assert(line2["UID:"@.len() + t] == u2[t]);
        }
        assert(u1 =~= u2);
        assert(false);
    }
}

/// Fixed-width numerals stay on one line.
proof fn lemma_pad_crlf_free(n: int)
    ensures
        crlf_free(pad2(n)),
        crlf_free(pad4(n)),
{
    assert(is_digit(digit_char(n % 10)));
    assert(is_digit(digit_char((n / 10) % 10)));
    assert(is_digit(digit_char((n / 100) % 10)));
    assert(is_digit(digit_char((n / 1000) % 10)));
}

/// An entry identifier stays on one line.
proof fn lemma_uid_text_crlf_free(seed: u64, k: int)
    requires
        0 <= k,
    ensures
        crlf_free(uid_text(seed, k)),
{
    reveal_strlit("@lunar-ical");
    lemma_decimal_digits(seed as int);
    lemma_decimal_digits(k);
    assert(crlf_free(decimal(seed as int)));
    assert(crlf_free(decimal(k)));
    assert(crlf_free(seq!['-']));
    assert(crlf_free("@lunar-ical"@));
    lemma_crlf_free_concat(decimal(seed as int), seq!['-']);
    lemma_crlf_free_concat(decimal(seed as int) + seq!['-'], decimal(k));
    lemma_crlf_free_concat(decimal(seed as int) + seq!['-'] + decimal(k), "@lunar-ical"@);
}

/// Every line of an entry is free of line breaks: the fixed parts by
/// inspection, numerals because digits are not control characters,
/// and the free-text parts because they are escaped.
proof fn lemma_event_lines_crlf_free(
    title: Seq<char>,
    tz: Seq<char>,
    now: Timestamp,
    seed: u64,
    k: int,
    d: SolarDate,
)
    requires
        0 <= k,
    ensures
        forall|j: int|
            0 <= j < 6 ==> crlf_free(#[trigger] event_lines(title, tz, now, seed, k, d)[j]),
{
    reveal_strlit("BEGIN:VEVENT");
    reveal_strlit("UID:");
    reveal_strlit("DTSTAMP;TZID=");
    reveal_strlit("DTSTART;VALUE=DATE:");
    reveal_strlit("SUMMARY:");
    reveal_strlit("END:VEVENT");
    let ev = event_lines(title, tz, now, seed, k, d);
    assert(crlf_free("BEGIN:VEVENT"@));
    assert(crlf_free("UID:"@));
    assert(crlf_free("DTSTAMP;TZID="@));
    assert(crlf_free("DTSTART;VALUE=DATE:"@));
    assert(crlf_free("SUMMARY:"@));
    assert(crlf_free("END:VEVENT"@));
    lemma_uid_text_crlf_free(seed, k);
    lemma_crlf_free_concat("UID:"@, uid_text(seed, k));
    lemma_escape_crlf_free(tz);
    lemma_escape_crlf_free(title);
    lemma_pad_crlf_free(now.year as int);
    lemma_pad_crlf_free(now.month as int);
    lemma_pad_crlf_free(now.day as int);
    lemma_pad_crlf_free(now.hour as int);
    lemma_pad_crlf_free(now.minute as int);
    lemma_pad_crlf_free(now.second as int);
    lemma_pad_crlf_free(d.year as int);
    lemma_pad_crlf_free(d.month as int);
    lemma_pad_crlf_free(d.day as int);
    assert(crlf_free(seq![':']));
    assert(crlf_free(seq!['T']));
    assert(crlf_free(seq!['Z']));
    lemma_crlf_free_concat(pad4(now.year as int), pad2(now.month as int));
    lemma_crlf_free_concat(pad4(now.year as int) + pad2(now.month as int), pad2(now.day as int));
    lemma_crlf_free_concat(
        pad4(now.year as int) + pad2(now.month as int) + pad2(now.day as int),
        seq!['T'],
    );
    lemma_crlf_free_concat(
        pad4(now.year as int) + pad2(now.month as int) + pad2(now.day as int) + seq!['T'],
        pad2(now.hour as int),
    );
    lemma_crlf_free_concat(
        pad4(now.year as int) + pad2(now.month as int) + pad2(now.day as int) + seq!['T'] + pad2(
            now.hour as int,
        ),
        pad2(now.minute as int),
    );
    lemma_crlf_free_concat(
        pad4(now.year as int) + pad2(now.month as int) + pad2(now.day as int) + seq!['T'] + pad2(
            now.hour as int,
        ) + pad2(now.minute as int),
        pad2(now.second as int),
    );
    lemma_crlf_free_concat(
        pad4(now.year as int) + pad2(now.month as int) + pad2(now.day as int) + seq!['T'] + pad2(
            now.hour as int,
        ) + pad2(now.minute as int) + pad2(now.second as int),
        seq!['Z'],
    );
    assert(crlf_free(utc_stamp(now)));
    lemma_crlf_free_concat("DTSTAMP;TZID="@, escape_text(tz));
    lemma_crlf_free_concat("DTSTAMP;TZID="@ + escape_text(tz), seq![':']);
    lemma_crlf_free_concat("DTSTAMP;TZID="@ + escape_text(tz) + seq![':'], utc_stamp(now));
    lemma_crlf_free_concat(pad4(d.year as int), pad2(d.month as int));
    lemma_crlf_free_concat(pad4(d.year as int) + pad2(d.month as int), pad2(d.day as int));
    assert(crlf_free(date_stamp(d)));
    lemma_crlf_free_concat("DTSTART;VALUE=DATE:"@, date_stamp(d));
    lemma_crlf_free_concat("SUMMARY:"@, escape_text(title));
    assert(crlf_free(ev[0]));
    assert(crlf_free(ev[1]));
    assert(crlf_free(ev[2]));
    assert(crlf_free(ev[3]));
    assert(crlf_free(ev[4]));
    assert(crlf_free(ev[5]));
}

/// No line of a finished document holds a line break, whatever the
/// title and timezone identifier given: the document's line structure
/// cannot be disturbed by its inputs.
pub proof fn lemma_document_lines_crlf_free(
    title: Seq<char>,
    dates: Seq<SolarDate>,
    tz: Seq<char>,
    now: Timestamp,
    seed: u64,
)
    ensures
        forall|m: int|
            0 <= m < document_lines(title, dates, tz, now, seed).len() ==> crlf_free(
                #[trigger] document_lines(title, dates, tz, now, seed)[m],
            ),
{
    reveal_strlit("BEGIN:VCALENDAR");
    reveal_strlit("VERSION:2.0");
    reveal_strlit("CALSCALE:GREGORIAN");
    reveal_strlit("PRODID:-//lunar-ical//heek.kr//");
    reveal_strlit("END:VCALENDAR");
    let dl = document_lines(title, dates, tz, now, seed);
    let h = header_lines();
    let ev = events_lines(title, tz, now, seed, dates, dates.len() as int);
    lemma_events_lines_len(title, tz, now, seed, dates, dates.len() as int);
    assert(crlf_free("BEGIN:VCALENDAR"@));
    assert(crlf_free("VERSION:2.0"@));
    assert(crlf_free("CALSCALE:GREGORIAN"@));
    assert(crlf_free("PRODID:-//lunar-ical//heek.kr//"@));
    assert(crlf_free("END:VCALENDAR"@));
    assert forall|m: int| 0 <= m < dl.len() implies crlf_free(#[trigger] dl[m]) by {
        if m < 4 {
            assert(dl[m] == h[m]);
        } else if m < 4 + ev.len() {
            let k = (m - 4) / 6;
            let j = (m - 4) % 6;
            assert(m == 4 + 6 * k + j);
            assert(0 <= k < dates.len());
            assert(0 <= j < 6);
            lemma_document_line_index(title, dates, tz, now, seed, k, j);
            lemma_event_lines_crlf_free(title, tz, now, seed, k, dates[k]);
        } else {
            assert(dl[m] == "END:VCALENDAR"@);
        }
    }
}

/// A non-empty list renders as its first line, a CRLF, and the rest.
proof fn lemma_render_first(lines: Seq<Seq<char>>)
    requires
        lines.len() > 0,
    ensures
        render(lines) == lines[0] + crlf() + render(lines.drop_first()),
    decreases lines.len(),
{
    if lines.len() == 1 {
        assert(lines.drop_last() =~= Seq::<Seq<char>>::empty());
        assert(lines.drop_first() =~= Seq::<Seq<char>>::empty());
        assert(render(lines) =~= lines[0] + crlf() + render(lines.drop_first()));
    } else {
        lemma_render_first(lines.drop_last());
        assert(lines.drop_first().drop_last() =~= lines.drop_last().drop_first());
        assert(lines.drop_first().len() > 0);
        assert(lines.drop_first().last() == lines.last());
        assert(lines.drop_last()[0] == lines[0]);
        assert(render(lines) =~= lines[0] + crlf() + render(lines.drop_first()));
    }
}

/// Rendering is injective on lines free of line breaks: the flat text
/// of a document determines its lines, so splitting on CRLF recovers
/// exactly what was rendered.
pub proof fn lemma_render_injective(a: Seq<Seq<char>>, b: Seq<Seq<char>>)
    requires
        forall|k: int| 0 <= k < a.len() ==> crlf_free(#[trigger] a[k]),
        forall|k: int| 0 <= k < b.len() ==> crlf_free(#[trigger] b[k]),
        render(a) == render(b),
    ensures
        a == b,
    decreases a.len(),
{
    if a.len() == 0 {
        if b.len() > 0 {
            lemma_render_first(b);
            assert(render(b).len() >= 2);
            assert(false);
        }
        assert(a =~= b);
    } else if b.len() == 0 {
        lemma_render_first(a);
        assert(render(a).len() >= 2);
        assert(false);
    } else {
        lemma_render_first(a);
        lemma_render_first(b);
        let r = render(a);
        let la = a[0].len() as int;
        let lb = b[0].len() as int;
        if la < lb {
            assert(r[la] == '\r');
            assert(r[la] == b[0][la]);
            assert(false);
        }
        if lb < la {
            assert(r[lb] == '\r');
            assert(r[lb] == a[0][lb]);
            assert(false);
        }
        assert forall|t: int| 0 <= t < la implies a[0][t] == b[0][t] by {
            assert(r[t] == a[0][t]);
            assert(r[t] == b[0][t]);
        }
        assert(a[0] =~= b[0]);
        assert(render(a.drop_first()).len() == r.len() - la - 2);
        assert(render(b.drop_first()).len() == r.len() - la - 2);
        assert forall|t: int| 0 <= t < render(a.drop_first()).len() implies render(
            a.drop_first(),
        )[t] == render(b.drop_first())[t] by {
            assert(r[la + 2 + t] == render(a.drop_first())[t]);
            assert(r[la + 2 + t] == render(b.drop_first())[t]);
        }
        assert(render(a.drop_first()) =~= render(b.drop_first()));
        assert forall|k: int| 0 <= k < a.drop_first().len() implies crlf_free(
            #[trigger] a.drop_first()[k],
        ) by {
            assert(a.drop_first()[k] == a[k + 1]);
        }
        assert forall|k: int| 0 <= k < b.drop_first().len() implies crlf_free(
            #[trigger] b.drop_first()[k],
        ) by {
            assert(b.drop_first()[k] == b[k + 1]);
        }
        lemma_render_injective(a.drop_first(), b.drop_first());
        assert forall|k: int| 0 <= k < a.len() implies a[k] == b[k] by {
            if k > 0 {
                assert(a[k] == a.drop_first()[k - 1]);
                assert(b[k] == b.drop_first()[k - 1]);
            }
        }
        assert(a =~= b);
    }
}

/// Round trip at the document level: two encodings that produce the
/// same text were built from the same lines — title, dates, timezone,
/// timestamp and identifiers included.
pub proof fn lemma_document_text_determines_lines(
    title1: Seq<char>,
    dates1: Seq<SolarDate>,
    tz1: Seq<char>,
    now1: Timestamp,
    seed1: u64,
    title2: Seq<char>,
    dates2: Seq<SolarDate>,
    tz2: Seq<char>,
    now2: Timestamp,
    seed2: u64,
)
    requires
        render(document_lines(title1, dates1, tz1, now1, seed1)) == render(
            document_lines(title2, dates2, tz2, now2, seed2),
        ),
    ensures
        document_lines(title1, dates1, tz1, now1, seed1) == document_lines(
            title2,
            dates2,
            tz2,
            now2,
            seed2,
        ),
{
    lemma_document_lines_crlf_free(title1, dates1, tz1, now1, seed1);
    lemma_document_lines_crlf_free(title2, dates2, tz2, now2, seed2);
    lemma_render_injective(
        document_lines(title1, dates1, tz1, now1, seed1),
        document_lines(title2, dates2, tz2, now2, seed2),
    );
}

/// The compact UTC form names its instant uniquely: well-formed
/// timestamps that print alike are alike.
pub proof fn lemma_utc_stamp_injective(t1: Timestamp, t2: Timestamp)
    requires
        timestamp_wf(t1),
        timestamp_wf(t2),
        utc_stamp(t1) == utc_stamp(t2),
    ensures
        t1 == t2,
{
    let s1 = utc_stamp(t1);
    let s2 = utc_stamp(t2);
    assert forall|t: int| 0 <= t < 4 implies pad4(t1.year as int)[t] == pad4(
        t2.year as int,
    )[t] by {
        assert(s1[t] == pad4(t1.year as int)[t]);
        assert(s2[t] == pad4(t2.year as int)[t]);
    }
    assert(pad4(t1.year as int) =~= pad4(t2.year as int));
    lemma_pad4_injective(t1.year as int, t2.year as int);
    assert forall|t: int| 0 <= t < 2 implies pad2(t1.month as int)[t] == pad2(
        t2.month as int,
    )[t] by {
        assert(s1[4 + t] == pad2(t1.month as int)[t]);
        assert(s2[4 + t] == pad2(t2.month as int)[t]);
    }
    assert(pad2(t1.month as int) =~= pad2(t2.month as int));
    lemma_pad2_injective(t1.month as int, t2.month as int);
    assert forall|t: int| 0 <= t < 2 implies pad2(t1.day as int)[t] == pad2(
        t2.day as int,
    )[t] by {
        assert(s1[6 + t] == pad2(t1.day as int)[t]);
        assert(s2[6 + t] == pad2(t2.day as int)[t]);
    }
    assert(pad2(t1.day as int) =~= pad2(t2.day as int));
    lemma_pad2_injective(t1.day as int, t2.day as int);
    assert forall|t: int| 0 <= t < 2 implies pad2(t1.hour as int)[t] == pad2(
        t2.hour as int,
    )[t] by {
        assert(s1[9 + t] == pad2(t1.hour as int)[t]);
        assert(s2[9 + t] == pad2(t2.hour as int)[t]);
    }
    assert(pad2(t1.hour as int) =~= pad2(t2.hour as int));
    lemma_pad2_injective(t1.hour as int, t2.hour as int);
    assert forall|t: int| 0 <= t < 2 implies pad2(t1.minute as int)[t] == pad2(
        t2.minute as int,
    )[t] by {
        assert(s1[11 + t] == pad2(t1.minute as int)[t]);
        assert(s2[11 + t] == pad2(t2.minute as int)[t]);
    }
    assert(pad2(t1.minute as int) =~= pad2(t2.minute as int));
    lemma_pad2_injective(t1.minute as int, t2.minute as int);
    assert forall|t: int| 0 <= t < 2 implies pad2(t1.second as int)[t] == pad2(
        t2.second as int,
    )[t] by {
        assert(s1[13 + t] == pad2(t1.second as int)[t]);
        assert(s2[13 + t] == pad2(t2.second as int)[t]);
    }
    assert(pad2(t1.second as int) =~= pad2(t2.second as int));
    lemma_pad2_injective(t1.second as int, t2.second as int);
}

/// Encoding at a different wall-clock instant changes the stamp of
/// every entry: the `DTSTAMP` lines of the two documents differ at
/// every entry position.
pub proof fn lemma_fresh_time_changes_stamps(
    title: Seq<char>,
    dates: Seq<SolarDate>,
    tz: Seq<char>,
    now1: Timestamp,
    seed1: u64,
    now2: Timestamp,
    seed2: u64,
)
    requires
        timestamp_wf(now1),
        timestamp_wf(now2),
        now1 != now2,
    ensures
        forall|k: int|
            0 <= k < dates.len() ==> #[trigger] document_lines(title, dates, tz, now1, seed1)[4
                + 6 * k + 2] != document_lines(title, dates, tz, now2, seed2)[4 + 6 * k + 2],
{
    assert forall|k: int| 0 <= k < dates.len() implies #[trigger] document_lines(
        title,
        dates,
        tz,
        now1,
        seed1,
    )[4 + 6 * k + 2] != document_lines(title, dates, tz, now2, seed2)[4 + 6 * k + 2] by {
        lemma_document_line_index(title, dates, tz, now1, seed1, k, 2);
        lemma_document_line_index(title, dates, tz, now2, seed2, k, 2);
        lemma_stamp_line_distinct(tz, now1, now2);
    }
}

/// Prefixing the fixed property name and timezone keeps distinct
/// stamps distinct.
proof fn lemma_stamp_line_distinct(tz: Seq<char>, now1: Timestamp, now2: Timestamp)
    requires
        timestamp_wf(now1),
        timestamp_wf(now2),
        now1 != now2,
    ensures
        "DTSTAMP;TZID="@ + escape_text(tz) + seq![':'] + utc_stamp(now1) != "DTSTAMP;TZID="@
            + escape_text(tz) + seq![':'] + utc_stamp(now2),
{
    let pre = "DTSTAMP;TZID="@ + escape_text(tz) + seq![':'];
    let line1 = pre + utc_stamp(now1);
    let line2 = pre + utc_stamp(now2);
    if line1 == line2 {
        assert forall|t: int| 0 <= t < 16 implies utc_stamp(now1)[t] == utc_stamp(now2)[t] by {
            assert(line1[pre.len() + t] == utc_stamp(now1)[t]);
            assert(line2[pre.len() + t] == utc_stamp(now2)[t]);
        }
        assert(utc_stamp(now1) =~= utc_stamp(now2));
        lemma_utc_stamp_injective(now1, now2);
        assert(false);
    }
}

} // verus!
