//! The calendar file encoder.
//!
//! The output is an iCalendar document: a `VCALENDAR` block holding a
//! version marker, a Gregorian calendar scale, a product identifier,
//! and one all-day `VEVENT` block per solar date. The document is
//! specified line by line — [`document_lines`] gives the sequence of
//! line contents, [`render`] joins them with CRLF — and the encoder's
//! postcondition ties the returned text to exactly that.
//!
//! Entry identifiers and the stamped wall-clock time are not derived
//! from the dates: the caller passes a fresh seed and the current
//! time, so two encodings of the same dates agree on everything but
//! identifiers and timestamps.

use vstd::prelude::*;

use crate::dates::{SolarDate, Timestamp};
use crate::numeral::{decimal, pad2, pad4, push_decimal, push_pad2, push_pad4};
use crate::text::{escape_string, escape_text, push_char};
use vstd::string::StringExecFns;

verus! {

/// The CRLF line terminator.
pub open spec fn crlf() -> Seq<char> {
    seq!['\r', '\n']
}

/// The compact UTC timestamp `YYYYMMDDThhmmssZ`.
pub open spec fn utc_stamp(t: Timestamp) -> Seq<char> {
    pad4(t.year as int) + pad2(t.month as int) + pad2(t.day as int) + seq!['T'] + pad2(
        t.hour as int,
    ) + pad2(t.minute as int) + pad2(t.second as int) + seq!['Z']
}

/// The `YYYYMMDD` form of a solar date.
pub open spec fn date_stamp(d: SolarDate) -> Seq<char> {
    pad4(d.year as int) + pad2(d.month as int) + pad2(d.day as int)
}

/// The identifier of entry `k`: the encoding seed, the entry number,
/// and a fixed domain tag. Within one document the entry number keeps
/// identifiers apart; across documents the seed does.
pub open spec fn uid_text(seed: u64, k: int) -> Seq<char> {
    decimal(seed as int) + seq!['-'] + decimal(k) + "@lunar-ical"@
}

/// The four lines that open every document.
pub open spec fn header_lines() -> Seq<Seq<char>> {
    seq![
        "BEGIN:VCALENDAR"@,
        "VERSION:2.0"@,
        "CALSCALE:GREGORIAN"@,
        "PRODID:-//lunar-ical//heek.kr//"@,
    ]
}

/// The six lines of the `k`-th all-day entry.
pub open spec fn event_lines(
    title: Seq<char>,
    tz: Seq<char>,
    now: Timestamp,
    seed: u64,
    k: int,
    d: SolarDate,
) -> Seq<Seq<char>> {
    seq![
        "BEGIN:VEVENT"@,
        "UID:"@ + uid_text(seed, k),
        "DTSTAMP;TZID="@ + escape_text(tz) + seq![':'] + utc_stamp(now),
        "DTSTART;VALUE=DATE:"@ + date_stamp(d),
        "SUMMARY:"@ + escape_text(title),
        "END:VEVENT"@,
    ]
}

/// The lines of the first `n` entries, in date order.
pub open spec fn events_lines(
    title: Seq<char>,
    tz: Seq<char>,
    now: Timestamp,
    seed: u64,
    dates: Seq<SolarDate>,
    n: int,
) -> Seq<Seq<char>>
    decreases n,
{
    if n <= 0 {
        Seq::empty()
    } else {
        events_lines(title, tz, now, seed, dates, n - 1) + event_lines(
            title,
            tz,
            now,
            seed,
            n - 1,
            dates[n - 1],
        )
    }
}

/// Every line of the finished document, in order.
pub open spec fn document_lines(
    title: Seq<char>,
    dates: Seq<SolarDate>,
    tz: Seq<char>,
    now: Timestamp,
    seed: u64,
) -> Seq<Seq<char>> {
    header_lines() + events_lines(title, tz, now, seed, dates, dates.len() as int) + seq![
        "END:VCALENDAR"@,
    ]
}

/// The transmitted text: each line's content followed by CRLF.
pub open spec fn render(lines: Seq<Seq<char>>) -> Seq<char>
    decreases lines.len(),
{
    if lines.len() == 0 {
        Seq::empty()
    } else {
        render(lines.drop_last()) + lines.last() + crlf()
    }
}

/// Rendering one more line appends its content and a CRLF.
proof fn lemma_render_push(lines: Seq<Seq<char>>, l: Seq<char>)
    ensures
        render(lines.push(l)) == render(lines) + l + crlf(),
{
    assert(lines.push(l).drop_last() =~= lines);
    assert(lines.push(l).last() == l);
}

/// Rendering distributes over concatenation of line lists.
proof fn lemma_render_concat(a: Seq<Seq<char>>, b: Seq<Seq<char>>)
    ensures
        render(a + b) == render(a) + render(b),
    decreases b.len(),
{
    if b.len() == 0 {
        assert(a + b =~= a);
        assert(render(a) + render(b) =~= render(a));
    } else {
        assert((a + b).drop_last() =~= a + b.drop_last());
        lemma_render_concat(a, b.drop_last());
        assert((a + b).last() == b.last());
        assert(render(a) + render(b.drop_last()) + b.last() + crlf() =~= render(a) + (render(
            b.drop_last(),
        ) + b.last() + crlf()));
    }
}

/// One event block, rendered into its own string.
fn event_block(
    title_esc: &String,
    tz_esc: &String,
    now: &Timestamp,
    seed: u64,
    k: u64,
    d: SolarDate,
    Ghost(title): Ghost<Seq<char>>,
    Ghost(tz): Ghost<Seq<char>>,
) -> (out: String)
    requires
        title_esc@ == escape_text(title),
        tz_esc@ == escape_text(tz),
    ensures
        out@ == render(event_lines(title, tz, *now, seed, k as int, d)),
{
    let mut out = String::new();
    let ghost mut lines: Seq<Seq<char>> = Seq::empty();
    out.append("BEGIN:VEVENT\r\n");
    proof {
        reveal_strlit("BEGIN:VEVENT\r\n");
        reveal_strlit("BEGIN:VEVENT");
        lemma_render_push(lines, "BEGIN:VEVENT"@);
        assert(out@ =~= render(lines.push("BEGIN:VEVENT"@)));
        lines = lines.push("BEGIN:VEVENT"@);
    }
    let ghost uid_line = "UID:"@ + uid_text(seed, k as int);
    out.append("UID:");
    push_decimal(&mut out, seed);
    push_char(&mut out, '-');
    push_decimal(&mut out, k);
    out.append("@lunar-ical\r\n");
    proof {
        reveal_strlit("UID:");
        reveal_strlit("@lunar-ical\r\n");
        reveal_strlit("@lunar-ical");
        lemma_render_push(lines, uid_line);
        assert(out@ =~= render(lines.push(uid_line)));
        lines = lines.push(uid_line);
    }
    let ghost stamp_line = "DTSTAMP;TZID="@ + escape_text(tz) + seq![':'] + utc_stamp(*now);
    out.append("DTSTAMP;TZID=");
    out.append(tz_esc.as_str());
    push_char(&mut out, ':');
    push_pad4(&mut out, now.year);
    push_pad2(&mut out, now.month);
    push_pad2(&mut out, now.day);
    push_char(&mut out, 'T');
    push_pad2(&mut out, now.hour);
    push_pad2(&mut out, now.minute);
    push_pad2(&mut out, now.second);
    push_char(&mut out, 'Z');
    out.append("\r\n");
    proof {
        reveal_strlit("DTSTAMP;TZID=");
        reveal_strlit("\r\n");
        lemma_render_push(lines, stamp_line);
        assert(out@ =~= render(lines.push(stamp_line)));
        lines = lines.push(stamp_line);
    }
    let ghost date_line = "DTSTART;VALUE=DATE:"@ + date_stamp(d);
    out.append("DTSTART;VALUE=DATE:");
    push_pad4(&mut out, d.year);
    push_pad2(&mut out, d.month);
    push_pad2(&mut out, d.day);
    out.append("\r\n");
    proof {
        reveal_strlit("DTSTART;VALUE=DATE:");
        reveal_strlit("\r\n");
        lemma_render_push(lines, date_line);
        assert(out@ =~= render(lines.push(date_line)));
        lines = lines.push(date_line);
    }
    let ghost summary_line = "SUMMARY:"@ + escape_text(title);
    out.append("SUMMARY:");
    out.append(title_esc.as_str());
    out.append("\r\n");
    proof {
        reveal_strlit("SUMMARY:");
        reveal_strlit("\r\n");
        lemma_render_push(lines, summary_line);
        assert(out@ =~= render(lines.push(summary_line)));
        lines = lines.push(summary_line);
    }
    out.append("END:VEVENT\r\n");
    proof {
        reveal_strlit("END:VEVENT\r\n");
        reveal_strlit("END:VEVENT");
        lemma_render_push(lines, "END:VEVENT"@);
        assert(out@ =~= render(lines.push("END:VEVENT"@)));
        lines = lines.push("END:VEVENT"@);
        assert(lines =~= event_lines(title, tz, *now, seed, k as int, d));
    }
    out
}

/// Encode a calendar document: one all-day entry per date, in the
/// order given, under the supplied title; every entry is stamped with
/// the supplied wall-clock time, tagged with the supplied timezone
/// identifier, and carries an identifier built from `uid_seed` and the
/// entry number. An empty date sequence yields a valid document with
/// no entries.
pub fn encode(
    title: &str,
    dates: &Vec<SolarDate>,
    tzid: &str,
    now: &Timestamp,
    uid_seed: u64,
) -> (out: String)
    ensures
        out@ == render(document_lines(title@, dates@, tzid@, *now, uid_seed)),
{
    let escaped_title = escape_string(title);
    let escaped_tz = escape_string(tzid);
    let mut out = String::new();
    let ghost mut lines: Seq<Seq<char>> = Seq::empty();
    out.append("BEGIN:VCALENDAR\r\n");
    out.append("VERSION:2.0\r\n");
    out.append("CALSCALE:GREGORIAN\r\n");
    out.append("PRODID:-//lunar-ical//heek.kr//\r\n");
    proof {
        reveal_strlit("BEGIN:VCALENDAR\r\n");
        reveal_strlit("BEGIN:VCALENDAR");
        reveal_strlit("VERSION:2.0\r\n");
        reveal_strlit("VERSION:2.0");
        reveal_strlit("CALSCALE:GREGORIAN\r\n");
        reveal_strlit("CALSCALE:GREGORIAN");
        reveal_strlit("PRODID:-//lunar-ical//heek.kr//\r\n");
        reveal_strlit("PRODID:-//lunar-ical//heek.kr//");
        let l0 = Seq::<Seq<char>>::empty();
        let l1 = l0.push("BEGIN:VCALENDAR"@);
        let l2 = l1.push("VERSION:2.0"@);
        let l3 = l2.push("CALSCALE:GREGORIAN"@);
        let l4 = l3.push("PRODID:-//lunar-ical//heek.kr//"@);
        lemma_render_push(l0, "BEGIN:VCALENDAR"@);
        lemma_render_push(l1, "VERSION:2.0"@);
        lemma_render_push(l2, "CALSCALE:GREGORIAN"@);
        lemma_render_push(l3, "PRODID:-//lunar-ical//heek.kr//"@);
        assert(out@ =~= render(l4));
        assert(l4 =~= header_lines() + events_lines(title@, tzid@, *now, uid_seed, dates@, 0));
        lines = l4;
    }
    let mut k: usize = 0;
    while k < dates.len()
        invariant
            k <= dates@.len(),
            lines == header_lines() + events_lines(
                title@,
                tzid@,
                *now,
                uid_seed,
                dates@,
                k as int,
            ),
            out@ == render(lines),
            escaped_title@ == escape_text(title@),
            escaped_tz@ == escape_text(tzid@),
        decreases dates@.len() - k,
    {
        let d = dates[k];
        let block = event_block(
            &escaped_title,
            &escaped_tz,
            now,
            uid_seed,
            k as u64,
            d,
            Ghost(title@),
            Ghost(tzid@),
        );
        out.append(block.as_str());
        proof {
            let ghost ev = event_lines(title@, tzid@, *now, uid_seed, k as int, dates@[k as int]);
            lemma_render_concat(lines, ev);
            assert(lines + ev =~= header_lines() + events_lines(
                title@,
                tzid@,
                *now,
                uid_seed,
                dates@,
                k + 1,
            ));
            lines = lines + ev;
        }
        k = k + 1;
    }
    out.append("END:VCALENDAR\r\n");
    proof {
        reveal_strlit("END:VCALENDAR\r\n");
        reveal_strlit("END:VCALENDAR");
        lemma_render_push(lines, "END:VCALENDAR"@);
        assert(out@ =~= render(lines.push("END:VCALENDAR"@)));
        lines = lines.push("END:VCALENDAR"@);
        assert(lines =~= document_lines(title@, dates@, tzid@, *now, uid_seed));
    }
    out
}

} // verus!
