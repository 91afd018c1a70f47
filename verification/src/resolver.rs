//! The recurrence resolver: candidate lunar years are scanned in
//! increasing order, years in which the requested month/leap
//! combination does not exist are skipped, and the sequence is cut to
//! the requested number of entries.

use vstd::prelude::*;

use crate::convert::{gregorian_of, lunar_to_solar};
use crate::dates::{solar_lt, strictly_increasing, LunarDate, SolarDate};
use crate::parse::{parse_lunar_date, parse_lunar_spec};

verus! {

/// The part of the lunar coordinate space that the conversion table can
/// be asked about at all: the table keys years by `i32` and months and
/// days by `u8`, and day numbers start at 1. Anything outside has no
/// table entry.
pub open spec fn lunar_in_table_range(year: int, month: int, day: int) -> bool {
    year <= i32::MAX && month <= u8::MAX && 1 <= day <= u8::MAX
}

/// The solar date of the `i`-th candidate lunar year for `base`, if
/// that year has the requested month/leap combination.
pub open spec fn candidate_solar(base: LunarDate, i: int) -> Option<SolarDate> {
    if lunar_in_table_range(base.year + i, base.month as int, base.day as int) {
        gregorian_of(base.year + i, base.month as int, base.is_leap_month, base.day as int)
    } else {
        None
    }
}

/// All solar dates found among the first `n` candidate years, in scan
/// order.
pub open spec fn collected(base: LunarDate, n: int) -> Seq<SolarDate>
    decreases n,
{
    if n <= 0 {
        Seq::empty()
    } else {
        collected(base, n - 1) + match candidate_solar(base, n - 1) {
            Some(s) => seq![s],
            None => Seq::<SolarDate>::empty(),
        }
    }
}

/// What the resolver returns: the dates found within the scan window of
/// `100 * count` candidate years, cut to the first `count`.
pub open spec fn resolve_spec(base: LunarDate, count: int) -> Seq<SolarDate> {
    let found = collected(base, 100 * count);
    if found.len() <= count {
        found
    } else {
        found.take(count)
    }
}

/// A shorter scan collects a prefix of a longer one.
proof fn lemma_collected_prefix(base: LunarDate, m: int, n: int)
    requires
        0 <= m <= n,
    ensures
        collected(base, m).len() <= collected(base, n).len(),
        collected(base, n).take(collected(base, m).len() as int) == collected(base, m),
    decreases n - m,
{
    if m == n {
        assert(collected(base, n).take(collected(base, m).len() as int) =~= collected(base, m));
    } else {
        lemma_collected_prefix(base, m, n - 1);
        assert(collected(base, n).take(collected(base, m).len() as int) =~= collected(base, m));
    }
}

/// Every collected date is the conversion of one of the scanned
/// candidate years.
proof fn lemma_collected_membership(base: LunarDate, n: int)
    ensures
        forall|k: int|
            0 <= k < collected(base, n).len() ==> exists|j: int|
                0 <= j < n && #[trigger] candidate_solar(base, j) == Some(
                    #[trigger] collected(base, n)[k],
                ),
    decreases n,
{
    if n > 0 {
        lemma_collected_membership(base, n - 1);
        assert forall|k: int| 0 <= k < collected(base, n).len() implies exists|j: int|
            0 <= j < n && #[trigger] candidate_solar(base, j) == Some(
                #[trigger] collected(base, n)[k],
            ) by {
            if k < collected(base, n - 1).len() {
                assert(collected(base, n)[k] == collected(base, n - 1)[k]);
                let j0 = choose|j: int|
                    0 <= j < n - 1 && #[trigger] candidate_solar(base, j) == Some(
                        collected(base, n - 1)[k],
                    );
                assert(candidate_solar(base, j0) == Some(collected(base, n)[k]));
            } else {
                assert(candidate_solar(base, n - 1) == Some(collected(base, n)[k]));
            }
        }
    }
}

/// Resolve the recurrence: one solar date per qualifying lunar year,
/// starting at `base.year`, scanning at most `100 * repeat_count`
/// candidate years, and returning at most `repeat_count` dates. Years
/// whose month/leap combination does not exist are skipped, not
/// reported. The result is in strictly increasing calendar order, and
/// every entry is the conversion of a scanned candidate year.
pub fn resolve(base: &LunarDate, repeat_count: usize) -> (dates: Vec<SolarDate>)
    requires
        repeat_count <= usize::MAX / 100,
    ensures
        dates@ == resolve_spec(*base, repeat_count as int),
        dates@.len() <= repeat_count,
        strictly_increasing(dates@),
        forall|k: int|
            0 <= k < dates@.len() ==> exists|j: int|
                0 <= j < 100 * (repeat_count as int) && #[trigger] candidate_solar(*base, j)
                    == Some(#[trigger] dates@[k]),
{
    proof {
        assert(100 * repeat_count <= usize::MAX) by (nonlinear_arith)
            requires
                repeat_count <= usize::MAX / 100,
        ;
    }
    let bound: usize = 100 * repeat_count;
    let mut dates: Vec<SolarDate> = Vec::new();
    let mut i: usize = 0;
    while i < bound && dates.len() < repeat_count
        invariant
            i <= bound,
            bound == 100 * repeat_count,
            repeat_count <= usize::MAX / 100,
            dates@ == collected(*base, i as int),
            dates@.len() <= repeat_count,
            strictly_increasing(dates@),
            forall|k: int|
                0 <= k < dates@.len() ==> exists|j: int|
                    0 <= j < i && #[trigger] candidate_solar(*base, j) == Some(
                        #[trigger] dates@[k],
                    ),
            forall|k: int, y2: int, s2: SolarDate|
                0 <= k < dates@.len() && y2 >= base.year + i && gregorian_of(
                    y2,
                    base.month as int,
                    base.is_leap_month,
                    base.day as int,
                ) == Some::<SolarDate>(s2) ==> solar_lt(dates@[k], s2),
        decreases bound - i,
    {
        let in_range: bool = base.year <= 0x7fff_ffffu32 && (i as u64) <= 0x7fff_ffffu64 - (
        base.year as u64) && base.month <= 0xffu32 && 1 <= base.day && base.day <= 0xffu32;
        if in_range {
            let candidate_year: i32 = (base.year + (i as u32)) as i32;
            let converted = lunar_to_solar(
                candidate_year,
                base.month as u8,
                base.is_leap_month,
                base.day as u8,
            );
            match converted {
                Some(s) => {
                    proof {
                        assert(candidate_year as int == base.year + i);
                        assert(candidate_solar(*base, i as int) == Some(s));
                        assert forall|k: int| 0 <= k < dates@.len() implies solar_lt(
                            dates@[k],
                            s,
                        ) by {
                            assert(gregorian_of(
                                base.year + i,
                                base.month as int,
                                base.is_leap_month,
                                base.day as int,
                            ) == Some::<SolarDate>(s));
                        }
                    }
                    dates.push(s);
                    proof {
                        assert(dates@ =~= collected(*base, i + 1));
                    }
                },
                None => {
                    proof {
                        assert(dates@ =~= collected(*base, i + 1));
                    }
                },
            }
        } else {
            proof {
                assert(candidate_solar(*base, i as int) is None);
                assert(dates@ =~= collected(*base, i + 1));
            }
        }
        i = i + 1;
    }
    proof {
        lemma_collected_prefix(*base, i as int, bound as int);
        let found = collected(*base, bound as int);
        if dates@.len() == repeat_count {
            if found.len() <= repeat_count {
                assert(found.take(dates@.len() as int) =~= found);
                assert(dates@ =~= found);
            } else {
                assert(resolve_spec(*base, repeat_count as int) == found.take(
                    repeat_count as int,
                ));
                assert(dates@ =~= found.take(repeat_count as int));
            }
        } else {
            assert(i == bound);
            assert(dates@ == found);
        }
        lemma_collected_membership(*base, i as int);
        assert forall|k: int| 0 <= k < dates@.len() implies exists|j: int|
            0 <= j < 100 * (repeat_count as int) && #[trigger] candidate_solar(*base, j) == Some(
                #[trigger] dates@[k],
            ) by {
            let j0 = choose|j: int|
                0 <= j < i && #[trigger] candidate_solar(*base, j) == Some(dates@[k]);
            assert(0 <= j0 < 100 * (repeat_count as int) && candidate_solar(*base, j0) == Some(
                dates@[k],
            ));
        }
    }
    dates
}

/// What resolving a raw input string yields: nothing for an
/// unparsable string, the resolved recurrence otherwise.
pub open spec fn resolve_input_spec(s: Seq<char>, is_leap: bool, count: int) -> Seq<SolarDate> {
    match parse_lunar_spec(s, is_leap) {
        Some(base) => resolve_spec(base, count),
        None => Seq::empty(),
    }
}

/// The whole input boundary in one call: parse the raw
/// `"year.month.day"` string, then resolve the recurrence. A string
/// that does not parse yields the empty sequence, never an error.
pub fn resolve_input(s: &str, is_leap: bool, repeat_count: usize) -> (dates: Vec<SolarDate>)
    requires
        repeat_count <= usize::MAX / 100,
    ensures
        dates@ == resolve_input_spec(s@, is_leap, repeat_count as int),
        dates@.len() <= repeat_count,
        strictly_increasing(dates@),
{
    match parse_lunar_date(s, is_leap) {
        Some(base) => resolve(&base, repeat_count),
        None => Vec::new(),
    }
}

/// Resolving is a function of the request alone: two runs over the
/// same base date and repeat count yield the same date sequence. The
/// resolver's postcondition ties its result to `resolve_spec`, so any
/// two calls on equal inputs agree.
pub proof fn lemma_resolve_deterministic(
    base: LunarDate,
    count: int,
    first: Seq<SolarDate>,
    second: Seq<SolarDate>,
)
    requires
        first == resolve_spec(base, count),
        second == resolve_spec(base, count),
    ensures
        first == second,
{
}

} // verus!
