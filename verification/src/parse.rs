//! Parsing of the raw `"year.month.day"` input string.
//!
//! A string parses exactly when it decomposes into three dot-separated,
//! non-empty runs of decimal digits whose values are positive and fit
//! in 32 bits. Anything else is a parse failure; the resolver is then
//! never invoked.

use vstd::prelude::*;

use vstd::string::StrSliceExecFns;

use crate::dates::LunarDate;

verus! {

/// A decimal digit character.
pub open spec fn is_digit(c: char) -> bool {
    '0' <= c && c <= '9'
}

/// Every character of `s` is a decimal digit.
pub open spec fn all_digits(s: Seq<char>) -> bool {
    forall|k: int| 0 <= k < s.len() ==> is_digit(#[trigger] s[k])
}

/// A non-empty run of decimal digits.
pub open spec fn is_part(s: Seq<char>) -> bool {
    s.len() >= 1 && all_digits(s)
}

/// The numeric value of a digit run, most significant digit first.
pub open spec fn digits_val(s: Seq<char>) -> int
    decreases s.len(),
{
    if s.len() == 0 {
        0
    } else {
        digits_val(s.drop_last()) * 10 + (s.last() as u32 - 48)
    }
}

/// `s` is `a`, a dot, `b`, a dot, `c`, where the three parts are
/// non-empty digit runs.
pub open spec fn is_decomposition(
    s: Seq<char>,
    a: Seq<char>,
    b: Seq<char>,
    c: Seq<char>,
) -> bool {
    s == a + seq!['.'] + b + seq!['.'] + c && is_part(a) && is_part(b) && is_part(c)
}

/// Some decomposition of `s` into three digit runs exists.
pub open spec fn has_decomposition(s: Seq<char>) -> bool {
    exists|abc: (Seq<char>, Seq<char>, Seq<char>)|
        is_decomposition(s, abc.0, abc.1, abc.2)
}

/// The decomposition of `s`; meaningful only when one exists (and it is
/// then unique).
pub open spec fn decomposition_of(s: Seq<char>) -> (Seq<char>, Seq<char>, Seq<char>) {
    choose|abc: (Seq<char>, Seq<char>, Seq<char>)|
        is_decomposition(s, abc.0, abc.1, abc.2)
}

/// The three integers parsed from `s`: `Some` exactly when `s`
/// decomposes into three digit runs whose values are positive and fit
/// in `u32`.
pub open spec fn parse_spec(s: Seq<char>) -> Option<(u32, u32, u32)> {
    if has_decomposition(s) {
        let (a, b, c) = decomposition_of(s);
        if 1 <= digits_val(a) <= u32::MAX && 1 <= digits_val(b) <= u32::MAX && 1 <= digits_val(c)
            <= u32::MAX {
            Some((digits_val(a) as u32, digits_val(b) as u32, digits_val(c) as u32))
        } else {
            None
        }
    } else {
        None
    }
}

/// The lunar date parsed from `s` together with the leap-month flag.
pub open spec fn parse_lunar_spec(s: Seq<char>, is_leap: bool) -> Option<LunarDate> {
    match parse_spec(s) {
        Some((y, m, d)) => Some(
            LunarDate { year: y, month: m, is_leap_month: is_leap, day: d },
        ),
        None => None,
    }
}

/// In a decomposition the dots sit exactly at the two separator
/// positions; every other character is a digit.
proof fn lemma_decomposition_dots(s: Seq<char>, a: Seq<char>, b: Seq<char>, c: Seq<char>)
    requires
        is_decomposition(s, a, b, c),
    ensures
        s.len() == a.len() + b.len() + c.len() + 2,
        s[a.len() as int] == '.',
        s[(a.len() + b.len() + 1) as int] == '.',
        forall|k: int|
            0 <= k < s.len() && k != a.len() && k != a.len() + b.len() + 1 ==> is_digit(
                #[trigger] s[k],
            ),
{
    assert(s.len() == a.len() + b.len() + c.len() + 2);
    assert(s[a.len() as int] == '.');
    assert(s[(a.len() + b.len() + 1) as int] == '.');
    assert forall|k: int|
        0 <= k < s.len() && k != a.len() && k != a.len() + b.len() + 1 implies is_digit(
        s[k],
    ) by {
        if k < a.len() {
            assert(s[k] == a[k]);
        } else if k < a.len() + 1 + b.len() {
            assert(s[k] == b[k - a.len() - 1]);
        } else {
            assert(s[k] == c[k - a.len() - b.len() - 2]);
        }
    }
}

/// When the dots of `s` are exactly at `i` and `j`, any decomposition
/// is cut at those positions, so it is unique.
proof fn lemma_decomposition_determined(
    s: Seq<char>,
    a: Seq<char>,
    b: Seq<char>,
    c: Seq<char>,
    i: int,
    j: int,
)
    requires
        is_decomposition(s, a, b, c),
        0 <= i < j < s.len(),
        s[i] == '.',
        s[j] == '.',
        forall|k: int| 0 <= k < s.len() && #[trigger] s[k] == '.' ==> k == i || k == j,
    ensures
        a == s.subrange(0, i),
        b == s.subrange(i + 1, j),
        c == s.subrange(j + 1, s.len() as int),
{
    lemma_decomposition_dots(s, a, b, c);
    let p = a.len() as int;
    let q: int = a.len() as int + b.len() as int + 1;
    assert(p == i || p == j);
    assert(q == i || q == j);
    assert(p < q);
    assert(p == i && q == j);
    assert(a =~= s.subrange(0, i));
    assert(b =~= s.subrange(i + 1, j));
    assert(c =~= s.subrange(j + 1, s.len() as int));
}

/// The value of a digit run is at least the value of any of its
/// prefixes.
proof fn lemma_digits_val_bounds(s: Seq<char>, m: int)
    requires
        0 <= m <= s.len(),
        all_digits(s),
    ensures
        0 <= digits_val(s.take(m)) <= digits_val(s),
    decreases s.len(),
{
    if s.len() == 0 {
        assert(s.take(m) =~= s);
    } else if m == s.len() {
        assert(s.take(m) =~= s);
        assert(all_digits(s.drop_last()));
        lemma_digits_val_bounds(s.drop_last(), s.len() - 1);
        assert(s.drop_last().take(s.len() - 1) =~= s.drop_last());
    } else {
        assert(all_digits(s.drop_last()));
        assert(s.take(m) =~= s.drop_last().take(m));
        lemma_digits_val_bounds(s.drop_last(), m);
        lemma_digits_val_bounds(s.drop_last(), s.drop_last().len() as int);
        assert(s.drop_last().take(s.drop_last().len() as int) =~= s.drop_last());
        assert(digits_val(s) == digits_val(s.drop_last()) * 10 + (s.last() as u32 - 48));
        assert(digits_val(s.drop_last()) * 10 >= digits_val(s.drop_last())) by (nonlinear_arith)
            requires
                digits_val(s.drop_last()) >= 0,
        ;
    }
}

/// Read one dot-separated part: `Some` exactly when the range is a
/// non-empty digit run whose value is positive and fits in `u32`.
fn parse_part(s: &str, from: usize, to: usize) -> (r: Option<u32>)
    requires
        from <= to <= s@.len(),
    ensures
        ({
            let part = s@.subrange(from as int, to as int);
            match r {
                Some(v) => is_part(part) && digits_val(part) == v && v >= 1,
                None => !(is_part(part) && 1 <= digits_val(part) <= u32::MAX),
            }
        }),
{
    let ghost part = s@.subrange(from as int, to as int);
    if from == to {
        return None;
    }
    let mut v: u32 = 0;
    let mut k: usize = from;
    while k < to
        invariant
            from <= k <= to <= s@.len(),
            part == s@.subrange(from as int, to as int),
            all_digits(s@.subrange(from as int, k as int)),
            v == digits_val(s@.subrange(from as int, k as int)),
        decreases to - k,
    {
        let c = s.get_char(k);
        let code = c as u32;
        let ghost prefix = s@.subrange(from as int, k as int);
        let ghost prefix1 = s@.subrange(from as int, k + 1);
        proof {
            assert(prefix1.drop_last() =~= prefix);
            assert(prefix1.last() == s@[k as int]);
        }
        if code < 48 || code > 57 {
            proof {
                assert(!is_digit(part[k - from]));
            }
            return None;
        }
        let d: u32 = code - 48;
        if v > (u32::MAX - d) / 10 {
            proof {
                assert(v * 10 + d > u32::MAX) by (nonlinear_arith)
                    requires
                        v > (u32::MAX - d) / 10,
                        d <= 9,
                ;
                assert(digits_val(prefix1) == v * 10 + d);
                assert(all_digits(prefix1));
                assert(prefix1 =~= part.take(k + 1 - from));
                if is_part(part) {
                    lemma_digits_val_bounds(part, k + 1 - from);
                }
            }
            return None;
        }
        proof {
            assert(v * 10 + d <= u32::MAX) by (nonlinear_arith)
                requires
                    v <= (u32::MAX - d) / 10,
                    d <= 9,
            ;
            assert(digits_val(prefix1) == v * 10 + d);
        }
        v = v * 10 + d;
        k = k + 1;
    }
    proof {
        assert(s@.subrange(from as int, k as int) =~= part);
    }
    if v == 0 {
        return None;
    }
    Some(v)
}

/// Parse a raw `"year.month.day"` string, as typed by the user,
/// together with the leap-month flag. Exactly the strings made of
/// three dot-separated, non-empty digit runs with positive 32-bit
/// values parse; everything else yields `None`.
pub fn parse_lunar_date(s: &str, is_leap: bool) -> (r: Option<LunarDate>)
    ensures
        r == parse_lunar_spec(s@, is_leap),
{
    let n = s.unicode_len();
    let mut d1: usize = 0;
    let mut found1 = false;
    let mut d2: usize = 0;
    let mut found2 = false;
    let mut i: usize = 0;
    while i < n
        invariant
            i <= n,
            n == s@.len(),
            found2 ==> found1,
            found1 ==> d1 < i && s@[d1 as int] == '.',
            found2 ==> d1 < d2 < i && s@[d2 as int] == '.',
            forall|k: int|
                0 <= k < i && #[trigger] s@[k] == '.' ==> (found1 && k == d1) || (found2 && k
                    == d2),
        decreases n - i,
    {
        let c = s.get_char(i);
        if c == '.' {
            if !found1 {
                d1 = i;
                found1 = true;
            } else if !found2 {
                d2 = i;
                found2 = true;
            } else {
                proof {
                    if has_decomposition(s@) {
                        let abc = decomposition_of(s@);
                        assert(is_decomposition(s@, abc.0, abc.1, abc.2));
                        lemma_decomposition_dots(s@, abc.0, abc.1, abc.2);
                        let p = abc.0.len() as int;
                        let q: int = abc.0.len() as int + abc.1.len() as int + 1;
                        assert(s@[d1 as int] == '.' && s@[d2 as int] == '.' && s@[i as int]
                            == '.');
                        assert(d1 == p || d1 == q);
                        assert(d2 == p || d2 == q);
                        assert(i == p || i == q);
                        assert(false);
                    }
                }
                return None;
            }
        }
        i = i + 1;
    }
    if !found2 {
        proof {
            if has_decomposition(s@) {
                let abc = decomposition_of(s@);
                assert(is_decomposition(s@, abc.0, abc.1, abc.2));
                lemma_decomposition_dots(s@, abc.0, abc.1, abc.2);
                let p = abc.0.len() as int;
                let q: int = abc.0.len() as int + abc.1.len() as int + 1;
                assert(s@[p] == '.' && s@[q] == '.');
                assert(p < q);
                assert(false);
            }
        }
        return None;
    }
    let ghost pa = s@.subrange(0, d1 as int);
    let ghost pb = s@.subrange(d1 + 1, d2 as int);
    let ghost pc = s@.subrange(d2 + 1, s@.len() as int);
    proof {
        if has_decomposition(s@) {
            let abc = decomposition_of(s@);
            assert(is_decomposition(s@, abc.0, abc.1, abc.2));
            lemma_decomposition_determined(s@, abc.0, abc.1, abc.2, d1 as int, d2 as int);
            assert(abc.0 == pa && abc.1 == pb && abc.2 == pc);
        }
    }
    let ry = parse_part(s, 0, d1);
    let rm = parse_part(s, d1 + 1, d2);
    let rd = parse_part(s, d2 + 1, n);
    match (ry, rm, rd) {
        (Some(y), Some(m), Some(d)) => {
            proof {
                assert(s@ =~= pa + seq!['.'] + pb + seq!['.'] + pc);
                let witness = (pa, pb, pc);
                assert(is_decomposition(s@, witness.0, witness.1, witness.2));
                assert(has_decomposition(s@));
            }
            Some(LunarDate { year: y, month: m, is_leap_month: is_leap, day: d })
        },
        _ => {
            proof {
                if has_decomposition(s@) {
                    assert(decomposition_of(s@) == (pa, pb, pc));
                }
            }
            None
        },
    }
}

} // verus!
