//! Character-level text building and iCalendar TEXT escaping.

use vstd::prelude::*;

use vstd::string::StrSliceExecFns;

use crate::parse::is_digit;

verus! {

/// Relies on `String::push`: it appends exactly the given character to
/// the end of the string.
#[verifier::external_body]
pub(crate) fn push_char(out: &mut String, c: char)
    ensures
        final (out)@ == old(out)@.push(c),
{
    out.push(c);
}

/// `s` contains no carriage return and no line feed, so it fits on one
/// line of a CRLF-delimited document.
pub open spec fn crlf_free(s: Seq<char>) -> bool {
    forall|k: int| 0 <= k < s.len() ==> #[trigger] s[k] != '\r' && s[k] != '\n'
}

/// A run of digit characters stays on one line.
pub proof fn lemma_digits_crlf_free(s: Seq<char>)
    requires
        forall|k: int| 0 <= k < s.len() ==> is_digit(#[trigger] s[k]),
    ensures
        crlf_free(s),
{
}

/// Concatenation keeps freedom from line breaks.
pub proof fn lemma_crlf_free_concat(a: Seq<char>, b: Seq<char>)
    requires
        crlf_free(a),
        crlf_free(b),
    ensures
        crlf_free(a + b),
{
    assert forall|k: int| 0 <= k < (a + b).len() implies #[trigger] (a + b)[k] != '\r' && (a
        + b)[k] != '\n' by {
        if k < a.len() {
            assert((a + b)[k] == a[k]);
        } else {
            assert((a + b)[k] == b[k - a.len()]);
        }
    }
}

/// How one character is written inside an iCalendar TEXT value:
/// backslash, semicolon and comma get a backslash; a line feed becomes
/// the two characters `\n`; a carriage return is dropped; everything
/// else stands as it is.
pub open spec fn escape_char(c: char) -> Seq<char> {
    if c == '\\' {
        seq!['\\', '\\']
    } else if c == ';' {
        seq!['\\', ';']
    } else if c == ',' {
        seq!['\\', ',']
    } else if c == '\n' {
        seq!['\\', 'n']
    } else if c == '\r' {
        Seq::empty()
    } else {
        seq![c]
    }
}

/// A free-text value written safely into an iCalendar TEXT field, one
/// character at a time.
pub open spec fn escape_text(s: Seq<char>) -> Seq<char>
    decreases s.len(),
{
    if s.len() == 0 {
        Seq::empty()
    } else {
        escape_text(s.drop_last()) + escape_char(s.last())
    }
}

/// Escaping one more character appends its escape.
proof fn lemma_escape_text_push(s: Seq<char>, c: char)
    ensures
        escape_text(s.push(c)) == escape_text(s) + escape_char(c),
{
    assert(s.push(c).drop_last() =~= s);
    assert(s.push(c).last() == c);
}

/// Escaped text never holds a line break, whatever the input: that is
/// the point of escaping.
pub proof fn lemma_escape_crlf_free(s: Seq<char>)
    ensures
        crlf_free(escape_text(s)),
    decreases s.len(),
{
    if s.len() > 0 {
        lemma_escape_crlf_free(s.drop_last());
        lemma_crlf_free_concat(escape_text(s.drop_last()), escape_char(s.last()));
    }
}

/// Escape a free-text value for embedding in a TEXT field.
pub fn escape_string(s: &str) -> (out: String)
    ensures
        out@ == escape_text(s@),
{
    let n = s.unicode_len();
    let mut out = String::new();
    let mut i: usize = 0;
    while i < n
        invariant
            i <= n,
            n == s@.len(),
            out@ == escape_text(s@.take(i as int)),
        decreases n - i,
    {
        let c = s.get_char(i);
        if c == '\\' {
            push_char(&mut out, '\\');
            push_char(&mut out, '\\');
        } else if c == ';' {
            push_char(&mut out, '\\');
            push_char(&mut out, ';');
        } else if c == ',' {
            push_char(&mut out, '\\');
            push_char(&mut out, ',');
        } else if c == '\n' {
            push_char(&mut out, '\\');
            push_char(&mut out, 'n');
        } else if c == '\r' {
            // dropped: a carriage return has no representation in a TEXT value
        } else {
            push_char(&mut out, c);
        }
        proof {
            lemma_escape_text_push(s@.take(i as int), c);
            assert(s@.take(i as int).push(c) =~= s@.take(i + 1));
            assert(out@ =~= escape_text(s@.take(i as int)) + escape_char(c));
        }
        i = i + 1;
    }
    proof {
        assert(s@.take(n as int) =~= s@);
    }
    out
}

} // verus!
