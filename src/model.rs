//! The mathematical model of a record: what the tokenizer returns for a
//! buffer and a delimiter byte.
use vstd::prelude::*;

use crate::error::ParseError;

verus! {

/// The quote byte.
pub const QUOTE: u8 = 34;

/// The line-feed byte.
pub const LF: u8 = 10;

/// The carriage-return byte.
pub const CR: u8 = 13;

/// The delimiter byte used when the caller gives none.
pub const COMMA: u8 = 44;

/// The delimiter that a delimiter argument stands for: its single byte.
pub open spec fn delimiter_of(d: Seq<u8>) -> Result<u8, ParseError> {
    if d.len() == 1 {
        Ok(d[0])
    } else {
        Err(ParseError::InvalidDelimiter)
    }
}

/// A line terminator starts at `i`: a line feed, or a carriage return
/// directly followed by a line feed.
pub open spec fn at_line_end(s: Seq<u8>, i: int) -> bool {
    s[i] == LF || (s[i] == CR && i + 1 < s.len() && s[i + 1] == LF)
}

/// An unquoted field, or the rest of a line after a closing quote, ends at `i`.
pub open spec fn is_boundary(s: Seq<u8>, d: u8, i: int) -> bool {
    i >= s.len() || s[i] == d || at_line_end(s, i)
}

/// The first boundary at or after `i`.
pub open spec fn next_boundary(s: Seq<u8>, d: u8, i: int) -> int
    decreases s.len() - i,
{
    if is_boundary(s, d, i) {
        i
    } else {
        next_boundary(s, d, i + 1)
    }
}

/// The position of the quote that closes a quoted field whose content
/// starts at `k`, or the buffer's length when no quote closes it.
pub open spec fn closing_quote(s: Seq<u8>, k: int) -> int
    decreases s.len() - k,
{
    if k >= s.len() {
        s.len() as int
    } else if s[k] == QUOTE {
        if k + 1 < s.len() && s[k + 1] == QUOTE {
            closing_quote(s, k + 2)
        } else {
            k
        }
    } else {
        closing_quote(s, k + 1)
    }
}

/// The content of a quoted field that starts at `k`, each doubled quote
/// read as one quote byte.
pub open spec fn quoted_content(s: Seq<u8>, k: int) -> Seq<u8>
    decreases s.len() - k,
{
    if k >= s.len() {
        Seq::empty()
    } else if s[k] == QUOTE {
        if k + 1 < s.len() && s[k + 1] == QUOTE {
            seq![QUOTE] + quoted_content(s, k + 2)
        } else {
            Seq::empty()
        }
    } else {
        seq![s[k]] + quoted_content(s, k + 1)
    }
}

/// A sequence without its final element; the empty sequence stays empty.
pub open spec fn drop_final(c: Seq<u8>) -> Seq<u8> {
    if c.len() == 0 {
        c
    } else {
        c.drop_last()
    }
}

/// The field that starts at `i`, and the position where it ends: the
/// delimiter or line terminator after it, or the buffer's length.
///
/// A quoted field keeps delimiters and line terminators as content; what
/// follows its closing quote up to the next boundary is dropped; one that is
/// never closed runs to the end of the buffer and loses its final byte.
/// An unquoted field that holds a quote is malformed.
pub open spec fn field_at(s: Seq<u8>, d: u8, i: int) -> Result<(Seq<u8>, int), ParseError> {
    if i < s.len() && s[i] == QUOTE {
        let close = closing_quote(s, i + 1);
        if close >= s.len() {
            Ok((drop_final(quoted_content(s, i + 1)), s.len() as int))
        } else {
            Ok((quoted_content(s, i + 1), next_boundary(s, d, close + 1)))
        }
    } else {
        let b = next_boundary(s, d, i);
        if s.subrange(i, b).contains(QUOTE) {
            Err(ParseError::MalformedRecord)
        } else {
            Ok((s.subrange(i, b), b))
        }
    }
}

/// After a field that ends at `e`, another field follows: `e` holds the
/// delimiter and no line terminator starts there.
pub open spec fn continues(s: Seq<u8>, d: u8, e: int) -> bool {
    e < s.len() && s[e] == d && !at_line_end(s, e)
}

/// Puts `p` in front of the fields of a successful result.
pub open spec fn prepend(
    p: Seq<Seq<u8>>,
    r: Result<Seq<Seq<u8>>, ParseError>,
) -> Result<Seq<Seq<u8>>, ParseError> {
    match r {
        Ok(fs) => Ok(p + fs),
        Err(e) => Err(e),
    }
}

/// The fields of the record from the field that starts at `i` to its end.
pub open spec fn fields_from(s: Seq<u8>, d: u8, i: int) -> Result<Seq<Seq<u8>>, ParseError>
    decreases s.len() - i,
    when 0 <= i <= s.len()
    via fields_from_decreases
{
    match field_at(s, d, i) {
        Err(e) => Err(e),
        Ok((f, e)) => if continues(s, d, e) {
            prepend(seq![f], fields_from(s, d, e + 1))
        } else {
            Ok(seq![f])
        },
    }
}

#[via_fn]
proof fn fields_from_decreases(s: Seq<u8>, d: u8, i: int) {
    if i < s.len() && s[i] == QUOTE {
        lemma_closing_quote_bounds(s, i + 1);
        let close = closing_quote(s, i + 1);
        if close < s.len() {
            lemma_next_boundary(s, d, close + 1);
        }
    } else {
        lemma_next_boundary(s, d, i);
    }
}

/// The first record of `s` with delimiter byte `d`: no fields for an empty
/// buffer.
pub open spec fn record_of(s: Seq<u8>, d: u8) -> Result<Seq<Seq<u8>>, ParseError> {
    if s.len() == 0 {
        Ok(Seq::empty())
    } else {
        fields_from(s, d, 0)
    }
}

/// What parsing `s` with the delimiter argument `d` gives.
pub open spec fn parse_of(s: Seq<u8>, d: Seq<u8>) -> Result<Seq<Seq<u8>>, ParseError> {
    match delimiter_of(d) {
        Err(e) => Err(e),
        Ok(b) => record_of(s, b),
    }
}

/// The model of a returned record: the bytes of each field.
pub open spec fn result_view(r: Result<Vec<Vec<u8>>, ParseError>) -> Result<
    Seq<Seq<u8>>,
    ParseError,
> {
    match r {
        Ok(v) => Ok(v.deep_view()),
        Err(e) => Err(e),
    }
}

/// `next_boundary` is a boundary at or after `i`, with none between.
pub proof fn lemma_next_boundary(s: Seq<u8>, d: u8, i: int)
    requires
        0 <= i <= s.len(),
    ensures
        i <= next_boundary(s, d, i) <= s.len(),
        is_boundary(s, d, next_boundary(s, d, i)),
        forall|m: int| i <= m < next_boundary(s, d, i) ==> !is_boundary(s, d, m),
    decreases s.len() - i,
{
    if !is_boundary(s, d, i) {
        lemma_next_boundary(s, d, i + 1);
    }
}

/// A closing quote, when there is one, lies at or after `k`.
pub proof fn lemma_closing_quote_bounds(s: Seq<u8>, k: int)
    requires
        0 <= k <= s.len(),
    ensures
        k <= closing_quote(s, k) <= s.len(),
    decreases s.len() - k,
{
    if k < s.len() {
        if s[k] == QUOTE {
            if k + 1 < s.len() && s[k + 1] == QUOTE {
                lemma_closing_quote_bounds(s, k + 2);
            }
        } else {
            lemma_closing_quote_bounds(s, k + 1);
        }
    }
}

} // verus!
