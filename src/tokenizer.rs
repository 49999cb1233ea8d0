//! The executable tokenizer, proved against the model.
use vstd::prelude::*;

use crate::error::ParseError;
use crate::model::{
    at_line_end, closing_quote, delimiter_of, drop_final, field_at, fields_from,
    is_boundary, lemma_closing_quote_bounds, lemma_next_boundary,
    next_boundary, parse_of, prepend, quoted_content, record_of, result_view, CR, LF, QUOTE,
};

verus! {

/// Checks that the delimiter argument is exactly one byte and returns it.
pub fn validate_delimiter(delimiter: &[u8]) -> (r: Result<u8, ParseError>)
    ensures
        r == delimiter_of(delimiter@),
{
    if delimiter.len() != 1 {
        Err(ParseError::InvalidDelimiter)
    } else {
        Ok(delimiter[0])
    }
}

/// Whether a line terminator starts at `i`.
fn line_end_at(s: &[u8], i: usize) -> (r: bool)
    requires
        i < s@.len(),
    ensures
        r == at_line_end(s@, i as int),
{
    s[i] == LF || (s[i] == CR && i + 1 < s.len() && s[i + 1] == LF)
}

/// Reads the unquoted field that starts at `start`.
fn unquoted_field(s: &[u8], d: u8, start: usize) -> (r: Result<(Vec<u8>, usize), ParseError>)
    requires
        start <= s@.len(),
        !(start < s@.len() && s@[start as int] == QUOTE),
    ensures
        match r {
            Ok((f, e)) => field_at(s@, d, start as int) == Ok::<(Seq<u8>, int), ParseError>(
                (f@, e as int),
            ) && start <= e <= s@.len(),
            Err(err) => field_at(s@, d, start as int) == Err::<(Seq<u8>, int), ParseError>(err),
        },
{
    proof {
        lemma_next_boundary(s@, d, start as int);
    }
    let ghost b = next_boundary(s@, d, start as int);
    let mut field: Vec<u8> = Vec::new();
    let mut j: usize = start;
    while j < s.len() && s[j] != d && !line_end_at(s, j)
        invariant
            start <= j <= b <= s@.len(),
            !(start < s@.len() && s@[start as int] == QUOTE),
            b == next_boundary(s@, d, start as int),
            is_boundary(s@, d, b),
            forall|m: int| start <= m < b ==> !is_boundary(s@, d, m),
            field@ == s@.subrange(start as int, j as int),
            !field@.contains(QUOTE),
        decreases s@.len() - j,
    {
        assert(!is_boundary(s@, d, j as int));
        if s[j] == QUOTE {
            proof {
                assert(s@.subrange(start as int, b)[j - start] == QUOTE);
                assert(s@.subrange(start as int, b).contains(QUOTE));
            }
            return Err(ParseError::MalformedRecord);
        }
        field.push(s[j]);
        proof {
            assert(field@ =~= s@.subrange(start as int, j + 1));
        }
        j = j + 1;
    }
    assert(is_boundary(s@, d, j as int));
    assert(j == b);
    Ok((field, j))
}

/// Reads the content of a quoted field from `k`, the byte after the opening
/// quote, up to the closing quote, and returns it with the closing quote's
/// position (the buffer's length when none closes it).
fn quoted_field(s: &[u8], k: usize) -> (r: (Vec<u8>, usize))
    requires
        k <= s@.len(),
    ensures
        r.0@ == quoted_content(s@, k as int),
        r.1 == closing_quote(s@, k as int),
{
    let mut field: Vec<u8> = Vec::new();
    let mut j: usize = k;
    loop
        invariant
            k <= j <= s@.len(),
            quoted_content(s@, k as int) == field@ + quoted_content(s@, j as int),
            closing_quote(s@, k as int) == closing_quote(s@, j as int),
        decreases s@.len() - j,
    {
        if j >= s.len() {
            proof {
                assert(field@ + quoted_content(s@, j as int) =~= field@);
            }
            return (field, j);
        }
        if s[j] == QUOTE {
            if j + 1 < s.len() && s[j + 1] == QUOTE {
                let ghost before = field@;
                field.push(QUOTE);
                proof {
                    assert(before + quoted_content(s@, j as int) =~= field@ + quoted_content(
                        s@,
                        j + 2,
                    ));
                }
                j = j + 2;
            } else {
                proof {
                    assert(field@ + quoted_content(s@, j as int) =~= field@);
                }
                return (field, j);
            }
        } else {
            let ghost before = field@;
            field.push(s[j]);
            proof {
                assert(before + quoted_content(s@, j as int) =~= field@ + quoted_content(
                    s@,
                    j + 1,
                ));
            }
            j = j + 1;
        }
    }
}

/// Finds the next boundary at or after `i`.
fn skip_to_boundary(s: &[u8], d: u8, i: usize) -> (r: usize)
    requires
        i <= s@.len(),
    ensures
        r == next_boundary(s@, d, i as int),
{
    let mut j: usize = i;
    while j < s.len() && s[j] != d && !line_end_at(s, j)
        invariant
            i <= j <= s@.len(),
            next_boundary(s@, d, i as int) == next_boundary(s@, d, j as int),
        decreases s@.len() - j,
    {
        j = j + 1;
    }
    j
}

/// Reads the field that starts at `start` and returns it with the position
/// where it ends.
fn next_field(s: &[u8], d: u8, start: usize) -> (r: Result<(Vec<u8>, usize), ParseError>)
    requires
        start <= s@.len(),
    ensures
        match r {
            Ok((f, e)) => field_at(s@, d, start as int) == Ok::<(Seq<u8>, int), ParseError>(
                (f@, e as int),
            ) && start <= e <= s@.len(),
            Err(err) => field_at(s@, d, start as int) == Err::<(Seq<u8>, int), ParseError>(err),
        },
{
    if start < s.len() && s[start] == QUOTE {
        let (mut content, close) = quoted_field(s, start + 1);
        if close >= s.len() {
            let ghost full = content@;
            if content.len() > 0 {
                content.pop();
            }
            proof {
                assert(content@ =~= drop_final(full));
            }
            Ok((content, s.len()))
        } else {
            proof {
                lemma_closing_quote_bounds(s@, start + 1);
                lemma_next_boundary(s@, d, close + 1);
            }
            let e = skip_to_boundary(s, d, close + 1);
            Ok((content, e))
        }
    } else {
        unquoted_field(s, d, start)
    }
}

/// The first record of `input`, with `delimiter` between fields.
pub fn parse_record(input: &[u8], delimiter: u8) -> (r: Result<Vec<Vec<u8>>, ParseError>)
    ensures
        result_view(r) == record_of(input@, delimiter),
{
    let mut fields: Vec<Vec<u8>> = Vec::new();
    if input.len() == 0 {
        proof {
            assert(fields.deep_view() =~= Seq::<Seq<u8>>::empty());
        }
        return Ok(fields);
    }
    let mut pos: usize = 0;
    loop
        invariant
            0 <= pos <= input@.len(),
            input@.len() > 0,
            record_of(input@, delimiter) == prepend(
                fields.deep_view(),
                fields_from(input@, delimiter, pos as int),
            ),
        decreases input@.len() - pos,
    {
        let ghost before = fields.deep_view();
        match next_field(input, delimiter, pos) {
            Err(err) => {
                return Err(err);
            },
            Ok((field, end)) => {
                let ghost f = field@;
                assert(field.deep_view() =~= f);
                fields.push(field);
                proof {
                    assert(fields.deep_view() =~= before + seq![f]);
                }
                if end < input.len() && input[end] == delimiter && !line_end_at(input, end) {
                    proof {
                        let rest = fields_from(input@, delimiter, end + 1);
                        match rest {
                            Ok(fs) => {
                                assert(before + (seq![f] + fs) =~= fields.deep_view() + fs);
                            },
                            Err(_) => {},
                        }
                    }
                    pos = end + 1;
                } else {
                    return Ok(fields);
                }
            },
        }
    }
}

/// The first record of `input`, after checking that `delimiter` is a
/// single byte.
pub fn parse_csv(input: &[u8], delimiter: &[u8]) -> (r: Result<Vec<Vec<u8>>, ParseError>)
    ensures
        result_view(r) == parse_of(input@, delimiter@),
{
    match validate_delimiter(delimiter) {
        Err(e) => Err(e),
        Ok(d) => parse_record(input, d),
    }
}

} // verus!
