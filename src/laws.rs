//! Properties of the record model, and of the functions that meet it.
use vstd::prelude::*;

use crate::error::ParseError;
use crate::model::{
    at_line_end, closing_quote, field_at, fields_from, is_boundary, lemma_next_boundary,
    next_boundary, parse_of, quoted_content, record_of, result_view, LF, QUOTE,
};

verus! {

/// The fields written one after the other with `d` between each two.
pub open spec fn join(fs: Seq<Seq<u8>>, d: u8) -> Seq<u8>
    decreases fs.len(),
{
    if fs.len() == 0 {
        Seq::empty()
    } else if fs.len() == 1 {
        fs[0]
    } else {
        fs[0] + seq![d] + join(fs.drop_first(), d)
    }
}

/// The bytes of `f` with each quote byte doubled.
pub open spec fn escape(f: Seq<u8>) -> Seq<u8>
    decreases f.len(),
{
    if f.len() == 0 {
        Seq::empty()
    } else {
        (if f[0] == QUOTE {
            seq![QUOTE, QUOTE]
        } else {
            seq![f[0]]
        }) + escape(f.drop_first())
    }
}

/// `f` written as a quoted field.
pub open spec fn quote_field(f: Seq<u8>) -> Seq<u8> {
    seq![QUOTE] + escape(f) + seq![QUOTE]
}

/// Each field written as a quoted field.
pub open spec fn quote_all(fs: Seq<Seq<u8>>) -> Seq<Seq<u8>> {
    fs.map_values(|f: Seq<u8>| quote_field(f))
}

// ---------------------------------------------------------------------------
// A line without quotes or line feeds is split on the delimiter.

proof fn lemma_plain_fields_from(s: Seq<u8>, d: u8, i: int)
    requires
        0 <= i <= s.len(),
        !s.contains(QUOTE),
        !s.contains(LF),
    ensures
        fields_from(s, d, i) is Ok,
        fields_from(s, d, i)->Ok_0.len() > 0,
        join(fields_from(s, d, i)->Ok_0, d) == s.subrange(i, s.len() as int),
        forall|k: int|
            0 <= k < fields_from(s, d, i)->Ok_0.len() ==> !(#[trigger] fields_from(
                s,
                d,
                i,
            )->Ok_0[k]).contains(d),
    decreases s.len() - i,
{
    lemma_next_boundary(s, d, i);
    let b = next_boundary(s, d, i);
    let sub = s.subrange(i, b);
    assert forall|k: int| 0 <= k < sub.len() implies sub[k] != QUOTE && sub[k] != d by {
        assert(sub[k] == s[i + k]);
        assert(!is_boundary(s, d, i + k));
    }
    assert(field_at(s, d, i) == Ok::<(Seq<u8>, int), ParseError>((sub, b)));
    if b < s.len() {
        assert(s[b] != LF);
        assert(!at_line_end(s, b));
        assert(s[b] == d);
        lemma_plain_fields_from(s, d, b + 1);
        let rest = fields_from(s, d, b + 1)->Ok_0;
        let all = seq![sub] + rest;
        assert(fields_from(s, d, i) == Ok::<Seq<Seq<u8>>, ParseError>(all));
        assert(all.drop_first() =~= rest);
        assert(join(all, d) == sub + seq![d] + join(rest, d));
        assert(join(all, d) =~= s.subrange(i, s.len() as int));
        assert forall|k: int| 0 <= k < all.len() implies !(#[trigger] all[k]).contains(d) by {
            if k > 0 {
                assert(all[k] == rest[k - 1]);
            }
        }
    } else {
        assert(fields_from(s, d, i) == Ok::<Seq<Seq<u8>>, ParseError>(seq![sub]));
    }
}

/// A non-empty line that holds no quote byte and no line feed gives the
/// pieces between its delimiters: joined with the delimiter they give the
/// line back, and none of them holds the delimiter.
pub proof fn lemma_plain_line_splits(s: Seq<u8>, d: u8)
    requires
        s.len() > 0,
        !s.contains(QUOTE),
        !s.contains(LF),
    ensures
        record_of(s, d) is Ok,
        join(record_of(s, d)->Ok_0, d) == s,
        forall|k: int|
            0 <= k < record_of(s, d)->Ok_0.len() ==> !(#[trigger] record_of(
                s,
                d,
            )->Ok_0[k]).contains(d),
{
    lemma_plain_fields_from(s, d, 0);
    assert(s.subrange(0, s.len() as int) =~= s);
}

// ---------------------------------------------------------------------------
// Quoted fields read back as written.

proof fn lemma_quoted_scan(a: Seq<u8>, f: Seq<u8>, t: Seq<u8>)
    requires
        t.len() == 0 || t[0] != QUOTE,
    ensures
        closing_quote(a + escape(f) + seq![QUOTE] + t, a.len() as int) == a.len() + escape(
            f,
        ).len(),
        quoted_content(a + escape(f) + seq![QUOTE] + t, a.len() as int) == f,
    decreases f.len(),
{
    let s = a + escape(f) + seq![QUOTE] + t;
    let k = a.len() as int;
    if f.len() == 0 {
        assert(escape(f) =~= Seq::<u8>::empty());
        assert(s[k] == QUOTE);
        if k + 1 < s.len() {
            assert(s[k + 1] == t[0]);
        }
        assert(quoted_content(s, k) =~= f);
    } else {
        let rest = f.drop_first();
        let chunk = if f[0] == QUOTE {
            seq![QUOTE, QUOTE]
        } else {
            seq![f[0]]
        };
        assert(escape(f) == chunk + escape(rest));
        let a2 = a + chunk;
        assert(s =~= a2 + escape(rest) + seq![QUOTE] + t);
        lemma_quoted_scan(a2, rest, t);
        assert(s[k] == chunk[0]);
        if f[0] == QUOTE {
            assert(s[k + 1] == QUOTE);
            assert(quoted_content(s, k) == seq![QUOTE] + quoted_content(s, k + 2));
            assert(seq![QUOTE] + rest =~= f);
        } else {
            assert(quoted_content(s, k) == seq![f[0]] + quoted_content(s, k + 1));
            assert(seq![f[0]] + rest =~= f);
        }
    }
}

proof fn lemma_join_quoted_starts_with_quote(fs: Seq<Seq<u8>>, d: u8)
    requires
        fs.len() > 0,
    ensures
        join(quote_all(fs), d).len() > 0,
        join(quote_all(fs), d)[0] == QUOTE,
{
    let q = quote_all(fs);
    assert(q[0] == quote_field(fs[0]));
    if fs.len() > 1 {
        assert(join(q, d) == q[0] + seq![d] + join(q.drop_first(), d));
    }
}

proof fn lemma_round_trip_from(a: Seq<u8>, fs: Seq<Seq<u8>>, d: u8)
    requires
        fs.len() > 0,
        d != QUOTE,
        d != LF,
    ensures
        fields_from(a + join(quote_all(fs), d), d, a.len() as int) == Ok::<
            Seq<Seq<u8>>,
            ParseError,
        >(fs),
    decreases fs.len(),
{
    let q = quote_all(fs);
    let s = a + join(q, d);
    let f = fs[0];
    let rest = fs.drop_first();
    let i = a.len() as int;
    assert(q[0] == quote_field(f));
    let t = if fs.len() == 1 {
        Seq::<u8>::empty()
    } else {
        seq![d] + join(quote_all(rest), d)
    };
    if fs.len() > 1 {
        assert(q.drop_first() =~= quote_all(rest));
        assert(join(q, d) == q[0] + seq![d] + join(q.drop_first(), d));
    }
    assert(s =~= (a + seq![QUOTE]) + escape(f) + seq![QUOTE] + t);
    assert(s[i] == QUOTE);
    lemma_quoted_scan(a + seq![QUOTE], f, t);
    let close = i + 1 + escape(f).len();
    assert(close < s.len());
    assert(is_boundary(s, d, close + 1));
    assert(next_boundary(s, d, close + 1) == close + 1);
    assert(field_at(s, d, i) == Ok::<(Seq<u8>, int), ParseError>((f, close + 1)));
    if fs.len() == 1 {
        assert(s.len() == close + 1);
        assert(seq![f] =~= fs);
    } else {
        let e = close + 1;
        assert(s[e] == d);
        lemma_join_quoted_starts_with_quote(rest, d);
        assert(s[e + 1] == QUOTE);
        assert(!at_line_end(s, e));
        let a2 = a + quote_field(f) + seq![d];
        assert(s =~= a2 + join(quote_all(rest), d));
        lemma_round_trip_from(a2, rest, d);
        assert(seq![f] + rest =~= fs);
    }
}

/// Fields written as quoted fields, each quote inside doubled, and joined
/// with a delimiter other than the quote and the line feed, parse back to
/// the same fields: whatever bytes they hold, delimiters and line
/// terminators included.
pub proof fn lemma_quoted_round_trip(fs: Seq<Seq<u8>>, d: u8)
    requires
        d != QUOTE,
        d != LF,
    ensures
        record_of(join(quote_all(fs), d), d) == Ok::<Seq<Seq<u8>>, ParseError>(fs),
{
    if fs.len() == 0 {
        assert(fs =~= Seq::<Seq<u8>>::empty());
    } else {
        lemma_join_quoted_starts_with_quote(fs, d);
        let s = join(quote_all(fs), d);
        assert(Seq::<u8>::empty() + s =~= s);
        lemma_round_trip_from(Seq::empty(), fs, d);
    }
}

// ---------------------------------------------------------------------------
// Nothing after the first line terminator is read.

proof fn lemma_boundary_before_line_feed(s1: Seq<u8>, s2: Seq<u8>, n: int, d: u8, j: int)
    requires
        0 <= j <= n,
        n < s1.len(),
        n < s2.len(),
        s1[n] == LF,
        forall|m: int| 0 <= m <= n ==> s1[m] == s2[m],
    ensures
        next_boundary(s1, d, j) == next_boundary(s2, d, j),
        next_boundary(s1, d, j) <= n,
    decreases n - j,
{
    if j < n {
        assert(s1[j] == s2[j] && s1[j + 1] == s2[j + 1]);
        assert(at_line_end(s1, j) == at_line_end(s2, j));
        if !is_boundary(s1, d, j) {
            lemma_boundary_before_line_feed(s1, s2, n, d, j + 1);
        }
    } else {
        assert(at_line_end(s1, j) && at_line_end(s2, j));
    }
}

proof fn lemma_fields_before_line_feed(s: Seq<u8>, t: Seq<u8>, d: u8, i: int)
    requires
        0 <= i <= s.len(),
        !s.contains(QUOTE),
    ensures
        fields_from(s + seq![LF] + t, d, i) == fields_from(s + seq![LF], d, i),
    decreases s.len() - i,
{
    let s1 = s + seq![LF] + t;
    let s2 = s + seq![LF];
    let n = s.len() as int;
    assert forall|m: int| 0 <= m <= n implies s1[m] == s2[m] by {}
    if i < n {
        assert(s[i] != QUOTE);
    }
    lemma_boundary_before_line_feed(s1, s2, n, d, i);
    lemma_next_boundary(s1, d, i);
    let b = next_boundary(s1, d, i);
    assert(s1.subrange(i, b) =~= s2.subrange(i, b));
    assert(field_at(s1, d, i) == field_at(s2, d, i));
    if b < n {
        assert(s1[b] == s2[b] && s1[b + 1] == s2[b + 1]);
        assert(at_line_end(s1, b) == at_line_end(s2, b));
        if !s1.subrange(i, b).contains(QUOTE) {
            lemma_fields_before_line_feed(s, t, d, b + 1);
        }
    } else {
        assert(at_line_end(s1, b) && at_line_end(s2, b));
    }
}

/// Bytes after the line feed that ends a quote-free first line are never
/// read: the record is the same whatever follows.
pub proof fn lemma_first_line_only(s: Seq<u8>, t: Seq<u8>, d: u8)
    requires
        !s.contains(QUOTE),
    ensures
        record_of(s + seq![LF] + t, d) == record_of(s + seq![LF], d),
{
    lemma_fields_before_line_feed(s, t, d, 0);
}

// ---------------------------------------------------------------------------
// Calls and their results.

/// Two results that each meet the contract of parsing one input with one
/// delimiter hold the same fields: parsing keeps no state between calls.
pub proof fn lemma_parse_repeatable(
    input: Seq<u8>,
    delimiter: Seq<u8>,
    first: Result<Vec<Vec<u8>>, ParseError>,
    second: Result<Vec<Vec<u8>>, ParseError>,
)
    requires
        result_view(first) == parse_of(input, delimiter),
        result_view(second) == parse_of(input, delimiter),
    ensures
        result_view(first) == result_view(second),
        first is Ok <==> second is Ok,
{
}

/// An empty input with a valid delimiter gives an empty record, not an error.
pub proof fn lemma_empty_input(delimiter: Seq<u8>)
    requires
        delimiter.len() == 1,
    ensures
        parse_of(Seq::empty(), delimiter) == Ok::<Seq<Seq<u8>>, ParseError>(Seq::empty()),
{
}

/// A delimiter argument that is not one byte long is refused, whatever the
/// input.
pub proof fn lemma_invalid_delimiter(input: Seq<u8>, delimiter: Seq<u8>)
    requires
        delimiter.len() != 1,
    ensures
        parse_of(input, delimiter) == Err::<Seq<Seq<u8>>, ParseError>(
            ParseError::InvalidDelimiter,
        ),
{
}

// ---------------------------------------------------------------------------
// A quote inside an unquoted field.

/// A record whose first field does not start with a quote, but holds one
/// before its first delimiter or line terminator, is refused as malformed
/// (the delimiter being another byte than the quote).
pub proof fn lemma_quote_inside_first_field(s: Seq<u8>, d: u8, m: int)
    requires
        0 < m < s.len(),
        d != QUOTE,
        s[0] != QUOTE,
        s[m] == QUOTE,
        forall|k: int| 0 <= k < m ==> !is_boundary(s, d, k),
    ensures
        record_of(s, d) == Err::<Seq<Seq<u8>>, ParseError>(ParseError::MalformedRecord),
{
    lemma_next_boundary(s, d, 0);
    let b = next_boundary(s, d, 0);
    assert(!is_boundary(s, d, 0));
    assert(!is_boundary(s, d, m));
    if b < m {
        assert(is_boundary(s, d, b));
    }
    assert(s.subrange(0, b)[m] == QUOTE);
    assert(s.subrange(0, b).contains(QUOTE));
}

} // verus!
