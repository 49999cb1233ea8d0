use csv_record::error::ParseError;
use csv_record::function::ParseCsv;
use csv_record::tokenizer::parse_csv;

fn fields(input: &[u8], delimiter: &[u8]) -> Result<Vec<Vec<u8>>, ParseError> {
    parse_csv(input, delimiter)
}

fn strs(v: &[&str]) -> Vec<Vec<u8>> {
    v.iter().map(|s| s.as_bytes().to_vec()).collect()
}

fn call(value: &str) -> Result<Vec<Vec<u8>>, ParseError> {
    ParseCsv.resolve(value.as_bytes(), None)
}

fn call_with(value: &str, delimiter: &str) -> Result<Vec<Vec<u8>>, ParseError> {
    ParseCsv.resolve(value.as_bytes(), Some(delimiter.as_bytes()))
}

#[test]
fn valid() {
    assert_eq!(call("foo,bar,\"foo \"\", bar\""), Ok(strs(&["foo", "bar", "foo \", bar"])));
}

#[test]
fn invalid_utf8() {
    assert_eq!(
        ParseCsv.resolve(&b"foo,b\xFFar"[..], None),
        Ok(vec![b"foo".to_vec(), b"b\xFFar".to_vec()])
    );
}

#[test]
fn custom_delimiter() {
    assert_eq!(call_with("foo bar", " "), Ok(strs(&["foo", "bar"])));
}

#[test]
fn invalid_delimiter() {
    let r = call_with("foo bar", ",,");
    assert_eq!(r, Err(ParseError::InvalidDelimiter));
    assert_eq!(r.unwrap_err().message(), "delimiter must be a single character");
}

#[test]
fn single_value() {
    assert_eq!(call("foo"), Ok(strs(&["foo"])));
}

#[test]
fn empty_string() {
    assert_eq!(call(""), Ok(vec![]));
}

#[test]
fn multiple_lines() {
    assert_eq!(call("first,line\nsecond,line,with,more,fields"), Ok(strs(&["first", "line"])));
}

#[test]
fn quoted_fields_with_commas() {
    assert_eq!(
        call("\"field,with,commas\",normal,\"another,quoted\""),
        Ok(strs(&["field,with,commas", "normal", "another,quoted"]))
    );
}

#[test]
fn quoted_fields_with_quotes() {
    assert_eq!(
        call("\"field with \"\"quotes\"\"\",normal"),
        Ok(strs(&["field with \"quotes\"", "normal"]))
    );
}

#[test]
fn mixed_quoted_unquoted() {
    assert_eq!(
        call("unquoted,\"quoted field\",another_unquoted"),
        Ok(strs(&["unquoted", "quoted field", "another_unquoted"]))
    );
}

#[test]
fn empty_fields() {
    assert_eq!(call("field1,,field3,"), Ok(strs(&["field1", "", "field3", ""])));
}

#[test]
fn quoted_empty_fields() {
    assert_eq!(call("field1,\"\",field3"), Ok(strs(&["field1", "", "field3"])));
}

#[test]
fn whitespace_handling() {
    assert_eq!(
        call(" field1 , field2 ,field3 "),
        Ok(strs(&[" field1 ", " field2 ", "field3 "]))
    );
}

#[test]
fn quoted_whitespace() {
    assert_eq!(
        call("\" field1 \",\"field2\",\" field3 \""),
        Ok(strs(&[" field1 ", "field2", " field3 "]))
    );
}

#[test]
fn newlines_in_quoted_fields() {
    assert_eq!(
        call("\"field\nwith\nnewlines\",normal"),
        Ok(strs(&["field\nwith\nnewlines", "normal"]))
    );
}

#[test]
fn tab_delimiter() {
    assert_eq!(call_with("field1\tfield2\tfield3", "\t"), Ok(strs(&["field1", "field2", "field3"])));
}

#[test]
fn pipe_delimiter() {
    assert_eq!(call_with("field1|field2|field3", "|"), Ok(strs(&["field1", "field2", "field3"])));
}

#[test]
fn semicolon_delimiter() {
    assert_eq!(call_with("field1;field2;field3", ";"), Ok(strs(&["field1", "field2", "field3"])));
}

#[test]
fn single_quote_field() {
    assert_eq!(call("field1,'field2',field3"), Ok(strs(&["field1", "'field2'", "field3"])));
}

#[test]
fn numeric_looking_fields() {
    assert_eq!(call("123,45.67,\"789\",0"), Ok(strs(&["123", "45.67", "789", "0"])));
}

#[test]
fn boolean_looking_fields() {
    assert_eq!(call("true,false,TRUE,FALSE"), Ok(strs(&["true", "false", "TRUE", "FALSE"])));
}

#[test]
fn special_characters() {
    assert_eq!(
        call("field@#$%,\"field^&*()\",field!~`"),
        Ok(strs(&["field@#$%", "field^&*()", "field!~`"]))
    );
}

#[test]
fn unicode_characters() {
    assert_eq!(
        call("café,naïve,\"résumé\",München"),
        Ok(strs(&["café", "naïve", "résumé", "München"]))
    );
}

#[test]
fn malformed_quotes_unclosed() {
    assert_eq!(
        call("field1,\"unclosed quote,field3"),
        Ok(strs(&["field1", "unclosed quote,field"]))
    );
}

#[test]
fn malformed_quotes_embedded() {
    let r = call("field1,fie\"ld2,field3");
    assert_eq!(r, Err(ParseError::MalformedRecord));
    assert_eq!(
        r.unwrap_err().message(),
        "invalid csv record: A CSV column has a quote but the entire column value is not quoted"
    );
}

#[test]
fn empty_delimiter() {
    assert_eq!(call_with("foo,bar", ""), Err(ParseError::InvalidDelimiter));
}

#[test]
fn multi_byte_delimiter_attempt() {
    assert_eq!(call_with("foo,bar", "🎵"), Err(ParseError::InvalidDelimiter));
}

#[test]
fn carriage_return_handling() {
    assert_eq!(call("field1,field2\r\nfield3,field4"), Ok(strs(&["field1", "field2"])));
}

#[test]
fn only_commas() {
    assert_eq!(call(",,,"), Ok(strs(&["", "", "", ""])));
}

#[test]
fn only_quotes() {
    assert_eq!(call("\"\""), Ok(strs(&[""])));
}

#[test]
fn plain_line_is_split_on_delimiter() {
    assert_eq!(fields(b"a,,b,", b","), Ok(strs(&["a", "", "b", ""])));
    assert_eq!(fields(b"x;y\rz", b";"), Ok(strs(&["x", "y\rz"])));
}

#[test]
fn quoted_fields_round_trip() {
    let original = strs(&["plain", "with,comma", "with \"quote\"", "line\r\nbreak", ""]);
    let mut encoded: Vec<u8> = Vec::new();
    for (k, f) in original.iter().enumerate() {
        if k > 0 {
            encoded.push(b',');
        }
        encoded.push(b'"');
        for &b in f {
            if b == b'"' {
                encoded.push(b'"');
            }
            encoded.push(b);
        }
        encoded.push(b'"');
    }
    assert_eq!(fields(&encoded, b","), Ok(original));
}

#[test]
fn first_line_only() {
    assert_eq!(fields(b"first,line\nsecond,line,with,more", b","), Ok(strs(&["first", "line"])));
    assert_eq!(fields(b"a,b\n", b","), Ok(strs(&["a", "b"])));
}

#[test]
fn quoted_delimiters_and_newlines_are_content() {
    assert_eq!(
        fields(b"\"field,with,commas\",normal", b","),
        Ok(strs(&["field,with,commas", "normal"]))
    );
    assert_eq!(
        fields(b"\"field\nwith\nnewlines\",normal", b","),
        Ok(strs(&["field\nwith\nnewlines", "normal"]))
    );
}

#[test]
fn doubled_quotes_collapse() {
    assert_eq!(
        fields(b"\"field with \"\"quotes\"\"\",normal", b","),
        Ok(strs(&["field with \"quotes\"", "normal"]))
    );
}

#[test]
fn delimiter_must_be_one_byte() {
    assert_eq!(fields(b"foo,bar", b""), Err(ParseError::InvalidDelimiter));
    assert_eq!(fields(b"foo,bar", "🎵".as_bytes()), Err(ParseError::InvalidDelimiter));
    assert_eq!(fields(b"", b",,"), Err(ParseError::InvalidDelimiter));
}

#[test]
fn quote_inside_unquoted_field_is_rejected() {
    assert_eq!(fields(b"field1,fie\"ld2,field3", b","), Err(ParseError::MalformedRecord));
    assert_eq!(fields(b"ab\"", b","), Err(ParseError::MalformedRecord));
}

#[test]
fn repeated_parse_gives_same_result() {
    let input = b"a,\"b\"\"c\",d\ne";
    let first = fields(input, b",");
    let second = fields(input, b",");
    assert_eq!(first, second);
    assert_eq!(first, Ok(strs(&["a", "b\"c", "d"])));
}

#[test]
fn empty_input_gives_no_fields() {
    assert_eq!(fields(b"", b","), Ok(vec![]));
    assert_eq!(fields(b"", b"\t"), Ok(vec![]));
}

#[test]
fn lone_line_feed_gives_one_empty_field() {
    assert_eq!(fields(b"\n", b","), Ok(strs(&[""])));
}

#[test]
fn text_after_closing_quote_is_dropped() {
    assert_eq!(fields(b"\"ab\"cd,e", b","), Ok(strs(&["ab", "e"])));
    assert_eq!(fields(b"\"ab\"c\"d\nx", b","), Ok(strs(&["ab"])));
}

#[test]
fn unclosed_quote_loses_final_byte() {
    assert_eq!(fields(b"\"a\"\"bc", b","), Ok(strs(&["a\"b"])));
    assert_eq!(fields(b"x,\"", b","), Ok(strs(&["x", ""])));
    assert_eq!(fields(b"\"x\ny", b","), Ok(strs(&["x\n"])));
}

#[test]
fn line_feed_delimiter_ends_the_record() {
    assert_eq!(fields(b"a\nb", b"\n"), Ok(strs(&["a"])));
}

#[test]
fn carriage_return_alone_is_content() {
    assert_eq!(fields(b"a\rb,c", b","), Ok(strs(&["a\rb", "c"])));
    assert_eq!(fields(b"\"a\"\r\nb", b","), Ok(strs(&["a"])));
}
