//! The tokenizer as a function of the host language: its name, its
//! parameters, its result type, and its call with resolved arguments.
use vstd::prelude::*;

use crate::error::ParseError;
use crate::model::{parse_of, result_view, COMMA};
use crate::tokenizer::parse_csv;

verus! {

/// Kind flag: a byte string.
pub const KIND_BYTES: u16 = 1;

/// Kind flag: an integer.
pub const KIND_INTEGER: u16 = 2;

/// Kind flag: a float.
pub const KIND_FLOAT: u16 = 4;

/// Kind flag: a boolean.
pub const KIND_BOOLEAN: u16 = 8;

/// Kind flag: a timestamp.
pub const KIND_TIMESTAMP: u16 = 16;

/// Kind flag: a regular expression.
pub const KIND_REGEX: u16 = 32;

/// Kind flag: null.
pub const KIND_NULL: u16 = 64;

/// Kind flag: an array.
pub const KIND_ARRAY: u16 = 128;

/// Kind flag: an object.
pub const KIND_OBJECT: u16 = 256;

/// Every kind flag at once.
pub const KIND_ANY: u16 = 511;

/// The element kinds of an array: a kind for some indices, and one for all
/// the others.
#[derive(Debug, PartialEq, Eq)]
pub struct Collection {
    pub known: Vec<(usize, u16)>,
    pub unknown: u16,
}

impl Collection {
    /// An array whose elements may be of any kind.
    pub fn any() -> (r: Collection)
        ensures
            r.known@.len() == 0,
            r.unknown == KIND_ANY,
    {
        Collection { known: Vec::new(), unknown: KIND_ANY }
    }

    /// Sets the kind of the elements at indices with no kind of their own.
    pub fn set_unknown(&mut self, kind: u16)
        ensures
            final(self).known@ == old(self).known@,
            final(self).unknown == kind,
    {
        self.unknown = kind;
    }
}

/// The element kinds of the returned array: byte strings at every index.
pub fn inner_kind() -> (r: Collection)
    ensures
        r.known@.len() == 0,
        r.unknown == KIND_BYTES,
{
    let mut v = Collection::any();
    v.set_unknown(KIND_BYTES);
    v
}

/// The type of a function's result.
#[derive(Debug, PartialEq, Eq)]
pub struct TypeDef {
    /// The element kinds of the returned array.
    pub elements: Collection,
    /// Whether a call may fail.
    pub fallible: bool,
}

/// A parameter of a host function.
#[derive(Clone, Copy, Debug, PartialEq, Eq)]
pub struct Parameter {
    pub keyword: &'static str,
    pub kind: u16,
    pub required: bool,
}

/// A worked example of a call, for documentation.
#[derive(Clone, Copy, Debug, PartialEq, Eq)]
pub struct Example {
    pub title: &'static str,
    pub source: &'static str,
    pub result: Result<&'static str, &'static str>,
}

/// The delimiter argument that stands when the caller gives none: a comma.
pub open spec fn delimiter_or_default(delimiter: Option<Seq<u8>>) -> Seq<u8> {
    match delimiter {
        Some(d) => d,
        None => seq![COMMA],
    }
}

/// The host function that parses the first record of a byte string.
#[derive(Clone, Copy, Debug)]
pub struct ParseCsv;

impl ParseCsv {
    /// The name under which the host calls the function.
    pub fn identifier(&self) -> (r: &'static str)
        ensures
            r@ == "parse_csv"@,
    {
        "parse_csv"
    }

    /// Worked examples of calls.
    pub fn examples(&self) -> (r: Vec<Example>)
        ensures
            r@.len() == 1,
            r@[0].title@ == "parse a single CSV formatted row"@,
    {
        vec![
            Example {
                title: "parse a single CSV formatted row",
                source: "parse_csv!(s'foo,bar,\"foo \"\", bar\"')",
                result: Ok("[\"foo\", \"bar\", \"foo \\\", bar\"]"),
            },
        ]
    }

    /// The parameters: `value`, a required byte string, and `delimiter`, an
    /// optional byte string.
    pub fn parameters(&self) -> (r: Vec<Parameter>)
        ensures
            r@.len() == 2,
            r@[0].keyword@ == "value"@,
            r@[0].kind == KIND_BYTES,
            r@[0].required,
            r@[1].keyword@ == "delimiter"@,
            r@[1].kind == KIND_BYTES,
            !r@[1].required,
    {
        vec![
            Parameter { keyword: "value", kind: KIND_BYTES, required: true },
            Parameter { keyword: "delimiter", kind: KIND_BYTES, required: false },
        ]
    }

    /// The result type: an array of byte strings, from a call that may fail.
    pub fn type_def(&self) -> (r: TypeDef)
        ensures
            r.elements.known@.len() == 0,
            r.elements.unknown == KIND_BYTES,
            r.fallible,
    {
        TypeDef { elements: inner_kind(), fallible: true }
    }

    /// Calls the function on resolved arguments; without a delimiter the
    /// comma stands.
    pub fn resolve(&self, value: &[u8], delimiter: Option<&[u8]>) -> (r: Result<
        Vec<Vec<u8>>,
        ParseError,
    >)
        ensures
            result_view(r) == parse_of(
                value@,
                delimiter_or_default(
                    match delimiter {
                        Some(d) => Some(d@),
                        None => None,
                    },
                ),
            ),
    {
        match delimiter {
            Some(d) => parse_csv(value, d),
            None => {
                let comma: Vec<u8> = vec![COMMA];
                let d = comma.as_slice();
                proof {
                    assert(d@ =~= seq![COMMA]);
                }
                parse_csv(value, d)
            },
        }
    }
}

} // verus!
