//! Normalization at the input boundary: identifiers that sources give as
//! numbers or text become text, and flags given as booleans, numbers or text
//! become booleans.

use vstd::prelude::*;
use vstd::string::*;
use crate::text::{lower_of, signed_decimal, signed_to_decimal, to_lowercase};

verus! {

/// A scalar as a source line presents it.
#[derive(Debug, PartialEq)]
pub enum FlexValue {
    Bool(bool),
    /// A number that is an integer within the range of `i64`.
    Int(i64),
    Text(String),
    /// Anything else: null, another number, a list or an object.
    Other,
}

/// The flag that a source scalar stands for: `true`, the number 1, the text
/// `1` or the text `true` in any letter case; everything else is `false`.
pub open spec fn flag_of(v: FlexValue) -> bool {
    match v {
        FlexValue::Bool(b) => b,
        FlexValue::Int(n) => n == 1,
        FlexValue::Text(s) => s@ == "1"@ || lower_of(s@) == "true"@,
        FlexValue::Other => false,
    }
}

/// Reads a flag that a source may give as a boolean, a number or a text.
pub fn flexible_bool(v: &FlexValue) -> (r: bool)
    ensures
        r == flag_of(*v),
{
    match v {
        FlexValue::Bool(b) => *b,
        FlexValue::Int(n) => *n == 1,
        FlexValue::Text(s) => {
            let one = String::from_str("1");
            let t = String::from_str("true");
            *s == one || to_lowercase(s.as_str()) == t
        },
        FlexValue::Other => false,
    }
}

/// The text that a source scalar stands for as an identifier: a text as it
/// is, an integer in decimal; a flag or anything else is no identifier.
pub open spec fn ident_text_of(v: FlexValue) -> Option<Seq<char>> {
    match v {
        FlexValue::Text(s) => Some(s@),
        FlexValue::Int(i) => Some(signed_decimal(i as int)),
        _ => None,
    }
}

/// Reads an identifier that a source may give as a number or a text.
pub fn flexible_text(v: FlexValue) -> (r: Option<String>)
    ensures
        match r {
            Some(s) => ident_text_of(v) == Some(s@),
            None => ident_text_of(v) is None,
        },
{
    match v {
        FlexValue::Text(s) => Some(s),
        FlexValue::Int(i) => Some(signed_to_decimal(i)),
        _ => None,
    }
}

} // verus!
