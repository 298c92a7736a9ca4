//! Scalars beyond the default kinds. Each takes part through three
//! functions: one that reads a literal token, one that reads an input value,
//! and one that resolves a host value. Here: the UUID, a 128-bit value that
//! is written as a string, and the 64-bit integer.

use vstd::prelude::*;
use crate::input::InputTree;
use crate::input::InputValue;
use crate::scalar::Leaf;
use crate::scalar::ScalarValue;
use crate::value::Tree;
use crate::value::Value;

verus! {

/// The 128-bit value that `uuid::Uuid::parse_str` reads from a text, or none
/// where it rejects the text.
pub uninterp spec fn uuid_parsed(text: Seq<char>) -> Option<u128>;

/// The text that `uuid::Uuid` displays for a 128-bit value.
pub uninterp spec fn uuid_text(value: u128) -> Seq<char>;

/// Calls `uuid::Uuid::parse_str` and hands back the 128-bit value of what
/// it parsed. The contract claims only that the outcome is a function of the
/// text.
#[verifier::external_body]
fn parse_uuid(text: &str) -> (r: Option<u128>)
    ensures
        r == uuid_parsed(text@),
{
    match uuid::Uuid::parse_str(text) {
        Ok(u) => Some(u.as_u128()),
        Err(_) => None,
    }
}

/// Calls `to_string` on the `uuid::Uuid` of a 128-bit value. The contract
/// claims only that the text is a function of the value.
#[verifier::external_body]
fn display_uuid(value: u128) -> (r: String)
    ensures
        r@ == uuid_text(value),
{
    uuid::Uuid::from_u128(value).to_string()
}

/// The value that a UUID resolves to: a string scalar of its text.
pub fn uuid_resolve<S: ScalarValue>(value: u128) -> (v: Value<S>)
    ensures
        v@ == Tree::Scalar(Leaf::Text(uuid_text(value))),
{
    let text = display_uuid(value);
    Value::string(text.as_str())
}

/// The UUID that an input value stands for: what its text parses to, where
/// it is a string scalar and the text is accepted.
pub fn uuid_from_input_value<S: ScalarValue>(v: &InputValue<S>) -> (r: Option<u128>)
    ensures
        r == (match v@ {
            InputTree::Scalar(Leaf::Text(t)) => uuid_parsed(t),
            _ => None,
        }),
{
    match v.as_string_value() {
        Some(text) => parse_uuid(text),
        None => None,
    }
}

/// A scalar literal as the lexer hands it over: its kind and its text.
#[derive(Debug, PartialEq, Clone, Copy)]
pub enum ScalarToken<'a> {
    String(&'a str),
    Float(&'a str),
    Int(&'a str),
}

/// The rejection of a literal token.
#[derive(Debug, PartialEq)]
pub enum ParseError<'a> {
    UnexpectedToken(ScalarToken<'a>),
}

/// The scalar of a UUID literal: the text of a string token, as it is. Any
/// other token is rejected.
pub fn uuid_from_str<'a, S: ScalarValue>(token: ScalarToken<'a>) -> (r: Result<S, ParseError<'a>>)
    ensures
        match token {
            ScalarToken::String(text) => r is Ok && r->Ok_0.leaf() == Leaf::Text(text@),
            _ => r == Err::<S, ParseError<'a>>(ParseError::UnexpectedToken(token)),
        },
{
    match token {
        ScalarToken::String(text) => Ok(S::from_string(text.to_owned())),
        _ => Err(ParseError::UnexpectedToken(token)),
    }
}

/// The 64-bit integer that `str::parse::<i64>` reads from a text, or none
/// where it rejects the text.
pub uninterp spec fn long_parsed(text: Seq<char>) -> Option<i64>;

/// Calls `str::parse::<i64>`. The contract claims only that the outcome is a
/// function of the text.
#[verifier::external_body]
fn parse_long(text: &str) -> (r: Option<i64>)
    ensures
        r == long_parsed(text@),
{
    match text.parse::<i64>() {
        Ok(i) => Some(i),
        Err(_) => None,
    }
}

/// The scalar of a 64-bit integer literal, from what its text parsed to: the
/// integer where the token is an integer token and its text was accepted.
/// Any other token, and an integer token whose text was rejected, is
/// rejected.
pub fn long_from_parsed<'a, S: ScalarValue>(token: ScalarToken<'a>, parsed: Option<i64>) -> (r:
    Result<S, ParseError<'a>>)
    ensures
        match (token, parsed) {
            (ScalarToken::Int(_), Some(i)) => r is Ok && r->Ok_0.leaf() == S::adopt_long(i),
            _ => r == Err::<S, ParseError<'a>>(ParseError::UnexpectedToken(token)),
        },
{
    match token {
        ScalarToken::Int(_) => match parsed {
            Some(i) => Ok(S::from_long(i)),
            None => Err(ParseError::UnexpectedToken(token)),
        },
        _ => Err(ParseError::UnexpectedToken(token)),
    }
}

/// The scalar of a 64-bit integer literal.
pub fn long_from_str<'a, S: ScalarValue>(token: ScalarToken<'a>) -> (r: Result<S, ParseError<'a>>)
    ensures
        match token {
            ScalarToken::Int(text) => match long_parsed(text@) {
                Some(i) => r is Ok && r->Ok_0.leaf() == S::adopt_long(i),
                None => r == Err::<S, ParseError<'a>>(ParseError::UnexpectedToken(token)),
            },
            _ => r == Err::<S, ParseError<'a>>(ParseError::UnexpectedToken(token)),
        },
{
    match token {
        ScalarToken::Int(text) => long_from_parsed(token, parse_long(text)),
        _ => long_from_parsed(token, None),
    }
}

/// The 64-bit integer that an input value stands for, where it is a 64-bit
/// integer scalar.
pub fn long_from_input_value<S: ScalarValue>(v: &InputValue<S>) -> (r: Option<i64>)
    ensures
        r == (match v@ {
            InputTree::Scalar(Leaf::Long(i)) => Some(i),
            _ => None,
        }),
{
    match v {
        InputValue::Scalar(s) => match s.long_ref() {
            Some(i) => Some(*i),
            None => None,
        },
        _ => None,
    }
}

/// The value that a 64-bit integer resolves to.
pub fn long_resolve<S: ScalarValue>(value: i64) -> (v: Value<S>)
    ensures
        v@ == Tree::Scalar(S::adopt_long(value)),
{
    Value::Scalar(S::from_long(value))
}

} // verus!
