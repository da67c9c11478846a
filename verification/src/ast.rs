//! The syntax tree produced by the parser, its mathematical model, and the
//! error taxonomy.

use vstd::prelude::*;

verus! {

/// A JSON value: the root of a parse and every node below it.
///
/// String and number nodes carry raw bytes copied out of the input buffer:
/// a string holds the text between its quotes with escape sequences
/// validated but not decoded, and a number holds the canonical literal
/// (integer part, then `.` and fraction digits if present, then `E` and the
/// exponent if present) ready for floating-point conversion by a caller.
#[derive(Debug, PartialEq)]
pub enum Value {
    /// `{ ... }`, members kept in document order, duplicate keys retained.
    Object { members: Vec<Member> },
    /// `[ ... ]`, elements in document order.
    Array(Vec<Value>),
    /// A quoted string; the bytes between the quotes, verbatim.
    String(Vec<u8>),
    /// A numeric literal in canonical form.
    Number(Vec<u8>),
    /// The keyword `true`.
    True,
    /// The keyword `false`.
    False,
    /// The keyword `null`.
    Null,
}

/// One entry of an object: a key (the raw bytes of its string literal)
/// paired with a value.
#[derive(Debug, PartialEq)]
pub struct Member {
    pub key: Vec<u8>,
    pub value: Value,
}

/// The mathematical counterpart of [`Value`], used by the grammar model.
pub enum GValue {
    Object(Seq<GMember>),
    Array(Seq<GValue>),
    Text(Seq<u8>),
    Number(Seq<u8>),
    True,
    False,
    Null,
}

/// The mathematical counterpart of [`Member`].
pub struct GMember {
    pub key: Seq<u8>,
    pub value: GValue,
}

/// What a parse failure is: one kind for each way the grammar can be
/// violated.
#[derive(Debug, Clone, Copy, PartialEq, Eq)]
pub enum ErrKind {
    /// No value production matches at the current position.
    NoAlternativeMatched,
    /// A string literal has no closing quote (or contains a bare control
    /// character, so the scan reaches no closing quote).
    UnterminatedString,
    /// A backslash is followed by a character outside the escape set.
    InvalidEscape,
    /// A `\u` escape is not followed by exactly four hexadecimal digits.
    InvalidUnicodeEscape,
    /// A numeric literal violates the sign, leading-zero or digit rules.
    MalformedNumber,
    /// An object is missing a structural delimiter.
    UnterminatedObject,
    /// An array is missing a structural delimiter.
    UnterminatedArray,
    /// Reserved by the taxonomy for an object key that is not a string;
    /// the member parser reads keys with the string production directly,
    /// so this kind is never produced.
    KeyNotString,
}

/// A parse failure: its kind, and a position in the input near which it
/// was detected.
#[derive(Debug, Clone, Copy, PartialEq, Eq)]
pub struct ParseError {
    pub kind: ErrKind,
    pub pos: usize,
}

/// The executable value `v` is exactly the model value `g`.
pub open spec fn value_models(v: Value, g: GValue) -> bool
    decreases v,
{
    match v {
        Value::Object { members } => {
            &&& g matches GValue::Object(gms)
            &&& members@.len() == gms.len()
            &&& forall|i: int|
                0 <= i < members@.len() ==> member_models(#[trigger] members@[i], gms[i])
        },
        Value::Array(elems) => {
            &&& g matches GValue::Array(gvs)
            &&& elems@.len() == gvs.len()
            &&& forall|i: int| 0 <= i < elems@.len() ==> value_models(#[trigger] elems@[i], gvs[i])
        },
        Value::String(bytes) => g matches GValue::Text(t) && bytes@ == t,
        Value::Number(bytes) => g matches GValue::Number(t) && bytes@ == t,
        Value::True => g is True,
        Value::False => g is False,
        Value::Null => g is Null,
    }
}

/// The executable member `m` is exactly the model member `g`.
pub open spec fn member_models(m: Member, g: GMember) -> bool
    decreases m,
{
    m.key@ == g.key && value_models(m.value, g.value)
}

/// A list of executable members is, pointwise, a list of model members.
pub open spec fn members_model(ms: Seq<Member>, gms: Seq<GMember>) -> bool {
    ms.len() == gms.len() && forall|i: int|
        0 <= i < ms.len() ==> member_models(#[trigger] ms[i], gms[i])
}

/// A list of executable values is, pointwise, a list of model values.
pub open spec fn values_model(vs: Seq<Value>, gvs: Seq<GValue>) -> bool {
    vs.len() == gvs.len() && forall|i: int|
        0 <= i < vs.len() ==> value_models(#[trigger] vs[i], gvs[i])
}

} // verus!
