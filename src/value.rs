//! Runtime values, operators and the number operations that the library
//! performs on binary64 bit patterns.
use vstd::prelude::*;

verus! {

/// Mask of every bit of a binary64 value but the sign.
pub const MAGNITUDE_MASK: u64 = 0x7fff_ffff_ffff_ffff;

/// The sign bit of a binary64 value.
pub const SIGN_BIT: u64 = 0x8000_0000_0000_0000;

/// Bit pattern of positive infinity; magnitudes above it are NaNs.
pub const INFINITY_BITS: u64 = 0x7ff0_0000_0000_0000;

/// A runtime value. A number is the bit pattern of an IEEE-754 binary64.
#[derive(Debug, Clone, PartialEq)]
pub enum Value {
    String(String),
    Boolean(bool),
    Number(u64),
    Nil,
}

/// The mathematical model of a [`Value`]: strings as character sequences.
pub enum ValueModel {
    Str(Seq<char>),
    Bool(bool),
    Num(u64),
    Nil,
}

impl View for Value {
    type V = ValueModel;

    open spec fn view(&self) -> ValueModel {
        match self {
            Value::String(s) => ValueModel::Str(s@),
            Value::Boolean(b) => ValueModel::Bool(*b),
            Value::Number(n) => ValueModel::Num(*n),
            Value::Nil => ValueModel::Nil,
        }
    }
}

/// Every value is truthy except `false` and `nil`.
pub open spec fn truthy(v: ValueModel) -> bool {
    !(v == ValueModel::Bool(false) || v == ValueModel::Nil)
}

/// Whether two values are of the same runtime kind.
pub open spec fn same_kind(a: ValueModel, b: ValueModel) -> bool {
    match (a, b) {
        (ValueModel::Str(_), ValueModel::Str(_)) => true,
        (ValueModel::Bool(_), ValueModel::Bool(_)) => true,
        (ValueModel::Num(_), ValueModel::Num(_)) => true,
        (ValueModel::Nil, ValueModel::Nil) => true,
        _ => false,
    }
}

/// A binary64 bit pattern that encodes a NaN.
pub open spec fn is_nan(n: u64) -> bool {
    n & MAGNITUDE_MASK > INFINITY_BITS
}

/// IEEE-754 negation: the sign bit flips, NaNs included.
pub open spec fn num_neg(n: u64) -> u64 {
    n ^ SIGN_BIT
}

/// IEEE-754 equality: NaN equals nothing, and the two zeros are equal.
pub open spec fn num_eq(a: u64, b: u64) -> bool {
    !is_nan(a) && !is_nan(b) && (a == b || (a | b) & MAGNITUDE_MASK == 0)
}

/// The position of a non-NaN binary64 on the number line, as an integer that
/// orders the values as IEEE-754 does (both zeros at 0).
pub open spec fn order_key(n: u64) -> int {
    if n & SIGN_BIT != 0 {
        -((n & MAGNITUDE_MASK) as int)
    } else {
        (n & MAGNITUDE_MASK) as int
    }
}

/// IEEE-754 `<`: false when either side is NaN.
pub open spec fn num_lt(a: u64, b: u64) -> bool {
    !is_nan(a) && !is_nan(b) && order_key(a) < order_key(b)
}

/// IEEE-754 `<=`: false when either side is NaN.
pub open spec fn num_le(a: u64, b: u64) -> bool {
    !is_nan(a) && !is_nan(b) && order_key(a) <= order_key(b)
}

/// Value equality of the language: values of different kinds are never equal.
pub open spec fn values_equal(a: ValueModel, b: ValueModel) -> bool {
    match (a, b) {
        (ValueModel::Str(s), ValueModel::Str(t)) => s == t,
        (ValueModel::Bool(x), ValueModel::Bool(y)) => x == y,
        (ValueModel::Num(x), ValueModel::Num(y)) => num_eq(x, y),
        (ValueModel::Nil, ValueModel::Nil) => true,
        _ => false,
    }
}

impl Value {
    /// A copy of the value.
    pub fn duplicate(&self) -> (r: Value)
        ensures
            r@ == self@,
    {
        match self {
            Value::String(s) => Value::String(s.clone()),
            Value::Boolean(b) => Value::Boolean(*b),
            Value::Number(n) => Value::Number(*n),
            Value::Nil => Value::Nil,
        }
    }

    /// The truthiness of the value.
    pub fn is_truthy(&self) -> (r: bool)
        ensures
            r == truthy(self@),
    {
        match self {
            Value::Boolean(b) => *b,
            Value::Nil => false,
            _ => true,
        }
    }

    /// The number held, if the value is a number.
    pub fn as_number(&self) -> (r: Option<u64>)
        ensures
            r == (match self@ {
                ValueModel::Num(n) => Some(n),
                _ => None::<u64>,
            }),
    {
        match self {
            Value::Number(n) => Some(*n),
            _ => None,
        }
    }

    /// Language equality of two values; never an error.
    pub fn equals(&self, other: &Value) -> (r: bool)
        ensures
            r == values_equal(self@, other@),
    {
        match (self, other) {
            (Value::String(s), Value::String(t)) => s.eq(t),
            (Value::Boolean(x), Value::Boolean(y)) => *x == *y,
            (Value::Number(x), Value::Number(y)) => number_equal(*x, *y),
            (Value::Nil, Value::Nil) => true,
            _ => false,
        }
    }
}

/// Whether the bit pattern encodes a NaN.
pub fn number_is_nan(n: u64) -> (r: bool)
    ensures
        r == is_nan(n),
{
    n & MAGNITUDE_MASK > INFINITY_BITS
}

/// IEEE-754 negation of a binary64 bit pattern.
pub fn number_negate(n: u64) -> (r: u64)
    ensures
        r == num_neg(n),
{
    n ^ SIGN_BIT
}

/// IEEE-754 equality of two binary64 bit patterns.
pub fn number_equal(a: u64, b: u64) -> (r: bool)
    ensures
        r == num_eq(a, b),
{
    !number_is_nan(a) && !number_is_nan(b) && (a == b || (a | b) & MAGNITUDE_MASK == 0)
}

fn number_order_key(n: u64) -> (r: i128)
    ensures
        r as int == order_key(n),
{
    let m = n & MAGNITUDE_MASK;
    if n & SIGN_BIT != 0 {
        -(m as i128)
    } else {
        m as i128
    }
}

/// IEEE-754 `<` on binary64 bit patterns.
pub fn number_less(a: u64, b: u64) -> (r: bool)
    ensures
        r == num_lt(a, b),
{
    !number_is_nan(a) && !number_is_nan(b) && number_order_key(a) < number_order_key(b)
}

/// IEEE-754 `<=` on binary64 bit patterns.
pub fn number_less_equal(a: u64, b: u64) -> (r: bool)
    ensures
        r == num_le(a, b),
{
    !number_is_nan(a) && !number_is_nan(b) && number_order_key(a) <= number_order_key(b)
}

/// The four operations of binary64 arithmetic.
#[derive(Debug, Clone, Copy, PartialEq, Eq, Structural)]
pub enum ArithOp {
    Add,
    Sub,
    Mul,
    Div,
}

/// The host's binary64 arithmetic (round to nearest, ties to even), on bit
/// patterns. The evaluator calls `apply` for `+`, `-`, `*` and `/` on two
/// numbers and takes whatever it returns as the result; the scanner calls
/// `from_decimal` for each number literal.
pub trait FloatArithmetic {
    fn apply(&self, op: ArithOp, a: u64, b: u64) -> u64;

    /// The binary64 nearest to a numeral of decimal digits with at most one
    /// `.` between digits.
    fn from_decimal(&self, numeral: &str) -> u64;
}

/// Operators of the language, shared by unary, binary, logical and
/// assignment nodes.
#[derive(Debug, Clone, Copy, PartialEq, Eq, Structural)]
pub enum Operator {
    Equal,
    Minus,
    Plus,
    Star,
    Bang,
    BangEqual,
    EqualEqual,
    Greater,
    GreaterEqual,
    Less,
    LessEqual,
    Slash,
    And,
    Or,
}

} // verus!
