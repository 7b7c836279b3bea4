use vstd::prelude::*;
use crate::object::Object;
use crate::node::NodeKind;

verus! {

/// Which operand of a binary operation.
#[derive(PartialEq, Eq, Structural, Clone, Copy, Debug)]
pub enum Side {
    Left,
    Right,
}

/// What an operation on values gives: a value; a floating-point result,
/// when a double takes part, which the caller computes from the operands as
/// IEEE-754 doubles (an integer operand converted to one); or the operand
/// that cannot take part.
pub enum Outcome {
    Value(Object),
    Floating,
    Illegal(Side),
}

/// A number: an integer or a double.
pub open spec fn is_num(o: Object) -> bool {
    o is Int || o is Double
}

/// The outcome of `+`, `-` or `*` on numbers `a` and `b` given how two
/// integers combine: doubles make it a floating-point result.
pub open spec fn num_outcome(a: Object, b: Object, ints: i64) -> Outcome {
    if a is Int && b is Int { Outcome::Value(Object::Int(ints)) } else { Outcome::Floating }
}

/// The sign bit of an IEEE-754 double.
pub const SIGN_BIT: u64 = 0x8000_0000_0000_0000u64;

/// `a + b`: integers add (wrapping, as 64-bit integers do), strings
/// concatenate, and a double makes it floating point.
pub fn add_values(a: &Object, b: &Object) -> (r: Outcome)
    ensures
        is_num(*a) && is_num(*b) ==> r == num_outcome(*a, *b, a->Int_0.wrapping_add(b->Int_0)),
        is_num(*a) && !is_num(*b) ==> r == Outcome::Illegal(Side::Right),
        (a is String && b is String) ==> (r matches Outcome::Value(Object::String(s)) && s@ == a->String_0@ + b->String_0@),
        (a is String && !(b is String)) ==> r == Outcome::Illegal(Side::Right),
        !is_num(*a) && !(a is String) ==> r == Outcome::Illegal(Side::Left),
{
    match (a, b) {
        (Object::Int(x), Object::Int(y)) => Outcome::Value(Object::Int(x.wrapping_add(*y))),
        (Object::Int(_), Object::Double(_)) | (Object::Double(_), Object::Int(_)) | (Object::Double(_), Object::Double(_)) => Outcome::Floating,
        (Object::Int(_), _) | (Object::Double(_), _) => Outcome::Illegal(Side::Right),
        (Object::String(s1), Object::String(s2)) => {
            let mut s = s1.clone();
            s.append(s2.as_str());
            Outcome::Value(Object::String(s))
        },
        (Object::String(_), _) => Outcome::Illegal(Side::Right),
        _ => Outcome::Illegal(Side::Left),
    }
}

/// `a - b` on numbers, wrapping for integers.
pub fn sub_values(a: &Object, b: &Object) -> (r: Outcome)
    ensures
        is_num(*a) && is_num(*b) ==> r == num_outcome(*a, *b, a->Int_0.wrapping_sub(b->Int_0)),
        is_num(*a) && !is_num(*b) ==> r == Outcome::Illegal(Side::Right),
        !is_num(*a) ==> r == Outcome::Illegal(Side::Left),
{
    match (a, b) {
        (Object::Int(x), Object::Int(y)) => Outcome::Value(Object::Int(x.wrapping_sub(*y))),
        (Object::Int(_), Object::Double(_)) | (Object::Double(_), Object::Int(_)) | (Object::Double(_), Object::Double(_)) => Outcome::Floating,
        (Object::Int(_), _) | (Object::Double(_), _) => Outcome::Illegal(Side::Right),
        _ => Outcome::Illegal(Side::Left),
    }
}

/// `a * b` on numbers, wrapping for integers.
pub fn mul_values(a: &Object, b: &Object) -> (r: Outcome)
    ensures
        is_num(*a) && is_num(*b) ==> r == num_outcome(*a, *b, a->Int_0.wrapping_mul(b->Int_0)),
        is_num(*a) && !is_num(*b) ==> r == Outcome::Illegal(Side::Right),
        !is_num(*a) ==> r == Outcome::Illegal(Side::Left),
{
    match (a, b) {
        (Object::Int(x), Object::Int(y)) => Outcome::Value(Object::Int(x.wrapping_mul(*y))),
        (Object::Int(_), Object::Double(_)) | (Object::Double(_), Object::Int(_)) | (Object::Double(_), Object::Double(_)) => Outcome::Floating,
        (Object::Int(_), _) | (Object::Double(_), _) => Outcome::Illegal(Side::Right),
        _ => Outcome::Illegal(Side::Left),
    }
}

/// `a / b` on numbers: always a double, even for two integers.
pub fn div_values(a: &Object, b: &Object) -> (r: Outcome)
    ensures
        is_num(*a) && is_num(*b) ==> r == Outcome::Floating,
        is_num(*a) && !is_num(*b) ==> r == Outcome::Illegal(Side::Right),
        !is_num(*a) ==> r == Outcome::Illegal(Side::Left),
{
    match (a, b) {
        (Object::Int(_), Object::Int(_)) | (Object::Int(_), Object::Double(_)) | (Object::Double(_), Object::Int(_)) | (Object::Double(_), Object::Double(_)) => Outcome::Floating,
        (Object::Int(_), _) | (Object::Double(_), _) => Outcome::Illegal(Side::Right),
        _ => Outcome::Illegal(Side::Left),
    }
}

/// Unary minus: integers wrap; a double gets its sign bit flipped, which is
/// exactly IEEE-754 negation.
pub fn negate_value(a: &Object) -> (r: Outcome)
    ensures
        *a matches Object::Int(n) ==> r == Outcome::Value(Object::Int(0i64.wrapping_sub(n))),
        *a matches Object::Double(x) ==> r == Outcome::Value(Object::Double(x ^ SIGN_BIT)),
        !is_num(*a) ==> r == Outcome::Illegal(Side::Left),
{
    match a {
        Object::Int(n) => Outcome::Value(Object::Int(0i64.wrapping_sub(*n))),
        Object::Double(x) => Outcome::Value(Object::Double(*x ^ SIGN_BIT)),
        _ => Outcome::Illegal(Side::Left),
    }
}

/// Whether `op` is one of the ordering comparisons `<`, `>`, `<=`, `>=`.
pub open spec fn is_comparison(op: NodeKind) -> bool {
    op == NodeKind::LessThan || op == NodeKind::GreaterThan || op == NodeKind::LessOrEq || op == NodeKind::GreaterOrEq
}

/// How comparison `op` orders integers `x` and `y`.
pub open spec fn compare_ints(op: NodeKind, x: i64, y: i64) -> bool {
    if op == NodeKind::LessThan {
        x < y
    } else if op == NodeKind::GreaterThan {
        x > y
    } else if op == NodeKind::LessOrEq {
        x <= y
    } else {
        x >= y
    }
}

/// Ordering comparison `op` on numbers.
pub fn compare_values(op: NodeKind, a: &Object, b: &Object) -> (r: Outcome)
    requires
        is_comparison(op),
    ensures
        (a is Int && b is Int) ==> r == Outcome::Value(Object::Bool(compare_ints(op, a->Int_0, b->Int_0))),
        is_num(*a) && is_num(*b) && (a is Double || b is Double) ==> r == Outcome::Floating,
        is_num(*a) && !is_num(*b) ==> r == Outcome::Illegal(Side::Right),
        !is_num(*a) ==> r == Outcome::Illegal(Side::Left),
{
    match (a, b) {
        (Object::Int(x), Object::Int(y)) => {
            let v = if op == NodeKind::LessThan {
                *x < *y
            } else if op == NodeKind::GreaterThan {
                *x > *y
            } else if op == NodeKind::LessOrEq {
                *x <= *y
            } else {
                *x >= *y
            };
            Outcome::Value(Object::Bool(v))
        },
        (Object::Int(_), Object::Double(_)) | (Object::Double(_), Object::Int(_)) | (Object::Double(_), Object::Double(_)) => Outcome::Floating,
        (Object::Int(_), _) | (Object::Double(_), _) => Outcome::Illegal(Side::Right),
        _ => Outcome::Illegal(Side::Left),
    }
}

/// `a == b`: equal integers, booleans, strings and references to the same
/// key are equal; values of different sorts are not; numbers with a double
/// among them compare as doubles. Other values cannot be compared.
pub fn equal_values(a: &Object, b: &Object) -> (r: Outcome)
    ensures
        (a is Int && b is Int) ==> r == Outcome::Value(Object::Bool(a->Int_0 == b->Int_0)),
        is_num(*a) && is_num(*b) && (a is Double || b is Double) ==> r == Outcome::Floating,
        is_num(*a) && !is_num(*b) ==> r == Outcome::Value(Object::Bool(false)),
        (a is Bool && b is Bool) ==> r == Outcome::Value(Object::Bool(a->Bool_0 == b->Bool_0)),
        (a is Bool && !(b is Bool)) ==> r == Outcome::Value(Object::Bool(false)),
        (a is String && b is String) ==> r == Outcome::Value(Object::Bool(a->String_0@ == b->String_0@)),
        (a is String && !(b is String)) ==> r == Outcome::Value(Object::Bool(false)),
        (a is Reference && b is Reference) ==> r == Outcome::Value(Object::Bool(a->Reference_0.0@ == b->Reference_0.0@)),
        (a is Reference && !(b is Reference)) ==> r == Outcome::Value(Object::Bool(false)),
        !is_num(*a) && !(a is Bool) && !(a is String) && !(a is Reference) ==> r == Outcome::Illegal(Side::Left),
{
    match (a, b) {
        (Object::Int(x), Object::Int(y)) => Outcome::Value(Object::Bool(*x == *y)),
        (Object::Int(_), Object::Double(_)) | (Object::Double(_), Object::Int(_)) | (Object::Double(_), Object::Double(_)) => Outcome::Floating,
        (Object::Int(_), _) | (Object::Double(_), _) => Outcome::Value(Object::Bool(false)),
        (Object::Bool(x), Object::Bool(y)) => Outcome::Value(Object::Bool(*x == *y)),
        (Object::Bool(_), _) => Outcome::Value(Object::Bool(false)),
        (Object::String(x), Object::String(y)) => Outcome::Value(Object::Bool(x.eq(y))),
        (Object::String(_), _) => Outcome::Value(Object::Bool(false)),
        (Object::Reference(x), Object::Reference(y)) => Outcome::Value(Object::Bool(x.0.eq(&y.0))),
        (Object::Reference(_), _) => Outcome::Value(Object::Bool(false)),
        _ => Outcome::Illegal(Side::Left),
    }
}

/// Whether `op` is a bitwise operation: `&`, `|` or `^`.
pub open spec fn is_bitwise(op: NodeKind) -> bool {
    op == NodeKind::BitAnd || op == NodeKind::BitOr || op == NodeKind::BitXor
}

/// Bitwise operation `op` on integers `x` and `y`.
pub open spec fn bits(op: NodeKind, x: i64, y: i64) -> i64 {
    if op == NodeKind::BitAnd { x & y } else if op == NodeKind::BitOr { x | y } else { x ^ y }
}

/// Bitwise operation `op` on two integers.
pub fn bit_values(op: NodeKind, a: &Object, b: &Object) -> (r: Outcome)
    requires
        is_bitwise(op),
    ensures
        (a is Int && b is Int) ==> r == Outcome::Value(Object::Int(bits(op, a->Int_0, b->Int_0))),
        a is Int && !(b is Int) ==> r == Outcome::Illegal(Side::Right),
        !(a is Int) ==> r == Outcome::Illegal(Side::Left),
{
    match (a, b) {
        (Object::Int(x), Object::Int(y)) => {
            let v = if op == NodeKind::BitAnd { *x & *y } else if op == NodeKind::BitOr { *x | *y } else { *x ^ *y };
            Outcome::Value(Object::Int(v))
        },
        (Object::Int(_), _) => Outcome::Illegal(Side::Right),
        _ => Outcome::Illegal(Side::Left),
    }
}

/// `||` (when `is_or`) or `&&` on two booleans; both operands are always
/// evaluated.
pub fn logic_values(is_or: bool, a: &Object, b: &Object) -> (r: Outcome)
    ensures
        (a is Bool && b is Bool) ==> r == Outcome::Value(Object::Bool(if is_or { a->Bool_0 || b->Bool_0 } else { a->Bool_0 && b->Bool_0 })),
        a is Bool && !(b is Bool) ==> r == Outcome::Illegal(Side::Right),
        !(a is Bool) ==> r == Outcome::Illegal(Side::Left),
{
    match (a, b) {
        (Object::Bool(x), Object::Bool(y)) => Outcome::Value(Object::Bool(if is_or { *x || *y } else { *x && *y })),
        (Object::Bool(_), _) => Outcome::Illegal(Side::Right),
        _ => Outcome::Illegal(Side::Left),
    }
}

/// `!a` on a boolean.
pub fn not_value(a: &Object) -> (r: Outcome)
    ensures
        *a matches Object::Bool(x) ==> r == Outcome::Value(Object::Bool(!x)),
        !(a is Bool) ==> r == Outcome::Illegal(Side::Left),
{
    match a {
        Object::Bool(x) => Outcome::Value(Object::Bool(!*x)),
        _ => Outcome::Illegal(Side::Left),
    }
}

/// The value of integer `a` moved by one: up for `++`, down for `--`,
/// wrapping.
pub fn step_value(a: &Object, up: bool) -> (r: Outcome)
    ensures
        *a matches Object::Int(n) ==> r == Outcome::Value(Object::Int(if up { n.wrapping_add(1) } else { n.wrapping_sub(1) })),
        !(a is Int) ==> r == Outcome::Illegal(Side::Left),
{
    match a {
        Object::Int(n) => Outcome::Value(Object::Int(if up { n.wrapping_add(1) } else { n.wrapping_sub(1) })),
        _ => Outcome::Illegal(Side::Left),
    }
}

/// Whether `a` can be the left operand of binary operation `op`, which is
/// checked before the right operand is computed: a number for arithmetic and
/// comparisons, also a string for `+`, an integer for bitwise operations, a
/// boolean for `||` and `&&`; anything for `==`.
pub open spec fn left_ok(op: NodeKind, a: Object) -> bool {
    if op == NodeKind::Add {
        is_num(a) || a is String
    } else if op == NodeKind::Sub || op == NodeKind::Mul || op == NodeKind::Div || is_comparison(op) {
        is_num(a)
    } else if is_bitwise(op) {
        a is Int
    } else if op == NodeKind::LogOr || op == NodeKind::LogAnd {
        a is Bool
    } else {
        true
    }
}

/// Whether `a` can be the left operand of `op`, as `left_ok` says.
pub fn accepts_left(op: NodeKind, a: &Object) -> (r: bool)
    ensures
        r == left_ok(op, *a),
{
    let num = match a {
        Object::Int(_) | Object::Double(_) => true,
        _ => false,
    };
    if op == NodeKind::Add {
        num || matches!(a, Object::String(_))
    } else if op == NodeKind::Sub || op == NodeKind::Mul || op == NodeKind::Div || op == NodeKind::LessThan
        || op == NodeKind::GreaterThan || op == NodeKind::LessOrEq || op == NodeKind::GreaterOrEq {
        num
    } else if op == NodeKind::BitAnd || op == NodeKind::BitOr || op == NodeKind::BitXor {
        matches!(a, Object::Int(_))
    } else if op == NodeKind::LogOr || op == NodeKind::LogAnd {
        matches!(a, Object::Bool(_))
    } else {
        true
    }
}

} // verus!
