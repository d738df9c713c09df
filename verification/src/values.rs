use crate::ast::AST;
use crate::host::Host;
use crate::render::{float_free, render_value};
use crate::semantics::{
    adds_to, cannot_add, cannot_subtract, combines_to, float_equal, float_negated, is_nan, is_zero,
    outcome_view, same, subtracts_to, unknown_expression,
};
use crate::text::join;
use vstd::prelude::*;

verus! {

/// Whether a bit pattern is a NaN.
pub fn float_is_nan(bits: u64) -> (nan: bool)
    ensures
        nan == is_nan(bits),
{
    (bits & 0x7ff0_0000_0000_0000) == 0x7ff0_0000_0000_0000 && (bits & 0x000f_ffff_ffff_ffff) != 0
}

/// Whether a bit pattern is one of the two zeros.
pub fn float_is_zero(bits: u64) -> (zero: bool)
    ensures
        zero == is_zero(bits),
{
    (bits & 0x7fff_ffff_ffff_ffff) == 0
}

/// Whether two decimal numbers are equal.
pub fn floats_equal(a: u64, b: u64) -> (equal: bool)
    ensures
        equal == float_equal(a, b),
{
    !float_is_nan(a) && !float_is_nan(b) && (a == b || (float_is_zero(a) && float_is_zero(b)))
}

/// The negation of a decimal number.
pub fn negate_float(a: u64) -> (negated: u64)
    ensures
        negated == float_negated(a),
{
    a ^ 0x8000_0000_0000_0000
}

/// Whether two values are equal.
pub fn same_values(left: &AST, right: &AST) -> (equal: bool)
    ensures
        equal == same(left@, right@),
{
    match (left, right) {
        (AST::Number(l), AST::Number(r)) => *l == *r,
        (AST::Float(l), AST::Float(r)) => floats_equal(*l, *r),
        (AST::String(l), AST::String(r)) => *l == *r,
        (AST::Boolean(l), AST::Boolean(r)) => *l == *r,
        _ => false,
    }
}

/// The error of an addition of two values that cannot be added.
pub fn cannot_add_text<H: Host>(left: &AST, right: &AST, host: &H) -> (m: String)
    ensures
        float_free(left@) && float_free(right@) ==> m@ == cannot_add(left@, right@),
{
    let mut m = String::from_str("Cannot add ");
    let shown_left = render_value(left, host);
    m.append(shown_left.as_str());
    m.append(" and ");
    let shown_right = render_value(right, host);
    m.append(shown_right.as_str());
    m
}

/// The error of a subtraction of two values that cannot be subtracted.
pub fn cannot_subtract_text<H: Host>(left: &AST, right: &AST, host: &H) -> (m: String)
    ensures
        float_free(left@) && float_free(right@) ==> m@ == cannot_subtract(left@, right@),
{
    let mut m = String::from_str("Cannot subtract ");
    let shown_left = render_value(left, host);
    m.append(shown_left.as_str());
    m.append(" and ");
    let shown_right = render_value(right, host);
    m.append(shown_right.as_str());
    m
}

/// The error of the evaluation of a node that has no rule.
pub fn unknown_expression_text<H: Host>(e: &AST, host: &H) -> (m: String)
    ensures
        float_free(e@) ==> m@ == unknown_expression(e@),
{
    let mut m = String::from_str("Unknown expression, got ");
    let shown = render_value(e, host);
    m.append(shown.as_str());
    m
}

/// The sum of two values.
pub fn add_values<H: Host>(left: AST, right: AST, host: &H) -> (out: Result<AST, String>)
    ensures
        adds_to(left@, right@, outcome_view(out)),
{
    match (left, right) {
        (AST::Number(l), AST::Number(r)) => Ok(AST::Number(l.wrapping_add(r))),
        (AST::Float(l), AST::Float(r)) => Ok(AST::Float(host.float_add(l, r))),
        (AST::Number(l), AST::Float(r)) => Ok(AST::Float(host.float_add(host.float_from_int(l), r))),
        (AST::Float(l), AST::Number(r)) => Ok(AST::Float(host.float_add(l, host.float_from_int(r)))),
        (AST::String(l), AST::String(r)) => Ok(AST::String(join(l.as_str(), r.as_str()))),
        (l, r) => Err(cannot_add_text(&l, &r, host)),
    }
}

/// The difference of two values.
pub fn subtract_values<H: Host>(left: AST, right: AST, host: &H) -> (out: Result<AST, String>)
    ensures
        subtracts_to(left@, right@, outcome_view(out)),
{
    match (left, right) {
        (AST::Number(l), AST::Number(r)) => Ok(AST::Number(l.wrapping_sub(r))),
        (AST::Float(l), AST::Float(r)) => Ok(AST::Float(host.float_sub(l, r))),
        (AST::Number(l), AST::Float(r)) => Ok(AST::Float(host.float_sub(host.float_from_int(l), r))),
        (AST::Float(l), AST::Number(r)) => Ok(AST::Float(host.float_sub(l, host.float_from_int(r)))),
        (AST::Null, AST::Number(r)) => Ok(AST::Number(0i64.wrapping_sub(r))),
        (AST::Null, AST::Float(r)) => Ok(AST::Float(negate_float(r))),
        (AST::Number(l), AST::Null) => Ok(AST::Number(l)),
        (AST::Float(l), AST::Null) => Ok(AST::Float(l)),
        (l, r) => Err(cannot_subtract_text(&l, &r, host)),
    }
}

/// What a binary node yields from the values of its two operands.
pub(crate) fn combine<H: Host>(e: &AST, left: AST, right: AST, host: &H) -> (out: Result<AST, String>)
    requires
        e is Addition || e is Subtraction || e is IsEqual || e is IsUnequal,
    ensures
        combines_to(e@, left@, right@, outcome_view(out)),
{
    match e {
        AST::Addition { .. } => add_values(left, right, host),
        AST::Subtraction { .. } => subtract_values(left, right, host),
        AST::IsEqual { .. } => Ok(AST::Boolean(same_values(&left, &right))),
        _ => Ok(AST::Boolean(!same_values(&left, &right))),
    }
}

} // verus!
