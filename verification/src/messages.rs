use crate::semantics::{
    condition_not_boolean, depth_exceeded, function_not_found, not_a_function, not_an_object,
    object_not_found, property_missing, property_not_a_function, property_not_found,
    reserved_keyword, variable_not_found, wrong_arity,
};
use crate::text::{push_decimal, quoted};
use vstd::prelude::*;

verus! {

/// The error of an evaluation that went deeper than it was allowed to.
pub fn depth_exceeded_text() -> (m: String)
    ensures
        m@ == depth_exceeded(),
{
    String::from_str("Maximum evaluation depth exceeded")
}

/// The error of a call of a name that is not bound.
pub fn function_not_found_text(name: &String) -> (m: String)
    ensures
        m@ == function_not_found(name@),
{
    let mut m = String::from_str("Function ");
    m.append(name.as_str());
    m.append(" not found");
    m
}

/// The error of a call with another number of arguments than `count`.
pub fn wrong_arity_text(name: &String, count: usize) -> (m: String)
    ensures
        m@ == wrong_arity(name@, count as nat),
{
    let mut m = name.clone();
    m.append(" takes ");
    push_decimal(&mut m, count as u64);
    m.append(" arguments");
    m
}

/// The error of a call of a name that is bound to something else than a function.
pub fn not_a_function_text(name: &String) -> (m: String)
    ensures
        m@ == not_a_function(name@),
{
    let mut m = name.clone();
    m.append(" is not a function");
    m
}

/// The error of a `let` that binds a reserved name.
pub fn reserved_keyword_text(name: &String) -> (m: String)
    ensures
        m@ == reserved_keyword(name@),
{
    let mut m = name.clone();
    m.append(" is a reserved keyword");
    m
}

/// The error of a name that had to be bound and is not.
pub fn variable_not_found_text(name: &String) -> (m: String)
    ensures
        m@ == variable_not_found(name@),
{
    let mut m = String::from_str("Variable ");
    m.append(name.as_str());
    m.append(" not found");
    m
}

/// The error of a property call on a name that is not bound.
pub fn object_not_found_text(name: &String) -> (m: String)
    ensures
        m@ == object_not_found(name@),
{
    let mut m = String::from_str("Object ");
    m.append(name.as_str());
    m.append(" not found");
    m
}

/// The error of a property of something that is not an object.
pub fn not_an_object_text(name: &String) -> (m: String)
    ensures
        m@ == not_an_object(name@),
{
    let mut m = name.clone();
    m.append(" is not an object");
    m
}

/// The error of a call of a property that the object does not have.
pub fn property_missing_text(property: &String, object: &String) -> (m: String)
    ensures
        m@ == property_missing(property@, object@),
{
    let mut m = String::from_str("Property ");
    m.append(property.as_str());
    m.append(" not found in object ");
    m.append(object.as_str());
    m
}

/// The error of a call of a property that is not a function.
pub fn property_not_a_function_text(property: &String, object: &String) -> (m: String)
    ensures
        m@ == property_not_a_function(property@, object@),
{
    let mut m = property.clone();
    m.append(" of ");
    m.append(object.as_str());
    m.append(" is not a function");
    m
}

/// The error of a read of a property that the object does not have.
pub fn property_not_found_text(property: &String) -> (m: String)
    ensures
        m@ == property_not_found(property@),
{
    let mut m = String::from_str("Property ");
    let shown = quoted(property.as_str());
    m.append(shown.as_str());
    m.append(" not found");
    m
}

/// The error of an `if` whose condition is no boolean.
pub fn condition_not_boolean_text() -> (m: String)
    ensures
        m@ == condition_not_boolean(),
{
    String::from_str("If statement condition must return a boolean")
}

} // verus!
