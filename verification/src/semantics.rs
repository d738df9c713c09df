use crate::ast::{nodes_view, Node, Scope, AST};
use crate::environment::{bind, lookup};
use crate::render::{float_free, render};
use crate::text::{debug_text, decimal, unquoted};
use vstd::pervasive::trigger;
use vstd::prelude::*;

verus! {

/// What an evaluation yields: a value, or the text of an error.
pub type Outcome = Result<Node, Seq<char>>;

/// What an evaluation yielded, as a mathematical value.
pub open spec fn outcome_view(out: Result<AST, String>) -> Outcome {
    match out {
        Ok(v) => Ok(v@),
        Err(e) => Err(e@),
    }
}

/// What the loading of a module yields: its nodes, or the text of an error.
pub open spec fn program_view(out: Result<Vec<AST>, String>) -> Result<Seq<Node>, Seq<char>> {
    match out {
        Ok(nodes) => Ok(nodes_view(nodes)),
        Err(e) => Err(e@),
    }
}

/// The names that a `let` may not bind.
pub open spec fn reserved(name: Seq<char>) -> bool {
    name == "let"@ || name == "true"@ || name == "false"@
}

/// The error of an evaluation that needs more depth than it has.
pub open spec fn depth_exceeded() -> Seq<char> {
    "Maximum evaluation depth exceeded"@
}

/// The error of a call of a name that is not bound.
pub open spec fn function_not_found(name: Seq<char>) -> Seq<char> {
    "Function "@ + name + " not found"@
}

/// The error of a call with another number of arguments than `count`.
pub open spec fn wrong_arity(name: Seq<char>, count: nat) -> Seq<char> {
    name + " takes "@ + decimal(count) + " arguments"@
}

/// The error of a call of a name that is bound to something else than a function.
pub open spec fn not_a_function(name: Seq<char>) -> Seq<char> {
    name + " is not a function"@
}

/// The error of a `let` that binds a reserved name.
pub open spec fn reserved_keyword(name: Seq<char>) -> Seq<char> {
    name + " is a reserved keyword"@
}

/// The error of a name that had to be bound and is not.
pub open spec fn variable_not_found(name: Seq<char>) -> Seq<char> {
    "Variable "@ + name + " not found"@
}

/// The error of a property call on a name that is not bound.
pub open spec fn object_not_found(name: Seq<char>) -> Seq<char> {
    "Object "@ + name + " not found"@
}

/// The error of a property of something that is not an object.
pub open spec fn not_an_object(name: Seq<char>) -> Seq<char> {
    name + " is not an object"@
}

/// The error of a call of a property that the object does not have.
pub open spec fn property_missing(property: Seq<char>, object: Seq<char>) -> Seq<char> {
    "Property "@ + property + " not found in object "@ + object
}

/// The error of a call of a property that is not a function.
pub open spec fn property_not_a_function(property: Seq<char>, object: Seq<char>) -> Seq<char> {
    property + " of "@ + object + " is not a function"@
}

/// The error of a read of a property that the object does not have.
pub open spec fn property_not_found(property: Seq<char>) -> Seq<char> {
    "Property "@ + debug_text(property) + " not found"@
}

/// The error of an `if` whose condition is no boolean.
pub open spec fn condition_not_boolean() -> Seq<char> {
    "If statement condition must return a boolean"@
}

/// The error of an addition of two values that cannot be added.
pub open spec fn cannot_add(left: Node, right: Node) -> Seq<char> {
    "Cannot add "@ + render(left) + " and "@ + render(right)
}

/// The error of a subtraction of two values that cannot be subtracted.
pub open spec fn cannot_subtract(left: Node, right: Node) -> Seq<char> {
    "Cannot subtract "@ + render(left) + " and "@ + render(right)
}

/// The error of the evaluation of a node that has no rule.
pub open spec fn unknown_expression(e: Node) -> Seq<char> {
    "Unknown expression, got "@ + render(e)
}

/// Whether a bit pattern is a NaN: all exponent bits set and a fraction that is not zero.
pub open spec fn is_nan(bits: u64) -> bool {
    (bits & 0x7ff0_0000_0000_0000) == 0x7ff0_0000_0000_0000 && (bits & 0x000f_ffff_ffff_ffff) != 0
}

/// Whether a bit pattern is one of the two zeros.
pub open spec fn is_zero(bits: u64) -> bool {
    (bits & 0x7fff_ffff_ffff_ffff) == 0
}

/// Equality of two decimal numbers: a NaN equals nothing, the two zeros are equal,
/// and any other two numbers are equal when their bits are.
pub open spec fn float_equal(a: u64, b: u64) -> bool {
    !is_nan(a) && !is_nan(b) && (a == b || (is_zero(a) && is_zero(b)))
}

/// The negation of a decimal number: its sign bit flipped.
pub open spec fn float_negated(a: u64) -> u64 {
    a ^ 0x8000_0000_0000_0000
}

/// Whether two values are equal: only two values of one kind, among whole numbers,
/// decimal numbers, texts and booleans, can be.
pub open spec fn same(left: Node, right: Node) -> bool {
    match (left, right) {
        (Node::Number(l), Node::Number(r)) => l == r,
        (Node::Float(l), Node::Float(r)) => float_equal(l, r),
        (Node::String(l), Node::String(r)) => l == r,
        (Node::Boolean(l), Node::Boolean(r)) => l == r,
        _ => false,
    }
}

/// Whether one of the two values is a decimal number and the other one a number.
pub open spec fn decimal_pair(left: Node, right: Node) -> bool {
    match (left, right) {
        (Node::Float(_), Node::Float(_)) => true,
        (Node::Number(_), Node::Float(_)) => true,
        (Node::Float(_), Node::Number(_)) => true,
        _ => false,
    }
}

/// What adding two values yields. Whole numbers wrap around; a sum in which a decimal
/// number takes part is a decimal number, which the embedding computes.
pub open spec fn adds_to(left: Node, right: Node, out: Outcome) -> bool {
    match (left, right) {
        (Node::Number(l), Node::Number(r)) => out == Ok::<Node, Seq<char>>(
            Node::Number(l.wrapping_add(r)),
        ),
        (Node::String(l), Node::String(r)) => out == Ok::<Node, Seq<char>>(Node::String(l + r)),
        _ => if decimal_pair(left, right) {
            out matches Ok(Node::Float(_))
        } else {
            &&& out is Err
            &&& float_free(left) && float_free(right) ==> out == Err::<Node, Seq<char>>(
                cannot_add(left, right),
            )
        },
    }
}

/// What subtracting the right value from the left one yields. Beside the rules of
/// addition for numbers, `Null` on the left negates and `Null` on the right changes nothing.
pub open spec fn subtracts_to(left: Node, right: Node, out: Outcome) -> bool {
    match (left, right) {
        (Node::Number(l), Node::Number(r)) => out == Ok::<Node, Seq<char>>(
            Node::Number(l.wrapping_sub(r)),
        ),
        (Node::Null, Node::Number(r)) => out == Ok::<Node, Seq<char>>(
            Node::Number(0i64.wrapping_sub(r)),
        ),
        (Node::Null, Node::Float(r)) => out == Ok::<Node, Seq<char>>(
            Node::Float(float_negated(r)),
        ),
        (Node::Number(l), Node::Null) => out == Ok::<Node, Seq<char>>(Node::Number(l)),
        (Node::Float(l), Node::Null) => out == Ok::<Node, Seq<char>>(Node::Float(l)),
        _ => if decimal_pair(left, right) {
            out matches Ok(Node::Float(_))
        } else {
            &&& out is Err
            &&& float_free(left) && float_free(right) ==> out == Err::<Node, Seq<char>>(
                cannot_subtract(left, right),
            )
        },
    }
}

/// What a binary node yields from the values of its two operands.
pub open spec fn combines_to(e: Node, left: Node, right: Node, out: Outcome) -> bool {
    match e {
        Node::Addition { .. } => adds_to(left, right, out),
        Node::Subtraction { .. } => subtracts_to(left, right, out),
        Node::IsEqual { .. } => out == Ok::<Node, Seq<char>>(Node::Boolean(same(left, right))),
        Node::IsUnequal { .. } => out == Ok::<Node, Seq<char>>(Node::Boolean(!same(left, right))),
        _ => false,
    }
}

/// The value bound to a name, or `Null` for a name that is not bound.
pub open spec fn value_or_null(found: Option<Node>) -> Node {
    match found {
        Some(v) => v,
        None => Node::Null,
    }
}

/// `env` with the first `n` of `params` bound, in order, to the unevaluated `args`.
pub open spec fn bound_raw(env: Scope, params: Seq<Seq<char>>, args: Seq<Node>, n: nat) -> Scope
    decreases n,
{
    if n == 0 || n > params.len() || n > args.len() {
        env
    } else {
        bind(bound_raw(env, params, args, (n - 1) as nat), params[n - 1], args[n - 1])
    }
}

/// How a `let` ends once its value was evaluated with outcome `value` in `mid`.
pub open spec fn let_ends(name: Seq<char>, value: Outcome, mid: Scope, out: Outcome, after: Scope) -> bool {
    match value {
        Ok(v) => out == Ok::<Node, Seq<char>>(Node::Null) && after == bind(mid, name, v),
        Err(e) => out == Err::<Node, Seq<char>>(e) && after == mid,
    }
}

/// The big-step semantics: evaluating `e` in `env`, with `depth` nested entries into
/// stored code still allowed, can end with outcome `out` and leave the environment
/// `after`.
///
/// The relation is a function of `e`, `env` and `depth` wherever the embedding is not
/// asked: a native call, the loading of a module and arithmetic on decimal numbers
/// are left open as far as their result is the embedding's.
///
/// Each `exists` names the intermediate results of a step; `trigger` marks them and
/// says nothing.
pub open spec fn evaluates(e: Node, env: Scope, depth: nat, out: Outcome, after: Scope) -> bool
    decreases depth, e, 1nat,
{
    match e {
        Node::Number(_) | Node::Float(_) | Node::Boolean(_) | Node::Null | Node::Object { .. } => {
            out == Ok::<Node, Seq<char>>(e) && after == env
        },
        Node::String(s) => out == Ok::<Node, Seq<char>>(Node::String(unquoted(s))) && after == env,
        Node::Identifer(name) => out == Ok::<Node, Seq<char>>(value_or_null(lookup(env, name)))
            && after == env,
        Node::Semicolon => out == Ok::<Node, Seq<char>>(Node::Null) && after == env,
        Node::Function { name, args, body, line } => {
            &&& out == Ok::<Node, Seq<char>>(Node::Null)
            &&& after == bind(env, name, Node::Function { name, args, body, line: 0 })
        },
        Node::InternalFunction { .. } => out == Err::<Node, Seq<char>>(unknown_expression(e))
            && after == env,
        Node::LetDeclaration { name, value, line } => match name {
            None => out == Ok::<Node, Seq<char>>(Node::Null) && after == env,
            Some(n) => if reserved(n) {
                out == Err::<Node, Seq<char>>(reserved_keyword(n)) && after == env
            } else {
                match *value {
                    Node::Identifer(source) => match lookup(env, source) {
                        None => out == Err::<Node, Seq<char>>(variable_not_found(source)) && after
                            == env,
                        Some(stored) => if depth == 0 {
                            out == Err::<Node, Seq<char>>(depth_exceeded()) && after == env
                        } else {
                            exists|r: Outcome, mid: Scope| #[trigger]
                                trigger((r, mid)) && evaluates(
                                    stored,
                                    env,
                                    (depth - 1) as nat,
                                    r,
                                    mid,
                                ) && let_ends(n, r, mid, out, after)
                        },
                    },
                    _ => exists|r: Outcome, mid: Scope| #[trigger]
                        trigger((r, mid)) && evaluates(*value, env, depth, r, mid) && let_ends(
                            n,
                            r,
                            mid,
                            out,
                            after,
                        ),
                }
            },
        },
        Node::Call { name, args, line } => match lookup(env, name) {
            None => out == Err::<Node, Seq<char>>(function_not_found(name)) && after == env,
            Some(Node::Function { name: _, args: params, body, line: _ }) => {
                &&& after == env
                &&& if args.len() != params.len() {
                    out == Err::<Node, Seq<char>>(wrong_arity(name, params.len()))
                } else {
                    calls(args, params, body, env, depth, out)
                }
            },
            Some(Node::InternalFunction { name: _, args: params, line: _ }) => {
                if args.len() != params.len() {
                    out == Err::<Node, Seq<char>>(wrong_arity(name, params.len())) && after == env
                } else if depth == 0 {
                    out == Err::<Node, Seq<char>>(depth_exceeded()) && after == env
                } else {
                    true
                }
            },
            Some(_) => out == Err::<Node, Seq<char>>(not_a_function(name)) && after == env,
        },
        Node::PropertyCall { object, property, args, line } => {
            &&& after == env
            &&& match lookup(env, object) {
                None => out == Err::<Node, Seq<char>>(object_not_found(object)),
                Some(Node::Object { properties, line: _ }) => match lookup(properties, property) {
                    None => out == Err::<Node, Seq<char>>(property_missing(property, object)),
                    Some(Node::Function { name: callee, args: params, body, line: _ }) => {
                        if args.len() != params.len() {
                            out == Err::<Node, Seq<char>>(wrong_arity(callee, args.len()))
                        } else if depth == 0 {
                            out == Err::<Node, Seq<char>>(depth_exceeded())
                        } else {
                            exists|end: Scope| #[trigger]
                                trigger(end) && runs(
                                    body,
                                    bound_raw(env, params, args, params.len()),
                                    (depth - 1) as nat,
                                    out,
                                    end,
                                )
                        }
                    },
                    Some(_) => out == Err::<Node, Seq<char>>(
                        property_not_a_function(property, object),
                    ),
                },
                Some(_) => out == Err::<Node, Seq<char>>(not_an_object(object)),
            }
        },
        Node::PropertyAccess { object, property, line } => {
            &&& after == env
            &&& match lookup(env, object) {
                None => out == Err::<Node, Seq<char>>(variable_not_found(object)),
                Some(Node::Object { properties, line: _ }) => match lookup(properties, property) {
                    None => out == Err::<Node, Seq<char>>(property_not_found(property)),
                    Some(v) => out == Ok::<Node, Seq<char>>(v),
                },
                Some(_) => out == Err::<Node, Seq<char>>(not_an_object(object)),
            }
        },
        Node::Import { file, as_, line } => {
            if depth == 0 {
                out == Err::<Node, Seq<char>>(depth_exceeded()) && after == env
            } else {
                exists|loaded: Result<Seq<Node>, Seq<char>>| #[trigger]
                    trigger(loaded) && imports(
                        loaded,
                        as_,
                        line,
                        env,
                        (depth - 1) as nat,
                        out,
                        after,
                    )
            }
        },
        Node::Addition { .. } | Node::Subtraction { .. } | Node::IsEqual { .. } | Node::IsUnequal {
            ..
        } => binary(e, env, depth, out, after),
        Node::Exists { value, line } => exists|r: Outcome| #[trigger]
            trigger(r) && evaluates(*value, env, depth, r, after) && match r {
                Ok(v) => out == Ok::<Node, Seq<char>>(Node::Boolean(!(v is Null))),
                Err(e) => out == Err::<Node, Seq<char>>(e),
            },
        Node::IfStatement { condition, body, line } => exists|c: Outcome, mid: Scope| #[trigger]
            trigger((c, mid)) && evaluates(*condition, env, depth, c, mid) && match c {
                Ok(Node::Boolean(true)) => runs(body, mid, depth, out, after),
                Ok(Node::Boolean(false)) => out == Ok::<Node, Seq<char>>(Node::Null) && after
                    == mid,
                Ok(_) => out == Err::<Node, Seq<char>>(condition_not_boolean()) && after == mid,
                Err(e) => out == Err::<Node, Seq<char>>(e) && after == mid,
            },
    }
}

/// An import once the embedding has answered with `loaded`: its error is the error of
/// the import; the nodes that it loaded are evaluated in order in a copy of `env`, at
/// `depth`, and the bindings with which they end become the properties of an object,
/// to which `alias` is bound. An error among them is the error of the import, which
/// then changes nothing.
pub open spec fn imports(
    loaded: Result<Seq<Node>, Seq<char>>,
    alias: Seq<char>,
    line: usize,
    env: Scope,
    depth: nat,
    out: Outcome,
    after: Scope,
) -> bool
    decreases depth, loaded, 0nat,
{
    match loaded {
        Err(e) => out == Err::<Node, Seq<char>>(e) && after == env,
        Ok(program) => exists|end: Scope| #[trigger]
            trigger(end) && runs(program, env, depth, out, end) && after == if out is Ok {
                bind(env, alias, Node::Object { properties: end, line })
            } else {
                env
            },
    }
}

/// A binary node: the left operand is evaluated, then the right one in what the left
/// one left, and the two values are combined. The first error ends it.
pub open spec fn binary(e: Node, env: Scope, depth: nat, out: Outcome, after: Scope) -> bool
    decreases depth, e, 0nat,
{
    match e {
        Node::Addition { left, right, .. }
        | Node::Subtraction { left, right, .. }
        | Node::IsEqual { left, right, .. }
        | Node::IsUnequal { left, right, .. } => exists|l: Outcome, mid: Scope, r: Outcome| #[trigger]
            trigger((l, mid, r)) && evaluates(*left, env, depth, l, mid) && match l {
                Err(failure) => out == Err::<Node, Seq<char>>(failure) && after == mid,
                Ok(lv) => evaluates(*right, mid, depth, r, after) && match r {
                    Err(failure) => out == Err::<Node, Seq<char>>(failure),
                    Ok(rv) => combines_to(e, lv, rv, out),
                },
            },
        _ => false,
    }
}

/// The first `n` of `stmts` were evaluated in order, starting in `env`, each with a
/// value, and left the environment `reached`.
pub open spec fn ran(stmts: Seq<Node>, n: nat, env: Scope, depth: nat, reached: Scope) -> bool
    decreases depth, stmts, n,
{
    if n == 0 {
        reached == env
    } else if n > stmts.len() {
        false
    } else {
        exists|prev: Scope, v: Node| #[trigger]
            trigger((prev, v)) && ran(stmts, (n - 1) as nat, env, depth, prev) && evaluates(
                stmts[n - 1],
                prev,
                depth,
                Ok(v),
                reached,
            )
    }
}

/// A statement sequence is evaluated in order in `env`: it ends in `after`, with
/// `Null` when every statement had a value, else with the first error, at which it
/// stopped.
pub open spec fn runs(stmts: Seq<Node>, env: Scope, depth: nat, out: Outcome, after: Scope) -> bool
    decreases depth, stmts, stmts.len() + 1,
{
    match out {
        Ok(v) => v == Node::Null && ran(stmts, stmts.len(), env, depth, after),
        Err(e) => exists|k: nat, prev: Scope| #[trigger]
            trigger((k, prev)) && k < stmts.len() && ran(stmts, k, env, depth, prev) && evaluates(
                stmts[k as int],
                prev,
                depth,
                out,
                after,
            ),
    }
}

/// The first `n` of `args` were evaluated, each in `env` as the caller left it, each
/// with a value, and `frame` is `env` with the first `n` of `params` bound to them.
pub open spec fn passed(
    args: Seq<Node>,
    params: Seq<Seq<char>>,
    n: nat,
    env: Scope,
    depth: nat,
    frame: Scope,
) -> bool
    decreases depth, args, n,
{
    if n == 0 {
        frame == env
    } else if n > args.len() || n > params.len() {
        false
    } else {
        exists|prev: Scope, v: Node, discarded: Scope| #[trigger]
            trigger((prev, v, discarded)) && passed(
                args,
                params,
                (n - 1) as nat,
                env,
                depth,
                prev,
            ) && evaluates(args[n - 1], env, depth, Ok(v), discarded) && frame == bind(
                prev,
                params[n - 1],
                v,
            )
    }
}

/// A call of a function written in the language: each argument is evaluated in the
/// caller's environment, the body runs in a copy of it with the parameters bound, one
/// level deeper, and the value of the body is discarded.
pub open spec fn calls(
    args: Seq<Node>,
    params: Seq<Seq<char>>,
    body: Seq<Node>,
    env: Scope,
    depth: nat,
    out: Outcome,
) -> bool
    decreases depth, args, args.len() + 1,
{
    if depth == 0 {
        out == Err::<Node, Seq<char>>(depth_exceeded())
    } else {
        ||| exists|k: nat, frame: Scope, discarded: Scope| #[trigger]
            trigger((k, frame, discarded)) && k < args.len() && passed(
                args,
                params,
                k,
                env,
                depth,
                frame,
            ) && evaluates(args[k as int], env, depth, out, discarded) && out is Err
        ||| exists|frame: Scope, end: Scope| #[trigger]
            trigger((frame, end)) && passed(args, params, args.len(), env, depth, frame) && runs(
                body,
                frame,
                (depth - 1) as nat,
                out,
                end,
            )
    }
}

} // verus!
