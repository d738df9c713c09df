use crate::ast::{Node, Scope};
use crate::environment::{bind, binds, lemma_lookup_bound, lemma_lookup_other, lookup};
use crate::semantics::{
    binary, evaluates, function_not_found, imports, let_ends, reserved, reserved_keyword, runs, same,
    wrong_arity, Outcome,
};
use crate::text::{lemma_unquoted_concat, lemma_unquoted_has_no_quote, unquoted};
use vstd::pervasive::trigger;
use vstd::prelude::*;

verus! {

/// Whether two values are of one of the kinds that can be equal: two whole numbers,
/// two decimal numbers, two texts or two booleans.
pub open spec fn same_kind(left: Node, right: Node) -> bool {
    ||| left is Number && right is Number
    ||| left is Float && right is Float
    ||| left is String && right is String
    ||| left is Boolean && right is Boolean
}

/// Whether a node is a literal: a number, a text, a boolean, `Null` or an object.
pub open spec fn literal(v: Node) -> bool {
    v is Number || v is Float || v is String || v is Boolean || v is Null || v is Object
}

/// A literal has a value of its own kind and leaves the environment as it was.
pub proof fn law_literal(v: Node, env: Scope, depth: nat, out: Outcome, after: Scope)
    requires
        literal(v),
        evaluates(v, env, depth, out, after),
    ensures
        after == env,
        out matches Ok(value) && literal(value) && forall|other: Node|
            same_kind(value, other) == same_kind(v, other),
        !(v is String) ==> out == Ok::<Node, Seq<char>>(v),
{
}

/// The sum of two whole numbers is their sum, wrapped around where it leaves the
/// range of the numbers.
pub proof fn law_sum_of_numbers(
    a: i64,
    b: i64,
    line: usize,
    env: Scope,
    depth: nat,
    out: Outcome,
    after: Scope,
)
    requires
        evaluates(
            Node::Addition { left: Box::new(Node::Number(a)), right: Box::new(Node::Number(b)), line },
            env,
            depth,
            out,
            after,
        ),
    ensures
        after == env,
        out == Ok::<Node, Seq<char>>(Node::Number(a.wrapping_add(b))),
        i64::MIN <= a + b <= i64::MAX ==> out == Ok::<Node, Seq<char>>(Node::Number((a + b) as i64)),
{
    reveal_with_fuel(evaluates, 3);
    reveal_with_fuel(binary, 3);
}

/// The difference of two whole numbers is their difference, wrapped around where it
/// leaves the range of the numbers.
pub proof fn law_difference_of_numbers(
    a: i64,
    b: i64,
    line: usize,
    env: Scope,
    depth: nat,
    out: Outcome,
    after: Scope,
)
    requires
        evaluates(
            Node::Subtraction {
                left: Box::new(Node::Number(a)),
                right: Box::new(Node::Number(b)),
                line,
            },
            env,
            depth,
            out,
            after,
        ),
    ensures
        after == env,
        out == Ok::<Node, Seq<char>>(Node::Number(a.wrapping_sub(b))),
        i64::MIN <= a - b <= i64::MAX ==> out == Ok::<Node, Seq<char>>(Node::Number((a - b) as i64)),
{
    reveal_with_fuel(evaluates, 3);
    reveal_with_fuel(binary, 3);
}

/// `Null` minus a whole number is the number negated, and a whole number minus
/// `Null` is the number. Negating the least number wraps around to itself.
pub proof fn law_negation(n: i64, line: usize, env: Scope, depth: nat, out: Outcome, after: Scope)
    ensures
        evaluates(
            Node::Subtraction { left: Box::new(Node::Null), right: Box::new(Node::Number(n)), line },
            env,
            depth,
            out,
            after,
        ) ==> after == env && out == Ok::<Node, Seq<char>>(Node::Number(0i64.wrapping_sub(n))) && (n
            > i64::MIN ==> out == Ok::<Node, Seq<char>>(Node::Number((-n) as i64))),
        evaluates(
            Node::Subtraction { left: Box::new(Node::Number(n)), right: Box::new(Node::Null), line },
            env,
            depth,
            out,
            after,
        ) ==> after == env && out == Ok::<Node, Seq<char>>(Node::Number(n)),
{
    reveal_with_fuel(evaluates, 3);
    reveal_with_fuel(binary, 3);
}

/// Whether a value is a number, whole or decimal.
pub open spec fn number(v: Node) -> bool {
    v is Number || v is Float
}

/// A sum or a difference of two numbers of which at least one is decimal is a
/// decimal number. Which one, the embedding decides.
pub proof fn law_decimal_result(
    e: Node,
    left: Node,
    right: Node,
    line: usize,
    env: Scope,
    depth: nat,
    out: Outcome,
    after: Scope,
)
    requires
        number(left),
        number(right),
        left is Float || right is Float,
        e == (Node::Addition { left: Box::new(left), right: Box::new(right), line }) || e == (
        Node::Subtraction { left: Box::new(left), right: Box::new(right), line }),
        evaluates(e, env, depth, out, after),
    ensures
        after == env,
        out matches Ok(Node::Float(_)),
{
    reveal_with_fuel(evaluates, 3);
    reveal_with_fuel(binary, 3);
}

/// The sum of two texts is the first followed by the second, each without its quote
/// characters, and holds no quote character.
pub proof fn law_concatenation(
    a: Seq<char>,
    b: Seq<char>,
    line: usize,
    env: Scope,
    depth: nat,
    out: Outcome,
    after: Scope,
)
    requires
        evaluates(
            Node::Addition { left: Box::new(Node::String(a)), right: Box::new(Node::String(b)), line },
            env,
            depth,
            out,
            after,
        ),
    ensures
        after == env,
        out == Ok::<Node, Seq<char>>(Node::String(unquoted(a) + unquoted(b))),
        unquoted(a) + unquoted(b) == unquoted(a + b),
        forall|i: int| 0 <= i < unquoted(a + b).len() ==> unquoted(a + b)[i] != '"',
{
    reveal_with_fuel(evaluates, 3);
    reveal_with_fuel(binary, 3);
    lemma_unquoted_concat(a, b);
    lemma_unquoted_has_no_quote(a + b);
}

/// A name that is not bound has the value `Null`: looking it up is no error.
pub proof fn law_unbound_identifier(
    name: Seq<char>,
    env: Scope,
    depth: nat,
    out: Outcome,
    after: Scope,
)
    requires
        !binds(env, name),
        evaluates(Node::Identifer(name), env, depth, out, after),
    ensures
        out == Ok::<Node, Seq<char>>(Node::Null),
        after == env,
{
}

/// A call of a name that is not bound is an error that names it.
pub proof fn law_unbound_function(
    name: Seq<char>,
    args: Seq<Node>,
    line: usize,
    env: Scope,
    depth: nat,
    out: Outcome,
    after: Scope,
)
    requires
        !binds(env, name),
        evaluates(Node::Call { name, args, line }, env, depth, out, after),
    ensures
        out == Err::<Node, Seq<char>>(function_not_found(name)),
        after == env,
{
}

/// A call of a function with another number of arguments than it has parameters is
/// an error that names the function and the number of its parameters, whether the
/// function is written in the language or native.
pub proof fn law_wrong_arity(
    name: Seq<char>,
    args: Seq<Node>,
    line: usize,
    env: Scope,
    depth: nat,
    out: Outcome,
    after: Scope,
)
    requires
        evaluates(Node::Call { name, args, line }, env, depth, out, after),
        match lookup(env, name) {
            Some(Node::Function { args: params, .. }) => params.len() != args.len(),
            Some(Node::InternalFunction { args: params, .. }) => params.len() != args.len(),
            _ => false,
        },
    ensures
        after == env,
        match lookup(env, name) {
            Some(Node::Function { args: params, .. }) => out == Err::<Node, Seq<char>>(
                wrong_arity(name, params.len()),
            ),
            Some(Node::InternalFunction { args: params, .. }) => out == Err::<Node, Seq<char>>(
                wrong_arity(name, params.len()),
            ),
            _ => false,
        },
{
}

/// Two values of different kinds are not equal.
pub proof fn law_kinds_differ(left: Node, right: Node)
    requires
        !same_kind(left, right),
    ensures
        !same(left, right),
{
}

/// Comparing two literals of different kinds is no error: `IsEqual` is false of
/// them and `IsUnequal` true.
pub proof fn law_comparison_across_kinds(
    left: Node,
    right: Node,
    line: usize,
    env: Scope,
    depth: nat,
    out: Outcome,
    after: Scope,
)
    requires
        literal(left),
        literal(right),
        !same_kind(left, right),
    ensures
        evaluates(
            Node::IsEqual { left: Box::new(left), right: Box::new(right), line },
            env,
            depth,
            out,
            after,
        ) ==> after == env && out == Ok::<Node, Seq<char>>(Node::Boolean(false)),
        evaluates(
            Node::IsUnequal { left: Box::new(left), right: Box::new(right), line },
            env,
            depth,
            out,
            after,
        ) ==> after == env && out == Ok::<Node, Seq<char>>(Node::Boolean(true)),
{
    reveal_with_fuel(evaluates, 3);
    reveal_with_fuel(binary, 3);
}

/// A `let` of a reserved name is an error that names it, and the environment stays
/// as it was.
pub proof fn law_reserved_let(
    name: Seq<char>,
    value: Node,
    line: usize,
    env: Scope,
    depth: nat,
    out: Outcome,
    after: Scope,
)
    requires
        reserved(name),
        evaluates(
            Node::LetDeclaration { name: Some(name), value: Box::new(value), line },
            env,
            depth,
            out,
            after,
        ),
    ensures
        out == Err::<Node, Seq<char>>(reserved_keyword(name)),
        after == env,
{
}

/// A `let` of a literal under a name that is not reserved binds the name to the
/// value of the literal, and is found there afterwards.
pub proof fn law_let_of_literal(
    name: Seq<char>,
    value: Node,
    line: usize,
    env: Scope,
    depth: nat,
    out: Outcome,
    after: Scope,
)
    requires
        !reserved(name),
        literal(value),
        evaluates(
            Node::LetDeclaration { name: Some(name), value: Box::new(value), line },
            env,
            depth,
            out,
            after,
        ),
    ensures
        out == Ok::<Node, Seq<char>>(Node::Null),
        exists|v: Node| #[trigger] evaluates(value, env, depth, Ok(v), env) && after == bind(env, name, v)
            && lookup(after, name) == Some(v),
{
    reveal_with_fuel(evaluates, 2);
    let (r, mid) = choose|r: Outcome, mid: Scope| #[trigger]
        trigger((r, mid)) && evaluates(value, env, depth, r, mid) && let_ends(
            name,
            r,
            mid,
            out,
            after,
        );
    let v = r->Ok_0;
    lemma_lookup_bound(env, name, v);
}

/// A call of a function written in the language leaves the caller's environment as
/// it was, whatever the arguments and the body do, and so does a call of a property.
pub proof fn law_call_isolation(e: Node, env: Scope, depth: nat, out: Outcome, after: Scope)
    requires
        evaluates(e, env, depth, out, after),
        match e {
            Node::Call { name, .. } => lookup(env, name) matches Some(Node::Function { .. }),
            Node::PropertyCall { .. } => true,
            _ => false,
        },
    ensures
        after == env,
{
}

/// An import that succeeds binds its alias, and nothing else, to an object that holds
/// the bindings with which the module ended; one that fails changes nothing.
pub proof fn law_import(
    file: Seq<char>,
    alias: Seq<char>,
    line: usize,
    env: Scope,
    depth: nat,
    out: Outcome,
    after: Scope,
)
    requires
        evaluates(Node::Import { file, as_: alias, line }, env, depth, out, after),
    ensures
        out is Err ==> after == env,
        out is Ok ==> depth > 0 && exists|program: Seq<Node>, module: Scope| #[trigger]
            trigger((program, module)) && runs(program, env, (depth - 1) as nat, out, module)
                && after == bind(env, alias, Node::Object { properties: module, line })
                && lookup(after, alias) == Some(Node::Object { properties: module, line }),
        forall|other: Seq<char>| other != alias ==> lookup(after, other) == lookup(env, other),
{
    if out is Ok {
        let loaded = choose|loaded: Result<Seq<Node>, Seq<char>>| #[trigger]
            trigger(loaded) && imports(loaded, alias, line, env, (depth - 1) as nat, out, after);
        let program = loaded->Ok_0;
        let module = choose|end: Scope| #[trigger]
            trigger(end) && runs(program, env, (depth - 1) as nat, out, end) && after == bind(
                env,
                alias,
                Node::Object { properties: end, line },
            );
        let object = Node::Object { properties: module, line };
        assert(trigger((program, module)));
        lemma_lookup_bound(env, alias, object);
        assert forall|other: Seq<char>| other != alias implies lookup(after, other) == lookup(
            env,
            other,
        ) by {
            lemma_lookup_other(env, alias, object, other);
        }
    }
}

} // verus!
