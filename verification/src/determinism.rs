use crate::ast::{Node, Scope};
use crate::environment::{bind, distinct_names, lemma_bind_distinct, lemma_index_of_found, lookup};
use crate::render::float_free;
use crate::semantics::{
    binary, bound_raw, calls, combines_to, condition_not_boolean, evaluates, let_ends, passed, ran,
    reserved, runs, Outcome,
};
use vstd::pervasive::trigger;
use vstd::prelude::*;

verus! {

/// Whether a node asks nothing of the embedding wherever it is evaluated: no decimal
/// number, no native function and no import occurs in it.
pub open spec fn quiet(v: Node) -> bool
    decreases v,
{
    match v {
        Node::Float(_) | Node::InternalFunction { .. } | Node::Import { .. } => false,
        Node::LetDeclaration { value, .. } => quiet(*value),
        Node::Function { body, .. } => forall|i: int|
            0 <= i < body.len() ==> quiet(#[trigger] body[i]),
        Node::Object { properties, .. } => forall|i: int|
            0 <= i < properties.len() ==> quiet((#[trigger] properties[i]).1),
        Node::Call { args, .. } => forall|i: int| 0 <= i < args.len() ==> quiet(#[trigger] args[i]),
        Node::PropertyCall { args, .. } => forall|i: int|
            0 <= i < args.len() ==> quiet(#[trigger] args[i]),
        Node::Addition { left, right, .. } => quiet(*left) && quiet(*right),
        Node::Subtraction { left, right, .. } => quiet(*left) && quiet(*right),
        Node::IsEqual { left, right, .. } => quiet(*left) && quiet(*right),
        Node::IsUnequal { left, right, .. } => quiet(*left) && quiet(*right),
        Node::Exists { value, .. } => quiet(*value),
        Node::IfStatement { condition, body, .. } => quiet(*condition) && forall|i: int|
            0 <= i < body.len() ==> quiet(#[trigger] body[i]),
        _ => true,
    }
}

/// Whether every node of a list is quiet.
pub open spec fn all_quiet(items: Seq<Node>) -> bool {
    forall|i: int| 0 <= i < items.len() ==> quiet(#[trigger] items[i])
}

/// Whether every value that a scope binds is quiet.
pub open spec fn quiet_scope(scope: Scope) -> bool {
    forall|i: int| 0 <= i < scope.len() ==> quiet((#[trigger] scope[i]).1)
}

/// No decimal number occurs in a quiet node.
pub proof fn lemma_quiet_is_float_free(v: Node)
    requires
        quiet(v),
    ensures
        float_free(v),
    decreases v,
{
    match v {
        Node::LetDeclaration { value, .. } => lemma_quiet_is_float_free(*value),
        Node::Function { body, .. } => {
            assert forall|i: int| 0 <= i < body.len() implies float_free(#[trigger] body[i]) by {
                lemma_quiet_is_float_free(body[i]);
            }
        },
        Node::Object { properties, .. } => {
            assert forall|i: int| 0 <= i < properties.len() implies float_free(
                (#[trigger] properties[i]).1,
            ) by {
                lemma_quiet_is_float_free(properties[i].1);
            }
        },
        Node::Call { args, .. } => {
            assert forall|i: int| 0 <= i < args.len() implies float_free(#[trigger] args[i]) by {
                lemma_quiet_is_float_free(args[i]);
            }
        },
        Node::PropertyCall { args, .. } => {
            assert forall|i: int| 0 <= i < args.len() implies float_free(#[trigger] args[i]) by {
                lemma_quiet_is_float_free(args[i]);
            }
        },
        Node::Addition { left, right, .. } => {
            lemma_quiet_is_float_free(*left);
            lemma_quiet_is_float_free(*right);
        },
        Node::Subtraction { left, right, .. } => {
            lemma_quiet_is_float_free(*left);
            lemma_quiet_is_float_free(*right);
        },
        Node::IsEqual { left, right, .. } => {
            lemma_quiet_is_float_free(*left);
            lemma_quiet_is_float_free(*right);
        },
        Node::IsUnequal { left, right, .. } => {
            lemma_quiet_is_float_free(*left);
            lemma_quiet_is_float_free(*right);
        },
        Node::Exists { value, .. } => lemma_quiet_is_float_free(*value),
        Node::IfStatement { condition, body, .. } => {
            lemma_quiet_is_float_free(*condition);
            assert forall|i: int| 0 <= i < body.len() implies float_free(#[trigger] body[i]) by {
                lemma_quiet_is_float_free(body[i]);
            }
        },
        _ => {},
    }
}

/// What a quiet scope binds a name to is quiet.
pub proof fn lemma_quiet_lookup(scope: Scope, name: Seq<char>)
    requires
        quiet_scope(scope),
    ensures
        lookup(scope, name) matches Some(v) ==> quiet(v),
{
    lemma_index_of_found(scope, name);
}

/// Binding a quiet value in a quiet scope leaves it quiet.
pub proof fn lemma_quiet_bind(scope: Scope, name: Seq<char>, value: Node)
    requires
        quiet_scope(scope),
        quiet(value),
    ensures
        quiet_scope(bind(scope, name, value)),
{
    lemma_index_of_found(scope, name);
}

/// Binding parameters to quiet arguments as they stand leaves a quiet scope quiet.
pub proof fn lemma_quiet_bound_raw(env: Scope, params: Seq<Seq<char>>, args: Seq<Node>, n: nat)
    requires
        quiet_scope(env),
        all_quiet(args),
    ensures
        quiet_scope(bound_raw(env, params, args, n)),
    decreases n,
{
    if n == 0 || n > params.len() || n > args.len() {
    } else {
        lemma_quiet_bound_raw(env, params, args, (n - 1) as nat);
        lemma_quiet_bind(bound_raw(env, params, args, (n - 1) as nat), params[n - 1], args[n - 1]);
    }
}

/// Two quiet values combine in one way only, and to a quiet value.
pub proof fn lemma_combine_once(e: Node, left: Node, right: Node, first: Outcome, second: Outcome)
    requires
        quiet(left),
        quiet(right),
        combines_to(e, left, right, first),
        combines_to(e, left, right, second),
    ensures
        first == second,
        first matches Ok(v) ==> quiet(v),
{
    lemma_quiet_is_float_free(left);
    lemma_quiet_is_float_free(right);
}

/// Where the first `n` statements ran, each one before them ran with a value.
pub proof fn lemma_ran_prefix(
    stmts: Seq<Node>,
    n: nat,
    k: nat,
    env: Scope,
    depth: nat,
    reached: Scope,
) -> (step: (Scope, Node, Scope))
    requires
        k < n,
        ran(stmts, n, env, depth, reached),
    ensures
        ran(stmts, k, env, depth, step.0),
        evaluates(stmts[k as int], step.0, depth, Ok(step.1), step.2),
    decreases n,
{
    let (prev, v) = choose|prev: Scope, v: Node| #[trigger]
        trigger((prev, v)) && ran(stmts, (n - 1) as nat, env, depth, prev) && evaluates(
            stmts[n - 1],
            prev,
            depth,
            Ok(v),
            reached,
        );
    if k == n - 1 {
        (prev, v, reached)
    } else {
        lemma_ran_prefix(stmts, (n - 1) as nat, k, env, depth, prev)
    }
}

/// Where the first `n` arguments were passed, each one of them had a value.
pub proof fn lemma_passed_prefix(
    args: Seq<Node>,
    params: Seq<Seq<char>>,
    n: nat,
    k: nat,
    env: Scope,
    depth: nat,
    frame: Scope,
) -> (step: (Scope, Node, Scope))
    requires
        k < n,
        passed(args, params, n, env, depth, frame),
    ensures
        passed(args, params, k, env, depth, step.0),
        evaluates(args[k as int], env, depth, Ok(step.1), step.2),
    decreases n,
{
    let (prev, v, discarded) = choose|prev: Scope, v: Node, discarded: Scope| #[trigger]
        trigger((prev, v, discarded)) && passed(args, params, (n - 1) as nat, env, depth, prev)
            && evaluates(args[n - 1], env, depth, Ok(v), discarded) && frame == bind(
            prev,
            params[n - 1],
            v,
        );
    if k == n - 1 {
        (prev, v, discarded)
    } else {
        lemma_passed_prefix(args, params, (n - 1) as nat, k, env, depth, prev)
    }
}

/// The first `n` of quiet statements run in one way only from a quiet environment,
/// and leave a quiet one, in which no name is bound twice if none was before.
pub proof fn law_ran_once(
    stmts: Seq<Node>,
    n: nat,
    env: Scope,
    depth: nat,
    first: Scope,
    second: Scope,
)
    requires
        all_quiet(stmts),
        quiet_scope(env),
        ran(stmts, n, env, depth, first),
        ran(stmts, n, env, depth, second),
    ensures
        first == second,
        quiet_scope(first),
        distinct_names(env) ==> distinct_names(first),
    decreases depth, stmts, n,
{
    if n > 0 {
        let (prev_a, v1) = choose|prev: Scope, v: Node| #[trigger]
            trigger((prev, v)) && ran(stmts, (n - 1) as nat, env, depth, prev) && evaluates(
                stmts[n - 1],
                prev,
                depth,
                Ok(v),
                first,
            );
        let (prev_b, v2) = choose|prev: Scope, v: Node| #[trigger]
            trigger((prev, v)) && ran(stmts, (n - 1) as nat, env, depth, prev) && evaluates(
                stmts[n - 1],
                prev,
                depth,
                Ok(v),
                second,
            );
        law_ran_once(stmts, (n - 1) as nat, env, depth, prev_a, prev_b);
        law_evaluates_once(stmts[n - 1], prev_a, depth, Ok(v1), first, Ok(v2), second);
    }
}

/// Quiet statements run in one way only from a quiet environment, and leave a quiet
/// one, in which no name is bound twice if none was before.
pub proof fn law_runs_once(
    stmts: Seq<Node>,
    env: Scope,
    depth: nat,
    first: Outcome,
    after_first: Scope,
    second: Outcome,
    after_second: Scope,
)
    requires
        all_quiet(stmts),
        quiet_scope(env),
        runs(stmts, env, depth, first, after_first),
        runs(stmts, env, depth, second, after_second),
    ensures
        first == second,
        after_first == after_second,
        quiet_scope(after_first),
        distinct_names(env) ==> distinct_names(after_first),
        first matches Ok(v) ==> quiet(v),
    decreases depth, stmts, stmts.len() + 1,
{
    let n = stmts.len();
    if first is Ok && second is Ok {
        law_ran_once(stmts, n, env, depth, after_first, after_second);
    } else if first is Err {
        let (k1, prev_a) = choose|k: nat, prev: Scope| #[trigger]
            trigger((k, prev)) && k < stmts.len() && ran(stmts, k, env, depth, prev) && evaluates(
                stmts[k as int],
                prev,
                depth,
                first,
                after_first,
            );
        if second is Ok {
            let step = lemma_ran_prefix(stmts, n, k1, env, depth, after_second);
            law_ran_once(stmts, k1, env, depth, prev_a, step.0);
            law_evaluates_once(stmts[k1 as int], prev_a, depth, first, after_first, Ok(step.1), step.2);
        } else {
            let (k2, prev_b) = choose|k: nat, prev: Scope| #[trigger]
                trigger((k, prev)) && k < stmts.len() && ran(stmts, k, env, depth, prev)
                    && evaluates(stmts[k as int], prev, depth, second, after_second);
            if k1 < k2 {
                let step = lemma_ran_prefix(stmts, k2, k1, env, depth, prev_b);
                law_ran_once(stmts, k1, env, depth, prev_a, step.0);
                law_evaluates_once(
                    stmts[k1 as int],
                    prev_a,
                    depth,
                    first,
                    after_first,
                    Ok(step.1),
                    step.2,
                );
            } else if k2 < k1 {
                let step = lemma_ran_prefix(stmts, k1, k2, env, depth, prev_a);
                law_ran_once(stmts, k2, env, depth, prev_b, step.0);
                law_evaluates_once(
                    stmts[k2 as int],
                    prev_b,
                    depth,
                    second,
                    after_second,
                    Ok(step.1),
                    step.2,
                );
            } else {
                law_ran_once(stmts, k1, env, depth, prev_a, prev_b);
                law_evaluates_once(
                    stmts[k1 as int],
                    prev_a,
                    depth,
                    first,
                    after_first,
                    second,
                    after_second,
                );
            }
        }
    } else {
        let (k2, prev_b) = choose|k: nat, prev: Scope| #[trigger]
            trigger((k, prev)) && k < stmts.len() && ran(stmts, k, env, depth, prev) && evaluates(
                stmts[k as int],
                prev,
                depth,
                second,
                after_second,
            );
        let step = lemma_ran_prefix(stmts, n, k2, env, depth, after_first);
        law_ran_once(stmts, k2, env, depth, prev_b, step.0);
        law_evaluates_once(stmts[k2 as int], prev_b, depth, second, after_second, Ok(step.1), step.2);
    }
}

/// The first `n` of quiet arguments are passed in one way only from a quiet
/// environment, and make a quiet frame.
pub proof fn law_passed_once(
    args: Seq<Node>,
    params: Seq<Seq<char>>,
    n: nat,
    env: Scope,
    depth: nat,
    first: Scope,
    second: Scope,
)
    requires
        all_quiet(args),
        quiet_scope(env),
        passed(args, params, n, env, depth, first),
        passed(args, params, n, env, depth, second),
    ensures
        first == second,
        quiet_scope(first),
    decreases depth, args, n,
{
    if n > 0 {
        let (prev_a, v1, d1) = choose|prev: Scope, v: Node, discarded: Scope| #[trigger]
            trigger((prev, v, discarded)) && passed(args, params, (n - 1) as nat, env, depth, prev)
                && evaluates(args[n - 1], env, depth, Ok(v), discarded) && first == bind(
                prev,
                params[n - 1],
                v,
            );
        let (prev_b, v2, d2) = choose|prev: Scope, v: Node, discarded: Scope| #[trigger]
            trigger((prev, v, discarded)) && passed(args, params, (n - 1) as nat, env, depth, prev)
                && evaluates(args[n - 1], env, depth, Ok(v), discarded) && second == bind(
                prev,
                params[n - 1],
                v,
            );
        law_passed_once(args, params, (n - 1) as nat, env, depth, prev_a, prev_b);
        law_evaluates_once(args[n - 1], env, depth, Ok(v1), d1, Ok(v2), d2);
        lemma_quiet_bind(prev_a, params[n - 1], v1);
    }
}

/// A call with quiet arguments of a function with a quiet body ends in one way only
/// in a quiet environment.
pub proof fn law_calls_once(
    args: Seq<Node>,
    params: Seq<Seq<char>>,
    body: Seq<Node>,
    env: Scope,
    depth: nat,
    first: Outcome,
    second: Outcome,
)
    requires
        all_quiet(args),
        all_quiet(body),
        quiet_scope(env),
        calls(args, params, body, env, depth, first),
        calls(args, params, body, env, depth, second),
    ensures
        first == second,
        first matches Ok(v) ==> quiet(v),
    decreases depth, args, args.len() + 1,
{
    if depth > 0 {
        let inner = (depth - 1) as nat;
        let n = args.len();
        let fails_first = exists|k: nat, frame: Scope, discarded: Scope| #[trigger]
            trigger((k, frame, discarded)) && k < args.len() && passed(
                args,
                params,
                k,
                env,
                depth,
                frame,
            ) && evaluates(args[k as int], env, depth, first, discarded) && first is Err;
        let fails_second = exists|k: nat, frame: Scope, discarded: Scope| #[trigger]
            trigger((k, frame, discarded)) && k < args.len() && passed(
                args,
                params,
                k,
                env,
                depth,
                frame,
            ) && evaluates(args[k as int], env, depth, second, discarded) && second is Err;
        if fails_first {
            let (k1, f1, d1) = choose|k: nat, frame: Scope, discarded: Scope| #[trigger]
                trigger((k, frame, discarded)) && k < args.len() && passed(
                    args,
                    params,
                    k,
                    env,
                    depth,
                    frame,
                ) && evaluates(args[k as int], env, depth, first, discarded) && first is Err;
            if fails_second {
                let (k2, f2, d2) = choose|k: nat, frame: Scope, discarded: Scope| #[trigger]
                    trigger((k, frame, discarded)) && k < args.len() && passed(
                        args,
                        params,
                        k,
                        env,
                        depth,
                        frame,
                    ) && evaluates(args[k as int], env, depth, second, discarded) && second is Err;
                if k1 < k2 {
                    let step = lemma_passed_prefix(args, params, k2, k1, env, depth, f2);
                    law_evaluates_once(args[k1 as int], env, depth, first, d1, Ok(step.1), step.2);
                } else if k2 < k1 {
                    let step = lemma_passed_prefix(args, params, k1, k2, env, depth, f1);
                    law_evaluates_once(args[k2 as int], env, depth, second, d2, Ok(step.1), step.2);
                } else {
                    law_evaluates_once(args[k1 as int], env, depth, first, d1, second, d2);
                }
            } else {
                let (f2, e2) = choose|frame: Scope, end: Scope| #[trigger]
                    trigger((frame, end)) && passed(args, params, args.len(), env, depth, frame)
                        && runs(body, frame, inner, second, end);
                let step = lemma_passed_prefix(args, params, n, k1, env, depth, f2);
                law_evaluates_once(args[k1 as int], env, depth, first, d1, Ok(step.1), step.2);
            }
        } else {
            let (f1, e1) = choose|frame: Scope, end: Scope| #[trigger]
                trigger((frame, end)) && passed(args, params, args.len(), env, depth, frame) && runs(
                    body,
                    frame,
                    inner,
                    first,
                    end,
                );
            if fails_second {
                let (k2, f2, d2) = choose|k: nat, frame: Scope, discarded: Scope| #[trigger]
                    trigger((k, frame, discarded)) && k < args.len() && passed(
                        args,
                        params,
                        k,
                        env,
                        depth,
                        frame,
                    ) && evaluates(args[k as int], env, depth, second, discarded) && second is Err;
                let step = lemma_passed_prefix(args, params, n, k2, env, depth, f1);
                law_evaluates_once(args[k2 as int], env, depth, second, d2, Ok(step.1), step.2);
            } else {
                let (f2, e2) = choose|frame: Scope, end: Scope| #[trigger]
                    trigger((frame, end)) && passed(args, params, args.len(), env, depth, frame)
                        && runs(body, frame, inner, second, end);
                law_passed_once(args, params, n, env, depth, f1, f2);
                law_runs_once(body, f1, inner, first, e1, second, e2);
            }
        }
    }
}

/// A binary node with quiet operands has one outcome only in a quiet environment, and
/// leaves one environment only.
pub proof fn law_binary_once(
    e: Node,
    env: Scope,
    depth: nat,
    first: Outcome,
    after_first: Scope,
    second: Outcome,
    after_second: Scope,
)
    requires
        quiet(e),
        quiet_scope(env),
        binary(e, env, depth, first, after_first),
        binary(e, env, depth, second, after_second),
    ensures
        first == second,
        after_first == after_second,
        quiet_scope(after_first),
        distinct_names(env) ==> distinct_names(after_first),
        first matches Ok(v) ==> quiet(v),
    decreases depth, e, 0nat,
{
    match e {
        Node::Addition { left, right, .. }
        | Node::Subtraction { left, right, .. }
        | Node::IsEqual { left, right, .. }
        | Node::IsUnequal { left, right, .. } => {
            let (l1, m1, r1) = choose|l: Outcome, mid: Scope, r: Outcome| #[trigger]
                trigger((l, mid, r)) && evaluates(*left, env, depth, l, mid) && match l {
                    Err(failure) => first == Err::<Node, Seq<char>>(failure) && after_first == mid,
                    Ok(lv) => evaluates(*right, mid, depth, r, after_first) && match r {
                        Err(failure) => first == Err::<Node, Seq<char>>(failure),
                        Ok(rv) => combines_to(e, lv, rv, first),
                    },
                };
            let (l2, m2, r2) = choose|l: Outcome, mid: Scope, r: Outcome| #[trigger]
                trigger((l, mid, r)) && evaluates(*left, env, depth, l, mid) && match l {
                    Err(failure) => second == Err::<Node, Seq<char>>(failure) && after_second == mid,
                    Ok(lv) => evaluates(*right, mid, depth, r, after_second) && match r {
                        Err(failure) => second == Err::<Node, Seq<char>>(failure),
                        Ok(rv) => combines_to(e, lv, rv, second),
                    },
                };
            law_evaluates_once(*left, env, depth, l1, m1, l2, m2);
            if l1 is Ok {
                law_evaluates_once(*right, m1, depth, r1, after_first, r2, after_second);
                if r1 is Ok {
                    lemma_combine_once(e, l1->Ok_0, r1->Ok_0, first, second);
                }
            }
        },
        _ => {},
    }
}

/// Determinism: a quiet node has one outcome only in a quiet environment, and leaves
/// one environment only. The value is quiet, and so is the environment, in which no
/// name is bound twice if none was before.
pub proof fn law_evaluates_once(
    e: Node,
    env: Scope,
    depth: nat,
    first: Outcome,
    after_first: Scope,
    second: Outcome,
    after_second: Scope,
)
    requires
        quiet(e),
        quiet_scope(env),
        evaluates(e, env, depth, first, after_first),
        evaluates(e, env, depth, second, after_second),
    ensures
        first == second,
        after_first == after_second,
        quiet_scope(after_first),
        distinct_names(env) ==> distinct_names(after_first),
        first matches Ok(v) ==> quiet(v),
    decreases depth, e, 1nat,
{
    match e {
        Node::Identifer(name) => {
            lemma_quiet_lookup(env, name);
        },
        Node::Function { name, args, body, line } => {
            lemma_quiet_bind(env, name, Node::Function { name, args, body, line: 0 });
            if distinct_names(env) {
                lemma_bind_distinct(env, name, Node::Function { name, args, body, line: 0 });
            }
        },
        Node::LetDeclaration { name, value, line } => {
            if name is Some && !reserved(name->Some_0) {
                let n = name->Some_0;
                match *value {
                    Node::Identifer(source) => {
                        lemma_quiet_lookup(env, source);
                        if lookup(env, source) is Some && depth > 0 {
                            let stored = lookup(env, source)->Some_0;
                            let inner = (depth - 1) as nat;
                            let (r1, m1) = choose|r: Outcome, mid: Scope| #[trigger]
                                trigger((r, mid)) && evaluates(stored, env, inner, r, mid)
                                    && let_ends(n, r, mid, first, after_first);
                            let (r2, m2) = choose|r: Outcome, mid: Scope| #[trigger]
                                trigger((r, mid)) && evaluates(stored, env, inner, r, mid)
                                    && let_ends(n, r, mid, second, after_second);
                            law_evaluates_once(stored, env, inner, r1, m1, r2, m2);
                            if r1 is Ok {
                                lemma_quiet_bind(m1, n, r1->Ok_0);
                                if distinct_names(m1) {
                                    lemma_bind_distinct(m1, n, r1->Ok_0);
                                }
                            }
                        }
                    },
                    _ => {
                        let (r1, m1) = choose|r: Outcome, mid: Scope| #[trigger]
                            trigger((r, mid)) && evaluates(*value, env, depth, r, mid) && let_ends(
                                n,
                                r,
                                mid,
                                first,
                                after_first,
                            );
                        let (r2, m2) = choose|r: Outcome, mid: Scope| #[trigger]
                            trigger((r, mid)) && evaluates(*value, env, depth, r, mid) && let_ends(
                                n,
                                r,
                                mid,
                                second,
                                after_second,
                            );
                        law_evaluates_once(*value, env, depth, r1, m1, r2, m2);
                        if r1 is Ok {
                            lemma_quiet_bind(m1, n, r1->Ok_0);
                            if distinct_names(m1) {
                                lemma_bind_distinct(m1, n, r1->Ok_0);
                            }
                        }
                    },
                }
            }
        },
        Node::Call { name, args, line } => {
            lemma_quiet_lookup(env, name);
            match lookup(env, name) {
                Some(Node::Function { name: _, args: params, body, line: _ }) => {
                    if args.len() == params.len() {
                        law_calls_once(args, params, body, env, depth, first, second);
                    }
                },
                _ => {},
            }
        },
        Node::PropertyCall { object, property, args, line } => {
            lemma_quiet_lookup(env, object);
            match lookup(env, object) {
                Some(Node::Object { properties, line: _ }) => {
                    lemma_quiet_lookup(properties, property);
                    match lookup(properties, property) {
                        Some(Node::Function { name: callee, args: params, body, line: _ }) => {
                            if args.len() == params.len() && depth > 0 {
                                let inner = (depth - 1) as nat;
                                let frame = bound_raw(env, params, args, params.len());
                                lemma_quiet_bound_raw(env, params, args, params.len());
                                let e1 = choose|end: Scope| #[trigger]
                                    trigger(end) && runs(body, frame, inner, first, end);
                                let e2 = choose|end: Scope| #[trigger]
                                    trigger(end) && runs(body, frame, inner, second, end);
                                law_runs_once(body, frame, inner, first, e1, second, e2);
                            }
                        },
                        _ => {},
                    }
                },
                _ => {},
            }
        },
        Node::PropertyAccess { object, property, line } => {
            lemma_quiet_lookup(env, object);
            match lookup(env, object) {
                Some(Node::Object { properties, line: _ }) => {
                    lemma_quiet_lookup(properties, property);
                },
                _ => {},
            }
        },
        Node::Addition { .. } | Node::Subtraction { .. } | Node::IsEqual { .. } | Node::IsUnequal {
            ..
        } => {
            law_binary_once(e, env, depth, first, after_first, second, after_second);
        },
        Node::Exists { value, line } => {
            let r1 = choose|r: Outcome| #[trigger]
                trigger(r) && evaluates(*value, env, depth, r, after_first) && match r {
                    Ok(v) => first == Ok::<Node, Seq<char>>(Node::Boolean(!(v is Null))),
                    Err(e) => first == Err::<Node, Seq<char>>(e),
                };
            let r2 = choose|r: Outcome| #[trigger]
                trigger(r) && evaluates(*value, env, depth, r, after_second) && match r {
                    Ok(v) => second == Ok::<Node, Seq<char>>(Node::Boolean(!(v is Null))),
                    Err(e) => second == Err::<Node, Seq<char>>(e),
                };
            law_evaluates_once(*value, env, depth, r1, after_first, r2, after_second);
        },
        Node::IfStatement { condition, body, line } => {
            let (c1, m1) = choose|c: Outcome, mid: Scope| #[trigger]
                trigger((c, mid)) && evaluates(*condition, env, depth, c, mid) && match c {
                    Ok(Node::Boolean(true)) => runs(body, mid, depth, first, after_first),
                    Ok(Node::Boolean(false)) => first == Ok::<Node, Seq<char>>(Node::Null)
                        && after_first == mid,
                    Ok(_) => first == Err::<Node, Seq<char>>(condition_not_boolean()) && after_first == mid,
                    Err(e) => first == Err::<Node, Seq<char>>(e) && after_first == mid,
                };
            let (c2, m2) = choose|c: Outcome, mid: Scope| #[trigger]
                trigger((c, mid)) && evaluates(*condition, env, depth, c, mid) && match c {
                    Ok(Node::Boolean(true)) => runs(body, mid, depth, second, after_second),
                    Ok(Node::Boolean(false)) => second == Ok::<Node, Seq<char>>(Node::Null)
                        && after_second == mid,
                    Ok(_) => second == Err::<Node, Seq<char>>(condition_not_boolean()) && after_second == mid,
                    Err(e) => second == Err::<Node, Seq<char>>(e) && after_second == mid,
                };
            law_evaluates_once(*condition, env, depth, c1, m1, c2, m2);
            if c1 == Ok::<Node, Seq<char>>(Node::Boolean(true)) {
                law_runs_once(body, m1, depth, first, after_first, second, after_second);
            }
        },
        _ => {},
    }
}

} // verus!
