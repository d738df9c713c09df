use crate::ast::{clone_names, clone_nodes, names_view, nodes_view, Environment, Node, AST};
use crate::environment::{distinct_names, lookup};
use crate::host::Host;
use crate::messages::{
    condition_not_boolean_text, depth_exceeded_text, function_not_found_text, not_a_function_text,
    not_an_object_text, object_not_found_text, property_missing_text,
    property_not_a_function_text, property_not_found_text, reserved_keyword_text,
    variable_not_found_text, wrong_arity_text,
};
use crate::semantics::{
    binary, bound_raw, calls, depth_exceeded, evaluates, imports, outcome_view, passed,
    program_view, ran, reserved, runs, wrong_arity, Outcome,
};
use crate::text::strip_quotes;
use crate::values::{combine, unknown_expression_text};
use vstd::pervasive::trigger;
use vstd::prelude::*;

verus! {

/// How many nested entries into stored code `eval` allows: bodies of called
/// functions, imported modules, and stored values that a `let` evaluates again.
pub const MAX_DEPTH: usize = 64;

/// The outcome of a statement sequence: `Null`, or the error that stopped it.
pub open spec fn block_view(failure: Option<String>) -> Outcome {
    match failure {
        Some(e) => Err(e@),
        None => Ok(Node::Null),
    }
}

/// Whether a `let` may not bind `name`.
pub fn is_reserved(name: &String) -> (r: bool)
    ensures
        r == reserved(name@),
{
    let word_let = String::from_str("let");
    let word_true = String::from_str("true");
    let word_false = String::from_str("false");
    *name == word_let || *name == word_true || *name == word_false
}

/// Evaluates one node in `context`, which declarations and imports change.
pub fn eval<H: Host>(expr: AST, context: &mut Environment, host: &H) -> (out: Result<
    AST,
    String,
>)
    ensures
        evaluates(expr@, old(context)@, MAX_DEPTH as nat, outcome_view(out), final(context)@),
        distinct_names(final(context)@),
{
    eval_bounded(&expr, context, host, MAX_DEPTH)
}

/// Evaluates one node in `env` with `depth` nested entries into stored code allowed.
pub fn eval_bounded<H: Host>(expr: &AST, env: &mut Environment, host: &H, depth: usize) -> (out:
    Result<AST, String>)
    ensures
        evaluates(expr@, old(env)@, depth as nat, outcome_view(out), final(env)@),
        distinct_names(final(env)@),
    decreases depth, expr, 2nat,
{
    let out = eval_node(expr, env, host, depth);
    proof {
        use_type_invariant(&*env);
    }
    out
}

/// The rule of each kind of node.
fn eval_node<H: Host>(expr: &AST, env: &mut Environment, host: &H, depth: usize) -> (out: Result<
    AST,
    String,
>)
    ensures
        evaluates(expr@, old(env)@, depth as nat, outcome_view(out), final(env)@),
    decreases depth, expr, 1nat,
{
    match expr {
        AST::Number(_) | AST::Float(_) | AST::Boolean(_) | AST::Null | AST::Object { .. } => Ok(
            expr.clone(),
        ),
        AST::String(s) => Ok(AST::String(strip_quotes(s.as_str()))),
        AST::Identifer(name) => match env.get(name) {
            Some(value) => Ok(value.clone()),
            None => Ok(AST::Null),
        },
        AST::Semicolon => Ok(AST::Null),
        AST::Function { name, args, body, line } => {
            let declared = AST::Function {
                name: name.clone(),
                args: clone_names(args),
                body: clone_nodes(body),
                line: 0,
            };
            env.insert(name.clone(), declared);
            Ok(AST::Null)
        },
        AST::InternalFunction { .. } => Err(unknown_expression_text(expr, host)),
        AST::LetDeclaration { .. } => eval_let(expr, env, host, depth),
        AST::Call { .. } => eval_call(expr, env, host, depth),
        AST::PropertyCall { .. } => eval_property_call(expr, env, host, depth),
        AST::PropertyAccess { .. } => eval_property_access(expr, env),
        AST::Import { .. } => eval_import(expr, env, host, depth),
        AST::Addition { .. } | AST::Subtraction { .. } | AST::IsEqual { .. } | AST::IsUnequal {
            ..
        } => eval_binary(expr, env, host, depth),
        AST::Exists { value, .. } => {
            let r = eval_bounded(value, env, host, depth);
            assert(trigger(outcome_view(r)));
            match r {
                Ok(v) => {
                    let missing = match v {
                        AST::Null => true,
                        _ => false,
                    };
                    Ok(AST::Boolean(!missing))
                },
                Err(e) => Err(e),
            }
        },
        AST::IfStatement { .. } => eval_if(expr, env, host, depth),
    }
}

/// Evaluates the statements in order in `env` and stops at the first error, which it
/// returns.
pub fn run_block<H: Host>(stmts: &Vec<AST>, env: &mut Environment, host: &H, depth: usize) -> (failure:
    Option<String>)
    ensures
        runs(nodes_view(*stmts), old(env)@, depth as nat, block_view(failure), final(env)@),
        distinct_names(final(env)@),
    decreases depth, stmts, 0nat,
{
    proof {
        use_type_invariant(&*env);
    }
    let mut i: usize = 0;
    while i < stmts.len()
        invariant
            i <= stmts.len(),
            ran(nodes_view(*stmts), i as nat, old(env)@, depth as nat, env@),
            distinct_names(env@),
        decreases stmts.len() - i,
    {
        let ghost before = env@;
        let step = eval_bounded(&stmts[i], env, host, depth);
        assert(nodes_view(*stmts)[i as int] == stmts[i as int]@);
        match step {
            Ok(v) => {
                assert(trigger((before, v@)));
                assert(ran(nodes_view(*stmts), (i + 1) as nat, old(env)@, depth as nat, env@));
            },
            Err(e) => {
                assert(trigger((i as nat, before)));
                return Some(e);
            },
        }
        i += 1;
    }
    None
}

/// A `let`: evaluates the value, or evaluates again what the named value is bound
/// to, and binds the name to the result.
fn eval_let<H: Host>(expr: &AST, env: &mut Environment, host: &H, depth: usize) -> (out: Result<
    AST,
    String,
>)
    requires
        expr is LetDeclaration,
    ensures
        evaluates(expr@, old(env)@, depth as nat, outcome_view(out), final(env)@),
    decreases depth, expr, 0nat,
{
    match expr {
        AST::LetDeclaration { name, value, line } => {
            match name {
                None => Ok(AST::Null),
                Some(n) => {
                    if is_reserved(n) {
                        return Err(reserved_keyword_text(n));
                    }
                    let ghost before = env@;
                    let evaluated = match &**value {
                        AST::Identifer(source) => {
                            assert(value@ == Node::Identifer(source@));
                            let stored = match env.get(source) {
                                None => {
                                    return Err(variable_not_found_text(source));
                                },
                                Some(stored) => stored.clone(),
                            };
                            if depth == 0 {
                                return Err(depth_exceeded_text());
                            }
                            eval_bounded(&stored, env, host, depth - 1)
                        },
                        _ => eval_bounded(value, env, host, depth),
                    };
                    assert(trigger((outcome_view(evaluated), env@)));
                    match evaluated {
                        Ok(v) => {
                            env.insert(n.clone(), v);
                            Ok(AST::Null)
                        },
                        Err(e) => Err(e),
                    }
                },
            }
        },
        _ => Ok(AST::Null),
    }
}

/// A sum, a difference or a comparison: evaluates the left operand, then the right
/// one, and combines the two values.
fn eval_binary<H: Host>(expr: &AST, env: &mut Environment, host: &H, depth: usize) -> (out: Result<
    AST,
    String,
>)
    requires
        expr is Addition || expr is Subtraction || expr is IsEqual || expr is IsUnequal,
    ensures
        evaluates(expr@, old(env)@, depth as nat, outcome_view(out), final(env)@),
    decreases depth, expr, 0nat,
{
    match expr {
        AST::Addition { left, right, .. }
        | AST::Subtraction { left, right, .. }
        | AST::IsEqual { left, right, .. }
        | AST::IsUnequal { left, right, .. } => {
            let l = match eval_bounded(left, env, host, depth) {
                Ok(v) => v,
                Err(e) => {
                    assert(trigger((Err::<Node, Seq<char>>(e@), env@, Err::<Node, Seq<char>>(e@))));
                    assert(binary(expr@, old(env)@, depth as nat, Err(e@), env@));
                    return Err(e);
                },
            };
            let ghost mid = env@;
            let r = match eval_bounded(right, env, host, depth) {
                Ok(v) => v,
                Err(e) => {
                    assert(trigger((Ok::<Node, Seq<char>>(l@), mid, Err::<Node, Seq<char>>(e@))));
                    assert(binary(expr@, old(env)@, depth as nat, Err(e@), env@));
                    return Err(e);
                },
            };
            let ghost lv = l@;
            let ghost rv = r@;
            let out = combine(expr, l, r, host);
            assert(trigger((Ok::<Node, Seq<char>>(lv), mid, Ok::<Node, Seq<char>>(rv))));
            assert(binary(expr@, old(env)@, depth as nat, outcome_view(out), env@));
            out
        },
        _ => Ok(AST::Null),
    }
}

/// An `if`: evaluates the condition and, where it is true, the body in `env` itself.
fn eval_if<H: Host>(expr: &AST, env: &mut Environment, host: &H, depth: usize) -> (out: Result<
    AST,
    String,
>)
    requires
        expr is IfStatement,
    ensures
        evaluates(expr@, old(env)@, depth as nat, outcome_view(out), final(env)@),
    decreases depth, expr, 0nat,
{
    match expr {
        AST::IfStatement { condition, body, line } => {
            let c = match eval_bounded(condition, env, host, depth) {
                Ok(v) => v,
                Err(e) => {
                    assert(trigger((Err::<Node, Seq<char>>(e@), env@)));
                    return Err(e);
                },
            };
            assert(trigger((Ok::<Node, Seq<char>>(c@), env@)));
            match c {
                AST::Boolean(true) => match run_block(body, env, host, depth) {
                    Some(e) => Err(e),
                    None => Ok(AST::Null),
                },
                AST::Boolean(false) => Ok(AST::Null),
                _ => Err(condition_not_boolean_text()),
            }
        },
        _ => Ok(AST::Null),
    }
}

/// A call: of a function written in the language, in a copy of `env` with the
/// parameters bound to the values of the arguments; of a native function, by the host.
#[verifier::loop_isolation(false)]
fn eval_call<H: Host>(expr: &AST, env: &mut Environment, host: &H, depth: usize) -> (out: Result<
    AST,
    String,
>)
    requires
        expr is Call,
    ensures
        evaluates(expr@, old(env)@, depth as nat, outcome_view(out), final(env)@),
    decreases depth, expr, 0nat,
{
    match expr {
        AST::Call { name, args, line } => {
            assert(expr@ == Node::Call { name: name@, args: nodes_view(*args), line: *line });
            let native = match env.get(name) {
                None => {
                    return Err(function_not_found_text(name));
                },
                Some(AST::Function { name: callee, args: params, body, line: declared }) => {
                    assert(lookup(env@, name@) == Some(
                        Node::Function {
                            name: callee@,
                            args: names_view(*params),
                            body: nodes_view(*body),
                            line: *declared,
                        },
                    ));
                    if args.len() != params.len() {
                        let m = wrong_arity_text(name, params.len());
                        assert(m@ == wrong_arity(name@, names_view(*params).len()));
                        assert(nodes_view(*args).len() != names_view(*params).len());
                        return Err(m);
                    }
                    if depth == 0 {
                        assert(calls(
                            nodes_view(*args),
                            names_view(*params),
                            nodes_view(*body),
                            env@,
                            depth as nat,
                            Err(depth_exceeded()),
                        ));
                        return Err(depth_exceeded_text());
                    }
                    let mut frame = env.clone();
                    let mut i: usize = 0;
                    while i < args.len()
                        invariant
                            i <= args.len(),
                            args.len() == params.len(),
                            passed(
                                nodes_view(*args),
                                names_view(*params),
                                i as nat,
                                env@,
                                depth as nat,
                                frame@,
                            ),
                        decreases args.len() - i,
                    {
                        let mut scratch = env.clone();
                        let ghost prev = frame@;
                        let step = eval_bounded(&args[i], &mut scratch, host, depth);
                        assert(nodes_view(*args)[i as int] == args[i as int]@);
                        match step {
                            Ok(v) => {
                                assert(trigger((prev, v@, scratch@)));
                                frame.insert(params[i].clone(), v);
                            },
                            Err(e) => {
                                assert(trigger((i as nat, prev, scratch@)));
                                assert(calls(
                                    nodes_view(*args),
                                    names_view(*params),
                                    nodes_view(*body),
                                    env@,
                                    depth as nat,
                                    Err(e@),
                                ));
                                return Err(e);
                            },
                        }
                        i += 1;
                    }
                    let ghost bound = frame@;
                    let failure = run_block(body, &mut frame, host, depth - 1);
                    assert(trigger((bound, frame@)));
                    let out = match failure {
                        Some(e) => Err(e),
                        None => Ok(AST::Null),
                    };
                    assert(calls(
                        nodes_view(*args),
                        names_view(*params),
                        nodes_view(*body),
                        env@,
                        depth as nat,
                        outcome_view(out),
                    ));
                    return out;
                },
                Some(AST::InternalFunction { name: native, args: params, line: _ }) => {
                    if args.len() != params.len() {
                        return Err(wrong_arity_text(name, params.len()));
                    }
                    if depth == 0 {
                        return Err(depth_exceeded_text());
                    }
                    native.clone()
                },
                Some(_) => {
                    return Err(not_a_function_text(name));
                },
            };
            host.call_native(&native, clone_nodes(args), env, depth - 1)
        },
        _ => Ok(AST::Null),
    }
}

/// A call of a function that an object holds, in a copy of `env` with the parameters
/// bound to the arguments as they stand.
#[verifier::loop_isolation(false)]
fn eval_property_call<H: Host>(expr: &AST, env: &mut Environment, host: &H, depth: usize) -> (out:
    Result<AST, String>)
    requires
        expr is PropertyCall,
    ensures
        evaluates(expr@, old(env)@, depth as nat, outcome_view(out), final(env)@),
    decreases depth, expr, 0nat,
{
    match expr {
        AST::PropertyCall { object, property, args, line } => {
            assert(expr@ == Node::PropertyCall {
                object: object@,
                property: property@,
                args: nodes_view(*args),
                line: *line,
            });
            match env.get(object) {
                None => Err(object_not_found_text(object)),
                Some(AST::Object { properties, line: _ }) => match properties.get(property) {
                    None => Err(property_missing_text(property, object)),
                    Some(AST::Function { name: callee, args: params, body, line: declared }) => {
                        assert(lookup(properties@, property@) == Some(
                            Node::Function {
                                name: callee@,
                                args: names_view(*params),
                                body: nodes_view(*body),
                                line: *declared,
                            },
                        ));
                        if args.len() != params.len() {
                            let m = wrong_arity_text(callee, args.len());
                            assert(m@ == wrong_arity(callee@, nodes_view(*args).len()));
                            assert(nodes_view(*args).len() != names_view(*params).len());
                            return Err(m);
                        }
                        if depth == 0 {
                            return Err(depth_exceeded_text());
                        }
                        let mut frame = env.clone();
                        let mut i: usize = 0;
                        while i < args.len()
                            invariant
                                i <= args.len(),
                                args.len() == params.len(),
                                frame@ == bound_raw(
                                    env@,
                                    names_view(*params),
                                    nodes_view(*args),
                                    i as nat,
                                ),
                            decreases args.len() - i,
                        {
                            frame.insert(params[i].clone(), args[i].clone());
                            assert(nodes_view(*args)[i as int] == args[i as int]@);
                            i += 1;
                        }
                        let failure = run_block(body, &mut frame, host, depth - 1);
                        assert(trigger(frame@));
                        match failure {
                            Some(e) => Err(e),
                            None => Ok(AST::Null),
                        }
                    },
                    Some(_) => Err(property_not_a_function_text(property, object)),
                },
                Some(_) => Err(not_an_object_text(object)),
            }
        },
        _ => Ok(AST::Null),
    }
}

/// A read of a property of an object: its value as it is stored.
fn eval_property_access(expr: &AST, env: &Environment) -> (out: Result<AST, String>)
    requires
        expr is PropertyAccess,
    ensures
        forall|depth: nat| evaluates(expr@, env@, depth, outcome_view(out), env@),
{
    match expr {
        AST::PropertyAccess { object, property, line } => {
            match env.get(object) {
                None => Err(variable_not_found_text(object)),
                Some(AST::Object { properties, line: _ }) => match properties.get(property) {
                    None => Err(property_not_found_text(property)),
                    Some(value) => Ok(value.clone()),
                },
                Some(_) => Err(not_an_object_text(object)),
            }
        },
        _ => Ok(AST::Null),
    }
}

/// An import: asks the host for the module that the file name, without its quotes,
/// names, and ends the import with what it loaded.
fn eval_import<H: Host>(expr: &AST, env: &mut Environment, host: &H, depth: usize) -> (out: Result<
    AST,
    String,
>)
    requires
        expr is Import,
    ensures
        evaluates(expr@, old(env)@, depth as nat, outcome_view(out), final(env)@),
    decreases depth, expr, 0nat,
{
    match expr {
        AST::Import { file, as_, line } => {
            if depth == 0 {
                return Err(depth_exceeded_text());
            }
            let path = strip_quotes(file.as_str());
            let loaded = host.load_module(&path);
            assert(trigger(program_view(loaded)));
            import_loaded(loaded, as_, *line, env, host, depth - 1)
        },
        _ => Ok(AST::Null),
    }
}

/// Ends an import for which the embedding has answered with `loaded`: evaluates the
/// nodes that it loaded in a copy of `env`, at `depth`, and binds `alias` to an object
/// that holds the bindings with which they end.
pub fn import_loaded<H: Host>(
    loaded: Result<Vec<AST>, String>,
    alias: &String,
    line: usize,
    env: &mut Environment,
    host: &H,
    depth: usize,
) -> (out: Result<AST, String>)
    ensures
        imports(
            program_view(loaded),
            alias@,
            line,
            old(env)@,
            depth as nat,
            outcome_view(out),
            final(env)@,
        ),
        distinct_names(final(env)@),
    decreases depth, loaded, 0nat,
{
    proof {
        use_type_invariant(&*env);
    }
    match loaded {
        Err(e) => Err(e),
        Ok(program) => {
            let mut module = env.clone();
            let failure = run_block(&program, &mut module, host, depth);
            assert(trigger(module@));
            match failure {
                Some(e) => Err(e),
                None => {
                    env.insert(alias.clone(), AST::Object { properties: module, line });
                    Ok(AST::Null)
                },
            }
        },
    }
}

} // verus!
