use lang::ast::{Environment, AST};
use lang::eval::{eval, eval_bounded, import_loaded, is_reserved, run_block, MAX_DEPTH};
use lang::host::Host;
use lang::render::render_value;
use std::cell::RefCell;

/// A host with IEEE-754 arithmetic, one native function `print` that records what
/// it was given, and modules held in memory.
struct Embedding {
    printed: RefCell<Vec<String>>,
    modules: Vec<(String, Result<Vec<AST>, String>)>,
}

impl Embedding {
    fn new() -> Embedding {
        Embedding { printed: RefCell::new(Vec::new()), modules: Vec::new() }
    }
}

impl Host for Embedding {
    fn call_native(
        &self,
        name: &String,
        args: Vec<AST>,
        env: &mut Environment,
        depth: usize,
    ) -> Result<AST, String> {
        if name == "print" {
            let value = eval_bounded(&args[0], env, self, depth)?;
            self.printed.borrow_mut().push(render_value(&value, self));
            Ok(AST::Null)
        } else if name == "define" {
            env.insert("defined".to_string(), AST::Number(1));
            Ok(AST::Boolean(true))
        } else {
            Err(format!("no native function {}", name))
        }
    }

    fn load_module(&self, file: &String) -> Result<Vec<AST>, String> {
        for (name, module) in &self.modules {
            if name == file {
                return match module {
                    Ok(nodes) => Ok(nodes.clone()),
                    Err(e) => Err(e.clone()),
                };
            }
        }
        Err(format!("cannot read {}", file))
    }

    fn float_add(&self, a: u64, b: u64) -> u64 {
        (f64::from_bits(a) + f64::from_bits(b)).to_bits()
    }

    fn float_sub(&self, a: u64, b: u64) -> u64 {
        (f64::from_bits(a) - f64::from_bits(b)).to_bits()
    }

    fn float_from_int(&self, n: i64) -> u64 {
        (n as f64).to_bits()
    }

    fn float_text(&self, a: u64) -> String {
        format!("{:?}", f64::from_bits(a))
    }
}

fn create_context() -> Environment {
    let mut context = Environment::new();
    context.insert(
        "print".to_string(),
        AST::InternalFunction { name: "print".to_string(), args: vec!["value".to_string()], line: 0 },
    );
    context.insert(
        "define".to_string(),
        AST::InternalFunction { name: "define".to_string(), args: vec![], line: 0 },
    );
    context
}

fn float(x: f64) -> AST {
    AST::Float(x.to_bits())
}

fn text(s: &str) -> AST {
    AST::String(s.to_string())
}

fn name(s: &str) -> AST {
    AST::Identifer(s.to_string())
}

fn add(left: AST, right: AST) -> AST {
    AST::Addition { left: Box::new(left), right: Box::new(right), line: 0 }
}

fn sub(left: AST, right: AST) -> AST {
    AST::Subtraction { left: Box::new(left), right: Box::new(right), line: 0 }
}

fn equal(left: AST, right: AST) -> AST {
    AST::IsEqual { left: Box::new(left), right: Box::new(right), line: 0 }
}

fn unequal(left: AST, right: AST) -> AST {
    AST::IsUnequal { left: Box::new(left), right: Box::new(right), line: 0 }
}

fn let_(n: &str, value: AST) -> AST {
    AST::LetDeclaration { name: Some(n.to_string()), value: Box::new(value), line: 0 }
}

fn function(n: &str, params: &[&str], body: Vec<AST>) -> AST {
    AST::Function {
        name: n.to_string(),
        args: params.iter().map(|p| p.to_string()).collect(),
        body,
        line: 7,
    }
}

fn call(n: &str, args: Vec<AST>) -> AST {
    AST::Call { name: n.to_string(), args, line: 0 }
}

fn run(nodes: Vec<AST>, context: &mut Environment, host: &Embedding) -> Result<AST, String> {
    let mut last = AST::Null;
    for node in nodes {
        last = eval(node, context, host)?;
    }
    Ok(last)
}

#[test]
fn unknown_variable() {
    let mut context = create_context();

    let expr = AST::Identifer("unknown".to_string());

    assert_eq!(eval(expr, &mut context, &Embedding::new()).unwrap(), AST::Null);
}

#[test]
fn unknown_function() {
    let mut context = create_context();

    let expr = AST::Call { name: "cookie".to_string(), args: vec![], line: 0 };

    match eval(expr, &mut context, &Embedding::new()) {
        Ok(_) => {
            assert!(false);
        }

        Err(e) => {
            assert_eq!(e, "Function cookie not found");
        }
    }
}

#[test]
fn addition() {
    let mut context = create_context();

    let expr =
        AST::Addition { left: Box::new(AST::Number(1)), right: Box::new(AST::Number(2)), line: 0 };

    assert_eq!(eval(expr, &mut context, &Embedding::new()).unwrap(), AST::Number(3));
}

#[test]
fn subtraction() {
    let mut context = create_context();

    let expr = AST::Subtraction {
        left: Box::new(AST::Number(1)),
        right: Box::new(AST::Number(2)),
        line: 0,
    };

    assert_eq!(eval(expr, &mut context, &Embedding::new()).unwrap(), AST::Number(-1));
}

#[test]
fn negative_num() {
    let mut context = create_context();

    let expr =
        AST::Subtraction { left: Box::new(AST::Null), right: Box::new(AST::Number(2)), line: 0 };

    assert_eq!(eval(expr, &mut context, &Embedding::new()).unwrap(), AST::Number(-2));
}

#[test]
fn join_strings() {
    let mut context = create_context();

    let expr = AST::Addition {
        left: Box::new(AST::String("Hello,".to_string())),
        right: Box::new(AST::String(" World!".to_string())),
        line: 0,
    };

    assert_eq!(
        eval(expr, &mut context, &Embedding::new()).unwrap(),
        AST::String("Hello, World!".to_string())
    );
}

#[test]
fn add_floats() {
    let mut context = create_context();

    let expr = AST::Addition {
        left: Box::new(AST::Float(1.0f64.to_bits())),
        right: Box::new(AST::Float(2.0f64.to_bits())),
        line: 0,
    };

    assert_eq!(
        eval(expr, &mut context, &Embedding::new()).unwrap(),
        AST::Float(3.0f64.to_bits())
    );
}

#[test]
fn add_float_and_int() {
    let mut context = create_context();

    let expr = AST::Addition {
        left: Box::new(AST::Float(1.0f64.to_bits())),
        right: Box::new(AST::Number(2)),
        line: 0,
    };

    assert_eq!(
        eval(expr, &mut context, &Embedding::new()).unwrap(),
        AST::Float(3.0f64.to_bits())
    );
}

#[test]
fn add_int_and_string() {
    let mut context = create_context();

    let expr = AST::Addition {
        left: Box::new(AST::Number(1)),
        right: Box::new(AST::String(" cookie".to_string())),
        line: 0,
    };

    match eval(expr, &mut context, &Embedding::new()) {
        Ok(_) => {
            assert!(false);
        }

        Err(e) => {
            assert_eq!(e, "Cannot add Number(1) and String(\" cookie\")");
        }
    }
}

#[test]
fn literals_evaluate_to_themselves() {
    let host = Embedding::new();
    let mut context = create_context();
    let before = context.clone();
    let mut properties = Environment::new();
    properties.insert("a".to_string(), AST::Number(1));
    let object = AST::Object { properties, line: 3 };
    for literal in [AST::Number(-7), float(2.5), AST::Boolean(true), AST::Null, object] {
        assert_eq!(eval(literal.clone(), &mut context, &host).unwrap(), literal);
    }
    assert_eq!(eval(AST::Semicolon, &mut context, &host).unwrap(), AST::Null);
    assert_eq!(context, before);
}

#[test]
fn string_literal_loses_its_quotes_once() {
    let host = Embedding::new();
    let mut context = create_context();
    let once = eval(text("\"test\""), &mut context, &host).unwrap();
    assert_eq!(once, text("test"));
    let twice = eval(once, &mut context, &host).unwrap();
    assert_eq!(twice, text("test"));
}

#[test]
fn concatenation_leaves_no_quote() {
    let host = Embedding::new();
    let mut context = create_context();
    let sum = eval(add(text("\"a\""), text("\"b\"")), &mut context, &host).unwrap();
    assert_eq!(sum, text("ab"));
}

#[test]
fn integer_sum_wraps_around() {
    let host = Embedding::new();
    let mut context = create_context();
    let sum = eval(add(AST::Number(i64::MAX), AST::Number(1)), &mut context, &host).unwrap();
    assert_eq!(sum, AST::Number(i64::MIN));
    let difference = eval(sub(AST::Number(i64::MIN), AST::Number(1)), &mut context, &host).unwrap();
    assert_eq!(difference, AST::Number(i64::MAX));
    let negated = eval(sub(AST::Null, AST::Number(i64::MIN)), &mut context, &host).unwrap();
    assert_eq!(negated, AST::Number(i64::MIN));
}

#[test]
fn float_laws() {
    let host = Embedding::new();
    let mut context = create_context();
    assert_eq!(eval(sub(float(5.5), float(2.0)), &mut context, &host).unwrap(), float(3.5));
    assert_eq!(eval(add(AST::Number(2), float(0.25)), &mut context, &host).unwrap(), float(2.25));
    assert_eq!(eval(add(float(0.25), AST::Number(2)), &mut context, &host).unwrap(), float(2.25));
    assert_eq!(eval(sub(AST::Number(2), float(0.5)), &mut context, &host).unwrap(), float(1.5));
    assert_eq!(eval(sub(float(0.5), AST::Number(2)), &mut context, &host).unwrap(), float(-1.5));
    assert_eq!(eval(sub(AST::Null, float(1.5)), &mut context, &host).unwrap(), float(-1.5));
    assert_eq!(eval(sub(AST::Null, float(0.0)), &mut context, &host).unwrap(), float(-0.0));
    assert_eq!(eval(sub(float(1.5), AST::Null), &mut context, &host).unwrap(), float(1.5));
    assert_eq!(eval(sub(AST::Number(4), AST::Null), &mut context, &host).unwrap(), AST::Number(4));
}

#[test]
fn float_equality_is_ieee() {
    let host = Embedding::new();
    let mut context = create_context();
    let yes = AST::Boolean(true);
    let no = AST::Boolean(false);
    assert_eq!(eval(equal(float(1.5), float(1.5)), &mut context, &host).unwrap(), yes);
    assert_eq!(eval(equal(float(1.5), float(2.5)), &mut context, &host).unwrap(), no);
    assert_eq!(eval(equal(float(0.0), float(-0.0)), &mut context, &host).unwrap(), yes);
    assert_eq!(eval(equal(float(f64::NAN), float(f64::NAN)), &mut context, &host).unwrap(), no);
    assert_eq!(eval(unequal(float(f64::NAN), float(f64::NAN)), &mut context, &host).unwrap(), yes);
    assert_eq!(
        eval(equal(float(f64::INFINITY), float(f64::INFINITY)), &mut context, &host).unwrap(),
        yes
    );
    assert_eq!(
        eval(equal(float(f64::INFINITY), float(f64::NEG_INFINITY)), &mut context, &host).unwrap(),
        no
    );
    assert_eq!(eval(unequal(float(0.0), float(-0.0)), &mut context, &host).unwrap(), no);
}

#[test]
fn equality_of_one_kind() {
    let host = Embedding::new();
    let mut context = create_context();
    let yes = AST::Boolean(true);
    let no = AST::Boolean(false);
    assert_eq!(eval(equal(AST::Number(1), AST::Number(1)), &mut context, &host).unwrap(), yes);
    assert_eq!(eval(equal(AST::Number(1), AST::Number(2)), &mut context, &host).unwrap(), no);
    assert_eq!(eval(unequal(AST::Number(1), AST::Number(2)), &mut context, &host).unwrap(), yes);
    assert_eq!(eval(equal(text("a"), text("\"a\"")), &mut context, &host).unwrap(), yes);
    assert_eq!(eval(unequal(text("a"), text("b")), &mut context, &host).unwrap(), yes);
    assert_eq!(
        eval(equal(AST::Boolean(true), AST::Boolean(true)), &mut context, &host).unwrap(),
        yes
    );
    assert_eq!(
        eval(unequal(AST::Boolean(true), AST::Boolean(true)), &mut context, &host).unwrap(),
        no
    );
}

#[test]
fn equality_across_kinds() {
    let host = Embedding::new();
    let mut context = create_context();
    assert_eq!(
        eval(equal(AST::Number(1), text("1")), &mut context, &host).unwrap(),
        AST::Boolean(false)
    );
    assert_eq!(
        eval(unequal(AST::Number(1), text("1")), &mut context, &host).unwrap(),
        AST::Boolean(true)
    );
    assert_eq!(
        eval(equal(AST::Null, AST::Null), &mut context, &host).unwrap(),
        AST::Boolean(false)
    );
    assert_eq!(
        eval(equal(AST::Number(1), float(1.0)), &mut context, &host).unwrap(),
        AST::Boolean(false)
    );
    assert_eq!(
        eval(unequal(AST::Boolean(true), AST::Null), &mut context, &host).unwrap(),
        AST::Boolean(true)
    );
}

#[test]
fn exists_tells_null_apart() {
    let host = Embedding::new();
    let mut context = create_context();
    let missing = AST::Exists { value: Box::new(name("nothing")), line: 0 };
    assert_eq!(eval(missing, &mut context, &host).unwrap(), AST::Boolean(false));
    let present = AST::Exists { value: Box::new(AST::Number(0)), line: 0 };
    assert_eq!(eval(present, &mut context, &host).unwrap(), AST::Boolean(true));
    let failing = AST::Exists { value: Box::new(call("cookie", vec![])), line: 0 };
    assert_eq!(eval(failing, &mut context, &host).unwrap_err(), "Function cookie not found");
}

#[test]
fn let_binds_and_overwrites() {
    let host = Embedding::new();
    let mut context = Environment::new();
    assert_eq!(eval(let_("x", AST::Number(1)), &mut context, &host).unwrap(), AST::Null);
    assert_eq!(eval(let_("y", text("\"two\"")), &mut context, &host).unwrap(), AST::Null);
    assert_eq!(eval(let_("x", AST::Number(3)), &mut context, &host).unwrap(), AST::Null);
    assert_eq!(context.get(&"x".to_string()), Some(&AST::Number(3)));
    assert_eq!(context.get(&"y".to_string()), Some(&text("two")));
    assert_eq!(context.len(), 2);
    assert_eq!(context.entry(0), Some((&"x".to_string(), &AST::Number(3))));
}

#[test]
fn let_without_a_name_does_nothing() {
    let host = Embedding::new();
    let mut context = create_context();
    let before = context.clone();
    let nameless = AST::LetDeclaration { name: None, value: Box::new(AST::Number(1)), line: 0 };
    assert_eq!(eval(nameless, &mut context, &host).unwrap(), AST::Null);
    assert_eq!(context, before);
}

#[test]
fn let_of_a_reserved_name_fails() {
    let host = Embedding::new();
    for word in ["let", "true", "false"] {
        let mut context = create_context();
        let before = context.clone();
        let error = eval(let_(word, AST::Number(1)), &mut context, &host).unwrap_err();
        assert_eq!(error, format!("{} is a reserved keyword", word));
        assert_eq!(context, before);
    }
}

#[test]
fn let_of_an_identifier() {
    let host = Embedding::new();
    let mut context = create_context();
    let before = context.clone();
    let error = eval(let_("x", name("missing")), &mut context, &host).unwrap_err();
    assert_eq!(error, "Variable missing not found");
    assert_eq!(context, before);

    eval(let_("a", AST::Number(5)), &mut context, &host).unwrap();
    eval(let_("b", name("a")), &mut context, &host).unwrap();
    assert_eq!(context.get(&"b".to_string()), Some(&AST::Number(5)));
}

#[test]
fn let_evaluates_the_stored_value_again() {
    let host = Embedding::new();
    let mut context = create_context();
    context.insert("lazy".to_string(), add(AST::Number(1), AST::Number(2)));
    eval(let_("x", name("lazy")), &mut context, &host).unwrap();
    assert_eq!(context.get(&"x".to_string()), Some(&AST::Number(3)));

    context.insert("f".to_string(), function("g", &[], vec![]));
    eval(let_("y", name("f")), &mut context, &host).unwrap();
    assert_eq!(context.get(&"y".to_string()), Some(&AST::Null));
    assert!(matches!(context.get(&"g".to_string()), Some(AST::Function { .. })));

    let error = eval(let_("z", name("print")), &mut context, &host).unwrap_err();
    assert_eq!(
        error,
        "Unknown expression, got InternalFunction { name: \"print\", args: [\"value\"], line: 0 }"
    );
}

#[test]
fn let_propagates_the_error_of_its_value() {
    let host = Embedding::new();
    let mut context = create_context();
    let before = context.clone();
    let error = eval(let_("x", call("cookie", vec![])), &mut context, &host).unwrap_err();
    assert_eq!(error, "Function cookie not found");
    assert_eq!(context, before);
}

#[test]
fn function_declaration_registers_itself() {
    let host = Embedding::new();
    let mut context = Environment::new();
    let declaration = function("f", &["a"], vec![call("cookie", vec![])]);
    assert_eq!(eval(declaration, &mut context, &host).unwrap(), AST::Null);
    assert_eq!(
        context.get(&"f".to_string()),
        Some(&AST::Function {
            name: "f".to_string(),
            args: vec!["a".to_string()],
            body: vec![call("cookie", vec![])],
            line: 0,
        })
    );
}

#[test]
fn call_checks_the_number_of_arguments() {
    let host = Embedding::new();
    let mut context = create_context();
    eval(function("f", &["a", "b"], vec![]), &mut context, &host).unwrap();
    let before = context.clone();
    let error = eval(call("f", vec![AST::Number(1)]), &mut context, &host).unwrap_err();
    assert_eq!(error, "f takes 2 arguments");
    let error = eval(call("print", vec![]), &mut context, &host).unwrap_err();
    assert_eq!(error, "print takes 1 arguments");
    assert_eq!(context, before);
    assert_eq!(
        eval(call("f", vec![AST::Number(1), AST::Number(2)]), &mut context, &host).unwrap(),
        AST::Null
    );
}

#[test]
fn arity_with_many_parameters() {
    let host = Embedding::new();
    let mut context = create_context();
    let params: Vec<String> = (0..12).map(|i| format!("p{}", i)).collect();
    let refs: Vec<&str> = params.iter().map(|p| p.as_str()).collect();
    eval(function("wide", &refs, vec![]), &mut context, &host).unwrap();
    let error = eval(call("wide", vec![]), &mut context, &host).unwrap_err();
    assert_eq!(error, "wide takes 12 arguments");
}

#[test]
fn call_of_something_else_than_a_function() {
    let host = Embedding::new();
    let mut context = create_context();
    eval(let_("x", AST::Number(1)), &mut context, &host).unwrap();
    let error = eval(call("x", vec![]), &mut context, &host).unwrap_err();
    assert_eq!(error, "x is not a function");
}

#[test]
fn call_discards_the_value_of_the_body() {
    let host = Embedding::new();
    let mut context = create_context();
    eval(function("f", &[], vec![AST::Number(42)]), &mut context, &host).unwrap();
    assert_eq!(eval(call("f", vec![]), &mut context, &host).unwrap(), AST::Null);
}

#[test]
fn call_is_isolated_from_the_caller() {
    let host = Embedding::new();
    let mut context = create_context();
    eval(let_("outer", AST::Number(1)), &mut context, &host).unwrap();
    let body = vec![
        let_("outer", AST::Number(2)),
        let_("inner", AST::Number(3)),
        call("print", vec![name("outer")]),
        call("print", vec![name("inner")]),
    ];
    eval(function("f", &[], body), &mut context, &host).unwrap();
    let before = context.clone();
    assert_eq!(eval(call("f", vec![]), &mut context, &host).unwrap(), AST::Null);
    assert_eq!(context, before);
    assert_eq!(context.get(&"outer".to_string()), Some(&AST::Number(1)));
    assert_eq!(context.get(&"inner".to_string()), None);
    assert_eq!(*host.printed.borrow(), vec!["Number(2)".to_string(), "Number(3)".to_string()]);
}

#[test]
fn arguments_are_evaluated_in_the_callers_environment() {
    let host = Embedding::new();
    let mut context = create_context();
    eval(let_("a", AST::Number(10)), &mut context, &host).unwrap();
    let body = vec![call("print", vec![name("a")]), call("print", vec![name("b")])];
    eval(function("f", &["a", "b"], body), &mut context, &host).unwrap();
    // The second argument names `a`: it sees the caller's `a`, not the first parameter.
    let args = vec![add(AST::Number(1), AST::Number(1)), name("a")];
    assert_eq!(eval(call("f", args), &mut context, &host).unwrap(), AST::Null);
    assert_eq!(*host.printed.borrow(), vec!["Number(2)".to_string(), "Number(10)".to_string()]);
}

#[test]
fn arguments_do_not_change_the_caller() {
    let host = Embedding::new();
    let mut context = create_context();
    eval(function("f", &["a"], vec![]), &mut context, &host).unwrap();
    let before = context.clone();
    let args = vec![let_("leak", AST::Number(1))];
    assert_eq!(eval(call("f", args), &mut context, &host).unwrap(), AST::Null);
    assert_eq!(context, before);
}

#[test]
fn an_error_in_an_argument_or_in_the_body_ends_the_call() {
    let host = Embedding::new();
    let mut context = create_context();
    let body = vec![
        call("print", vec![AST::Number(1)]),
        call("cookie", vec![]),
        call("print", vec![AST::Number(2)]),
    ];
    eval(function("f", &["a"], body), &mut context, &host).unwrap();
    let error = eval(call("f", vec![call("milk", vec![])]), &mut context, &host).unwrap_err();
    assert_eq!(error, "Function milk not found");
    assert!(host.printed.borrow().is_empty());
    let error = eval(call("f", vec![AST::Null]), &mut context, &host).unwrap_err();
    assert_eq!(error, "Function cookie not found");
    assert_eq!(*host.printed.borrow(), vec!["Number(1)".to_string()]);
}

#[test]
fn native_call_gets_the_live_environment() {
    let host = Embedding::new();
    let mut context = create_context();
    assert_eq!(eval(call("define", vec![]), &mut context, &host).unwrap(), AST::Boolean(true));
    assert_eq!(context.get(&"defined".to_string()), Some(&AST::Number(1)));
    context.insert(
        "ghost".to_string(),
        AST::InternalFunction { name: "ghost".to_string(), args: vec![], line: 0 },
    );
    assert_eq!(
        eval(call("ghost", vec![]), &mut context, &host).unwrap_err(),
        "no native function ghost"
    );
}

#[test]
fn native_call_gets_the_arguments_unevaluated() {
    let host = Embedding::new();
    let mut context = create_context();
    let arg = add(AST::Number(1), AST::Number(2));
    assert_eq!(eval(call("print", vec![arg]), &mut context, &host).unwrap(), AST::Null);
    assert_eq!(*host.printed.borrow(), vec!["Number(3)".to_string()]);
}

#[test]
fn endless_recursion_ends_with_an_error() {
    let host = Embedding::new();
    let mut context = create_context();
    eval(function("f", &[], vec![call("f", vec![])]), &mut context, &host).unwrap();
    let error = eval(call("f", vec![]), &mut context, &host).unwrap_err();
    assert_eq!(error, "Maximum evaluation depth exceeded");
}

#[test]
fn depth_counts_nested_calls() {
    let host = Embedding::new();
    let mut context = create_context();
    eval(function("leaf", &[], vec![]), &mut context, &host).unwrap();
    eval(function("twice", &[], vec![call("leaf", vec![])]), &mut context, &host).unwrap();
    let leaf = call("leaf", vec![]);
    let twice = call("twice", vec![]);
    assert_eq!(
        eval_bounded(&leaf, &mut context, &host, 0).unwrap_err(),
        "Maximum evaluation depth exceeded"
    );
    assert_eq!(eval_bounded(&leaf, &mut context, &host, 1).unwrap(), AST::Null);
    assert_eq!(
        eval_bounded(&twice, &mut context, &host, 1).unwrap_err(),
        "Maximum evaluation depth exceeded"
    );
    assert_eq!(eval_bounded(&twice, &mut context, &host, 2).unwrap(), AST::Null);
    assert_eq!(eval_bounded(&AST::Number(1), &mut context, &host, 0).unwrap(), AST::Number(1));
    assert_eq!(MAX_DEPTH, 64);
}

#[test]
fn if_runs_its_body_in_the_current_environment() {
    let host = Embedding::new();
    let mut context = create_context();
    let taken = AST::IfStatement {
        condition: Box::new(equal(AST::Number(1), AST::Number(1))),
        body: vec![let_("x", AST::Number(1)), let_("y", AST::Number(2))],
        line: 0,
    };
    assert_eq!(eval(taken, &mut context, &host).unwrap(), AST::Null);
    assert_eq!(context.get(&"x".to_string()), Some(&AST::Number(1)));
    assert_eq!(context.get(&"y".to_string()), Some(&AST::Number(2)));

    let skipped = AST::IfStatement {
        condition: Box::new(AST::Boolean(false)),
        body: vec![let_("z", AST::Number(1))],
        line: 0,
    };
    assert_eq!(eval(skipped, &mut context, &host).unwrap(), AST::Null);
    assert_eq!(context.get(&"z".to_string()), None);
}

#[test]
fn if_needs_a_boolean() {
    let host = Embedding::new();
    let mut context = create_context();
    let wrong = AST::IfStatement { condition: Box::new(AST::Number(1)), body: vec![], line: 0 };
    assert_eq!(
        eval(wrong, &mut context, &host).unwrap_err(),
        "If statement condition must return a boolean"
    );
}

#[test]
fn if_stops_at_the_first_error() {
    let host = Embedding::new();
    let mut context = create_context();
    let failing = AST::IfStatement {
        condition: Box::new(AST::Boolean(true)),
        body: vec![let_("x", AST::Number(1)), call("cookie", vec![]), let_("y", AST::Number(2))],
        line: 0,
    };
    assert_eq!(eval(failing, &mut context, &host).unwrap_err(), "Function cookie not found");
    assert_eq!(context.get(&"x".to_string()), Some(&AST::Number(1)));
    assert_eq!(context.get(&"y".to_string()), None);
}

#[test]
fn operands_are_evaluated_left_to_right() {
    let host = Embedding::new();
    let mut context = create_context();
    let both = add(call("print", vec![AST::Number(1)]), call("print", vec![AST::Number(2)]));
    assert_eq!(
        eval(both, &mut context, &host).unwrap_err(),
        "Cannot add Null and Null"
    );
    assert_eq!(*host.printed.borrow(), vec!["Number(1)".to_string(), "Number(2)".to_string()]);
    let failing = add(call("cookie", vec![]), call("print", vec![AST::Number(3)]));
    assert_eq!(eval(failing, &mut context, &host).unwrap_err(), "Function cookie not found");
    assert_eq!(host.printed.borrow().len(), 2);
}

#[test]
fn subtraction_of_other_values_fails() {
    let host = Embedding::new();
    let mut context = create_context();
    assert_eq!(
        eval(sub(text("a"), text("b")), &mut context, &host).unwrap_err(),
        "Cannot subtract String(\"a\") and String(\"b\")"
    );
    assert_eq!(
        eval(sub(AST::Null, AST::Null), &mut context, &host).unwrap_err(),
        "Cannot subtract Null and Null"
    );
    assert_eq!(
        eval(sub(AST::Boolean(true), AST::Number(-3)), &mut context, &host).unwrap_err(),
        "Cannot subtract Boolean(true) and Number(-3)"
    );
    assert_eq!(
        eval(add(float(1.5), AST::Boolean(false)), &mut context, &host).unwrap_err(),
        "Cannot add Float(1.5) and Boolean(false)"
    );
}

fn module_object() -> AST {
    let mut properties = Environment::new();
    properties.insert("answer".to_string(), AST::Number(42));
    properties.insert(
        "show".to_string(),
        function("show", &["what"], vec![call("print", vec![name("what")])]),
    );
    AST::Object { properties, line: 0 }
}

#[test]
fn property_access() {
    let host = Embedding::new();
    let mut context = create_context();
    context.insert("m".to_string(), module_object());
    context.insert("n".to_string(), AST::Number(1));
    let read = |object: &str, property: &str| AST::PropertyAccess {
        object: object.to_string(),
        property: property.to_string(),
        line: 0,
    };
    assert_eq!(eval(read("m", "answer"), &mut context, &host).unwrap(), AST::Number(42));
    assert_eq!(
        eval(read("m", "question"), &mut context, &host).unwrap_err(),
        "Property \"question\" not found"
    );
    assert_eq!(eval(read("n", "answer"), &mut context, &host).unwrap_err(), "n is not an object");
    assert_eq!(
        eval(read("o", "answer"), &mut context, &host).unwrap_err(),
        "Variable o not found"
    );
}

#[test]
fn property_call() {
    let host = Embedding::new();
    let mut context = create_context();
    context.insert("m".to_string(), module_object());
    context.insert("n".to_string(), AST::Number(1));
    let before = context.clone();
    let invoke = |object: &str, property: &str, args: Vec<AST>| AST::PropertyCall {
        object: object.to_string(),
        property: property.to_string(),
        args,
        line: 0,
    };
    // The parameter is bound to the argument as it stands, not to its value.
    let arg = add(AST::Number(1), AST::Number(2));
    assert_eq!(eval(invoke("m", "show", vec![arg]), &mut context, &host).unwrap(), AST::Null);
    assert_eq!(
        *host.printed.borrow(),
        vec!["Addition { left: Number(1), right: Number(2), line: 0 }".to_string()]
    );
    assert_eq!(
        eval(invoke("m", "show", vec![]), &mut context, &host).unwrap_err(),
        "show takes 0 arguments"
    );
    assert_eq!(
        eval(invoke("m", "answer", vec![]), &mut context, &host).unwrap_err(),
        "answer of m is not a function"
    );
    assert_eq!(
        eval(invoke("m", "hide", vec![]), &mut context, &host).unwrap_err(),
        "Property hide not found in object m"
    );
    assert_eq!(
        eval(invoke("n", "show", vec![]), &mut context, &host).unwrap_err(),
        "n is not an object"
    );
    assert_eq!(
        eval(invoke("o", "show", vec![]), &mut context, &host).unwrap_err(),
        "Object o not found"
    );
    assert_eq!(context, before);
}

#[test]
fn import_binds_the_alias_to_the_modules_bindings() {
    let mut host = Embedding::new();
    host.modules.push((
        "lib.lang".to_string(),
        Ok(vec![let_("answer", AST::Number(42)), function("f", &[], vec![])]),
    ));
    let mut context = create_context();
    eval(let_("mine", AST::Number(1)), &mut context, &host).unwrap();
    let before = context.clone();
    let import =
        AST::Import { file: "\"lib.lang\"".to_string(), as_: "lib".to_string(), line: 9 };
    assert_eq!(eval(import, &mut context, &host).unwrap(), AST::Null);

    let mut module = before.clone();
    module.insert("answer".to_string(), AST::Number(42));
    module.insert(
        "f".to_string(),
        AST::Function { name: "f".to_string(), args: vec![], body: vec![], line: 0 },
    );
    let mut expected = before.clone();
    expected.insert("lib".to_string(), AST::Object { properties: module, line: 9 });
    assert_eq!(context, expected);
    assert_eq!(context.get(&"answer".to_string()), None);
    assert_eq!(context.get(&"mine".to_string()), Some(&AST::Number(1)));

    let read =
        AST::PropertyAccess { object: "lib".to_string(), property: "answer".to_string(), line: 0 };
    assert_eq!(eval(read, &mut context, &host).unwrap(), AST::Number(42));
}

#[test]
fn import_failures_change_nothing() {
    let mut host = Embedding::new();
    host.modules.push(("broken.lang".to_string(), Err("unexpected token".to_string())));
    host.modules.push((
        "failing.lang".to_string(),
        Ok(vec![let_("a", AST::Number(1)), call("cookie", vec![])]),
    ));
    let mut context = create_context();
    let before = context.clone();
    let import = |file: &str| AST::Import {
        file: file.to_string(),
        as_: "m".to_string(),
        line: 0,
    };
    assert_eq!(
        eval(import("missing.lang"), &mut context, &host).unwrap_err(),
        "cannot read missing.lang"
    );
    assert_eq!(
        eval(import("\"broken.lang\""), &mut context, &host).unwrap_err(),
        "unexpected token"
    );
    assert_eq!(
        eval(import("failing.lang"), &mut context, &host).unwrap_err(),
        "Function cookie not found"
    );
    assert_eq!(context, before);
}

#[test]
fn run_block_stops_at_the_first_error() {
    let host = Embedding::new();
    let mut context = create_context();
    let program = vec![let_("x", AST::Number(1)), call("cookie", vec![]), let_("y", AST::Null)];
    let failure = run_block(&program, &mut context, &host, MAX_DEPTH);
    assert_eq!(failure, Some("Function cookie not found".to_string()));
    assert_eq!(context.get(&"x".to_string()), Some(&AST::Number(1)));
    assert_eq!(context.get(&"y".to_string()), None);
    assert_eq!(run_block(&vec![AST::Semicolon], &mut context, &host, 0), None);
}

#[test]
fn declarations_then_a_sum() {
    let host = Embedding::new();
    let mut context = create_context();
    run(vec![let_("x", AST::Number(1)), let_("y", AST::Number(2))], &mut context, &host).unwrap();
    assert_eq!(eval(add(name("x"), name("y")), &mut context, &host).unwrap(), AST::Number(3));
}

#[test]
fn depth_is_needed_for_stored_code_only() {
    let mut host = Embedding::new();
    host.modules.push(("m".to_string(), Ok(vec![])));
    let mut context = create_context();
    context.insert("stored".to_string(), AST::Number(1));
    let before = context.clone();
    let exceeded = "Maximum evaluation depth exceeded";

    let again = let_("x", name("stored"));
    assert_eq!(eval_bounded(&again, &mut context, &host, 0).unwrap_err(), exceeded);
    let import = AST::Import { file: "m".to_string(), as_: "m".to_string(), line: 0 };
    assert_eq!(eval_bounded(&import, &mut context, &host, 0).unwrap_err(), exceeded);
    let native = call("print", vec![AST::Number(1)]);
    assert_eq!(eval_bounded(&native, &mut context, &host, 0).unwrap_err(), exceeded);
    let mut object = Environment::new();
    object.insert("f".to_string(), function("f", &[], vec![]));
    context.insert("o".to_string(), AST::Object { properties: object, line: 0 });
    let property = AST::PropertyCall {
        object: "o".to_string(),
        property: "f".to_string(),
        args: vec![],
        line: 0,
    };
    assert_eq!(eval_bounded(&property, &mut context, &host, 0).unwrap_err(), exceeded);
    assert!(host.printed.borrow().is_empty());

    let fresh = let_("y", AST::Number(2));
    assert_eq!(eval_bounded(&fresh, &mut context, &host, 0).unwrap(), AST::Null);
    let sum = add(name("stored"), name("y"));
    assert_eq!(eval_bounded(&sum, &mut context, &host, 0).unwrap(), AST::Number(3));
    assert_eq!(eval_bounded(&again, &mut context, &host, 1).unwrap(), AST::Null);
    assert_eq!(eval_bounded(&import, &mut context, &host, 1).unwrap(), AST::Null);
    assert_eq!(context.get(&"stored".to_string()), before.get(&"stored".to_string()));
}

#[test]
fn an_import_ends_with_what_was_loaded() {
    let host = Embedding::new();
    let mut context = create_context();
    let before = context.clone();
    let alias = "m".to_string();

    let failed = import_loaded(Err("no such file".to_string()), &alias, 4, &mut context, &host, 3);
    assert_eq!(failed.unwrap_err(), "no such file");
    assert_eq!(context, before);

    let program = vec![let_("a", AST::Number(1)), call("cookie", vec![])];
    let failed = import_loaded(Ok(program), &alias, 4, &mut context, &host, 3);
    assert_eq!(failed.unwrap_err(), "Function cookie not found");
    assert_eq!(context, before);

    let program = vec![let_("a", AST::Number(1))];
    assert_eq!(import_loaded(Ok(program), &alias, 4, &mut context, &host, 0).unwrap(), AST::Null);
    let mut module = before.clone();
    module.insert("a".to_string(), AST::Number(1));
    let mut expected = before.clone();
    expected.insert("m".to_string(), AST::Object { properties: module, line: 4 });
    assert_eq!(context, expected);
}

#[test]
fn reserved_names() {
    for word in ["let", "true", "false"] {
        assert!(is_reserved(&word.to_string()));
    }
    for word in ["", "Let", "lets", "x", "null", "print"] {
        assert!(!is_reserved(&word.to_string()));
    }
}
