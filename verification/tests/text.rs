use lang::ast::{Environment, AST};
use lang::host::Host;
use lang::messages::{property_not_found_text, wrong_arity_text};
use lang::render::render_value;
use lang::text::{chars_of, join, push_decimal, push_signed_decimal, strip_quotes};
use lang::values::{floats_equal, negate_float, same_values};

struct NoHost;

impl Host for NoHost {
    fn call_native(
        &self,
        name: &String,
        _args: Vec<AST>,
        _env: &mut Environment,
        _depth: usize,
    ) -> Result<AST, String> {
        Err(format!("no native function {}", name))
    }

    fn load_module(&self, file: &String) -> Result<Vec<AST>, String> {
        Err(format!("cannot read {}", file))
    }

    fn float_add(&self, a: u64, b: u64) -> u64 {
        (f64::from_bits(a) + f64::from_bits(b)).to_bits()
    }

    fn float_sub(&self, a: u64, b: u64) -> u64 {
        (f64::from_bits(a) - f64::from_bits(b)).to_bits()
    }

    fn float_from_int(&self, n: i64) -> u64 {
        (n as f64).to_bits()
    }

    fn float_text(&self, a: u64) -> String {
        format!("{:?}", f64::from_bits(a))
    }
}

#[test]
fn strip_quotes_removes_every_quote() {
    assert_eq!(strip_quotes("\"test\""), "test");
    assert_eq!(strip_quotes("test"), "test");
    assert_eq!(strip_quotes("\"\""), "");
    assert_eq!(strip_quotes(""), "");
    assert_eq!(strip_quotes("a\"b\"c"), "abc");
    assert_eq!(strip_quotes("\"é'\\n\""), "é'\\n");
    assert_eq!(strip_quotes(&strip_quotes("\"a\"")), strip_quotes("\"a\""));
}

#[test]
fn chars_and_joins() {
    assert_eq!(chars_of("aé!"), vec!['a', 'é', '!']);
    assert!(chars_of("").is_empty());
    assert_eq!(join("Hello,", " World!"), "Hello, World!");
    assert_eq!(join("", "b"), "b");
    assert_eq!(join("a", ""), "a");
}

fn decimal(n: u64) -> String {
    let mut out = "n=".to_string();
    push_decimal(&mut out, n);
    out
}

fn signed(n: i64) -> String {
    let mut out = String::new();
    push_signed_decimal(&mut out, n);
    out
}

#[test]
fn decimal_numerals() {
    assert_eq!(decimal(0), "n=0");
    assert_eq!(decimal(9), "n=9");
    assert_eq!(decimal(10), "n=10");
    assert_eq!(decimal(1234567890), "n=1234567890");
    assert_eq!(decimal(u64::MAX), "n=18446744073709551615");
    assert_eq!(signed(0), "0");
    assert_eq!(signed(-1), "-1");
    assert_eq!(signed(-120), "-120");
    assert_eq!(signed(i64::MAX), "9223372036854775807");
    assert_eq!(signed(i64::MIN), "-9223372036854775808");
}

#[test]
fn messages_with_numbers_and_quoted_names() {
    assert_eq!(wrong_arity_text(&"f".to_string(), 0), "f takes 0 arguments");
    assert_eq!(wrong_arity_text(&"f".to_string(), 10), "f takes 10 arguments");
    assert_eq!(property_not_found_text(&"a\"b".to_string()), "Property \"a\\\"b\" not found");
}

#[test]
fn float_bits() {
    let nan = f64::NAN.to_bits();
    assert!(!floats_equal(nan, nan));
    assert!(!floats_equal(nan, 1.0f64.to_bits()));
    assert!(floats_equal(0.0f64.to_bits(), (-0.0f64).to_bits()));
    assert!(floats_equal(2.5f64.to_bits(), 2.5f64.to_bits()));
    assert!(!floats_equal(2.5f64.to_bits(), (-2.5f64).to_bits()));
    assert!(floats_equal(f64::MIN_POSITIVE.to_bits(), f64::MIN_POSITIVE.to_bits()));
    assert_eq!(negate_float(2.5f64.to_bits()), (-2.5f64).to_bits());
    assert_eq!(negate_float((-0.0f64).to_bits()), 0.0f64.to_bits());
    assert_eq!(negate_float(f64::INFINITY.to_bits()), f64::NEG_INFINITY.to_bits());
    for (a, b) in [(1.0, 1.0), (1.0, 2.0), (0.0, -0.0), (f64::NAN, 0.0), (f64::INFINITY, 1e308)] {
        assert_eq!(floats_equal(f64::to_bits(a), f64::to_bits(b)), a == b);
    }
}

#[test]
fn same_values_compares_within_a_kind() {
    assert!(same_values(&AST::Number(1), &AST::Number(1)));
    assert!(!same_values(&AST::Number(1), &AST::Number(2)));
    assert!(same_values(&AST::String("a".to_string()), &AST::String("a".to_string())));
    assert!(!same_values(&AST::String("a".to_string()), &AST::String("b".to_string())));
    assert!(same_values(&AST::Boolean(false), &AST::Boolean(false)));
    assert!(!same_values(&AST::Null, &AST::Null));
    assert!(!same_values(&AST::Number(1), &AST::Boolean(true)));
    assert!(!same_values(&AST::Semicolon, &AST::Semicolon));
}

fn shown(v: &AST) -> String {
    render_value(v, &NoHost)
}

#[test]
fn rendering_of_values() {
    assert_eq!(shown(&AST::Number(-12)), "Number(-12)");
    assert_eq!(shown(&AST::Float(1.0f64.to_bits())), "Float(1.0)");
    assert_eq!(shown(&AST::String("a\"b\n".to_string())), "String(\"a\\\"b\\n\")");
    assert_eq!(shown(&AST::Boolean(true)), "Boolean(true)");
    assert_eq!(shown(&AST::Boolean(false)), "Boolean(false)");
    assert_eq!(shown(&AST::Null), "Null");
    assert_eq!(shown(&AST::Semicolon), "Semicolon");
    assert_eq!(shown(&AST::Identifer("x".to_string())), "Identifer(\"x\")");
}

#[test]
fn rendering_follows_the_derived_debug_text() {
    let nodes = vec![
        AST::LetDeclaration { name: Some("x".to_string()), value: Box::new(AST::Null), line: 1 },
        AST::LetDeclaration { name: None, value: Box::new(AST::Number(3)), line: 12 },
        AST::Function {
            name: "f".to_string(),
            args: vec!["a".to_string(), "b".to_string()],
            body: vec![AST::Number(1), AST::Semicolon, AST::Identifer("a".to_string())],
            line: 0,
        },
        AST::Function { name: "g".to_string(), args: vec![], body: vec![], line: 5 },
        AST::InternalFunction { name: "print".to_string(), args: vec!["v".to_string()], line: 0 },
        AST::Call { name: "f".to_string(), args: vec![AST::Number(1), AST::Null], line: 2 },
        AST::PropertyCall {
            object: "o".to_string(),
            property: "p".to_string(),
            args: vec![AST::Boolean(true)],
            line: 3,
        },
        AST::PropertyAccess { object: "o".to_string(), property: "p".to_string(), line: 4 },
        AST::Import { file: "\"m.lang\"".to_string(), as_: "m".to_string(), line: 100 },
        AST::Addition { left: Box::new(AST::Number(1)), right: Box::new(AST::Null), line: 6 },
        AST::Subtraction { left: Box::new(AST::Number(1)), right: Box::new(AST::Null), line: 7 },
        AST::IsEqual { left: Box::new(AST::Number(1)), right: Box::new(AST::Null), line: 8 },
        AST::IsUnequal { left: Box::new(AST::Number(1)), right: Box::new(AST::Null), line: 9 },
        AST::Exists { value: Box::new(AST::Identifer("x".to_string())), line: 10 },
        AST::IfStatement {
            condition: Box::new(AST::Boolean(false)),
            body: vec![AST::Semicolon, AST::Semicolon],
            line: 11,
        },
    ];
    for node in &nodes {
        assert_eq!(shown(node), format!("{:?}", node));
    }
}

#[test]
fn rendering_of_an_object() {
    let mut properties = Environment::new();
    assert_eq!(
        shown(&AST::Object { properties: properties.clone(), line: 1 }),
        "Object { properties: {}, line: 1 }"
    );
    properties.insert("a".to_string(), AST::Number(1));
    properties.insert("b".to_string(), AST::Float(0.5f64.to_bits()));
    assert_eq!(
        shown(&AST::Object { properties, line: 0 }),
        "Object { properties: {\"a\": Number(1), \"b\": Float(0.5)}, line: 0 }"
    );
}
