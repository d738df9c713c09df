use lang::ast::{Environment, AST};
use lang::eval::eval;
use lang::host::Host;
use lang::lexer::Token;
use lang::parser::{number_of, parse, tokenize, Lexeme};

struct Arithmetic;

impl Host for Arithmetic {
    fn call_native(
        &self,
        name: &String,
        _args: Vec<AST>,
        _env: &mut Environment,
        _depth: usize,
    ) -> Result<AST, String> {
        Err(format!("no native function {}", name))
    }

    fn load_module(&self, file: &String) -> Result<Vec<AST>, String> {
        Err(format!("cannot read {}", file))
    }

    fn float_add(&self, a: u64, b: u64) -> u64 {
        (f64::from_bits(a) + f64::from_bits(b)).to_bits()
    }

    fn float_sub(&self, a: u64, b: u64) -> u64 {
        (f64::from_bits(a) - f64::from_bits(b)).to_bits()
    }

    fn float_from_int(&self, n: i64) -> u64 {
        (n as f64).to_bits()
    }

    fn float_text(&self, a: u64) -> String {
        format!("{:?}", f64::from_bits(a))
    }
}

fn word(token: Token, text: &str, line: usize) -> Lexeme {
    Lexeme { token, text: text.to_string(), line }
}

fn let_(name: &str, value: AST, line: usize) -> AST {
    AST::LetDeclaration { name: Some(name.to_string()), value: Box::new(value), line }
}

#[test]
fn words_with_their_lines() {
    assert_eq!(
        tokenize("let x = 1 // one\n\nprint(\"a\nb\")\n/* c\n */ y").unwrap(),
        vec![
            word(Token::Let, "let", 1),
            word(Token::Identifer, "x", 1),
            word(Token::Assign, "=", 1),
            word(Token::Number, "1", 1),
            word(Token::Identifer, "print", 3),
            word(Token::LParen, "(", 3),
            word(Token::String, "\"a\nb\"", 3),
            word(Token::RParen, ")", 4),
            word(Token::Identifer, "y", 6),
        ]
    );
    assert_eq!(tokenize("").unwrap(), vec![]);
    assert_eq!(tokenize(" \n // only a comment").unwrap(), vec![]);
}

#[test]
fn the_first_character_that_starts_no_token_is_the_error() {
    assert_eq!(tokenize("a\n + ;").unwrap_err(), "Unexpected token \"+\" on line 2");
    assert_eq!(tokenize("\"open").unwrap_err(), "Unexpected token \"\\\"\" on line 1");
    assert_eq!(parse("let x = 1 - 2").unwrap_err(), "Unexpected token \"-\" on line 1");
}

#[test]
fn numerals() {
    assert_eq!(number_of("0"), Some(0));
    assert_eq!(number_of("007"), Some(7));
    assert_eq!(number_of("1234567890"), Some(1234567890));
    assert_eq!(number_of("9223372036854775807"), Some(i64::MAX));
    assert_eq!(number_of("9223372036854775808"), None);
    assert_eq!(number_of("99999999999999999999999"), None);
    assert_eq!(number_of(""), Some(0));
}

#[test]
fn literals_and_names() {
    assert_eq!(
        parse("1 \"two\" true false three").unwrap(),
        vec![
            AST::Number(1),
            AST::String("\"two\"".to_string()),
            AST::Boolean(true),
            AST::Boolean(false),
            AST::Identifer("three".to_string()),
        ]
    );
    assert_eq!(parse("").unwrap(), vec![]);
    assert_eq!(
        parse("9223372036854775808").unwrap_err(),
        "Number 9223372036854775808 on line 1 is too large"
    );
}

#[test]
fn let_statements() {
    assert_eq!(
        parse("let x = 10\nlet y = x").unwrap(),
        vec![
            let_("x", AST::Number(10), 1),
            let_("y", AST::Identifer("x".to_string()), 2),
        ]
    );
    assert_eq!(parse("let").unwrap_err(), "Unexpected end of input");
    assert_eq!(parse("let x").unwrap_err(), "Unexpected end of input");
    assert_eq!(parse("let x =").unwrap_err(), "Unexpected end of input");
    assert_eq!(parse("let 1 = 2").unwrap_err(), "Unexpected token \"1\" on line 1");
    assert_eq!(parse("let x\n(").unwrap_err(), "Unexpected token \"(\" on line 2");
    assert_eq!(parse("let x = =").unwrap_err(), "Unexpected token \"=\" on line 1");
    assert_eq!(parse("let let = 1").unwrap_err(), "Unexpected token \"let\" on line 1");
}

#[test]
fn calls() {
    assert_eq!(
        parse("print(\"Hello, world!\")").unwrap(),
        vec![AST::Call {
            name: "print".to_string(),
            args: vec![AST::String("\"Hello, world!\"".to_string())],
            line: 1,
        }]
    );
    assert_eq!(
        parse("f()\ng(1 x h(true))").unwrap(),
        vec![
            AST::Call { name: "f".to_string(), args: vec![], line: 1 },
            AST::Call {
                name: "g".to_string(),
                args: vec![
                    AST::Number(1),
                    AST::Identifer("x".to_string()),
                    AST::Call { name: "h".to_string(), args: vec![AST::Boolean(true)], line: 2 },
                ],
                line: 2,
            },
        ]
    );
    assert_eq!(parse("f(").unwrap_err(), "Unexpected end of input");
    assert_eq!(parse("f(1").unwrap_err(), "Unexpected end of input");
    assert_eq!(parse("f(=)").unwrap_err(), "Unexpected token \"=\" on line 1");
    assert_eq!(parse(")").unwrap_err(), "Unexpected token \")\" on line 1");
    assert_eq!(parse("(1)").unwrap_err(), "Unexpected token \"(\" on line 1");
}

#[test]
fn source_then_a_sum() {
    let mut context = Environment::new();
    for node in parse("let x = 1 let y = 2").unwrap() {
        assert_eq!(eval(node, &mut context, &Arithmetic).unwrap(), AST::Null);
    }
    let sum = AST::Addition {
        left: Box::new(AST::Identifer("x".to_string())),
        right: Box::new(AST::Identifer("y".to_string())),
        line: 0,
    };
    assert_eq!(eval(sum, &mut context, &Arithmetic).unwrap(), AST::Number(3));
}

#[test]
fn source_with_a_string_is_stripped_when_evaluated() {
    let mut context = Environment::new();
    for node in parse("let x = \"test\"").unwrap() {
        eval(node, &mut context, &Arithmetic).unwrap();
    }
    assert_eq!(context.get(&"x".to_string()), Some(&AST::String("test".to_string())));
}
