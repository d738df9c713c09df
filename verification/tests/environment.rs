use lang::ast::{Environment, AST};

#[test]
fn a_new_environment_binds_nothing() {
    let env = Environment::new();
    assert_eq!(env.get(&"x".to_string()), None);
    assert_eq!(env.len(), 0);
}

#[test]
fn insert_then_get() {
    let mut env = Environment::new();
    env.insert("x".to_string(), AST::Number(1));
    env.insert("y".to_string(), AST::Null);
    assert_eq!(env.get(&"x".to_string()), Some(&AST::Number(1)));
    assert_eq!(env.get(&"y".to_string()), Some(&AST::Null));
    assert_eq!(env.get(&"z".to_string()), None);
    assert_eq!(env.get(&"".to_string()), None);
}

#[test]
fn insert_overwrites_in_place() {
    let mut env = Environment::new();
    env.insert("x".to_string(), AST::Number(1));
    env.insert("y".to_string(), AST::Number(2));
    env.insert("x".to_string(), AST::Number(3));
    assert_eq!(env.len(), 2);
    assert_eq!(env.entry(0), Some((&"x".to_string(), &AST::Number(3))));
    assert_eq!(env.entry(1), Some((&"y".to_string(), &AST::Number(2))));
    assert_eq!(env.entry(2), None);
}

#[test]
fn a_copy_is_equal_and_apart() {
    let mut env = Environment::new();
    let mut inner = Environment::new();
    inner.insert("a".to_string(), AST::String("s".to_string()));
    env.insert("o".to_string(), AST::Object { properties: inner, line: 2 });
    env.insert(
        "f".to_string(),
        AST::Function {
            name: "f".to_string(),
            args: vec!["p".to_string()],
            body: vec![AST::IfStatement {
                condition: Box::new(AST::Boolean(true)),
                body: vec![AST::Semicolon],
                line: 4,
            }],
            line: 3,
        },
    );
    let mut copy = env.clone();
    assert_eq!(copy, env);
    copy.insert("o".to_string(), AST::Null);
    assert_ne!(copy, env);
    assert!(matches!(env.get(&"o".to_string()), Some(AST::Object { .. })));
}
