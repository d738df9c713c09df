use lang::lexer::{LexingError, Lexer, Token};

#[test]
fn asing_str() {
    let mut lexer = Token::lexer("let x = \"test\"");
    assert_eq!(lexer.next(), Some(Ok(Token::Let)));
    assert_eq!(lexer.next(), Some(Ok(Token::Identifer)));
    assert_eq!(lexer.next(), Some(Ok(Token::Assign)));
    assert_eq!(lexer.next(), Some(Ok(Token::String)));
}

#[test]
fn asing_number() {
    let mut lexer = Token::lexer("let x = 10");
    assert_eq!(lexer.next(), Some(Ok(Token::Let)));
    assert_eq!(lexer.next(), Some(Ok(Token::Identifer)));
    assert_eq!(lexer.next(), Some(Ok(Token::Assign)));
    assert_eq!(lexer.next(), Some(Ok(Token::Number)));
}

#[test]
fn expr() {
    let mut lexer = Token::lexer("print(\"Hello, world!\")");

    while let Some(token) = lexer.next() {
        println!("{:?}", token);
    }
}

fn tokens(source: &str) -> Vec<(Result<Token, ()>, String)> {
    let mut lexer = Lexer::new(source);
    let mut found = Vec::new();
    while let Some(token) = lexer.next() {
        found.push((token, lexer.slice()));
    }
    found
}

fn kinds(source: &str) -> Vec<Result<Token, ()>> {
    tokens(source).into_iter().map(|(token, _)| token).collect()
}

#[test]
fn call_with_a_string() {
    assert_eq!(
        tokens("print(\"Hello, world!\")"),
        vec![
            (Ok(Token::Identifer), "print".to_string()),
            (Ok(Token::LParen), "(".to_string()),
            (Ok(Token::String), "\"Hello, world!\"".to_string()),
            (Ok(Token::RParen), ")".to_string()),
        ]
    );
}

#[test]
fn end_of_text() {
    let mut lexer = Token::lexer("");
    assert_eq!(lexer.next(), None);
    assert_eq!(lexer.next(), None);
    let mut lexer = Token::lexer(" \t\n\x0c ");
    assert_eq!(lexer.next(), None);
    let mut lexer = Token::lexer("x  ");
    assert_eq!(lexer.next(), Some(Ok(Token::Identifer)));
    assert_eq!(lexer.next(), None);
    assert_eq!(lexer.next(), None);
}

#[test]
fn keywords_are_whole_words() {
    assert_eq!(
        tokens("let lettuce true truely false falsey _let let1 Let"),
        vec![
            (Ok(Token::Let), "let".to_string()),
            (Ok(Token::Identifer), "lettuce".to_string()),
            (Ok(Token::Boolean), "true".to_string()),
            (Ok(Token::Identifer), "truely".to_string()),
            (Ok(Token::Boolean), "false".to_string()),
            (Ok(Token::Identifer), "falsey".to_string()),
            (Ok(Token::Identifer), "_let".to_string()),
            (Ok(Token::Identifer), "let1".to_string()),
            (Ok(Token::Identifer), "Let".to_string()),
        ]
    );
}

#[test]
fn numbers_and_words_take_the_longest_run() {
    assert_eq!(
        tokens("12ab 007 a_1=b"),
        vec![
            (Ok(Token::Number), "12".to_string()),
            (Ok(Token::Identifer), "ab".to_string()),
            (Ok(Token::Number), "007".to_string()),
            (Ok(Token::Identifer), "a_1".to_string()),
            (Ok(Token::Assign), "=".to_string()),
            (Ok(Token::Identifer), "b".to_string()),
        ]
    );
}

#[test]
fn strings_reach_to_the_next_quote() {
    assert_eq!(
        tokens("\"\" \"a b\nc\" \"é=(\"x"),
        vec![
            (Ok(Token::String), "\"\"".to_string()),
            (Ok(Token::String), "\"a b\nc\"".to_string()),
            (Ok(Token::String), "\"é=(\"".to_string()),
            (Ok(Token::Identifer), "x".to_string()),
        ]
    );
}

#[test]
fn a_string_that_is_not_closed_is_an_error() {
    assert_eq!(
        tokens("\"ab"),
        vec![(Err(()), "\"".to_string()), (Ok(Token::Identifer), "ab".to_string())]
    );
}

#[test]
fn line_comments_end_with_the_line() {
    assert_eq!(
        tokens("a // b = c\nd //"),
        vec![
            (Ok(Token::Identifer), "a".to_string()),
            (Ok(Token::Comment), "// b = c".to_string()),
            (Ok(Token::Identifer), "d".to_string()),
            (Ok(Token::Comment), "//".to_string()),
        ]
    );
}

#[test]
fn block_comments() {
    assert_eq!(
        tokens("/* a\n b */x/**/ /* * */"),
        vec![
            (Ok(Token::Comment), "/* a\n b */".to_string()),
            (Ok(Token::Identifer), "x".to_string()),
            (Ok(Token::Comment), "/**/".to_string()),
            (Ok(Token::Comment), "/* * */".to_string()),
        ]
    );
    // A `*` takes the character after it along, so `**/` does not close.
    assert_eq!(kinds("/***/"), vec![Err(()), Err(()), Err(()), Err(()), Err(())]);
    assert_eq!(tokens("/** */")[0], (Ok(Token::Comment), "/** */".to_string()));
    assert_eq!(tokens("/* a */ b */")[0], (Ok(Token::Comment), "/* a */".to_string()));
}

#[test]
fn a_comment_that_is_not_closed_is_an_error() {
    assert_eq!(
        tokens("/* a"),
        vec![
            (Err(()), "/".to_string()),
            (Err(()), "*".to_string()),
            (Ok(Token::Identifer), "a".to_string()),
        ]
    );
    assert_eq!(kinds("/*"), vec![Err(()), Err(())]);
    assert_eq!(kinds("/* *"), vec![Err(()), Err(()), Err(())]);
}

#[test]
fn other_characters_are_errors_of_one_character() {
    assert_eq!(
        tokens("a + é/b"),
        vec![
            (Ok(Token::Identifer), "a".to_string()),
            (Err(()), "+".to_string()),
            (Err(()), "é".to_string()),
            (Err(()), "/".to_string()),
            (Ok(Token::Identifer), "b".to_string()),
        ]
    );
    assert_eq!(kinds("\r"), vec![Err(())]);
}

#[test]
fn the_lexer_carries_the_default_error() {
    let mut lexer = Token::lexer("x");
    assert_eq!(*lexer.extras(), LexingError::UnexpectedToken);
    assert_eq!(LexingError::default(), LexingError::UnexpectedToken);
    assert_ne!(LexingError::default(), LexingError::ExpectedToken);
    lexer.next();
    assert_eq!(*lexer.extras(), LexingError::UnexpectedToken);
}
