use crate::ast::{nodes_view, Node, AST};
use crate::lexer::{read_token, scan, text_between, Token};
use crate::semantics::program_view;
use crate::text::{chars_of, debug_text, decimal, push_decimal, quoted};
use vstd::prelude::*;

verus! {

/// A token with its text and the line on which it starts, as the parser reads it.
pub struct Word {
    pub token: Token,
    pub text: Seq<char>,
    pub line: usize,
}

/// A token with its text and the line on which it starts.
#[derive(Debug, PartialEq, Eq)]
pub struct Lexeme {
    pub token: Token,
    pub text: String,
    pub line: usize,
}

impl View for Lexeme {
    type V = Word;

    open spec fn view(&self) -> Word {
        Word { token: self.token, text: self.text@, line: self.line }
    }
}

/// The words that a list of lexemes stands for.
pub open spec fn words_view(lexemes: Vec<Lexeme>) -> Seq<Word> {
    Seq::new(lexemes.len() as nat, |i: int| lexemes[i]@)
}

/// How many of the first `upto` characters of `src` are line feeds.
pub open spec fn newlines(src: Seq<char>, upto: nat) -> nat
    decreases upto,
{
    if upto == 0 || upto > src.len() {
        0
    } else {
        newlines(src, (upto - 1) as nat) + if src[upto - 1] == '\n' {
            1nat
        } else {
            0nat
        }
    }
}

/// The number of the line on which the character at `pos` stands, counted from 1,
/// as far as numbers go.
pub open spec fn line_at(src: Seq<char>, pos: nat) -> usize {
    if newlines(src, pos) < usize::MAX {
        (newlines(src, pos) + 1) as usize
    } else {
        usize::MAX
    }
}

/// The text of the error of a word that cannot stand where it stands.
pub open spec fn unexpected(text: Seq<char>, line: usize) -> Seq<char> {
    "Unexpected token "@ + debug_text(text) + " on line "@ + decimal(line as nat)
}

/// The text of the error of a text that ends within a statement.
pub open spec fn end_of_input() -> Seq<char> {
    "Unexpected end of input"@
}

/// The text of the error of a numeral that stands for too large a number.
pub open spec fn too_large(text: Seq<char>, line: usize) -> Seq<char> {
    "Number "@ + text + " on line "@ + decimal(line as nat) + " is too large"@
}

/// The words of `src` from `pos` on, without the comments, or the error of the
/// first place at which no token starts.
pub open spec fn words_from(src: Seq<char>, pos: nat) -> Result<Seq<Word>, Seq<char>>
    decreases src.len() - pos,
{
    let found = scan(src, pos);
    let text = src.subrange(found.start as int, found.end as int);
    let line = line_at(src, found.start);
    if !(pos <= found.start < found.end <= src.len()) {
        Ok(Seq::empty())
    } else {
        match found.token {
            Some(Ok(token)) => match words_from(src, found.end) {
                Ok(rest) => if token is Comment {
                    Ok(rest)
                } else {
                    Ok(seq![Word { token, text, line }] + rest)
                },
                Err(e) => Err(e),
            },
            _ => Err(unexpected(text, line)),
        }
    }
}

/// The value of a decimal digit, and 0 for any other character.
pub open spec fn digit_value(c: char) -> nat {
    if c == '1' {
        1
    } else if c == '2' {
        2
    } else if c == '3' {
        3
    } else if c == '4' {
        4
    } else if c == '5' {
        5
    } else if c == '6' {
        6
    } else if c == '7' {
        7
    } else if c == '8' {
        8
    } else if c == '9' {
        9
    } else {
        0
    }
}

/// The number that a decimal numeral stands for.
pub open spec fn number_value(digits: Seq<char>) -> nat
    decreases digits.len(),
{
    if digits.len() == 0 {
        0
    } else {
        number_value(digits.drop_last()) * 10 + digit_value(digits.last())
    }
}

/// The expression that starts at word `pos`, and the place after it: a number, a
/// text, a boolean, a name, or a name with arguments in parentheses, which is a call.
pub open spec fn parse_expression(words: Seq<Word>, pos: nat) -> Result<(Node, nat), Seq<char>>
    decreases words.len() - pos, 1nat,
{
    if pos >= words.len() {
        Err(end_of_input())
    } else {
        let word = words[pos as int];
        match word.token {
            Token::Number => if number_value(word.text) <= i64::MAX {
                Ok((Node::Number(number_value(word.text) as i64), pos + 1))
            } else {
                Err(too_large(word.text, word.line))
            },
            Token::String => Ok((Node::String(word.text), pos + 1)),
            Token::Boolean => Ok((Node::Boolean(word.text == seq!['t', 'r', 'u', 'e']), pos + 1)),
            Token::Identifer => if pos + 1 < words.len() && words[(pos + 1) as int].token is LParen {
                match parse_arguments(words, pos + 2) {
                    Ok((args, next)) => Ok(
                        (Node::Call { name: word.text, args, line: word.line }, next),
                    ),
                    Err(e) => Err(e),
                }
            } else {
                Ok((Node::Identifer(word.text), pos + 1))
            },
            _ => Err(unexpected(word.text, word.line)),
        }
    }
}

/// The arguments of a call from word `pos` on, up to the closing parenthesis, and the
/// place after it. The arguments stand one after the other, with nothing between them.
pub open spec fn parse_arguments(words: Seq<Word>, pos: nat) -> Result<(Seq<Node>, nat), Seq<char>>
    decreases words.len() - pos, 2nat,
{
    if pos >= words.len() {
        Err(end_of_input())
    } else if words[pos as int].token is RParen {
        Ok((Seq::empty(), pos + 1))
    } else {
        match parse_expression(words, pos) {
            Ok((arg, next)) => if pos < next <= words.len() {
                match parse_arguments(words, next) {
                    Ok((rest, end)) => Ok((seq![arg] + rest, end)),
                    Err(e) => Err(e),
                }
            } else {
                Err(end_of_input())
            },
            Err(e) => Err(e),
        }
    }
}

/// The statement that starts at word `pos`, and the place after it: `let`, a name,
/// `=` and an expression, or an expression alone.
pub open spec fn parse_statement(words: Seq<Word>, pos: nat) -> Result<(Node, nat), Seq<char>> {
    if pos < words.len() && words[pos as int].token is Let {
        if pos + 1 >= words.len() {
            Err(end_of_input())
        } else if !(words[(pos + 1) as int].token is Identifer) {
            Err(unexpected(words[(pos + 1) as int].text, words[(pos + 1) as int].line))
        } else if pos + 2 >= words.len() {
            Err(end_of_input())
        } else if !(words[(pos + 2) as int].token is Assign) {
            Err(unexpected(words[(pos + 2) as int].text, words[(pos + 2) as int].line))
        } else {
            match parse_expression(words, pos + 3) {
                Ok((value, next)) => Ok(
                    (
                        Node::LetDeclaration {
                            name: Some(words[(pos + 1) as int].text),
                            value: Box::new(value),
                            line: words[pos as int].line,
                        },
                        next,
                    ),
                ),
                Err(e) => Err(e),
            }
        }
    } else {
        parse_expression(words, pos)
    }
}

/// The statements from word `pos` on to the end.
pub open spec fn parse_program(words: Seq<Word>, pos: nat) -> Result<Seq<Node>, Seq<char>>
    decreases words.len() - pos,
{
    if pos >= words.len() {
        Ok(Seq::empty())
    } else {
        match parse_statement(words, pos) {
            Ok((node, next)) => if pos < next <= words.len() {
                match parse_program(words, next) {
                    Ok(rest) => Ok(seq![node] + rest),
                    Err(e) => Err(e),
                }
            } else {
                Err(end_of_input())
            },
            Err(e) => Err(e),
        }
    }
}

/// The program that a text is: its words, read as statements.
pub open spec fn parsed(src: Seq<char>) -> Result<Seq<Node>, Seq<char>> {
    match words_from(src, 0) {
        Ok(words) => parse_program(words, 0),
        Err(e) => Err(e),
    }
}

/// An expression takes at least one word and ends within the words.
pub proof fn lemma_expression_advances(words: Seq<Word>, pos: nat)
    ensures
        parse_expression(words, pos) matches Ok((_, next)) ==> pos < next <= words.len(),
    decreases words.len() - pos, 1nat,
{
    if pos < words.len() && words[pos as int].token is Identifer && pos + 1 < words.len() {
        lemma_arguments_advance(words, pos + 2);
    }
}

/// The arguments of a call take at least one word, the closing parenthesis, and end
/// within the words.
pub proof fn lemma_arguments_advance(words: Seq<Word>, pos: nat)
    ensures
        parse_arguments(words, pos) matches Ok((_, next)) ==> pos < next <= words.len(),
    decreases words.len() - pos, 2nat,
{
    if pos < words.len() && !(words[pos as int].token is RParen) {
        lemma_expression_advances(words, pos);
        match parse_expression(words, pos) {
            Ok((arg, next)) => {
                if pos < next <= words.len() {
                    lemma_arguments_advance(words, next);
                }
            },
            Err(e) => {},
        }
    }
}

/// A statement takes at least one word and ends within the words.
pub proof fn lemma_statement_advances(words: Seq<Word>, pos: nat)
    ensures
        parse_statement(words, pos) matches Ok((_, next)) ==> pos < next <= words.len(),
{
    lemma_expression_advances(words, pos);
    lemma_expression_advances(words, pos + 3);
}

/// `rest` with `before` put in front of its words.
pub open spec fn after_words(before: Seq<Word>, rest: Result<Seq<Word>, Seq<char>>) -> Result<
    Seq<Word>,
    Seq<char>,
> {
    match rest {
        Ok(words) => Ok(before + words),
        Err(e) => Err(e),
    }
}

/// `rest` with `before` put in front of its nodes.
pub open spec fn after_nodes(before: Seq<Node>, rest: Result<Seq<Node>, Seq<char>>) -> Result<
    Seq<Node>,
    Seq<char>,
> {
    match rest {
        Ok(nodes) => Ok(before + nodes),
        Err(e) => Err(e),
    }
}

/// What reading the words of a text yielded, as a mathematical value.
pub open spec fn lexemes_view(out: Result<Vec<Lexeme>, String>) -> Result<Seq<Word>, Seq<char>> {
    match out {
        Ok(lexemes) => Ok(words_view(lexemes)),
        Err(e) => Err(e@),
    }
}

/// What reading one expression or statement yielded, as a mathematical value.
pub open spec fn step_view(out: Result<(AST, usize), String>) -> Result<(Node, nat), Seq<char>> {
    match out {
        Ok((node, next)) => Ok((node@, next as nat)),
        Err(e) => Err(e@),
    }
}

/// What reading the arguments of a call yielded, as a mathematical value.
pub open spec fn arguments_view(out: Result<(Vec<AST>, usize), String>) -> Result<
    (Seq<Node>, nat),
    Seq<char>,
> {
    match out {
        Ok((nodes, next)) => Ok((nodes_view(nodes), next as nat)),
        Err(e) => Err(e@),
    }
}

/// There are no more line feeds among characters than characters.
pub proof fn lemma_newlines_bound(src: Seq<char>, upto: nat)
    ensures
        newlines(src, upto) <= upto,
    decreases upto,
{
    if upto > 0 && upto <= src.len() {
        lemma_newlines_bound(src, (upto - 1) as nat);
    }
}

/// A numeral that goes on stands for no smaller number.
pub proof fn lemma_number_grows(digits: Seq<char>, n: int)
    requires
        0 <= n <= digits.len(),
    ensures
        number_value(digits.take(n)) <= number_value(digits),
    decreases digits.len() - n,
{
    if n < digits.len() {
        lemma_number_grows(digits, n + 1);
        assert(digits.take(n + 1).drop_last() =~= digits.take(n));
    } else {
        assert(digits.take(n) =~= digits);
    }
}

/// The error of a word that cannot stand where it stands.
pub fn unexpected_text(text: &str, line: usize) -> (m: String)
    ensures
        m@ == unexpected(text@, line),
{
    let mut m = String::from_str("Unexpected token ");
    let shown = quoted(text);
    m.append(shown.as_str());
    m.append(" on line ");
    push_decimal(&mut m, line as u64);
    m
}

/// The error of a text that ends within a statement.
pub fn end_of_input_text() -> (m: String)
    ensures
        m@ == end_of_input(),
{
    String::from_str("Unexpected end of input")
}

/// The error of a numeral that stands for too large a number.
pub fn too_large_text(text: &str, line: usize) -> (m: String)
    ensures
        m@ == too_large(text@, line),
{
    let mut m = String::from_str("Number ");
    m.append(text);
    m.append(" on line ");
    push_decimal(&mut m, line as u64);
    m.append(" is too large");
    m
}

/// The value of a decimal digit, and 0 for any other character.
pub fn digit_of(c: char) -> (d: u64)
    ensures
        d == digit_value(c),
        d <= 9,
{
    if c == '1' {
        1
    } else if c == '2' {
        2
    } else if c == '3' {
        3
    } else if c == '4' {
        4
    } else if c == '5' {
        5
    } else if c == '6' {
        6
    } else if c == '7' {
        7
    } else if c == '8' {
        8
    } else if c == '9' {
        9
    } else {
        0
    }
}

/// The number that a decimal numeral stands for, if it is no larger than the
/// largest whole number of the language.
pub fn number_of(text: &str) -> (value: Option<i64>)
    ensures
        match value {
            Some(v) => v == number_value(text@),
            None => number_value(text@) > i64::MAX,
        },
{
    let digits = chars_of(text);
    let mut value: u64 = 0;
    let mut i: usize = 0;
    assert(digits@.take(0) =~= Seq::<char>::empty());
    while i < digits.len()
        invariant
            i <= digits.len(),
            digits@ == text@,
            value == number_value(digits@.take(i as int)),
            value <= i64::MAX,
        decreases digits.len() - i,
    {
        let d = digit_of(digits[i]);
        proof {
            assert(digits@.take(i + 1).drop_last() =~= digits@.take(i as int));
            assert(digits@.take(i + 1).last() == digits@[i as int]);
            lemma_number_grows(digits@, i + 1);
        }
        if value > (0x7fff_ffff_ffff_ffffu64 - d) / 10 {
            return None;
        }
        value = value * 10 + d;
        i += 1;
    }
    assert(digits@.take(digits@.len() as int) =~= digits@);
    Some(value as i64)
}

/// How many of the first `to` characters are line feeds, from how many of the first
/// `from` are.
pub(crate) fn count_newlines(src: &Vec<char>, from: usize, to: usize, counted: usize) -> (count: usize)
    requires
        from <= to <= src.len(),
        counted == newlines(src@, from as nat),
    ensures
        count == newlines(src@, to as nat),
{
    let mut count = counted;
    let mut i: usize = from;
    while i < to
        invariant
            from <= i <= to <= src.len(),
            count == newlines(src@, i as nat),
        decreases to - i,
    {
        proof {
            lemma_newlines_bound(src@, (i + 1) as nat);
        }
        if src[i] == '\n' {
            count += 1;
        }
        i += 1;
    }
    count
}

/// The words of a text, without the comments, or the error of the first place at
/// which no token starts.
pub fn tokenize(source: &str) -> (out: Result<Vec<Lexeme>, String>)
    ensures
        lexemes_view(out) == words_from(source@, 0),
{
    let src = chars_of(source);
    let mut lexemes: Vec<Lexeme> = Vec::new();
    let mut pos: usize = 0;
    let mut counted: usize = 0;
    let mut lines: usize = 0;
    assert(Seq::<Word>::empty() + words_from(src@, 0)->Ok_0 =~= words_from(src@, 0)->Ok_0);
    loop
        invariant
            src@ == source@,
            counted <= pos <= src.len(),
            lines == newlines(src@, counted as nat),
            after_words(words_view(lexemes), words_from(src@, pos as nat)) == words_from(src@, 0),
        decreases src.len() - pos,
    {
        let (found, start, end) = read_token(&src, pos);
        let token = match found {
            None => {
                assert(words_view(lexemes) + Seq::<Word>::empty() =~= words_view(lexemes));
                return Ok(lexemes);
            },
            Some(token) => token,
        };
        lines = count_newlines(&src, counted, start, lines);
        counted = start;
        let line = if lines < usize::MAX {
            lines + 1
        } else {
            usize::MAX
        };
        let text = text_between(&src, start, end);
        match token {
            Err(_) => {
                return Err(unexpected_text(text.as_str(), line));
            },
            Ok(Token::Comment) => {},
            Ok(kind) => {
                let ghost before = words_view(lexemes);
                let ghost word = Word { token: kind, text: text@, line };
                lexemes.push(Lexeme { token: kind, text, line });
                proof {
                    assert(words_view(lexemes) =~= before.push(word));
                    match words_from(src@, end as nat) {
                        Ok(rest) => {
                            assert(before.push(word) + rest =~= before + (seq![word] + rest));
                        },
                        Err(e) => {},
                    }
                }
            },
        }
        pos = end;
    }
}

/// The expression that starts at word `pos`, and the place after it.
pub fn expression_at(words: &Vec<Lexeme>, pos: usize) -> (out: Result<(AST, usize), String>)
    ensures
        step_view(out) == parse_expression(words_view(*words), pos as nat),
        out matches Ok((_, next)) ==> pos < next <= words.len(),
    decreases words.len() - pos, 1nat,
{
    proof {
        lemma_expression_advances(words_view(*words), pos as nat);
    }
    if pos >= words.len() {
        return Err(end_of_input_text());
    }
    let word = &words[pos];
    assert(words_view(*words)[pos as int] == word@);
    match word.token {
        Token::Number => match number_of(word.text.as_str()) {
            Some(value) => Ok((AST::Number(value), pos + 1)),
            None => Err(too_large_text(word.text.as_str(), word.line)),
        },
        Token::String => Ok((AST::String(word.text.clone()), pos + 1)),
        Token::Boolean => {
            let word_true = String::from_str("true");
            proof {
                reveal_strlit("true");
                assert(word_true@ =~= seq!['t', 'r', 'u', 'e']);
            }
            Ok((AST::Boolean(word.text == word_true), pos + 1))
        },
        Token::Identifer => {
            if pos + 1 < words.len() && words[pos + 1].token == Token::LParen {
                assert(words_view(*words)[pos + 1] == words[pos + 1]@);
                match arguments_at(words, pos + 2) {
                    Ok((args, next)) => Ok(
                        (AST::Call { name: word.text.clone(), args, line: word.line }, next),
                    ),
                    Err(e) => Err(e),
                }
            } else {
                if pos + 1 < words.len() {
                    assert(words_view(*words)[pos + 1] == words[pos + 1]@);
                }
                Ok((AST::Identifer(word.text.clone()), pos + 1))
            }
        },
        _ => Err(unexpected_text(word.text.as_str(), word.line)),
    }
}

/// The arguments of a call from word `pos` on, and the place after the closing
/// parenthesis.
pub fn arguments_at(words: &Vec<Lexeme>, pos: usize) -> (out: Result<(Vec<AST>, usize), String>)
    ensures
        arguments_view(out) == parse_arguments(words_view(*words), pos as nat),
        out matches Ok((_, next)) ==> pos < next <= words.len(),
    decreases words.len() - pos, 2nat,
{
    proof {
        lemma_arguments_advance(words_view(*words), pos as nat);
    }
    if pos >= words.len() {
        return Err(end_of_input_text());
    }
    assert(words_view(*words)[pos as int] == words[pos as int]@);
    if words[pos].token == Token::RParen {
        let none: Vec<AST> = Vec::new();
        assert(nodes_view(none) =~= Seq::<Node>::empty());
        return Ok((none, pos + 1));
    }
    let (arg, next) = match expression_at(words, pos) {
        Ok(step) => step,
        Err(e) => {
            return Err(e);
        },
    };
    match arguments_at(words, next) {
        Ok((rest, end)) => {
            let ghost first = arg@;
            let ghost others = nodes_view(rest);
            let mut args = rest;
            args.insert(0, arg);
            assert(nodes_view(args) =~= seq![first] + others);
            Ok((args, end))
        },
        Err(e) => Err(e),
    }
}

/// The statement that starts at word `pos`, and the place after it.
pub fn statement_at(words: &Vec<Lexeme>, pos: usize) -> (out: Result<(AST, usize), String>)
    ensures
        step_view(out) == parse_statement(words_view(*words), pos as nat),
        out matches Ok((_, next)) ==> pos < next <= words.len(),
{
    proof {
        lemma_statement_advances(words_view(*words), pos as nat);
    }
    if pos < words.len() && words[pos].token == Token::Let {
        assert(words_view(*words)[pos as int] == words[pos as int]@);
        if pos + 1 >= words.len() {
            return Err(end_of_input_text());
        }
        let name = &words[pos + 1];
        assert(words_view(*words)[pos + 1] == name@);
        if name.token != Token::Identifer {
            return Err(unexpected_text(name.text.as_str(), name.line));
        }
        if pos + 2 >= words.len() {
            return Err(end_of_input_text());
        }
        let sign = &words[pos + 2];
        assert(words_view(*words)[pos + 2] == sign@);
        if sign.token != Token::Assign {
            return Err(unexpected_text(sign.text.as_str(), sign.line));
        }
        match expression_at(words, pos + 3) {
            Ok((value, next)) => Ok(
                (
                    AST::LetDeclaration {
                        name: Some(name.text.clone()),
                        value: Box::new(value),
                        line: words[pos].line,
                    },
                    next,
                ),
            ),
            Err(e) => Err(e),
        }
    } else {
        if pos < words.len() {
            assert(words_view(*words)[pos as int] == words[pos as int]@);
        }
        expression_at(words, pos)
    }
}

/// The program that a text is: its statements in order, or the first error.
pub fn parse(source: &str) -> (out: Result<Vec<AST>, String>)
    ensures
        program_view(out) == parsed(source@),
{
    let words = match tokenize(source) {
        Ok(words) => words,
        Err(e) => {
            return Err(e);
        },
    };
    let mut program: Vec<AST> = Vec::new();
    let mut pos: usize = 0;
    assert(nodes_view(program) =~= Seq::<Node>::empty());
    assert(Seq::<Node>::empty() + parse_program(words_view(words), 0)->Ok_0 =~= parse_program(
        words_view(words),
        0,
    )->Ok_0);
    while pos < words.len()
        invariant
            pos <= words.len(),
            words_from(source@, 0) == Ok::<Seq<Word>, Seq<char>>(words_view(words)),
            after_nodes(nodes_view(program), parse_program(words_view(words), pos as nat))
                == parse_program(words_view(words), 0),
        decreases words.len() - pos,
    {
        let ghost before = nodes_view(program);
        match statement_at(&words, pos) {
            Ok((node, next)) => {
                let ghost first = node@;
                program.push(node);
                proof {
                    assert(nodes_view(program) =~= before.push(first));
                    match parse_program(words_view(words), next as nat) {
                        Ok(rest) => {
                            assert(before.push(first) + rest =~= before + (seq![first] + rest));
                        },
                        Err(e) => {},
                    }
                }
                pos = next;
            },
            Err(e) => {
                return Err(e);
            },
        }
    }
    assert(nodes_view(program) + Seq::<Node>::empty() =~= nodes_view(program));
    Ok(program)
}

} // verus!
