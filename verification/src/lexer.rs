use crate::text::chars_of;
use vstd::prelude::*;

verus! {

/// What the lexer carries along beside its position.
#[derive(Debug, PartialEq, Eq, Clone, Copy)]
pub enum LexingError {
    UnexpectedToken,
    ExpectedToken,
}

impl Default for LexingError {
    fn default() -> (e: LexingError)
        ensures
            e is UnexpectedToken,
    {
        LexingError::UnexpectedToken
    }
}

/// The kinds of token.
#[derive(Debug, PartialEq, Eq, Clone, Copy, Structural)]
pub enum Token {
    /// `//` up to the end of the line, or `/*` up to the first `*/` that closes it.
    Comment,
    /// The word `let`.
    Let,
    /// A letter or an underscore, then letters, digits and underscores.
    Identifer,
    /// `=`.
    Assign,
    /// Decimal digits.
    Number,
    /// From one double quote to the next.
    String,
    /// The word `true` or the word `false`.
    Boolean,
    /// `(`.
    LParen,
    /// `)`.
    RParen,
}

/// The sets of characters of which tokens are made.
#[derive(Debug, PartialEq, Eq, Clone, Copy, Structural)]
pub enum CharClass {
    /// Space, tab, line feed and form feed, which stand between tokens.
    Blank,
    /// Letters, digits and the underscore.
    Word,
    /// Decimal digits.
    Digit,
    /// Every character but the double quote.
    StringBody,
    /// Every character but the line feed.
    LineBody,
}

/// Whether a character can start a word: a letter or the underscore.
pub open spec fn is_letter(c: char) -> bool {
    ('a' <= c && c <= 'z') || ('A' <= c && c <= 'Z') || c == '_'
}

/// Whether a character is a decimal digit.
pub open spec fn is_digit(c: char) -> bool {
    '0' <= c && c <= '9'
}

/// Whether a character belongs to a class.
pub open spec fn member(class: CharClass, c: char) -> bool {
    match class {
        CharClass::Blank => c == ' ' || c == '\t' || c == '\n' || c == '\x0c',
        CharClass::Word => is_letter(c) || is_digit(c),
        CharClass::Digit => is_digit(c),
        CharClass::StringBody => c != '"',
        CharClass::LineBody => c != '\n',
    }
}

/// Where the longest run of characters of `class` that starts at `from` ends.
pub open spec fn run_end(src: Seq<char>, from: nat, class: CharClass) -> nat
    decreases src.len() - from,
{
    if from < src.len() && member(class, src[from as int]) {
        run_end(src, from + 1, class)
    } else {
        from
    }
}

/// Where the block comment ends whose text after `/*` is read from `from` on, if it
/// is closed. The text is read in units of one character that is no `*`, or of a `*`
/// and one character after it that is no `/`; the comment ends with the first `*/`
/// that is met between units.
pub open spec fn block_end(src: Seq<char>, from: nat) -> Option<nat>
    decreases src.len() - from,
{
    if from >= src.len() {
        None
    } else if src[from as int] != '*' {
        block_end(src, from + 1)
    } else if from + 1 >= src.len() {
        None
    } else if src[(from + 1) as int] == '/' {
        Some(from + 2)
    } else {
        block_end(src, from + 2)
    }
}

/// The token that a word is: a keyword, or an identifier.
pub open spec fn word_token(word: Seq<char>) -> Token {
    if word == seq!['l', 'e', 't'] {
        Token::Let
    } else if word == seq!['t', 'r', 'u', 'e'] || word == seq!['f', 'a', 'l', 's', 'e'] {
        Token::Boolean
    } else {
        Token::Identifer
    }
}

/// What one step of the lexer finds: the token or the error, from where to where it
/// reaches, or nothing at the end of the text.
pub struct Scan {
    pub token: Option<Result<Token, ()>>,
    pub start: nat,
    pub end: nat,
}

/// The token that starts at `start`, where the text has a character that is not blank.
/// The longest text that is a token counts; a character with which no token starts,
/// a string that is not closed and a comment that is not closed are errors that
/// take one character.
pub open spec fn token_at(src: Seq<char>, start: nat) -> Scan {
    let c = src[start as int];
    let error = Scan { token: Some(Err(())), start, end: start + 1 };
    if is_letter(c) {
        let end = run_end(src, start, CharClass::Word);
        Scan { token: Some(Ok(word_token(src.subrange(start as int, end as int)))), start, end }
    } else if is_digit(c) {
        Scan { token: Some(Ok(Token::Number)), start, end: run_end(src, start, CharClass::Digit) }
    } else if c == '"' {
        let close = run_end(src, start + 1, CharClass::StringBody);
        if close < src.len() {
            Scan { token: Some(Ok(Token::String)), start, end: close + 1 }
        } else {
            error
        }
    } else if c == '/' && start + 1 < src.len() && src[(start + 1) as int] == '/' {
        Scan {
            token: Some(Ok(Token::Comment)),
            start,
            end: run_end(src, start + 2, CharClass::LineBody),
        }
    } else if c == '/' && start + 1 < src.len() && src[(start + 1) as int] == '*' {
        match block_end(src, start + 2) {
            Some(end) => Scan { token: Some(Ok(Token::Comment)), start, end },
            None => error,
        }
    } else if c == '=' {
        Scan { token: Some(Ok(Token::Assign)), start, end: start + 1 }
    } else if c == '(' {
        Scan { token: Some(Ok(Token::LParen)), start, end: start + 1 }
    } else if c == ')' {
        Scan { token: Some(Ok(Token::RParen)), start, end: start + 1 }
    } else {
        error
    }
}

/// What the lexer finds from `pos` on: it passes over blanks, then reads one token.
pub open spec fn scan(src: Seq<char>, pos: nat) -> Scan {
    let start = run_end(src, pos, CharClass::Blank);
    if start >= src.len() {
        Scan { token: None, start, end: start }
    } else {
        token_at(src, start)
    }
}

/// A run ends within the text and not before it starts.
pub proof fn lemma_run_end_bounds(src: Seq<char>, from: nat, class: CharClass)
    requires
        from <= src.len(),
    ensures
        from <= run_end(src, from, class) <= src.len(),
    decreases src.len() - from,
{
    if from < src.len() && member(class, src[from as int]) {
        lemma_run_end_bounds(src, from + 1, class);
    }
}

/// A block comment that is closed ends within the text, after its `*/`.
pub proof fn lemma_block_end_bounds(src: Seq<char>, from: nat)
    ensures
        block_end(src, from) matches Some(end) ==> from + 2 <= end <= src.len(),
    decreases src.len() - from,
{
    if from >= src.len() {
    } else if src[from as int] != '*' {
        lemma_block_end_bounds(src, from + 1);
    } else if from + 1 >= src.len() {
    } else if src[(from + 1) as int] == '/' {
    } else {
        lemma_block_end_bounds(src, from + 2);
    }
}

/// Every step but the last takes at least one character, and none reaches beyond
/// the text.
pub proof fn lemma_scan_advances(src: Seq<char>, pos: nat)
    requires
        pos <= src.len(),
    ensures
        pos <= scan(src, pos).start <= scan(src, pos).end <= src.len(),
        scan(src, pos).token is Some ==> scan(src, pos).start < scan(src, pos).end,
{
    lemma_run_end_bounds(src, pos, CharClass::Blank);
    let start = run_end(src, pos, CharClass::Blank);
    if start < src.len() {
        lemma_run_end_bounds(src, start + 1, CharClass::Word);
        lemma_run_end_bounds(src, start + 1, CharClass::Digit);
        lemma_run_end_bounds(src, start + 1, CharClass::StringBody);
        if start + 1 < src.len() {
            lemma_run_end_bounds(src, start + 2, CharClass::LineBody);
        }
        lemma_block_end_bounds(src, start + 2);
    }
}

/// Whether a character belongs to a class.
pub fn in_class(class: CharClass, c: char) -> (b: bool)
    ensures
        b == member(class, c),
{
    match class {
        CharClass::Blank => c == ' ' || c == '\t' || c == '\n' || c == '\x0c',
        CharClass::Word => ('a' <= c && c <= 'z') || ('A' <= c && c <= 'Z') || c == '_' || ('0'
            <= c && c <= '9'),
        CharClass::Digit => '0' <= c && c <= '9',
        CharClass::StringBody => c != '"',
        CharClass::LineBody => c != '\n',
    }
}

/// Where the longest run of characters of `class` that starts at `from` ends.
pub(crate) fn skip(src: &Vec<char>, from: usize, class: CharClass) -> (end: usize)
    requires
        from <= src.len(),
    ensures
        end == run_end(src@, from as nat, class),
        from <= end <= src.len(),
{
    let mut i: usize = from;
    while i < src.len() && in_class(class, src[i])
        invariant
            from <= i <= src.len(),
            run_end(src@, i as nat, class) == run_end(src@, from as nat, class),
        decreases src.len() - i,
    {
        i += 1;
    }
    i
}

/// Where the block comment ends whose text after `/*` starts at `from`, if it is closed.
pub(crate) fn find_block_end(src: &Vec<char>, from: usize) -> (end: Option<usize>)
    requires
        from <= src.len(),
    ensures
        match end {
            Some(e) => block_end(src@, from as nat) == Some(e as nat) && from + 2 <= e <= src.len(),
            None => block_end(src@, from as nat).is_none(),
        },
{
    let mut i: usize = from;
    while i < src.len()
        invariant
            from <= i <= src.len(),
            block_end(src@, i as nat) == block_end(src@, from as nat),
        decreases src.len() - i,
    {
        if src[i] != '*' {
            i += 1;
        } else if i + 1 >= src.len() {
            return None;
        } else if src[i + 1] == '/' {
            return Some(i + 2);
        } else {
            i += 2;
        }
    }
    None
}

/// The token that the word from `start` to `end` is.
pub(crate) fn classify_word(src: &Vec<char>, start: usize, end: usize) -> (token: Token)
    requires
        start <= end <= src.len(),
    ensures
        token == word_token(src@.subrange(start as int, end as int)),
{
    let ghost word = src@.subrange(start as int, end as int);
    let n = end - start;
    if n == 3 && src[start] == 'l' && src[start + 1] == 'e' && src[start + 2] == 't' {
        assert(word =~= seq!['l', 'e', 't']);
        Token::Let
    } else if n == 4 && src[start] == 't' && src[start + 1] == 'r' && src[start + 2] == 'u'
        && src[start + 3] == 'e' {
        assert(word =~= seq!['t', 'r', 'u', 'e']);
        Token::Boolean
    } else if n == 5 && src[start] == 'f' && src[start + 1] == 'a' && src[start + 2] == 'l'
        && src[start + 3] == 's' && src[start + 4] == 'e' {
        assert(word =~= seq!['f', 'a', 'l', 's', 'e']);
        Token::Boolean
    } else {
        proof {
            if word == seq!['l', 'e', 't'] {
                assert(word.len() == 3 && word[0] == 'l' && word[1] == 'e' && word[2] == 't');
            }
            if word == seq!['t', 'r', 'u', 'e'] {
                assert(word.len() == 4 && word[0] == 't' && word[1] == 'r' && word[2] == 'u'
                    && word[3] == 'e');
            }
            if word == seq!['f', 'a', 'l', 's', 'e'] {
                assert(word.len() == 5 && word[0] == 'f' && word[1] == 'a' && word[2] == 'l'
                    && word[3] == 's' && word[4] == 'e');
            }
        }
        Token::Identifer
    }
}

/// Passes over blanks from `pos` on and reads one token: what was found, where it
/// starts and where it ends.
pub(crate) fn read_token(src: &Vec<char>, pos: usize) -> (read: (Option<Result<Token, ()>>, usize, usize))
    requires
        pos <= src.len(),
    ensures
        read.0 == scan(src@, pos as nat).token,
        read.1 == scan(src@, pos as nat).start,
        read.2 == scan(src@, pos as nat).end,
        pos <= read.1 <= read.2 <= src.len(),
        read.0 is Some ==> read.1 < read.2,
{
    proof {
        lemma_scan_advances(src@, pos as nat);
    }
    let start = skip(src, pos, CharClass::Blank);
    if start >= src.len() {
        return (None, start, start);
    }
    let c = src[start];
    let mut end: usize = start + 1;
    let mut found: Result<Token, ()> = Err(());
    if ('a' <= c && c <= 'z') || ('A' <= c && c <= 'Z') || c == '_' {
        end = skip(src, start, CharClass::Word);
        found = Ok(classify_word(src, start, end));
    } else if '0' <= c && c <= '9' {
        end = skip(src, start, CharClass::Digit);
        found = Ok(Token::Number);
    } else if c == '"' {
        let close = skip(src, start + 1, CharClass::StringBody);
        if close < src.len() {
            end = close + 1;
            found = Ok(Token::String);
        }
    } else if c == '/' && start + 1 < src.len() && src[start + 1] == '/' {
        end = skip(src, start + 2, CharClass::LineBody);
        found = Ok(Token::Comment);
    } else if c == '/' && start + 1 < src.len() && src[start + 1] == '*' {
        match find_block_end(src, start + 2) {
            Some(e) => {
                end = e;
                found = Ok(Token::Comment);
            },
            None => {},
        }
    } else if c == '=' {
        found = Ok(Token::Assign);
    } else if c == '(' {
        found = Ok(Token::LParen);
    } else if c == ')' {
        found = Ok(Token::RParen);
    }
    (Some(found), start, end)
}

/// The characters of `src` from `start` to `end` as a text.
pub(crate) fn text_between(src: &Vec<char>, start: usize, end: usize) -> (text: String)
    requires
        start <= end <= src.len(),
    ensures
        text@ == src@.subrange(start as int, end as int),
{
    let mut text = String::new();
    let mut i: usize = start;
    while i < end
        invariant
            start <= i <= end <= src.len(),
            text@ == src@.subrange(start as int, i as int),
        decreases end - i,
    {
        text.push(src[i]);
        assert(src@.subrange(start as int, i as int).push(src@[i as int]) =~= src@.subrange(
            start as int,
            i + 1,
        ));
        i += 1;
    }
    text
}

/// A lexer over a text: each call of `next` passes over blanks and reads one token.
pub struct Lexer {
    source: Vec<char>,
    start: usize,
    position: usize,
    extras: LexingError,
}

impl Lexer {
    #[verifier::type_invariant]
    spec fn in_bounds(self) -> bool {
        self.start <= self.position <= self.source.len()
    }

    /// The text that is read.
    pub closed spec fn source(&self) -> Seq<char> {
        self.source@
    }

    /// How many characters have been read.
    pub closed spec fn position(&self) -> nat {
        self.position as nat
    }

    /// Where the token that was read last starts.
    pub closed spec fn token_start(&self) -> nat {
        self.start as nat
    }

    /// What the lexer carries along.
    pub closed spec fn carried(&self) -> LexingError {
        self.extras
    }

    /// A lexer at the start of `source`.
    pub fn new(source: &str) -> (lexer: Lexer)
        ensures
            lexer.source() == source@,
            lexer.position() == 0,
            lexer.token_start() == 0,
            lexer.carried() is UnexpectedToken,
    {
        Lexer { source: chars_of(source), start: 0, position: 0, extras: LexingError::default() }
    }

    /// Reads the next token: `None` at the end of the text, else the token or `Err`
    /// where no token starts.
    pub fn next(&mut self) -> (found: Option<Result<Token, ()>>)
        ensures
            final(self).source() == old(self).source(),
            final(self).carried() == old(self).carried(),
            found == scan(old(self).source(), old(self).position()).token,
            final(self).token_start() == scan(old(self).source(), old(self).position()).start,
            final(self).position() == scan(old(self).source(), old(self).position()).end,
    {
        proof {
            use_type_invariant(&*self);
        }
        let (found, start, end) = read_token(&self.source, self.position);
        self.position = end;
        self.start = start;
        found
    }

    /// The text of the token that was read last.
    pub fn slice(&self) -> (text: String)
        ensures
            text@ == self.source().subrange(self.token_start() as int, self.position() as int),
    {
        proof {
            use_type_invariant(self);
        }
        text_between(&self.source, self.start, self.position)
    }

    /// What the lexer carries along.
    pub fn extras(&self) -> (extras: &LexingError)
        ensures
            *extras == self.carried(),
    {
        &self.extras
    }
}

impl Token {
    /// A lexer at the start of `source`.
    pub fn lexer(source: &str) -> (lexer: Lexer)
        ensures
            lexer.source() == source@,
            lexer.position() == 0,
            lexer.token_start() == 0,
            lexer.carried() is UnexpectedToken,
    {
        Lexer::new(source)
    }
}

} // verus!
