//! The tokenizer: a cursor over the scalar values of a source text that hands
//! out one token at a time.

use vstd::prelude::*;
use crate::grammar::{
    digits_end, is_blank, is_digit, is_word_char, is_word_start, junk_end,
    lemma_lexeme_at_bounds, lemma_lexemes_shape, lexeme_at, lexemes, number_lexeme, string_close,
    string_lexeme, word_end, word_kind, word_lexeme, Lexeme, TokenKind,
};
use crate::lemmas::{
    lemma_payload_is_source_text, lemma_payloads_are_source_text, payload_is_source_text,
};
use crate::location::{col_of, lemma_row_col_bounds, position_at, row_of, Location, Position};
use crate::text::{append_decimal, chars_of, str_eq, string_of};

verus! {

#[derive(PartialEq, Clone, Debug)]
pub enum TokenType {
    // Group
    LParen,
    RParen,
    LBrace,
    RBrace,
    Semicolon,
    Comma,
    Dot,
    Minus,
    Plus,
    Slash,
    Star,
    Bang,
    BangEqual,
    Equal,
    EqualEqual,
    Greater,
    GreaterEqual,
    Less,
    LessEqual,
    // Literals
    Identifier(String),
    /// A string literal: the source text of the literal, quotes included.
    String(String),
    /// A number literal: the digits as they stand in the source, with at most
    /// one `.` between two runs of digits.
    Number(String),
    // Keywords
    And,
    Class,
    Else,
    False,
    Fun,
    For,
    If,
    Nil,
    Or,
    Print,
    Return,
    Super,
    This,
    True,
    Var,
    While,
    Eof,
    /// A malformed lexeme, with a diagnostic.
    Error(String),
}

impl View for TokenType {
    type V = TokenKind;

    open spec fn view(&self) -> TokenKind {
        match *self {
            TokenType::LParen => TokenKind::LParen,
            TokenType::RParen => TokenKind::RParen,
            TokenType::LBrace => TokenKind::LBrace,
            TokenType::RBrace => TokenKind::RBrace,
            TokenType::Semicolon => TokenKind::Semicolon,
            TokenType::Comma => TokenKind::Comma,
            TokenType::Dot => TokenKind::Dot,
            TokenType::Minus => TokenKind::Minus,
            TokenType::Plus => TokenKind::Plus,
            TokenType::Slash => TokenKind::Slash,
            TokenType::Star => TokenKind::Star,
            TokenType::Bang => TokenKind::Bang,
            TokenType::BangEqual => TokenKind::BangEqual,
            TokenType::Equal => TokenKind::Equal,
            TokenType::EqualEqual => TokenKind::EqualEqual,
            TokenType::Greater => TokenKind::Greater,
            TokenType::GreaterEqual => TokenKind::GreaterEqual,
            TokenType::Less => TokenKind::Less,
            TokenType::LessEqual => TokenKind::LessEqual,
            TokenType::Identifier(text) => TokenKind::Identifier(text@),
            TokenType::String(text) => TokenKind::String(text@),
            TokenType::Number(text) => TokenKind::Number(text@),
            TokenType::And => TokenKind::And,
            TokenType::Class => TokenKind::Class,
            TokenType::Else => TokenKind::Else,
            TokenType::False => TokenKind::False,
            TokenType::Fun => TokenKind::Fun,
            TokenType::For => TokenKind::For,
            TokenType::If => TokenKind::If,
            TokenType::Nil => TokenKind::Nil,
            TokenType::Or => TokenKind::Or,
            TokenType::Print => TokenKind::Print,
            TokenType::Return => TokenKind::Return,
            TokenType::Super => TokenKind::Super,
            TokenType::This => TokenKind::This,
            TokenType::True => TokenKind::True,
            TokenType::Var => TokenKind::Var,
            TokenType::While => TokenKind::While,
            TokenType::Eof => TokenKind::Eof,
            TokenType::Error(message) => TokenKind::Error(message@),
        }
    }
}

/// A token: where it stands in the source, and what it is.
#[derive(PartialEq, Clone, Debug)]
pub struct Token(pub Location, pub TokenType);

/// A token as a value of the grammar.
pub struct TokenView {
    pub loc: Location,
    pub kind: TokenKind,
}

impl View for Token {
    type V = TokenView;

    open spec fn view(&self) -> TokenView {
        TokenView { loc: self.0, kind: self.1@ }
    }
}

/// The token that stands for `lexeme` of `text`.
pub open spec fn token_of(text: Seq<char>, lexeme: Lexeme) -> TokenView {
    TokenView {
        loc: Location {
            beg: position_at(text, lexeme.beg),
            end: position_at(text, lexeme.end),
        },
        kind: lexeme.kind,
    }
}

fn is_blank_char(c: char) -> (b: bool)
    ensures
        b == is_blank(c),
{
    c == ' ' || c == '\r' || c == '\t'
}

fn is_digit_char(c: char) -> (b: bool)
    ensures
        b == is_digit(c),
{
    '0' <= c && c <= '9'
}

fn is_word_start_char(c: char) -> (b: bool)
    ensures
        b == is_word_start(c),
{
    ('a' <= c && c <= 'z') || ('A' <= c && c <= 'Z') || c == '_'
}

/// A cursor over a source text. It owns the scalar values of the text and
/// remembers how many of them have been consumed, and on which row and
/// column the next one stands.
pub struct Lexer {
    row: usize,
    col: usize,
    pos: usize,
    content: Vec<char>,
}

impl Lexer {
    /// The text that is being scanned.
    pub closed spec fn text(&self) -> Seq<char> {
        self.content@
    }

    /// Number of scalar values consumed so far.
    pub closed spec fn offset(&self) -> int {
        self.pos as int
    }

    /// The cursor is inside the text or at its end, and its row and column
    /// are those of its offset.
    pub closed spec fn wf(&self) -> bool {
        &&& self.pos <= self.content@.len()
        &&& self.row == row_of(self.content@, self.pos as int)
        &&& self.col == col_of(self.content@, self.pos as int)
    }

    /// A well-formed cursor lies within its text, and offsets into the text
    /// fit the machine word.
    pub proof fn lemma_offset_in_text(&self)
        requires
            self.wf(),
        ensures
            0 <= self.offset() <= self.text().len() <= usize::MAX,
    {
        assert(self.content@.len() == self.content.len());
    }

    /// A cursor at the start of `content`.
    pub fn new(content: &str) -> (lexer: Lexer)
        ensures
            lexer.wf(),
            lexer.text() == content@,
            lexer.offset() == 0,
    {
        Lexer { row: 0, col: 0, pos: 0, content: chars_of(content) }
    }

    /// Where the cursor stands.
    pub fn position(&self) -> (p: Position)
        requires
            self.wf(),
        ensures
            p == position_at(self.text(), self.offset()),
            p.row == row_of(self.text(), self.offset()),
            p.col == col_of(self.text(), self.offset()),
            p.pos == self.offset(),
    {
        Position::new(self.row, self.col, self.pos)
    }

    /// The next scalar value, which stays unconsumed, or `None` at the end of
    /// the text.
    pub fn peek(&self) -> (next: Option<char>)
        requires
            self.wf(),
        ensures
            next == if self.offset() < self.text().len() {
                Some(self.text()[self.offset()])
            } else {
                None
            },
    {
        if self.pos < self.content.len() {
            Some(self.content[self.pos])
        } else {
            None
        }
    }

    /// Whether the next scalar value is `ch`.
    pub fn is_next(&self, ch: char) -> (b: bool)
        requires
            self.wf(),
        ensures
            b == (self.offset() < self.text().len() && self.text()[self.offset()] == ch),
    {
        match self.peek() {
            None => false,
            Some(ch2) => ch == ch2,
        }
    }

    /// Whether the next scalar value is an ASCII digit.
    pub fn is_ascii_digit(&self) -> (b: bool)
        requires
            self.wf(),
        ensures
            b == (self.offset() < self.text().len() && is_digit(self.text()[self.offset()])),
    {
        match self.peek() {
            None => false,
            Some(ch) => is_digit_char(ch),
        }
    }

    /// Whether the next scalar value may continue an identifier.
    pub fn is_identifier_character(&self) -> (b: bool)
        requires
            self.wf(),
        ensures
            b == (self.offset() < self.text().len() && is_word_char(
                self.text()[self.offset()],
            )),
    {
        match self.peek() {
            None => false,
            Some(ch) => is_word_start_char(ch) || is_digit_char(ch),
        }
    }

    /// Consumes one scalar value and returns it, or returns `None` at the end
    /// of the text and leaves the cursor where it is. A line break moves the
    /// cursor to column 0 of the next row; anything else moves it one column
    /// on.
    pub fn next(&mut self) -> (res: Option<char>)
        requires
            old(self).wf(),
        ensures
            final(self).wf(),
            final(self).text() == old(self).text(),
            old(self).offset() < old(self).text().len() ==> res == Some(
                old(self).text()[old(self).offset()],
            ) && final(self).offset() == old(self).offset() + 1,
            old(self).offset() >= old(self).text().len() ==> res is None && final(self).offset()
                == old(self).offset(),
    {
        if self.pos < self.content.len() {
            let ch = self.content[self.pos];
            proof {
                lemma_row_col_bounds(self.content@, self.pos as int);
            }
            self.pos += 1;
            if ch == '\n' {
                self.col = 0;
                self.row += 1;
            } else {
                self.col += 1;
            }
            Some(ch)
        } else {
            None
        }
    }

    /// Consumes scalar values up to and including the first `ch`. Returns
    /// whether there was one; if not, the whole rest of the text is consumed.
    pub fn next_up_to(&mut self, ch: char) -> (found: bool)
        requires
            old(self).wf(),
        ensures
            final(self).wf(),
            final(self).text() == old(self).text(),
            found ==> {
                &&& old(self).offset() < final(self).offset() <= old(self).text().len()
                &&& old(self).text()[final(self).offset() - 1] == ch
                &&& forall|k: int|
                    old(self).offset() <= k < final(self).offset() - 1 ==> old(self).text()[k]
                        != ch
            },
            !found ==> {
                &&& final(self).offset() == old(self).text().len()
                &&& forall|k: int|
                    old(self).offset() <= k < old(self).text().len() ==> old(self).text()[k]
                        != ch
            },
    {
        loop
            invariant
                self.wf(),
                self.text() == old(self).text(),
                old(self).offset() <= self.offset() <= self.text().len(),
                forall|k: int| old(self).offset() <= k < self.offset() ==> self.text()[k] != ch,
            decreases self.text().len() - self.offset(),
        {
            match self.next() {
                None => {
                    return false;
                },
                Some(c) => {
                    if c == ch {
                        return true;
                    }
                },
            }
        }
    }

    /// The text between `beg` and the cursor.
    pub fn extract(&self, beg: &Position) -> (res: String)
        requires
            self.wf(),
            beg.pos <= self.offset(),
        ensures
            res@ == self.text().subrange(beg.pos as int, self.offset()),
    {
        string_of(&self.content, beg.pos, self.pos)
    }

    /// The keyword that `value` spells, or the identifier `value`.
    pub fn get_token_type(&self, value: &str) -> (token_type: TokenType)
        ensures
            token_type@ == word_kind(value@),
    {
        if str_eq(value, "and") {
            TokenType::And
        } else if str_eq(value, "class") {
            TokenType::Class
        } else if str_eq(value, "else") {
            TokenType::Else
        } else if str_eq(value, "false") {
            TokenType::False
        } else if str_eq(value, "for") {
            TokenType::For
        } else if str_eq(value, "fun") {
            TokenType::Fun
        } else if str_eq(value, "if") {
            TokenType::If
        } else if str_eq(value, "nil") {
            TokenType::Nil
        } else if str_eq(value, "or") {
            TokenType::Or
        } else if str_eq(value, "print") {
            TokenType::Print
        } else if str_eq(value, "return") {
            TokenType::Return
        } else if str_eq(value, "super") {
            TokenType::Super
        } else if str_eq(value, "this") {
            TokenType::This
        } else if str_eq(value, "true") {
            TokenType::True
        } else if str_eq(value, "var") {
            TokenType::Var
        } else if str_eq(value, "while") {
            TokenType::While
        } else {
            TokenType::Identifier(String::from_str(value))
        }
    }

    /// A token of the given type that spans from `beg` to the cursor.
    fn make_token(&self, beg: Position, token_type: TokenType) -> (token: Token)
        requires
            self.wf(),
        ensures
            token.0 == (Location { beg, end: position_at(self.text(), self.offset()) }),
            token.1 == token_type,
    {
        let end = self.position();
        Token(Location::new(beg, end), token_type)
    }

    /// An error token with diagnostic `msg` that spans from `beg` to the
    /// cursor.
    fn make_error(&self, beg: Position, msg: &str) -> (token: Token)
        requires
            self.wf(),
        ensures
            token.0 == (Location { beg, end: position_at(self.text(), self.offset()) }),
            token.1@ == TokenKind::Error(msg@),
    {
        let end = self.position();
        Token(Location::new(beg, end), TokenType::Error(String::from_str(msg)))
    }

    /// A number token that carries the text from `beg` to the cursor.
    fn make_number(&self, beg: Position) -> (token: Token)
        requires
            self.wf(),
            beg.pos <= self.offset(),
        ensures
            token.0 == (Location { beg, end: position_at(self.text(), self.offset()) }),
            token.1@ == TokenKind::Number(self.text().subrange(beg.pos as int, self.offset())),
    {
        let value = self.extract(&beg);
        let end = self.position();
        Token(Location::new(beg, end), TokenType::Number(value))
    }

    /// Consumes `ch` if it is next and gives the token `pass`; otherwise
    /// consumes nothing and gives the token `fail`.
    fn match_next(
        &mut self,
        beg: Position,
        ch: char,
        pass: TokenType,
        fail: TokenType,
    ) -> (token: Token)
        requires
            old(self).wf(),
        ensures
            final(self).wf(),
            final(self).text() == old(self).text(),
            token.0 == (Location {
                beg,
                end: position_at(final(self).text(), final(self).offset()),
            }),
            if old(self).offset() < old(self).text().len() && old(self).text()[old(self).offset()]
                == ch {
                final(self).offset() == old(self).offset() + 1 && token.1 == pass
            } else {
                final(self).offset() == old(self).offset() && token.1 == fail
            },
    {
        if self.is_next(ch) {
            self.next();
            self.make_token(beg, pass)
        } else {
            self.make_token(beg, fail)
        }
    }

    /// Skips what stands before the next token: blanks, comments from `#` to
    /// the end of the line, and line breaks.
    pub fn eat_junk(&mut self)
        requires
            old(self).wf(),
        ensures
            final(self).wf(),
            final(self).text() == old(self).text(),
            final(self).offset() == junk_end(old(self).text(), old(self).offset(), false),
    {
        let mut comment = false;
        loop
            invariant
                self.wf(),
                self.text() == old(self).text(),
                junk_end(self.text(), self.offset(), comment) == junk_end(
                    old(self).text(),
                    old(self).offset(),
                    false,
                ),
            ensures
                self.wf(),
                self.text() == old(self).text(),
                self.offset() == junk_end(old(self).text(), old(self).offset(), false),
            decreases self.text().len() - self.offset(),
        {
            match self.peek() {
                None => break ,
                Some(ch) => {
                    if is_blank_char(ch) {
                        self.next();
                    } else if ch == '#' {
                        self.next();
                        comment = true;
                    } else if ch == '\n' {
                        self.next();
                        comment = false;
                    } else if comment {
                        self.next();
                    } else {
                        break;
                    }
                },
            }
        }
    }

    /// Scans a string literal whose opening quote, at `beg`, has just been
    /// consumed.
    fn parse_string(&mut self, beg: Position) -> (token: Token)
        requires
            old(self).wf(),
            beg == position_at(old(self).text(), old(self).offset() - 1),
            old(self).offset() == beg.pos + 1,
        ensures
            final(self).wf(),
            final(self).text() == old(self).text(),
            token@ == token_of(old(self).text(), string_lexeme(old(self).text(), beg.pos as int)),
            final(self).offset() == string_lexeme(old(self).text(), beg.pos as int).end,
    {
        let mut slash = false;
        loop
            invariant
                self.wf(),
                self.text() == old(self).text(),
                beg == position_at(self.text(), beg.pos as int),
                beg.pos < self.offset() <= self.text().len(),
                string_close(self.text(), self.offset(), slash) == string_close(
                    self.text(),
                    beg.pos + 1,
                    false,
                ),
            decreases self.text().len() - self.offset(),
        {
            match self.peek() {
                None => {
                    let mut msg = String::from_str(
                        "unterminated string literal starting at position ",
                    );
                    append_decimal(&mut msg, beg.pos);
                    return self.make_error(beg, msg.as_str());
                },
                Some(ch) => {
                    self.next();
                    if ch == '\\' {
                        slash = !slash;
                    } else if ch == '"' && !slash {
                        let text = self.extract(&beg);
                        return self.make_token(beg, TokenType::String(text));
                    }
                },
            }
        }
    }

    /// Scans a number literal whose first digit, at `beg`, has just been
    /// consumed.
    fn parse_number(&mut self, beg: Position) -> (token: Token)
        requires
            old(self).wf(),
            beg == position_at(old(self).text(), old(self).offset() - 1),
            old(self).offset() == beg.pos + 1,
        ensures
            final(self).wf(),
            final(self).text() == old(self).text(),
            token@ == token_of(old(self).text(), number_lexeme(old(self).text(), beg.pos as int)),
            final(self).offset() == number_lexeme(old(self).text(), beg.pos as int).end,
    {
        while self.is_ascii_digit()
            invariant
                self.wf(),
                self.text() == old(self).text(),
                beg.pos < self.offset() <= self.text().len(),
                digits_end(self.text(), self.offset()) == digits_end(self.text(), beg.pos + 1),
            decreases self.text().len() - self.offset(),
        {
            self.next();
        }
        if self.is_next('.') {
            self.next();
            let ghost fraction = self.offset();
            let mut has_trailing_dot = true;
            while self.is_ascii_digit()
                invariant
                    self.wf(),
                    self.text() == old(self).text(),
                    beg.pos < fraction <= self.offset() <= self.text().len(),
                    has_trailing_dot <==> self.offset() == fraction,
                    digits_end(self.text(), self.offset()) == digits_end(self.text(), fraction),
                decreases self.text().len() - self.offset(),
            {
                has_trailing_dot = false;
                self.next();
            }
            if has_trailing_dot {
                return self.make_error(beg, "trailing '.' in number literal");
            }
        }
        self.make_number(beg)
    }

    /// Scans an identifier or keyword whose first scalar value, at `beg`, has
    /// just been consumed.
    fn parse_identifier(&mut self, beg: Position) -> (token: Token)
        requires
            old(self).wf(),
            beg == position_at(old(self).text(), old(self).offset() - 1),
            old(self).offset() == beg.pos + 1,
        ensures
            final(self).wf(),
            final(self).text() == old(self).text(),
            token@ == token_of(old(self).text(), word_lexeme(old(self).text(), beg.pos as int)),
            final(self).offset() == word_lexeme(old(self).text(), beg.pos as int).end,
    {
        while self.is_identifier_character()
            invariant
                self.wf(),
                self.text() == old(self).text(),
                beg.pos < self.offset() <= self.text().len(),
                word_end(self.text(), self.offset()) == word_end(self.text(), beg.pos + 1),
            decreases self.text().len() - self.offset(),
        {
            self.next();
        }
        let content = self.extract(&beg);
        let token_type = self.get_token_type(content.as_str());
        self.make_token(beg, token_type)
    }

    /// Skips blanks and comments, then consumes one lexeme and returns its
    /// token. At the end of the text the token is `Eof`, and the cursor stays
    /// where it is. A malformed lexeme gives an `Error` token in its place;
    /// the cursor rests just past what was consumed, so the next call goes
    /// on from there.
    pub fn scan_token(&mut self) -> (token: Token)
        requires
            old(self).wf(),
        ensures
            final(self).wf(),
            final(self).text() == old(self).text(),
            token@ == token_of(old(self).text(), lexeme_at(old(self).text(), old(self).offset())),
            final(self).offset() == lexeme_at(old(self).text(), old(self).offset()).end,
            old(self).offset() <= token.0.beg.pos <= token.0.end.pos <= old(self).text().len(),
            token.0.end.pos == final(self).offset(),
            token@.kind is Eof <==> token.0.beg.pos == token.0.end.pos,
            token@.kind is Eof ==> final(self).offset() == old(self).text().len(),
            payload_is_source_text(
                old(self).text(),
                lexeme_at(old(self).text(), old(self).offset()),
            ),
    {
        proof {
            self.lemma_offset_in_text();
            lemma_lexeme_at_bounds(self.text(), self.offset());
            lemma_payload_is_source_text(self.text(), self.offset());
        }
        self.eat_junk();
        let beg = self.position();
        match self.next() {
            None => self.make_token(beg, TokenType::Eof),
            Some(ch) => match ch {
                '"' => self.parse_string(beg),
                '/' => self.make_token(beg, TokenType::Slash),
                '(' => self.make_token(beg, TokenType::LParen),
                ')' => self.make_token(beg, TokenType::RParen),
                '{' => self.make_token(beg, TokenType::LBrace),
                '}' => self.make_token(beg, TokenType::RBrace),
                ',' => self.make_token(beg, TokenType::Comma),
                '.' => self.make_token(beg, TokenType::Dot),
                '-' => self.make_token(beg, TokenType::Minus),
                '+' => self.make_token(beg, TokenType::Plus),
                ';' => self.make_token(beg, TokenType::Semicolon),
                '*' => self.make_token(beg, TokenType::Star),
                '!' => self.match_next(beg, '=', TokenType::BangEqual, TokenType::Bang),
                '=' => self.match_next(beg, '=', TokenType::EqualEqual, TokenType::Equal),
                '<' => self.match_next(beg, '=', TokenType::LessEqual, TokenType::Less),
                '>' => self.match_next(beg, '=', TokenType::GreaterEqual, TokenType::Greater),
                _ => {
                    if is_digit_char(ch) {
                        self.parse_number(beg)
                    } else if is_word_start_char(ch) {
                        self.parse_identifier(beg)
                    } else {
                        let mut msg = String::from_str("Invalid character ");
                        msg.push(ch);
                        self.make_error(beg, msg.as_str())
                    }
                },
            },
        }
    }
}

/// Whether `tokens` are the tokens of `lexemes`, one for one and in order.
pub open spec fn tokens_match(tokens: Seq<Token>, text: Seq<char>, lexemes: Seq<Lexeme>) -> bool {
    &&& tokens.len() == lexemes.len()
    &&& forall|i: int| 0 <= i < tokens.len() ==> (#[trigger] tokens[i])@ == token_of(text, lexemes[i])
}

/// All tokens of `content`, in source order, up to and including the one
/// `Eof` token that ends them.
pub fn tokens(content: &str) -> (tokens: Vec<Token>)
    ensures
        tokens_match(tokens@, content@, lexemes(content@, 0)),
        tokens@.len() >= 1,
        tokens@.last()@.kind is Eof,
        tokens@.last().0.beg == position_at(content@, content@.len() as int),
        tokens@.last().0.end == tokens@.last().0.beg,
        forall|i: int| 0 <= i < tokens@.len() - 1 ==> !((#[trigger] tokens@[i])@.kind is Eof),
        forall|i: int|
            0 <= i < tokens@.len() ==> (#[trigger] tokens@[i]).0.beg.pos <= tokens@[i].0.end.pos
                <= content@.len(),
        forall|i: int|
            0 <= i < tokens@.len() - 1 ==> (#[trigger] tokens@[i]).0.end.pos <= tokens@[i
                + 1].0.beg.pos,
        forall|i: int|
            0 <= i < tokens@.len() ==> payload_is_source_text(
                content@,
                #[trigger] lexemes(content@, 0)[i],
            ),
{
    let mut lex = Lexer::new(content);
    let mut vec: Vec<Token> = Vec::new();
    let ghost text = content@;
    let ghost mut scanned: Seq<Lexeme> = Seq::empty();
    proof {
        lex.lemma_offset_in_text();
        assert(lexemes(text, 0) =~= scanned + lexemes(text, 0));
    }
    loop
        invariant_except_break
            tokens_match(vec@, text, scanned),
            lexemes(text, 0) == scanned + lexemes(text, lex.offset()),
        invariant
            lex.wf(),
            lex.text() == text,
            text == content@,
            text.len() <= usize::MAX,
        ensures
            tokens_match(vec@, text, lexemes(text, 0)),
        decreases text.len() - lex.offset(),
    {
        let ghost from = lex.offset();
        let token = lex.scan_token();
        let done = matches!(token.1, TokenType::Eof);
        vec.push(token);
        proof {
            lemma_lexeme_at_bounds(text, from);
            let first = lexeme_at(text, from);
            assert(scanned + lexemes(text, from) =~= scanned.push(first) + (if done {
                Seq::<Lexeme>::empty()
            } else {
                lexemes(text, first.end)
            }));
            scanned = scanned.push(first);
        }
        if done {
            proof {
                assert(lexemes(text, 0) =~= scanned);
            }
            break;
        }
    }
    proof {
        lemma_lexemes_shape(text, 0);
        lemma_payloads_are_source_text(text, 0);
        let all = lexemes(text, 0);
        assert forall|i: int| 0 <= i < vec@.len() implies (#[trigger] vec@[i]).0.beg.pos
            == all[i].beg && vec@[i].0.end.pos == all[i].end by {
            assert(vec@[i]@ == token_of(text, all[i]));
        }
    }
    vec
}

} // verus!
