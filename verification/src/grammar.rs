//! The lexical grammar, stated on a sequence of Unicode scalar values.
//!
//! Everything here is specification: the functions say where a lexeme begins
//! and ends and what it is, and the lemmas state what follows from that.

use vstd::prelude::*;
use crate::text::decimal;

verus! {

/// What a token is, with text payloads as sequences of scalar values.
pub enum TokenKind {
    LParen,
    RParen,
    LBrace,
    RBrace,
    Semicolon,
    Comma,
    Dot,
    Minus,
    Plus,
    Slash,
    Star,
    Bang,
    BangEqual,
    Equal,
    EqualEqual,
    Greater,
    GreaterEqual,
    Less,
    LessEqual,
    Identifier(Seq<char>),
    String(Seq<char>),
    Number(Seq<char>),
    And,
    Class,
    Else,
    False,
    Fun,
    For,
    If,
    Nil,
    Or,
    Print,
    Return,
    Super,
    This,
    True,
    Var,
    While,
    Eof,
    Error(Seq<char>),
}

/// One lexeme of a text: its kind and the half-open range of offsets it covers.
pub struct Lexeme {
    pub kind: TokenKind,
    pub beg: int,
    pub end: int,
}

pub open spec fn is_blank(c: char) -> bool {
    c == ' ' || c == '\r' || c == '\t'
}

pub open spec fn is_digit(c: char) -> bool {
    '0' <= c <= '9'
}

pub open spec fn is_letter(c: char) -> bool {
    ('a' <= c <= 'z') || ('A' <= c <= 'Z')
}

/// Scalar values that may begin an identifier or keyword.
pub open spec fn is_word_start(c: char) -> bool {
    is_letter(c) || c == '_'
}

/// Scalar values that may continue an identifier or keyword.
pub open spec fn is_word_char(c: char) -> bool {
    is_letter(c) || is_digit(c) || c == '_'
}

/// First offset at or after `i` that is not skipped before a token. Blanks
/// are skipped always, `#` opens a comment, everything inside a comment is
/// skipped, and a line break is skipped and closes the comment.
pub open spec fn junk_end(s: Seq<char>, i: int, comment: bool) -> int
    decreases s.len() - i,
{
    if !(0 <= i < s.len()) {
        i
    } else if s[i] == '\n' {
        junk_end(s, i + 1, false)
    } else if comment || is_blank(s[i]) {
        junk_end(s, i + 1, comment)
    } else if s[i] == '#' {
        junk_end(s, i + 1, true)
    } else {
        i
    }
}

/// Offset just past the quote that closes a string literal whose body is
/// scanned from `i`, or `None` if the text ends first. Every backslash flips
/// `escaped`; a quote closes the literal only while `escaped` is false.
pub open spec fn string_close(s: Seq<char>, i: int, escaped: bool) -> Option<int>
    decreases s.len() - i,
{
    if !(0 <= i < s.len()) {
        None
    } else if s[i] == '\\' {
        string_close(s, i + 1, !escaped)
    } else if s[i] == '"' && !escaped {
        Some(i + 1)
    } else {
        string_close(s, i + 1, escaped)
    }
}

/// First offset at or after `i` that does not hold a digit.
pub open spec fn digits_end(s: Seq<char>, i: int) -> int
    decreases s.len() - i,
{
    if 0 <= i < s.len() && is_digit(s[i]) {
        digits_end(s, i + 1)
    } else {
        i
    }
}

/// First offset at or after `i` that does not hold a word character.
pub open spec fn word_end(s: Seq<char>, i: int) -> int
    decreases s.len() - i,
{
    if 0 <= i < s.len() && is_word_char(s[i]) {
        word_end(s, i + 1)
    } else {
        i
    }
}

/// The reserved word spelled by `text`, if it is one. The match is exact and
/// case-sensitive.
pub open spec fn keyword(text: Seq<char>) -> Option<TokenKind> {
    if text == "and"@ {
        Some(TokenKind::And)
    } else if text == "class"@ {
        Some(TokenKind::Class)
    } else if text == "else"@ {
        Some(TokenKind::Else)
    } else if text == "false"@ {
        Some(TokenKind::False)
    } else if text == "for"@ {
        Some(TokenKind::For)
    } else if text == "fun"@ {
        Some(TokenKind::Fun)
    } else if text == "if"@ {
        Some(TokenKind::If)
    } else if text == "nil"@ {
        Some(TokenKind::Nil)
    } else if text == "or"@ {
        Some(TokenKind::Or)
    } else if text == "print"@ {
        Some(TokenKind::Print)
    } else if text == "return"@ {
        Some(TokenKind::Return)
    } else if text == "super"@ {
        Some(TokenKind::Super)
    } else if text == "this"@ {
        Some(TokenKind::This)
    } else if text == "true"@ {
        Some(TokenKind::True)
    } else if text == "var"@ {
        Some(TokenKind::Var)
    } else if text == "while"@ {
        Some(TokenKind::While)
    } else {
        None
    }
}

/// The kind of a word: its keyword, or an identifier carrying the word.
pub open spec fn word_kind(text: Seq<char>) -> TokenKind {
    match keyword(text) {
        Some(kind) => kind,
        None => TokenKind::Identifier(text),
    }
}

/// The token that `c` is on its own, whatever follows it.
pub open spec fn punctuation(c: char) -> Option<TokenKind> {
    if c == '/' {
        Some(TokenKind::Slash)
    } else if c == '(' {
        Some(TokenKind::LParen)
    } else if c == ')' {
        Some(TokenKind::RParen)
    } else if c == '{' {
        Some(TokenKind::LBrace)
    } else if c == '}' {
        Some(TokenKind::RBrace)
    } else if c == ',' {
        Some(TokenKind::Comma)
    } else if c == '.' {
        Some(TokenKind::Dot)
    } else if c == '-' {
        Some(TokenKind::Minus)
    } else if c == '+' {
        Some(TokenKind::Plus)
    } else if c == ';' {
        Some(TokenKind::Semicolon)
    } else if c == '*' {
        Some(TokenKind::Star)
    } else {
        None
    }
}

/// The operator that `c` begins, depending on whether `=` follows it.
pub open spec fn operator(c: char, equal_follows: bool) -> Option<TokenKind> {
    if c == '!' {
        Some(if equal_follows { TokenKind::BangEqual } else { TokenKind::Bang })
    } else if c == '=' {
        Some(if equal_follows { TokenKind::EqualEqual } else { TokenKind::Equal })
    } else if c == '<' {
        Some(if equal_follows { TokenKind::LessEqual } else { TokenKind::Less })
    } else if c == '>' {
        Some(if equal_follows { TokenKind::GreaterEqual } else { TokenKind::Greater })
    } else {
        None
    }
}

/// Diagnostic for a string literal that begins at offset `beg` and is never
/// closed.
pub open spec fn unterminated_string_message(beg: int) -> Seq<char> {
    "unterminated string literal starting at position "@ + decimal(beg as nat)
}

/// Diagnostic for a number whose `.` is not followed by a digit.
pub open spec fn trailing_dot_message() -> Seq<char> {
    "trailing '.' in number literal"@
}

/// Diagnostic for a scalar value that begins no token.
pub open spec fn invalid_character_message(c: char) -> Seq<char> {
    "Invalid character "@.push(c)
}

/// The string literal whose opening quote is at `beg`.
pub open spec fn string_lexeme(s: Seq<char>, beg: int) -> Lexeme {
    match string_close(s, beg + 1, false) {
        Some(end) => Lexeme { kind: TokenKind::String(s.subrange(beg, end)), beg, end },
        None => Lexeme {
            kind: TokenKind::Error(unterminated_string_message(beg)),
            beg,
            end: s.len() as int,
        },
    }
}

/// The number literal whose first digit is at `beg`: `digit+ ('.' digit+)?`.
/// A `.` after the leading digits belongs to the literal; when no digit
/// follows it, the lexeme is an error that ends just past the `.`.
pub open spec fn number_lexeme(s: Seq<char>, beg: int) -> Lexeme {
    let whole = digits_end(s, beg + 1);
    if whole < s.len() && s[whole] == '.' {
        let end = digits_end(s, whole + 1);
        if end == whole + 1 {
            Lexeme { kind: TokenKind::Error(trailing_dot_message()), beg, end }
        } else {
            Lexeme { kind: TokenKind::Number(s.subrange(beg, end)), beg, end }
        }
    } else {
        Lexeme { kind: TokenKind::Number(s.subrange(beg, whole)), beg, end: whole }
    }
}

/// The identifier or keyword whose first scalar value is at `beg`.
pub open spec fn word_lexeme(s: Seq<char>, beg: int) -> Lexeme {
    let end = word_end(s, beg + 1);
    Lexeme { kind: word_kind(s.subrange(beg, end)), beg, end }
}

/// The lexeme that begins exactly at offset `beg`, where `beg` is inside the
/// text.
pub open spec fn lexeme_from(s: Seq<char>, beg: int) -> Lexeme {
    let c = s[beg];
    let equal_follows = beg + 1 < s.len() && s[beg + 1] == '=';
    if c == '"' {
        string_lexeme(s, beg)
    } else if punctuation(c) is Some {
        Lexeme { kind: punctuation(c).unwrap(), beg, end: beg + 1 }
    } else if operator(c, equal_follows) is Some {
        Lexeme {
            kind: operator(c, equal_follows).unwrap(),
            beg,
            end: if equal_follows { beg + 2 } else { beg + 1 },
        }
    } else if is_digit(c) {
        number_lexeme(s, beg)
    } else if is_word_start(c) {
        word_lexeme(s, beg)
    } else {
        Lexeme { kind: TokenKind::Error(invalid_character_message(c)), beg, end: beg + 1 }
    }
}

/// The next lexeme of `s` for a cursor at offset `from`: blanks and comments
/// are skipped, then either the text is exhausted, which gives the
/// end-of-input lexeme, or a lexeme begins.
pub open spec fn lexeme_at(s: Seq<char>, from: int) -> Lexeme {
    let beg = junk_end(s, from, false);
    if beg >= s.len() {
        Lexeme { kind: TokenKind::Eof, beg, end: beg }
    } else {
        lexeme_from(s, beg)
    }
}

/// The lexemes of `s` for a cursor at offset `from`, each scanned from where
/// the one before it ends, up to and including the end-of-input lexeme.
pub open spec fn lexemes(s: Seq<char>, from: int) -> Seq<Lexeme>
    decreases s.len() - from,
{
    let first = lexeme_at(s, from);
    if first.kind is Eof || !(0 <= from <= s.len()) {
        seq![first]
    } else {
        proof {
            lemma_lexeme_at_bounds(s, from);
        }
        seq![first] + lexemes(s, first.end)
    }
}

/// Skipping moves forward and stays inside the text.
pub proof fn lemma_junk_end_bounds(s: Seq<char>, i: int, comment: bool)
    requires
        0 <= i <= s.len(),
    ensures
        i <= junk_end(s, i, comment) <= s.len(),
    decreases s.len() - i,
{
    if i < s.len() {
        lemma_junk_end_bounds(s, i + 1, false);
        lemma_junk_end_bounds(s, i + 1, true);
    }
}

/// A closing quote lies past where the scan for it began, inside the text.
pub proof fn lemma_string_close_bounds(s: Seq<char>, i: int, escaped: bool)
    requires
        0 <= i <= s.len(),
    ensures
        string_close(s, i, escaped) matches Some(end) ==> i < end <= s.len(),
    decreases s.len() - i,
{
    if i < s.len() {
        lemma_string_close_bounds(s, i + 1, false);
        lemma_string_close_bounds(s, i + 1, true);
    }
}

/// A run of digits ends at or after its start, inside the text.
pub proof fn lemma_digits_end_bounds(s: Seq<char>, i: int)
    requires
        0 <= i <= s.len(),
    ensures
        i <= digits_end(s, i) <= s.len(),
    decreases s.len() - i,
{
    if i < s.len() {
        lemma_digits_end_bounds(s, i + 1);
    }
}

/// A run of word characters ends at or after its start, inside the text.
pub proof fn lemma_word_end_bounds(s: Seq<char>, i: int)
    requires
        0 <= i <= s.len(),
    ensures
        i <= word_end(s, i) <= s.len(),
    decreases s.len() - i,
{
    if i < s.len() {
        lemma_word_end_bounds(s, i + 1);
    }
}

/// A lexeme that begins inside the text is never empty and ends inside it.
pub proof fn lemma_lexeme_from_bounds(s: Seq<char>, beg: int)
    requires
        0 <= beg < s.len(),
    ensures
        lexeme_from(s, beg).beg == beg,
        beg < lexeme_from(s, beg).end <= s.len(),
        !(lexeme_from(s, beg).kind is Eof),
{
    lemma_string_close_bounds(s, beg + 1, false);
    lemma_digits_end_bounds(s, beg + 1);
    let whole = digits_end(s, beg + 1);
    if whole < s.len() {
        lemma_digits_end_bounds(s, whole + 1);
    }
    lemma_word_end_bounds(s, beg + 1);
}

/// Scanning moves forward: a lexeme begins at or after the cursor, ends at or
/// after its beginning and inside the text, and is empty only when it is the
/// end-of-input lexeme, which sits at the end of the text.
pub proof fn lemma_lexeme_at_bounds(s: Seq<char>, from: int)
    requires
        0 <= from <= s.len(),
    ensures
        from <= lexeme_at(s, from).beg <= lexeme_at(s, from).end <= s.len(),
        lexeme_at(s, from).kind is Eof <==> lexeme_at(s, from).beg == lexeme_at(s, from).end,
        lexeme_at(s, from).kind is Eof ==> lexeme_at(s, from).beg == s.len(),
{
    lemma_junk_end_bounds(s, from, false);
    let beg = junk_end(s, from, false);
    if beg < s.len() {
        lemma_lexeme_from_bounds(s, beg);
    }
}

/// The lexemes from any cursor on are in source order without overlap, lie
/// inside the text, and end with the one end-of-input lexeme, which is empty
/// and sits at the end of the text.
pub proof fn lemma_lexemes_shape(s: Seq<char>, from: int)
    requires
        0 <= from <= s.len(),
    ensures
        lexemes(s, from).len() >= 1,
        lexemes(s, from).last().kind is Eof,
        lexemes(s, from).last().beg == s.len(),
        lexemes(s, from).last().end == s.len(),
        forall|i: int|
            0 <= i < lexemes(s, from).len() - 1 ==> !((#[trigger] lexemes(s, from)[i]).kind is Eof),
        forall|i: int|
            0 <= i < lexemes(s, from).len() ==> from <= (#[trigger] lexemes(s, from)[i]).beg
                <= lexemes(s, from)[i].end <= s.len(),
        forall|i: int|
            0 <= i < lexemes(s, from).len() - 1 ==> (#[trigger] lexemes(s, from)[i]).end
                <= lexemes(s, from)[i + 1].beg,
    decreases s.len() - from,
{
    lemma_lexeme_at_bounds(s, from);
    let first = lexeme_at(s, from);
    if !(first.kind is Eof) {
        lemma_lexemes_shape(s, first.end);
        let rest = lexemes(s, first.end);
        let all = lexemes(s, from);
        assert(all =~= seq![first] + rest);
        assert forall|i: int| 0 <= i < all.len() - 1 implies !((#[trigger] all[i]).kind is Eof) by {
            if i > 0 {
                assert(all[i] == rest[i - 1]);
            }
        }
        assert forall|i: int| 0 <= i < all.len() implies from <= (#[trigger] all[i]).beg
            <= all[i].end <= s.len() by {
            if i > 0 {
                assert(all[i] == rest[i - 1]);
            }
        }
        assert forall|i: int| 0 <= i < all.len() - 1 implies (#[trigger] all[i]).end <= all[i
            + 1].beg by {
            assert(all[i + 1] == rest[i]);
            if i > 0 {
                assert(all[i] == rest[i - 1]);
            }
        }
    }
}

} // verus!
