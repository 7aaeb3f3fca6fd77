//! What the lexical grammar implies: each scan is as long as it can be, a
//! payload is the source text of its lexeme, and comments yield nothing.

use vstd::prelude::*;
use crate::grammar::{
    digits_end, is_blank, is_digit, is_word_char, is_word_start, junk_end, keyword,
    lemma_digits_end_bounds, lemma_junk_end_bounds, lemma_lexeme_at_bounds,
    lemma_lexeme_from_bounds, lemma_string_close_bounds, lemma_word_end_bounds, lexeme_at,
    lexeme_from, lexemes, number_lexeme, string_close, string_lexeme, trailing_dot_message,
    word_end, word_lexeme, Lexeme, TokenKind,
};

verus! {

/// Skipping stops at the end of the text or at a scalar value that can begin
/// a lexeme: one that is not a blank, a line break or `#`.
pub proof fn lemma_junk_end_stops(s: Seq<char>, i: int, comment: bool)
    requires
        0 <= i <= s.len(),
    ensures
        junk_end(s, i, comment) < s.len() ==> {
            let c = s[junk_end(s, i, comment)];
            !is_blank(c) && c != '\n' && c != '#'
        },
    decreases s.len() - i,
{
    if i < s.len() {
        lemma_junk_end_stops(s, i + 1, false);
        lemma_junk_end_stops(s, i + 1, true);
    }
}

/// Whether no line break stands at the offsets from `a` up to `b`.
pub open spec fn no_line_break(s: Seq<char>, a: int, b: int) -> bool {
    forall|k: int| a <= k < b ==> s[k] != '\n'
}

/// Whether offset `k` lies inside a comment, for a scan that began at `i`:
/// the scan began inside a comment, or a `#` stands between `i` and `k`, and
/// no line break has ended the comment before `k`.
pub open spec fn in_comment(s: Seq<char>, i: int, comment: bool, k: int) -> bool {
    ||| comment && no_line_break(s, i, k)
    ||| exists|j: int| i <= j < k && s[j] == '#' && #[trigger] no_line_break(s, j, k)
}

/// Everything that is skipped is a blank, a line break, a `#`, or part of a
/// comment.
pub proof fn lemma_junk_is_junk(s: Seq<char>, i: int, comment: bool)
    requires
        0 <= i <= s.len(),
    ensures
        forall|k: int|
            i <= k < junk_end(s, i, comment) ==> is_blank(s[k]) || s[k] == '\n' || s[k] == '#'
                || #[trigger] in_comment(s, i, comment, k),
    decreases s.len() - i,
{
    let end = junk_end(s, i, comment);
    if i < end {
        let next = s[i] != '\n' && (comment || s[i] == '#');
        assert(end == junk_end(s, i + 1, next));
        lemma_junk_is_junk(s, i + 1, next);
        assert forall|k: int| i <= k < end implies is_blank(s[k]) || s[k] == '\n' || s[k] == '#'
            || #[trigger] in_comment(s, i, comment, k) by {
            if k > i && in_comment(s, i + 1, next, k) {
                if next && no_line_break(s, i + 1, k) {
                    if comment {
                        assert(no_line_break(s, i, k));
                    } else {
                        assert(s[i] == '#');
                        assert(no_line_break(s, i, k));
                    }
                } else {
                    let j = choose|j: int|
                        i + 1 <= j < k && s[j] == '#' && #[trigger] no_line_break(s, j, k);
                    assert(i <= j < k && s[j] == '#' && no_line_break(s, j, k));
                }
            } else if k == i {
                if comment {
                    assert(no_line_break(s, i, i));
                }
            }
        }
    }
}

/// First offset at or after `i` that holds a line break, or the length of the
/// text if there is none.
pub open spec fn line_end(s: Seq<char>, i: int) -> int
    decreases s.len() - i,
{
    if 0 <= i < s.len() && s[i] != '\n' {
        line_end(s, i + 1)
    } else {
        i
    }
}

/// A comment yields no lexeme: the next lexeme for a cursor at a `#` is the
/// next lexeme for a cursor at the end of that line.
pub proof fn lemma_comment_yields_nothing(s: Seq<char>, i: int)
    requires
        0 <= i < s.len(),
        s[i] == '#',
    ensures
        i < line_end(s, i) <= s.len(),
        lexeme_at(s, i) == lexeme_at(s, line_end(s, i)),
{
    lemma_rest_of_comment(s, i + 1);
}

/// Inside a comment, skipping goes on as it would from the end of the line.
proof fn lemma_rest_of_comment(s: Seq<char>, i: int)
    requires
        0 <= i <= s.len(),
    ensures
        i <= line_end(s, i) <= s.len(),
        junk_end(s, i, true) == junk_end(s, line_end(s, i), false),
    decreases s.len() - i,
{
    if i < s.len() && s[i] != '\n' {
        lemma_rest_of_comment(s, i + 1);
    }
}

/// The run of digits from `i` is as long as it can be.
pub proof fn lemma_digits_end_is_maximal(s: Seq<char>, i: int)
    requires
        0 <= i <= s.len(),
    ensures
        forall|k: int| i <= k < digits_end(s, i) ==> is_digit(#[trigger] s[k]),
        digits_end(s, i) < s.len() ==> !is_digit(s[digits_end(s, i)]),
    decreases s.len() - i,
{
    if i < s.len() {
        lemma_digits_end_is_maximal(s, i + 1);
    }
}

/// The run of word characters from `i` is as long as it can be.
pub proof fn lemma_word_end_is_maximal(s: Seq<char>, i: int)
    requires
        0 <= i <= s.len(),
    ensures
        forall|k: int| i <= k < word_end(s, i) ==> is_word_char(#[trigger] s[k]),
        word_end(s, i) < s.len() ==> !is_word_char(s[word_end(s, i)]),
    decreases s.len() - i,
{
    if i < s.len() {
        lemma_word_end_is_maximal(s, i + 1);
    }
}

/// Number of backslashes at the offsets from `a` up to `b`.
pub open spec fn backslashes(s: Seq<char>, a: int, b: int) -> nat
    decreases b - a,
{
    if a >= b {
        0
    } else if s[b - 1] == '\\' {
        backslashes(s, a, b - 1) + 1
    } else {
        backslashes(s, a, b - 1)
    }
}

/// Whether a quote at offset `q` closes a string literal whose body is
/// scanned from `i`: the backslashes before it, counted from `i` together
/// with one more if the scan began with an escape pending, are even in
/// number.
pub open spec fn closes_string(s: Seq<char>, i: int, escaped: bool, q: int) -> bool {
    &&& i <= q < s.len()
    &&& s[q] == '"'
    &&& (backslashes(s, i, q) + if escaped { 1nat } else { 0nat }) % 2 == 0
}

proof fn lemma_backslashes_from_left(s: Seq<char>, a: int, b: int)
    requires
        a < b,
    ensures
        backslashes(s, a, b) == backslashes(s, a + 1, b) + if s[a] == '\\' { 1nat } else { 0nat },
    decreases b - a,
{
    if a + 1 < b {
        lemma_backslashes_from_left(s, a, b - 1);
    } else {
        assert(backslashes(s, a, a) == 0);
        assert(backslashes(s, a + 1, b) == 0);
    }
}

/// A string literal is closed by the first quote before which the
/// backslashes are even in number, and by no other; where there is no such
/// quote, it is not closed.
pub proof fn lemma_string_close_is_first_closing_quote(s: Seq<char>, i: int, escaped: bool)
    requires
        0 <= i <= s.len(),
    ensures
        match string_close(s, i, escaped) {
            Some(end) => {
                &&& closes_string(s, i, escaped, end - 1)
                &&& forall|q: int| i <= q < end - 1 ==> !#[trigger] closes_string(s, i, escaped, q)
            },
            None => forall|q: int| i <= q < s.len() ==> !#[trigger] closes_string(s, i, escaped, q),
        },
    decreases s.len() - i,
{
    if i < s.len() {
        let next = if s[i] == '\\' { !escaped } else { escaped };
        assert(backslashes(s, i, i) == 0);
        if s[i] == '"' && !escaped {
            assert(closes_string(s, i, escaped, i));
        } else {
            assert(string_close(s, i, escaped) == string_close(s, i + 1, next));
            lemma_string_close_is_first_closing_quote(s, i + 1, next);
            assert forall|q: int| i < q < s.len() implies #[trigger] closes_string(s, i, escaped, q)
                == closes_string(s, i + 1, next, q) by {
                lemma_backslashes_from_left(s, i, q);
            }
            assert(!closes_string(s, i, escaped, i));
        }
    }
}

/// Whether every scalar value of `text` is a digit.
pub open spec fn all_digits(text: Seq<char>) -> bool {
    forall|k: int| 0 <= k < text.len() ==> is_digit(#[trigger] text[k])
}

/// Whether `text` is a number literal: one or more digits, or one or more
/// digits, a `.`, and one or more digits.
pub open spec fn is_number_literal(text: Seq<char>) -> bool {
    ||| text.len() >= 1 && all_digits(text)
    ||| exists|dot: int|
        {
            &&& 0 < dot < text.len() - 1
            &&& text[dot] == '.'
            &&& #[trigger] all_digits(text.subrange(0, dot))
            &&& all_digits(text.subrange(dot + 1, text.len() as int))
        }
}

/// Whether `text` is a word: a letter or `_`, then letters, digits and `_`.
pub open spec fn is_word(text: Seq<char>) -> bool {
    &&& text.len() >= 1
    &&& is_word_start(text[0])
    &&& forall|k: int| 0 <= k < text.len() ==> is_word_char(#[trigger] text[k])
}

/// A lexeme that begins with a digit is a number whose payload is the source
/// text of the lexeme and a number literal, or it is the trailing-dot error,
/// which ends just past a `.` that no digit follows. Either way it is as
/// long as it can be: no digit follows it, and no `.` follows a number that
/// has none.
pub proof fn lemma_number_lexeme(s: Seq<char>, beg: int)
    requires
        0 <= beg < s.len(),
        is_digit(s[beg]),
    ensures
        match number_lexeme(s, beg).kind {
            TokenKind::Number(text) => {
                &&& text == s.subrange(beg, number_lexeme(s, beg).end)
                &&& is_number_literal(text)
                &&& all_digits(text) && number_lexeme(s, beg).end < s.len() ==> s[number_lexeme(
                    s,
                    beg,
                ).end] != '.'
            },
            TokenKind::Error(message) => {
                &&& message == trailing_dot_message()
                &&& s[number_lexeme(s, beg).end - 1] == '.'
                &&& all_digits(s.subrange(beg, number_lexeme(s, beg).end - 1))
            },
            _ => false,
        },
        number_lexeme(s, beg).end < s.len() ==> !is_digit(s[number_lexeme(s, beg).end]),
{
    let whole = digits_end(s, beg + 1);
    lemma_digits_end_bounds(s, beg + 1);
    lemma_digits_end_is_maximal(s, beg + 1);
    assert(all_digits(s.subrange(beg, whole)));
    if whole < s.len() && s[whole] == '.' {
        let end = digits_end(s, whole + 1);
        lemma_digits_end_bounds(s, whole + 1);
        lemma_digits_end_is_maximal(s, whole + 1);
        if end > whole + 1 {
            let text = s.subrange(beg, end);
            let dot = whole - beg;
            assert(text.subrange(0, dot) =~= s.subrange(beg, whole));
            assert(text.subrange(dot + 1, text.len() as int) =~= s.subrange(whole + 1, end));
            assert(all_digits(text.subrange(dot + 1, text.len() as int)));
            assert(text[dot] == '.');
            assert(!all_digits(text));
        }
    }
}

/// A lexeme that begins with a letter or `_` is a word from its first scalar
/// value to its last and as long as it can be; it is the keyword that the
/// word spells, or an identifier whose payload is the word.
pub proof fn lemma_word_lexeme(s: Seq<char>, beg: int)
    requires
        0 <= beg < s.len(),
        is_word_start(s[beg]),
    ensures
        is_word(s.subrange(beg, word_lexeme(s, beg).end)),
        word_lexeme(s, beg).end < s.len() ==> !is_word_char(s[word_lexeme(s, beg).end]),
        match keyword(s.subrange(beg, word_lexeme(s, beg).end)) {
            Some(kind) => word_lexeme(s, beg).kind == kind,
            None => word_lexeme(s, beg).kind == TokenKind::Identifier(
                s.subrange(beg, word_lexeme(s, beg).end),
            ),
        },
{
    lemma_word_end_bounds(s, beg + 1);
    lemma_word_end_is_maximal(s, beg + 1);
}

/// A string lexeme carries the source text of the literal, from its opening
/// quote to its closing quote; the error for a literal that is never closed
/// runs to the end of the text.
pub proof fn lemma_string_lexeme(s: Seq<char>, beg: int)
    requires
        0 <= beg < s.len(),
        s[beg] == '"',
    ensures
        match string_lexeme(s, beg).kind {
            TokenKind::String(text) => {
                &&& text == s.subrange(beg, string_lexeme(s, beg).end)
                &&& text.len() >= 2
                &&& text.first() == '"'
                &&& text.last() == '"'
                &&& closes_string(s, beg + 1, false, string_lexeme(s, beg).end - 1)
            },
            TokenKind::Error(_) => {
                &&& string_lexeme(s, beg).end == s.len()
                &&& forall|q: int|
                    beg < q < s.len() ==> !#[trigger] closes_string(s, beg + 1, false, q)
            },
            _ => false,
        },
{
    lemma_string_close_bounds(s, beg + 1, false);
    lemma_string_close_is_first_closing_quote(s, beg + 1, false);
}

/// Once the end-of-input lexeme has been reached, scanning again from where
/// it ends gives the same lexeme.
pub proof fn lemma_eof_repeats(s: Seq<char>, from: int)
    requires
        0 <= from <= s.len(),
        lexeme_at(s, from).kind is Eof,
    ensures
        lexeme_at(s, lexeme_at(s, from).end) == lexeme_at(s, from),
{
    lemma_lexeme_at_bounds(s, from);
    lemma_junk_end_bounds(s, from, false);
    assert(junk_end(s, s.len() as int, false) == s.len());
}

/// No lexeme begins with a blank, a line break or `#`.
pub proof fn lemma_lexeme_begins_with_text(s: Seq<char>, from: int)
    requires
        0 <= from <= s.len(),
    ensures
        !(lexeme_at(s, from).kind is Eof) ==> {
            let c = s[lexeme_at(s, from).beg];
            !is_blank(c) && c != '\n' && c != '#'
        },
{
    lemma_junk_end_bounds(s, from, false);
    lemma_junk_end_stops(s, from, false);
    let beg = junk_end(s, from, false);
    if beg < s.len() {
        assert(lexeme_at(s, from) == lexeme_from(s, beg));
        lemma_lexeme_from_bounds(s, beg);
    }
}

/// Whether the payload of `lexeme` is the source text that the lexeme
/// covers, and of the form that its kind calls for: an identifier is a word
/// that is no keyword, a string stands between two quotes, and a number is a
/// number literal. Kinds without source text as payload ask for nothing.
pub open spec fn payload_is_source_text(s: Seq<char>, lexeme: Lexeme) -> bool {
    let source = s.subrange(lexeme.beg, lexeme.end);
    match lexeme.kind {
        TokenKind::Identifier(text) => text == source && is_word(text) && keyword(text) is None,
        TokenKind::String(text) => text == source && text.len() >= 2 && text.first() == '"'
            && text.last() == '"',
        TokenKind::Number(text) => text == source && is_number_literal(text),
        _ => true,
    }
}

/// Identifiers, strings and numbers carry the source text of their lexeme.
pub proof fn lemma_payload_is_source_text(s: Seq<char>, from: int)
    requires
        0 <= from <= s.len(),
    ensures
        payload_is_source_text(s, lexeme_at(s, from)),
{
    lemma_junk_end_bounds(s, from, false);
    let beg = junk_end(s, from, false);
    if beg < s.len() {
        let c = s[beg];
        if c == '"' {
            lemma_string_lexeme(s, beg);
        } else if is_digit(c) {
            lemma_number_lexeme(s, beg);
        } else if is_word_start(c) {
            lemma_word_lexeme(s, beg);
        }
    }
}

/// Every lexeme of a text carries its source text.
pub proof fn lemma_payloads_are_source_text(s: Seq<char>, from: int)
    requires
        0 <= from <= s.len(),
    ensures
        forall|i: int|
            0 <= i < lexemes(s, from).len() ==> payload_is_source_text(
                s,
                #[trigger] lexemes(s, from)[i],
            ),
    decreases s.len() - from,
{
    lemma_lexeme_at_bounds(s, from);
    lemma_payload_is_source_text(s, from);
    let first = lexeme_at(s, from);
    if !(first.kind is Eof) {
        lemma_payloads_are_source_text(s, first.end);
        let rest = lexemes(s, first.end);
        let all = lexemes(s, from);
        assert(all =~= seq![first] + rest);
        assert forall|i: int| 0 <= i < all.len() implies payload_is_source_text(
            s,
            #[trigger] all[i],
        ) by {
            if i > 0 {
                assert(all[i] == rest[i - 1]);
            }
        }
    }
}

} // verus!
