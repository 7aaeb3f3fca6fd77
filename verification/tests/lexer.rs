use lox_lexer::lexer::{tokens, Lexer, Token, TokenType};
use lox_lexer::location::{Location, Position};

fn kinds(input: &str) -> Vec<TokenType> {
    tokens(input).into_iter().map(|t| t.1).collect()
}

fn number_value(token: &Token) -> f64 {
    match &token.1 {
        TokenType::Number(text) => text.parse::<f64>().unwrap(),
        other => panic!("not a number: {:?}", other),
    }
}

fn error_message(token: &Token) -> String {
    match &token.1 {
        TokenType::Error(msg) => msg.clone(),
        other => panic!("not an error: {:?}", other),
    }
}

#[test]
fn lexer_it_works() {
    assert_eq!(
        tokens("/"),
        vec![
            Token(Location::new(Position::new(0, 0, 0), Position::new(0, 1, 1)), TokenType::Slash),
            Token(Location::new(Position::new(0, 1, 1), Position::new(0, 1, 1)), TokenType::Eof)
        ]
    );
}

#[test]
fn test_string() {
    assert_eq!(
        tokens("\"I am a string\""),
        vec![
            Token(Location::new2((0, 0, 0), (0, 15, 15)), TokenType::String(String::from("\"I am a string\""))),
            Token(Location::new2((0, 15, 15), (0, 15, 15)), TokenType::Eof)
        ]
    );
}

#[test]
fn test_number() {
    let first = tokens("123.45");
    assert_eq!(
        first,
        vec![
            Token(Location::new2((0, 0, 0), (0, 6, 6)), TokenType::Number(String::from("123.45"))),
            Token(Location::new2((0, 6, 6), (0, 6, 6)), TokenType::Eof)
        ]
    );
    assert_eq!(number_value(&first[0]), 123.45);
    let second = tokens("123");
    assert_eq!(
        second,
        vec![
            Token(Location::new2((0, 0, 0), (0, 3, 3)), TokenType::Number(String::from("123"))),
            Token(Location::new2((0, 3, 3), (0, 3, 3)), TokenType::Eof)
        ]
    );
    assert_eq!(number_value(&second[0]), 123.0);
}

#[test]
fn empty_input_is_a_single_eof() {
    assert_eq!(tokens(""), vec![Token(Location::zero(0, 0, 0), TokenType::Eof)]);
}

#[test]
fn blanks_only_give_eof_at_the_end() {
    assert_eq!(tokens(" \t\r\n  "), vec![Token(Location::zero(1, 2, 6), TokenType::Eof)]);
}

#[test]
fn stream_ends_with_one_eof_at_the_final_cursor() {
    for input in ["", "a", "a b\nc", "\"open", "1.", "# only a comment", "x # tail\n", "@@"] {
        let toks = tokens(input);
        let last = toks.last().unwrap();
        assert_eq!(last.1, TokenType::Eof);
        assert_eq!(last.0.beg, last.0.end);
        assert_eq!(last.0.end.pos, input.chars().count());
        let eofs = toks.iter().filter(|t| t.1 == TokenType::Eof).count();
        assert_eq!(eofs, 1);
    }
}

#[test]
fn spans_are_ordered_and_do_not_overlap() {
    let input = "var x = 12.5; # note\nprint(\"a\\\\b\" != y);\n\t1. @ while_1";
    let toks = tokens(input);
    assert!(toks.len() > 10);
    for t in &toks {
        assert!(t.0.beg.pos <= t.0.end.pos);
        assert!(t.0.end.pos <= input.chars().count());
    }
    for pair in toks.windows(2) {
        assert!(pair[0].0.end.pos <= pair[1].0.beg.pos);
    }
}

#[test]
fn trailing_dot_is_an_error() {
    let toks = tokens("123.");
    assert_eq!(
        toks,
        vec![
            Token(
                Location::new2((0, 0, 0), (0, 4, 4)),
                TokenType::Error(String::from("trailing '.' in number literal"))
            ),
            Token(Location::zero(0, 4, 4), TokenType::Eof),
        ]
    );
}

#[test]
fn scanning_resumes_after_a_trailing_dot() {
    assert_eq!(
        tokens("12.x"),
        vec![
            Token(
                Location::new2((0, 0, 0), (0, 3, 3)),
                TokenType::Error(String::from("trailing '.' in number literal"))
            ),
            Token(Location::new2((0, 3, 3), (0, 4, 4)), TokenType::Identifier(String::from("x"))),
            Token(Location::zero(0, 4, 4), TokenType::Eof),
        ]
    );
}

#[test]
fn only_one_dot_belongs_to_a_number() {
    assert_eq!(
        kinds("1.2.3"),
        vec![
            TokenType::Number(String::from("1.2")),
            TokenType::Dot,
            TokenType::Number(String::from("3")),
            TokenType::Eof,
        ]
    );
    assert_eq!(
        kinds(".5"),
        vec![TokenType::Dot, TokenType::Number(String::from("5")), TokenType::Eof]
    );
}

#[test]
fn number_stops_at_a_letter() {
    assert_eq!(
        kinds("12ab"),
        vec![
            TokenType::Number(String::from("12")),
            TokenType::Identifier(String::from("ab")),
            TokenType::Eof,
        ]
    );
}

#[test]
fn string_payload_keeps_its_quotes() {
    assert_eq!(
        tokens("\"abc\""),
        vec![
            Token(Location::new2((0, 0, 0), (0, 5, 5)), TokenType::String(String::from("\"abc\""))),
            Token(Location::zero(0, 5, 5), TokenType::Eof),
        ]
    );
}

#[test]
fn unterminated_string_is_an_error() {
    let toks = tokens("\"abc");
    assert_eq!(
        toks,
        vec![
            Token(
                Location::new2((0, 0, 0), (0, 4, 4)),
                TokenType::Error(String::from(
                    "unterminated string literal starting at position 0"
                ))
            ),
            Token(Location::zero(0, 4, 4), TokenType::Eof),
        ]
    );
}

#[test]
fn unterminated_string_names_where_it_began() {
    let toks = tokens("x = 1;\n   ok  \"never closed\nmore");
    let err = &toks[toks.len() - 2];
    assert_eq!(error_message(err), "unterminated string literal starting at position 14");
    assert_eq!(err.0.beg, Position::new(1, 7, 14));
    assert_eq!(err.0.end, Position::new(2, 4, 32));
    let long = format!("{}\"", " ".repeat(1234));
    assert_eq!(
        error_message(&tokens(&long)[0]),
        "unterminated string literal starting at position 1234"
    );
}

#[test]
fn string_may_span_lines() {
    assert_eq!(
        tokens("\"a\nb\" c"),
        vec![
            Token(Location::new2((0, 0, 0), (1, 2, 5)), TokenType::String(String::from("\"a\nb\""))),
            Token(Location::new2((1, 3, 6), (1, 4, 7)), TokenType::Identifier(String::from("c"))),
            Token(Location::zero(1, 4, 7), TokenType::Eof),
        ]
    );
}

#[test]
fn backslash_parity_decides_whether_a_quote_closes() {
    // One backslash so far: the quote after it does not close the literal,
    // and neither does any later quote until another backslash is seen.
    assert_eq!(
        kinds("\"a\\\"b\""),
        vec![
            TokenType::Error(String::from("unterminated string literal starting at position 0")),
            TokenType::Eof,
        ]
    );
    // Two backslashes so far: the next quote closes it.
    assert_eq!(
        kinds("\"a\\\\\" x"),
        vec![
            TokenType::String(String::from("\"a\\\\\"")),
            TokenType::Identifier(String::from("x")),
            TokenType::Eof,
        ]
    );
    // The two backslashes need not be adjacent.
    assert_eq!(
        kinds("\"a\\\"b\\\" x"),
        vec![
            TokenType::String(String::from("\"a\\\"b\\\"")),
            TokenType::Identifier(String::from("x")),
            TokenType::Eof,
        ]
    );
}

#[test]
fn keyword_or_identifier() {
    assert_eq!(
        tokens("for"),
        vec![
            Token(Location::new2((0, 0, 0), (0, 3, 3)), TokenType::For),
            Token(Location::zero(0, 3, 3), TokenType::Eof),
        ]
    );
    assert_eq!(
        tokens("forx"),
        vec![
            Token(Location::new2((0, 0, 0), (0, 4, 4)), TokenType::Identifier(String::from("forx"))),
            Token(Location::zero(0, 4, 4), TokenType::Eof),
        ]
    );
}

#[test]
fn every_keyword_has_its_token() {
    assert_eq!(
        kinds(
            "and class else false fun for if nil or print return super this true var while"
        ),
        vec![
            TokenType::And,
            TokenType::Class,
            TokenType::Else,
            TokenType::False,
            TokenType::Fun,
            TokenType::For,
            TokenType::If,
            TokenType::Nil,
            TokenType::Or,
            TokenType::Print,
            TokenType::Return,
            TokenType::Super,
            TokenType::This,
            TokenType::True,
            TokenType::Var,
            TokenType::While,
            TokenType::Eof,
        ]
    );
}

#[test]
fn keywords_are_case_sensitive_and_exact() {
    assert_eq!(
        kinds("For AND nil_ _if whil"),
        vec![
            TokenType::Identifier(String::from("For")),
            TokenType::Identifier(String::from("AND")),
            TokenType::Identifier(String::from("nil_")),
            TokenType::Identifier(String::from("_if")),
            TokenType::Identifier(String::from("whil")),
            TokenType::Eof,
        ]
    );
}

#[test]
fn identifiers_take_letters_digits_and_underscores() {
    assert_eq!(
        kinds("_a1_B2 x9-y"),
        vec![
            TokenType::Identifier(String::from("_a1_B2")),
            TokenType::Identifier(String::from("x9")),
            TokenType::Minus,
            TokenType::Identifier(String::from("y")),
            TokenType::Eof,
        ]
    );
}

#[test]
fn operators_with_and_without_equal() {
    assert_eq!(kinds("!"), vec![TokenType::Bang, TokenType::Eof]);
    assert_eq!(kinds("!="), vec![TokenType::BangEqual, TokenType::Eof]);
    assert_eq!(kinds("="), vec![TokenType::Equal, TokenType::Eof]);
    assert_eq!(kinds("=="), vec![TokenType::EqualEqual, TokenType::Eof]);
    assert_eq!(kinds("<"), vec![TokenType::Less, TokenType::Eof]);
    assert_eq!(kinds("<="), vec![TokenType::LessEqual, TokenType::Eof]);
    assert_eq!(kinds(">"), vec![TokenType::Greater, TokenType::Eof]);
    assert_eq!(kinds(">="), vec![TokenType::GreaterEqual, TokenType::Eof]);
}

#[test]
fn two_character_operator_consumes_exactly_two() {
    assert_eq!(
        tokens("!=x"),
        vec![
            Token(Location::new2((0, 0, 0), (0, 2, 2)), TokenType::BangEqual),
            Token(Location::new2((0, 2, 2), (0, 3, 3)), TokenType::Identifier(String::from("x"))),
            Token(Location::zero(0, 3, 3), TokenType::Eof),
        ]
    );
    assert_eq!(
        kinds("==="),
        vec![TokenType::EqualEqual, TokenType::Equal, TokenType::Eof]
    );
    assert_eq!(
        kinds("! ="),
        vec![TokenType::Bang, TokenType::Equal, TokenType::Eof]
    );
}

#[test]
fn single_character_tokens() {
    assert_eq!(
        kinds("(){},.-+;*/"),
        vec![
            TokenType::LParen,
            TokenType::RParen,
            TokenType::LBrace,
            TokenType::RBrace,
            TokenType::Comma,
            TokenType::Dot,
            TokenType::Minus,
            TokenType::Plus,
            TokenType::Semicolon,
            TokenType::Star,
            TokenType::Slash,
            TokenType::Eof,
        ]
    );
}

#[test]
fn slash_is_never_a_comment() {
    assert_eq!(
        kinds("// x"),
        vec![
            TokenType::Slash,
            TokenType::Slash,
            TokenType::Identifier(String::from("x")),
            TokenType::Eof,
        ]
    );
}

#[test]
fn comment_produces_no_tokens() {
    assert_eq!(kinds("# hello\n+"), kinds("+"));
    assert_eq!(
        tokens("# hello\n+"),
        vec![
            Token(Location::new2((1, 0, 8), (1, 1, 9)), TokenType::Plus),
            Token(Location::zero(1, 1, 9), TokenType::Eof),
        ]
    );
}

#[test]
fn comment_runs_to_the_end_of_its_line_only() {
    assert_eq!(
        kinds("a # b \"c 1. @\n d # e"),
        vec![
            TokenType::Identifier(String::from("a")),
            TokenType::Identifier(String::from("d")),
            TokenType::Eof,
        ]
    );
    assert_eq!(kinds("## # x"), vec![TokenType::Eof]);
}

#[test]
fn hash_inside_a_string_is_text() {
    assert_eq!(
        kinds("\"# no\" y"),
        vec![
            TokenType::String(String::from("\"# no\"")),
            TokenType::Identifier(String::from("y")),
            TokenType::Eof,
        ]
    );
}

#[test]
fn invalid_character_gives_one_error_and_scanning_goes_on() {
    assert_eq!(
        tokens("a @ b"),
        vec![
            Token(Location::new2((0, 0, 0), (0, 1, 1)), TokenType::Identifier(String::from("a"))),
            Token(
                Location::new2((0, 2, 2), (0, 3, 3)),
                TokenType::Error(String::from("Invalid character @"))
            ),
            Token(Location::new2((0, 4, 4), (0, 5, 5)), TokenType::Identifier(String::from("b"))),
            Token(Location::zero(0, 5, 5), TokenType::Eof),
        ]
    );
}

#[test]
fn offsets_count_scalar_values_not_bytes() {
    assert_eq!(
        tokens("\"h\u{e9}\u{1F600}\" \u{e9} x"),
        vec![
            Token(
                Location::new2((0, 0, 0), (0, 5, 5)),
                TokenType::String(String::from("\"h\u{e9}\u{1F600}\""))
            ),
            Token(
                Location::new2((0, 6, 6), (0, 7, 7)),
                TokenType::Error(String::from("Invalid character \u{e9}"))
            ),
            Token(Location::new2((0, 8, 8), (0, 9, 9)), TokenType::Identifier(String::from("x"))),
            Token(Location::zero(0, 9, 9), TokenType::Eof),
        ]
    );
}

#[test]
fn non_ascii_letters_and_digits_begin_no_token() {
    assert_eq!(
        kinds("\u{3b1}\u{664}"),
        vec![
            TokenType::Error(String::from("Invalid character \u{3b1}")),
            TokenType::Error(String::from("Invalid character \u{664}")),
            TokenType::Eof,
        ]
    );
}

#[test]
fn rows_and_columns_follow_line_breaks() {
    assert_eq!(
        tokens("a\n  bb\n\nc"),
        vec![
            Token(Location::new2((0, 0, 0), (0, 1, 1)), TokenType::Identifier(String::from("a"))),
            Token(Location::new2((1, 2, 4), (1, 4, 6)), TokenType::Identifier(String::from("bb"))),
            Token(Location::new2((3, 0, 8), (3, 1, 9)), TokenType::Identifier(String::from("c"))),
            Token(Location::zero(3, 1, 9), TokenType::Eof),
        ]
    );
}

#[test]
fn scan_token_is_stable_at_the_end() {
    let mut lexer = Lexer::new("x ");
    assert_eq!(
        lexer.scan_token(),
        Token(Location::new2((0, 0, 0), (0, 1, 1)), TokenType::Identifier(String::from("x")))
    );
    let eof = Token(Location::zero(0, 2, 2), TokenType::Eof);
    assert_eq!(lexer.scan_token(), eof);
    assert_eq!(lexer.scan_token(), eof);
    assert_eq!(lexer.position(), Position::new(0, 2, 2));
}

#[test]
fn scan_token_pulls_one_token_per_call() {
    let mut lexer = Lexer::new("a = \"b\" # c\n 4.5");
    let mut pulled = Vec::new();
    loop {
        let token = lexer.scan_token();
        let done = token.1 == TokenType::Eof;
        pulled.push(token);
        if done {
            break;
        }
    }
    assert_eq!(pulled, tokens("a = \"b\" # c\n 4.5"));
    assert_eq!(pulled.len(), 5);
}

#[test]
fn cursor_peeks_without_consuming() {
    let mut lexer = Lexer::new("a\nb");
    assert_eq!(lexer.position(), Position::new(0, 0, 0));
    assert_eq!(lexer.peek(), Some('a'));
    assert_eq!(lexer.peek(), Some('a'));
    assert!(lexer.is_next('a'));
    assert!(!lexer.is_next('b'));
    assert_eq!(lexer.next(), Some('a'));
    assert_eq!(lexer.position(), Position::new(0, 1, 1));
    assert_eq!(lexer.next(), Some('\n'));
    assert_eq!(lexer.position(), Position::new(1, 0, 2));
    assert_eq!(lexer.next(), Some('b'));
    assert_eq!(lexer.position(), Position::new(1, 1, 3));
    assert_eq!(lexer.peek(), None);
    assert!(!lexer.is_next('b'));
    assert_eq!(lexer.next(), None);
    assert_eq!(lexer.position(), Position::new(1, 1, 3));
}

#[test]
fn cursor_classifies_the_next_character() {
    let mut lexer = Lexer::new("7_z-");
    assert!(lexer.is_ascii_digit());
    assert!(lexer.is_identifier_character());
    lexer.next();
    assert!(!lexer.is_ascii_digit());
    assert!(lexer.is_identifier_character());
    lexer.next();
    assert!(lexer.is_identifier_character());
    lexer.next();
    assert!(!lexer.is_ascii_digit());
    assert!(!lexer.is_identifier_character());
    lexer.next();
    assert!(!lexer.is_ascii_digit());
    assert!(!lexer.is_identifier_character());
}

#[test]
fn eat_junk_stops_before_the_next_token() {
    let mut lexer = Lexer::new("  # c\n\t x");
    lexer.eat_junk();
    assert_eq!(lexer.position(), Position::new(1, 2, 8));
    assert_eq!(lexer.peek(), Some('x'));
    lexer.eat_junk();
    assert_eq!(lexer.position(), Position::new(1, 2, 8));
}

#[test]
fn next_up_to_consumes_through_the_first_match() {
    let mut lexer = Lexer::new("ab;c\nd;");
    assert!(lexer.next_up_to(';'));
    assert_eq!(lexer.position(), Position::new(0, 3, 3));
    assert!(lexer.next_up_to(';'));
    assert_eq!(lexer.position(), Position::new(1, 2, 7));
    assert!(!lexer.next_up_to(';'));
    assert_eq!(lexer.position(), Position::new(1, 2, 7));
    let mut other = Lexer::new("x\ny");
    assert!(!other.next_up_to('z'));
    assert_eq!(other.position(), Position::new(1, 1, 3));
}

#[test]
fn extract_gives_the_text_since_a_position() {
    let mut lexer = Lexer::new("h\u{e9}llo w");
    let beg = lexer.position();
    lexer.next();
    lexer.next();
    lexer.next();
    assert_eq!(lexer.extract(&beg), "h\u{e9}l");
    let mid = lexer.position();
    assert_eq!(lexer.extract(&mid), "");
    lexer.next_up_to(' ');
    assert_eq!(lexer.extract(&mid), "lo ");
}

#[test]
fn get_token_type_looks_words_up() {
    let lexer = Lexer::new("");
    assert_eq!(lexer.get_token_type("while"), TokenType::While);
    assert_eq!(lexer.get_token_type("whale"), TokenType::Identifier(String::from("whale")));
    assert_eq!(lexer.get_token_type(""), TokenType::Identifier(String::new()));
}
