use script_core::lexer::{tokenize, Lexer};
use script_core::token::{LexErrorKind, Token, TokenKind};

fn lex_ok(source: &str) -> Vec<Token> {
    tokenize(source.to_string(), "<test>".to_string()).expect("tokenization should succeed")
}

fn kinds_and_texts(tokens: &[Token]) -> Vec<(TokenKind, String)> {
    tokens.iter().map(|t| (t.kind, t.text.clone())).collect()
}

#[test]
fn empty_input_is_only_eof() {
    let toks = lex_ok("");
    assert_eq!(toks.len(), 1);
    assert_eq!(toks[0].kind, TokenKind::EOF);
    assert_eq!(toks[0].text, "");
    assert_eq!(toks[0].location.line, 1);
    assert_eq!(toks[0].location.column, 1);
    assert!(!toks[0].newline_before);
}

#[test]
fn decimal_with_separators_strips_them() {
    let toks = lex_ok("1_000");
    assert_eq!(toks.len(), 2);
    assert_eq!(toks[0].kind, TokenKind::IntegerLiteralDec);
    assert_eq!(toks[0].text, "1000");
    assert_eq!(toks[1].kind, TokenKind::EOF);
}

#[test]
fn binary_literal_strips_prefix() {
    let toks = lex_ok("0b1010");
    assert_eq!(toks[0].kind, TokenKind::IntegerLiteralBin);
    assert_eq!(toks[0].text, "1010");
    assert_eq!(toks[1].kind, TokenKind::EOF);
}

#[test]
fn octal_literal_strips_prefix() {
    let toks = lex_ok("0o17");
    assert_eq!(toks[0].kind, TokenKind::IntegerLiteralOct);
    assert_eq!(toks[0].text, "17");
}

#[test]
fn hex_literal_strips_prefix_and_keeps_case() {
    let toks = lex_ok("0xFF");
    assert_eq!(toks[0].kind, TokenKind::IntegerLiteralHex);
    assert_eq!(toks[0].text, "FF");
}

#[test]
fn hex_literal_with_separator() {
    let toks = lex_ok("0x_F_f");
    assert_eq!(toks[0].kind, TokenKind::IntegerLiteralHex);
    assert_eq!(toks[0].text, "Ff");
}

#[test]
fn float_literal() {
    let toks = lex_ok("3.14");
    assert_eq!(toks.len(), 2);
    assert_eq!(toks[0].kind, TokenKind::FloatLiteral);
    assert_eq!(toks[0].text, "3.14");
}

#[test]
fn trailing_dot_still_floats() {
    let toks = lex_ok("1.");
    assert_eq!(toks[0].kind, TokenKind::FloatLiteral);
    assert_eq!(toks[0].text, "1.");
}

#[test]
fn double_dot_is_a_range_not_a_float() {
    let toks = lex_ok("1..5");
    assert_eq!(
        kinds_and_texts(&toks),
        vec![
            (TokenKind::IntegerLiteralDec, "1".to_string()),
            (TokenKind::DotDot, "..".to_string()),
            (TokenKind::IntegerLiteralDec, "5".to_string()),
            (TokenKind::EOF, "".to_string()),
        ]
    );
}

#[test]
fn comment_is_skipped_and_sets_newline_flag() {
    let toks = lex_ok("// comment\n123");
    assert_eq!(toks.len(), 2);
    assert_eq!(toks[0].kind, TokenKind::IntegerLiteralDec);
    assert_eq!(toks[0].text, "123");
    assert!(toks[0].newline_before);
}

#[test]
fn comment_to_end_of_input_sets_no_flag() {
    let toks = lex_ok("1 // trailing");
    assert_eq!(toks.len(), 2);
    assert_eq!(toks[0].kind, TokenKind::IntegerLiteralDec);
    assert_eq!(toks[1].kind, TokenKind::EOF);
    assert!(!toks[1].newline_before);
}

#[test]
fn fat_arrow_never_splits() {
    let toks = lex_ok("a=>b");
    assert_eq!(
        kinds_and_texts(&toks),
        vec![
            (TokenKind::Identifier, "a".to_string()),
            (TokenKind::FatArrow, "=>".to_string()),
            (TokenKind::Identifier, "b".to_string()),
            (TokenKind::EOF, "".to_string()),
        ]
    );
}

#[test]
fn two_char_operators_beat_one_char() {
    let toks = lex_ok("== <= >= != .. =");
    assert_eq!(
        kinds_and_texts(&toks),
        vec![
            (TokenKind::EqualsEquals, "==".to_string()),
            (TokenKind::LessThanEquals, "<=".to_string()),
            (TokenKind::GreaterThanEquals, ">=".to_string()),
            (TokenKind::BangEquals, "!=".to_string()),
            (TokenKind::DotDot, "..".to_string()),
            (TokenKind::Equals, "=".to_string()),
            (TokenKind::EOF, "".to_string()),
        ]
    );
}

#[test]
fn all_single_punctuation() {
    let toks = lex_ok("+-*/()[]|:;,{}@.<>!");
    let kinds: Vec<TokenKind> = toks.iter().map(|t| t.kind).collect();
    assert_eq!(
        kinds,
        vec![
            TokenKind::Plus,
            TokenKind::Minus,
            TokenKind::Star,
            TokenKind::Slash,
            TokenKind::LeftParen,
            TokenKind::RightParen,
            TokenKind::LeftBracket,
            TokenKind::RightBracket,
            TokenKind::Pipe,
            TokenKind::Colon,
            TokenKind::SemiColon,
            TokenKind::Comma,
            TokenKind::LeftBrace,
            TokenKind::RightBrace,
            TokenKind::At,
            TokenKind::Dot,
            TokenKind::LessThan,
            TokenKind::GreaterThan,
            TokenKind::Bang,
            TokenKind::EOF,
        ]
    );
}

#[test]
fn string_literal_body_is_verbatim() {
    let toks = lex_ok("\"hello world\"");
    assert_eq!(toks[0].kind, TokenKind::StringLiteral);
    assert_eq!(toks[0].text, "hello world");
    assert_eq!(toks[0].location.column, 1);
}

#[test]
fn unterminated_string_at_end_of_input_fails() {
    let err = tokenize("\"abc".to_string(), "<test>".to_string()).unwrap_err();
    assert_eq!(err.kind, LexErrorKind::UnterminatedString);
}

#[test]
fn string_with_embedded_newline_fails() {
    let err = tokenize("\"abc\ndef\"".to_string(), "<test>".to_string()).unwrap_err();
    assert_eq!(err.kind, LexErrorKind::UnterminatedString);
    assert_eq!(err.location.line, 1);
    assert_eq!(err.location.column, 1);
}

#[test]
fn invalid_digit_for_base_fails_at_the_digit() {
    let err = tokenize("0b102".to_string(), "<test>".to_string()).unwrap_err();
    assert_eq!(err.kind, LexErrorKind::InvalidDigit);
    assert_eq!(err.location.line, 1);
    assert_eq!(err.location.column, 5);
}

#[test]
fn hex_letter_after_decimal_literal_fails() {
    let err = tokenize("12e3".to_string(), "<test>".to_string()).unwrap_err();
    assert_eq!(err.kind, LexErrorKind::InvalidDigit);
}

#[test]
fn unexpected_character_fails() {
    let err = tokenize("1 # 2".to_string(), "<test>".to_string()).unwrap_err();
    assert_eq!(err.kind, LexErrorKind::UnexpectedCharacter('#'));
    assert_eq!(err.location.column, 3);
}

#[test]
fn locations_track_lines_and_columns() {
    let toks = lex_ok("a\n  bb");
    assert_eq!(toks[0].location.line, 1);
    assert_eq!(toks[0].location.column, 1);
    assert_eq!(toks[1].location.line, 2);
    assert_eq!(toks[1].location.column, 3);
    assert!(toks[1].newline_before);
    assert_eq!(toks[2].kind, TokenKind::EOF);
    assert_eq!(toks[2].location.line, 2);
    assert_eq!(toks[2].location.column, 5);
}

#[test]
fn source_name_is_echoed_into_locations() {
    let toks = tokenize("x".to_string(), "main.script".to_string()).unwrap();
    assert_eq!(toks[0].location.filename, "main.script");
    assert_eq!(toks[1].location.filename, "main.script");
}

#[test]
fn lexer_new_and_lex_work_directly() {
    let mut lexer = Lexer::new("x = 1".to_string(), "<repl>".to_string());
    let toks = lexer.lex().unwrap();
    assert_eq!(
        kinds_and_texts(&toks),
        vec![
            (TokenKind::Identifier, "x".to_string()),
            (TokenKind::Equals, "=".to_string()),
            (TokenKind::IntegerLiteralDec, "1".to_string()),
            (TokenKind::EOF, "".to_string()),
        ]
    );
}

#[test]
fn identifiers_take_letters_digits_underscores() {
    let toks = lex_ok("_x9 y");
    assert_eq!(toks[0].kind, TokenKind::Identifier);
    assert_eq!(toks[0].text, "_x9");
    assert_eq!(toks[1].text, "y");
}

#[test]
fn eof_after_newline_carries_the_flag() {
    let toks = lex_ok("1\n");
    assert_eq!(toks.len(), 2);
    assert!(!toks[0].newline_before);
    assert!(toks[1].newline_before);
}

#[test]
fn round_trip_reconstructs_token_equivalent_program() {
    let source = "x = 10 + 2.5 // note\ny => ( a , b_2 ) .. ! <= ;";
    let first = lex_ok(source);
    let mut rebuilt = String::new();
    for t in &first {
        rebuilt.push_str(&t.text);
        rebuilt.push(' ');
    }
    let second = lex_ok(&rebuilt);
    assert_eq!(kinds_and_texts(&first), kinds_and_texts(&second));
}

#[test]
fn lex_error_message_describes_the_fault() {
    let err = tokenize("\"oops".to_string(), "<test>".to_string()).unwrap_err();
    assert_eq!(
        err.message(),
        "Unexpected newline or end of input in string literal"
    );
}

#[test]
fn based_literal_location_is_its_start() {
    let toks = lex_ok("  0x1f");
    assert_eq!(toks[0].kind, TokenKind::IntegerLiteralHex);
    assert_eq!(toks[0].text, "1f");
    assert_eq!(toks[0].location.line, 1);
    assert_eq!(toks[0].location.column, 3);
}

#[test]
fn newline_inside_comment_sets_the_flag() {
    let toks = lex_ok("1//c\n2");
    assert!(!toks[0].newline_before);
    assert_eq!(toks[1].text, "2");
    assert!(toks[1].newline_before);
}

#[test]
fn unicode_whitespace_is_skipped() {
    let toks = lex_ok("1\u{a0}\u{2003}2");
    assert_eq!(
        kinds_and_texts(&toks),
        vec![
            (TokenKind::IntegerLiteralDec, "1".to_string()),
            (TokenKind::IntegerLiteralDec, "2".to_string()),
            (TokenKind::EOF, "".to_string()),
        ]
    );
}
