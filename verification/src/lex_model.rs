//! The mathematical description of the token stream.
//!
//! `lex_from` maps a character sequence, a start position and the pending
//! newline flag to the exact sequence of tokens (or the first lexical error)
//! that the tokenizer owes; `crate::lexer::Lexer::lex` is verified against it.

use vstd::prelude::*;
use crate::token::{TokenKind, LexErrorKind};

verus! {

/// The radix of an integer literal.
#[derive(Debug, Clone, Copy, PartialEq, Eq, Structural)]
pub enum Base {
    Bin,
    Oct,
    Dec,
    Hex,
}

/// The token kind an integer literal of this base is classified as.
pub open spec fn base_kind(base: Base) -> TokenKind {
    match base {
        Base::Bin => TokenKind::IntegerLiteralBin,
        Base::Oct => TokenKind::IntegerLiteralOct,
        Base::Dec => TokenKind::IntegerLiteralDec,
        Base::Hex => TokenKind::IntegerLiteralHex,
    }
}

/// The whitespace the tokenizer skips: the characters with Unicode's
/// White_Space property, as `char::is_whitespace` classifies them.
pub open spec fn is_space(c: char) -> bool {
    ||| c == ' '
    ||| c == '\t'
    ||| c == '\n'
    ||| c == '\u{b}'
    ||| c == '\u{c}'
    ||| c == '\r'
    ||| c == '\u{85}'
    ||| c == '\u{a0}'
    ||| c == '\u{1680}'
    ||| ('\u{2000}' <= c && c <= '\u{200a}')
    ||| c == '\u{2028}'
    ||| c == '\u{2029}'
    ||| c == '\u{202f}'
    ||| c == '\u{205f}'
    ||| c == '\u{3000}'
}

pub open spec fn is_dec_digit(c: char) -> bool {
    '0' <= c && c <= '9'
}

pub open spec fn is_hex_letter(c: char) -> bool {
    ('a' <= c && c <= 'f') || ('A' <= c && c <= 'F')
}

/// A character that reads as a digit of some base once lowercased.
pub open spec fn is_digit_like(c: char) -> bool {
    is_dec_digit(c) || is_hex_letter(c)
}

pub open spec fn is_ident_start(c: char) -> bool {
    ('a' <= c && c <= 'z') || ('A' <= c && c <= 'Z') || c == '_'
}

pub open spec fn is_ident_char(c: char) -> bool {
    is_ident_start(c) || is_dec_digit(c)
}

/// Is `c` a valid digit of `base` (case-insensitively)?
pub open spec fn digit_ok(base: Base, c: char) -> bool {
    match base {
        Base::Bin => c == '0' || c == '1',
        Base::Oct => '0' <= c && c <= '7',
        Base::Dec => is_dec_digit(c),
        Base::Hex => is_digit_like(c),
    }
}

/// Does a digit scan in `base` consume `c` and go on?
pub open spec fn num_continues(base: Base, c: char) -> bool {
    digit_ok(base, c) || c == '_'
}

/// Where a digit scan in `base` starting at `i` stops.
pub open spec fn num_end(s: Seq<char>, i: nat, base: Base) -> nat
    decreases s.len() - i,
{
    if i < s.len() && num_continues(base, s[i as int]) {
        num_end(s, (i + 1) as nat, base)
    } else {
        i
    }
}

/// The text a digit scan collects: the consumed digits, exactly as matched,
/// with the `_` separators dropped.
pub open spec fn num_text(s: Seq<char>, i: nat, base: Base) -> Seq<char>
    decreases s.len() - i,
{
    if i < s.len() && num_continues(base, s[i as int]) {
        if s[i as int] == '_' {
            num_text(s, (i + 1) as nat, base)
        } else {
            seq![s[i as int]] + num_text(s, (i + 1) as nat, base)
        }
    } else {
        Seq::<char>::empty()
    }
}

/// Does a digit scan in `base` starting at `i` stop on a digit-like character
/// the base refuses?  The offending position is then `num_end(s, i, base)`.
pub open spec fn num_err(s: Seq<char>, i: nat, base: Base) -> bool {
    let j = num_end(s, i, base);
    j < s.len() && is_digit_like(s[j as int])
}

/// The first position at or after `i` holding a newline, or the input's end.
pub open spec fn line_end(s: Seq<char>, i: nat) -> nat
    decreases s.len() - i,
{
    if i < s.len() && s[i as int] != '\n' {
        line_end(s, (i + 1) as nat)
    } else {
        i
    }
}

/// The first position at or after `i` that closes or breaks a string body:
/// a quote, a raw newline, or the input's end.
pub open spec fn string_body_end(s: Seq<char>, i: nat) -> nat
    decreases s.len() - i,
{
    if i < s.len() && s[i as int] != '"' && s[i as int] != '\n' {
        string_body_end(s, (i + 1) as nat)
    } else {
        i
    }
}

/// The first position at or after `i` that ends an identifier run.
pub open spec fn ident_end(s: Seq<char>, i: nat) -> nat
    decreases s.len() - i,
{
    if i < s.len() && is_ident_char(s[i as int]) {
        ident_end(s, (i + 1) as nat)
    } else {
        i
    }
}

/// The 1-based line of position `p`: one more than the newlines before it.
pub open spec fn line_of(s: Seq<char>, p: nat) -> nat
    decreases p,
{
    if p == 0 {
        1
    } else if s[p - 1] == '\n' {
        line_of(s, (p - 1) as nat) + 1
    } else {
        line_of(s, (p - 1) as nat)
    }
}

/// The 1-based column of position `p`: its distance to the last newline.
pub open spec fn col_of(s: Seq<char>, p: nat) -> nat
    decreases p,
{
    if p == 0 {
        1
    } else if s[p - 1] == '\n' {
        1
    } else {
        col_of(s, (p - 1) as nat) + 1
    }
}

/// The abstract content of one token: its class, its text, the line/column
/// its location carries, and the pending-newline flag it was emitted with.
pub struct TokenModel {
    pub kind: TokenKind,
    pub text: Seq<char>,
    pub line: nat,
    pub column: nat,
    pub newline_before: bool,
}

/// The abstract content of a lexical error: its class and position.
pub struct LexErrorModel {
    pub kind: LexErrorKind,
    pub line: nat,
    pub column: nat,
}

/// What scanning a single token at a position yields: the token's class,
/// text, the position whose line/column it carries, and the position right
/// after it — or the first error, with the position the error names.
pub enum ScanStep {
    Token { kind: TokenKind, text: Seq<char>, loc: nat, end: nat },
    Error { kind: LexErrorKind, at: nat },
}

/// The base selected by the character after a leading `0`.
pub open spec fn base_of(c: char) -> Base {
    if c == 'b' {
        Base::Bin
    } else if c == 'o' {
        Base::Oct
    } else {
        Base::Hex
    }
}

/// A based integer literal (`0b…`, `0o…`, `0x…`): the prefix is consumed and
/// a digit scan runs from `i + 2`.  The token carries the location of its
/// first character, like every other token.
pub open spec fn scan_based(s: Seq<char>, i: nat, base: Base) -> ScanStep {
    let d = (i + 2) as nat;
    if num_err(s, d, base) {
        ScanStep::Error { kind: LexErrorKind::InvalidDigit, at: num_end(s, d, base) }
    } else {
        ScanStep::Token {
            kind: base_kind(base),
            text: num_text(s, d, base),
            loc: i,
            end: num_end(s, d, base),
        }
    }
}

/// A decimal integer or float literal starting at `i`.  A single `.` that is
/// not itself followed by a second `.` turns the literal into a float and a
/// second digit scan consumes the fraction; a `..` is left alone for the
/// range operator.
pub open spec fn scan_decimal(s: Seq<char>, i: nat) -> ScanStep {
    let ie = num_end(s, i, Base::Dec);
    if num_err(s, i, Base::Dec) {
        ScanStep::Error { kind: LexErrorKind::InvalidDigit, at: ie }
    } else if ie < s.len() && s[ie as int] == '.' && !(ie + 1 < s.len() && s[(ie + 1) as int] == '.') {
        let f = (ie + 1) as nat;
        if num_err(s, f, Base::Dec) {
            ScanStep::Error { kind: LexErrorKind::InvalidDigit, at: num_end(s, f, Base::Dec) }
        } else {
            ScanStep::Token {
                kind: TokenKind::FloatLiteral,
                text: num_text(s, i, Base::Dec) + seq!['.'] + num_text(s, f, Base::Dec),
                loc: i,
                end: num_end(s, f, Base::Dec),
            }
        }
    } else {
        ScanStep::Token { kind: TokenKind::IntegerLiteralDec, text: num_text(s, i, Base::Dec), loc: i, end: ie }
    }
}

/// A string literal starting at the quote at `i`: the body runs verbatim to
/// the closing quote.  A raw newline or the end of the input first means the
/// literal never closes, which is an error at the opening quote.
pub open spec fn scan_string(s: Seq<char>, i: nat) -> ScanStep {
    let q = string_body_end(s, (i + 1) as nat);
    if q < s.len() && s[q as int] == '"' {
        ScanStep::Token {
            kind: TokenKind::StringLiteral,
            text: s.subrange(i as int + 1, q as int),
            loc: i,
            end: (q + 1) as nat,
        }
    } else {
        ScanStep::Error { kind: LexErrorKind::UnterminatedString, at: i }
    }
}

/// The two-character operator spelled `a` then `b`, if there is one.  These
/// are matched before any one-character operator: longest match first.
pub open spec fn op2_kind(a: char, b: char) -> Option<TokenKind> {
    if a == '=' && b == '>' {
        Some(TokenKind::FatArrow)
    } else if a == '=' && b == '=' {
        Some(TokenKind::EqualsEquals)
    } else if a == '<' && b == '=' {
        Some(TokenKind::LessThanEquals)
    } else if a == '>' && b == '=' {
        Some(TokenKind::GreaterThanEquals)
    } else if a == '!' && b == '=' {
        Some(TokenKind::BangEquals)
    } else if a == '.' && b == '.' {
        Some(TokenKind::DotDot)
    } else {
        None
    }
}

/// The one-character operator or punctuation mark `a`, if there is one.
pub open spec fn op1_kind(a: char) -> Option<TokenKind> {
    if a == '+' {
        Some(TokenKind::Plus)
    } else if a == '-' {
        Some(TokenKind::Minus)
    } else if a == '*' {
        Some(TokenKind::Star)
    } else if a == '/' {
        Some(TokenKind::Slash)
    } else if a == '(' {
        Some(TokenKind::LeftParen)
    } else if a == ')' {
        Some(TokenKind::RightParen)
    } else if a == '[' {
        Some(TokenKind::LeftBracket)
    } else if a == ']' {
        Some(TokenKind::RightBracket)
    } else if a == '|' {
        Some(TokenKind::Pipe)
    } else if a == ':' {
        Some(TokenKind::Colon)
    } else if a == '=' {
        Some(TokenKind::Equals)
    } else if a == '<' {
        Some(TokenKind::LessThan)
    } else if a == '>' {
        Some(TokenKind::GreaterThan)
    } else if a == '!' {
        Some(TokenKind::Bang)
    } else if a == ';' {
        Some(TokenKind::SemiColon)
    } else if a == ',' {
        Some(TokenKind::Comma)
    } else if a == '{' {
        Some(TokenKind::LeftBrace)
    } else if a == '}' {
        Some(TokenKind::RightBrace)
    } else if a == '@' {
        Some(TokenKind::At)
    } else if a == '.' {
        Some(TokenKind::Dot)
    } else {
        None
    }
}

/// A punctuation or operator token of `len` characters starting at `i`.
pub open spec fn op_token(s: Seq<char>, i: nat, kind: TokenKind, len: nat) -> ScanStep {
    ScanStep::Token { kind, text: s.subrange(i as int, (i + len) as int), loc: i, end: (i + len) as nat }
}

/// One token scanned at `i`, which must hold neither whitespace nor the start
/// of a comment.  Two-character operators are matched before their
/// one-character prefixes — the longest-match-first rule.
#[verifier::opaque]
pub open spec fn scan_token(s: Seq<char>, i: nat) -> ScanStep
    recommends
        i < s.len(),
{
    let c = s[i as int];
    if c == '0' && i + 1 < s.len() && (s[(i + 1) as int] == 'b' || s[(i + 1) as int] == 'o' || s[(i + 1) as int] == 'x') {
        scan_based(s, i, base_of(s[(i + 1) as int]))
    } else if is_dec_digit(c) {
        scan_decimal(s, i)
    } else if c == '"' {
        scan_string(s, i)
    } else if is_ident_start(c) {
        ScanStep::Token {
            kind: TokenKind::Identifier,
            text: s.subrange(i as int, ident_end(s, i) as int),
            loc: i,
            end: ident_end(s, i),
        }
    } else {
        let two = if i + 1 < s.len() {
            op2_kind(c, s[(i + 1) as int])
        } else {
            None
        };
        match two {
            Some(kind) => op_token(s, i, kind, 2),
            None => match op1_kind(c) {
                Some(kind) => op_token(s, i, kind, 1),
                None => ScanStep::Error { kind: LexErrorKind::UnexpectedCharacter(c), at: i },
            },
        }
    }
}

/// The token model emitted for a scan result at flag `nl`.
pub open spec fn token_model_of(s: Seq<char>, kind: TokenKind, text: Seq<char>, loc: nat, nl: bool) -> TokenModel {
    TokenModel { kind, text, line: line_of(s, loc), column: col_of(s, loc), newline_before: nl }
}

/// The end-of-input token: zero-length, at the final location reached.
pub open spec fn eof_model(s: Seq<char>, nl: bool) -> TokenModel {
    TokenModel {
        kind: TokenKind::EOF,
        text: Seq::<char>::empty(),
        line: line_of(s, s.len()),
        column: col_of(s, s.len()),
        newline_before: nl,
    }
}

/// The whole token stream owed from position `i` with pending newline flag
/// `nl`: whitespace and `//` comments are skipped (newlines they hold set the
/// flag), each scanned token takes the pending flag and clears it, and the
/// first error aborts the run.  The stream always ends with the EOF token.
#[verifier::opaque]
pub open spec fn lex_from(s: Seq<char>, i: nat, nl: bool) -> Result<Seq<TokenModel>, LexErrorModel>
    decreases s.len() - i,
{
    if i >= s.len() {
        Ok(seq![eof_model(s, nl)])
    } else {
        let c = s[i as int];
        if is_space(c) {
            lex_from(s, (i + 1) as nat, nl || c == '\n')
        } else if c == '/' && i + 1 < s.len() && s[(i + 1) as int] == '/' {
            let le = line_end(s, i);
            let j0 = if le < s.len() { (le + 1) as nat } else { le };
            let j = if i < j0 && j0 <= s.len() { j0 } else { (i + 1) as nat };
            lex_from(s, j, nl || le < s.len())
        } else {
            match scan_token(s, i) {
                ScanStep::Error { kind, at } => Err(
                    LexErrorModel { kind, line: line_of(s, at), column: col_of(s, at) },
                ),
                ScanStep::Token { kind, text, loc, end } => {
                    let e = if i < end && end <= s.len() { end } else { (i + 1) as nat };
                    match lex_from(s, e, false) {
                        Err(err) => Err(err),
                        Ok(rest) => Ok(
                            seq![token_model_of(s, kind, text, loc, nl)] + rest,
                        ),
                    }
                },
            }
        }
    }
}

} // verus!
