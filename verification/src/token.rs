use vstd::prelude::*;
use vstd::string::StringExecFns;

verus! {

/// A 1-based line/column position in a named source text.
///
/// The tokenizer owns the only mutable copy: `line` grows by one and `column`
/// resets to 1 on every newline it consumes, and `column` grows by one on
/// every other character.  Once a `Location` is copied into a token or an
/// error it never changes again.
#[derive(Debug, Clone)]
pub struct Location {
    pub line: usize,
    pub column: usize,
    pub filename: String,
}

impl Location {
    /// An exact copy; unlike a derived `clone`, its contract keeps the value.
    pub fn duplicate(&self) -> (r: Location)
        ensures
            r == *self,
    {
        Location { line: self.line, column: self.column, filename: self.filename.clone() }
    }
}

/// The closed set of lexical unit classes.
///
/// Integer literals are split by base; every punctuation or operator spelling
/// has a variant of its own.  Identifier runs are all classified `Identifier`:
/// keyword reclassification belongs to the surrounding interpreter.
#[derive(Debug, Clone, Copy, PartialEq, Eq, Structural)]
pub enum TokenKind {
    EOF,
    IntegerLiteralBin,
    IntegerLiteralOct,
    IntegerLiteralDec,
    IntegerLiteralHex,
    FloatLiteral,
    StringLiteral,
    Identifier,
    Plus,
    Minus,
    Star,
    Slash,
    LeftParen,
    RightParen,
    LeftBracket,
    RightBracket,
    Pipe,
    Colon,
    Equals,
    EqualsEquals,
    FatArrow,
    LessThan,
    LessThanEquals,
    GreaterThan,
    GreaterThanEquals,
    Bang,
    BangEquals,
    SemiColon,
    Comma,
    LeftBrace,
    RightBrace,
    At,
    Dot,
    DotDot,
}

/// One lexical unit: its class, where it begins, the exact matched text
/// (literal bodies without their punctuation), and whether at least one
/// newline was skipped since the previous token was emitted.
#[derive(Debug, Clone)]
pub struct Token {
    pub kind: TokenKind,
    pub location: Location,
    pub text: String,
    pub newline_before: bool,
}

impl Token {
    pub fn new(kind: TokenKind, location: Location, text: String) -> (t: Token)
        ensures
            (t == Token { kind, location, text, newline_before: false }),
    {
        Token { kind, location, text, newline_before: false }
    }

    /// Wraps a finished identifier run.  The original-language keyword
    /// classifier lives outside this core, so every run is an `Identifier`.
    pub fn from_str(text: String, location: Location) -> (t: Token)
        ensures
            (t == Token {
                kind: TokenKind::Identifier,
                location,
                text,
                newline_before: false,
            }),
    {
        Token::new(TokenKind::Identifier, location, text)
    }
}

/// What went wrong while tokenizing.
#[derive(Debug, Clone, Copy, PartialEq, Eq, Structural)]
pub enum LexErrorKind {
    /// A character that starts no token.
    UnexpectedCharacter(char),
    /// A digit-like character that the literal's declared base refuses.
    InvalidDigit,
    /// A string literal whose closing quote never comes: either a raw
    /// newline or the end of the input is reached first.
    UnterminatedString,
}

/// A lexical fault, carrying the exact source position it arose at.
#[derive(Debug, Clone)]
pub struct LexError {
    pub kind: LexErrorKind,
    pub location: Location,
}

impl LexError {
    /// A short description of the fault class.
    pub fn message(&self) -> (r: String)
        ensures
            (match self.kind {
                LexErrorKind::UnexpectedCharacter(_) => r@ == "Unexpected character"@,
                LexErrorKind::InvalidDigit => r@ == "Invalid numerical literal"@,
                LexErrorKind::UnterminatedString => (
                    r@ == "Unexpected newline or end of input in string literal"@
                ),
            }),
    {
        match self.kind {
            LexErrorKind::UnexpectedCharacter(_) => String::from_str("Unexpected character"),
            LexErrorKind::InvalidDigit => String::from_str("Invalid numerical literal"),
            LexErrorKind::UnterminatedString => String::from_str(
                "Unexpected newline or end of input in string literal",
            ),
        }
    }
}

} // verus!
