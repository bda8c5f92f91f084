//! The tokenizer: one forward pass from source text to a located token
//! stream, verified against the model in `crate::lex_model`.

use vstd::prelude::*;
use vstd::string::{StrSliceExecFns, StringExecFns};
use crate::token::{Location, Token, TokenKind, LexError, LexErrorKind};
use crate::lex_model::{
    Base, base_kind, base_of, col_of, digit_ok, eof_model, ident_end, is_dec_digit,
    is_digit_like, is_ident_char, is_ident_start, is_space, lex_from, line_end, line_of,
    num_continues, num_end, num_err, num_text, op1_kind, op2_kind, op_token,
    scan_based, scan_decimal,
    scan_string, scan_token, string_body_end, token_model_of, LexErrorModel, ScanStep,
    TokenModel,
};

verus! {

/// The abstract state of a `Lexer`: the characters it reads, the source name
/// it stamps into locations, how far it has come, and whether a newline was
/// crossed since the last emitted token.
pub struct LexerModel {
    pub text: Seq<char>,
    pub filename: Seq<char>,
    pub index: nat,
    pub seen_newline: bool,
}

/// Does the executable token agree with its model, for a given source name?
pub open spec fn token_matches(t: Token, m: TokenModel, fname: Seq<char>) -> bool {
    &&& t.kind == m.kind
    &&& t.text@ == m.text
    &&& t.location.line == m.line
    &&& t.location.column == m.column
    &&& t.location.filename@ == fname
    &&& t.newline_before == m.newline_before
}

/// Does the executable error agree with its model, for a given source name?
pub open spec fn error_matches(e: LexError, m: LexErrorModel, fname: Seq<char>) -> bool {
    &&& e.kind == m.kind
    &&& e.location.line == m.line
    &&& e.location.column == m.column
    &&& e.location.filename@ == fname
}

/// Does the tokenizer's result agree, token by token, with the model's?
pub open spec fn lex_output_matches(
    r: Result<Vec<Token>, LexError>,
    model: Result<Seq<TokenModel>, LexErrorModel>,
    fname: Seq<char>,
) -> bool {
    match (r, model) {
        (Ok(toks), Ok(models)) => {
            &&& toks@.len() == models.len()
            &&& forall|k: int|
                0 <= k < models.len() ==> token_matches(#[trigger] toks@[k], models[k], fname)
        },
        (Err(e), Err(m)) => error_matches(e, m, fname),
        _ => false,
    }
}

/// Prepends already-emitted token models to a pending result.
pub open spec fn compose(
    prefix: Seq<TokenModel>,
    r: Result<Seq<TokenModel>, LexErrorModel>,
) -> Result<Seq<TokenModel>, LexErrorModel> {
    match r {
        Ok(rest) => Ok(prefix + rest),
        Err(e) => Err(e),
    }
}

/// Lines and columns never outrun the position: both stay in `1 ..= p + 1`.
proof fn lemma_line_col_bounds(s: Seq<char>, p: nat)
    ensures
        1 <= line_of(s, p) <= p + 1,
        1 <= col_of(s, p) <= p + 1,
    decreases p,
{
    if p > 0 {
        lemma_line_col_bounds(s, (p - 1) as nat);
    }
}

/// A digit scan stays inside the input and never walks backwards.
proof fn lemma_num_end_bounds(s: Seq<char>, i: nat, base: Base)
    requires
        i <= s.len(),
    ensures
        i <= num_end(s, i, base) <= s.len(),
    decreases s.len() - i,
{
    if i < s.len() && num_continues(base, s[i as int]) {
        lemma_num_end_bounds(s, (i + 1) as nat, base);
    }
}

/// The end of a line stays inside the input and never walks backwards.
proof fn lemma_line_end_bounds(s: Seq<char>, i: nat)
    requires
        i <= s.len(),
    ensures
        i <= line_end(s, i) <= s.len(),
    decreases s.len() - i,
{
    if i < s.len() && s[i as int] != '\n' {
        lemma_line_end_bounds(s, (i + 1) as nat);
    }
}

/// The end of a string body stays inside the input and never walks backwards.
proof fn lemma_string_body_end_bounds(s: Seq<char>, i: nat)
    requires
        i <= s.len(),
    ensures
        i <= string_body_end(s, i) <= s.len(),
    decreases s.len() - i,
{
    if i < s.len() && s[i as int] != '"' && s[i as int] != '\n' {
        lemma_string_body_end_bounds(s, (i + 1) as nat);
    }
}

/// The end of an identifier run stays inside the input and never walks
/// backwards.
proof fn lemma_ident_end_bounds(s: Seq<char>, i: nat)
    requires
        i <= s.len(),
    ensures
        i <= ident_end(s, i) <= s.len(),
    decreases s.len() - i,
{
    if i < s.len() && is_ident_char(s[i as int]) {
        lemma_ident_end_bounds(s, (i + 1) as nat);
    }
}

/// Composing with an empty prefix changes nothing.
proof fn lemma_compose_empty(r: Result<Seq<TokenModel>, LexErrorModel>)
    ensures
        compose(Seq::<TokenModel>::empty(), r) == r,
{
    match r {
        Ok(rest) => {
            assert(Seq::<TokenModel>::empty() + rest =~= rest);
        },
        Err(_) => {},
    }
}

/// Moving one emitted token from the pending stream into the prefix keeps
/// the composed result.
proof fn lemma_compose_step(
    prefix: Seq<TokenModel>,
    m: TokenModel,
    r: Result<Seq<TokenModel>, LexErrorModel>,
)
    ensures
        compose(
            prefix,
            match r {
                Ok(rest) => Ok(seq![m] + rest),
                Err(e) => Err(e),
            },
        ) == compose(prefix.push(m), r),
{
    match r {
        Ok(rest) => {
            assert(prefix + (seq![m] + rest) =~= prefix.push(m) + rest);
        },
        Err(_) => {},
    }
}

fn is_space_x(c: char) -> (r: bool)
    ensures
        r == is_space(c),
{
    c == ' ' || c == '\t' || c == '\n' || c == '\u{b}' || c == '\u{c}' || c == '\r'
        || c == '\u{85}' || c == '\u{a0}' || c == '\u{1680}'
        || (c >= '\u{2000}' && c <= '\u{200a}')
        || c == '\u{2028}' || c == '\u{2029}' || c == '\u{202f}' || c == '\u{205f}'
        || c == '\u{3000}'
}

fn is_dec_digit_x(c: char) -> (r: bool)
    ensures
        r == is_dec_digit(c),
{
    c >= '0' && c <= '9'
}

fn is_digit_like_x(c: char) -> (r: bool)
    ensures
        r == is_digit_like(c),
{
    (c >= '0' && c <= '9') || (c >= 'a' && c <= 'f') || (c >= 'A' && c <= 'F')
}

fn is_ident_start_x(c: char) -> (r: bool)
    ensures
        r == is_ident_start(c),
{
    (c >= 'a' && c <= 'z') || (c >= 'A' && c <= 'Z') || c == '_'
}

fn is_ident_char_x(c: char) -> (r: bool)
    ensures
        r == is_ident_char(c),
{
    is_ident_start_x(c) || is_dec_digit_x(c)
}

fn is_digit_ok_x(base: Base, c: char) -> (r: bool)
    ensures
        r == digit_ok(base, c),
{
    match base {
        Base::Bin => c == '0' || c == '1',
        Base::Oct => c >= '0' && c <= '7',
        Base::Dec => is_dec_digit_x(c),
        Base::Hex => is_digit_like_x(c),
    }
}

fn base_kind_x(base: Base) -> (r: TokenKind)
    ensures
        r == base_kind(base),
{
    match base {
        Base::Bin => TokenKind::IntegerLiteralBin,
        Base::Oct => TokenKind::IntegerLiteralOct,
        Base::Dec => TokenKind::IntegerLiteralDec,
        Base::Hex => TokenKind::IntegerLiteralHex,
    }
}

fn op2_kind_x(a: char, b: char) -> (r: Option<TokenKind>)
    ensures
        r == op2_kind(a, b),
{
    if a == '=' && b == '>' {
        Some(TokenKind::FatArrow)
    } else if a == '=' && b == '=' {
        Some(TokenKind::EqualsEquals)
    } else if a == '<' && b == '=' {
        Some(TokenKind::LessThanEquals)
    } else if a == '>' && b == '=' {
        Some(TokenKind::GreaterThanEquals)
    } else if a == '!' && b == '=' {
        Some(TokenKind::BangEquals)
    } else if a == '.' && b == '.' {
        Some(TokenKind::DotDot)
    } else {
        None
    }
}

fn op1_kind_x(a: char) -> (r: Option<TokenKind>)
    ensures
        r == op1_kind(a),
{
    match a {
        '+' => Some(TokenKind::Plus),
        '-' => Some(TokenKind::Minus),
        '*' => Some(TokenKind::Star),
        '/' => Some(TokenKind::Slash),
        '(' => Some(TokenKind::LeftParen),
        ')' => Some(TokenKind::RightParen),
        '[' => Some(TokenKind::LeftBracket),
        ']' => Some(TokenKind::RightBracket),
        '|' => Some(TokenKind::Pipe),
        ':' => Some(TokenKind::Colon),
        '=' => Some(TokenKind::Equals),
        '<' => Some(TokenKind::LessThan),
        '>' => Some(TokenKind::GreaterThan),
        '!' => Some(TokenKind::Bang),
        ';' => Some(TokenKind::SemiColon),
        ',' => Some(TokenKind::Comma),
        '{' => Some(TokenKind::LeftBrace),
        '}' => Some(TokenKind::RightBrace),
        '@' => Some(TokenKind::At),
        '.' => Some(TokenKind::Dot),
        _ => None,
    }
}

/// A single forward pass over one source text.  `new` takes the text and a
/// source name for diagnostics; `lex` consumes the whole input and yields
/// either every token, ended by the end-of-input token, or the first lexical
/// error.
#[derive(Debug)]
pub struct Lexer {
    location: Location,
    input: String,
    length: usize,
    current_index: usize,
    seen_newline: bool,
}

impl View for Lexer {
    type V = LexerModel;

    closed spec fn view(&self) -> LexerModel {
        LexerModel {
            text: self.input@,
            filename: self.location.filename@,
            index: self.current_index as nat,
            seen_newline: self.seen_newline,
        }
    }
}

impl Lexer {
    /// The tokenizer's private bookkeeping agrees with its model: the stored
    /// length and location are the ones its position dictates.
    pub closed spec fn wf(self) -> bool {
        &&& self.current_index <= self.input@.len()
        &&& self.length == self.input@.len()
        &&& self.input@.len() < usize::MAX
        &&& self.location.line == line_of(self.input@, self.current_index as nat)
        &&& self.location.column == col_of(self.input@, self.current_index as nat)
    }

    /// A fresh tokenizer at line 1, column 1 of `input`.  The length bound is
    /// a machine limit: positions one past the input must stay addressable.
    pub fn new(input: String, filename: String) -> (r: Lexer)
        requires
            input@.len() < usize::MAX,
        ensures
            r.wf(),
            (r@ == LexerModel {
                text: input@,
                filename: filename@,
                index: 0,
                seen_newline: false,
            }),
    {
        let length = input.as_str().unicode_len();
        Lexer {
            location: Location { line: 1, column: 1, filename },
            input,
            length,
            current_index: 0,
            seen_newline: false,
        }
    }

    /// The character under the cursor, if any.
    fn cur(&self) -> (r: Option<char>)
        requires
            self.wf(),
        ensures
            r == (if self@.index < self@.text.len() {
                Some(self@.text[self@.index as int])
            } else {
                None::<char>
            }),
    {
        if self.current_index < self.length {
            Some(self.input.as_str().get_char(self.current_index))
        } else {
            None
        }
    }

    /// The character `offset` places past the cursor, if any.
    fn peek(&self, offset: usize) -> (r: Option<char>)
        requires
            self.wf(),
        ensures
            r == (if self@.index + offset < self@.text.len() {
                Some(self@.text[self@.index + offset])
            } else {
                None::<char>
            }),
    {
        if self.current_index < self.length && offset < self.length - self.current_index {
            Some(self.input.as_str().get_char(self.current_index + offset))
        } else {
            None
        }
    }

    /// Consumes one character, keeping line and column in step with it; at
    /// the end of the input it does nothing.
    fn increment(&mut self)
        requires
            old(self).wf(),
        ensures
            final(self).wf(),
            final(self)@.text == old(self)@.text,
            final(self)@.filename == old(self)@.filename,
            old(self)@.index < old(self)@.text.len() ==> {
                &&& final(self)@.index == old(self)@.index + 1
                &&& final(self)@.seen_newline == (old(self)@.seen_newline
                    || old(self)@.text[old(self)@.index as int] == '\n')
            },
            old(self)@.index >= old(self)@.text.len() ==> final(self)@ == old(self)@,
    {
        proof {
            lemma_line_col_bounds(self.input@, self.current_index as nat);
        }
        match self.cur() {
            Some(c) => {
                if c == '\n' {
                    self.location.line = self.location.line + 1;
                    self.location.column = 1;
                    self.current_index = self.current_index + 1;
                    self.seen_newline = true;
                } else {
                    self.current_index = self.current_index + 1;
                    self.location.column = self.location.column + 1;
                }
            },
            None => {},
        }
    }

    /// Emits `token` carrying the pending newline flag, and clears the flag.
    fn push(&mut self, tokens: &mut Vec<Token>, token: Token)
        requires
            old(self).wf(),
        ensures
            final(self).wf(),
            final(self)@ == (LexerModel { seen_newline: false, ..old(self)@ }),
            final(tokens)@ == old(tokens)@.push(
                (Token {
                    kind: token.kind,
                    location: token.location,
                    text: token.text,
                    newline_before: old(self)@.seen_newline,
                }),
            ),
    {
        let mut token = token;
        token.newline_before = self.seen_newline;
        tokens.push(token);
        self.seen_newline = false;
    }

    /// Emits a token for the next `len` characters (none of them newlines),
    /// stamped with the location of its first character, then consumes them.
    #[verifier::loop_isolation(false)]
    fn push_simple(&mut self, tokens: &mut Vec<Token>, kind: TokenKind, len: usize)
        requires
            old(self).wf(),
            old(self)@.index + len <= old(self)@.text.len(),
            forall|k: int|
                old(self)@.index <= k < old(self)@.index + len ==> old(self)@.text[k] != '\n',
        ensures
            final(self).wf(),
            final(self)@.text == old(self)@.text,
            final(self)@.filename == old(self)@.filename,
            final(self)@.index == old(self)@.index + len,
            final(self)@.seen_newline == false,
            final(tokens)@.len() == old(tokens)@.len() + 1,
            forall|k: int|
                0 <= k < old(tokens)@.len() ==> final(tokens)@[k] == old(tokens)@[k],
            token_matches(
                final(tokens)@.last(),
                token_model_of(
                    old(self)@.text,
                    kind,
                    old(self)@.text.subrange(
                        old(self)@.index as int,
                        old(self)@.index as int + len,
                    ),
                    old(self)@.index,
                    old(self)@.seen_newline,
                ),
                old(self)@.filename,
            ),
    {
        let ghost s = self.input@;
        let ghost i = self.current_index as nat;
        let text = String::from_str(
            self.input.as_str().substring_char(self.current_index, self.current_index + len),
        );
        let token = Token::new(kind, self.location.duplicate(), text);
        self.push(tokens, token);
        let mut k: usize = 0;
        while k < len
            invariant
                self.wf(),
                k <= len,
                self@.text == s,
                self@.filename == old(self)@.filename,
                self@.index == i + k,
                i + len <= s.len(),
                self@.seen_newline == false,
                forall|m: int| i <= m < i + len ==> s[m] != '\n',
            decreases len - k,
        {
            self.increment();
            k = k + 1;
        }
    }

    /// Scans a digit run of `base` into `num`: digits are stored exactly as
    /// matched, `_` separators are skipped, and a digit-like character the
    /// base refuses is the error, at that character's location; `num` then
    /// holds the digits read before it.
    #[verifier::loop_isolation(false)]
    fn lex_num(&mut self, num: &mut String, base: Base) -> (r: Result<(), LexError>)
        requires
            old(self).wf(),
        ensures
            final(self).wf(),
            final(self)@.text == old(self)@.text,
            final(self)@.filename == old(self)@.filename,
            final(self)@.seen_newline == old(self)@.seen_newline,
            final(self)@.index == num_end(old(self)@.text, old(self)@.index, base),
            (match r {
                Ok(()) => {
                    &&& !num_err(old(self)@.text, old(self)@.index, base)
                    &&& final(num)@ == old(num)@ + num_text(
                        old(self)@.text,
                        old(self)@.index,
                        base,
                    )
                },
                Err(e) => {
                    &&& num_err(old(self)@.text, old(self)@.index, base)
                    &&& final(num)@ == old(num)@ + num_text(
                        old(self)@.text,
                        old(self)@.index,
                        base,
                    )
                    &&& e.kind == LexErrorKind::InvalidDigit
                    &&& e.location.line == line_of(
                        old(self)@.text,
                        num_end(old(self)@.text, old(self)@.index, base),
                    )
                    &&& e.location.column == col_of(
                        old(self)@.text,
                        num_end(old(self)@.text, old(self)@.index, base),
                    )
                    &&& e.location.filename@ == old(self)@.filename
                },
            }),
    {
        let ghost s = self.input@;
        let ghost i0 = self.current_index as nat;
        let ghost num0 = num@;
        let ghost mut acc: Seq<char> = Seq::<char>::empty();
        loop
            invariant
                self.wf(),
                self@.text == s,
                self@.filename == old(self)@.filename,
                self@.seen_newline == old(self)@.seen_newline,
                i0 <= self@.index <= s.len(),
                num_end(s, i0, base) == num_end(s, self@.index, base),
                num_err(s, i0, base) == num_err(s, self@.index, base),
                num_text(s, i0, base) == acc + num_text(s, self@.index, base),
                num@ == num0 + acc,
            decreases s.len() - self@.index,
        {
            let ghost cur = self@.index;
            match self.cur() {
                None => {
                    proof {
                        assert(num_end(s, cur, base) == cur);
                        assert(num_text(s, cur, base) =~= Seq::<char>::empty());
                        assert(acc + Seq::<char>::empty() =~= acc);
                    }
                    return Ok(());
                },
                Some(c) => {
                    if is_digit_ok_x(base, c) {
                        num.append(
                            self.input.as_str().substring_char(
                                self.current_index,
                                self.current_index + 1,
                            ),
                        );
                        proof {
                            assert(s.subrange(cur as int, cur as int + 1) =~= seq![c]);
                            assert(num_text(s, cur, base) == seq![c] + num_text(
                                s,
                                (cur + 1) as nat,
                                base,
                            ));
                            assert(acc + (seq![c] + num_text(s, (cur + 1) as nat, base))
                                =~= acc.push(c) + num_text(s, (cur + 1) as nat, base));
                            acc = acc.push(c);
                            assert(num@ =~= num0 + acc);
                        }
                        self.increment();
                    } else if is_digit_like_x(c) {
                        proof {
                            assert(num_end(s, cur, base) == cur);
                            assert(num_text(s, cur, base) =~= Seq::<char>::empty());
                            assert(acc + Seq::<char>::empty() =~= acc);
                        }
                        return Err(
                            LexError {
                                kind: LexErrorKind::InvalidDigit,
                                location: self.location.duplicate(),
                            },
                        );
                    } else if c == '_' {
                        proof {
                            assert(num_text(s, cur, base) == num_text(s, (cur + 1) as nat, base));
                        }
                        self.increment();
                    } else {
                        proof {
                            assert(num_end(s, cur, base) == cur);
                            assert(num_text(s, cur, base) =~= Seq::<char>::empty());
                            assert(acc + Seq::<char>::empty() =~= acc);
                        }
                        return Ok(());
                    }
                },
            }
        }
    }

    /// Scans a string literal from its opening quote: the body is copied
    /// verbatim to the closing quote.  A raw newline or the end of the input
    /// first means the literal never closes — the error names the opening
    /// quote's location.
    #[verifier::loop_isolation(false)]
    fn lex_string_literal(&mut self) -> (r: Result<Token, LexError>)
        requires
            old(self).wf(),
            old(self)@.index < old(self)@.text.len(),
            old(self)@.text[old(self)@.index as int] == '"',
        ensures
            final(self).wf(),
            final(self)@.text == old(self)@.text,
            final(self)@.filename == old(self)@.filename,
            final(self)@.seen_newline == old(self)@.seen_newline,
            (match r {
                Ok(t) => {
                    let s = old(self)@.text;
                    let i = old(self)@.index;
                    let q = string_body_end(s, (i + 1) as nat);
                    &&& q < s.len() && s[q as int] == '"'
                    &&& t.kind == TokenKind::StringLiteral
                    &&& t.text@ == s.subrange(i as int + 1, q as int)
                    &&& t.location.line == line_of(s, i)
                    &&& t.location.column == col_of(s, i)
                    &&& t.location.filename@ == old(self)@.filename
                    &&& t.newline_before == false
                    &&& final(self)@.index == q + 1
                },
                Err(e) => {
                    let s = old(self)@.text;
                    let i = old(self)@.index;
                    let q = string_body_end(s, (i + 1) as nat);
                    &&& !(q < s.len() && s[q as int] == '"')
                    &&& e.kind == LexErrorKind::UnterminatedString
                    &&& e.location.line == line_of(s, i)
                    &&& e.location.column == col_of(s, i)
                    &&& e.location.filename@ == old(self)@.filename
                },
            }),
    {
        let ghost s = self.input@;
        let ghost i = self.current_index as nat;
        let loc = self.location.duplicate();
        self.increment();
        let start = self.current_index;
        proof {
            lemma_string_body_end_bounds(s, (i + 1) as nat);
        }
        loop
            invariant
                self.wf(),
                self@.text == s,
                self@.filename == old(self)@.filename,
                self@.seen_newline == old(self)@.seen_newline,
                start == i + 1,
                i + 1 <= self@.index <= s.len(),
                string_body_end(s, (i + 1) as nat) == string_body_end(s, self@.index),
                self@.index <= string_body_end(s, self@.index),
                loc.line == line_of(s, i),
                loc.column == col_of(s, i),
                loc.filename@ == old(self)@.filename,
            decreases s.len() - self@.index,
        {
            let ghost cur = self@.index;
            match self.cur() {
                None => {
                    return Err(LexError { kind: LexErrorKind::UnterminatedString, location: loc });
                },
                Some(c) => {
                    if c == '"' {
                        let body_end = self.current_index;
                        self.increment();
                        let text = String::from_str(
                            self.input.as_str().substring_char(start, body_end),
                        );
                        return Ok(Token::new(TokenKind::StringLiteral, loc, text));
                    } else if c == '\n' {
                        return Err(
                            LexError { kind: LexErrorKind::UnterminatedString, location: loc },
                        );
                    } else {
                        self.increment();
                        proof {
                            lemma_string_body_end_bounds(s, (cur + 1) as nat);
                        }
                    }
                },
            }
        }
    }


    /// Consumes a `//` comment: everything up to its newline, then the
    /// newline itself unless the comment ends the input.
    #[verifier::loop_isolation(false)]
    fn skip_comment(&mut self)
        requires
            old(self).wf(),
            old(self)@.index + 1 < old(self)@.text.len(),
            old(self)@.text[old(self)@.index as int] == '/',
            old(self)@.text[old(self)@.index as int + 1] == '/',
        ensures
            final(self).wf(),
            final(self)@.text == old(self)@.text,
            final(self)@.filename == old(self)@.filename,
            old(self)@.index < final(self)@.index,
            ({
                let le = line_end(old(self)@.text, old(self)@.index);
                &&& final(self)@.index == (if le < old(self)@.text.len() {
                    (le + 1) as nat
                } else {
                    le
                })
                &&& final(self)@.seen_newline == (old(self)@.seen_newline
                    || le < old(self)@.text.len())
            }),
    {
        let ghost s = self.input@;
        let ghost i = self.current_index as nat;
        let ghost nl = self.seen_newline;
        let ghost le = line_end(s, i);
        proof {
            lemma_line_end_bounds(s, (i + 1) as nat);
        }
        while self.current_index < self.length && self.input.as_str().get_char(self.current_index)
            != '\n'
            invariant
                self.wf(),
                self@.text == s,
                self@.filename == old(self)@.filename,
                self@.seen_newline == nl,
                i <= self@.index <= le,
                line_end(s, self@.index) == le,
            decreases s.len() - self@.index,
        {
            proof {
                lemma_line_end_bounds(s, (self@.index + 1) as nat);
            }
            self.increment();
        }
        if self.current_index < self.length {
            self.increment();
        }
    }

    /// Scans a based integer literal (`0b…`, `0o…`, `0x…`): the two prefix
    /// characters, then the digit run.  The token carries its first
    /// character's location.
    fn lex_based_literal(&mut self) -> (r: Result<Token, LexError>)
        requires
            old(self).wf(),
            old(self)@.index + 1 < old(self)@.text.len(),
            old(self)@.text[old(self)@.index as int] == '0',
            (old(self)@.text[old(self)@.index as int + 1] == 'b'
                || old(self)@.text[old(self)@.index as int + 1] == 'o'
                || old(self)@.text[old(self)@.index as int + 1] == 'x'),
        ensures
            final(self).wf(),
            final(self)@.text == old(self)@.text,
            final(self)@.filename == old(self)@.filename,
            final(self)@.seen_newline == old(self)@.seen_newline,
            (match r {
                Ok(t) => {
                    let s = old(self)@.text;
                    let i = old(self)@.index;
                    &&& (scan_based(s, i, base_of(s[i as int + 1]))
                        == ScanStep::Token {
                        kind: t.kind,
                        text: t.text@,
                        loc: i,
                        end: final(self)@.index,
                    })
                    &&& old(self)@.index < final(self)@.index <= s.len()
                    &&& t.location.line == line_of(s, i)
                    &&& t.location.column == col_of(s, i)
                    &&& t.location.filename@ == old(self)@.filename
                    &&& t.newline_before == false
                },
                Err(e) => {
                    let s = old(self)@.text;
                    let i = old(self)@.index;
                    match scan_based(s, i, base_of(s[i as int + 1])) {
                        ScanStep::Error { kind, at } => {
                            &&& e.kind == kind
                            &&& e.location.line == line_of(s, at)
                            &&& e.location.column == col_of(s, at)
                            &&& e.location.filename@ == old(self)@.filename
                        },
                        _ => false,
                    }
                },
            }),
    {
        let ghost s = self.input@;
        let ghost i = self.current_index as nat;
        let loc = self.location.duplicate();
        let p1 = self.peek(1);
        let base = match p1 {
            Some('b') => Base::Bin,
            Some('o') => Base::Oct,
            _ => Base::Hex,
        };
        proof {
            assert(base == base_of(s[i as int + 1]));
        }
        self.increment();
        self.increment();
        let mut num = String::new();
        match self.lex_num(&mut num, base) {
            Err(e) => {
                return Err(e);
            },
            Ok(()) => {},
        }
        proof {
            lemma_num_end_bounds(s, (i + 2) as nat, base);
            assert(num@ =~= num_text(s, (i + 2) as nat, base));
        }
        let kind = base_kind_x(base);
        Ok(Token::new(kind, loc, num))
    }

    /// Scans a decimal integer or float literal.  A single `.` right after
    /// the integer part, not itself followed by a second `.`, makes it a
    /// float and the fraction digits are scanned too; `..` is left alone for
    /// the range operator.  The token carries its first character's location.
    fn lex_decimal_literal(&mut self) -> (r: Result<Token, LexError>)
        requires
            old(self).wf(),
            old(self)@.index < old(self)@.text.len(),
            is_dec_digit(old(self)@.text[old(self)@.index as int]),
        ensures
            final(self).wf(),
            final(self)@.text == old(self)@.text,
            final(self)@.filename == old(self)@.filename,
            final(self)@.seen_newline == old(self)@.seen_newline,
            (match r {
                Ok(t) => {
                    let s = old(self)@.text;
                    let i = old(self)@.index;
                    &&& (scan_decimal(s, i) == ScanStep::Token {
                        kind: t.kind,
                        text: t.text@,
                        loc: i,
                        end: final(self)@.index,
                    })
                    &&& old(self)@.index < final(self)@.index <= s.len()
                    &&& t.location.line == line_of(s, i)
                    &&& t.location.column == col_of(s, i)
                    &&& t.location.filename@ == old(self)@.filename
                    &&& t.newline_before == false
                },
                Err(e) => {
                    let s = old(self)@.text;
                    let i = old(self)@.index;
                    match scan_decimal(s, i) {
                        ScanStep::Error { kind, at } => {
                            &&& e.kind == kind
                            &&& e.location.line == line_of(s, at)
                            &&& e.location.column == col_of(s, at)
                            &&& e.location.filename@ == old(self)@.filename
                        },
                        _ => false,
                    }
                },
            }),
    {
        let ghost s = self.input@;
        let ghost i = self.current_index as nat;
        let loc = self.location.duplicate();
        let mut num = String::new();
        match self.lex_num(&mut num, Base::Dec) {
            Err(e) => {
                return Err(e);
            },
            Ok(()) => {},
        }
        let ghost ie = num_end(s, i, Base::Dec);
        proof {
            lemma_num_end_bounds(s, (i + 1) as nat, Base::Dec);
        }
        let c2 = self.cur();
        let is_dot = match c2 {
            Some(ch) => ch == '.',
            None => false,
        };
        let p2 = self.peek(1);
        let second_dot = match p2 {
            Some(ch) => ch == '.',
            None => false,
        };
        if is_dot && !second_dot {
            num.append(".");
            proof {
                reveal_strlit(".");
                assert((".")@ =~= seq!['.']);
            }
            self.increment();
            match self.lex_num(&mut num, Base::Dec) {
                Err(e) => {
                    return Err(e);
                },
                Ok(()) => {},
            }
            proof {
                lemma_num_end_bounds(s, (ie + 1) as nat, Base::Dec);
                assert(num@ =~= num_text(s, i, Base::Dec) + seq!['.'] + num_text(
                    s,
                    (ie + 1) as nat,
                    Base::Dec,
                ));
            }
            Ok(Token::new(TokenKind::FloatLiteral, loc, num))
        } else {
            Ok(Token::new(TokenKind::IntegerLiteralDec, loc, num))
        }
    }

    /// Scans an identifier run: a letter or underscore, then letters, digits
    /// and underscores.  The token carries its first character's location.
    #[verifier::loop_isolation(false)]
    fn lex_identifier(&mut self) -> (t: Token)
        requires
            old(self).wf(),
            old(self)@.index < old(self)@.text.len(),
            is_ident_start(old(self)@.text[old(self)@.index as int]),
        ensures
            final(self).wf(),
            final(self)@.text == old(self)@.text,
            final(self)@.filename == old(self)@.filename,
            final(self)@.seen_newline == old(self)@.seen_newline,
            final(self)@.index == ident_end(old(self)@.text, old(self)@.index),
            old(self)@.index < final(self)@.index <= old(self)@.text.len(),
            t.kind == TokenKind::Identifier,
            t.text@ == old(self)@.text.subrange(
                old(self)@.index as int,
                final(self)@.index as int,
            ),
            t.location.line == line_of(old(self)@.text, old(self)@.index),
            t.location.column == col_of(old(self)@.text, old(self)@.index),
            t.location.filename@ == old(self)@.filename,
            t.newline_before == false,
    {
        let ghost s = self.input@;
        let ghost i = self.current_index as nat;
        let loc = self.location.duplicate();
        let start = self.current_index;
        proof {
            lemma_ident_end_bounds(s, (i + 1) as nat);
        }
        while self.current_index < self.length && is_ident_char_x(
            self.input.as_str().get_char(self.current_index),
        )
            invariant
                self.wf(),
                self@.text == s,
                self@.filename == old(self)@.filename,
                self@.seen_newline == old(self)@.seen_newline,
                i <= self@.index <= ident_end(s, i),
                ident_end(s, self@.index) == ident_end(s, i),
            decreases s.len() - self@.index,
        {
            proof {
                lemma_ident_end_bounds(s, (self@.index + 1) as nat);
            }
            self.increment();
        }
        let text = String::from_str(self.input.as_str().substring_char(start, self.current_index));
        Token::from_str(text, loc)
    }
}

/// One scanned token extends the model's stream by its model and continues
/// with a cleared newline flag.
proof fn lemma_step_token(
    s: Seq<char>,
    i: nat,
    nl: bool,
    kind: TokenKind,
    text: Seq<char>,
    loc: nat,
    end: nat,
)
    requires
        i < s.len(),
        !is_space(s[i as int]),
        !(s[i as int] == '/' && i + 1 < s.len() && s[i as int + 1] == '/'),
        scan_token(s, i) == (ScanStep::Token { kind, text, loc, end }),
        i < end <= s.len(),
    ensures
        lex_from(s, i, nl) == (match lex_from(s, end, false) {
            Ok(rest) => Ok(seq![token_model_of(s, kind, text, loc, nl)] + rest),
            Err(e) => Err(e),
        }),
{
    reveal(lex_from);
}

/// A scan error is the model's answer for the whole remaining input.
proof fn lemma_step_error(s: Seq<char>, i: nat, nl: bool, kind: LexErrorKind, at: nat)
    requires
        i < s.len(),
        !is_space(s[i as int]),
        !(s[i as int] == '/' && i + 1 < s.len() && s[i as int + 1] == '/'),
        scan_token(s, i) == (ScanStep::Error { kind, at }),
    ensures
        lex_from(s, i, nl) == Err::<Seq<TokenModel>, LexErrorModel>(
            LexErrorModel { kind, line: line_of(s, at), column: col_of(s, at) },
        ),
{
    reveal(lex_from);
}

/// Whitespace moves the model one character on, noting a crossed newline.
proof fn lemma_step_space(s: Seq<char>, i: nat, nl: bool)
    requires
        i < s.len(),
        is_space(s[i as int]),
    ensures
        lex_from(s, i, nl) == lex_from(s, (i + 1) as nat, nl || s[i as int] == '\n'),
{
    reveal(lex_from);
}

/// A comment moves the model past its newline (or to the end of the input),
/// noting the crossed newline if there was one.
proof fn lemma_step_comment(s: Seq<char>, i: nat, nl: bool)
    requires
        i + 1 < s.len(),
        s[i as int] == '/',
        s[i as int + 1] == '/',
    ensures
        lex_from(s, i, nl) == lex_from(
            s,
            (if line_end(s, i) < s.len() {
                (line_end(s, i) + 1) as nat
            } else {
                line_end(s, i)
            }),
            nl || line_end(s, i) < s.len(),
        ),
{
    reveal(lex_from);
    lemma_line_end_bounds(s, (i + 1) as nat);
}

/// At the end of the input the model owes exactly the end-of-input token.
proof fn lemma_lex_end(s: Seq<char>, nl: bool)
    ensures
        lex_from(s, s.len(), nl) == Ok::<Seq<TokenModel>, LexErrorModel>(
            seq![eof_model(s, nl)],
        ),
{
    reveal(lex_from);
}

/// A `0b`/`0o`/`0x` prefix always dispatches the scan to the based literal.
proof fn lemma_scan_based_case(s: Seq<char>, i: nat)
    requires
        i + 1 < s.len(),
        s[i as int] == '0',
        (s[i as int + 1] == 'b' || s[i as int + 1] == 'o' || s[i as int + 1] == 'x'),
    ensures
        scan_token(s, i) == scan_based(s, i, base_of(s[i as int + 1])),
{
    reveal(scan_token);
}

/// Any other leading digit dispatches the scan to the decimal literal.
proof fn lemma_scan_decimal_case(s: Seq<char>, i: nat)
    requires
        i < s.len(),
        is_dec_digit(s[i as int]),
        !(s[i as int] == '0' && i + 1 < s.len() && (s[i as int + 1] == 'b' || s[i as int + 1]
            == 'o' || s[i as int + 1] == 'x')),
    ensures
        scan_token(s, i) == scan_decimal(s, i),
{
    reveal(scan_token);
}

/// A quote dispatches the scan to the string literal.
proof fn lemma_scan_string_case(s: Seq<char>, i: nat)
    requires
        i < s.len(),
        s[i as int] == '"',
    ensures
        scan_token(s, i) == scan_string(s, i),
{
    reveal(scan_token);
}

/// A letter or underscore dispatches the scan to an identifier run.
proof fn lemma_scan_ident_case(s: Seq<char>, i: nat)
    requires
        i < s.len(),
        is_ident_start(s[i as int]),
    ensures
        scan_token(s, i) == (ScanStep::Token {
            kind: TokenKind::Identifier,
            text: s.subrange(i as int, ident_end(s, i) as int),
            loc: i,
            end: ident_end(s, i),
        }),
{
    reveal(scan_token);
}

/// A character that starts no literal and no identifier is an operator (the
/// two-character spellings first) or an error.
proof fn lemma_scan_op_case(s: Seq<char>, i: nat)
    requires
        i < s.len(),
        !is_dec_digit(s[i as int]),
        s[i as int] != '"',
        !is_ident_start(s[i as int]),
    ensures
        (if i + 1 < s.len() && op2_kind(s[i as int], s[i as int + 1]) is Some {
            scan_token(s, i) == op_token(
                s,
                i,
                op2_kind(s[i as int], s[i as int + 1])->Some_0,
                2,
            )
        } else {
            match op1_kind(s[i as int]) {
                Some(kind) => scan_token(s, i) == op_token(s, i, kind, 1),
                None => scan_token(s, i) == (ScanStep::Error {
                    kind: LexErrorKind::UnexpectedCharacter(s[i as int]),
                    at: i,
                }),
            }
        }),
{
    reveal(scan_token);
}

impl Lexer {
    /// Tokenizes the rest of the input in one forward pass.  The result is
    /// exactly what the model `lex_from` owes for the tokenizer's state:
    /// every token in order, ended by the end-of-input token, or the first
    /// lexical error.
    #[verifier::loop_isolation(false)]
    #[verifier::rlimit(100)]
    pub fn lex(&mut self) -> (r: Result<Vec<Token>, LexError>)
        requires
            old(self).wf(),
        ensures
            final(self).wf(),
            lex_output_matches(
                r,
                lex_from(old(self)@.text, old(self)@.index, old(self)@.seen_newline),
                old(self)@.filename,
            ),
    {
        let ghost s = self.input@;
        let ghost fname = self.location.filename@;
        let ghost i0 = self.current_index as nat;
        let ghost nl0 = self.seen_newline;
        let mut tokens: Vec<Token> = Vec::new();
        let ghost mut prefix: Seq<TokenModel> = Seq::<TokenModel>::empty();
        proof {
            lemma_compose_empty(lex_from(s, i0, nl0));
        }
        while self.current_index < self.length
            invariant
                self.wf(),
                self@.text == s,
                self@.filename == fname,
                tokens@.len() == prefix.len(),
                forall|k: int|
                    0 <= k < prefix.len() ==> token_matches(
                        #[trigger] tokens@[k],
                        prefix[k],
                        fname,
                    ),
                lex_from(s, i0, nl0) == compose(
                    prefix,
                    lex_from(s, self@.index, self@.seen_newline),
                ),
            decreases s.len() - self@.index,
        {
            let ghost cur = self@.index;
            let ghost nl = self@.seen_newline;
            let c = self.input.as_str().get_char(self.current_index);
            if is_space_x(c) {
                self.increment();
                proof {
                    lemma_step_space(s, cur, nl);
                }
            } else {
                let p1 = self.peek(1);
                if c == '/' && (match p1 {
                    Some(ch) => ch == '/',
                    None => false,
                }) {
                    self.skip_comment();
                    proof {
                        lemma_step_comment(s, cur, nl);
                    }
                } else if c == '0' && (match p1 {
                    Some(ch) => ch == 'b' || ch == 'o' || ch == 'x',
                    None => false,
                }) {
                    match self.lex_based_literal() {
                        Err(e) => {
                            proof {
                                lemma_scan_based_case(s, cur);
                                let step = scan_based(s, cur, base_of(s[cur as int + 1]));
                                match step {
                                    ScanStep::Error { kind, at } => {
                                        lemma_step_error(s, cur, nl, kind, at);
                                    },
                                    _ => {
                                        assert(false);
                                    },
                                }
                            }
                            return Err(e);
                        },
                        Ok(t) => {
                            let ghost tk = t;
                            self.push(&mut tokens, t);
                            proof {
                                lemma_scan_based_case(s, cur);
                                let m = token_model_of(s, tk.kind, tk.text@, cur, nl);
                                lemma_step_token(
                                    s,
                                    cur,
                                    nl,
                                    tk.kind,
                                    tk.text@,
                                    cur,
                                    self@.index,
                                );
                                lemma_compose_step(prefix, m, lex_from(s, self@.index, false));
                                prefix = prefix.push(m);
                            }
                        },
                    }
                } else if is_dec_digit_x(c) {
                    match self.lex_decimal_literal() {
                        Err(e) => {
                            proof {
                                lemma_scan_decimal_case(s, cur);
                                let step = scan_decimal(s, cur);
                                match step {
                                    ScanStep::Error { kind, at } => {
                                        lemma_step_error(s, cur, nl, kind, at);
                                    },
                                    _ => {
                                        assert(false);
                                    },
                                }
                            }
                            return Err(e);
                        },
                        Ok(t) => {
                            let ghost tk = t;
                            self.push(&mut tokens, t);
                            proof {
                                lemma_scan_decimal_case(s, cur);
                                let m = token_model_of(s, tk.kind, tk.text@, cur, nl);
                                lemma_step_token(s, cur, nl, tk.kind, tk.text@, cur, self@.index);
                                lemma_compose_step(prefix, m, lex_from(s, self@.index, false));
                                prefix = prefix.push(m);
                            }
                        },
                    }
                } else if c == '"' {
                    match self.lex_string_literal() {
                        Err(e) => {
                            proof {
                                lemma_scan_string_case(s, cur);
                                match scan_string(s, cur) {
                                    ScanStep::Error { kind, at } => {
                                        lemma_step_error(s, cur, nl, kind, at);
                                    },
                                    _ => {
                                        assert(false);
                                    },
                                }
                            }
                            return Err(e);
                        },
                        Ok(t) => {
                            let ghost tk = t;
                            self.push(&mut tokens, t);
                            proof {
                                let q = string_body_end(s, (cur + 1) as nat);
                                lemma_string_body_end_bounds(s, (cur + 1) as nat);
                                lemma_scan_string_case(s, cur);
                                let m = token_model_of(s, tk.kind, tk.text@, cur, nl);
                                lemma_step_token(
                                    s,
                                    cur,
                                    nl,
                                    tk.kind,
                                    tk.text@,
                                    cur,
                                    (q + 1) as nat,
                                );
                                lemma_compose_step(prefix, m, lex_from(s, (q + 1) as nat, false));
                                prefix = prefix.push(m);
                            }
                        },
                    }
                } else if is_ident_start_x(c) {
                    let t = self.lex_identifier();
                    let ghost tk = t;
                    self.push(&mut tokens, t);
                    proof {
                        let e = ident_end(s, cur);
                        lemma_scan_ident_case(s, cur);
                        let m = token_model_of(s, tk.kind, tk.text@, cur, nl);
                        lemma_step_token(s, cur, nl, tk.kind, tk.text@, cur, e);
                        lemma_compose_step(prefix, m, lex_from(s, e, false));
                        prefix = prefix.push(m);
                    }
                } else {
                    let two = match p1 {
                        Some(b) => op2_kind_x(c, b),
                        None => None,
                    };
                    let picked = match two {
                        Some(kind) => Some((kind, 2usize)),
                        None => match op1_kind_x(c) {
                            Some(kind) => Some((kind, 1usize)),
                            None => None,
                        },
                    };
                    match picked {
                        Some((kind, len)) => {
                            proof {
                                lemma_scan_op_case(s, cur);
                            }
                            self.push_simple(&mut tokens, kind, len);
                            proof {
                                let m = token_model_of(
                                    s,
                                    kind,
                                    s.subrange(cur as int, cur as int + len as int),
                                    cur,
                                    nl,
                                );
                                lemma_step_token(
                                    s,
                                    cur,
                                    nl,
                                    kind,
                                    s.subrange(cur as int, cur as int + len as int),
                                    cur,
                                    (cur + len) as nat,
                                );
                                lemma_compose_step(prefix, m, lex_from(s, (cur + len) as nat, false));
                                prefix = prefix.push(m);
                            }
                        },
                        None => {
                            proof {
                                lemma_scan_op_case(s, cur);
                                lemma_step_error(
                                    s,
                                    cur,
                                    nl,
                                    LexErrorKind::UnexpectedCharacter(c),
                                    cur,
                                );
                            }
                            return Err(
                                LexError {
                                    kind: LexErrorKind::UnexpectedCharacter(c),
                                    location: self.location.duplicate(),
                                },
                            );
                        },
                    }
                }
            }
        }
        let ghost nl_end = self@.seen_newline;
        self.push_simple(&mut tokens, TokenKind::EOF, 0);
        proof {
            lemma_lex_end(s, nl_end);
            assert(s.subrange(s.len() as int, s.len() as int) =~= Seq::<char>::empty());
            assert(prefix + seq![eof_model(s, nl_end)] =~= prefix.push(eof_model(s, nl_end)));
        }
        Ok(tokens)
    }
}

/// The sole entry point of the tokenizer: turns a whole source text into its
/// token stream, or reports the first lexical error.  `source_name` is
/// echoed into every location, purely for diagnostics.  The length bound is
/// a machine limit: positions one past the input must stay addressable.
pub fn tokenize(source: String, source_name: String) -> (r: Result<Vec<Token>, LexError>)
    requires
        source@.len() < usize::MAX,
    ensures
        lex_output_matches(r, lex_from(source@, 0, false), source_name@),
{
    let mut lexer = Lexer::new(source, source_name);
    lexer.lex()
}

} // verus!
