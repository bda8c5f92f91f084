//! General properties of the tokenizer, stated and proved against the model
//! in `crate::lex_model`.

use vstd::prelude::*;
use crate::token::TokenKind;
use crate::lex_model::{
    eof_model, is_dec_digit, is_space, lex_from, line_end, num_end, num_err, num_text, op2_kind,
    op_token, scan_token, Base, LexErrorModel, ScanStep, TokenModel,
};

verus! {

/// `s` with every `_` dropped.
pub open spec fn without_separators(s: Seq<char>) -> Seq<char> {
    s.filter(|c: char| c != '_')
}

/// A decimal digit scan over digits and separators only runs to the end,
/// accepts, and collects exactly the digits with the separators dropped.
proof fn lemma_num_text_strips_separators(s: Seq<char>, i: nat)
    requires
        i <= s.len(),
        forall|k: int| i <= k < s.len() ==> is_dec_digit(#[trigger] s[k]) || s[k] == '_',
    ensures
        num_end(s, i, Base::Dec) == s.len(),
        !num_err(s, i, Base::Dec),
        num_text(s, i, Base::Dec) == without_separators(s.subrange(i as int, s.len() as int)),
    decreases s.len() - i,
{
    let pred = |c: char| c != '_';
    if i == s.len() {
        reveal_with_fuel(Seq::filter, 2);
        assert(s.subrange(i as int, s.len() as int) =~= Seq::<char>::empty());
        assert(Seq::<char>::empty().filter(pred) =~= Seq::<char>::empty());
    } else {
        lemma_num_text_strips_separators(s, (i + 1) as nat);
        let head = seq![s[i as int]];
        let rest = s.subrange(i as int + 1, s.len() as int);
        assert(s.subrange(i as int, s.len() as int) =~= head + rest);
        Seq::<char>::filter_distributes_over_add(head, rest, pred);
        reveal_with_fuel(Seq::filter, 2);
        if s[i as int] == '_' {
            assert(head.filter(pred) =~= Seq::<char>::empty());
            assert(Seq::<char>::empty() + rest.filter(pred) =~= rest.filter(pred));
        } else {
            assert(head.drop_last() =~= Seq::<char>::empty());
            assert(head.filter(pred) =~= Seq::<char>::empty().push(s[i as int]));
            assert(Seq::<char>::empty().push(s[i as int]) + rest.filter(pred) =~= head
                + rest.filter(pred));
        }
    }
}

/// For a source text that is one decimal integer literal — a digit first,
/// then only digits and `_` separators — the token stream is exactly that
/// literal as an `IntegerLiteralDec` token whose text is the digits with the
/// separators removed, followed by the end-of-input token.
pub proof fn lemma_decimal_literal_stream(s: Seq<char>)
    requires
        s.len() > 0,
        is_dec_digit(s[0]),
        forall|k: int| 0 <= k < s.len() ==> is_dec_digit(#[trigger] s[k]) || s[k] == '_',
    ensures
        lex_from(s, 0, false) == Ok::<Seq<TokenModel>, LexErrorModel>(
            seq![
                (TokenModel {
                    kind: TokenKind::IntegerLiteralDec,
                    text: without_separators(s),
                    line: 1,
                    column: 1,
                    newline_before: false,
                }),
                eof_model(s, false),
            ],
        ),
{
    reveal(scan_token);
    reveal_with_fuel(lex_from, 3);
    lemma_num_text_strips_separators(s, 0);
    assert(s.subrange(0, s.len() as int) =~= s);
    let m = TokenModel {
        kind: TokenKind::IntegerLiteralDec,
        text: without_separators(s),
        line: 1,
        column: 1,
        newline_before: false,
    };
    assert(scan_token(s, 0) == (ScanStep::Token {
        kind: TokenKind::IntegerLiteralDec,
        text: without_separators(s),
        loc: 0,
        end: s.len(),
    }));
    assert(lex_from(s, s.len(), false) == Ok::<Seq<TokenModel>, LexErrorModel>(
        seq![eof_model(s, false)],
    ));
    assert(seq![m] + seq![eof_model(s, false)] =~= seq![m, eof_model(s, false)]);
}

/// A token scan never produces the end-of-input kind: only the end of the
/// input does.
proof fn lemma_scan_token_not_eof(s: Seq<char>, i: nat)
    requires
        i < s.len(),
    ensures
        (match scan_token(s, i) {
            ScanStep::Token { kind, .. } => kind != TokenKind::EOF,
            ScanStep::Error { .. } => true,
        }),
{
    reveal(scan_token);
}

/// Every successful tokenization ends with exactly one end-of-input token:
/// the stream's last token is `EOF` with empty text, and no earlier token is.
pub proof fn lemma_exactly_one_eof(s: Seq<char>, i: nat, nl: bool)
    requires
        i <= s.len(),
    ensures
        (match lex_from(s, i, nl) {
            Ok(toks) => {
                &&& toks.len() >= 1
                &&& toks.last().kind == TokenKind::EOF
                &&& toks.last().text == Seq::<char>::empty()
                &&& forall|k: int|
                    0 <= k < toks.len() - 1 ==> (#[trigger] toks[k]).kind != TokenKind::EOF
            },
            Err(_) => true,
        }),
    decreases s.len() - i,
{
    reveal(lex_from);
    if i >= s.len() {
    } else {
        let c = s[i as int];
        if is_space(c) {
            lemma_exactly_one_eof(s, (i + 1) as nat, nl || c == '\n');
        } else if c == '/' && i + 1 < s.len() && s[i as int + 1] == '/' {
            let le = line_end(s, i);
            let j0 = if le < s.len() { (le + 1) as nat } else { le };
            let j = if i < j0 && j0 <= s.len() { j0 } else { (i + 1) as nat };
            lemma_exactly_one_eof(s, j, nl || le < s.len());
        } else {
            lemma_scan_token_not_eof(s, i);
            match scan_token(s, i) {
                ScanStep::Error { .. } => {},
                ScanStep::Token { kind, text, loc, end } => {
                    let e = if i < end && end <= s.len() { end } else { (i + 1) as nat };
                    lemma_exactly_one_eof(s, e, false);
                },
            }
        }
    }
}

/// The longest-match-first rule: wherever two adjacent characters spell a
/// two-character operator (`==`, `=>`, `<=`, `>=`, `!=`, `..`), the scan
/// yields that single token spanning both — never the one-character operator
/// followed by a separate token.  In particular `=` before `>` is always
/// `FatArrow`, never `Equals` then `GreaterThan`.
pub proof fn lemma_operator_longest_match(s: Seq<char>, i: nat)
    requires
        i + 1 < s.len(),
        op2_kind(s[i as int], s[i as int + 1]) is Some,
    ensures
        scan_token(s, i) == op_token(s, i, op2_kind(s[i as int], s[i as int + 1])->Some_0, 2),
{
    reveal(scan_token);
}

} // verus!
