//! The lexer: source bytes to tokens.
//!
//! Identifiers are ASCII letters, digits and underscores; numbers are
//! digits with an optional fractional part; strings run to the next
//! double quote with no escapes; `//` comments run to the end of the
//! line.  Every token carries its byte span.  `lex_from` is the
//! specification; `lex` returns exactly what it says.

use vstd::prelude::*;

use crate::ast::Location;
use crate::error::ParseError;
use crate::numbers;
use crate::text;

verus! {

use vstd::string::is_ascii;
use vstd::utf8::is_ascii_chars;

/// A token kind; identifier, number and string tokens carry their value.
#[derive(Debug, PartialEq)]
pub enum TokKind {
    Ident(Vec<u8>),
    Num(u64),
    Str(Vec<u8>),
    LParen,
    RParen,
    LBrace,
    RBrace,
    Comma,
    Semi,
    Plus,
    Minus,
    Star,
    Slash,
    Percent,
    Bang,
    BangEq,
    EqEq,
    Assign,
    Lt,
    Le,
    Gt,
    Ge,
    KwNil,
    KwTrue,
    KwFalse,
    KwVar,
    KwFun,
    KwReturn,
    KwIf,
    KwElse,
    KwWhile,
    KwFor,
    KwPrint,
    KwAssert,
}

/// The spec-level form of a token kind.
pub enum TokKindV {
    Ident(Seq<u8>),
    Num(u64),
    Str(Seq<u8>),
    LParen,
    RParen,
    LBrace,
    RBrace,
    Comma,
    Semi,
    Plus,
    Minus,
    Star,
    Slash,
    Percent,
    Bang,
    BangEq,
    EqEq,
    Assign,
    Lt,
    Le,
    Gt,
    Ge,
    KwNil,
    KwTrue,
    KwFalse,
    KwVar,
    KwFun,
    KwReturn,
    KwIf,
    KwElse,
    KwWhile,
    KwFor,
    KwPrint,
    KwAssert,
}

/// A token with its byte span.
#[derive(Debug, PartialEq)]
pub struct Token {
    pub kind: TokKind,
    pub start: usize,
    pub end: usize,
}

/// The spec-level form of a token.
pub struct TokenV {
    pub kind: TokKindV,
    pub start: usize,
    pub end: usize,
}

impl View for TokKind {
    type V = TokKindV;

    open spec fn view(&self) -> TokKindV {
        match *self {
            TokKind::Ident(ref n) => TokKindV::Ident(n@),
            TokKind::Num(b) => TokKindV::Num(b),
            TokKind::Str(ref s) => TokKindV::Str(s@),
            TokKind::LParen => TokKindV::LParen,
            TokKind::RParen => TokKindV::RParen,
            TokKind::LBrace => TokKindV::LBrace,
            TokKind::RBrace => TokKindV::RBrace,
            TokKind::Comma => TokKindV::Comma,
            TokKind::Semi => TokKindV::Semi,
            TokKind::Plus => TokKindV::Plus,
            TokKind::Minus => TokKindV::Minus,
            TokKind::Star => TokKindV::Star,
            TokKind::Slash => TokKindV::Slash,
            TokKind::Percent => TokKindV::Percent,
            TokKind::Bang => TokKindV::Bang,
            TokKind::BangEq => TokKindV::BangEq,
            TokKind::EqEq => TokKindV::EqEq,
            TokKind::Assign => TokKindV::Assign,
            TokKind::Lt => TokKindV::Lt,
            TokKind::Le => TokKindV::Le,
            TokKind::Gt => TokKindV::Gt,
            TokKind::Ge => TokKindV::Ge,
            TokKind::KwNil => TokKindV::KwNil,
            TokKind::KwTrue => TokKindV::KwTrue,
            TokKind::KwFalse => TokKindV::KwFalse,
            TokKind::KwVar => TokKindV::KwVar,
            TokKind::KwFun => TokKindV::KwFun,
            TokKind::KwReturn => TokKindV::KwReturn,
            TokKind::KwIf => TokKindV::KwIf,
            TokKind::KwElse => TokKindV::KwElse,
            TokKind::KwWhile => TokKindV::KwWhile,
            TokKind::KwFor => TokKindV::KwFor,
            TokKind::KwPrint => TokKindV::KwPrint,
            TokKind::KwAssert => TokKindV::KwAssert,
        }
    }
}

impl View for Token {
    type V = TokenV;

    open spec fn view(&self) -> TokenV {
        TokenV { kind: self.kind@, start: self.start, end: self.end }
    }
}

/// The spec-level form of each token of a sequence.
pub open spec fn view_tokens(s: Seq<Token>) -> Seq<TokenV>
    decreases s,
{
    if s.len() == 0 {
        Seq::empty()
    } else {
        view_tokens(s.drop_last()).push(s.last()@)
    }
}

/// Appending a token appends its spec-level form.
pub proof fn lemma_view_tokens_push(s: Seq<Token>, x: Token)
    ensures
        view_tokens(s.push(x)) == view_tokens(s).push(x@),
{
    assert(s.push(x).drop_last() =~= s);
    assert(s.push(x).last() == x);
}

/// The spec-level form of a sequence has the same length and the
/// elements' forms.
pub proof fn lemma_view_tokens_index(s: Seq<Token>)
    ensures
        view_tokens(s).len() == s.len(),
        forall|i: int| #![trigger view_tokens(s)[i]] #![trigger s[i]@] 0 <= i < s.len() ==> view_tokens(s)[i] == s[i]@,
    decreases s,
{
    if s.len() > 0 {
        lemma_view_tokens_index(s.drop_last());
        assert forall|i: int| #![trigger view_tokens(s)[i]] #![trigger s[i]@] 0 <= i < s.len() implies view_tokens(s)[i] == s[i]@ by {
            if i < s.len() - 1 {
                assert(s.drop_last()[i] == s[i]);
            } else {
                assert(s[i] == s.last());
            }
        }
    }
}

/// Whether a byte is an ASCII digit.
pub open spec fn is_digit(b: u8) -> bool {
    48 <= b <= 57
}

/// Whether a byte starts an identifier: an ASCII letter or underscore.
pub open spec fn is_alpha(b: u8) -> bool {
    (65 <= b <= 90) || (97 <= b <= 122) || b == 95
}

/// Whether a byte continues an identifier.
pub open spec fn is_alnum(b: u8) -> bool {
    is_alpha(b) || is_digit(b)
}

/// Whether a byte is whitespace: blank, tab, newline or carriage return.
pub open spec fn is_space(b: u8) -> bool {
    b == 32 || b == 9 || b == 10 || b == 13
}

/// The first position at or after `j` holding a newline, or the end.
pub open spec fn line_end(src: Seq<u8>, j: int) -> int
    decreases src.len() - j,
{
    if j < 0 || j >= src.len() {
        src.len() as int
    } else if src[j] == 10 {
        j
    } else {
        line_end(src, j + 1)
    }
}

/// The first position at or after `j` not continuing an identifier.
pub open spec fn ident_end(src: Seq<u8>, j: int) -> int
    decreases src.len() - j,
{
    if j < 0 || j >= src.len() {
        src.len() as int
    } else if is_alnum(src[j]) {
        ident_end(src, j + 1)
    } else {
        j
    }
}

/// The first position at or after `j` holding a non-digit.
pub open spec fn digits_end(src: Seq<u8>, j: int) -> int
    decreases src.len() - j,
{
    if j < 0 || j >= src.len() {
        src.len() as int
    } else if is_digit(src[j]) {
        digits_end(src, j + 1)
    } else {
        j
    }
}

/// The end of a number token starting at `j`: digits, and a fractional
/// part only where a digit follows the dot.
pub open spec fn num_end(src: Seq<u8>, j: int) -> int {
    let ie = digits_end(src, j);
    if ie < src.len() && src[ie] == 46 && ie + 1 < src.len() && is_digit(src[ie + 1]) {
        digits_end(src, ie + 1)
    } else {
        ie
    }
}

/// The first position at or after `j` holding a double quote, or the end.
pub open spec fn quote_end(src: Seq<u8>, j: int) -> int
    decreases src.len() - j,
{
    if j < 0 || j >= src.len() {
        src.len() as int
    } else if src[j] == 34 {
        j
    } else {
        quote_end(src, j + 1)
    }
}

/// Scan positions only move forward, and never past the end.
pub proof fn lemma_scan_bounds(src: Seq<u8>, j: int)
    requires
        0 <= j <= src.len(),
    ensures
        j <= line_end(src, j) <= src.len(),
        j <= ident_end(src, j) <= src.len(),
        j <= digits_end(src, j) <= src.len(),
        j <= quote_end(src, j) <= src.len(),
    decreases src.len() - j,
{
    if j < src.len() {
        lemma_scan_bounds(src, j + 1);
    }
}

/// The number encoding a number token denotes (a literal that the
/// soft-float library will not accept yields the encoding of zero).
pub open spec fn num_token_value(lexeme: Seq<u8>) -> u64 {
    match numbers::num_parse(lexeme) {
        Option::Some(b) => b,
        Option::None => 0,
    }
}

/// The keyword a word denotes, or an identifier token.
pub open spec fn word_kind(w: Seq<u8>) -> TokKindV {
    if w == text::ascii_bytes("nil"@) {
        TokKindV::KwNil
    } else if w == text::ascii_bytes("true"@) {
        TokKindV::KwTrue
    } else if w == text::ascii_bytes("false"@) {
        TokKindV::KwFalse
    } else if w == text::ascii_bytes("var"@) {
        TokKindV::KwVar
    } else if w == text::ascii_bytes("fun"@) {
        TokKindV::KwFun
    } else if w == text::ascii_bytes("return"@) {
        TokKindV::KwReturn
    } else if w == text::ascii_bytes("if"@) {
        TokKindV::KwIf
    } else if w == text::ascii_bytes("else"@) {
        TokKindV::KwElse
    } else if w == text::ascii_bytes("while"@) {
        TokKindV::KwWhile
    } else if w == text::ascii_bytes("for"@) {
        TokKindV::KwFor
    } else if w == text::ascii_bytes("print"@) {
        TokKindV::KwPrint
    } else if w == text::ascii_bytes("assert"@) {
        TokKindV::KwAssert
    } else {
        TokKindV::Ident(w)
    }
}

/// One lexing step at position `i`.
pub enum LexStep {
    /// Nothing to scan: the end of the source.
    Done,
    /// Whitespace or a comment was skipped; scanning continues there.
    Skip(int),
    /// A token, and the position after it.
    Tok(TokenV, int),
    /// A byte sequence that is no token.
    Fail(ParseErrorV),
}

/// A spec-level parse error (the executable form carries the same data).
pub enum ParseErrorV {
    UnrecognizedToken { location: Location, expected: Seq<Seq<u8>> },
    InvalidToken { location: Location },
    UnexpectedEof { location: Location },
}

/// Classify the source at position `i`: the next token, skip, end or
/// error.
pub open spec fn next_step(src: Seq<u8>, i: int) -> LexStep {
    if i < 0 || i >= src.len() {
        LexStep::Done
    } else {
        let b = src[i];
        if is_space(b) {
            LexStep::Skip(i + 1)
        } else if b == 47 && i + 1 < src.len() && src[i + 1] == 47 {
            LexStep::Skip(line_end(src, i + 2))
        } else if b == 40 {
            LexStep::Tok(TokenV { kind: TokKindV::LParen, start: i as usize, end: (i + 1) as usize }, i + 1)
        } else if b == 41 {
            LexStep::Tok(TokenV { kind: TokKindV::RParen, start: i as usize, end: (i + 1) as usize }, i + 1)
        } else if b == 123 {
            LexStep::Tok(TokenV { kind: TokKindV::LBrace, start: i as usize, end: (i + 1) as usize }, i + 1)
        } else if b == 125 {
            LexStep::Tok(TokenV { kind: TokKindV::RBrace, start: i as usize, end: (i + 1) as usize }, i + 1)
        } else if b == 44 {
            LexStep::Tok(TokenV { kind: TokKindV::Comma, start: i as usize, end: (i + 1) as usize }, i + 1)
        } else if b == 59 {
            LexStep::Tok(TokenV { kind: TokKindV::Semi, start: i as usize, end: (i + 1) as usize }, i + 1)
        } else if b == 43 {
            LexStep::Tok(TokenV { kind: TokKindV::Plus, start: i as usize, end: (i + 1) as usize }, i + 1)
        } else if b == 45 {
            LexStep::Tok(TokenV { kind: TokKindV::Minus, start: i as usize, end: (i + 1) as usize }, i + 1)
        } else if b == 42 {
            LexStep::Tok(TokenV { kind: TokKindV::Star, start: i as usize, end: (i + 1) as usize }, i + 1)
        } else if b == 47 {
            LexStep::Tok(TokenV { kind: TokKindV::Slash, start: i as usize, end: (i + 1) as usize }, i + 1)
        } else if b == 37 {
            LexStep::Tok(TokenV { kind: TokKindV::Percent, start: i as usize, end: (i + 1) as usize }, i + 1)
        } else if b == 33 {
            if i + 1 < src.len() && src[i + 1] == 61 {
                LexStep::Tok(TokenV { kind: TokKindV::BangEq, start: i as usize, end: (i + 2) as usize }, i + 2)
            } else {
                LexStep::Tok(TokenV { kind: TokKindV::Bang, start: i as usize, end: (i + 1) as usize }, i + 1)
            }
        } else if b == 61 {
            if i + 1 < src.len() && src[i + 1] == 61 {
                LexStep::Tok(TokenV { kind: TokKindV::EqEq, start: i as usize, end: (i + 2) as usize }, i + 2)
            } else {
                LexStep::Tok(TokenV { kind: TokKindV::Assign, start: i as usize, end: (i + 1) as usize }, i + 1)
            }
        } else if b == 60 {
            if i + 1 < src.len() && src[i + 1] == 61 {
                LexStep::Tok(TokenV { kind: TokKindV::Le, start: i as usize, end: (i + 2) as usize }, i + 2)
            } else {
                LexStep::Tok(TokenV { kind: TokKindV::Lt, start: i as usize, end: (i + 1) as usize }, i + 1)
            }
        } else if b == 62 {
            if i + 1 < src.len() && src[i + 1] == 61 {
                LexStep::Tok(TokenV { kind: TokKindV::Ge, start: i as usize, end: (i + 2) as usize }, i + 2)
            } else {
                LexStep::Tok(TokenV { kind: TokKindV::Gt, start: i as usize, end: (i + 1) as usize }, i + 1)
            }
        } else if is_digit(b) {
            let ne = num_end(src, i);
            LexStep::Tok(
                TokenV {
                    kind: TokKindV::Num(num_token_value(src.subrange(i, ne))),
                    start: i as usize,
                    end: ne as usize,
                },
                ne,
            )
        } else if is_alpha(b) {
            let ie = ident_end(src, i);
            LexStep::Tok(
                TokenV { kind: word_kind(src.subrange(i, ie)), start: i as usize, end: ie as usize },
                ie,
            )
        } else if b == 34 {
            let qe = quote_end(src, i + 1);
            if qe < src.len() {
                LexStep::Tok(
                    TokenV {
                        kind: TokKindV::Str(src.subrange(i + 1, qe)),
                        start: i as usize,
                        end: (qe + 1) as usize,
                    },
                    qe + 1,
                )
            } else {
                LexStep::Fail(
                    ParseErrorV::UnexpectedEof {
                        location: Location { start: i as usize, end: src.len() as usize },
                    },
                )
            }
        } else {
            LexStep::Fail(
                ParseErrorV::InvalidToken {
                    location: Location { start: i as usize, end: (i + 1) as usize },
                },
            )
        }
    }
}

/// A step from a position inside the source moves strictly forward.
pub proof fn lemma_next_step_progress(src: Seq<u8>, i: int)
    requires
        0 <= i < src.len(),
        src.len() <= usize::MAX,
    ensures
        match next_step(src, i) {
            LexStep::Skip(j) => i < j <= src.len(),
            LexStep::Tok(t, j) => i < j <= src.len() && t.start == i && t.end == j,
            _ => true,
        },
{
    lemma_scan_bounds(src, i + 1);
    if i + 2 <= src.len() {
        lemma_scan_bounds(src, i + 2);
    }
    if is_digit(src[i]) {
        let ie = digits_end(src, i);
        lemma_scan_bounds(src, i);
        assert(digits_end(src, i) == digits_end(src, i + 1));
        if ie < src.len() && src[ie] == 46 && ie + 1 < src.len() && is_digit(src[ie + 1]) {
            lemma_scan_bounds(src, ie + 1);
        }
    }
    if is_alpha(src[i]) {
        assert(ident_end(src, i) == ident_end(src, i + 1));
    }
}

/// The tokens of the source from position `i` on.
pub open spec fn lex_from(src: Seq<u8>, i: int) -> Result<Seq<TokenV>, ParseErrorV>
    decreases src.len() - i,
{
    match next_step(src, i) {
        LexStep::Done => Result::Ok(Seq::empty()),
        LexStep::Skip(j) => if i < j <= src.len() {
            lex_from(src, j)
        } else {
            Result::Ok(Seq::empty())
        },
        LexStep::Tok(t, j) => if i < j <= src.len() {
            match lex_from(src, j) {
                Result::Ok(rest) => Result::Ok(seq![t] + rest),
                Result::Err(e) => Result::Err(e),
            }
        } else {
            Result::Ok(Seq::empty())
        },
        LexStep::Fail(e) => Result::Err(e),
    }
}

/// The tokens of a whole source text.
pub open spec fn spec_lex(src: Seq<u8>) -> Result<Seq<TokenV>, ParseErrorV> {
    lex_from(src, 0)
}


/// Whether the executable parse error realises the spec one.
pub open spec fn parse_err_matches(pe: ParseError, pv: ParseErrorV) -> bool {
    match pv {
        ParseErrorV::UnrecognizedToken { location, expected } => {
            &&& pe matches ParseError::UnrecognizedToken { location: l2, expected: e2 }
            &&& l2 == location
            &&& e2.deep_view() == expected
        },
        ParseErrorV::InvalidToken { location } => pe == (ParseError::InvalidToken { location }),
        ParseErrorV::UnexpectedEof { location } => pe == (ParseError::UnexpectedEof { location }),
    }
}

/// Copy the bytes of `src` in `[a, b)`.
fn slice_range(src: &Vec<u8>, a: usize, b: usize) -> (r: Vec<u8>)
    requires
        a <= b <= src@.len(),
    ensures
        r@ == src@.subrange(a as int, b as int),
{
    let mut out: Vec<u8> = Vec::new();
    let mut k = a;
    while k < b
        invariant
            a <= k <= b <= src@.len(),
            out@ =~= src@.subrange(a as int, k as int),
        decreases b - k,
    {
        out.push(src[k]);
        proof {
            assert(src@.subrange(a as int, k + 1) =~= src@.subrange(a as int, k as int).push(
                src@[k as int],
            ));
        }
        k = k + 1;
    }
    out
}

/// The first newline at or after `j`, or the end.
fn find_line_end(src: &Vec<u8>, j: usize) -> (r: usize)
    requires
        j <= src@.len(),
    ensures
        r as int == line_end(src@, j as int),
        j <= r <= src@.len(),
{
    proof {
        lemma_scan_bounds(src@, j as int);
    }
    let mut k = j;
    while k < src.len() && src[k] != 10
        invariant
            j <= k <= src@.len(),
            line_end(src@, j as int) == line_end(src@, k as int),
        decreases src@.len() - k,
    {
        k = k + 1;
    }
    k
}

/// The first non-identifier byte at or after `j`, or the end.
fn find_ident_end(src: &Vec<u8>, j: usize) -> (r: usize)
    requires
        j <= src@.len(),
    ensures
        r as int == ident_end(src@, j as int),
        j <= r <= src@.len(),
{
    proof {
        lemma_scan_bounds(src@, j as int);
    }
    let mut k = j;
    while k < src.len() && ((65 <= src[k] && src[k] <= 90) || (97 <= src[k] && src[k] <= 122)
        || src[k] == 95 || (48 <= src[k] && src[k] <= 57))
        invariant
            j <= k <= src@.len(),
            ident_end(src@, j as int) == ident_end(src@, k as int),
        decreases src@.len() - k,
    {
        k = k + 1;
    }
    k
}

/// The first non-digit at or after `j`, or the end.
fn find_digits_end(src: &Vec<u8>, j: usize) -> (r: usize)
    requires
        j <= src@.len(),
    ensures
        r as int == digits_end(src@, j as int),
        j <= r <= src@.len(),
{
    proof {
        lemma_scan_bounds(src@, j as int);
    }
    let mut k = j;
    while k < src.len() && 48 <= src[k] && src[k] <= 57
        invariant
            j <= k <= src@.len(),
            digits_end(src@, j as int) == digits_end(src@, k as int),
        decreases src@.len() - k,
    {
        k = k + 1;
    }
    k
}

/// The first double quote at or after `j`, or the end.
fn find_quote_end(src: &Vec<u8>, j: usize) -> (r: usize)
    requires
        j <= src@.len(),
    ensures
        r as int == quote_end(src@, j as int),
        j <= r <= src@.len(),
{
    proof {
        lemma_scan_bounds(src@, j as int);
    }
    let mut k = j;
    while k < src.len() && src[k] != 34
        invariant
            j <= k <= src@.len(),
            quote_end(src@, j as int) == quote_end(src@, k as int),
        decreases src@.len() - k,
    {
        k = k + 1;
    }
    k
}

/// The keyword a word denotes, or an identifier token holding it.
fn keyword_kind(w: Vec<u8>) -> (k: TokKind)
    ensures
        k@ == word_kind(w@),
{
    proof {
        reveal_strlit("nil");
        assert(is_ascii_chars("nil"@));
        reveal_strlit("true");
        assert(is_ascii_chars("true"@));
        reveal_strlit("false");
        assert(is_ascii_chars("false"@));
        reveal_strlit("var");
        assert(is_ascii_chars("var"@));
        reveal_strlit("fun");
        assert(is_ascii_chars("fun"@));
        reveal_strlit("return");
        assert(is_ascii_chars("return"@));
        reveal_strlit("if");
        assert(is_ascii_chars("if"@));
        reveal_strlit("else");
        assert(is_ascii_chars("else"@));
        reveal_strlit("while");
        assert(is_ascii_chars("while"@));
        reveal_strlit("for");
        assert(is_ascii_chars("for"@));
        reveal_strlit("print");
        assert(is_ascii_chars("print"@));
        reveal_strlit("assert");
        assert(is_ascii_chars("assert"@));
    }
    if text::bytes_eq(&w, &text::lit("nil")) {
        TokKind::KwNil
    } else if text::bytes_eq(&w, &text::lit("true")) {
        TokKind::KwTrue
    } else if text::bytes_eq(&w, &text::lit("false")) {
        TokKind::KwFalse
    } else if text::bytes_eq(&w, &text::lit("var")) {
        TokKind::KwVar
    } else if text::bytes_eq(&w, &text::lit("fun")) {
        TokKind::KwFun
    } else if text::bytes_eq(&w, &text::lit("return")) {
        TokKind::KwReturn
    } else if text::bytes_eq(&w, &text::lit("if")) {
        TokKind::KwIf
    } else if text::bytes_eq(&w, &text::lit("else")) {
        TokKind::KwElse
    } else if text::bytes_eq(&w, &text::lit("while")) {
        TokKind::KwWhile
    } else if text::bytes_eq(&w, &text::lit("for")) {
        TokKind::KwFor
    } else if text::bytes_eq(&w, &text::lit("print")) {
        TokKind::KwPrint
    } else if text::bytes_eq(&w, &text::lit("assert")) {
        TokKind::KwAssert
    } else {
        TokKind::Ident(w)
    }
}

/// Tokenise a source text, exactly as `spec_lex` says.
pub fn lex(src: &Vec<u8>) -> (r: Result<Vec<Token>, ParseError>)
    ensures
        match r {
            Result::Ok(toks) => spec_lex(src@) == Result::<Seq<TokenV>, ParseErrorV>::Ok(
                view_tokens(toks@),
            ) && tokens_ok(view_tokens(toks@), src@.len() as int),
            Result::Err(pe) => spec_lex(src@) matches Result::Err(pv) && parse_err_matches(pe, pv),
        },
{
    proof {
        assert(src@.len() == src.len());
        lemma_lex_wf(src@, 0);
    }
    let mut toks: Vec<Token> = Vec::new();
    let mut pos: usize = 0;
    while pos < src.len()
        invariant
            pos <= src@.len(),
            spec_lex(src@) == (match lex_from(src@, pos as int) {
                Result::Ok(rest) => Result::<Seq<TokenV>, ParseErrorV>::Ok(
                    view_tokens(toks@) + rest,
                ),
                Result::Err(e) => Result::<Seq<TokenV>, ParseErrorV>::Err(e),
            }),
        decreases src@.len() - pos,
    {
        proof {
            lemma_next_step_progress(src@, pos as int);
        }
        let ghost old_toks = toks@;
        let b = src[pos];
        let step: Option<(Token, usize)>;
        if b == 32 || b == 9 || b == 10 || b == 13 {
            pos = pos + 1;
            continue ;
        } else if b == 47 && pos + 1 < src.len() && src[pos + 1] == 47 {
            pos = find_line_end(src, pos + 2);
            continue ;
        } else if b == 40 {
            step = Option::Some((Token { kind: TokKind::LParen, start: pos, end: pos + 1 }, pos + 1));
        } else if b == 41 {
            step = Option::Some((Token { kind: TokKind::RParen, start: pos, end: pos + 1 }, pos + 1));
        } else if b == 123 {
            step = Option::Some((Token { kind: TokKind::LBrace, start: pos, end: pos + 1 }, pos + 1));
        } else if b == 125 {
            step = Option::Some((Token { kind: TokKind::RBrace, start: pos, end: pos + 1 }, pos + 1));
        } else if b == 44 {
            step = Option::Some((Token { kind: TokKind::Comma, start: pos, end: pos + 1 }, pos + 1));
        } else if b == 59 {
            step = Option::Some((Token { kind: TokKind::Semi, start: pos, end: pos + 1 }, pos + 1));
        } else if b == 43 {
            step = Option::Some((Token { kind: TokKind::Plus, start: pos, end: pos + 1 }, pos + 1));
        } else if b == 45 {
            step = Option::Some((Token { kind: TokKind::Minus, start: pos, end: pos + 1 }, pos + 1));
        } else if b == 42 {
            step = Option::Some((Token { kind: TokKind::Star, start: pos, end: pos + 1 }, pos + 1));
        } else if b == 47 {
            step = Option::Some((Token { kind: TokKind::Slash, start: pos, end: pos + 1 }, pos + 1));
        } else if b == 37 {
            step = Option::Some((Token { kind: TokKind::Percent, start: pos, end: pos + 1 }, pos + 1));
        } else if b == 33 {
            if pos + 1 < src.len() && src[pos + 1] == 61 {
                step = Option::Some((Token { kind: TokKind::BangEq, start: pos, end: pos + 2 }, pos + 2));
            } else {
                step = Option::Some((Token { kind: TokKind::Bang, start: pos, end: pos + 1 }, pos + 1));
            }
        } else if b == 61 {
            if pos + 1 < src.len() && src[pos + 1] == 61 {
                step = Option::Some((Token { kind: TokKind::EqEq, start: pos, end: pos + 2 }, pos + 2));
            } else {
                step = Option::Some((Token { kind: TokKind::Assign, start: pos, end: pos + 1 }, pos + 1));
            }
        } else if b == 60 {
            if pos + 1 < src.len() && src[pos + 1] == 61 {
                step = Option::Some((Token { kind: TokKind::Le, start: pos, end: pos + 2 }, pos + 2));
            } else {
                step = Option::Some((Token { kind: TokKind::Lt, start: pos, end: pos + 1 }, pos + 1));
            }
        } else if b == 62 {
            if pos + 1 < src.len() && src[pos + 1] == 61 {
                step = Option::Some((Token { kind: TokKind::Ge, start: pos, end: pos + 2 }, pos + 2));
            } else {
                step = Option::Some((Token { kind: TokKind::Gt, start: pos, end: pos + 1 }, pos + 1));
            }
        } else if 48 <= b && b <= 57 {
            let ie = find_digits_end(src, pos);
            let ne: usize;
            if ie < src.len() && src[ie] == 46 && ie + 1 < src.len() && 48 <= src[ie + 1]
                && src[ie + 1] <= 57 {
                ne = find_digits_end(src, ie + 1);
            } else {
                ne = ie;
            }
            let lexeme = slice_range(src, pos, ne);
            let bits = match numbers::fl_parse(&lexeme) {
                Option::Some(v) => v,
                Option::None => 0,
            };
            step = Option::Some((Token { kind: TokKind::Num(bits), start: pos, end: ne }, ne));
        } else if (65 <= b && b <= 90) || (97 <= b && b <= 122) || b == 95 {
            let ie = find_ident_end(src, pos);
            let word = slice_range(src, pos, ie);
            let kind = keyword_kind(word);
            step = Option::Some((Token { kind, start: pos, end: ie }, ie));
        } else if b == 34 {
            let qe = find_quote_end(src, pos + 1);
            if qe < src.len() {
                let content = slice_range(src, pos + 1, qe);
                step = Option::Some(
                    (Token { kind: TokKind::Str(content), start: pos, end: qe + 1 }, qe + 1),
                );
            } else {
                return Result::Err(
                    ParseError::UnexpectedEof {
                        location: Location { start: pos, end: src.len() },
                    },
                );
            }
        } else {
            return Result::Err(
                ParseError::InvalidToken { location: Location { start: pos, end: pos + 1 } },
            );
        }
        match step {
            Option::Some((tok, next)) => {
                proof {
                    lemma_view_tokens_push(toks@, tok);
                }
                let ghost t_v = tok@;
                toks.push(tok);
                proof {
                    match lex_from(src@, next as int) {
                        Result::Ok(rest) => {
                            assert(view_tokens(old_toks) + (seq![t_v] + rest) =~= view_tokens(
                                toks@,
                            ) + rest);
                        }
                        Result::Err(_) => {}
                    }
                }
                pos = next;
            }
            Option::None => {
                proof {
                    assert(false);
                }
            }
        }
    }
    proof {
        assert(view_tokens(toks@) + Seq::<TokenV>::empty() =~= view_tokens(toks@));
    }
    Result::Ok(toks)
}


/// Well-formed token spans: each within the source with start before
/// end, and the tokens in source order.
pub open spec fn tokens_ok(ts: Seq<TokenV>, n: int) -> bool {
    &&& forall|k: int| 0 <= k < ts.len() ==> (#[trigger] ts[k].start) <= ts[k].end <= n
    &&& forall|k: int| 0 <= k < ts.len() - 1 ==> (#[trigger] ts[k].end) <= ts[k + 1].start
}

/// The tokens of a well-lexed suffix have well-formed, ordered spans,
/// all starting at or after the scan position.
pub proof fn lemma_lex_wf(src: Seq<u8>, i: int)
    requires
        0 <= i <= src.len(),
        src.len() <= usize::MAX,
    ensures
        match lex_from(src, i) {
            Result::Ok(toks) => tokens_ok(toks, src.len() as int) && (forall|k: int|
                0 <= k < toks.len() ==> i <= (#[trigger] toks[k].start)),
            Result::Err(_) => true,
        },
    decreases src.len() - i,
{
    if i < src.len() {
        lemma_next_step_progress(src, i);
        match next_step(src, i) {
            LexStep::Skip(j) => {
                lemma_lex_wf(src, j);
            }
            LexStep::Tok(t, j) => {
                lemma_lex_wf(src, j);
                match lex_from(src, j) {
                    Result::Ok(rest) => {
                        let toks = seq![t] + rest;
                        assert forall|k: int| 0 <= k < toks.len() implies (
                        #[trigger] toks[k].start) <= toks[k].end <= src.len() as int by {
                            if k > 0 {
                                assert(toks[k] == rest[k - 1]);
                                assert(rest[k - 1].start <= rest[k - 1].end <= src.len() as int);
                            }
                        }
                        assert forall|k: int| 0 <= k < toks.len() - 1 implies (
                        #[trigger] toks[k].end) <= toks[k + 1].start by {
                            if k == 0 {
                                assert(toks[1] == rest[0]);
                                assert(j <= rest[0].start);
                            } else {
                                assert(toks[k] == rest[k - 1]);
                                assert(toks[k + 1] == rest[k]);
                                assert(rest[k - 1].end <= rest[k].start);
                            }
                        }
                        assert forall|k: int| 0 <= k < toks.len() implies i <= (
                        #[trigger] toks[k].start) by {
                            if k > 0 {
                                assert(toks[k] == rest[k - 1]);
                                assert(j <= rest[k - 1].start);
                            }
                        }
                    }
                    Result::Err(_) => {}
                }
            }
            _ => {}
        }
    }
}

} // verus!
