//! Turns equation source text into tokens.
//!
//! Whitespace other than line breaks is skipped, `// ...` comments run to the
//! end of the line and `{ ... }` comments may span lines. A bracketed unit
//! annotation such as `[kg/m^3]` becomes one token holding the text between
//! the brackets.
use vstd::prelude::*;
use crate::diagnostic::{diag, diags_view, Diagnostic, Position, Span, SpecDiagnostic};
use crate::text::{
    chars_of, is_alnum, is_alnum_char, is_alpha, is_alpha_char, is_digit, is_digit_char,
    push_char, string_from_chars,
};

verus! {

broadcast use vstd::string::group_string_axioms;

#[derive(Debug, Clone, PartialEq)]
pub enum TokenKind {
    Identifier(String),
    Number(String),
    StringLiteral(String),
    UnitAnnotation(String),
    Equal,
    Plus,
    Minus,
    Star,
    Slash,
    Caret,
    LParen,
    RParen,
    Comma,
    Newline,
    Eof,
}

#[derive(Debug, Clone, PartialEq)]
pub struct Token {
    pub kind: TokenKind,
    pub span: Span,
}

/// A token kind with its text as a character sequence.
pub enum SpecTokenKind {
    Identifier(Seq<char>),
    Number(Seq<char>),
    StringLiteral(Seq<char>),
    UnitAnnotation(Seq<char>),
    Equal,
    Plus,
    Minus,
    Star,
    Slash,
    Caret,
    LParen,
    RParen,
    Comma,
    Newline,
    Eof,
}

pub struct SpecToken {
    pub kind: SpecTokenKind,
    pub span: Span,
}

impl View for TokenKind {
    type V = SpecTokenKind;

    open spec fn view(&self) -> SpecTokenKind {
        match self {
            TokenKind::Identifier(s) => SpecTokenKind::Identifier(s@),
            TokenKind::Number(s) => SpecTokenKind::Number(s@),
            TokenKind::StringLiteral(s) => SpecTokenKind::StringLiteral(s@),
            TokenKind::UnitAnnotation(s) => SpecTokenKind::UnitAnnotation(s@),
            TokenKind::Equal => SpecTokenKind::Equal,
            TokenKind::Plus => SpecTokenKind::Plus,
            TokenKind::Minus => SpecTokenKind::Minus,
            TokenKind::Star => SpecTokenKind::Star,
            TokenKind::Slash => SpecTokenKind::Slash,
            TokenKind::Caret => SpecTokenKind::Caret,
            TokenKind::LParen => SpecTokenKind::LParen,
            TokenKind::RParen => SpecTokenKind::RParen,
            TokenKind::Comma => SpecTokenKind::Comma,
            TokenKind::Newline => SpecTokenKind::Newline,
            TokenKind::Eof => SpecTokenKind::Eof,
        }
    }
}

impl View for Token {
    type V = SpecToken;

    open spec fn view(&self) -> SpecToken {
        SpecToken { kind: self.kind@, span: self.span }
    }
}

pub open spec fn tokens_view(ts: Seq<Token>) -> Seq<SpecToken> {
    ts.map_values(|t: Token| t@)
}

// ---------------------------------------------------------------------------
// Positions of character indices
// ---------------------------------------------------------------------------

/// Bytes that a character takes in UTF-8.
pub open spec fn utf8_width(c: char) -> int {
    if (c as u32) < 0x80 {
        1
    } else if (c as u32) < 0x800 {
        2
    } else if (c as u32) < 0x10000 {
        3
    } else {
        4
    }
}

/// Line (1-based) of the character at index `i`.
pub open spec fn line_at(s: Seq<char>, i: int) -> int
    decreases i,
{
    if i <= 0 {
        1
    } else if s[i - 1] == '\n' {
        line_at(s, i - 1) + 1
    } else {
        line_at(s, i - 1)
    }
}

/// Column (1-based) of the character at index `i`.
pub open spec fn column_at(s: Seq<char>, i: int) -> int
    decreases i,
{
    if i <= 0 {
        1
    } else if s[i - 1] == '\n' {
        1
    } else {
        column_at(s, i - 1) + 1
    }
}

/// Byte offset of the character at index `i`.
pub open spec fn offset_at(s: Seq<char>, i: int) -> int
    decreases i,
{
    if i <= 0 {
        0
    } else {
        offset_at(s, i - 1) + utf8_width(s[i - 1])
    }
}

pub open spec fn position_at(s: Seq<char>, i: int) -> Position {
    Position {
        line: line_at(s, i) as usize,
        column: column_at(s, i) as usize,
        offset: offset_at(s, i) as usize,
    }
}

pub open spec fn span_at(s: Seq<char>, i: int, j: int) -> Span {
    Span { start: position_at(s, i), end: position_at(s, j) }
}

pub proof fn lemma_encode_utf8_append(a: Seq<char>, b: Seq<char>)
    ensures
        vstd::utf8::encode_utf8(a + b) =~= vstd::utf8::encode_utf8(a) + vstd::utf8::encode_utf8(b),
    decreases a.len(),
{
    if a.len() == 0 {
        assert(a + b =~= b);
    } else {
        lemma_encode_utf8_append(a.drop_first(), b);
        assert((a + b).drop_first() =~= a.drop_first() + b);
    }
}

pub proof fn lemma_encode_utf8_single(c: char)
    ensures
        vstd::utf8::encode_utf8(seq![c]).len() == utf8_width(c),
{
    assert(seq![c].drop_first() =~= Seq::<char>::empty());
    vstd::utf8::char_is_scalar(c);
    assert(vstd::utf8::encode_utf8(Seq::<char>::empty()) =~= Seq::<u8>::empty());
    assert(vstd::utf8::encode_utf8(seq![c]) =~= vstd::utf8::encode_scalar(c as u32));
}

/// The offset of index `i` is the UTF-8 length of the characters before it,
/// and line and column never exceed `i + 1`.
pub proof fn lemma_position_bounds(s: Seq<char>, i: int)
    requires
        0 <= i <= s.len(),
    ensures
        offset_at(s, i) == vstd::utf8::encode_utf8(s.take(i)).len(),
        i <= offset_at(s, i),
        1 <= line_at(s, i) <= i + 1,
        1 <= column_at(s, i) <= i + 1,
    decreases i,
{
    if i > 0 {
        lemma_position_bounds(s, i - 1);
        assert(s.take(i) =~= s.take(i - 1) + seq![s[i - 1]]);
        lemma_encode_utf8_append(s.take(i - 1), seq![s[i - 1]]);
        lemma_encode_utf8_single(s[i - 1]);
    } else {
        assert(s.take(0) =~= Seq::<char>::empty());
    }
}

pub proof fn lemma_utf8_prefix_len(s: Seq<char>, i: int)
    requires
        0 <= i <= s.len(),
    ensures
        vstd::utf8::encode_utf8(s.take(i)).len() <= vstd::utf8::encode_utf8(s).len(),
{
    assert(s =~= s.take(i) + s.skip(i));
    lemma_encode_utf8_append(s.take(i), s.skip(i));
}

// ---------------------------------------------------------------------------
// The token grammar
// ---------------------------------------------------------------------------

pub proof fn lemma_subrange_push(s: Seq<char>, i: int, j: int)
    requires
        0 <= i <= j < s.len(),
    ensures
        s.subrange(i, j + 1) == s.subrange(i, j).push(s[j]),
{
    let a = s.subrange(i, j + 1);
    let b = s.subrange(i, j).push(s[j]);
    assert forall|k: int| 0 <= k < a.len() implies a[k] == b[k] by {}
    assert(a =~= b);
}

pub open spec fn is_identifier_start_char(c: char) -> bool {
    is_alpha_char(c) || c == '_'
}

pub open spec fn is_identifier_continue_char(c: char) -> bool {
    is_alnum_char(c) || c == '_'
}

/// Whether `c` may begin an identifier: a letter or an underscore.
pub fn is_identifier_start(c: char) -> (b: bool)
    ensures
        b == is_identifier_start_char(c),
{
    is_alpha(c) || c == '_'
}

/// Whether `c` may continue an identifier: a letter, a digit or an
/// underscore.
pub fn is_identifier_continue(c: char) -> (b: bool)
    ensures
        b == is_identifier_continue_char(c),
{
    is_alnum(c) || c == '_'
}

/// First index at or after `i` that holds no digit.
pub open spec fn digits_end(s: Seq<char>, i: int) -> int
    decreases s.len() - i,
{
    if 0 <= i < s.len() && is_digit_char(s[i]) {
        digits_end(s, i + 1)
    } else {
        i
    }
}

/// First index at or after `i` that cannot continue an identifier.
pub open spec fn identifier_end(s: Seq<char>, i: int) -> int
    decreases s.len() - i,
{
    if 0 <= i < s.len() && is_identifier_continue_char(s[i]) {
        identifier_end(s, i + 1)
    } else {
        i
    }
}

/// First index at or after `i` that holds one of `a`, `b`, or the end.
pub open spec fn find_either(s: Seq<char>, i: int, a: char, b: char) -> int
    decreases s.len() - i,
{
    if 0 <= i < s.len() && s[i] != a && s[i] != b {
        find_either(s, i + 1, a, b)
    } else {
        i
    }
}

pub proof fn lemma_digits_end(s: Seq<char>, i: int)
    requires
        0 <= i,
    ensures
        i <= digits_end(s, i),
        i <= s.len() ==> digits_end(s, i) <= s.len(),
        digit_at(s, i) ==> i < digits_end(s, i),
    decreases s.len() - i,
{
    if 0 <= i < s.len() && is_digit_char(s[i]) {
        lemma_digits_end(s, i + 1);
    }
}

pub proof fn lemma_identifier_end(s: Seq<char>, i: int)
    requires
        0 <= i,
    ensures
        i <= identifier_end(s, i),
        i <= s.len() ==> identifier_end(s, i) <= s.len(),
        0 <= i < s.len() && is_identifier_continue_char(s[i]) ==> i < identifier_end(s, i),
    decreases s.len() - i,
{
    if 0 <= i < s.len() && is_identifier_continue_char(s[i]) {
        lemma_identifier_end(s, i + 1);
    }
}

pub proof fn lemma_find_either(s: Seq<char>, i: int, a: char, b: char)
    requires
        0 <= i,
    ensures
        i <= find_either(s, i, a, b),
        i <= s.len() ==> find_either(s, i, a, b) <= s.len(),
        find_either(s, i, a, b) < s.len() ==> (s[find_either(s, i, a, b)] == a || s[find_either(
            s,
            i,
            a,
            b,
        )] == b),
        forall|k: int| i <= k < find_either(s, i, a, b) ==> s[k] != a && s[k] != b,
    decreases s.len() - i,
{
    if 0 <= i < s.len() && s[i] != a && s[i] != b {
        lemma_find_either(s, i + 1, a, b);
    }
}

pub open spec fn char_at_is(s: Seq<char>, i: int, c: char) -> bool {
    0 <= i < s.len() && s[i] == c
}

pub open spec fn digit_at(s: Seq<char>, i: int) -> bool {
    0 <= i < s.len() && is_digit_char(s[i])
}

/// End of the fraction part of a number whose integer digits end at `j`.
pub open spec fn fraction_end(s: Seq<char>, j: int) -> int {
    if char_at_is(s, j, '.') && digit_at(s, j + 1) {
        digits_end(s, j + 1)
    } else {
        j
    }
}

pub open spec fn exponent_mark_at(s: Seq<char>, k: int) -> bool {
    char_at_is(s, k, 'e') || char_at_is(s, k, 'E')
}

pub open spec fn sign_at(s: Seq<char>, k: int) -> bool {
    char_at_is(s, k, '+') || char_at_is(s, k, '-')
}

/// End of the exponent part of a number whose mantissa ends at `k`.
pub open spec fn exponent_end(s: Seq<char>, k: int) -> int {
    if exponent_mark_at(s, k) && digit_at(s, k + 1) {
        digits_end(s, k + 1)
    } else if exponent_mark_at(s, k) && sign_at(s, k + 1) && digit_at(s, k + 2) {
        digits_end(s, k + 2)
    } else {
        k
    }
}

/// End of the number that starts with a digit at `i`.
pub open spec fn number_end(s: Seq<char>, i: int) -> int {
    exponent_end(s, fraction_end(s, digits_end(s, i)))
}

pub proof fn lemma_number_end(s: Seq<char>, i: int)
    requires
        0 <= i < s.len(),
        is_digit_char(s[i]),
    ensures
        i < digits_end(s, i) <= fraction_end(s, digits_end(s, i)) <= number_end(s, i) <= s.len(),
{
    lemma_digits_end(s, i);
    let j = digits_end(s, i);
    if char_at_is(s, j, '.') && digit_at(s, j + 1) {
        lemma_digits_end(s, j + 1);
    }
    let k = fraction_end(s, j);
    if exponent_mark_at(s, k) && digit_at(s, k + 1) {
        lemma_digits_end(s, k + 1);
    } else if exponent_mark_at(s, k) && sign_at(s, k + 1) && digit_at(s, k + 2) {
        lemma_digits_end(s, k + 2);
    }
}

pub open spec fn tok(kind: SpecTokenKind, span: Span) -> SpecToken {
    SpecToken { kind, span }
}

pub type LexOutcome = (Seq<SpecToken>, Seq<SpecDiagnostic>);

pub open spec fn with_token(t: SpecToken, rest: LexOutcome) -> LexOutcome {
    (seq![t] + rest.0, rest.1)
}

pub open spec fn with_diag(d: SpecDiagnostic, rest: LexOutcome) -> LexOutcome {
    (rest.0, seq![d] + rest.1)
}

pub open spec fn single_char_kind(c: char) -> Option<SpecTokenKind> {
    if c == '=' {
        Some(SpecTokenKind::Equal)
    } else if c == '+' {
        Some(SpecTokenKind::Plus)
    } else if c == '-' {
        Some(SpecTokenKind::Minus)
    } else if c == '*' {
        Some(SpecTokenKind::Star)
    } else if c == '^' {
        Some(SpecTokenKind::Caret)
    } else if c == '(' {
        Some(SpecTokenKind::LParen)
    } else if c == ')' {
        Some(SpecTokenKind::RParen)
    } else if c == ',' {
        Some(SpecTokenKind::Comma)
    } else {
        None
    }
}

pub open spec fn unexpected_message(c: char) -> Seq<char> {
    "Unexpected character '"@ + seq![c] + "'"@
}

/// The tokens and diagnostics for the input from character index `i` on.
pub open spec fn lex_from(s: Seq<char>, i: int) -> LexOutcome
    decreases s.len() - i, 0int,
{
    if i < 0 || i >= s.len() {
        (seq![tok(SpecTokenKind::Eof, span_at(s, s.len() as int, s.len() as int))], seq![])
    } else {
        let c = s[i];
        proof {
            lemma_find_either(s, i + 1, '}', '}');
            lemma_find_either(s, i + 2, '\n', '\n');
            lemma_find_either(s, i + 1, '"', '\n');
            lemma_find_either(s, i + 1, ']', '\n');
            if is_digit_char(c) {
                lemma_number_end(s, i);
            }
            lemma_identifier_end(s, i);
        }
        if c == ' ' || c == '\t' || c == '\r' {
            lex_from(s, i + 1)
        } else if c == '\n' {
            with_token(tok(SpecTokenKind::Newline, span_at(s, i, i + 1)), lex_from(s, i + 1))
        } else if c == '/' {
            if char_at_is(s, i + 1, '/') {
                lex_from(s, find_either(s, i + 2, '\n', '\n'))
            } else {
                with_token(tok(SpecTokenKind::Slash, span_at(s, i, i + 1)), lex_from(s, i + 1))
            }
        } else if c == '{' {
            let k = find_either(s, i + 1, '}', '}');
            if k < s.len() {
                lex_from(s, k + 1)
            } else {
                with_diag(
                    diag("Unterminated block comment"@, span_at(s, i, s.len() as int)),
                    lex_from(s, s.len() as int),
                )
            }
        } else if single_char_kind(c).is_some() {
            with_token(tok(single_char_kind(c).unwrap(), span_at(s, i, i + 1)), lex_from(s, i + 1))
        } else if c == '"' {
            let j = find_either(s, i + 1, '"', '\n');
            if char_at_is(s, j, '"') {
                with_token(
                    tok(SpecTokenKind::StringLiteral(s.subrange(i + 1, j)), span_at(s, i, j + 1)),
                    lex_from(s, j + 1),
                )
            } else {
                with_diag(diag("Unterminated string literal"@, span_at(s, i, j)), lex_from(s, j))
            }
        } else if c == '[' {
            let j = find_either(s, i + 1, ']', '\n');
            if char_at_is(s, j, ']') {
                with_token(
                    tok(SpecTokenKind::UnitAnnotation(s.subrange(i + 1, j)), span_at(s, i, j + 1)),
                    lex_from(s, j + 1),
                )
            } else {
                with_diag(diag("Unterminated unit annotation"@, span_at(s, i, j)), lex_from(s, j))
            }
        } else if is_digit_char(c) {
            let e = number_end(s, i);
            with_token(tok(SpecTokenKind::Number(s.subrange(i, e)), span_at(s, i, e)), lex_from(s, e))
        } else if is_identifier_start_char(c) {
            let e = identifier_end(s, i);
            with_token(
                tok(SpecTokenKind::Identifier(s.subrange(i, e)), span_at(s, i, e)),
                lex_from(s, e),
            )
        } else {
            with_diag(diag(unexpected_message(c), span_at(s, i, i + 1)), lex_from(s, i + 1))
        }
    }
}

pub proof fn lemma_lex_from_ends_with_eof(s: Seq<char>, i: int)
    ensures
        lex_from(s, i).0.len() > 0,
        lex_from(s, i).0.last().kind is Eof,
    decreases s.len() - i, 0int,
{
    if 0 <= i < s.len() {
        let c = s[i];
        lemma_find_either(s, i + 1, '}', '}');
        lemma_find_either(s, i + 2, '\n', '\n');
        lemma_find_either(s, i + 1, '"', '\n');
        lemma_find_either(s, i + 1, ']', '\n');
        lemma_identifier_end(s, i);
        if is_digit_char(c) {
            lemma_number_end(s, i);
            lemma_lex_from_ends_with_eof(s, number_end(s, i));
        }
        if is_identifier_start_char(c) {
            lemma_lex_from_ends_with_eof(s, identifier_end(s, i));
        }
        lemma_lex_from_ends_with_eof(s, i + 1);
        if char_at_is(s, i + 1, '/') {
            lemma_lex_from_ends_with_eof(s, find_either(s, i + 2, '\n', '\n'));
        }
        lemma_lex_from_ends_with_eof(s, s.len() as int);
        let k = find_either(s, i + 1, '}', '}');
        if k < s.len() {
            lemma_lex_from_ends_with_eof(s, k + 1);
        }
        let j = find_either(s, i + 1, '"', '\n');
        lemma_lex_from_ends_with_eof(s, j);
        if j < s.len() {
            lemma_lex_from_ends_with_eof(s, j + 1);
        }
        let j2 = find_either(s, i + 1, ']', '\n');
        lemma_lex_from_ends_with_eof(s, j2);
        if j2 < s.len() {
            lemma_lex_from_ends_with_eof(s, j2 + 1);
        }
    }
}

/// Lexing succeeds only with a token list that ends with `Eof`.
pub proof fn lemma_lex_ends_with_eof(s: Seq<char>)
    ensures
        lex_spec(s) matches Ok(t) ==> t.len() > 0 && t.last().kind is Eof,
{
    lemma_lex_from_ends_with_eof(s, 0);
}

/// What lexing the whole input gives: the tokens, or the diagnostics when
/// there are any.
pub open spec fn lex_spec(s: Seq<char>) -> Result<Seq<SpecToken>, Seq<SpecDiagnostic>> {
    let r = lex_from(s, 0);
    if r.1.len() == 0 {
        Ok(r.0)
    } else {
        Err(r.1)
    }
}

} // verus!

verus! {

// ---------------------------------------------------------------------------
// The lexer
// ---------------------------------------------------------------------------

/// Lexes the whole input: the tokens, ending with `Eof`, or every
/// diagnostic found when there is any.
pub fn lex(input: &str) -> (r: Result<Vec<Token>, Vec<Diagnostic>>)
    requires
        input@.len() < usize::MAX,
    ensures
        match r {
            Ok(ts) => lex_spec(input@) == Ok::<Seq<SpecToken>, Seq<SpecDiagnostic>>(
                tokens_view(ts@),
            ),
            Err(ds) => lex_spec(input@) == Err::<Seq<SpecToken>, Seq<SpecDiagnostic>>(
                diags_view(ds@),
            ),
        },
{
    let mut lexer = Lexer::new(input);
    lexer.lex_all();
    if lexer.diagnostics.len() == 0 {
        Ok(lexer.tokens)
    } else {
        Err(lexer.diagnostics)
    }
}

spec fn pushed_diag(before: Seq<Diagnostic>, after: Seq<Diagnostic>, d: SpecDiagnostic) -> bool {
    &&& after.len() == before.len() + 1
    &&& after.drop_last() =~= before
    &&& after.last()@ == d
}

spec fn pushed_token(before: Seq<Token>, after: Seq<Token>, t: SpecToken) -> bool {
    &&& after.len() == before.len() + 1
    &&& after.drop_last() =~= before
    &&& after.last()@ == t
}

proof fn lemma_pushed_diag(before: Seq<Diagnostic>, after: Seq<Diagnostic>, d: SpecDiagnostic)
    requires
        pushed_diag(before, after, d),
    ensures
        diags_view(after) =~= diags_view(before).push(d),
{
    assert(after =~= before.push(after.last()));
}

proof fn lemma_pushed_token(before: Seq<Token>, after: Seq<Token>, t: SpecToken)
    requires
        pushed_token(before, after, t),
    ensures
        tokens_view(after) =~= tokens_view(before).push(t),
{
    assert(after =~= before.push(after.last()));
}

struct Lexer {
    chars: Vec<char>,
    index: usize,
    line: usize,
    column: usize,
    offset: usize,
    tokens: Vec<Token>,
    diagnostics: Vec<Diagnostic>,
}

impl Lexer {
    spec fn s(&self) -> Seq<char> {
        self.chars@
    }

    /// The cursor stands at a character index and knows its position.
    spec fn wf(&self) -> bool {
        &&& self.index <= self.chars.len()
        &&& self.chars.len() < usize::MAX
        &&& vstd::utf8::encode_utf8(self.chars@).len() <= usize::MAX
        &&& self.line == line_at(self.chars@, self.index as int)
        &&& self.column == column_at(self.chars@, self.index as int)
        &&& self.offset == offset_at(self.chars@, self.index as int)
    }

    /// Tokens and diagnostics so far, followed by what the rest of the
    /// input gives, are what the whole input gives.
    spec fn on_track(&self) -> bool {
        &&& tokens_view(self.tokens@) + lex_from(self.chars@, self.index as int).0 =~= lex_from(
            self.chars@,
            0,
        ).0
        &&& diags_view(self.diagnostics@) + lex_from(self.chars@, self.index as int).1
            =~= lex_from(self.chars@, 0).1
    }

    fn new(input: &str) -> (l: Self)
        requires
            input@.len() < usize::MAX,
        ensures
            l.wf(),
            l.chars@ == input@,
            l.index == 0,
            l.tokens@.len() == 0,
            l.diagnostics@.len() == 0,
    {
        let bytes = input.as_bytes();
        let n = bytes.len();
        let chars = chars_of(input);
        proof {
            vstd::slice::axiom_spec_len(bytes);
        }
        Lexer {
            chars,
            index: 0,
            line: 1,
            column: 1,
            offset: 0,
            tokens: Vec::new(),
            diagnostics: Vec::new(),
        }
    }

    fn peek_char(&self) -> (r: Option<char>)
        requires
            self.wf(),
        ensures
            r == (if self.index < self.chars.len() {
                Some(self.chars@[self.index as int])
            } else {
                None::<char>
            }),
    {
        if self.index < self.chars.len() {
            Some(self.chars[self.index])
        } else {
            None
        }
    }

    fn peek_nth_char(&self, n: usize) -> (r: Option<char>)
        requires
            self.wf(),
        ensures
            r == (if self.index + n < self.chars.len() {
                Some(self.chars@[self.index + n])
            } else {
                None::<char>
            }),
    {
        if n < self.chars.len() - self.index {
            Some(self.chars[self.index + n])
        } else {
            None
        }
    }

    fn current_position(&self) -> (p: Position)
        requires
            self.wf(),
        ensures
            p == position_at(self.chars@, self.index as int),
    {
        Position { line: self.line, column: self.column, offset: self.offset }
    }

    /// Moves past one character, keeping line, column and offset in step.
    fn bump(&mut self) -> (r: Option<char>)
        requires
            old(self).wf(),
        ensures
            final(self).wf(),
            final(self).chars@ == old(self).chars@,
            final(self).tokens@ == old(self).tokens@,
            final(self).diagnostics@ == old(self).diagnostics@,
            old(self).index < old(self).chars.len() ==> final(self).index == old(self).index + 1
                && r == Some(old(self).chars@[old(self).index as int]),
            old(self).index >= old(self).chars.len() ==> final(self).index == old(self).index && r
                == None::<char>,
    {
        if self.index >= self.chars.len() {
            return None;
        }
        let ch = self.chars[self.index];
        proof {
            let s = self.chars@;
            let i = self.index as int;
            lemma_position_bounds(s, i + 1);
            lemma_utf8_prefix_len(s, i + 1);
        }
        let u = ch as u32;
        let w: usize = if u < 0x80 {
            1
        } else if u < 0x800 {
            2
        } else if u < 0x10000 {
            3
        } else {
            4
        };
        self.offset = self.offset + w;
        if ch == '\n' {
            self.line = self.line + 1;
            self.column = 1;
        } else {
            self.column = self.column + 1;
        }
        self.index = self.index + 1;
        Some(ch)
    }

    fn single_char_span(&mut self) -> (span: Span)
        requires
            old(self).wf(),
            old(self).index < old(self).chars.len(),
        ensures
            final(self).wf(),
            final(self).chars@ == old(self).chars@,
            final(self).tokens@ == old(self).tokens@,
            final(self).diagnostics@ == old(self).diagnostics@,
            final(self).index == old(self).index + 1,
            span == span_at(old(self).chars@, old(self).index as int, old(self).index + 1),
    {
        let start = self.current_position();
        self.bump();
        let end = self.current_position();
        Span { start, end }
    }

    fn push_token(&mut self, kind: TokenKind, span: Span)
        ensures
            final(self).tokens@ == old(self).tokens@.push(Token { kind, span }),
            pushed_token(old(self).tokens@, final(self).tokens@, tok(kind@, span)),
            final(self).chars@ == old(self).chars@,
            final(self).index == old(self).index,
            final(self).line == old(self).line,
            final(self).column == old(self).column,
            final(self).offset == old(self).offset,
            final(self).diagnostics@ == old(self).diagnostics@,
    {
        self.tokens.push(Token { kind, span });
    }

    fn push_diagnostic(&mut self, d: Diagnostic)
        ensures
            final(self).diagnostics@ == old(self).diagnostics@.push(d),
            pushed_diag(old(self).diagnostics@, final(self).diagnostics@, d@),
            final(self).chars@ == old(self).chars@,
            final(self).index == old(self).index,
            final(self).line == old(self).line,
            final(self).column == old(self).column,
            final(self).offset == old(self).offset,
            final(self).tokens@ == old(self).tokens@,
    {
        self.diagnostics.push(d);
    }

    /// Skips `//` and the rest of the line, leaving the line break.
    fn skip_line_comment(&mut self)
        requires
            old(self).wf(),
            old(self).index + 1 < old(self).chars.len(),
        ensures
            final(self).wf(),
            final(self).chars@ == old(self).chars@,
            final(self).tokens@ == old(self).tokens@,
            final(self).diagnostics@ == old(self).diagnostics@,
            final(self).index == find_either(old(self).chars@, old(self).index + 2, '\n', '\n'),
    {
        self.bump();
        self.bump();
        proof {
            lemma_find_either(self.chars@, self.index as int, '\n', '\n');
        }
        while self.index < self.chars.len() && self.chars[self.index] != '\n'
            invariant
                self.wf(),
                self.chars@ == old(self).chars@,
                self.tokens@ == old(self).tokens@,
                self.diagnostics@ == old(self).diagnostics@,
                old(self).index + 2 <= self.index,
                find_either(self.chars@, self.index as int, '\n', '\n') == find_either(
                    old(self).chars@,
                    old(self).index + 2,
                    '\n',
                    '\n',
                ),
            decreases self.chars.len() - self.index,
        {
            self.bump();
        }
    }

    /// Skips a `{ ... }` comment; without its closing brace the rest of the
    /// input is skipped and a diagnostic recorded.
    fn skip_block_comment(&mut self)
        requires
            old(self).wf(),
            old(self).index < old(self).chars.len(),
        ensures
            final(self).wf(),
            final(self).chars@ == old(self).chars@,
            final(self).tokens@ == old(self).tokens@,
            ({
                let s = old(self).chars@;
                let i = old(self).index as int;
                let k = find_either(s, i + 1, '}', '}');
                if k < s.len() {
                    final(self).index == k + 1 && final(self).diagnostics@ == old(self).diagnostics@
                } else {
                    final(self).index == s.len() && pushed_diag(
                        old(self).diagnostics@,
                        final(self).diagnostics@,
                        diag("Unterminated block comment"@, span_at(s, i, s.len() as int)),
                    )
                }
            }),
    {
        let ghost s = self.chars@;
        let ghost i = self.index as int;
        let start = self.current_position();
        self.bump();
        proof {
            lemma_find_either(s, i + 1, '}', '}');
        }
        while self.index < self.chars.len()
            invariant
                self.wf(),
                self.chars@ == s,
                self.tokens@ == old(self).tokens@,
                self.diagnostics@ == old(self).diagnostics@,
                0 <= i,
                i + 1 <= self.index,
                s == old(self).chars@,
                i == old(self).index,
                start == position_at(s, i),
                find_either(s, self.index as int, '}', '}') == find_either(s, i + 1, '}', '}'),
            decreases self.chars.len() - self.index,
        {
            if self.chars[self.index] == '}' {
                self.bump();
                return;
            }
            self.bump();
        }
        let end = self.current_position();
        self.push_diagnostic(Diagnostic::from_str("Unterminated block comment", Span { start, end }));
    }

    /// Reads an identifier that starts at the cursor.
    fn lex_identifier(&mut self)
        requires
            old(self).wf(),
            old(self).index < old(self).chars.len(),
            is_identifier_start_char(old(self).chars@[old(self).index as int]),
        ensures
            final(self).wf(),
            final(self).chars@ == old(self).chars@,
            final(self).diagnostics@ == old(self).diagnostics@,
            ({
                let s = old(self).chars@;
                let i = old(self).index as int;
                let e = identifier_end(s, i);
                &&& final(self).index == e
                &&& pushed_token(
                    old(self).tokens@,
                    final(self).tokens@,
                    tok(SpecTokenKind::Identifier(s.subrange(i, e)), span_at(s, i, e)),
                )
            }),
    {
        let ghost s = self.chars@;
        let ghost i = self.index as int;
        let start = self.current_position();
        let mut value = String::new();
        while self.index < self.chars.len() && is_identifier_continue(self.chars[self.index])
            invariant
                self.wf(),
                self.chars@ == s,
                self.tokens@ == old(self).tokens@,
                self.diagnostics@ == old(self).diagnostics@,
                0 <= i <= self.index,
                start == position_at(s, i),
                value@ == s.subrange(i, self.index as int),
                identifier_end(s, self.index as int) == identifier_end(s, i),
            decreases self.chars.len() - self.index,
        {
            let ch = self.chars[self.index];
            assert(self.index < s.len());
            assert(ch == s[self.index as int]);
            proof { lemma_subrange_push(s, i, self.index as int); }
            push_char(&mut value, ch);
            self.bump();
        }
        let end = self.current_position();
        self.push_token(TokenKind::Identifier(value), Span { start, end });
    }

    /// Appends the run of digits at the cursor to `value`.
    fn consume_digits(&mut self, value: &mut String)
        requires
            old(self).wf(),
        ensures
            final(self).wf(),
            final(self).chars@ == old(self).chars@,
            final(self).tokens@ == old(self).tokens@,
            final(self).diagnostics@ == old(self).diagnostics@,
            final(self).index == digits_end(old(self).chars@, old(self).index as int),
            final(value)@ == old(value)@ + old(self).chars@.subrange(
                old(self).index as int,
                final(self).index as int,
            ),
    {
        let ghost s = self.chars@;
        let ghost i = self.index as int;
        let ghost v0 = value@;
        while self.index < self.chars.len() && is_digit(self.chars[self.index])
            invariant
                self.wf(),
                self.chars@ == s,
                self.tokens@ == old(self).tokens@,
                self.diagnostics@ == old(self).diagnostics@,
                0 <= i <= self.index,
                value@ == v0 + s.subrange(i, self.index as int),
                digits_end(s, self.index as int) == digits_end(s, i),
            decreases self.chars.len() - self.index,
        {
            let ch = self.chars[self.index];
            assert(ch == s[self.index as int]);
            proof { lemma_subrange_push(s, i, self.index as int); }
            push_char(value, ch);
            self.bump();
        }
    }

    /// Reads a number that starts with a digit at the cursor: digits, an
    /// optional fraction, an optional exponent.
    fn lex_number(&mut self)
        requires
            old(self).wf(),
            old(self).index < old(self).chars.len(),
            is_digit_char(old(self).chars@[old(self).index as int]),
        ensures
            final(self).wf(),
            final(self).chars@ == old(self).chars@,
            final(self).diagnostics@ == old(self).diagnostics@,
            ({
                let s = old(self).chars@;
                let i = old(self).index as int;
                let e = number_end(s, i);
                &&& final(self).index == e
                &&& pushed_token(
                    old(self).tokens@,
                    final(self).tokens@,
                    tok(SpecTokenKind::Number(s.subrange(i, e)), span_at(s, i, e)),
                )
            }),
    {
        let ghost s = self.chars@;
        let ghost i = self.index as int;
        proof {
            lemma_number_end(s, i);
        }
        let start = self.current_position();
        let mut value = String::new();
        self.consume_digits(&mut value);
        let ghost j = self.index as int;
        assert(value@ =~= s.subrange(i, j));
        let dot = match self.peek_char() {
            Some(c) => c == '.',
            None => false,
        };
        let digit_after = match self.peek_nth_char(1) {
            Some(c) => is_digit(c),
            None => false,
        };
        if dot && digit_after {
            push_char(&mut value, '.');
            self.bump();
            assert(value@ =~= s.subrange(i, j + 1));
            proof { lemma_digits_end(s, j + 1); }
            self.consume_digits(&mut value);
            assert(value@ =~= s.subrange(i, self.index as int));
        }
        let ghost k = self.index as int;
        assert(k == fraction_end(s, j));
        let mark = match self.peek_char() {
            Some(c) => if c == 'e' || c == 'E' {
                Some(c)
            } else {
                None
            },
            None => None,
        };
        if let Some(m) = mark {
            let next = self.peek_nth_char(1);
            let next2 = self.peek_nth_char(2);
            let next_digit = match next {
                Some(c) => is_digit(c),
                None => false,
            };
            let next_sign = match next {
                Some(c) => c == '+' || c == '-',
                None => false,
            };
            let next2_digit = match next2 {
                Some(c) => is_digit(c),
                None => false,
            };
            if next_digit || (next_sign && next2_digit) {
                push_char(&mut value, m);
                self.bump();
                assert(value@ =~= s.subrange(i, k + 1));
                if next_sign {
                    let sign = self.chars[self.index];
                    push_char(&mut value, sign);
                    self.bump();
                    assert(value@ =~= s.subrange(i, k + 2));
                }
                proof {
                    lemma_digits_end(s, k + 1);
                    lemma_digits_end(s, k + 2);
                }
                self.consume_digits(&mut value);
                assert(value@ =~= s.subrange(i, self.index as int));
            }
        }
        let end = self.current_position();
        self.push_token(TokenKind::Number(value), Span { start, end });
    }

    /// Reads text between an opening delimiter at the cursor and `close`,
    /// stopping at a line break. Gives the text when `close` was found.
    fn lex_delimited(&mut self, close: char) -> (r: Option<String>)
        requires
            old(self).wf(),
            old(self).index < old(self).chars.len(),
            close != '\n',
        ensures
            final(self).wf(),
            final(self).chars@ == old(self).chars@,
            final(self).tokens@ == old(self).tokens@,
            final(self).diagnostics@ == old(self).diagnostics@,
            ({
                let s = old(self).chars@;
                let i = old(self).index as int;
                let j = find_either(s, i + 1, close, '\n');
                if char_at_is(s, j, close) {
                    &&& final(self).index == j + 1
                    &&& r matches Some(text) && text@ == s.subrange(i + 1, j)
                } else {
                    &&& final(self).index == j
                    &&& r is None
                }
            }),
    {
        let ghost s = self.chars@;
        let ghost i = self.index as int;
        self.bump();
        proof {
            lemma_find_either(s, i + 1, close, '\n');
        }
        let mut value = String::new();
        while self.index < self.chars.len() && self.chars[self.index] != close
            && self.chars[self.index] != '\n'
            invariant
                self.wf(),
                self.chars@ == s,
                self.tokens@ == old(self).tokens@,
                self.diagnostics@ == old(self).diagnostics@,
                0 <= i,
                i + 1 <= self.index,
                value@ == s.subrange(i + 1, self.index as int),
                find_either(s, self.index as int, close, '\n') == find_either(
                    s,
                    i + 1,
                    close,
                    '\n',
                ),
            decreases self.chars.len() - self.index,
        {
            let ch = self.chars[self.index];
            assert(ch == s[self.index as int]);
            proof { lemma_subrange_push(s, i + 1, self.index as int); }
            push_char(&mut value, ch);
            self.bump();
        }
        if self.index < self.chars.len() && self.chars[self.index] == close {
            self.bump();
            Some(value)
        } else {
            None
        }
    }

    /// Reads a string literal that opens at the cursor.
    fn lex_string(&mut self)
        requires
            old(self).wf(),
            old(self).index < old(self).chars.len(),
        ensures
            final(self).wf(),
            final(self).chars@ == old(self).chars@,
            ({
                let s = old(self).chars@;
                let i = old(self).index as int;
                let j = find_either(s, i + 1, '"', '\n');
                if char_at_is(s, j, '"') {
                    &&& final(self).index == j + 1
                    &&& final(self).diagnostics@ == old(self).diagnostics@
                    &&& pushed_token(
                        old(self).tokens@,
                        final(self).tokens@,
                        tok(SpecTokenKind::StringLiteral(s.subrange(i + 1, j)), span_at(s, i, j + 1)),
                    )
                } else {
                    &&& final(self).index == j
                    &&& final(self).tokens@ == old(self).tokens@
                    &&& pushed_diag(
                        old(self).diagnostics@,
                        final(self).diagnostics@,
                        diag("Unterminated string literal"@, span_at(s, i, j)),
                    )
                }
            }),
    {
        let start = self.current_position();
        let r = self.lex_delimited('"');
        let end = self.current_position();
        match r {
            Some(value) => self.push_token(TokenKind::StringLiteral(value), Span { start, end }),
            None => self.push_diagnostic(
                Diagnostic::from_str("Unterminated string literal", Span { start, end }),
            ),
        }
    }

    /// Reads a unit annotation `[...]` that opens at the cursor.
    fn lex_unit_annotation(&mut self)
        requires
            old(self).wf(),
            old(self).index < old(self).chars.len(),
        ensures
            final(self).wf(),
            final(self).chars@ == old(self).chars@,
            ({
                let s = old(self).chars@;
                let i = old(self).index as int;
                let j = find_either(s, i + 1, ']', '\n');
                if char_at_is(s, j, ']') {
                    &&& final(self).index == j + 1
                    &&& final(self).diagnostics@ == old(self).diagnostics@
                    &&& pushed_token(
                        old(self).tokens@,
                        final(self).tokens@,
                        tok(SpecTokenKind::UnitAnnotation(s.subrange(i + 1, j)), span_at(s, i, j + 1)),
                    )
                } else {
                    &&& final(self).index == j
                    &&& final(self).tokens@ == old(self).tokens@
                    &&& pushed_diag(
                        old(self).diagnostics@,
                        final(self).diagnostics@,
                        diag("Unterminated unit annotation"@, span_at(s, i, j)),
                    )
                }
            }),
    {
        let start = self.current_position();
        let r = self.lex_delimited(']');
        let end = self.current_position();
        match r {
            Some(value) => self.push_token(TokenKind::UnitAnnotation(value), Span { start, end }),
            None => self.push_diagnostic(
                Diagnostic::from_str("Unterminated unit annotation", Span { start, end }),
            ),
        }
    }

    fn lex_single(&mut self, kind: TokenKind)
        requires
            old(self).wf(),
            old(self).index < old(self).chars.len(),
        ensures
            final(self).wf(),
            final(self).chars@ == old(self).chars@,
            final(self).diagnostics@ == old(self).diagnostics@,
            final(self).index == old(self).index + 1,
            pushed_token(
                old(self).tokens@,
                final(self).tokens@,
                tok(kind@, span_at(old(self).chars@, old(self).index as int, old(self).index + 1)),
            ),
    {
        let span = self.single_char_span();
        self.push_token(kind, span);
    }

    /// Lexes the rest of the input, then appends `Eof`.
    fn lex_all(&mut self)
        requires
            old(self).wf(),
            old(self).index == 0,
            old(self).tokens@.len() == 0,
            old(self).diagnostics@.len() == 0,
        ensures
            tokens_view(final(self).tokens@) == lex_from(old(self).chars@, 0).0,
            diags_view(final(self).diagnostics@) == lex_from(old(self).chars@, 0).1,
    {
        let ghost s = self.chars@;
        assert(tokens_view(self.tokens@) =~= Seq::<SpecToken>::empty());
        assert(diags_view(self.diagnostics@) =~= Seq::<SpecDiagnostic>::empty());
        while self.index < self.chars.len()
            invariant
                self.wf(),
                self.chars@ == s,
                self.on_track(),
            decreases self.chars.len() - self.index,
        {
            let ghost i = self.index as int;
            let ghost t0 = tokens_view(self.tokens@);
            let ghost d0 = diags_view(self.diagnostics@);
            proof {
                lemma_find_either(s, i + 1, '}', '}');
                lemma_find_either(s, i + 2, '\n', '\n');
                lemma_find_either(s, i + 1, '"', '\n');
                lemma_find_either(s, i + 1, ']', '\n');
                lemma_identifier_end(s, i);
            }
            let ch = self.chars[self.index];
            if ch == ' ' || ch == '\t' || ch == '\r' {
                self.bump();
            } else if ch == '\n' {
                self.lex_single(TokenKind::Newline);
                proof { lemma_pushed_token(self.tokens@.drop_last(), self.tokens@, self.tokens@.last()@); }
            } else if ch == '/' {
                let second = self.peek_nth_char(1);
                let comment = match second {
                    Some(c) => c == '/',
                    None => false,
                };
                if comment {
                    self.skip_line_comment();
                } else {
                    self.lex_single(TokenKind::Slash);
                    proof { lemma_pushed_token(self.tokens@.drop_last(), self.tokens@, self.tokens@.last()@); }
                }
            } else if ch == '{' {
                self.skip_block_comment();
                proof {
                    if find_either(s, i + 1, '}', '}') >= s.len() {
                        lemma_pushed_diag(self.diagnostics@.drop_last(), self.diagnostics@, self.diagnostics@.last()@);
                    }
                }
            } else if ch == '=' {
                self.lex_single(TokenKind::Equal);
                proof { lemma_pushed_token(self.tokens@.drop_last(), self.tokens@, self.tokens@.last()@); }
            } else if ch == '+' {
                self.lex_single(TokenKind::Plus);
                proof { lemma_pushed_token(self.tokens@.drop_last(), self.tokens@, self.tokens@.last()@); }
            } else if ch == '-' {
                self.lex_single(TokenKind::Minus);
                proof { lemma_pushed_token(self.tokens@.drop_last(), self.tokens@, self.tokens@.last()@); }
            } else if ch == '*' {
                self.lex_single(TokenKind::Star);
                proof { lemma_pushed_token(self.tokens@.drop_last(), self.tokens@, self.tokens@.last()@); }
            } else if ch == '^' {
                self.lex_single(TokenKind::Caret);
                proof { lemma_pushed_token(self.tokens@.drop_last(), self.tokens@, self.tokens@.last()@); }
            } else if ch == '(' {
                self.lex_single(TokenKind::LParen);
                proof { lemma_pushed_token(self.tokens@.drop_last(), self.tokens@, self.tokens@.last()@); }
            } else if ch == ')' {
                self.lex_single(TokenKind::RParen);
                proof { lemma_pushed_token(self.tokens@.drop_last(), self.tokens@, self.tokens@.last()@); }
            } else if ch == ',' {
                self.lex_single(TokenKind::Comma);
                proof { lemma_pushed_token(self.tokens@.drop_last(), self.tokens@, self.tokens@.last()@); }
            } else if ch == '"' {
                self.lex_string();
                proof {
                    if char_at_is(s, find_either(s, i + 1, '"', '\n'), '"') {
                        lemma_pushed_token(self.tokens@.drop_last(), self.tokens@, self.tokens@.last()@);
                    } else {
                        lemma_pushed_diag(self.diagnostics@.drop_last(), self.diagnostics@, self.diagnostics@.last()@);
                    }
                }
            } else if ch == '[' {
                self.lex_unit_annotation();
                proof {
                    if char_at_is(s, find_either(s, i + 1, ']', '\n'), ']') {
                        lemma_pushed_token(self.tokens@.drop_last(), self.tokens@, self.tokens@.last()@);
                    } else {
                        lemma_pushed_diag(self.diagnostics@.drop_last(), self.diagnostics@, self.diagnostics@.last()@);
                    }
                }
            } else if is_digit(ch) {
                proof { lemma_number_end(s, i); }
                self.lex_number();
                proof { lemma_pushed_token(self.tokens@.drop_last(), self.tokens@, self.tokens@.last()@); }
            } else if is_identifier_start(ch) {
                self.lex_identifier();
                proof { lemma_pushed_token(self.tokens@.drop_last(), self.tokens@, self.tokens@.last()@); }
            } else {
                let span = self.single_char_span();
                let mut message = String::from_str("Unexpected character '");
                push_char(&mut message, ch);
                message.append("'");
                assert(message@ =~= unexpected_message(ch));
                self.push_diagnostic(Diagnostic::new(message, span));
                proof { lemma_pushed_diag(self.diagnostics@.drop_last(), self.diagnostics@, self.diagnostics@.last()@); }
            }
            assert(tokens_view(self.tokens@) + lex_from(s, self.index as int).0 =~= lex_from(s, 0).0);
            assert(diags_view(self.diagnostics@) + lex_from(s, self.index as int).1 =~= lex_from(s, 0).1);
        }
        let pos = self.current_position();
        self.push_token(TokenKind::Eof, Span { start: pos, end: pos });
        proof {
            lemma_pushed_token(self.tokens@.drop_last(), self.tokens@, self.tokens@.last()@);
        }
        assert(tokens_view(self.tokens@) =~= lex_from(s, 0).0);
        assert(diags_view(self.diagnostics@) =~= lex_from(s, 0).1);
    }
}

} // verus!
