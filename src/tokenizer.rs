use vstd::prelude::*;

use crate::error::{CompileError, ErrorModel};
use vstd::utf8::{char_is_scalar, encode_scalar, encode_utf8};

verus! {

/// A half-open range `[start, end)` of byte offsets into the UTF-8 source.
#[derive(Clone, Copy, Debug, PartialEq, Eq, Structural)]
pub struct Span(pub usize, pub usize);

impl Span {
    /// The smallest span covering both `a` and `b`.
    pub open spec fn union(a: Self, b: Self) -> Self {
        Span(if a.0 <= b.0 { a.0 } else { b.0 }, if a.1 >= b.1 { a.1 } else { b.1 })
    }

    pub fn unioned(a: Self, b: Self) -> (r: Self)
        ensures
            r == Span::union(a, b),
    {
        Span(if a.0 <= b.0 { a.0 } else { b.0 }, if a.1 >= b.1 { a.1 } else { b.1 })
    }

    pub open spec fn wf(self) -> bool {
        self.0 <= self.1
    }

    /// The number of positions covered.
    pub fn len(&self) -> (r: usize)
        requires
            self.wf(),
        ensures
            r == self.1 - self.0,
    {
        self.1 - self.0
    }
}

/// A value paired with the source range it was derived from.
#[derive(Debug)]
pub struct Spanned<T> {
    pub value: T,
    pub span: Span,
}

impl<T> Spanned<T> {
    pub fn new(value: T, span: Span) -> (r: Self)
        ensures
            r.value == value,
            r.span == span,
    {
        Spanned { value, span }
    }

    /// A value with the empty span at the start of the source.
    pub fn empty(value: T) -> (r: Self)
        ensures
            r.value == value,
            r.span == Span(0, 0),
    {
        Spanned { value, span: Span(0, 0) }
    }
}

/// The characters of `s`, in order.
pub(crate) fn chars_of(s: &str) -> (r: Vec<char>)
    ensures
        r@ == s@,
{
    let mut v: Vec<char> = Vec::new();
    for c in it: s.chars()
        invariant
            it.seq() == s@,
            v@ == it.seq().take(it.index() as int),
    {
        v.push(c);
    }
    v
}

/// A lexical token.
#[derive(Debug)]
pub enum Token {
    NumberLiteral(i64),
    StringLiteral(String),
    FuncName(String),
    /// A backslash-introduced name, such as `\function`.
    FuncDeclName(String),
    OpenCurly,
    CloseCurly,
    /// The sentinel read past the last token; never produced by the scanner.
    Eof,
}

/// The mathematical model of a token.
pub enum TokenModel {
    NumberLiteral(i64),
    StringLiteral(Seq<char>),
    FuncName(Seq<char>),
    FuncDeclName(Seq<char>),
    OpenCurly,
    CloseCurly,
    Eof,
}

impl View for Token {
    type V = TokenModel;

    open spec fn view(&self) -> TokenModel {
        match self {
            Token::NumberLiteral(n) => TokenModel::NumberLiteral(*n),
            Token::StringLiteral(s) => TokenModel::StringLiteral(s@),
            Token::FuncName(s) => TokenModel::FuncName(s@),
            Token::FuncDeclName(s) => TokenModel::FuncDeclName(s@),
            Token::OpenCurly => TokenModel::OpenCurly,
            Token::CloseCurly => TokenModel::CloseCurly,
            Token::Eof => TokenModel::Eof,
        }
    }
}

/// The category of a token, without its payload.
#[derive(Clone, Copy, Debug, PartialEq, Eq, Structural)]
pub enum TokenKind {
    NumberLiteral,
    StringLiteral,
    FuncName,
    FuncDeclName,
    OpenCurly,
    CloseCurly,
    Eof,
}

impl TokenModel {
    pub open spec fn kind(self) -> TokenKind {
        match self {
            TokenModel::NumberLiteral(_) => TokenKind::NumberLiteral,
            TokenModel::StringLiteral(_) => TokenKind::StringLiteral,
            TokenModel::FuncName(_) => TokenKind::FuncName,
            TokenModel::FuncDeclName(_) => TokenKind::FuncDeclName,
            TokenModel::OpenCurly => TokenKind::OpenCurly,
            TokenModel::CloseCurly => TokenKind::CloseCurly,
            TokenModel::Eof => TokenKind::Eof,
        }
    }
}

impl Token {
    /// The category of this token.
    pub fn kind(&self) -> (r: TokenKind)
        ensures
            r == self@.kind(),
    {
        match self {
            Token::NumberLiteral(_) => TokenKind::NumberLiteral,
            Token::StringLiteral(_) => TokenKind::StringLiteral,
            Token::FuncName(_) => TokenKind::FuncName,
            Token::FuncDeclName(_) => TokenKind::FuncDeclName,
            Token::OpenCurly => TokenKind::OpenCurly,
            Token::CloseCurly => TokenKind::CloseCurly,
            Token::Eof => TokenKind::Eof,
        }
    }

    /// How the token is named in diagnostics: the name of its category.
    pub fn describe(&self) -> (r: &'static str)
        ensures
            r@ == kind_text(self@.kind()),
    {
        self.kind().describe()
    }
}

/// How a token category is named in diagnostics.
pub open spec fn kind_text(k: TokenKind) -> Seq<char> {
    match k {
        TokenKind::NumberLiteral => "number"@,
        TokenKind::StringLiteral => "string"@,
        TokenKind::FuncName => "func name"@,
        TokenKind::FuncDeclName => "func decl name"@,
        TokenKind::OpenCurly => "{"@,
        TokenKind::CloseCurly => "}"@,
        TokenKind::Eof => "<eof>"@,
    }
}

impl TokenKind {
    /// How this category is named in diagnostics.
    pub fn describe(&self) -> (r: &'static str)
        ensures
            r@ == kind_text(*self),
    {
        match self {
            TokenKind::NumberLiteral => "number",
            TokenKind::StringLiteral => "string",
            TokenKind::FuncName => "func name",
            TokenKind::FuncDeclName => "func decl name",
            TokenKind::OpenCurly => "{",
            TokenKind::CloseCurly => "}",
            TokenKind::Eof => "<eof>",
        }
    }
}

impl<'a> From<&'a Token> for TokenKind {
    fn from(token: &'a Token) -> (r: TokenKind) {
        token.kind()
    }
}

impl<'a> vstd::std_specs::convert::FromSpecImpl<&'a Token> for TokenKind {
    open spec fn obeys_from_spec() -> bool {
        true
    }

    open spec fn from_spec(token: &'a Token) -> TokenKind {
        token@.kind()
    }
}

/// The characters that separate lexemes.
pub open spec fn is_space(c: char) -> bool {
    c == ' ' || c == '\t' || c == '\n' || c == '\r'
}

pub open spec fn is_digit(c: char) -> bool {
    '0' <= c && c <= '9'
}

/// The byte offset, in the UTF-8 encoding of `s`, of its character `i`.
pub open spec fn byte_offset(s: Seq<char>, i: int) -> nat {
    encode_utf8(s.take(i)).len()
}

/// `byte_offset` as a position in a span.
pub open spec fn byte_pos(s: Seq<char>, i: int) -> usize {
    byte_offset(s, i) as usize
}

proof fn lemma_encode_concat(a: Seq<char>, b: Seq<char>)
    ensures
        encode_utf8(a + b) == encode_utf8(a) + encode_utf8(b),
    decreases a.len(),
{
    if a.len() == 0 {
        assert(a + b =~= b);
        assert(encode_utf8(a) + encode_utf8(b) =~= encode_utf8(b));
    } else {
        assert((a + b)[0] == a[0]);
        assert((a + b).drop_first() =~= a.drop_first() + b);
        lemma_encode_concat(a.drop_first(), b);
        assert(encode_scalar(a[0] as u32) + (encode_utf8(a.drop_first()) + encode_utf8(b))
            =~= (encode_scalar(a[0] as u32) + encode_utf8(a.drop_first())) + encode_utf8(b));
    }
}

proof fn lemma_offset_step(s: Seq<char>, i: int)
    requires
        0 <= i < s.len(),
    ensures
        byte_offset(s, i + 1) == byte_offset(s, i) + encode_scalar(s[i] as u32).len(),
{
    assert(s.take(i + 1) =~= s.take(i) + seq![s[i]]);
    lemma_encode_concat(s.take(i), seq![s[i]]);
    let one = seq![s[i]];
    assert(one[0] == s[i]);
    assert(one.drop_first() =~= Seq::<char>::empty());
    assert(encode_utf8(Seq::<char>::empty()) == Seq::<u8>::empty());
    assert(encode_utf8(one) == encode_scalar(s[i] as u32) + encode_utf8(one.drop_first()));
    assert(encode_utf8(one) =~= encode_scalar(s[i] as u32));
}

pub(crate) proof fn lemma_offset_monotone(s: Seq<char>, i: int, j: int)
    requires
        0 <= i <= j <= s.len(),
    ensures
        byte_offset(s, i) <= byte_offset(s, j),
{
    assert(s.take(j) =~= s.take(i) + s.subrange(i, j));
    lemma_encode_concat(s.take(i), s.subrange(i, j));
}

/// Within the text, a byte offset is `byte_pos` exactly: it fits in `usize`.
pub(crate) proof fn lemma_offset_fits(s: Seq<char>, i: int)
    requires
        0 <= i <= s.len(),
        encode_utf8(s).len() <= usize::MAX,
    ensures
        byte_offset(s, i) <= usize::MAX,
        byte_pos(s, i) == byte_offset(s, i),
{
    assert(s.take(s.len() as int) =~= s);
    lemma_offset_monotone(s, i, s.len() as int);
}

/// The number of bytes that encode `c` in UTF-8.
fn utf8_width(c: char) -> (r: usize)
    ensures
        r == encode_scalar(c as u32).len(),
        1 <= r <= 4,
{
    proof { char_is_scalar(c); }
    let v = c as u32;
    if v <= 0x7F {
        1
    } else if v <= 0x7FF {
        2
    } else if v <= 0xFFFF {
        3
    } else {
        4
    }
}

/// The byte offset of each character of `source`, and of its end.
pub(crate) fn byte_offsets(source: &str, cs: &Vec<char>) -> (r: Vec<usize>)
    requires
        cs@ == source@,
    ensures
        r@.len() == cs@.len() + 1,
        forall|k: int| 0 <= k <= cs@.len() ==> r@[k] == byte_pos(cs@, k),
        encode_utf8(cs@).len() <= usize::MAX,
{
    let total = source.as_bytes().len();
    proof {
        assert(cs@.take(cs@.len() as int) =~= cs@);
    }
    let mut offsets: Vec<usize> = Vec::new();
    let mut at: usize = 0;
    offsets.push(0);
    assert(cs@.take(0) =~= Seq::<char>::empty());
    let mut i: usize = 0;
    while i < cs.len()
        invariant
            cs@ == source@,
            i <= cs@.len(),
            total == encode_utf8(cs@).len(),
            total == byte_offset(cs@, cs@.len() as int),
            at == byte_offset(cs@, i as int),
            offsets@.len() == i + 1,
            forall|k: int| 0 <= k <= i ==> offsets@[k] == byte_pos(cs@, k),
        decreases cs.len() - i,
    {
        proof {
            lemma_offset_step(cs@, i as int);
            lemma_offset_monotone(cs@, i + 1, cs@.len() as int);
        }
        at = at + utf8_width(cs[i]);
        offsets.push(at);
        i = i + 1;
    }
    offsets
}

/// The first position at or after `j` that holds whitespace, or the end of `s`.
pub open spec fn run_end(s: Seq<char>, j: nat) -> nat
    decreases s.len() - j,
{
    if j >= s.len() || is_space(s[j as int]) {
        j
    } else {
        run_end(s, j + 1)
    }
}

/// The first position at or after `j` that holds `q`, or the end of `s`.
pub open spec fn find_from(s: Seq<char>, j: nat, q: char) -> nat
    decreases s.len() - j,
{
    if j >= s.len() || s[j as int] == q {
        j
    } else {
        find_from(s, j + 1, q)
    }
}

/// The value of a sequence of decimal digits.
pub open spec fn digits_value(d: Seq<char>) -> int
    decreases d.len(),
{
    if d.len() == 0 {
        0
    } else {
        digits_value(d.drop_last()) * 10 + (d.last() as int - '0' as int)
    }
}

/// The base-10 integer that `d` spells, where it spells one that fits in `i64`
/// (`d` starts with a digit, so it carries no sign).
pub open spec fn number_of(d: Seq<char>) -> Option<i64> {
    if d.len() > 0 && (forall|k: int| 0 <= k < d.len() ==> is_digit(#[trigger] d[k]))
        && digits_value(d) <= i64::MAX {
        Some(digits_value(d) as i64)
    } else {
        None
    }
}

/// What the scanner does with the lexeme that starts at position `i`.
pub enum LexStep {
    /// Whitespace: no token.
    Skip,
    /// A token with its span; scanning goes on at the given position.
    Emit(TokenModel, Span, nat),
    Fail(ErrorModel),
}

pub open spec fn lex_step(s: Seq<char>, i: nat) -> LexStep
    recommends
        i < s.len(),
{
    let c = s[i as int];
    if is_digit(c) {
        let e = run_end(s, i + 1);
        match number_of(s.subrange(i as int, e as int)) {
            Some(n) => LexStep::Emit(TokenModel::NumberLiteral(n), Span(byte_pos(s, i as int), byte_pos(s, e as int)), e),
            None => LexStep::Fail(ErrorModel::Spanned("invalid number literal"@, Span(byte_pos(s, i as int), byte_pos(s, e as int)))),
        }
    } else if c == '"' || c == '\'' {
        let e = find_from(s, i + 1, c);
        if e >= s.len() {
            LexStep::Fail(
                ErrorModel::Spanned("found end of file while parsing string"@, Span(byte_pos(s, i as int), byte_pos(s, e as int))),
            )
        } else {
            LexStep::Emit(
                TokenModel::StringLiteral(s.subrange((i + 1) as int, e as int)),
                Span(byte_pos(s, i as int), byte_pos(s, (e + 1) as int)),
                e + 1,
            )
        }
    } else if c == '\\' {
        let e = run_end(s, i + 1);
        if e == i + 1 {
            LexStep::Fail(ErrorModel::Spanned("function name is required"@, Span(byte_pos(s, i as int), byte_pos(s, e as int))))
        } else {
            LexStep::Emit(
                TokenModel::FuncDeclName(s.subrange((i + 1) as int, e as int)),
                Span(byte_pos(s, i as int), byte_pos(s, e as int)),
                e,
            )
        }
    } else if c == '{' {
        LexStep::Emit(TokenModel::OpenCurly, Span(byte_pos(s, i as int), byte_pos(s, (i + 1) as int)), i + 1)
    } else if c == '}' {
        LexStep::Emit(TokenModel::CloseCurly, Span(byte_pos(s, i as int), byte_pos(s, (i + 1) as int)), i + 1)
    } else if is_space(c) {
        LexStep::Skip
    } else {
        let e = run_end(s, i + 1);
        LexStep::Emit(TokenModel::FuncName(s.subrange(i as int, e as int)), Span(byte_pos(s, i as int), byte_pos(s, e as int)), e)
    }
}

/// `r` with the tokens of `prefix` in front, if it is a success.
pub open spec fn after(prefix: Seq<(TokenModel, Span)>, r: Result<Seq<(TokenModel, Span)>, ErrorModel>) -> Result<Seq<(TokenModel, Span)>, ErrorModel> {
    match r {
        Ok(rest) => Ok(prefix + rest),
        Err(e) => Err(e),
    }
}

/// The result of scanning `s` from position `i` to its end: every token with
/// its span, in source order, or the first lexical error.
pub open spec fn lex_from(s: Seq<char>, i: nat) -> Result<Seq<(TokenModel, Span)>, ErrorModel>
    decreases s.len() - i,
{
    if i >= s.len() {
        Ok(Seq::empty())
    } else {
        match lex_step(s, i) {
            LexStep::Skip => lex_from(s, i + 1),
            LexStep::Emit(t, sp, next) => if i < next <= s.len() {
                after(seq![(t, sp)], lex_from(s, next))
            } else {
                // never taken: every step moves forward within the input
                Err(ErrorModel::General(Seq::empty()))
            },
            LexStep::Fail(e) => Err(e),
        }
    }
}

/// The result of scanning the whole of `s`.
pub open spec fn lex(s: Seq<char>) -> Result<Seq<(TokenModel, Span)>, ErrorModel> {
    lex_from(s, 0)
}

/// The models of a sequence of located tokens.
pub open spec fn tokens_model(v: Seq<Spanned<Token>>) -> Seq<(TokenModel, Span)> {
    v.map_values(|t: Spanned<Token>| (t.value@, t.span))
}

pub open spec fn result_model(r: Result<Vec<Spanned<Token>>, CompileError>) -> Result<Seq<(TokenModel, Span)>, ErrorModel> {
    match r {
        Ok(v) => Ok(tokens_model(v@)),
        Err(e) => Err(e@),
    }
}

proof fn lemma_run_end_bounds(s: Seq<char>, j: nat)
    requires
        j <= s.len(),
    ensures
        j <= run_end(s, j) <= s.len(),
    decreases s.len() - j,
{
    if j < s.len() && !is_space(s[j as int]) {
        lemma_run_end_bounds(s, j + 1);
    }
}

proof fn lemma_find_from_bounds(s: Seq<char>, j: nat, q: char)
    requires
        j <= s.len(),
    ensures
        j <= find_from(s, j, q) <= s.len(),
    decreases s.len() - j,
{
    if j < s.len() && s[j as int] != q {
        lemma_find_from_bounds(s, j + 1, q);
    }
}

/// The end of the run of non-whitespace characters that starts at `j`.
fn scan_run(cs: &Vec<char>, j: usize) -> (e: usize)
    requires
        j <= cs.len(),
    ensures
        e == run_end(cs@, j as nat),
        j <= e <= cs.len(),
{
    proof { lemma_run_end_bounds(cs@, j as nat); }
    let mut k = j;
    while k < cs.len() && !(cs[k] == ' ' || cs[k] == '\t' || cs[k] == '\n' || cs[k] == '\r')
        invariant
            j <= k <= cs.len(),
            run_end(cs@, k as nat) == run_end(cs@, j as nat),
        decreases cs.len() - k,
    {
        k = k + 1;
    }
    k
}

/// The position of the next `q` at or after `j`, or the end.
pub(crate) fn scan_until(cs: &Vec<char>, j: usize, q: char) -> (e: usize)
    requires
        j <= cs.len(),
    ensures
        e == find_from(cs@, j as nat, q),
        j <= e <= cs.len(),
{
    proof { lemma_find_from_bounds(cs@, j as nat, q); }
    let mut k = j;
    while k < cs.len() && cs[k] != q
        invariant
            j <= k <= cs.len(),
            find_from(cs@, k as nat, q) == find_from(cs@, j as nat, q),
        decreases cs.len() - k,
    {
        k = k + 1;
    }
    k
}

proof fn lemma_digits_monotone(d: Seq<char>, m: nat)
    requires
        m <= d.len(),
    ensures
        (forall|k: int| 0 <= k < d.len() ==> is_digit(#[trigger] d[k])) ==> 0 <= digits_value(
            d.subrange(0, m as int),
        ) <= digits_value(d),
    decreases d.len(),
{
    if forall|k: int| 0 <= k < d.len() ==> is_digit(#[trigger] d[k]) {
        if m == d.len() {
            assert(d.subrange(0, m as int) =~= d);
            lemma_digits_nonneg(d);
        } else {
            let p = d.drop_last();
            assert forall|k: int| 0 <= k < p.len() implies is_digit(#[trigger] p[k]) by {
                assert(p[k] == d[k]);
            }
            lemma_digits_monotone(p, m);
            assert(p.subrange(0, m as int) =~= d.subrange(0, m as int));
            assert(is_digit(d[d.len() - 1]));
        }
    }
}

proof fn lemma_digits_nonneg(d: Seq<char>)
    requires
        forall|k: int| 0 <= k < d.len() ==> is_digit(#[trigger] d[k]),
    ensures
        0 <= digits_value(d),
    decreases d.len(),
{
    if d.len() > 0 {
        let p = d.drop_last();
        assert forall|k: int| 0 <= k < p.len() implies is_digit(#[trigger] p[k]) by {
            assert(p[k] == d[k]);
        }
        lemma_digits_nonneg(p);
        assert(is_digit(d[d.len() - 1]));
    }
}

/// Reads `cs[a..b]` as a base-10 integer.
fn parse_number(cs: &Vec<char>, a: usize, b: usize) -> (r: Option<i64>)
    requires
        a <= b <= cs.len(),
    ensures
        r == number_of(cs@.subrange(a as int, b as int)),
{
    let ghost d = cs@.subrange(a as int, b as int);
    if a == b {
        return None;
    }
    let mut value: i64 = 0;
    let mut k = a;
    while k < b
        invariant
            a <= k <= b <= cs.len(),
            d == cs@.subrange(a as int, b as int),
            forall|m: int| 0 <= m < k - a ==> is_digit(#[trigger] d[m]),
            value as int == digits_value(d.subrange(0, k - a)),
            0 <= value,
        decreases b - k,
    {
        let c = cs[k];
        assert(d.subrange(0, k + 1 - a).drop_last() =~= d.subrange(0, k - a));
        if !('0' <= c && c <= '9') {
            assert(!is_digit(d[k - a]));
            return None;
        }
        let digit = (c as u32 - '0' as u32) as i64;
        assert(0 <= digit <= 9);
        assert(digits_value(d.subrange(0, k + 1 - a)) == value * 10 + digit);
        if value > (i64::MAX - digit) / 10 {
            assert(value * 10 + digit > i64::MAX) by (nonlinear_arith)
                requires
                    value > (i64::MAX - digit) / 10,
                    0 <= digit <= 9,
            ;
            proof {
                lemma_digits_monotone(d, (k + 1 - a) as nat);
            }
            return None;
        }
        assert(value * 10 + digit <= i64::MAX) by (nonlinear_arith)
            requires
                value <= (i64::MAX - digit) / 10,
                0 <= value,
                0 <= digit <= 9,
        ;
        value = value * 10 + digit;
        k = k + 1;
    }
    assert(d.subrange(0, b - a) =~= d);
    Some(value)
}

proof fn lemma_after_push(p: Seq<(TokenModel, Span)>, x: (TokenModel, Span), r: Result<Seq<(TokenModel, Span)>, ErrorModel>)
    ensures
        after(p, after(seq![x], r)) == after(p.push(x), r),
{
    if let Ok(rest) = r {
        assert(p + (seq![x] + rest) =~= p.push(x) + rest);
    }
}

proof fn lemma_lex_spaces(s: Seq<char>, i: nat)
    requires
        forall|k: int| i <= k < s.len() ==> is_space(#[trigger] s[k]),
    ensures
        lex_from(s, i) == Ok::<Seq<(TokenModel, Span)>, ErrorModel>(Seq::empty()),
    decreases s.len() - i,
{
    if i < s.len() {
        assert(is_space(s[i as int]));
        lemma_lex_spaces(s, i + 1);
    }
}

/// A source text made of whitespace alone scans to no tokens.
pub proof fn lemma_whitespace_scans_empty(s: Seq<char>)
    requires
        forall|k: int| 0 <= k < s.len() ==> is_space(#[trigger] s[k]),
    ensures
        lex(s) == Ok::<Seq<(TokenModel, Span)>, ErrorModel>(Seq::empty()),
{
    lemma_lex_spaces(s, 0);
}

/// Splits `source` into located tokens, in source order.
///
/// Spans are byte offsets into the UTF-8 text. Digits start a number that runs to the next
/// whitespace; `"` or `'` start a string that runs to the same quote; `\`
/// starts a declaration name; `{` and `}` stand alone; any other run of
/// non-whitespace is a function name. The first lexical error stops the scan.
pub fn tokenize(source: &str) -> (r: Result<Vec<Spanned<Token>>, CompileError>)
    ensures
        result_model(r) == lex(source@),
{
    let cs = chars_of(source);
    let offsets = byte_offsets(source, &cs);
    let n = cs.len();
    let mut tokens: Vec<Spanned<Token>> = Vec::new();
    let mut i: usize = 0;
    assert(after(tokens_model(tokens@), lex_from(cs@, 0)) == lex_from(cs@, 0)) by {
        assert(tokens_model(tokens@) =~= Seq::empty());
        if let Ok(rest) = lex_from(cs@, 0) {
            assert(Seq::<(TokenModel, Span)>::empty() + rest =~= rest);
        }
    }
    while i < n
        invariant
            i <= n == cs.len(),
            cs@ == source@,
            offsets@.len() == n + 1,
            forall|k: int| 0 <= k <= n ==> offsets@[k] == byte_pos(cs@, k),
            lex(source@) == after(tokens_model(tokens@), lex_from(cs@, i as nat)),
        decreases n - i,
    {
        let c = cs[i];
        let ghost before = tokens@;
        let token: Spanned<Token>;
        let next: usize;
        if '0' <= c && c <= '9' {
            let e = scan_run(&cs, i + 1);
            match parse_number(&cs, i, e) {
                Some(num) => {
                    token = Spanned::new(Token::NumberLiteral(num), Span(offsets[i], offsets[e]));
                    next = e;
                },
                None => {
                    return Err(CompileError::Spanned(String::from_str("invalid number literal"), Span(offsets[i], offsets[e])));
                },
            }
        } else if c == '"' || c == '\'' {
            let e = scan_until(&cs, i + 1, c);
            if e >= n {
                return Err(
                    CompileError::Spanned(String::from_str("found end of file while parsing string"), Span(offsets[i], offsets[e])),
                );
            }
            let text = String::from_str(source.substring_char(i + 1, e));
            token = Spanned::new(Token::StringLiteral(text), Span(offsets[i], offsets[e + 1]));
            next = e + 1;
        } else if c == '\\' {
            let e = scan_run(&cs, i + 1);
            if e == i + 1 {
                return Err(CompileError::Spanned(String::from_str("function name is required"), Span(offsets[i], offsets[e])));
            }
            let name = String::from_str(source.substring_char(i + 1, e));
            token = Spanned::new(Token::FuncDeclName(name), Span(offsets[i], offsets[e]));
            next = e;
        } else if c == '{' {
            token = Spanned::new(Token::OpenCurly, Span(offsets[i], offsets[i + 1]));
            next = i + 1;
        } else if c == '}' {
            token = Spanned::new(Token::CloseCurly, Span(offsets[i], offsets[i + 1]));
            next = i + 1;
        } else if c == ' ' || c == '\t' || c == '\n' || c == '\r' {
            i = i + 1;
            continue;
        } else {
            let e = scan_run(&cs, i + 1);
            let name = String::from_str(source.substring_char(i, e));
            token = Spanned::new(Token::FuncName(name), Span(offsets[i], offsets[e]));
            next = e;
        }
        proof {
            lemma_after_push(tokens_model(before), (token.value@, token.span), lex_from(cs@, next as nat));
        }
        tokens.push(token);
        assert(tokens_model(tokens@) =~= tokens_model(before).push((token.value@, token.span)));
        i = next;
    }
    assert(tokens_model(tokens@) + Seq::empty() =~= tokens_model(tokens@));
    Ok(tokens)
}

} // verus!
