use vstd::prelude::*;

use crate::error::{CompileError, ErrorModel};
use vstd::utf8::encode_utf8;

use crate::tokenizer::{
    byte_pos, lemma_offset_monotone, is_space, kind_text, lex, lex_from, run_end, tokens_model, Span, Spanned, Token, TokenKind,
    TokenModel,
};

verus! {

/// One step of a procedure body.
#[derive(Debug)]
pub enum Statement {
    PushNumber(i64),
    PushString(String),
    CallFunc(String),
}

/// The mathematical model of a statement.
pub enum StatementModel {
    PushNumber(i64),
    PushString(Seq<char>),
    CallFunc(Seq<char>),
}

impl View for Statement {
    type V = StatementModel;

    open spec fn view(&self) -> StatementModel {
        match self {
            Statement::PushNumber(n) => StatementModel::PushNumber(*n),
            Statement::PushString(s) => StatementModel::PushString(s@),
            Statement::CallFunc(s) => StatementModel::CallFunc(s@),
        }
    }
}

/// The models of a sequence of located statements.
pub open spec fn statements_model(v: Seq<Spanned<Statement>>) -> Seq<(StatementModel, Span)> {
    v.map_values(|s: Spanned<Statement>| (s.value@, s.span))
}

/// A procedure: its statements, in declared order.
#[derive(Debug)]
pub struct Func {
    statements: Vec<Spanned<Statement>>,
}

impl View for Func {
    type V = Seq<(StatementModel, Span)>;

    closed spec fn view(&self) -> Seq<(StatementModel, Span)> {
        statements_model(self.statements@)
    }
}

impl Func {
    pub fn new(statements: Vec<Spanned<Statement>>) -> (r: Self)
        ensures
            r@ == statements_model(statements@),
    {
        Func { statements }
    }

    pub fn statements(&self) -> (r: &Vec<Spanned<Statement>>)
        ensures
            statements_model(r@) == self@,
    {
        &self.statements
    }
}

/// The model of one declaration: the procedure's name, its statements, and
/// the span from its name through its closing brace.
pub type DeclModel = (Seq<char>, Seq<(StatementModel, Span)>, Span);

/// The procedure table that a sequence of declarations defines: a later
/// declaration of a name replaces an earlier one.
pub open spec fn procedures(d: Seq<DeclModel>) -> Map<Seq<char>, (Seq<(StatementModel, Span)>, Span)>
    decreases d.len(),
{
    if d.len() == 0 {
        Map::empty()
    } else {
        let last = d.last();
        procedures(d.drop_last()).insert(last.0, (last.1, last.2))
    }
}

pub open spec fn decls_model(v: Seq<(String, Spanned<Func>)>) -> Seq<DeclModel> {
    v.map_values(|e: (String, Spanned<Func>)| (e.0@, e.1.value@, e.1.span))
}

/// A parsed program: its declarations in source order, read as a table from
/// procedure name to procedure.
#[derive(Debug)]
pub struct Program {
    funcs: Vec<(String, Spanned<Func>)>,
}

impl View for Program {
    type V = Seq<DeclModel>;

    closed spec fn view(&self) -> Seq<DeclModel> {
        decls_model(self.funcs@)
    }
}

proof fn lemma_no_decl_named(d: Seq<DeclModel>, name: Seq<char>)
    requires
        forall|j: int| 0 <= j < d.len() ==> (#[trigger] d[j]).0 != name,
    ensures
        !procedures(d).contains_key(name),
    decreases d.len(),
{
    if d.len() > 0 {
        let p = d.drop_last();
        assert forall|j: int| 0 <= j < p.len() implies (#[trigger] p[j]).0 != name by {
            assert(p[j] == d[j]);
        }
        lemma_no_decl_named(p, name);
    }
}

proof fn lemma_last_decl_named(d: Seq<DeclModel>, name: Seq<char>, i: int)
    requires
        0 <= i < d.len(),
        d[i].0 == name,
        forall|j: int| i < j < d.len() ==> (#[trigger] d[j]).0 != name,
    ensures
        procedures(d).contains_key(name),
        procedures(d)[name] == (d[i].1, d[i].2),
    decreases d.len(),
{
    if i < d.len() - 1 {
        let p = d.drop_last();
        assert forall|j: int| i < j < p.len() implies (#[trigger] p[j]).0 != name by {
            assert(p[j] == d[j]);
        }
        lemma_last_decl_named(p, name, i);
    }
}

impl Program {
    /// The program whose declarations are `funcs`, in order.
    pub fn new(funcs: Vec<(String, Spanned<Func>)>) -> (r: Self)
        ensures
            r@ == decls_model(funcs@),
    {
        Program { funcs }
    }

    /// The index of the last declaration named `name`, if any.
    fn find(&self, name: &str) -> (r: Option<usize>)
        ensures
            procedures(self@).contains_key(name@) <==> r is Some,
            r matches Some(i) ==> i < self@.len() && procedures(self@)[name@] == (
                self@[i as int].1,
                self@[i as int].2,
            ),
    {
        let key = String::from_str(name);
        let mut k = self.funcs.len();
        while k > 0
            invariant
                k <= self.funcs.len(),
                key@ == name@,
                forall|j: int| k <= j < self@.len() ==> (#[trigger] self@[j]).0 != name@,
            decreases k,
        {
            k = k - 1;
            if self.funcs[k].0 == key {
                proof {
                    lemma_last_decl_named(self@, name@, k as int);
                }
                return Some(k);
            }
        }
        proof {
            lemma_no_decl_named(self@, name@);
        }
        None
    }

    /// Whether a procedure named `name` is declared.
    pub fn has_func(&self, name: &str) -> (r: bool)
        ensures
            r == procedures(self@).contains_key(name@),
    {
        self.find(name).is_some()
    }

    /// The procedure named `name`, with its span: the last one declared under
    /// that name.
    pub fn get_func(&self, name: &str) -> (r: Option<&Spanned<Func>>)
        ensures
            r is Some <==> procedures(self@).contains_key(name@),
            r matches Some(f) ==> procedures(self@)[name@] == (f.value@, f.span),
    {
        match self.find(name) {
            Some(i) => Some(&self.funcs[i].1),
            None => None,
        }
    }
}

/// The token at position `p`, or the end-of-input sentinel with the empty
/// span past the last token.
pub open spec fn tok_at(ts: Seq<(TokenModel, Span)>, p: int) -> (TokenModel, Span) {
    if 0 <= p < ts.len() {
        ts[p]
    } else {
        (TokenModel::Eof, Span(0, 0))
    }
}

pub open spec fn expected_message(expected: TokenKind, found: TokenKind) -> Seq<char> {
    "expected "@ + kind_text(expected) + ", but found "@ + kind_text(found)
}

pub open spec fn statement_message(found: TokenKind) -> Seq<char> {
    "expected a statement, but found "@ + kind_text(found)
        + ". a statement is a literal or a function call"@
}

/// The statement that the token at `p` starts.
pub open spec fn statement_at(ts: Seq<(TokenModel, Span)>, p: int) -> Result<(StatementModel, Span), ErrorModel> {
    let (t, sp) = tok_at(ts, p);
    match t {
        TokenModel::NumberLiteral(n) => Ok((StatementModel::PushNumber(n), sp)),
        TokenModel::StringLiteral(s) => Ok((StatementModel::PushString(s), sp)),
        TokenModel::FuncName(s) => Ok((StatementModel::CallFunc(s), sp)),
        _ => Err(ErrorModel::Spanned(statement_message(t.kind()), sp)),
    }
}

pub open spec fn body_after(
    prefix: Seq<(StatementModel, Span)>,
    r: Result<(Seq<(StatementModel, Span)>, nat), ErrorModel>,
) -> Result<(Seq<(StatementModel, Span)>, nat), ErrorModel> {
    match r {
        Ok((b, q)) => Ok((prefix + b, q)),
        Err(e) => Err(e),
    }
}

/// The statements of a body from position `p` up to its closing brace, with
/// the position of that brace.
pub open spec fn parse_body(ts: Seq<(TokenModel, Span)>, p: nat) -> Result<(Seq<(StatementModel, Span)>, nat), ErrorModel>
    decreases ts.len() - p,
{
    if tok_at(ts, p as int).0 is CloseCurly {
        Ok((Seq::empty(), p))
    } else {
        match statement_at(ts, p as int) {
            Ok(st) => if p < ts.len() {
                body_after(seq![st], parse_body(ts, p + 1))
            } else {
                // never taken: every step moves forward within the input
                Err(ErrorModel::General(Seq::empty()))
            },
            Err(e) => Err(e),
        }
    }
}

/// The declaration that starts at position `p`, with the position after it.
pub open spec fn parse_decl(ts: Seq<(TokenModel, Span)>, p: nat) -> Result<(DeclModel, nat), ErrorModel> {
    let (t, sp) = tok_at(ts, p as int);
    match t {
        TokenModel::FuncDeclName(name) => {
            let (t2, sp2) = tok_at(ts, (p + 1) as int);
            if !(t2 is OpenCurly) {
                Err(ErrorModel::Spanned(expected_message(TokenKind::OpenCurly, t2.kind()), sp2))
            } else {
                match parse_body(ts, p + 2) {
                    Ok((b, q)) => Ok(((name, b, Span::union(sp, tok_at(ts, q as int).1)), q + 1)),
                    Err(e) => Err(e),
                }
            }
        },
        _ => Err(ErrorModel::Spanned(expected_message(TokenKind::FuncDeclName, t.kind()), sp)),
    }
}

/// The declarations from position `p` to the end of input, in order, or the
/// first syntax error.
pub open spec fn parse_program(ts: Seq<(TokenModel, Span)>, p: nat) -> Result<Seq<DeclModel>, ErrorModel>
    decreases ts.len() - p,
{
    if tok_at(ts, p as int).0 is Eof {
        Ok(Seq::empty())
    } else {
        match parse_decl(ts, p) {
            Ok((d, q)) => if p < q <= ts.len() {
                match parse_program(ts, q) {
                    Ok(rest) => Ok(seq![d] + rest),
                    Err(e) => Err(e),
                }
            } else {
                // never taken: every step moves forward within the input
                Err(ErrorModel::General(Seq::empty()))
            },
            Err(e) => Err(e),
        }
    }
}

proof fn lemma_body_bounds(ts: Seq<(TokenModel, Span)>, p: nat)
    ensures
        parse_body(ts, p) matches Ok((b, q)) ==> p <= q < ts.len() && ts[q as int].0 is CloseCurly,
    decreases ts.len() - p,
{
    if !(tok_at(ts, p as int).0 is CloseCurly) && p < ts.len() {
        lemma_body_bounds(ts, p + 1);
    }
}

/// A body parses whatever its statements would do to the stack: every run of
/// literals and calls up to a closing brace is accepted, one statement per
/// token, with no check of how many values each call needs.
pub proof fn lemma_body_accepts_any_statements(ts: Seq<(TokenModel, Span)>, p: nat, q: nat)
    requires
        p <= q < ts.len(),
        ts[q as int].0 is CloseCurly,
        forall|k: int|
            p <= k < q ==> (#[trigger] ts[k]).0 is NumberLiteral || ts[k].0 is StringLiteral
                || ts[k].0 is FuncName,
    ensures
        parse_body(ts, p) matches Ok((b, end)) && end == q && b.len() == q - p,
    decreases q - p,
{
    if p < q {
        assert(ts[p as int].0 is NumberLiteral || ts[p as int].0 is StringLiteral || ts[p as int].0 is FuncName);
        lemma_body_accepts_any_statements(ts, p + 1, q);
    }
}

/// The text `\name { }`: a declaration of `name` with an empty body.
pub open spec fn empty_declaration(name: Seq<char>) -> Seq<char> {
    seq!['\\'] + name + seq![' ', '{', ' ', '}']
}

proof fn lemma_run_over_name(t: Seq<char>, name: Seq<char>, j: nat)
    requires
        t == empty_declaration(name),
        1 <= j <= name.len() + 1,
        forall|k: int| 0 <= k < name.len() ==> !is_space(#[trigger] name[k]),
    ensures
        run_end(t, j) == name.len() + 1,
    decreases name.len() + 1 - j,
{
    if j < name.len() + 1 {
        assert(t[j as int] == name[j - 1]);
        lemma_run_over_name(t, name, j + 1);
    } else {
        assert(t[j as int] == ' ');
    }
}

/// Scanning and parsing `\name { }` gives a program that declares exactly
/// `name`, with no statements and a span over the whole text.
pub proof fn lemma_empty_declaration_round_trip(name: Seq<char>)
    requires
        name.len() > 0,
        encode_utf8(empty_declaration(name)).len() <= usize::MAX,
        forall|k: int| 0 <= k < name.len() ==> !is_space(#[trigger] name[k]),
    ensures
        lex(empty_declaration(name)) matches Ok(ts) && parse_program(ts, 0) matches Ok(d) && procedures(d).dom()
            == set![name] && procedures(d)[name] == (
            Seq::<(StatementModel, Span)>::empty(),
            Span(0, encode_utf8(empty_declaration(name)).len() as usize),
        ),
{
    let t = empty_declaration(name);
    let n = name.len() as int;
    lemma_run_over_name(t, name, 1);
    assert(t[0] == '\\');
    assert(t.subrange(1, n + 1) =~= name);
    assert(t[n + 1] == ' ');
    assert(t[n + 2] == '{');
    assert(t[n + 3] == ' ');
    assert(t[n + 4] == '}');
    assert(t.len() == n + 5);
    assert(t.take(0) =~= Seq::<char>::empty());
    assert(encode_utf8(Seq::<char>::empty()) == Seq::<u8>::empty());
    assert(t.take(n + 5) =~= t);
    lemma_offset_monotone(t, n + 1, n + 5);
    lemma_offset_monotone(t, 0, n + 4);
    let d0 = (TokenModel::FuncDeclName(name), Span(byte_pos(t, 0), byte_pos(t, n + 1)));
    let d1 = (TokenModel::OpenCurly, Span(byte_pos(t, n + 2), byte_pos(t, n + 3)));
    let d2 = (TokenModel::CloseCurly, Span(byte_pos(t, n + 4), byte_pos(t, n + 5)));
    assert(lex_from(t, (n + 5) as nat) == Ok::<Seq<(TokenModel, Span)>, ErrorModel>(Seq::empty()));
    assert(lex_from(t, (n + 4) as nat) == Ok::<Seq<(TokenModel, Span)>, ErrorModel>(seq![d2])) by {
        assert(seq![d2] + Seq::<(TokenModel, Span)>::empty() =~= seq![d2]);
    }
    assert(lex_from(t, (n + 3) as nat) == lex_from(t, (n + 4) as nat));
    assert(lex_from(t, (n + 2) as nat) == Ok::<Seq<(TokenModel, Span)>, ErrorModel>(seq![d1, d2])) by {
        assert(seq![d1] + seq![d2] =~= seq![d1, d2]);
    }
    assert(lex_from(t, (n + 1) as nat) == lex_from(t, (n + 2) as nat));
    let ts = seq![d0, d1, d2];
    assert(lex(t) == Ok::<Seq<(TokenModel, Span)>, ErrorModel>(ts)) by {
        assert(seq![d0] + seq![d1, d2] =~= ts);
    }
    assert(parse_body(ts, 2) == Ok::<(Seq<(StatementModel, Span)>, nat), ErrorModel>((Seq::empty(), 2)));
    assert(Span::union(d0.1, d2.1) == Span(0, encode_utf8(t).len() as usize));
    let decl = (name, Seq::<(StatementModel, Span)>::empty(), Span(0, encode_utf8(t).len() as usize));
    assert(parse_decl(ts, 0) == Ok::<(DeclModel, nat), ErrorModel>((decl, 3)));
    assert(parse_program(ts, 3) == Ok::<Seq<DeclModel>, ErrorModel>(Seq::empty()));
    assert(parse_program(ts, 0) == Ok::<Seq<DeclModel>, ErrorModel>(seq![decl])) by {
        assert(seq![decl] + Seq::<DeclModel>::empty() =~= seq![decl]);
    }
    let d = seq![decl];
    assert(d.drop_last() =~= Seq::<DeclModel>::empty());
    assert(procedures(d.drop_last()) == Map::<Seq<char>, (Seq<(StatementModel, Span)>, Span)>::empty());
    assert(d.last() == decl);
    assert(procedures(d) == Map::<Seq<char>, (Seq<(StatementModel, Span)>, Span)>::empty().insert(
        name,
        (decl.1, decl.2),
    ));
    assert(procedures(d).dom() =~= set![name]);
}

/// A recursive-descent parser over a sequence of located tokens.
pub struct Parser<'a> {
    tokens: &'a [Spanned<Token>],
    pos: usize,
    eof: Spanned<Token>,
}

impl<'a> Parser<'a> {
    /// The models of the tokens being parsed.
    pub closed spec fn tokens(&self) -> Seq<(TokenModel, Span)> {
        tokens_model(self.tokens@)
    }

    /// The position of the next token to read.
    pub closed spec fn position(&self) -> nat {
        self.pos as nat
    }

    pub closed spec fn wf(&self) -> bool {
        &&& self.eof.value is Eof
        &&& self.eof.span == Span(0, 0)
        &&& self.tokens@.len() < usize::MAX
    }

    /// A parser at the first of `tokens`. (The cursor must be able to move
    /// one past the last token.)
    pub fn new(tokens: &'a [Spanned<Token>]) -> (r: Self)
        requires
            tokens@.len() < usize::MAX,
        ensures
            r.tokens() == tokens_model(tokens@),
            r.position() == 0,
            r.wf(),
    {
        Parser { tokens, pos: 0, eof: Spanned::empty(Token::Eof) }
    }

    /// The token at the cursor, or the end-of-input sentinel.
    fn current(&self) -> (r: &Spanned<Token>)
        requires
            self.wf(),
        ensures
            (r.value@, r.span) == tok_at(self.tokens(), self.position() as int),
    {
        if self.pos < self.tokens.len() {
            &self.tokens[self.pos]
        } else {
            &self.eof
        }
    }

    fn current_kind(&self) -> (r: TokenKind)
        requires
            self.wf(),
        ensures
            r == tok_at(self.tokens(), self.position() as int).0.kind(),
    {
        self.current().value.kind()
    }

    fn is_eof(&self) -> (r: bool)
        requires
            self.wf(),
        ensures
            r == tok_at(self.tokens(), self.position() as int).0 is Eof,
    {
        self.check(TokenKind::Eof)
    }

    fn check(&self, kind: TokenKind) -> (r: bool)
        requires
            self.wf(),
        ensures
            r == (tok_at(self.tokens(), self.position() as int).0.kind() == kind),
    {
        self.current_kind() == kind
    }

    /// Moves past the token at the cursor and returns it; past the last
    /// token that is the end-of-input sentinel.
    fn advance(&mut self) -> (r: &Spanned<Token>)
        requires
            old(self).wf(),
            old(self).position() < usize::MAX,
        ensures
            (r.value@, r.span) == tok_at(old(self).tokens(), old(self).position() as int),
            final(self).tokens() == old(self).tokens(),
            final(self).position() == old(self).position() + 1,
            final(self).wf() == old(self).wf(),
    {
        let at = self.pos;
        self.pos = self.pos + 1;
        if at < self.tokens.len() {
            &self.tokens[at]
        } else {
            &self.eof
        }
    }

    /// Moves past the token at the cursor and returns it if it is of kind
    /// `kind`; otherwise fails, naming what was expected and what was found.
    fn consume(&mut self, kind: TokenKind) -> (r: Result<&Spanned<Token>, CompileError>)
        requires
            old(self).wf(),
            old(self).position() < usize::MAX,
        ensures
            final(self).tokens() == old(self).tokens(),
            final(self).wf(),
            final(self).position() == old(self).position() + 1,
            ({
                let (t, sp) = tok_at(old(self).tokens(), old(self).position() as int);
                match r {
                    Ok(tok) => t.kind() == kind && (tok.value@, tok.span) == (t, sp),
                    Err(e) => t.kind() != kind && e@ == ErrorModel::Spanned(
                        expected_message(kind, t.kind()),
                        sp,
                    ),
                }
            }),
    {
        let token = self.advance();
        if token.value.kind() == kind {
            Ok(token)
        } else {
            let mut message = String::from_str("expected ");
            message.append(kind.describe());
            message.append(", but found ");
            message.append(token.value.describe());
            Err(CompileError::Spanned(message, token.span))
        }
    }

    fn consume_func_decl_name(&mut self) -> (r: Result<Spanned<String>, CompileError>)
        requires
            old(self).wf(),
            old(self).position() <= old(self).tokens().len(),
        ensures
            final(self).tokens() == old(self).tokens(),
            final(self).wf(),
            ({
                let (t, sp) = tok_at(old(self).tokens(), old(self).position() as int);
                match r {
                    Ok(name) => t == TokenModel::FuncDeclName(name.value@) && name.span == sp
                        && final(self).position() == old(self).position() + 1,
                    Err(e) => !(t is FuncDeclName) && e@ == ErrorModel::Spanned(
                        expected_message(TokenKind::FuncDeclName, t.kind()),
                        sp,
                    ),
                }
            }),
    {
        let token = match self.consume(TokenKind::FuncDeclName) {
            Ok(token) => token,
            Err(e) => return Err(e),
        };
        match &token.value {
            Token::FuncDeclName(name) => Ok(Spanned::new(name.clone(), token.span)),
            _ => {
                proof {
                    assert(false);
                }
                Err(CompileError::General(String::new()))
            },
        }
    }

    fn parse_number_literal(&mut self) -> (r: Result<Spanned<Statement>, CompileError>)
        requires
            old(self).wf(),
            old(self).position() <= old(self).tokens().len(),
            tok_at(old(self).tokens(), old(self).position() as int).0 is NumberLiteral,
        ensures
            final(self).tokens() == old(self).tokens(),
            final(self).wf(),
            final(self).position() == old(self).position() + 1,
            r matches Ok(st) && statement_at(old(self).tokens(), old(self).position() as int) == Ok::<
                (StatementModel, Span),
                ErrorModel,
            >((st.value@, st.span)),
    {
        let token = match self.consume(TokenKind::NumberLiteral) {
            Ok(token) => token,
            Err(e) => return Err(e),
        };
        match &token.value {
            Token::NumberLiteral(num) => Ok(Spanned::new(Statement::PushNumber(*num), token.span)),
            _ => {
                proof {
                    assert(false);
                }
                Err(CompileError::General(String::new()))
            },
        }
    }

    fn parse_string_literal(&mut self) -> (r: Result<Spanned<Statement>, CompileError>)
        requires
            old(self).wf(),
            old(self).position() <= old(self).tokens().len(),
            tok_at(old(self).tokens(), old(self).position() as int).0 is StringLiteral,
        ensures
            final(self).tokens() == old(self).tokens(),
            final(self).wf(),
            final(self).position() == old(self).position() + 1,
            r matches Ok(st) && statement_at(old(self).tokens(), old(self).position() as int) == Ok::<
                (StatementModel, Span),
                ErrorModel,
            >((st.value@, st.span)),
    {
        let token = match self.consume(TokenKind::StringLiteral) {
            Ok(token) => token,
            Err(e) => return Err(e),
        };
        match &token.value {
            Token::StringLiteral(string) => Ok(
                Spanned::new(Statement::PushString(string.clone()), token.span),
            ),
            _ => {
                proof {
                    assert(false);
                }
                Err(CompileError::General(String::new()))
            },
        }
    }

    fn parse_func_call(&mut self) -> (r: Result<Spanned<Statement>, CompileError>)
        requires
            old(self).wf(),
            old(self).position() <= old(self).tokens().len(),
            tok_at(old(self).tokens(), old(self).position() as int).0 is FuncName,
        ensures
            final(self).tokens() == old(self).tokens(),
            final(self).wf(),
            final(self).position() == old(self).position() + 1,
            r matches Ok(st) && statement_at(old(self).tokens(), old(self).position() as int) == Ok::<
                (StatementModel, Span),
                ErrorModel,
            >((st.value@, st.span)),
    {
        let token = match self.consume(TokenKind::FuncName) {
            Ok(token) => token,
            Err(e) => return Err(e),
        };
        match &token.value {
            Token::FuncName(name) => Ok(Spanned::new(Statement::CallFunc(name.clone()), token.span)),
            _ => {
                proof {
                    assert(false);
                }
                Err(CompileError::General(String::new()))
            },
        }
    }

    /// Parses one statement: a number or string literal, or a call.
    fn parse_statement(&mut self) -> (r: Result<Spanned<Statement>, CompileError>)
        requires
            old(self).wf(),
            old(self).position() <= old(self).tokens().len(),
        ensures
            final(self).tokens() == old(self).tokens(),
            final(self).wf(),
            match r {
                Ok(st) => statement_at(old(self).tokens(), old(self).position() as int) == Ok::<
                    (StatementModel, Span),
                    ErrorModel,
                >((st.value@, st.span)) && old(self).position() < old(self).tokens().len()
                    && final(self).position() == old(self).position() + 1,
                Err(e) => statement_at(old(self).tokens(), old(self).position() as int) == Err::<
                    (StatementModel, Span),
                    ErrorModel,
                >(e@) && final(self).position() == old(self).position(),
            },
    {
        match self.current_kind() {
            TokenKind::NumberLiteral => self.parse_number_literal(),
            TokenKind::StringLiteral => self.parse_string_literal(),
            TokenKind::FuncName => self.parse_func_call(),
            _ => {
                let token = self.current();
                let mut message = String::from_str("expected a statement, but found ");
                message.append(token.value.describe());
                message.append(". a statement is a literal or a function call");
                Err(CompileError::Spanned(message, token.span))
            },
        }
    }

    /// Parses one declaration: a name, `{`, statements, `}`.
    fn parse_named_func_decl(&mut self) -> (r: Result<(String, Spanned<Func>), CompileError>)
        requires
            old(self).wf(),
            old(self).position() <= old(self).tokens().len(),
        ensures
            final(self).tokens() == old(self).tokens(),
            final(self).wf(),
            match r {
                Ok((name, f)) => parse_decl(old(self).tokens(), old(self).position()) == Ok::<
                    (DeclModel, nat),
                    ErrorModel,
                >(((name@, f.value@, f.span), final(self).position())),
                Err(e) => parse_decl(old(self).tokens(), old(self).position()) == Err::<
                    (DeclModel, nat),
                    ErrorModel,
                >(e@),
            },
    {
        let ghost ts = self.tokens();
        let ghost p0 = self.position();
        let name = match self.consume_func_decl_name() {
            Ok(name) => name,
            Err(e) => return Err(e),
        };
        let mut statements: Vec<Spanned<Statement>> = Vec::new();
        match self.consume(TokenKind::OpenCurly) {
            Ok(_) => {},
            Err(e) => return Err(e),
        }
        assert(statements_model(statements@) + Seq::empty() =~= Seq::<(StatementModel, Span)>::empty());
        while !self.check(TokenKind::CloseCurly)
            invariant
                self.wf(),
                self.tokens() == ts,
                ts == old(self).tokens(),
                p0 == old(self).position(),
                p0 + 2 <= self.position() <= ts.len(),
                tok_at(ts, p0 as int) == (TokenModel::FuncDeclName(name.value@), name.span),
                tok_at(ts, (p0 + 1) as int).0 is OpenCurly,
                forall|b: Seq<(StatementModel, Span)>, q: nat|
                    parse_body(ts, self.position()) == Ok::<(Seq<(StatementModel, Span)>, nat), ErrorModel>((b, q))
                    ==> #[trigger] parse_body(ts, p0 + 2) == Ok::<(Seq<(StatementModel, Span)>, nat), ErrorModel>(
                        (statements_model(statements@) + b, q),
                    ),
                parse_body(ts, self.position()) is Err ==> parse_body(ts, p0 + 2) == parse_body(ts, self.position()),
            decreases ts.len() - self.position(),
        {
            let ghost before = statements@;
            let ghost p = self.position();
            match self.parse_statement() {
                Ok(st) => {
                    statements.push(st);
                    assert(statements_model(statements@) =~= statements_model(before).push((st.value@, st.span)));
                    assert forall|b: Seq<(StatementModel, Span)>, q: nat|
                        parse_body(ts, self.position()) == Ok::<(Seq<(StatementModel, Span)>, nat), ErrorModel>((b, q))
                        implies #[trigger] parse_body(ts, p0 + 2) == Ok::<(Seq<(StatementModel, Span)>, nat), ErrorModel>(
                            (statements_model(statements@) + b, q),
                        ) by {
                        assert(statements_model(before) + (seq![(st.value@, st.span)] + b) =~= statements_model(statements@) + b);
                    }
                },
                Err(e) => {
                    return Err(e);
                },
            }
        }
        let ghost pc = self.position();
        let close = match self.consume(TokenKind::CloseCurly) {
            Ok(close) => close,
            Err(e) => return Err(e),
        };
        proof {
            assert(parse_body(ts, pc) == Ok::<(Seq<(StatementModel, Span)>, nat), ErrorModel>((Seq::empty(), pc)));
            assert(statements_model(statements@) + Seq::empty() =~= statements_model(statements@));
            assert(parse_body(ts, p0 + 2) == Ok::<(Seq<(StatementModel, Span)>, nat), ErrorModel>(
                (statements_model(statements@) + Seq::empty(), pc),
            ));
            assert(parse_body(ts, p0 + 2) == Ok::<(Seq<(StatementModel, Span)>, nat), ErrorModel>(
                (statements_model(statements@), pc),
            ));
        }
        let end_span = close.span;
        Ok((name.value, Spanned::new(Func::new(statements), Span::unioned(name.span, end_span))))
    }

    /// Parses declarations up to the end of input into a program.
    pub fn parse(&mut self) -> (r: Result<Program, CompileError>)
        requires
            old(self).wf(),
        ensures
            match r {
                Ok(prog) => parse_program(old(self).tokens(), old(self).position()) == Ok::<Seq<DeclModel>, ErrorModel>(prog@),
                Err(e) => parse_program(old(self).tokens(), old(self).position()) == Err::<Seq<DeclModel>, ErrorModel>(e@),
            },
    {
        let ghost ts = self.tokens();
        let ghost p0 = self.position();
        let mut funcs: Vec<(String, Spanned<Func>)> = Vec::new();
        while !self.is_eof()
            invariant
                self.wf(),
                self.tokens() == ts,
                ts == old(self).tokens(),
                p0 == old(self).position(),
                forall|rest: Seq<DeclModel>|
                    parse_program(ts, self.position()) == Ok::<Seq<DeclModel>, ErrorModel>(rest)
                    ==> #[trigger] parse_program(ts, p0) == Ok::<Seq<DeclModel>, ErrorModel>(decls_model(funcs@) + rest),
                parse_program(ts, self.position()) is Err ==> parse_program(ts, p0) == parse_program(ts, self.position()),
            decreases ts.len() - self.position(),
        {
            let ghost before = funcs@;
            let ghost p = self.position();
            match self.parse_named_func_decl() {
                Ok(decl) => {
                    proof {
                        let q = self.position();
                        lemma_body_bounds(ts, p + 2);
                    }
                    funcs.push(decl);
                    assert(decls_model(funcs@) =~= decls_model(before).push((decl.0@, decl.1.value@, decl.1.span)));
                    assert forall|rest: Seq<DeclModel>|
                        parse_program(ts, self.position()) == Ok::<Seq<DeclModel>, ErrorModel>(rest)
                        implies #[trigger] parse_program(ts, p0) == Ok::<Seq<DeclModel>, ErrorModel>(decls_model(funcs@) + rest) by {
                        assert(decls_model(before) + (seq![(decl.0@, decl.1.value@, decl.1.span)] + rest) =~= decls_model(funcs@) + rest);
                    }
                },
                Err(e) => {
                    return Err(e);
                },
            }
        }
        assert(decls_model(funcs@) + Seq::empty() =~= decls_model(funcs@));
        Ok(Program::new(funcs))
    }
}

} // verus!
