//! The evaluator. Every failure of an executed program is reported as a
//! located diagnostic rather than by aborting: stack underflow, an operand
//! of the wrong type, an unknown name, division by zero, a result that does
//! not fit in `i64`, and calls nested deeper than `MAX_CALL_DEPTH`.
use vstd::prelude::*;

use crate::error::{CompileError, ErrorModel};
use crate::parser::{procedures, statements_model, DeclModel, Program, Statement, StatementModel};
use crate::stack::Stack;
use crate::tokenizer::{Span, Spanned};

verus! {

/// A runtime value.
#[derive(Debug)]
pub enum Value {
    Number(i64),
    String(String),
}

/// The mathematical model of a runtime value.
pub enum ValueModel {
    Number(i64),
    String(Seq<char>),
}

impl View for Value {
    type V = ValueModel;

    open spec fn view(&self) -> ValueModel {
        match self {
            Value::Number(n) => ValueModel::Number(*n),
            Value::String(s) => ValueModel::String(s@),
        }
    }
}

/// The decimal digit `d`, for `0 <= d < 10`.
pub open spec fn digit_char(d: int) -> char {
    "0123456789"@[d]
}

/// The decimal digits of `n`, most significant first, without leading zeros.
pub open spec fn natural_digits(n: nat) -> Seq<char>
    decreases n,
{
    if n < 10 {
        seq![digit_char(n as int)]
    } else {
        natural_digits(n / 10).push(digit_char((n % 10) as int))
    }
}

/// The decimal representation of `n`: a minus sign for a negative number,
/// then its digits.
pub open spec fn decimal(n: int) -> Seq<char> {
    if n < 0 {
        seq!['-'] + natural_digits((-n) as nat)
    } else {
        natural_digits(n as nat)
    }
}

/// The decimal digit `d`, as text.
fn digit_text(d: u64) -> (r: &'static str)
    requires
        d < 10,
    ensures
        r@ == seq![digit_char(d as int)],
{
    let digits = "0123456789";
    proof {
        reveal_strlit("0123456789");
    }
    let r = digits.substring_char(d as usize, (d + 1) as usize);
    assert(r@ =~= seq![digit_char(d as int)]);
    r
}

/// The decimal digits of `m`.
fn natural_text(m: u64) -> (r: String)
    ensures
        r@ == natural_digits(m as nat),
    decreases m,
{
    if m < 10 {
        String::from_str(digit_text(m))
    } else {
        let mut text = natural_text(m / 10);
        text.append(digit_text(m % 10));
        text
    }
}

/// The decimal representation of `n`.
fn decimal_string(n: i64) -> (r: String)
    ensures
        r@ == decimal(n as int),
{
    if n < 0 {
        let magnitude = (-(n as i128)) as u64;
        let mut text = String::from_str("-");
        proof {
            reveal_strlit("-");
        }
        let digits = natural_text(magnitude);
        text.append(digits.as_str());
        assert(text@ =~= decimal(n as int));
        text
    } else {
        natural_text(n as u64)
    }
}

/// How a printed value reads: a number in decimal, a string as its text.
pub open spec fn value_text(v: ValueModel) -> Seq<char> {
    match v {
        ValueModel::Number(n) => decimal(n as int),
        ValueModel::String(s) => s,
    }
}

impl Value {
    /// The text that printing this value shows.
    pub fn to_text(&self) -> (r: String)
        ensures
            r@ == value_text(self@),
    {
        match self {
            Value::Number(n) => decimal_string(*n),
            Value::String(s) => s.clone(),
        }
    }
}

/// A built-in operation over the value stack.
#[derive(Clone, Copy, Debug, PartialEq, Eq, Structural)]
pub enum BuiltIn {
    /// `.`: pops one value and prints it.
    Print,
    /// `+`: pops `[lhs, rhs]` and pushes `lhs + rhs`.
    Add,
    /// `-`: pops `[lhs, rhs]` and pushes `lhs - rhs`.
    Sub,
    /// `*`: pops `[lhs, rhs]` and pushes `lhs * rhs`.
    Mul,
    /// `/`: pops `[lhs, rhs]` and pushes `lhs / rhs`, rounded toward zero.
    Div,
}

/// The registry of built-ins, by symbol.
pub open spec fn builtin_table() -> Seq<(Seq<char>, BuiltIn)> {
    seq![
        ("."@, BuiltIn::Print),
        ("+"@, BuiltIn::Add),
        ("-"@, BuiltIn::Sub),
        ("*"@, BuiltIn::Mul),
        ("/"@, BuiltIn::Div),
    ]
}

/// The built-in registered under `name`: the first entry of the table that
/// carries it.
pub open spec fn builtin_from(table: Seq<(Seq<char>, BuiltIn)>, name: Seq<char>, j: nat) -> Option<BuiltIn>
    decreases table.len() - j,
{
    if j >= table.len() {
        None
    } else if table[j as int].0 == name {
        Some(table[j as int].1)
    } else {
        builtin_from(table, name, j + 1)
    }
}

pub open spec fn builtin_named(name: Seq<char>) -> Option<BuiltIn> {
    builtin_from(builtin_table(), name, 0)
}

/// The checked result of an arithmetic built-in: `None` where the exact
/// result does not fit in `i64` or the divisor is zero.
pub open spec fn arith(op: BuiltIn, lhs: i64, rhs: i64) -> Option<i64> {
    match op {
        BuiltIn::Add => lhs.checked_add(rhs),
        BuiltIn::Sub => lhs.checked_sub(rhs),
        BuiltIn::Mul => lhs.checked_mul(rhs),
        _ => lhs.checked_div(rhs),
    }
}

pub open spec fn underflow_message() -> Seq<char> {
    "stack underflow"@
}

pub open spec fn operand_message() -> Seq<char> {
    "arithmetic operands must be numbers"@
}

pub open spec fn zero_division_message() -> Seq<char> {
    "division by zero"@
}

pub open spec fn overflow_message() -> Seq<char> {
    "arithmetic overflow"@
}

pub open spec fn unknown_message(name: Seq<char>) -> Seq<char> {
    "unknown function "@ + name
}

pub open spec fn depth_message() -> Seq<char> {
    "call depth limit exceeded"@
}

pub open spec fn entry_message() -> Seq<char> {
    "main entry point is not found, try adding \\main {}"@
}

/// Applies built-in `op`, called at `sp`, to the stack `s`: the new stack and
/// the lines printed, or the error. A failing call leaves the stack as it was.
pub open spec fn apply_builtin(op: BuiltIn, s: Seq<ValueModel>, sp: Span) -> Result<
    (Seq<ValueModel>, Seq<Seq<char>>),
    ErrorModel,
> {
    let n = s.len();
    if op == BuiltIn::Print {
        if n < 1 {
            Err(ErrorModel::Spanned(underflow_message(), sp))
        } else {
            Ok((s.drop_last(), seq![value_text(s.last())]))
        }
    } else if n < 2 {
        Err(ErrorModel::Spanned(underflow_message(), sp))
    } else {
        match (s[n - 2], s[n - 1]) {
            (ValueModel::Number(lhs), ValueModel::Number(rhs)) => match arith(op, lhs, rhs) {
                Some(v) => Ok((s.subrange(0, n - 2).push(ValueModel::Number(v)), Seq::empty())),
                None => if op == BuiltIn::Div && rhs == 0 {
                    Err(ErrorModel::Spanned(zero_division_message(), sp))
                } else {
                    Err(ErrorModel::Spanned(overflow_message(), sp))
                },
            },
            _ => Err(ErrorModel::Spanned(operand_message(), sp)),
        }
    }
}

/// Executes `body` from statement `i` on stack `s` with printed lines `out`,
/// allowing `depth` more nested calls of declared procedures: the final stack
/// and lines, or the lines printed before the first error, and that error.
///
/// A call resolves first to a declared procedure, which runs on the same
/// stack, and otherwise to a built-in.
pub open spec fn run_body(
    procs: Map<Seq<char>, (Seq<(StatementModel, Span)>, Span)>,
    body: Seq<(StatementModel, Span)>,
    i: nat,
    s: Seq<ValueModel>,
    out: Seq<Seq<char>>,
    depth: nat,
) -> Result<(Seq<ValueModel>, Seq<Seq<char>>), (Seq<ValueModel>, Seq<Seq<char>>, ErrorModel)>
    decreases depth, body.len() - i,
{
    if i >= body.len() {
        Ok((s, out))
    } else {
        let (st, sp) = body[i as int];
        match st {
            StatementModel::PushNumber(n) => run_body(procs, body, i + 1, s.push(ValueModel::Number(n)), out, depth),
            StatementModel::PushString(t) => run_body(procs, body, i + 1, s.push(ValueModel::String(t)), out, depth),
            StatementModel::CallFunc(name) => if procs.contains_key(name) {
                if depth == 0 {
                    Err((s, out, ErrorModel::Spanned(depth_message(), sp)))
                } else {
                    match run_body(procs, procs[name].0, 0, s, out, (depth - 1) as nat) {
                        Ok((s2, out2)) => run_body(procs, body, i + 1, s2, out2, depth),
                        Err(f) => Err(f),
                    }
                }
            } else {
                match builtin_named(name) {
                    Some(op) => match apply_builtin(op, s, sp) {
                        Ok((s2, printed)) => run_body(procs, body, i + 1, s2, out + printed, depth),
                        Err(e) => Err((s, out, e)),
                    },
                    None => Err((s, out, ErrorModel::Spanned(unknown_message(name), sp))),
                }
            },
        }
    }
}

/// A call of a built-in that finds fewer values on the stack than it takes
/// fails at evaluation with a stack underflow at the call, whatever was
/// printed before.
pub proof fn lemma_short_stack_underflows(
    procs: Map<Seq<char>, (Seq<(StatementModel, Span)>, Span)>,
    name: Seq<char>,
    sp: Span,
    s: Seq<ValueModel>,
    out: Seq<Seq<char>>,
    depth: nat,
)
    requires
        !procs.contains_key(name),
        builtin_named(name) matches Some(op) && s.len() < (if op == BuiltIn::Print { 1int } else { 2int }),
    ensures
        run_body(procs, seq![(StatementModel::CallFunc(name), sp)], 0, s, out, depth) == Err::<
            (Seq<ValueModel>, Seq<Seq<char>>),
            (Seq<ValueModel>, Seq<Seq<char>>, ErrorModel),
        >((s, out, ErrorModel::Spanned(underflow_message(), sp))),
{
}

pub open spec fn values_model(s: Seq<Value>) -> Seq<ValueModel> {
    s.map_values(|v: Value| v@)
}

pub open spec fn lines_model(v: Seq<String>) -> Seq<Seq<char>> {
    v.map_values(|s: String| s@)
}

pub open spec fn registry_model(v: Seq<(String, BuiltIn)>) -> Seq<(Seq<char>, BuiltIn)> {
    v.map_values(|e: (String, BuiltIn)| (e.0@, e.1))
}

/// The built-in registered under `name` in `registry`.
fn lookup_builtin(registry: &Vec<(String, BuiltIn)>, name: &String) -> (r: Option<BuiltIn>)
    ensures
        r == builtin_from(registry_model(registry@), name@, 0),
{
    let ghost table = registry_model(registry@);
    let mut j: usize = 0;
    while j < registry.len()
        invariant
            j <= registry.len(),
            table == registry_model(registry@),
            builtin_from(table, name@, 0) == builtin_from(table, name@, j as nat),
        decreases registry.len() - j,
    {
        if registry[j].0 == *name {
            return Some(registry[j].1);
        }
        j = j + 1;
    }
    None
}

fn spanned_error(message: &str, span: Span) -> (r: CompileError)
    ensures
        r@ == ErrorModel::Spanned(message@, span),
{
    CompileError::Spanned(String::from_str(message), span)
}

/// Applies built-in `op`, called at `span`, to `stack`, appending what it
/// prints to `output`.
fn apply(op: BuiltIn, stack: &mut Stack<Value>, output: &mut Vec<String>, span: Span) -> (r: Result<(), CompileError>)
    ensures
        match apply_builtin(op, values_model(old(stack)@), span) {
            Ok((s2, printed)) => r is Ok && values_model(final(stack)@) == s2 && lines_model(final(output)@)
                == lines_model(old(output)@) + printed,
            Err(e) => r matches Err(x) && x@ == e && final(stack)@ == old(stack)@ && final(output)@
                == old(output)@,
        },
{
    let ghost s0 = values_model(stack@);
    if op == BuiltIn::Print {
        if stack.len() < 1 {
            return Err(spanned_error("stack underflow", span));
        }
        let v = stack.pop();
        let line = v.to_text();
        let ghost out0 = output@;
        output.push(line);
        assert(values_model(stack@) =~= s0.drop_last());
        assert(lines_model(output@) =~= lines_model(out0) + seq![value_text(s0.last())]);
        return Ok(());
    }
    if stack.len() < 2 {
        return Err(spanned_error("stack underflow", span));
    }
    let ghost st = stack@;
    let rhs_value = stack.pop();
    let lhs_value = stack.pop();
    let numbers = match (&lhs_value, &rhs_value) {
        (Value::Number(lhs), Value::Number(rhs)) => Some((*lhs, *rhs)),
        _ => None,
    };
    let (lhs, rhs) = match numbers {
        Some(pair) => pair,
        None => {
            stack.push(lhs_value);
            stack.push(rhs_value);
            assert(stack@ =~= st);
            return Err(spanned_error("arithmetic operands must be numbers", span));
        },
    };
    let result = match op {
        BuiltIn::Add => lhs.checked_add(rhs),
        BuiltIn::Sub => lhs.checked_sub(rhs),
        BuiltIn::Mul => lhs.checked_mul(rhs),
        _ => lhs.checked_div(rhs),
    };
    if result.is_none() {
        stack.push(lhs_value);
        stack.push(rhs_value);
        assert(stack@ =~= st);
    }
    match result {
        Some(v) => {
            stack.push(Value::Number(v));
            assert(values_model(stack@) =~= s0.subrange(0, s0.len() - 2).push(ValueModel::Number(v)));
            assert(lines_model(output@) =~= lines_model(output@) + Seq::<Seq<char>>::empty());
            Ok(())
        },
        None => if op == BuiltIn::Div && rhs == 0 {
            Err(spanned_error("division by zero", span))
        } else {
            Err(spanned_error("arithmetic overflow", span))
        },
    }
}

/// The deepest nesting of procedure calls that evaluation allows; a deeper
/// call fails with a diagnostic rather than exhausting the native stack.
pub const MAX_CALL_DEPTH: usize = 1000;

/// Executes `body` against `stack`, appending printed lines to `output`.
fn exec_body(
    program: &Program,
    registry: &Vec<(String, BuiltIn)>,
    body: &Vec<Spanned<Statement>>,
    stack: &mut Stack<Value>,
    output: &mut Vec<String>,
    depth: usize,
) -> (r: Result<(), CompileError>)
    requires
        registry_model(registry@) == builtin_table(),
    ensures
        match run_body(
            procedures(program@),
            statements_model(body@),
            0,
            values_model(old(stack)@),
            lines_model(old(output)@),
            depth as nat,
        ) {
            Ok((s, out)) => r is Ok && values_model(final(stack)@) == s && lines_model(final(output)@) == out,
            Err((st, out, e)) => r matches Err(x) && x@ == e && values_model(final(stack)@) == st
                && lines_model(final(output)@) == out,
        },
    decreases depth,
{
    let ghost procs = procedures(program@);
    let ghost b = statements_model(body@);
    let ghost whole = run_body(procs, b, 0, values_model(stack@), lines_model(output@), depth as nat);
    let mut i: usize = 0;
    while i < body.len()
        invariant
            i <= body.len(),
            procs == procedures(program@),
            b == statements_model(body@),
            registry_model(registry@) == builtin_table(),
            whole == run_body(procs, b, 0, values_model(old(stack)@), lines_model(old(output)@), depth as nat),
            whole == run_body(procs, b, i as nat, values_model(stack@), lines_model(output@), depth as nat),
        decreases body.len() - i,
    {
        let ghost s0 = values_model(stack@);
        let ghost o0 = lines_model(output@);
        let span = body[i].span;
        match &body[i].value {
            Statement::PushNumber(n) => {
                stack.push(Value::Number(*n));
                assert(values_model(stack@) =~= s0.push(ValueModel::Number(*n)));
            },
            Statement::PushString(t) => {
                stack.push(Value::String(t.clone()));
                assert(values_model(stack@) =~= s0.push(ValueModel::String(t@)));
            },
            Statement::CallFunc(name) => {
                match program.get_func(name.as_str()) {
                    Some(f) => {
                        if depth == 0 {
                            return Err(spanned_error("call depth limit exceeded", span));
                        }
                        match exec_body(program, registry, f.value.statements(), stack, output, depth - 1) {
                            Ok(()) => {},
                            Err(e) => {
                                return Err(e);
                            },
                        }
                    },
                    None => {
                        match lookup_builtin(registry, name) {
                            Some(op) => {
                                match apply(op, stack, output, span) {
                                    Ok(()) => {},
                                    Err(e) => {
                                        return Err(e);
                                    },
                                }
                            },
                            None => {
                                let mut message = String::from_str("unknown function ");
                                message.append(name.as_str());
                                return Err(CompileError::Spanned(message, span));
                            },
                        }
                    },
                }
            },
        }
        i = i + 1;
    }
    Ok(())
}

/// The evaluator: a program, the registry of built-ins, the value stack that
/// all calls share, and the lines printed so far.
pub struct Runtime {
    program: Program,
    builtins: Vec<(String, BuiltIn)>,
    stack: Stack<Value>,
    output: Vec<String>,
}

impl Runtime {
    /// The program being evaluated.
    pub closed spec fn program(&self) -> Seq<DeclModel> {
        self.program@
    }

    /// The registered built-ins, in registration order.
    pub closed spec fn registry(&self) -> Seq<(Seq<char>, BuiltIn)> {
        registry_model(self.builtins@)
    }

    /// The value stack.
    pub closed spec fn values(&self) -> Seq<ValueModel> {
        values_model(self.stack@)
    }

    /// The lines printed so far.
    pub closed spec fn lines(&self) -> Seq<Seq<char>> {
        lines_model(self.output@)
    }

    /// Registers the built-in operations `.`, `+`, `-`, `*` and `/`.
    pub fn insert_builtins(&mut self)
        ensures
            final(self).registry() == builtin_table(),
            final(self).program() == old(self).program(),
            final(self).values() == old(self).values(),
            final(self).lines() == old(self).lines(),
    {
        let mut registry: Vec<(String, BuiltIn)> = Vec::new();
        registry.push((String::from_str("."), BuiltIn::Print));
        registry.push((String::from_str("+"), BuiltIn::Add));
        registry.push((String::from_str("-"), BuiltIn::Sub));
        registry.push((String::from_str("*"), BuiltIn::Mul));
        registry.push((String::from_str("/"), BuiltIn::Div));
        self.builtins = registry;
        assert(self.registry() =~= builtin_table());
    }

    /// An evaluator for `program`, with the built-ins registered, an empty
    /// stack and nothing printed.
    pub fn new(program: Program) -> (r: Self)
        ensures
            r.program() == program@,
            r.registry() == builtin_table(),
            r.values() == Seq::<ValueModel>::empty(),
            r.lines() == Seq::<Seq<char>>::empty(),
    {
        let mut it = Runtime { program, builtins: Vec::new(), stack: Stack::new(), output: Vec::new() };
        it.insert_builtins();
        assert(it.values() =~= Seq::<ValueModel>::empty());
        assert(it.lines() =~= Seq::<Seq<char>>::empty());
        it
    }

    /// The lines printed so far, in order.
    pub fn output(&self) -> (r: &Vec<String>)
        ensures
            lines_model(r@) == self.lines(),
    {
        &self.output
    }

    /// The value stack.
    pub fn stack(&self) -> (r: &Stack<Value>)
        ensures
            values_model(r@) == self.values(),
    {
        &self.stack
    }

    /// Runs the procedure named `entry` on the shared stack. Without such a
    /// procedure this fails with the general diagnostic naming the missing
    /// `main` entry point, and nothing changes.
    pub fn run(&mut self, entry: &str) -> (r: Result<(), CompileError>)
        requires
            old(self).registry() == builtin_table(),
        ensures
            final(self).program() == old(self).program(),
            final(self).registry() == old(self).registry(),
            !procedures(old(self).program()).contains_key(entry@) ==> (r matches Err(x) && x@
                == ErrorModel::General(entry_message()) && final(self).values() == old(self).values()
                && final(self).lines() == old(self).lines()),
            procedures(old(self).program()).contains_key(entry@) ==> match run_body(
                procedures(old(self).program()),
                procedures(old(self).program())[entry@].0,
                0,
                old(self).values(),
                old(self).lines(),
                MAX_CALL_DEPTH as nat,
            ) {
                Ok((s, out)) => r is Ok && final(self).values() == s && final(self).lines() == out,
                Err((st, out, e)) => r matches Err(x) && x@ == e && final(self).values() == st
                    && final(self).lines() == out,
            },
    {
        match self.program.get_func(entry) {
            Some(f) => exec_body(
                &self.program,
                &self.builtins,
                f.value.statements(),
                &mut self.stack,
                &mut self.output,
                MAX_CALL_DEPTH,
            ),
            None => Err(CompileError::General(String::from_str("main entry point is not found, try adding \\main {}"))),
        }
    }
}

} // verus!
