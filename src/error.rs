use vstd::prelude::*;

use vstd::utf8::encode_utf8;

use crate::tokenizer::{
    byte_offset, byte_offsets, byte_pos, chars_of, find_from, lemma_offset_fits, scan_until, Span,
};

verus! {

/// A diagnostic: a message, optionally bound to the source range it is about.
#[derive(Debug)]
pub enum CompileError {
    General(String),
    Spanned(String, Span),
}

/// The mathematical model of a diagnostic.
pub enum ErrorModel {
    General(Seq<char>),
    Spanned(Seq<char>, Span),
}

impl View for CompileError {
    type V = ErrorModel;

    open spec fn view(&self) -> ErrorModel {
        match self {
            CompileError::General(m) => ErrorModel::General(m@),
            CompileError::Spanned(m, s) => ErrorModel::Spanned(m@, *s),
        }
    }
}

impl ErrorModel {
    pub open spec fn message(self) -> Seq<char> {
        match self {
            ErrorModel::General(m) => m,
            ErrorModel::Spanned(m, _) => m,
        }
    }
}

impl CompileError {
    /// The human-readable message of the diagnostic.
    pub fn message(&self) -> (r: &String)
        ensures
            r@ == self@.message(),
    {
        match self {
            CompileError::General(msg) => msg,
            CompileError::Spanned(msg, _) => msg,
        }
    }
}

/// The number of newlines among the first `k` characters of `s`.
pub open spec fn newlines_before(s: Seq<char>, k: nat) -> nat
    decreases k,
{
    if k == 0 || k > s.len() {
        0
    } else if s[k - 1] == '\n' {
        newlines_before(s, (k - 1) as nat) + 1
    } else {
        newlines_before(s, (k - 1) as nat)
    }
}

/// The start of the line that holds position `k`: just after the last
/// newline before `k`, or 0.
pub open spec fn line_start(s: Seq<char>, k: nat) -> nat
    decreases k,
{
    if k == 0 || k > s.len() {
        0
    } else if s[k - 1] == '\n' {
        k
    } else {
        line_start(s, (k - 1) as nat)
    }
}

/// The text of the line that holds position `k`, without its line ending
/// (`\n` or `\r\n`).
pub open spec fn line_text(s: Seq<char>, k: nat) -> Seq<char> {
    let a = line_start(s, k);
    let e = find_from(s, k, '\n');
    if e < s.len() && a < e && s[e - 1] == '\r' {
        s.subrange(a as int, e - 1)
    } else {
        s.subrange(a as int, e as int)
    }
}

/// The number of decimal digits of `n`.
pub open spec fn digit_count(n: nat) -> nat
    decreases n,
{
    if n < 10 {
        1
    } else {
        digit_count(n / 10) + 1
    }
}

/// Where a located diagnostic points in the source: the zero-based line
/// number, that line's text, the number of columns before the underline
/// (the width of the `<line> | ` gutter plus the column, in characters, of
/// the span's start), and the width of the underline (the span's length in
/// bytes, at least 1).
#[derive(Debug)]
pub struct Excerpt {
    pub line_number: usize,
    pub line: String,
    pub padding: usize,
    pub underline: usize,
}

/// The first character of `s`, from `k` on, whose byte offset is at least
/// `b`; the end of `s` if there is none.
pub open spec fn char_at_byte(s: Seq<char>, b: nat, k: nat) -> nat
    decreases s.len() - k,
{
    if k >= s.len() || byte_offset(s, k as int) >= b {
        k
    } else {
        char_at_byte(s, b, k + 1)
    }
}

/// The character a span points at in `s`: the one at the span's starting
/// byte, or the end of `s` where the start lies past it.
pub open spec fn anchor(s: Seq<char>, sp: Span) -> nat {
    char_at_byte(s, sp.0 as nat, 0)
}

proof fn lemma_line_start_bound(s: Seq<char>, k: nat)
    ensures
        line_start(s, k) <= k,
        k <= s.len() ==> line_start(s, k) <= s.len(),
    decreases k,
{
    if k > 0 && k <= s.len() && s[k - 1] != '\n' {
        lemma_line_start_bound(s, (k - 1) as nat);
    }
}

proof fn lemma_digit_count_bound(n: nat)
    ensures
        1 <= digit_count(n) <= n + 1,
        n >= 1 ==> digit_count(n) <= n,
    decreases n,
{
    if n >= 10 {
        lemma_digit_count_bound(n / 10);
    }
}

fn digit_width(n: usize) -> (r: usize)
    ensures
        r == digit_count(n as nat),
        r <= n + 1,
{
    proof { lemma_digit_count_bound(n as nat); }
    let mut m = n;
    let mut w: usize = 1;
    while m >= 10
        invariant
            digit_count(n as nat) == digit_count(m as nat) + w - 1,
            1 <= w,
            digit_count(n as nat) <= n + 1,
            n >= 1 ==> digit_count(n as nat) <= n,
            m <= n,
        decreases m,
    {
        proof { lemma_digit_count_bound((m / 10) as nat); }
        m = m / 10;
        w = w + 1;
    }
    w
}

impl CompileError {
    /// The source excerpt that a located diagnostic is shown with; none for
    /// a general one.
    pub fn excerpt(&self, source: &str) -> (r: Option<Excerpt>)
        requires
            source@.len() + 24 <= usize::MAX,
        ensures
            match self@ {
                ErrorModel::General(_) => r is None,
                ErrorModel::Spanned(_, sp) => r matches Some(x) && {
                    let k = anchor(source@, sp);
                    &&& x.line_number == newlines_before(source@, k)
                    &&& x.line@ == line_text(source@, k)
                    &&& x.padding == digit_count(x.line_number as nat) + 3 + (k - line_start(source@, k))
                    &&& x.underline == (if sp.0 < sp.1 { sp.1 - sp.0 } else { 1 })
                },
            },
    {
        match self {
            CompileError::General(_) => None,
            CompileError::Spanned(_, span) => {
                let cs = chars_of(source);
                let offsets = byte_offsets(source, &cs);
                let mut k: usize = 0;
                while k < cs.len() && offsets[k] < span.0
                    invariant
                        k <= cs.len(),
                        cs@ == source@,
                        offsets@.len() == cs@.len() + 1,
                        forall|m: int| 0 <= m <= cs@.len() ==> offsets@[m] == byte_pos(cs@, m),
                        char_at_byte(cs@, span.0 as nat, k as nat) == anchor(cs@, *span),
                        encode_utf8(cs@).len() <= usize::MAX,
                    decreases cs.len() - k,
                {
                    proof { lemma_offset_fits(cs@, k as int); }
                    k = k + 1;
                }
                proof {
                    if k < cs.len() {
                        lemma_offset_fits(cs@, k as int);
                    }
                }
                let mut line_number: usize = 0;
                let mut start: usize = 0;
                let mut j: usize = 0;
                while j < k
                    invariant
                        k <= cs.len(),
                        cs@ == source@,
                        j <= k,
                        start <= j,
                        line_number <= start,
                        line_number == newlines_before(cs@, j as nat),
                        start == line_start(cs@, j as nat),
                    decreases k - j,
                {
                    if cs[j] == '\n' {
                        line_number = line_number + 1;
                        start = j + 1;
                    }
                    j = j + 1;
                }
                let e = scan_until(&cs, k, '\n');
                let line_end = if e < cs.len() && start < e && cs[e - 1] == '\r' { e - 1 } else { e };
                let line = String::from_str(source.substring_char(start, line_end));
                let width = digit_width(line_number);
                let underline = if span.0 < span.1 { span.1 - span.0 } else { 1 };
                Some(Excerpt { line_number, line, padding: width + 3 + (k - start), underline })
            },
        }
    }
}

} // verus!
