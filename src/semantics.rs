use vstd::prelude::*;
use crate::lexer::lex;
use crate::token::{Lexeme, Op, Token};

verus! {

/// Which neighbour of an operator an operand is.
#[derive(Clone, Copy, Debug, PartialEq, Eq, Structural)]
pub enum Side {
    Left,
    Right,
}

/// What is wrong with an assignment.
#[derive(Clone, Copy, Debug, PartialEq, Eq, Structural)]
pub enum AssignFault {
    /// `=` stands in the first or second slot of the line.
    TooFewTokens,
    /// The slot two before `=` is not `let`.
    MissingLet,
    /// The slot just before `=` is not a variable name.
    MissingName,
}

/// Why a run stopped; `line` counts from 1.
#[derive(Debug)]
pub enum EvalError {
    /// A word is neither a symbol, a name nor an integer literal.
    Lexical { line: usize, word: String },
    /// An operand names a variable that is not bound.
    UnboundVariable { line: usize, name: String },
    /// An operand slot is empty or holds neither a literal nor a name.
    MissingOperand { line: usize, side: Side, found: Option<Token> },
    /// `=` is not preceded by `let <name>`.
    MalformedAssignment { line: usize, fault: AssignFault },
    /// A division by zero.
    DivisionByZero { line: usize },
    /// A result outside the 32-bit range.
    Overflow { line: usize },
}

/// The mathematical value of an [`EvalError`].
pub ghost enum Fault {
    Lexical { line: int, word: Seq<char> },
    UnboundVariable { line: int, name: Seq<char> },
    MissingOperand { line: int, side: Side, found: Option<Lexeme> },
    MalformedAssignment { line: int, fault: AssignFault },
    DivisionByZero { line: int },
    Overflow { line: int },
}

impl Fault {
    /// The line on which the fault arose.
    pub open spec fn line(self) -> int {
        match self {
            Fault::Lexical { line, .. } => line,
            Fault::UnboundVariable { line, .. } => line,
            Fault::MissingOperand { line, .. } => line,
            Fault::MalformedAssignment { line, .. } => line,
            Fault::DivisionByZero { line } => line,
            Fault::Overflow { line } => line,
        }
    }
}

/// The view of an optional token.
pub open spec fn lexeme_of(t: Option<Token>) -> Option<Lexeme> {
    match t {
        Some(t) => Some(t@),
        None => None,
    }
}

impl View for EvalError {
    type V = Fault;

    open spec fn view(&self) -> Fault {
        match self {
            EvalError::Lexical { line, word } => Fault::Lexical { line: *line as int, word: word@ },
            EvalError::UnboundVariable { line, name } => Fault::UnboundVariable {
                line: *line as int,
                name: name@,
            },
            EvalError::MissingOperand { line, side, found } => Fault::MissingOperand {
                line: *line as int,
                side: *side,
                found: lexeme_of(*found),
            },
            EvalError::MalformedAssignment { line, fault } => Fault::MalformedAssignment {
                line: *line as int,
                fault: *fault,
            },
            EvalError::DivisionByZero { line } => Fault::DivisionByZero { line: *line as int },
            EvalError::Overflow { line } => Fault::Overflow { line: *line as int },
        }
    }
}

/// A result with its error viewed.
pub open spec fn faults<T>(r: Result<T, EvalError>) -> Result<T, Fault> {
    match r {
        Ok(v) => Ok(v),
        Err(e) => Err(e@),
    }
}

/// The variable table as a map from names to values.
pub type Vars = Map<Seq<char>, i32>;

/// The token in slot `j`, if the line has one there.
pub open spec fn slot(toks: Seq<Lexeme>, j: int) -> Option<Lexeme> {
    if 0 <= j < toks.len() {
        Some(toks[j])
    } else {
        None
    }
}

/// Operand resolution: a literal is its value, a name its binding.
pub open spec fn resolve(vars: Vars, t: Option<Lexeme>, side: Side, line: int) -> Result<i32, Fault> {
    match t {
        Some(Lexeme::Int(v)) => Ok(v),
        Some(Lexeme::Name(n)) => if vars.contains_key(n) {
            Ok(vars[n])
        } else {
            Err(Fault::UnboundVariable { line, name: n })
        },
        _ => Err(Fault::MissingOperand { line, side, found: t }),
    }
}

/// The values of both neighbours of the operator in slot `i`, left first.
pub open spec fn operands(vars: Vars, toks: Seq<Lexeme>, i: int, line: int) -> Result<(i32, i32), Fault> {
    match resolve(vars, slot(toks, i - 1), Side::Left, line) {
        Err(e) => Err(e),
        Ok(a) => match resolve(vars, slot(toks, i + 1), Side::Right, line) {
            Err(e) => Err(e),
            Ok(b) => Ok((a, b)),
        },
    }
}

/// Division truncated toward zero.
pub open spec fn quotient(a: int, b: int) -> int {
    let q = (if a < 0 { -a } else { a }) / (if b < 0 { -b } else { b });
    if (a < 0) == (b < 0) {
        q
    } else {
        -q
    }
}

/// The exact result of an arithmetic operator.
pub open spec fn exact(op: Op, a: int, b: int) -> int {
    match op {
        Op::Add => a + b,
        Op::Sub => a - b,
        Op::Mul => a * b,
        _ => quotient(a, b),
    }
}

/// An arithmetic operator on two values: the exact result where it is
/// defined and fits in 32 bits.
pub open spec fn arith(op: Op, a: i32, b: i32, line: int) -> Result<i32, Fault> {
    if op == Op::Div && b == 0 {
        Err(Fault::DivisionByZero { line })
    } else if i32::MIN <= exact(op, a as int, b as int) <= i32::MAX {
        Ok(exact(op, a as int, b as int) as i32)
    } else {
        Err(Fault::Overflow { line })
    }
}

/// The table after the assignment whose `=` stands in slot `i`.
pub open spec fn assign(vars: Vars, toks: Seq<Lexeme>, i: int, line: int) -> Result<Vars, Fault> {
    if i < 2 {
        Err(Fault::MalformedAssignment { line, fault: AssignFault::TooFewTokens })
    } else if !(toks[i - 2] is Let) {
        Err(Fault::MalformedAssignment { line, fault: AssignFault::MissingLet })
    } else {
        match toks[i - 1] {
            Lexeme::Name(n) => match resolve(vars, slot(toks, i + 1), Side::Right, line) {
                Ok(v) => Ok(vars.insert(n, v)),
                Err(e) => Err(e),
            },
            _ => Err(Fault::MalformedAssignment { line, fault: AssignFault::MissingName }),
        }
    }
}

/// What the token in slot `i` does: the new table and the value printed, if any.
pub open spec fn step(vars: Vars, toks: Seq<Lexeme>, i: int, line: int) -> Result<(Vars, Option<i32>), Fault> {
    match toks[i] {
        Lexeme::Op(Op::Assign) => match assign(vars, toks, i, line) {
            Ok(m) => Ok((m, None)),
            Err(e) => Err(e),
        },
        Lexeme::Op(op) => match operands(vars, toks, i, line) {
            Err(e) => Err(e),
            Ok((a, b)) => match arith(op, a, b, line) {
                Ok(v) => Ok((vars, Some(v))),
                Err(e) => Err(e),
            },
        },
        _ => Ok((vars, None)),
    }
}

/// The state of a run: the table, the values printed so far, and the fault that stopped it.
pub ghost struct Run {
    pub vars: Vars,
    pub printed: Seq<i32>,
    pub fault: Option<Fault>,
}

/// The values of an optional print, as a sequence.
pub open spec fn printed_of(p: Option<i32>) -> Seq<i32> {
    match p {
        Some(v) => seq![v],
        None => seq![],
    }
}

/// Evaluating the first `n` tokens of a line, in order, until one fails.
pub open spec fn eval_tokens(vars: Vars, toks: Seq<Lexeme>, line: int, n: int) -> Run
    decreases n,
{
    if n <= 0 {
        Run { vars, printed: seq![], fault: None }
    } else {
        let r = eval_tokens(vars, toks, line, n - 1);
        if r.fault is Some {
            r
        } else {
            match step(r.vars, toks, n - 1, line) {
                Ok((m, p)) => Run { vars: m, printed: r.printed + printed_of(p), fault: None },
                Err(e) => Run { vars: r.vars, printed: r.printed, fault: Some(e) },
            }
        }
    }
}

/// Evaluating one line of text, numbered `line`.
pub open spec fn eval_line(vars: Vars, s: Seq<char>, line: int) -> Run {
    match lex(s) {
        Err(w) => Run { vars, printed: seq![], fault: Some(Fault::Lexical { line, word: w }) },
        Ok(toks) => eval_tokens(vars, toks, line, toks.len() as int),
    }
}

/// Evaluating the lines with indices `start .. end`, in order, until one fails.
pub open spec fn run_lines(vars: Vars, lines: Seq<Seq<char>>, start: int, end: int) -> Run
    decreases end - start,
{
    if end <= start {
        Run { vars, printed: seq![], fault: None }
    } else {
        let r = run_lines(vars, lines, start, end - 1);
        if r.fault is Some {
            r
        } else {
            let l = eval_line(r.vars, lines[end - 1], end);
            Run { vars: l.vars, printed: r.printed + l.printed, fault: l.fault }
        }
    }
}

/// A token whose step fails reports the line it was given.
pub proof fn lemma_step_line(vars: Vars, toks: Seq<Lexeme>, i: int, line: int)
    requires
        0 <= i < toks.len(),
    ensures
        step(vars, toks, i, line) matches Err(e) ==> e.line() == line,
{
}

/// Once a token fails, the later tokens of the line change nothing.
pub proof fn lemma_tokens_stop(vars: Vars, toks: Seq<Lexeme>, line: int, k: int, n: int)
    requires
        0 <= k <= n,
        eval_tokens(vars, toks, line, k).fault is Some,
    ensures
        eval_tokens(vars, toks, line, n) == eval_tokens(vars, toks, line, k),
    decreases n - k,
{
    if k < n {
        lemma_tokens_stop(vars, toks, line, k, n - 1);
    }
}

/// Once a line fails, the later lines change nothing.
pub proof fn lemma_lines_stop(vars: Vars, lines: Seq<Seq<char>>, start: int, k: int, n: int)
    requires
        start <= k <= n,
        run_lines(vars, lines, start, k).fault is Some,
    ensures
        run_lines(vars, lines, start, n) == run_lines(vars, lines, start, k),
    decreases n - k,
{
    if k < n {
        lemma_lines_stop(vars, lines, start, k, n - 1);
    }
}

/// Evaluating a whole program from a fresh table.
pub open spec fn run_program(lines: Seq<Seq<char>>) -> Run {
    run_lines(Map::empty(), lines, 0, lines.len() as int)
}

} // verus!
