use vstd::prelude::*;
use crate::lexer::{lexemes, tokenize, views};
use crate::semantics::{
    arith, assign, eval_tokens, faults, lemma_lines_stop, lemma_step_line, lemma_tokens_stop,
    operands, printed_of, resolve, run_lines, slot, AssignFault, EvalError, Side, Vars,
};
use crate::table::VarTable;
use crate::token::{Keyword, Lexeme, Op, Token};

verus! {

/// A program: its lines, the cursor of the next line to run, and the variable table.
pub struct Interpreter {
    lines: Vec<String>,
    pointer: usize,
    variables: VarTable,
}

/// The mathematical state of an [`Interpreter`].
pub ghost struct InterpreterView {
    pub lines: Seq<Seq<char>>,
    pub pointer: int,
    pub vars: Vars,
}

impl View for Interpreter {
    type V = InterpreterView;

    closed spec fn view(&self) -> InterpreterView {
        InterpreterView {
            lines: views(self.lines@),
            pointer: self.pointer as int,
            vars: self.variables@,
        }
    }
}

/// The view of an optional token reference.
pub open spec fn lexeme_ref(t: Option<&Token>) -> Option<Lexeme> {
    match t {
        Some(t) => Some(t@),
        None => None,
    }
}

/// Applies an arithmetic operator, failing on a zero divisor or on overflow.
pub fn compute(op: Op, a: i32, b: i32, line: usize) -> (r: Result<i32, EvalError>)
    requires
        op != Op::Assign,
    ensures
        faults(r) == arith(op, a, b, line as int),
{
    let v = match op {
        Op::Add => a.checked_add(b),
        Op::Sub => a.checked_sub(b),
        Op::Mul => a.checked_mul(b),
        _ => {
            if b == 0 {
                return Err(EvalError::DivisionByZero { line });
            }
            a.checked_div(b)
        },
    };
    match v {
        Some(v) => Ok(v),
        None => Err(EvalError::Overflow { line }),
    }
}

impl Interpreter {
    /// The invariant: a well-formed table and a cursor within the program.
    pub closed spec fn wf(&self) -> bool {
        self.variables.wf() && self.pointer <= self.lines@.len()
    }

    /// A program of the given lines, with the cursor on the first and no variables.
    pub fn new(lines: Vec<String>) -> (r: Interpreter)
        ensures
            r.wf(),
            r@.lines == views(lines@),
            r@.pointer == 0,
            r@.vars == Map::<Seq<char>, i32>::empty(),
    {
        Interpreter { lines, pointer: 0, variables: VarTable::new() }
    }

    /// The number, counted from 1, of the line under the cursor.
    pub fn get_line(&self) -> (r: usize)
        requires
            self.wf(),
            self@.pointer < self@.lines.len(),
        ensures
            r == self@.pointer + 1,
    {
        let total = self.lines.len();
        assert(self.pointer < total);
        self.pointer + 1
    }

    /// Resolves an operand: a literal is its value, a name its binding.
    fn resolve(&self, t: Option<&Token>, side: Side) -> (r: Result<i32, EvalError>)
        requires
            self.wf(),
            self@.pointer < self@.lines.len(),
        ensures
            faults(r) == resolve(self@.vars, lexeme_ref(t), side, self@.pointer + 1),
    {
        match t {
            Some(Token::Int(v)) => Ok(*v),
            Some(Token::Keyword(Keyword::VarName(name))) => match self.variables.get(name) {
                Some(v) => Ok(v),
                None => Err(EvalError::UnboundVariable { line: self.get_line(), name: name.clone() }),
            },
            Some(other) => Err(
                EvalError::MissingOperand {
                    line: self.get_line(),
                    side,
                    found: Some(other.duplicate()),
                },
            ),
            None => Err(EvalError::MissingOperand { line: self.get_line(), side, found: None }),
        }
    }

    /// The values of the two neighbours of the operator in slot `i`, left first.
    pub fn get_left_right(&self, tokens: &Vec<Token>, i: usize) -> (r: Result<(i32, i32), EvalError>)
        requires
            self.wf(),
            self@.pointer < self@.lines.len(),
            i < tokens@.len(),
        ensures
            faults(r) == operands(self@.vars, lexemes(tokens@), i as int, self@.pointer + 1),
    {
        let ghost toks = lexemes(tokens@);
        let left = if i > 0 {
            self.resolve(Some(&tokens[i - 1]), Side::Left)
        } else {
            self.resolve(None, Side::Left)
        };
        assert(lexeme_ref(if i > 0 { Some(&tokens@[i - 1]) } else { None }) == slot(toks, i - 1));
        let left = match left {
            Ok(v) => v,
            Err(e) => return Err(e),
        };
        let right = if i < tokens.len() - 1 {
            self.resolve(Some(&tokens[i + 1]), Side::Right)
        } else {
            self.resolve(None, Side::Right)
        };
        assert(lexeme_ref(if i + 1 < tokens@.len() { Some(&tokens@[i + 1]) } else { None })
            == slot(toks, i + 1));
        match right {
            Ok(v) => Ok((left, v)),
            Err(e) => Err(e),
        }
    }

    /// Carries out the assignment whose `=` stands in slot `i`.
    fn assign(&mut self, tokens: &Vec<Token>, i: usize) -> (r: Result<(), EvalError>)
        requires
            old(self).wf(),
            old(self)@.pointer < old(self)@.lines.len(),
            i < tokens@.len(),
        ensures
            final(self).wf(),
            final(self)@.lines == old(self)@.lines,
            final(self)@.pointer == old(self)@.pointer,
            match assign(old(self)@.vars, lexemes(tokens@), i as int, old(self)@.pointer + 1) {
                Ok(m) => r is Ok && final(self)@.vars == m,
                Err(e) => r matches Err(x) && x@ == e && final(self)@.vars == old(self)@.vars,
            },
    {
        let line = self.get_line();
        if i < 2 {
            return Err(EvalError::MalformedAssignment { line, fault: AssignFault::TooFewTokens });
        }
        match &tokens[i - 2] {
            Token::Keyword(Keyword::Let) => {},
            _ => {
                return Err(EvalError::MalformedAssignment { line, fault: AssignFault::MissingLet });
            },
        }
        let name = match &tokens[i - 1] {
            Token::Keyword(Keyword::VarName(name)) => name,
            _ => {
                return Err(EvalError::MalformedAssignment { line, fault: AssignFault::MissingName });
            },
        };
        let value = if i < tokens.len() - 1 {
            self.resolve(Some(&tokens[i + 1]), Side::Right)
        } else {
            self.resolve(None, Side::Right)
        };
        assert(lexeme_ref(if i + 1 < tokens@.len() { Some(&tokens@[i + 1]) } else { None })
            == slot(lexemes(tokens@), i + 1));
        match value {
            Ok(v) => {
                self.variables.insert(name.clone(), v);
                Ok(())
            },
            Err(e) => Err(e),
        }
    }

    /// Evaluates the tokens of the line under the cursor, operator by operator,
    /// appending each arithmetic result to `printed`.
    fn run_tokens(&mut self, tokens: &Vec<Token>, printed: &mut Vec<i32>) -> (r: Result<(), EvalError>)
        requires
            old(self).wf(),
            old(self)@.pointer < old(self)@.lines.len(),
        ensures
            final(self).wf(),
            final(self)@.lines == old(self)@.lines,
            final(self)@.pointer == old(self)@.pointer,
            ({
                let run = eval_tokens(
                    old(self)@.vars,
                    lexemes(tokens@),
                    old(self)@.pointer + 1,
                    tokens@.len() as int,
                );
                &&& final(self)@.vars == run.vars
                &&& final(printed)@ == old(printed)@ + run.printed
                &&& r is Ok <==> run.fault is None
                &&& r matches Err(e) ==> run.fault == Some(e@) && e@.line() == old(self)@.pointer + 1
            }),
    {
        let ghost toks = lexemes(tokens@);
        let ghost vars0 = self@.vars;
        let ghost printed0 = printed@;
        let ghost line = self@.pointer + 1;
        let mut i: usize = 0;
        while i < tokens.len()
            invariant
                self.wf(),
                self@.lines == old(self)@.lines,
                self@.pointer == old(self)@.pointer,
                self@.pointer < self@.lines.len(),
                line == self@.pointer + 1,
                toks == lexemes(tokens@),
                vars0 == old(self)@.vars,
                printed0 == old(printed)@,
                i <= tokens@.len(),
                eval_tokens(vars0, toks, line, i as int).fault is None,
                self@.vars == eval_tokens(vars0, toks, line, i as int).vars,
                printed@ == printed0 + eval_tokens(vars0, toks, line, i as int).printed,
            decreases tokens@.len() - i,
        {
            let ghost before = eval_tokens(vars0, toks, line, i as int);
            proof {
                lemma_step_line(before.vars, toks, i as int, line);
            }
            let out: Result<Option<i32>, EvalError> = match &tokens[i] {
                Token::Op(Op::Assign) => match self.assign(tokens, i) {
                    Ok(()) => Ok(None),
                    Err(e) => Err(e),
                },
                Token::Op(op) => match self.get_left_right(tokens, i) {
                    Ok((a, b)) => match compute(*op, a, b, self.get_line()) {
                        Ok(v) => Ok(Some(v)),
                        Err(e) => Err(e),
                    },
                    Err(e) => Err(e),
                },
                _ => Ok(None),
            };
            match out {
                Ok(p) => {
                    if let Some(v) = p {
                        printed.push(v);
                    }
                    assert(printed@ =~= printed0 + before.printed + printed_of(p));
                },
                Err(e) => {
                    proof {
                        lemma_tokens_stop(vars0, toks, line, i + 1, tokens@.len() as int);
                    }
                    return Err(e);
                },
            }
            i = i + 1;
        }
        Ok(())
    }

    /// Runs the program from the cursor to its end, or to the first line that fails,
    /// appending each value printed to `printed`. On failure the cursor stays on
    /// the failing line.
    pub fn execute(&mut self, printed: &mut Vec<i32>) -> (r: Result<(), EvalError>)
        requires
            old(self).wf(),
        ensures
            final(self).wf(),
            final(self)@.lines == old(self)@.lines,
            ({
                let run = run_lines(
                    old(self)@.vars,
                    old(self)@.lines,
                    old(self)@.pointer,
                    old(self)@.lines.len() as int,
                );
                &&& final(self)@.vars == run.vars
                &&& final(printed)@ == old(printed)@ + run.printed
                &&& r is Ok <==> run.fault is None
                &&& r is Ok ==> final(self)@.pointer == old(self)@.lines.len()
                &&& r matches Err(e) ==> run.fault == Some(e@) && final(self)@.pointer + 1
                    == e@.line()
            }),
    {
        let ghost lines = self@.lines;
        let ghost vars0 = self@.vars;
        let ghost start = self@.pointer;
        let ghost printed0 = printed@;
        while self.pointer < self.lines.len()
            invariant
                self.wf(),
                self@.lines == lines,
                lines == old(self)@.lines,
                vars0 == old(self)@.vars,
                start == old(self)@.pointer,
                printed0 == old(printed)@,
                start <= self@.pointer,
                run_lines(vars0, lines, start, self@.pointer).fault is None,
                self@.vars == run_lines(vars0, lines, start, self@.pointer).vars,
                printed@ == printed0 + run_lines(vars0, lines, start, self@.pointer).printed,
            decreases lines.len() - self@.pointer,
        {
            let ghost k = self@.pointer;
            let ghost before = run_lines(vars0, lines, start, k);
            assert(self.lines@[self.pointer as int]@ == lines[k]);
            let tokens = match tokenize(self.lines[self.pointer].as_str()) {
                Ok(tokens) => tokens,
                Err(word) => {
                    proof {
                        lemma_lines_stop(vars0, lines, start, k + 1, lines.len() as int);
                    }
                    assert(printed@ =~= printed0 + run_lines(vars0, lines, start, k + 1).printed);
                    return Err(EvalError::Lexical { line: self.get_line(), word });
                },
            };
            let ghost printed1 = printed@;
            match self.run_tokens(&tokens, printed) {
                Ok(()) => {},
                Err(e) => {
                    proof {
                        lemma_lines_stop(vars0, lines, start, k + 1, lines.len() as int);
                    }
                    assert(printed@ =~= printed0 + run_lines(vars0, lines, start, k + 1).printed);
                    return Err(e);
                },
            }
            assert(printed@ =~= printed0 + run_lines(vars0, lines, start, k + 1).printed);
            self.pointer = self.pointer + 1;
        }
        Ok(())
    }
}

} // verus!
