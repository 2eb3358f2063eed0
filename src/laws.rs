use vstd::prelude::*;
use crate::lexer::lex;
use crate::semantics::{
    arith, eval_line, eval_tokens, exact, resolve, run_lines, step, Fault, Run, Side, Vars,
};
use crate::token::{Lexeme, Op};

verus! {

/// A line of the form `a op b`, with an arithmetic operator and operands that
/// resolve, prints exactly `exact(op, a, b)`; a zero divisor fails with a
/// division error, and a result outside 32 bits with an overflow error.
pub proof fn law_arithmetic_line(vars: Vars, s: Seq<char>, line: int, a: Lexeme, op: Op, b: Lexeme)
    requires
        lex(s) == Ok::<Seq<Lexeme>, Seq<char>>(seq![a, Lexeme::Op(op), b]),
        op != Op::Assign,
        resolve(vars, Some(a), Side::Left, line) is Ok,
        resolve(vars, Some(b), Side::Right, line) is Ok,
    ensures
        ({
            let x = resolve(vars, Some(a), Side::Left, line)->Ok_0;
            let y = resolve(vars, Some(b), Side::Right, line)->Ok_0;
            let r = eval_line(vars, s, line);
            &&& r.vars == vars
            &&& op == Op::Div && y == 0 ==> r.printed == Seq::<i32>::empty() && r.fault == Some(
                Fault::DivisionByZero { line },
            )
            &&& !(op == Op::Div && y == 0) && i32::MIN <= exact(op, x as int, y as int)
                <= i32::MAX ==> r.printed == seq![exact(op, x as int, y as int) as i32]
                && r.fault is None
            &&& !(op == Op::Div && y == 0) && !(i32::MIN <= exact(op, x as int, y as int)
                <= i32::MAX) ==> r.printed == Seq::<i32>::empty() && r.fault == Some(
                Fault::Overflow { line },
            )
        }),
{
    let toks = seq![a, Lexeme::Op(op), b];
    let r1 = eval_tokens(vars, toks, line, 1);
    let r2 = eval_tokens(vars, toks, line, 2);
    let r3 = eval_tokens(vars, toks, line, 3);
    assert(eval_tokens(vars, toks, line, 0).printed == Seq::<i32>::empty());
    assert(r1 == Run { vars, printed: seq![], fault: None }) by {
        assert(seq![] + seq![] =~= Seq::<i32>::empty());
    }
    assert(r2 == eval_tokens(vars, toks, line, 3)) by {
        assert(r2.printed + seq![] =~= r2.printed);
    }
    assert(r2.printed =~= Seq::<i32>::empty() + r2.printed);
}

/// A line `let n = v` binds `n` to `v`, prints nothing and does not fail.
pub proof fn law_let_line(vars: Vars, s: Seq<char>, line: int, n: Seq<char>, v: i32)
    requires
        lex(s) == Ok::<Seq<Lexeme>, Seq<char>>(
            seq![Lexeme::Let, Lexeme::Name(n), Lexeme::Op(Op::Assign), Lexeme::Int(v)],
        ),
    ensures
        eval_line(vars, s, line) == (Run { vars: vars.insert(n, v), printed: seq![], fault: None }),
{
    let toks = seq![Lexeme::Let, Lexeme::Name(n), Lexeme::Op(Op::Assign), Lexeme::Int(v)];
    assert(toks[0] == Lexeme::Let && toks[1] == Lexeme::Name(n) && toks[2] == Lexeme::Op(
        Op::Assign,
    ) && toks[3] == Lexeme::Int(v));
    assert(eval_tokens(vars, toks, line, 0) == Run { vars, printed: seq![], fault: None });
    assert(eval_tokens(vars, toks, line, 1) == Run { vars, printed: seq![], fault: None }) by {
        assert(Seq::<i32>::empty() + seq![] =~= Seq::<i32>::empty());
    }
    assert(eval_tokens(vars, toks, line, 2) == Run { vars, printed: seq![], fault: None }) by {
        assert(Seq::<i32>::empty() + seq![] =~= Seq::<i32>::empty());
    }
    assert(eval_tokens(vars, toks, line, 3) == Run {
        vars: vars.insert(n, v),
        printed: seq![],
        fault: None,
    }) by {
        assert(Seq::<i32>::empty() + seq![] =~= Seq::<i32>::empty());
    }
    assert(eval_tokens(vars, toks, line, 4) == Run {
        vars: vars.insert(n, v),
        printed: seq![],
        fault: None,
    }) by {
        assert(Seq::<i32>::empty() + seq![] =~= Seq::<i32>::empty());
    }
}

/// After `let n = v`, a following line `n op w` uses `v` for `n`.
pub proof fn law_binding_used(vars: Vars, s1: Seq<char>, s2: Seq<char>, n: Seq<char>, v: i32, op: Op, w: i32)
    requires
        lex(s1) == Ok::<Seq<Lexeme>, Seq<char>>(
            seq![Lexeme::Let, Lexeme::Name(n), Lexeme::Op(Op::Assign), Lexeme::Int(v)],
        ),
        lex(s2) == Ok::<Seq<Lexeme>, Seq<char>>(
            seq![Lexeme::Name(n), Lexeme::Op(op), Lexeme::Int(w)],
        ),
        op != Op::Assign,
    ensures
        ({
            let r = run_lines(vars, seq![s1, s2], 0, 2);
            &&& r.vars == vars.insert(n, v)
            &&& arith(op, v, w, 2) matches Ok(x) ==> r.printed == seq![x] && r.fault is None
            &&& arith(op, v, w, 2) matches Err(e) ==> r.printed == Seq::<i32>::empty() && r.fault
                == Some(e)
        }),
{
    let lines = seq![s1, s2];
    let m = vars.insert(n, v);
    law_let_line(vars, s1, 1, n, v);
    law_arithmetic_line(m, s2, 2, Lexeme::Name(n), op, Lexeme::Int(w));
    let r1 = run_lines(vars, lines, 0, 1);
    assert(run_lines(vars, lines, 0, 0).printed == Seq::<i32>::empty());
    assert(r1.printed =~= Seq::<i32>::empty());
    assert(r1.vars == m);
    let l = eval_line(m, s2, 2);
    assert(r1.printed + l.printed =~= l.printed);
}

/// Binding a name twice, the later value wins: after `let n = v1` and
/// `let n = v2`, a line `n op w` uses `v2` for `n`.
pub proof fn law_last_binding_wins(
    vars: Vars,
    s1: Seq<char>,
    s2: Seq<char>,
    s3: Seq<char>,
    n: Seq<char>,
    v1: i32,
    v2: i32,
    op: Op,
    w: i32,
)
    requires
        lex(s1) == Ok::<Seq<Lexeme>, Seq<char>>(
            seq![Lexeme::Let, Lexeme::Name(n), Lexeme::Op(Op::Assign), Lexeme::Int(v1)],
        ),
        lex(s2) == Ok::<Seq<Lexeme>, Seq<char>>(
            seq![Lexeme::Let, Lexeme::Name(n), Lexeme::Op(Op::Assign), Lexeme::Int(v2)],
        ),
        lex(s3) == Ok::<Seq<Lexeme>, Seq<char>>(
            seq![Lexeme::Name(n), Lexeme::Op(op), Lexeme::Int(w)],
        ),
        op != Op::Assign,
    ensures
        ({
            let r = run_lines(vars, seq![s1, s2, s3], 0, 3);
            &&& r.vars[n] == v2
            &&& arith(op, v2, w, 3) matches Ok(x) ==> r.printed == seq![x] && r.fault is None
            &&& arith(op, v2, w, 3) matches Err(e) ==> r.printed == Seq::<i32>::empty() && r.fault
                == Some(e)
        }),
{
    let lines = seq![s1, s2, s3];
    let m1 = vars.insert(n, v1);
    let m2 = m1.insert(n, v2);
    law_let_line(vars, s1, 1, n, v1);
    law_let_line(m1, s2, 2, n, v2);
    law_arithmetic_line(m2, s3, 3, Lexeme::Name(n), op, Lexeme::Int(w));
    assert(run_lines(vars, lines, 0, 0).printed == Seq::<i32>::empty());
    let r1 = run_lines(vars, lines, 0, 1);
    assert(r1.printed =~= Seq::<i32>::empty());
    let r2 = run_lines(vars, lines, 0, 2);
    assert(r2.printed =~= Seq::<i32>::empty());
    assert(r2.vars == m2);
    let l = eval_line(m2, s3, 3);
    assert(r2.printed + l.printed =~= l.printed);
}

/// An unbound name in an operand slot fails with an error naming it and the line:
/// on the left of an arithmetic operator, on its right when the left resolves,
/// and as the value of an assignment.
pub proof fn law_unbound_operand(vars: Vars, toks: Seq<Lexeme>, i: int, line: int, n: Seq<char>)
    requires
        0 <= i < toks.len(),
        !vars.contains_key(n),
    ensures
        toks[i] matches Lexeme::Op(op) && op != Op::Assign && i > 0 && toks[i - 1] == Lexeme::Name(n)
            ==> step(vars, toks, i, line) == Err::<(Vars, Option<i32>), Fault>(
            Fault::UnboundVariable { line, name: n },
        ),
        toks[i] matches Lexeme::Op(op) && op != Op::Assign && i > 0 && i + 1 < toks.len()
            && resolve(vars, Some(toks[i - 1]), Side::Left, line) is Ok && toks[i + 1]
            == Lexeme::Name(n) ==> step(vars, toks, i, line) == Err::<(Vars, Option<i32>), Fault>(
            Fault::UnboundVariable { line, name: n },
        ),
        toks[i] == Lexeme::Op(Op::Assign) && i >= 2 && toks[i - 2] == Lexeme::Let && toks[i
            - 1] is Name && i + 1 < toks.len() && toks[i + 1] == Lexeme::Name(n) ==> step(
            vars,
            toks,
            i,
            line,
        ) == Err::<(Vars, Option<i32>), Fault>(Fault::UnboundVariable { line, name: n }),
{
}

/// An `=` that is not preceded by `let <name>` fails with a malformed-assignment error.
pub proof fn law_assignment_needs_let(vars: Vars, toks: Seq<Lexeme>, i: int, line: int)
    requires
        0 <= i < toks.len(),
        toks[i] == Lexeme::Op(Op::Assign),
        !(i >= 2 && toks[i - 2] == Lexeme::Let && toks[i - 1] is Name),
    ensures
        step(vars, toks, i, line) matches Err(Fault::MalformedAssignment { line: l, .. }) && l
            == line,
{
}

} // verus!
