use honeycomb::interpreter::compute;
use honeycomb::lexer::{all_letters, classify, parse_int, split_words};
use honeycomb::{tokenize, AssignFault, EvalError, Interpreter, Keyword, Op, Side, Token};

fn run(lines: &[&str]) -> (Vec<i32>, Result<(), EvalError>) {
    let mut it = Interpreter::new(lines.iter().map(|l| l.to_string()).collect());
    let mut printed = Vec::new();
    let r = it.execute(&mut printed);
    (printed, r)
}

#[test]
fn addition_prints_sum() {
    let (p, r) = run(&["2 + 3"]);
    assert!(r.is_ok());
    assert_eq!(p, vec![5]);
}

#[test]
fn each_operator_exact() {
    let (p, r) = run(&["7 + -2", "7 - -2", "7 * -2", "7 / -2", "-7 / 2", "-7 / -2", "0 / 5"]);
    assert!(r.is_ok());
    assert_eq!(p, vec![5, 9, -14, -3, -3, 3, 0]);
}

#[test]
fn division_by_zero_fails() {
    let (p, r) = run(&["1 / 0"]);
    assert!(p.is_empty());
    assert!(matches!(r, Err(EvalError::DivisionByZero { line: 1 })));
}

#[test]
fn subtract_and_multiply_by_zero() {
    let (p, r) = run(&["1 - 0", "1 * 0"]);
    assert!(r.is_ok());
    assert_eq!(p, vec![1, 0]);
}

#[test]
fn let_binding_is_used() {
    let (p, r) = run(&["let x = 5", "x + 0"]);
    assert!(r.is_ok());
    assert_eq!(p, vec![5]);
}

#[test]
fn rebinding_last_write_wins() {
    let (p, r) = run(&["let x = 5", "let x = 7", "x * 1"]);
    assert!(r.is_ok());
    assert_eq!(p, vec![7]);
}

#[test]
fn binding_from_variable() {
    let (p, r) = run(&["let a = 4", "let b = a", "b - a", "a / b"]);
    assert!(r.is_ok());
    assert_eq!(p, vec![0, 1]);
}

#[test]
fn let_then_sum_on_next_line() {
    let (p, r) = run(&["let a = 3", "a + a"]);
    assert!(r.is_ok());
    assert_eq!(p, vec![6]);
}

#[test]
fn unbound_left_operand() {
    let (p, r) = run(&["y + 1"]);
    assert!(p.is_empty());
    match r {
        Err(EvalError::UnboundVariable { line, name }) => {
            assert_eq!(line, 1);
            assert_eq!(name, "y");
        }
        _ => panic!("expected an unbound variable"),
    }
}

#[test]
fn unbound_right_operand_on_second_line() {
    let (p, r) = run(&["1 + 1", "1 + zed"]);
    assert_eq!(p, vec![2]);
    match r {
        Err(EvalError::UnboundVariable { line, name }) => {
            assert_eq!(line, 2);
            assert_eq!(name, "zed");
        }
        _ => panic!("expected an unbound variable"),
    }
}

#[test]
fn unbound_assignment_value() {
    let (_, r) = run(&["let a = b"]);
    match r {
        Err(EvalError::UnboundVariable { line, name }) => {
            assert_eq!(line, 1);
            assert_eq!(name, "b");
        }
        _ => panic!("expected an unbound variable"),
    }
}

#[test]
fn assignment_without_let() {
    let (_, r) = run(&["x = 5"]);
    assert!(matches!(
        r,
        Err(EvalError::MalformedAssignment { line: 1, fault: AssignFault::TooFewTokens })
    ));
    let (_, r) = run(&["1 + 1", "a x = 5"]);
    assert!(matches!(
        r,
        Err(EvalError::MalformedAssignment { line: 2, fault: AssignFault::MissingLet })
    ));
    let (_, r) = run(&["let 3 = 5"]);
    assert!(matches!(
        r,
        Err(EvalError::MalformedAssignment { line: 1, fault: AssignFault::MissingName })
    ));
}

#[test]
fn several_operators_on_one_line() {
    let (p, r) = run(&["1 + 2 * 3"]);
    assert!(r.is_ok());
    assert_eq!(p, vec![3, 6]);
}

#[test]
fn assignment_then_use_on_same_line() {
    let (p, r) = run(&["let x = 5 + x"]);
    assert!(r.is_ok());
    assert_eq!(p, vec![10]);
}

#[test]
fn missing_operands() {
    let (_, r) = run(&["+ 1"]);
    assert!(matches!(
        r,
        Err(EvalError::MissingOperand { line: 1, side: Side::Left, found: None })
    ));
    let (_, r) = run(&["1 +"]);
    assert!(matches!(
        r,
        Err(EvalError::MissingOperand { line: 1, side: Side::Right, found: None })
    ));
    let (_, r) = run(&["1 + let"]);
    assert!(matches!(
        r,
        Err(EvalError::MissingOperand {
            line: 1,
            side: Side::Right,
            found: Some(Token::Keyword(Keyword::Let))
        })
    ));
    let (_, r) = run(&["let x ="]);
    assert!(matches!(
        r,
        Err(EvalError::MissingOperand { line: 1, side: Side::Right, found: None })
    ));
}

#[test]
fn overflow_is_reported() {
    let (_, r) = run(&["2147483647 + 1"]);
    assert!(matches!(r, Err(EvalError::Overflow { line: 1 })));
    let (_, r) = run(&["-2147483648 / -1"]);
    assert!(matches!(r, Err(EvalError::Overflow { line: 1 })));
    let (p, r) = run(&["-2147483648 + 0"]);
    assert!(r.is_ok());
    assert_eq!(p, vec![i32::MIN]);
}

#[test]
fn lexical_error_stops_run() {
    let (p, r) = run(&["1 + 2", "3 + 4x", "5 + 6"]);
    assert_eq!(p, vec![3]);
    match r {
        Err(EvalError::Lexical { line, word }) => {
            assert_eq!(line, 2);
            assert_eq!(word, "4x");
        }
        _ => panic!("expected a lexical error"),
    }
}

#[test]
fn empty_program_and_blank_lines() {
    let (p, r) = run(&[]);
    assert!(r.is_ok());
    assert!(p.is_empty());
    let (p, r) = run(&["", "   ", "let a = 1", "a"]);
    assert!(r.is_ok());
    assert!(p.is_empty());
}

#[test]
fn execute_twice_after_success_does_nothing() {
    let mut it = Interpreter::new(vec!["let a = 2".to_string(), "a * a".to_string()]);
    let mut printed = Vec::new();
    assert!(it.execute(&mut printed).is_ok());
    assert!(it.execute(&mut printed).is_ok());
    assert_eq!(printed, vec![4]);
}

#[test]
fn tokenize_words_in_order() {
    let t = tokenize("  let  x =\t5 ").unwrap();
    assert_eq!(t.len(), 4);
    assert!(matches!(t[0], Token::Keyword(Keyword::Let)));
    assert!(matches!(&t[1], Token::Keyword(Keyword::VarName(n)) if n == "x"));
    assert!(matches!(t[2], Token::Op(Op::Assign)));
    assert!(matches!(t[3], Token::Int(5)));
}

#[test]
fn tokenize_symbols_and_literals() {
    let t = tokenize("+ - * / +5 -0 -2147483648").unwrap();
    assert!(matches!(t[0], Token::Op(Op::Add)));
    assert!(matches!(t[1], Token::Op(Op::Sub)));
    assert!(matches!(t[2], Token::Op(Op::Mul)));
    assert!(matches!(t[3], Token::Op(Op::Div)));
    assert!(matches!(t[4], Token::Int(5)));
    assert!(matches!(t[5], Token::Int(0)));
    assert!(matches!(t[6], Token::Int(i32::MIN)));
    assert!(tokenize("").unwrap().is_empty());
}

#[test]
fn tokenize_rejects_bad_words() {
    assert_eq!(tokenize("1 + 2147483648").unwrap_err(), "2147483648");
    assert_eq!(tokenize("a1 + 2").unwrap_err(), "a1");
    assert_eq!(tokenize("--3").unwrap_err(), "--3");
}

#[test]
fn tokenize_unicode_letters_and_spaces() {
    let t = tokenize("h\u{e9}llo\u{3000}+\u{a0}2").unwrap();
    assert_eq!(t.len(), 3);
    assert!(matches!(&t[0], Token::Keyword(Keyword::VarName(n)) if n == "h\u{e9}llo"));
    assert!(matches!(t[1], Token::Op(Op::Add)));
    assert!(matches!(t[2], Token::Int(2)));
}

#[test]
fn split_words_on_whitespace_runs() {
    assert_eq!(split_words(" a\t\tbc  d\n"), vec!["a", "bc", "d"]);
    assert!(split_words(" \t ").is_empty());
}

#[test]
fn parse_int_cases() {
    assert_eq!(parse_int("42"), Some(42));
    assert_eq!(parse_int("+42"), Some(42));
    assert_eq!(parse_int("-42"), Some(-42));
    assert_eq!(parse_int("007"), Some(7));
    assert_eq!(parse_int("2147483647"), Some(i32::MAX));
    assert_eq!(parse_int("-2147483648"), Some(i32::MIN));
    assert_eq!(parse_int("2147483648"), None);
    assert_eq!(parse_int("99999999999999999999"), None);
    assert_eq!(parse_int(""), None);
    assert_eq!(parse_int("+"), None);
    assert_eq!(parse_int("-"), None);
    assert_eq!(parse_int("1x"), None);
}

#[test]
fn all_letters_cases() {
    assert!(all_letters("abc"));
    assert!(all_letters("\u{4eac}"));
    assert!(!all_letters("ab1"));
    assert!(!all_letters("a b"));
}

#[test]
fn classify_cases() {
    assert!(matches!(classify("let", true), Some(Token::Keyword(Keyword::Let))));
    assert!(matches!(classify("=", false), Some(Token::Op(Op::Assign))));
    assert!(matches!(classify("abc", true), Some(Token::Keyword(Keyword::VarName(_)))));
    assert!(matches!(classify("12", false), Some(Token::Int(12))));
    assert!(classify("1.5", false).is_none());
}

#[test]
fn compute_cases() {
    assert!(matches!(compute(Op::Add, 2, 3, 1), Ok(5)));
    assert!(matches!(compute(Op::Sub, 2, 3, 1), Ok(-1)));
    assert!(matches!(compute(Op::Mul, -4, 3, 1), Ok(-12)));
    assert!(matches!(compute(Op::Div, 9, 4, 1), Ok(2)));
    assert!(matches!(compute(Op::Div, 9, 0, 3), Err(EvalError::DivisionByZero { line: 3 })));
    assert!(matches!(compute(Op::Mul, 65536, 65536, 2), Err(EvalError::Overflow { line: 2 })));
}

#[test]
fn get_line_and_operands() {
    let it = Interpreter::new(vec!["1 + 2".to_string()]);
    assert_eq!(it.get_line(), 1);
    let t = tokenize("8 - 3").unwrap();
    assert!(matches!(it.get_left_right(&t, 1), Ok((8, 3))));
    let t = tokenize("q - 3").unwrap();
    assert!(matches!(it.get_left_right(&t, 1), Err(EvalError::UnboundVariable { line: 1, .. })));
}
