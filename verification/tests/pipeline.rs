use calculator::CalcError;
use calculator::OpType;
use calculator::evaluate_line;

fn eval_str(s: &str) -> Result<i32, CalcError> {
    let chars: Vec<char> = s.chars().collect();
    evaluate_line(&chars)
}

#[test]
fn division_remainder_identity_samples() {
    // (a/b)*b + a%b == a, checked through the pipeline for every sign mix
    for &(a, b) in &[(7, 2), (7, -2), (-7, 2), (-7, -2), (2147483647, 10), (-2147483647, 7)] {
        let line = format!("({}/{})*({}) + {}%({})", a, b, b, a, b);
        assert_eq!(eval_str(&line), Ok(a), "identity failed for {} / {}", a, b);
    }
}

#[test]
fn truncating_division() {
    assert_eq!(eval_str("7/2"), Ok(3));
    assert_eq!(eval_str("7/-2"), Ok(-3));
    assert_eq!(eval_str("-7/2"), Ok(-3));
    assert_eq!(eval_str("-7/-2"), Ok(3));
    assert_eq!(eval_str("7%2"), Ok(1));
    assert_eq!(eval_str("7%-2"), Ok(1));
    assert_eq!(eval_str("-7%2"), Ok(-1));
    assert_eq!(eval_str("-7%-2"), Ok(-1));
}

#[test]
fn left_associativity() {
    assert_eq!(eval_str("10-3-2"), Ok(5));
    assert_eq!(eval_str("100/10/5"), Ok(2));
    assert_eq!(eval_str("17%10%4"), Ok(3));
}

#[test]
fn precedence() {
    assert_eq!(eval_str("2+3*4"), Ok(14));
    assert_eq!(eval_str("(2+3)*4"), Ok(20));
    assert_eq!(eval_str("2-6/3"), Ok(0));
    assert_eq!(eval_str("1+10%3"), Ok(2));
}

#[test]
fn unary_minus_precedence() {
    assert_eq!(eval_str("-2*3"), Ok(-6));
    assert_eq!(eval_str("-(2+3)"), Ok(-5));
    assert_eq!(eval_str("-2+3"), Ok(1));
    assert_eq!(eval_str("2*-3"), Ok(-6));
    assert_eq!(eval_str("1 - -2"), Ok(3));
}

#[test]
fn whitespace_tolerance() {
    assert_eq!(eval_str("  1 + 2 "), Ok(3));
    assert_eq!(eval_str(" ( 1 + 2 ) * 3 "), Ok(9));
}

#[test]
fn tab_is_rejected() {
    assert_eq!(eval_str("1\t+2"), Err(CalcError::GrammarMismatch(1)));
    assert_eq!(eval_str("\t"), Err(CalcError::GrammarMismatch(0)));
    assert_eq!(eval_str("1 +\u{000B}2"), Err(CalcError::GrammarMismatch(3)));
}

#[test]
fn division_and_modulo_by_zero() {
    assert_eq!(eval_str("5/0"), Err(CalcError::DivisionByZero(OpType::Divide)));
    assert_eq!(eval_str("5%0"), Err(CalcError::DivisionByZero(OpType::Modulo)));
    assert_eq!(eval_str("1+5/(3-3)"), Err(CalcError::DivisionByZero(OpType::Divide)));
}

#[test]
fn malformed_lines_are_grammar_mismatches() {
    assert_eq!(eval_str("1+"), Err(CalcError::GrammarMismatch(2)));
    assert_eq!(eval_str("(1+2"), Err(CalcError::GrammarMismatch(4)));
    assert_eq!(eval_str(""), Err(CalcError::GrammarMismatch(0)));
    assert_eq!(eval_str("1+*2"), Err(CalcError::GrammarMismatch(2)));
    assert_eq!(eval_str("--2"), Err(CalcError::GrammarMismatch(1)));
    assert_eq!(eval_str("()"), Err(CalcError::GrammarMismatch(1)));
    assert_eq!(eval_str("1 2"), Err(CalcError::GrammarMismatch(2)));
    assert_eq!(eval_str("a+1"), Err(CalcError::GrammarMismatch(0)));
    assert_eq!(eval_str("1+2)"), Err(CalcError::GrammarMismatch(3)));
}

#[test]
fn resubmission_gives_identical_output() {
    for line in ["2+3*4", "5/0", "1+", "  1 + 2 "] {
        assert_eq!(eval_str(line), eval_str(line));
    }
}

#[test]
fn literal_range() {
    assert_eq!(eval_str("2147483647"), Ok(2147483647));
    assert_eq!(eval_str("2147483648"), Err(CalcError::InvalidLiteral));
    assert_eq!(eval_str("-2147483647"), Ok(-2147483647));
    // even under a unary minus, the digit run itself must fit the range
    assert_eq!(eval_str("-2147483648"), Err(CalcError::InvalidLiteral));
    assert_eq!(eval_str("99999999999999999999999999"), Err(CalcError::InvalidLiteral));
    // a grammar mismatch is found before any oversized literal is reported
    assert_eq!(eval_str("99999999999+*2"), Err(CalcError::GrammarMismatch(12)));
    assert_eq!(eval_str("007"), Ok(7));
    assert_eq!(eval_str("0"), Ok(0));
}

#[test]
fn arithmetic_overflow() {
    assert_eq!(eval_str("2147483647+1"), Err(CalcError::ArithmeticOverflow));
    assert_eq!(eval_str("-2147483647-2"), Err(CalcError::ArithmeticOverflow));
    assert_eq!(eval_str("2000000000*2"), Err(CalcError::ArithmeticOverflow));
    assert_eq!(eval_str("-2147483647-1"), Ok(-2147483648));
    assert_eq!(eval_str("(-2147483647-1)/-1"), Err(CalcError::ArithmeticOverflow));
    assert_eq!(eval_str("(-2147483647-1)%-1"), Ok(0));
    assert_eq!(eval_str("-(-2147483647-1)"), Err(CalcError::ArithmeticOverflow));
    assert_eq!(eval_str("(-2147483647-1)/1"), Ok(-2147483648));
}

#[test]
fn nested_parentheses() {
    assert_eq!(eval_str("((1+2))*((3))"), Ok(9));
    assert_eq!(eval_str("-(-(3))"), Ok(3));
    assert_eq!(eval_str("(((((5)))))"), Ok(5));
}
