use calculator::CalcError;
use calculator::Expr;
use calculator::OpType;
use calculator::PTok;
use calculator::ParseOutcome;
use calculator::Tok;
use calculator::lex;
use calculator::parse_expr;

fn toks_of(s: &str) -> Vec<PTok> {
    let chars: Vec<char> = s.chars().collect();
    lex(&chars).expect("line should tokenize")
}

#[test]
fn lex_tokens_and_positions() {
    let toks = toks_of("10 + (2)");
    assert_eq!(
        toks,
        vec![
            PTok { tok: Tok::Int(10), pos: 0 },
            PTok { tok: Tok::Plus, pos: 3 },
            PTok { tok: Tok::LParen, pos: 5 },
            PTok { tok: Tok::Int(2), pos: 6 },
            PTok { tok: Tok::RParen, pos: 7 },
        ],
    );
}

#[test]
fn lex_all_operators() {
    let toks = toks_of("1-2*3/4%5");
    let kinds: Vec<Tok> = toks.iter().map(|t| t.tok).collect();
    assert_eq!(
        kinds,
        vec![
            Tok::Int(1),
            Tok::Minus,
            Tok::Int(2),
            Tok::Star,
            Tok::Int(3),
            Tok::Slash,
            Tok::Int(4),
            Tok::Percent,
            Tok::Int(5),
        ],
    );
}

#[test]
fn lex_rejects_foreign_characters() {
    let chars: Vec<char> = "1+x".chars().collect();
    assert_eq!(lex(&chars), Err(2));
    let chars: Vec<char> = "=1".chars().collect();
    assert_eq!(lex(&chars), Err(0));
}

#[test]
fn lex_caps_oversized_literals() {
    // every literal beyond the signed 32-bit range is recorded the same way
    let toks = toks_of("2147483648");
    assert_eq!(toks, vec![PTok { tok: Tok::Int(0x8000_0000), pos: 0 }]);
    let toks = toks_of("99999999999999999999999999999999");
    assert_eq!(toks, vec![PTok { tok: Tok::Int(0x8000_0000), pos: 0 }]);
    let toks = toks_of("2147483647");
    assert_eq!(toks, vec![PTok { tok: Tok::Int(2147483647), pos: 0 }]);
}

#[test]
fn parse_builds_precedence_tree() {
    // 2+3*4 parses as 2+(3*4)
    let toks = toks_of("2+3*4");
    match parse_expr(&toks) {
        ParseOutcome::Parsed(e, consumed) => {
            assert_eq!(consumed, 5);
            assert_eq!(
                e,
                Expr::BinOp {
                    lhs: Box::new(Expr::Integer(2)),
                    op: OpType::Add,
                    rhs: Box::new(Expr::BinOp {
                        lhs: Box::new(Expr::Integer(3)),
                        op: OpType::Multiply,
                        rhs: Box::new(Expr::Integer(4)),
                    }),
                },
            );
        }
        other => panic!("expected a parse, got {:?}", describe_outcome(&other)),
    }
}

#[test]
fn parse_builds_left_leaning_tree() {
    // 10-3-2 parses as (10-3)-2
    let toks = toks_of("10-3-2");
    match parse_expr(&toks) {
        ParseOutcome::Parsed(e, _) => {
            assert_eq!(
                e,
                Expr::BinOp {
                    lhs: Box::new(Expr::BinOp {
                        lhs: Box::new(Expr::Integer(10)),
                        op: OpType::Subtract,
                        rhs: Box::new(Expr::Integer(3)),
                    }),
                    op: OpType::Subtract,
                    rhs: Box::new(Expr::Integer(2)),
                },
            );
        }
        other => panic!("expected a parse, got {:?}", describe_outcome(&other)),
    }
}

#[test]
fn parse_attaches_unary_minus_to_the_atom() {
    // -2*3 parses as (-2)*3
    let toks = toks_of("-2*3");
    match parse_expr(&toks) {
        ParseOutcome::Parsed(e, _) => {
            assert_eq!(
                e,
                Expr::BinOp {
                    lhs: Box::new(Expr::UnaryMinus(Box::new(Expr::Integer(2)))),
                    op: OpType::Multiply,
                    rhs: Box::new(Expr::Integer(3)),
                },
            );
        }
        other => panic!("expected a parse, got {:?}", describe_outcome(&other)),
    }
}

#[test]
fn parse_reports_the_offending_token() {
    let toks = toks_of("1+*2");
    assert!(matches!(parse_expr(&toks), ParseOutcome::MismatchAt(2)));
    let toks = toks_of("(1+2");
    assert!(matches!(parse_expr(&toks), ParseOutcome::MismatchAt(4)));
    let toks = toks_of("2147483648");
    assert!(matches!(parse_expr(&toks), ParseOutcome::LiteralTooBig));
}

#[test]
fn evaluate_reduces_a_tree() {
    let e = Expr::BinOp {
        lhs: Box::new(Expr::UnaryMinus(Box::new(Expr::Integer(6)))),
        op: OpType::Divide,
        rhs: Box::new(Expr::Integer(4)),
    };
    assert_eq!(e.evaluate(), Ok(-1));
}

#[test]
fn evaluate_reports_runtime_errors() {
    let by_zero = Expr::BinOp {
        lhs: Box::new(Expr::Integer(5)),
        op: OpType::Modulo,
        rhs: Box::new(Expr::Integer(0)),
    };
    assert_eq!(by_zero.evaluate(), Err(CalcError::DivisionByZero(OpType::Modulo)));
    let negated_min = Expr::UnaryMinus(Box::new(Expr::Integer(i32::MIN)));
    assert_eq!(negated_min.evaluate(), Err(CalcError::ArithmeticOverflow));
}

fn describe_outcome(o: &ParseOutcome) -> String {
    match o {
        ParseOutcome::Parsed(_, n) => format!("a parse consuming {} tokens", n),
        ParseOutcome::MismatchAt(k) => format!("a mismatch at token {}", k),
        ParseOutcome::LiteralTooBig => "an oversized literal".to_string(),
    }
}
