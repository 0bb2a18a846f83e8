use vstd::prelude::*;

use crate::ast::Expr;
use crate::ast::OpType;
use crate::lexer::LIT_CAP;
use crate::lexer::PTok;
use crate::lexer::Tok;

verus! {

/// What building a tree from a token sequence can come to: a tree together
/// with the index of the first token not consumed, a grammar mismatch at a
/// token index (the sequence length stands for its end), or a literal that
/// does not fit the signed 32-bit range.
pub enum ParseOutcome {
    Parsed(Expr, usize),
    MismatchAt(usize),
    LiteralTooBig,
}

/// The binary operator a token stands for, if any.
pub open spec fn infix_op(t: Tok) -> Option<OpType> {
    match t {
        Tok::Plus => Some(OpType::Add),
        Tok::Minus => Some(OpType::Subtract),
        Tok::Star => Some(OpType::Multiply),
        Tok::Slash => Some(OpType::Divide),
        Tok::Percent => Some(OpType::Modulo),
        _ => None,
    }
}

/// Binding power, lowest to highest: addition and subtraction below
/// multiplication, division and modulo. Unary minus is handled by the atom
/// rule and so binds tighter than every binary operator.
pub open spec fn prec_of(op: OpType) -> int {
    match op {
        OpType::Add => 1,
        OpType::Subtract => 1,
        _ => 2,
    }
}

/// A primary operand: an integer literal or a parenthesized subexpression.
pub open spec fn parse_primary_spec(toks: Seq<PTok>, i: int) -> ParseOutcome
    decreases toks.len() - i, 0int,
{
    if i < 0 || i >= toks.len() {
        ParseOutcome::MismatchAt(i as usize)
    } else {
        match toks[i].tok {
            Tok::Int(v) => ParseOutcome::Parsed(
                Expr::Integer(if v >= LIT_CAP { 0i32 } else { v as i32 }),
                (i + 1) as usize,
            ),
            Tok::LParen => match parse_expr_spec(toks, i + 1, 1) {
                ParseOutcome::Parsed(e, j) => if j < toks.len() && toks[j as int].tok
                    == Tok::RParen {
                    ParseOutcome::Parsed(e, (j + 1) as usize)
                } else {
                    ParseOutcome::MismatchAt(j)
                },
                o => o,
            },
            _ => ParseOutcome::MismatchAt(i as usize),
        }
    }
}

/// An atom: a primary operand with an optional unary-minus prefix.
pub open spec fn parse_atom_spec(toks: Seq<PTok>, i: int) -> ParseOutcome
    decreases toks.len() - i, 1int,
{
    if 0 <= i && i < toks.len() && toks[i].tok == Tok::Minus {
        match parse_primary_spec(toks, i + 1) {
            ParseOutcome::Parsed(e, j) => ParseOutcome::Parsed(Expr::UnaryMinus(Box::new(e)), j),
            o => o,
        }
    } else {
        parse_primary_spec(toks, i)
    }
}

/// Precedence climbing: an atom, then every following binary operator whose
/// binding power reaches `min_prec`, each right operand parsed with a power
/// one higher so that equal powers fold to the left.
pub open spec fn parse_expr_spec(toks: Seq<PTok>, i: int, min_prec: int) -> ParseOutcome
    decreases toks.len() - i, 3int,
{
    if i < 0 || i >= toks.len() {
        ParseOutcome::MismatchAt(i as usize)
    } else {
        match parse_atom_spec(toks, i) {
            ParseOutcome::Parsed(lhs, j) => {
                let g = if i < j && j <= toks.len() {
                    j as int
                } else {
                    i + 1
                };
                parse_binops_spec(toks, g, lhs, min_prec)
            },
            o => o,
        }
    }
}

/// Folds `lhs (op atom)*` for as long as the next operator binds at least
/// as tightly as `min_prec`.
pub open spec fn parse_binops_spec(toks: Seq<PTok>, i: int, lhs: Expr, min_prec: int) -> ParseOutcome
    decreases toks.len() - i, 0int,
{
    if i < 0 || i >= toks.len() {
        ParseOutcome::Parsed(lhs, i as usize)
    } else {
        match infix_op(toks[i].tok) {
            Some(op) => if prec_of(op) >= min_prec {
                match parse_expr_spec(toks, i + 1, prec_of(op) + 1) {
                    ParseOutcome::Parsed(rhs, j) => {
                        let g = if i + 1 < j && j <= toks.len() {
                            j as int
                        } else {
                            i + 1
                        };
                        parse_binops_spec(
                            toks,
                            g,
                            Expr::BinOp { lhs: Box::new(lhs), op, rhs: Box::new(rhs) },
                            min_prec,
                        )
                    },
                    o => o,
                }
            } else {
                ParseOutcome::Parsed(lhs, i as usize)
            },
            None => ParseOutcome::Parsed(lhs, i as usize),
        }
    }
}

/// A literal token too large for a signed 32-bit value.
pub open spec fn oversized_lit(pt: PTok) -> bool {
    pt.tok matches Tok::Int(v) && v >= LIT_CAP
}

pub open spec fn any_oversized(toks: Seq<PTok>) -> bool {
    exists|t: int| 0 <= t < toks.len() && oversized_lit(toks[t])
}

/// A whole equation: one expression covering every token. The grammar is
/// matched in full first; only a line whose shape is valid can then be
/// turned away for a literal that does not fit the 32-bit range.
pub open spec fn parse_equation_spec(toks: Seq<PTok>) -> ParseOutcome {
    match parse_expr_spec(toks, 0, 1) {
        ParseOutcome::Parsed(e, j) => if j != toks.len() {
            ParseOutcome::MismatchAt(j)
        } else if any_oversized(toks) {
            ParseOutcome::LiteralTooBig
        } else {
            ParseOutcome::Parsed(e, j)
        },
        o => o,
    }
}

/// Law: unary minus binds tighter than every binary operator. For any
/// binary operator `o`, the tokens of `-x o y` parse as `(-x) o y`, never
/// as `-(x o y)`.
pub proof fn lemma_unary_minus_binds_tightest(
    x: u32,
    y: u32,
    t: Tok,
    o: OpType,
    p0: usize,
    p1: usize,
    p2: usize,
    p3: usize,
)
    requires
        x < LIT_CAP,
        y < LIT_CAP,
        infix_op(t) == Some(o),
    ensures
        parse_equation_spec(
            seq![
                PTok { tok: Tok::Minus, pos: p0 },
                PTok { tok: Tok::Int(x), pos: p1 },
                PTok { tok: t, pos: p2 },
                PTok { tok: Tok::Int(y), pos: p3 },
            ],
        ) == ParseOutcome::Parsed(
            Expr::BinOp {
                lhs: Box::new(Expr::UnaryMinus(Box::new(Expr::Integer(x as i32)))),
                op: o,
                rhs: Box::new(Expr::Integer(y as i32)),
            },
            4,
        ),
{
    let toks = seq![
        PTok { tok: Tok::Minus, pos: p0 },
        PTok { tok: Tok::Int(x), pos: p1 },
        PTok { tok: t, pos: p2 },
        PTok { tok: Tok::Int(y), pos: p3 },
    ];
    reveal_with_fuel(parse_expr_spec, 8);
    reveal_with_fuel(parse_atom_spec, 8);
    reveal_with_fuel(parse_primary_spec, 8);
    reveal_with_fuel(parse_binops_spec, 8);
    assert(toks.len() == 4);
    assert(toks[0] == PTok { tok: Tok::Minus, pos: p0 });
    assert(toks[1] == PTok { tok: Tok::Int(x), pos: p1 });
    assert(toks[2] == PTok { tok: t, pos: p2 });
    assert(toks[3] == PTok { tok: Tok::Int(y), pos: p3 });
    assert(!(t matches Tok::Int(v) && v >= LIT_CAP));
    assert(forall|k: int| 0 <= k < toks.len() ==> !oversized_lit(toks[k]));
}

/// Law: operators of equal binding power fold from the left: for any two
/// binary operators of the same precedence, the tokens of `x o1 y o2 z`
/// parse as `(x o1 y) o2 z`, never as `x o1 (y o2 z)`.
pub proof fn lemma_left_associativity(
    x: u32,
    y: u32,
    z: u32,
    t1: Tok,
    t2: Tok,
    o1: OpType,
    o2: OpType,
    p0: usize,
    p1: usize,
    p2: usize,
    p3: usize,
    p4: usize,
)
    requires
        x < LIT_CAP,
        y < LIT_CAP,
        z < LIT_CAP,
        infix_op(t1) == Some(o1),
        infix_op(t2) == Some(o2),
        prec_of(o1) == prec_of(o2),
    ensures
        parse_equation_spec(
            seq![
                PTok { tok: Tok::Int(x), pos: p0 },
                PTok { tok: t1, pos: p1 },
                PTok { tok: Tok::Int(y), pos: p2 },
                PTok { tok: t2, pos: p3 },
                PTok { tok: Tok::Int(z), pos: p4 },
            ],
        ) == ParseOutcome::Parsed(
            Expr::BinOp {
                lhs: Box::new(
                    Expr::BinOp {
                        lhs: Box::new(Expr::Integer(x as i32)),
                        op: o1,
                        rhs: Box::new(Expr::Integer(y as i32)),
                    },
                ),
                op: o2,
                rhs: Box::new(Expr::Integer(z as i32)),
            },
            5,
        ),
{
    let toks = seq![
        PTok { tok: Tok::Int(x), pos: p0 },
        PTok { tok: t1, pos: p1 },
        PTok { tok: Tok::Int(y), pos: p2 },
        PTok { tok: t2, pos: p3 },
        PTok { tok: Tok::Int(z), pos: p4 },
    ];
    reveal_with_fuel(parse_expr_spec, 8);
    reveal_with_fuel(parse_atom_spec, 8);
    reveal_with_fuel(parse_primary_spec, 8);
    reveal_with_fuel(parse_binops_spec, 8);
    assert(toks.len() == 5);
    assert(toks[0] == PTok { tok: Tok::Int(x), pos: p0 });
    assert(toks[1] == PTok { tok: t1, pos: p1 });
    assert(toks[2] == PTok { tok: Tok::Int(y), pos: p2 });
    assert(toks[3] == PTok { tok: t2, pos: p3 });
    assert(toks[4] == PTok { tok: Tok::Int(z), pos: p4 });
    assert(!(t1 matches Tok::Int(v) && v >= LIT_CAP));
    assert(!(t2 matches Tok::Int(v) && v >= LIT_CAP));
    assert(forall|k: int| 0 <= k < toks.len() ==> !oversized_lit(toks[k]));
}

/// Law: multiplication, division and modulo bind tighter than addition and
/// subtraction: when `o1` has the lower and `o2` the higher precedence, the
/// tokens of `x o1 y o2 z` parse as `x o1 (y o2 z)`.
pub proof fn lemma_precedence(
    x: u32,
    y: u32,
    z: u32,
    t1: Tok,
    t2: Tok,
    o1: OpType,
    o2: OpType,
    p0: usize,
    p1: usize,
    p2: usize,
    p3: usize,
    p4: usize,
)
    requires
        x < LIT_CAP,
        y < LIT_CAP,
        z < LIT_CAP,
        infix_op(t1) == Some(o1),
        infix_op(t2) == Some(o2),
        prec_of(o1) < prec_of(o2),
    ensures
        parse_equation_spec(
            seq![
                PTok { tok: Tok::Int(x), pos: p0 },
                PTok { tok: t1, pos: p1 },
                PTok { tok: Tok::Int(y), pos: p2 },
                PTok { tok: t2, pos: p3 },
                PTok { tok: Tok::Int(z), pos: p4 },
            ],
        ) == ParseOutcome::Parsed(
            Expr::BinOp {
                lhs: Box::new(Expr::Integer(x as i32)),
                op: o1,
                rhs: Box::new(
                    Expr::BinOp {
                        lhs: Box::new(Expr::Integer(y as i32)),
                        op: o2,
                        rhs: Box::new(Expr::Integer(z as i32)),
                    },
                ),
            },
            5,
        ),
{
    let toks = seq![
        PTok { tok: Tok::Int(x), pos: p0 },
        PTok { tok: t1, pos: p1 },
        PTok { tok: Tok::Int(y), pos: p2 },
        PTok { tok: t2, pos: p3 },
        PTok { tok: Tok::Int(z), pos: p4 },
    ];
    reveal_with_fuel(parse_expr_spec, 8);
    reveal_with_fuel(parse_atom_spec, 8);
    reveal_with_fuel(parse_primary_spec, 8);
    reveal_with_fuel(parse_binops_spec, 8);
    assert(toks.len() == 5);
    assert(toks[0] == PTok { tok: Tok::Int(x), pos: p0 });
    assert(toks[1] == PTok { tok: t1, pos: p1 });
    assert(toks[2] == PTok { tok: Tok::Int(y), pos: p2 });
    assert(toks[3] == PTok { tok: t2, pos: p3 });
    assert(toks[4] == PTok { tok: Tok::Int(z), pos: p4 });
    assert(!(t1 matches Tok::Int(v) && v >= LIT_CAP));
    assert(!(t2 matches Tok::Int(v) && v >= LIT_CAP));
    assert(forall|k: int| 0 <= k < toks.len() ==> !oversized_lit(toks[k]));
}

proof fn lemma_primary_advances(toks: Seq<PTok>, i: int)
    requires
        0 <= i <= toks.len(),
        toks.len() <= usize::MAX,
    ensures
        parse_primary_spec(toks, i) matches ParseOutcome::Parsed(e, j) ==> i < j <= toks.len(),
    decreases toks.len() - i, 1int,
{
    if i < toks.len() {
        match toks[i].tok {
            Tok::LParen => {
                lemma_expr_advances(toks, i + 1, 1);
            },
            _ => {},
        }
    }
}

proof fn lemma_atom_advances(toks: Seq<PTok>, i: int)
    requires
        0 <= i <= toks.len(),
        toks.len() <= usize::MAX,
    ensures
        parse_atom_spec(toks, i) matches ParseOutcome::Parsed(e, j) ==> i < j <= toks.len(),
    decreases toks.len() - i, 2int,
{
    if 0 <= i && i < toks.len() && toks[i].tok == Tok::Minus {
        lemma_primary_advances(toks, i + 1);
    } else {
        lemma_primary_advances(toks, i);
    }
}

proof fn lemma_expr_advances(toks: Seq<PTok>, i: int, min_prec: int)
    requires
        0 <= i <= toks.len(),
        toks.len() <= usize::MAX,
    ensures
        parse_expr_spec(toks, i, min_prec) matches ParseOutcome::Parsed(e, j) ==> i < j
            <= toks.len(),
    decreases toks.len() - i, 4int,
{
    if i < toks.len() {
        lemma_atom_advances(toks, i);
        match parse_atom_spec(toks, i) {
            ParseOutcome::Parsed(lhs, j) => {
                lemma_binops_advances(toks, j as int, lhs, min_prec);
            },
            _ => {},
        }
    }
}

proof fn lemma_binops_advances(toks: Seq<PTok>, i: int, lhs: Expr, min_prec: int)
    requires
        0 <= i <= toks.len(),
        toks.len() <= usize::MAX,
    ensures
        parse_binops_spec(toks, i, lhs, min_prec) matches ParseOutcome::Parsed(e, j) ==> i <= j
            <= toks.len(),
    decreases toks.len() - i, 1int,
{
    if i < toks.len() {
        match infix_op(toks[i].tok) {
            Some(op) => if prec_of(op) >= min_prec {
                lemma_expr_advances(toks, i + 1, prec_of(op) + 1);
                match parse_expr_spec(toks, i + 1, prec_of(op) + 1) {
                    ParseOutcome::Parsed(rhs, j) => {
                        lemma_binops_advances(
                            toks,
                            j as int,
                            Expr::BinOp { lhs: Box::new(lhs), op, rhs: Box::new(rhs) },
                            min_prec,
                        );
                    },
                    _ => {},
                }
            },
            None => {},
        }
    }
}

fn infix_op_x(t: Tok) -> (r: Option<OpType>)
    ensures
        r == infix_op(t),
{
    match t {
        Tok::Plus => Some(OpType::Add),
        Tok::Minus => Some(OpType::Subtract),
        Tok::Star => Some(OpType::Multiply),
        Tok::Slash => Some(OpType::Divide),
        Tok::Percent => Some(OpType::Modulo),
        _ => None,
    }
}

fn prec_x(op: OpType) -> (r: u32)
    ensures
        r as int == prec_of(op),
{
    match op {
        OpType::Add => 1,
        OpType::Subtract => 1,
        _ => 2,
    }
}

fn p_primary(toks: &Vec<PTok>, i: usize) -> (r: ParseOutcome)
    requires
        i <= toks@.len(),
    ensures
        r == parse_primary_spec(toks@, i as int),
    decreases toks@.len() - i, 0int,
{
    if i >= toks.len() {
        return ParseOutcome::MismatchAt(i);
    }
    match toks[i].tok {
        Tok::Int(v) => ParseOutcome::Parsed(
            Expr::Integer(if v >= LIT_CAP { 0i32 } else { v as i32 }),
            i + 1,
        ),
        Tok::LParen => {
            let inner = p_expr(toks, i + 1, 1);
            match inner {
                ParseOutcome::Parsed(e, j) => {
                    if j < toks.len() && matches!(toks[j].tok, Tok::RParen) {
                        ParseOutcome::Parsed(e, j + 1)
                    } else {
                        ParseOutcome::MismatchAt(j)
                    }
                },
                o => o,
            }
        },
        _ => ParseOutcome::MismatchAt(i),
    }
}

fn p_atom(toks: &Vec<PTok>, i: usize) -> (r: ParseOutcome)
    requires
        i <= toks@.len(),
    ensures
        r == parse_atom_spec(toks@, i as int),
    decreases toks@.len() - i, 1int,
{
    if i < toks.len() && matches!(toks[i].tok, Tok::Minus) {
        let inner = p_primary(toks, i + 1);
        match inner {
            ParseOutcome::Parsed(e, j) => ParseOutcome::Parsed(
                Expr::UnaryMinus(Box::new(e)),
                j,
            ),
            o => o,
        }
    } else {
        p_primary(toks, i)
    }
}

fn p_expr(toks: &Vec<PTok>, i: usize, min_prec: u32) -> (r: ParseOutcome)
    requires
        i <= toks@.len(),
    ensures
        r == parse_expr_spec(toks@, i as int, min_prec as int),
    decreases toks@.len() - i, 3int,
{
    if i >= toks.len() {
        return ParseOutcome::MismatchAt(i);
    }
    let a = p_atom(toks, i);
    match a {
        ParseOutcome::Parsed(lhs, j) => {
            proof {
                lemma_atom_advances(toks@, i as int);
            }
            p_binops(toks, j, lhs, min_prec)
        },
        o => o,
    }
}

fn p_binops(toks: &Vec<PTok>, i: usize, lhs: Expr, min_prec: u32) -> (r: ParseOutcome)
    requires
        i <= toks@.len(),
    ensures
        r == parse_binops_spec(toks@, i as int, lhs, min_prec as int),
    decreases toks@.len() - i, 0int,
{
    if i >= toks.len() {
        return ParseOutcome::Parsed(lhs, i);
    }
    match infix_op_x(toks[i].tok) {
        Some(op) => {
            let p = prec_x(op);
            if p >= min_prec {
                let rhs_out = p_expr(toks, i + 1, p + 1);
                match rhs_out {
                    ParseOutcome::Parsed(rhs, j) => {
                        proof {
                            lemma_expr_advances(toks@, i as int + 1, p as int + 1);
                        }
                        p_binops(
                            toks,
                            j,
                            Expr::BinOp { lhs: Box::new(lhs), op, rhs: Box::new(rhs) },
                            min_prec,
                        )
                    },
                    o => o,
                }
            } else {
                ParseOutcome::Parsed(lhs, i)
            }
        },
        None => ParseOutcome::Parsed(lhs, i),
    }
}

/// Builds the precedence-correct tree for a whole token sequence: the flat
/// atom-and-operator run is folded left-associatively, `* / %` bind tighter
/// than `+ -`, and a leftover token is a mismatch at its index. A literal
/// too large for 32 bits is reported only once the whole line matched.
pub fn parse_expr(toks: &Vec<PTok>) -> (r: ParseOutcome)
    ensures
        r == parse_equation_spec(toks@),
{
    let out = p_expr(toks, 0, 1);
    match out {
        ParseOutcome::Parsed(e, j) => {
            if j != toks.len() {
                return ParseOutcome::MismatchAt(j);
            }
            let n = toks.len();
            let mut k: usize = 0;
            while k < n
                invariant
                    n == toks@.len(),
                    k <= n,
                    parse_expr_spec(toks@, 0, 1) == ParseOutcome::Parsed(e, j),
                    j == toks@.len(),
                    forall|t: int| 0 <= t < k ==> !oversized_lit(toks@[t]),
                decreases n - k,
            {
                match toks[k].tok {
                    Tok::Int(v) => if v >= LIT_CAP {
                        assert((k as int) < toks@.len() && oversized_lit(toks@[k as int]));
                        assert(any_oversized(toks@));
                        return ParseOutcome::LiteralTooBig;
                    },
                    _ => {},
                }
                k += 1;
            }
            assert(!any_oversized(toks@));
            ParseOutcome::Parsed(e, j)
        },
        o => o,
    }
}

} // verus!
