pub mod ast;
pub mod eval;
pub mod lexer;
pub mod parser;

pub use ast::CalcError;
pub use ast::Expr;
pub use ast::OpType;
pub use lexer::PTok;
pub use lexer::Tok;
pub use lexer::lex;
pub use parser::ParseOutcome;
pub use parser::parse_expr;

use vstd::prelude::*;

use ast::eval_spec;
use lexer::allowed_char;
use lexer::lemma_lex_ok_chars;
use lexer::lex_from;
use parser::parse_equation_spec;

verus! {

/// The character position a mismatch at token index `k` points at: the start
/// of the offending token, or the end of the line when the tokens ran out.
pub open spec fn mismatch_pos(s: Seq<char>, toks: Seq<PTok>, k: usize) -> usize {
    if k < toks.len() {
        toks[k as int].pos
    } else {
        s.len() as usize
    }
}

/// Everything one submitted line comes to: the value of the expression, or
/// the first error in lexing order — a grammar mismatch with the failing
/// position, an oversized literal, or an evaluation error.
pub open spec fn line_result(s: Seq<char>) -> Result<i32, CalcError> {
    match lex_from(s, 0) {
        Err(p) => Err(CalcError::GrammarMismatch(p as usize)),
        Ok(toks) => match parse_equation_spec(toks) {
            ParseOutcome::Parsed(e, j) => eval_spec(e),
            ParseOutcome::MismatchAt(k) => Err(
                CalcError::GrammarMismatch(mismatch_pos(s, toks, k)),
            ),
            ParseOutcome::LiteralTooBig => Err(CalcError::InvalidLiteral),
        },
    }
}

/// Runs one line through the whole pipeline: tokens, precedence-correct
/// tree, evaluation.
pub fn evaluate_line(chars: &Vec<char>) -> (r: Result<i32, CalcError>)
    ensures
        r == line_result(chars@),
{
    match lexer::lex(chars) {
        Err(p) => Err(CalcError::GrammarMismatch(p)),
        Ok(toks) => match parser::parse_expr(&toks) {
            ParseOutcome::Parsed(e, _j) => e.evaluate(),
            ParseOutcome::MismatchAt(k) => {
                let pos = if k < toks.len() {
                    toks[k].pos
                } else {
                    chars.len()
                };
                Err(CalcError::GrammarMismatch(pos))
            },
            ParseOutcome::LiteralTooBig => Err(CalcError::InvalidLiteral),
        },
    }
}

/// Law: a line holding any character outside the grammar's alphabet — any
/// whitespace but the space character included — is rejected as a grammar
/// mismatch.
pub proof fn lemma_foreign_char_rejected(s: Seq<char>, k: int)
    requires
        0 <= k < s.len(),
        !allowed_char(s[k]),
    ensures
        line_result(s) matches Err(CalcError::GrammarMismatch(_)),
{
    if lex_from(s, 0) is Ok {
        lemma_lex_ok_chars(s, 0);
        assert(allowed_char(s[k]));
    }
}

/// Law: a line holding a tab character is rejected as a grammar mismatch.
pub proof fn lemma_tab_rejected(s: Seq<char>, k: int)
    requires
        0 <= k < s.len(),
        s[k] == '\t',
    ensures
        line_result(s) matches Err(CalcError::GrammarMismatch(_)),
{
    assert(!allowed_char('\t'));
    lemma_foreign_char_rejected(s, k);
}

/// Law: the outcome of a line is a function of its characters alone; no
/// state is carried across lines, so resubmitting the same line gives the
/// same outcome.
pub proof fn lemma_resubmission_same_outcome(
    s: Seq<char>,
    r1: Result<i32, CalcError>,
    r2: Result<i32, CalcError>,
)
    requires
        r1 == line_result(s),
        r2 == line_result(s),
    ensures
        r1 == r2,
{
}

} // verus!
