use vstd::prelude::*;

verus! {

/// A lexical token of the grammar.
#[derive(Clone, Copy, Debug, PartialEq, Eq)]
pub enum Tok {
    /// An unsigned integer literal. Values above `LIT_CAP - 1` are recorded
    /// as `LIT_CAP`, which is enough to tell that the literal does not fit
    /// the signed 32-bit range.
    Int(u32),
    Plus,
    Minus,
    Star,
    Slash,
    Percent,
    LParen,
    RParen,
}

/// A token together with the character position where it starts.
#[derive(Clone, Copy, Debug, PartialEq, Eq)]
pub struct PTok {
    pub tok: Tok,
    pub pos: usize,
}

/// One more than the largest literal a signed 32-bit value can hold.
pub const LIT_CAP: u32 = 0x8000_0000;

pub open spec fn is_digit(c: char) -> bool {
    48 <= c as u32 && c as u32 <= 57
}

pub open spec fn digit_val(c: char) -> int {
    c as u32 - 48
}

/// The value of a digit sequence read in base ten.
pub open spec fn digits_val(s: Seq<char>) -> int
    decreases s.len(),
{
    if s.len() == 0 {
        0
    } else {
        digits_val(s.drop_last()) * 10 + digit_val(s.last())
    }
}

/// A literal's value as recorded in its token: exact below `LIT_CAP`,
/// `LIT_CAP` for everything too large.
pub open spec fn clamp_lit(v: int) -> u32
    recommends
        0 <= v,
{
    if v >= LIT_CAP {
        LIT_CAP
    } else {
        v as u32
    }
}

/// The token a single operator or parenthesis character stands for.
pub open spec fn op_tok_of(c: char) -> Option<Tok> {
    if c == '+' {
        Some(Tok::Plus)
    } else if c == '-' {
        Some(Tok::Minus)
    } else if c == '*' {
        Some(Tok::Star)
    } else if c == '/' {
        Some(Tok::Slash)
    } else if c == '%' {
        Some(Tok::Percent)
    } else if c == '(' {
        Some(Tok::LParen)
    } else if c == ')' {
        Some(Tok::RParen)
    } else {
        None
    }
}

/// The first position at or after `i` that does not hold a digit.
pub open spec fn digit_run_end(s: Seq<char>, i: int) -> int
    decreases s.len() - i,
{
    if 0 <= i && i < s.len() && is_digit(s[i]) {
        digit_run_end(s, i + 1)
    } else {
        i
    }
}

/// The token sequence of `s` from position `i` on: spaces are skipped, a
/// digit run makes one literal token, single characters make operator and
/// parenthesis tokens, and anything else fails at its position.
pub open spec fn lex_from(s: Seq<char>, i: int) -> Result<Seq<PTok>, int>
    decreases s.len() - i,
{
    if i < 0 || i >= s.len() {
        Ok(Seq::empty())
    } else if s[i] == ' ' {
        lex_from(s, i + 1)
    } else if is_digit(s[i]) {
        let e0 = digit_run_end(s, i);
        let e = if i < e0 && e0 <= s.len() {
            e0
        } else {
            i + 1
        };
        let t = PTok { tok: Tok::Int(clamp_lit(digits_val(s.subrange(i, e)))), pos: i as usize };
        match lex_from(s, e) {
            Ok(rest) => Ok(seq![t] + rest),
            Err(p) => Err(p),
        }
    } else {
        match op_tok_of(s[i]) {
            Some(tk) => {
                let t = PTok { tok: tk, pos: i as usize };
                match lex_from(s, i + 1) {
                    Ok(rest) => Ok(seq![t] + rest),
                    Err(p) => Err(p),
                }
            },
            None => Err(i),
        }
    }
}

/// Tokens already taken, prefixed onto what remains to be lexed.
pub open spec fn lex_prepend(pre: Seq<PTok>, r: Result<Seq<PTok>, int>) -> Result<
    Seq<PTok>,
    int,
> {
    match r {
        Ok(rest) => Ok(pre + rest),
        Err(p) => Err(p),
    }
}

/// The grammar's alphabet: anything else between tokens — a tab included —
/// fails the match.
pub open spec fn allowed_char(c: char) -> bool {
    c == ' ' || is_digit(c) || op_tok_of(c) is Some
}

/// A line that lexes from `i` on holds nothing but spaces, digits, operators
/// and parentheses from `i` on.
pub proof fn lemma_lex_ok_chars(s: Seq<char>, i: int)
    requires
        0 <= i <= s.len(),
        lex_from(s, i) is Ok,
    ensures
        forall|k: int| i <= k < s.len() ==> allowed_char(s[k]),
    decreases s.len() - i,
{
    if i < s.len() {
        if s[i] == ' ' {
            lemma_lex_ok_chars(s, i + 1);
        } else if is_digit(s[i]) {
            let e0 = digit_run_end(s, i);
            let e = if i < e0 && e0 <= s.len() {
                e0
            } else {
                i + 1
            };
            lemma_digit_run_end_props(s, i);
            lemma_lex_ok_chars(s, e);
        } else {
            lemma_lex_ok_chars(s, i + 1);
        }
    }
}

proof fn lemma_digit_run_end_props(s: Seq<char>, i: int)
    requires
        0 <= i <= s.len(),
    ensures
        i <= digit_run_end(s, i) <= s.len(),
        forall|k: int| i <= k < digit_run_end(s, i) ==> is_digit(s[k]),
        digit_run_end(s, i) == s.len() || !is_digit(s[digit_run_end(s, i)]),
    decreases s.len() - i,
{
    if i < s.len() && is_digit(s[i]) {
        lemma_digit_run_end_props(s, i + 1);
    }
}

proof fn lemma_digit_run_end_at(s: Seq<char>, i: int, e: int)
    requires
        0 <= i <= e <= s.len(),
        forall|k: int| i <= k < e ==> is_digit(s[k]),
        e == s.len() || !is_digit(s[e]),
    ensures
        digit_run_end(s, i) == e,
    decreases e - i,
{
    if i < e {
        lemma_digit_run_end_at(s, i + 1, e);
    }
}

/// Finds where the digit run starting at `start` ends.
fn scan_digit_run(chars: &Vec<char>, start: usize) -> (e: usize)
    requires
        start <= chars@.len(),
    ensures
        start <= e <= chars@.len(),
        e as int == digit_run_end(chars@, start as int),
{
    let n = chars.len();
    let mut j = start;
    while j < n
        invariant
            start <= j <= n,
            n == chars@.len(),
            forall|k: int| start <= k < j ==> is_digit(chars@[k]),
        decreases n - j,
    {
        let d = chars[j] as u32;
        if d < 48 || d > 57 {
            proof {
                lemma_digit_run_end_at(chars@, start as int, j as int);
            }
            return j;
        }
        j += 1;
    }
    proof {
        lemma_digit_run_end_at(chars@, start as int, j as int);
    }
    j
}

/// Reads the value of the digit run `[start, end)`, capping it at `LIT_CAP`.
fn scan_literal(chars: &Vec<char>, start: usize, end: usize) -> (v: u32)
    requires
        start <= end <= chars@.len(),
        forall|k: int| start <= k < end ==> is_digit(chars@[k]),
    ensures
        v == clamp_lit(digits_val(chars@.subrange(start as int, end as int))),
{
    let mut v: u32 = 0;
    let mut j = start;
    proof {
        assert(chars@.subrange(start as int, start as int) =~= Seq::<char>::empty());
    }
    while j < end
        invariant
            start <= j <= end,
            end <= chars@.len(),
            forall|k: int| start <= k < end ==> is_digit(chars@[k]),
            0 <= digits_val(chars@.subrange(start as int, j as int)),
            v == clamp_lit(digits_val(chars@.subrange(start as int, j as int))),
        decreases end - j,
    {
        let ghost pre = chars@.subrange(start as int, j as int);
        let ghost cur = chars@.subrange(start as int, j as int + 1);
        proof {
            assert(cur.drop_last() =~= pre);
            assert(cur.last() == chars@[j as int]);
        }
        let d: u32 = (chars[j] as u32) - 48;
        let w: u64 = (v as u64) * 10 + (d as u64);
        proof {
            let dv = digits_val(pre);
            let dv2 = digits_val(cur);
            assert(dv2 == dv * 10 + digit_val(chars@[j as int]));
            if dv >= LIT_CAP {
                assert(dv * 10 == dv + 9 * dv);
                assert(dv2 >= dv);
            }
        }
        if w >= 0x8000_0000u64 {
            v = 0x8000_0000u32;
        } else {
            v = w as u32;
        }
        j += 1;
    }
    v
}

/// Maps one character to its operator or parenthesis token, if any.
fn op_tok(c: char) -> (r: Option<Tok>)
    ensures
        r == op_tok_of(c),
{
    if c == '+' {
        Some(Tok::Plus)
    } else if c == '-' {
        Some(Tok::Minus)
    } else if c == '*' {
        Some(Tok::Star)
    } else if c == '/' {
        Some(Tok::Slash)
    } else if c == '%' {
        Some(Tok::Percent)
    } else if c == '(' {
        Some(Tok::LParen)
    } else if c == ')' {
        Some(Tok::RParen)
    } else {
        None
    }
}

/// Splits one line into tokens, or reports the position of the first
/// character that fits no token. Only the space character is skipped.
pub fn lex(chars: &Vec<char>) -> (r: Result<Vec<PTok>, usize>)
    ensures
        match r {
            Ok(toks) => lex_from(chars@, 0) == Result::<Seq<PTok>, int>::Ok(toks@),
            Err(p) => lex_from(chars@, 0) == Result::<Seq<PTok>, int>::Err(p as int),
        },
{
    let n = chars.len();
    let mut toks: Vec<PTok> = Vec::new();
    let mut i: usize = 0;
    while i < n
        invariant
            n == chars@.len(),
            i <= n,
            lex_from(chars@, 0) == lex_prepend(toks@, lex_from(chars@, i as int)),
        decreases n - i,
    {
        let ghost s = chars@;
        let c = chars[i];
        let u = c as u32;
        if c == ' ' {
            i += 1;
        } else if 48 <= u && u <= 57 {
            let start = i;
            let e = scan_digit_run(chars, start);
            proof {
                lemma_digit_run_end_props(s, start as int);
                assert(is_digit(s[start as int]));
                assert(e > start);
            }
            let v = scan_literal(chars, start, e);
            let t = PTok { tok: Tok::Int(v), pos: start };
            let ghost old_toks = toks@;
            toks.push(t);
            proof {
                let srem = lex_from(s, e as int);
                assert(lex_from(s, start as int) == lex_prepend(seq![t], srem));
                if srem is Ok {
                    let rest = srem->Ok_0;
                    assert(old_toks + (seq![t] + rest) =~= toks@ + rest);
                }
            }
            i = e;
        } else {
            match op_tok(c) {
                Some(tk) => {
                    let t = PTok { tok: tk, pos: i };
                    let ghost old_toks = toks@;
                    toks.push(t);
                    proof {
                        let srem = lex_from(s, i as int + 1);
                        assert(lex_from(s, i as int) == lex_prepend(seq![t], srem));
                        if srem is Ok {
                            let rest = srem->Ok_0;
                            assert(old_toks + (seq![t] + rest) =~= toks@ + rest);
                        }
                    }
                    i += 1;
                },
                None => {
                    proof {
                        assert(lex_from(s, i as int) == Result::<Seq<PTok>, int>::Err(i as int));
                    }
                    return Err(i);
                },
            }
        }
    }
    proof {
        assert(lex_from(chars@, i as int) == Result::<Seq<PTok>, int>::Ok(Seq::<PTok>::empty()));
        assert(toks@ + Seq::<PTok>::empty() =~= toks@);
    }
    Ok(toks)
}

} // verus!
