//! The grammar: a token sequence to one abstract syntax tree.
//!
//! Operator precedence, low to high:
//! 1. `+` and `-`, left-associative;
//! 2. `*`, `/` and `%`, left-associative;
//! 3. implicit multiplication of adjacent atoms, left-associative, binding
//!    tighter than the explicit operators of the tier above (`27 % 2t` is
//!    `27 % (2 * t)`);
//! 4. function application (`abs(...)` and the like);
//! 5. `^`, right-associative, binding tighter than implicit multiplication
//!    (`5x^2` is `5 * (x ^ 2)`).
//!
//! `spec_expr` and its companions are the mathematical definition of the
//! grammar, written as a recursive descent over token views.  The executable
//! parser mirrors them and is proved to return exactly their result; on
//! success it returns a handle minted last by the construction table, whose
//! [`decode`] is exactly the tree the grammar describes.
//!
//! Construction is bottom-up and interleaved with parsing: every completed
//! reduction immediately requests its node from the table, and a failed parse
//! rolls nothing back — the records minted so far stay with the table.

use vstd::prelude::*;

use crate::arena::{
    CtorTable, GCString, IFunctionAST, Node, decode, lemma_decode_prefix, lemma_push_prefix,
    lemma_prefix_trans,
};
use crate::ast::{BinOp, Expr, FuncKind};
use crate::tokens::{ParseFail, TokView, Token, token_views};

verus! {

/// Whether a token can open an atom: a number, a variable, a parenthesized
/// expression, a function call or a constant.  Two adjacent atoms multiply.
pub open spec fn starts_atom(t: TokView) -> bool {
    match t {
        TokView::Number(_) => true,
        TokView::Variable(_) => true,
        TokView::LParen => true,
        TokView::Function(_) => true,
        TokView::Pi => true,
        TokView::E => true,
        _ => false,
    }
}

/// An atom: a number, variable or constant leaf, a parenthesized expression,
/// or a function keyword applied to a parenthesized argument.
pub open spec fn spec_atom(ts: Seq<TokView>, pos: int) -> Result<(Expr, int), ParseFail>
    decreases ts.len() - pos, 0int,
{
    if pos < 0 || pos >= ts.len() {
        Err(ParseFail::Eof)
    } else {
        match ts[pos] {
            TokView::Number(s) => Ok((Expr::Number(s), pos + 1)),
            TokView::Variable(s) => Ok((Expr::Variable(s), pos + 1)),
            TokView::Pi => Ok((Expr::Pi, pos + 1)),
            TokView::E => Ok((Expr::E, pos + 1)),
            TokView::LParen => match spec_expr(ts, pos + 1) {
                Ok((a, p)) => if p < ts.len() && ts[p] == TokView::RParen {
                    Ok((a, p + 1))
                } else if p < ts.len() {
                    Err(ParseFail::BadToken(p as usize))
                } else {
                    Err(ParseFail::Eof)
                },
                Err(f) => Err(f),
            },
            TokView::Function(k) => if pos + 1 < ts.len() && ts[pos + 1] == TokView::LParen {
                match spec_expr(ts, pos + 2) {
                    Ok((a, p)) => if p < ts.len() && ts[p] == TokView::RParen {
                        Ok((Expr::Apply(k, Box::new(a)), p + 1))
                    } else if p < ts.len() {
                        Err(ParseFail::BadToken(p as usize))
                    } else {
                        Err(ParseFail::Eof)
                    },
                    Err(f) => Err(f),
                }
            } else if pos + 1 < ts.len() {
                Err(ParseFail::BadToken((pos + 1) as usize))
            } else {
                Err(ParseFail::Eof)
            },
            _ => Err(ParseFail::BadToken(pos as usize)),
        }
    }
}

/// A factor: an atom, optionally raised to a factor.  The recursion on the
/// right operand makes `^` right-associative.
pub open spec fn spec_factor(ts: Seq<TokView>, pos: int) -> Result<(Expr, int), ParseFail>
    decreases ts.len() - pos, 1int,
{
    match spec_atom(ts, pos) {
        Ok((a, p)) => if p < ts.len() && ts[p] == TokView::Caret {
            if pos < p {
                match spec_factor(ts, p + 1) {
                    Ok((b, p2)) => Ok(
                        (Expr::Binary(BinOp::Exponent, Box::new(a), Box::new(b)), p2),
                    ),
                    Err(f) => Err(f),
                }
            } else {
                // an atom always consumes a token, so this branch is beyond
                // reach; it guards the termination measure
                Err(ParseFail::Eof)
            }
        } else {
            Ok((a, p))
        },
        Err(f) => Err(f),
    }
}

/// A juxtaposition: a factor followed by any run of adjacent factors, each
/// adjacency an implicit multiplication, folded to the left.
pub open spec fn spec_juxt(ts: Seq<TokView>, pos: int) -> Result<(Expr, int), ParseFail>
    decreases ts.len() - pos, 3int,
{
    match spec_factor(ts, pos) {
        Ok((a, p)) => if pos < p <= ts.len() {
            spec_juxt_more(ts, a, p)
        } else {
            Err(ParseFail::Eof)
        },
        Err(f) => Err(f),
    }
}

/// The left fold of implicit multiplication: `acc` is the juxtaposition
/// parsed so far, and every adjacent atom multiplies onto it.
pub open spec fn spec_juxt_more(ts: Seq<TokView>, acc: Expr, pos: int) -> Result<
    (Expr, int),
    ParseFail,
>
    decreases ts.len() - pos, 2int,
{
    if pos < ts.len() && starts_atom(ts[pos]) {
        match spec_factor(ts, pos) {
            Ok((b, p)) => if pos < p <= ts.len() {
                spec_juxt_more(ts, Expr::Binary(BinOp::Multiply, Box::new(acc), Box::new(b)), p)
            } else {
                Err(ParseFail::Eof)
            },
            Err(f) => Err(f),
        }
    } else {
        Ok((acc, pos))
    }
}

/// A term: a juxtaposition followed by any run of `*`, `/` or `%`
/// juxtapositions, folded to the left.
pub open spec fn spec_term(ts: Seq<TokView>, pos: int) -> Result<(Expr, int), ParseFail>
    decreases ts.len() - pos, 5int,
{
    match spec_juxt(ts, pos) {
        Ok((a, p)) => if pos < p <= ts.len() {
            spec_term_more(ts, a, p)
        } else {
            Err(ParseFail::Eof)
        },
        Err(f) => Err(f),
    }
}

/// The left fold of the explicit multiplicative tier.
pub open spec fn spec_term_more(ts: Seq<TokView>, acc: Expr, pos: int) -> Result<
    (Expr, int),
    ParseFail,
>
    decreases ts.len() - pos, 4int,
{
    if pos < ts.len() && (ts[pos] == TokView::Star || ts[pos] == TokView::Slash || ts[pos]
        == TokView::Percent) {
        let op = if ts[pos] == TokView::Star {
            BinOp::Multiply
        } else if ts[pos] == TokView::Slash {
            BinOp::Divide
        } else {
            BinOp::Modulo
        };
        match spec_juxt(ts, pos + 1) {
            Ok((b, p)) => if pos + 1 < p <= ts.len() {
                spec_term_more(ts, Expr::Binary(op, Box::new(acc), Box::new(b)), p)
            } else {
                Err(ParseFail::Eof)
            },
            Err(f) => Err(f),
        }
    } else {
        Ok((acc, pos))
    }
}

/// An expression: a term followed by any run of `+` or `-` terms, folded to
/// the left.
pub open spec fn spec_expr(ts: Seq<TokView>, pos: int) -> Result<(Expr, int), ParseFail>
    decreases ts.len() - pos, 7int,
{
    match spec_term(ts, pos) {
        Ok((a, p)) => if pos < p <= ts.len() {
            spec_expr_more(ts, a, p)
        } else {
            Err(ParseFail::Eof)
        },
        Err(f) => Err(f),
    }
}

/// The left fold of the additive tier.
pub open spec fn spec_expr_more(ts: Seq<TokView>, acc: Expr, pos: int) -> Result<
    (Expr, int),
    ParseFail,
>
    decreases ts.len() - pos, 6int,
{
    if pos < ts.len() && (ts[pos] == TokView::Plus || ts[pos] == TokView::Minus) {
        let op = if ts[pos] == TokView::Plus {
            BinOp::Add
        } else {
            BinOp::Subtract
        };
        match spec_term(ts, pos + 1) {
            Ok((b, p)) => if pos + 1 < p <= ts.len() {
                spec_expr_more(ts, Expr::Binary(op, Box::new(acc), Box::new(b)), p)
            } else {
                Err(ParseFail::Eof)
            },
            Err(f) => Err(f),
        }
    } else {
        Ok((acc, pos))
    }
}

/// A successful atom consumes at least one token and stays within the input.
pub proof fn lemma_atom_progress(ts: Seq<TokView>, pos: int)
    ensures
        match spec_atom(ts, pos) {
            Ok((e, p)) => pos < p <= ts.len(),
            Err(f) => true,
        },
    decreases ts.len() - pos, 0int,
{
    if 0 <= pos < ts.len() {
        match ts[pos] {
            TokView::LParen => lemma_expr_progress(ts, pos + 1),
            TokView::Function(k) => {
                if pos + 1 < ts.len() && ts[pos + 1] == TokView::LParen {
                    lemma_expr_progress(ts, pos + 2);
                }
            },
            _ => {},
        }
    }
}

/// A successful factor consumes at least one token and stays within the
/// input.
pub proof fn lemma_factor_progress(ts: Seq<TokView>, pos: int)
    ensures
        match spec_factor(ts, pos) {
            Ok((e, p)) => pos < p <= ts.len(),
            Err(f) => true,
        },
    decreases ts.len() - pos, 1int,
{
    lemma_atom_progress(ts, pos);
    match spec_atom(ts, pos) {
        Ok((a, p)) => {
            if p < ts.len() && ts[p] == TokView::Caret && pos < p {
                lemma_factor_progress(ts, p + 1);
            }
        },
        Err(f) => {},
    }
}

/// The implicit-multiplication fold never moves backwards and stays within
/// the input.
pub proof fn lemma_juxt_more_progress(ts: Seq<TokView>, acc: Expr, pos: int)
    requires
        0 <= pos <= ts.len(),
    ensures
        match spec_juxt_more(ts, acc, pos) {
            Ok((e, p)) => pos <= p <= ts.len(),
            Err(f) => true,
        },
    decreases ts.len() - pos, 2int,
{
    if pos < ts.len() && starts_atom(ts[pos]) {
        lemma_factor_progress(ts, pos);
        match spec_factor(ts, pos) {
            Ok((b, p)) => {
                lemma_juxt_more_progress(
                    ts,
                    Expr::Binary(BinOp::Multiply, Box::new(acc), Box::new(b)),
                    p,
                );
            },
            Err(f) => {},
        }
    }
}

/// A successful juxtaposition consumes at least one token and stays within
/// the input.
pub proof fn lemma_juxt_progress(ts: Seq<TokView>, pos: int)
    ensures
        match spec_juxt(ts, pos) {
            Ok((e, p)) => pos < p <= ts.len(),
            Err(f) => true,
        },
    decreases ts.len() - pos, 3int,
{
    lemma_factor_progress(ts, pos);
    match spec_factor(ts, pos) {
        Ok((a, p)) => {
            if pos < p {
                lemma_juxt_more_progress(ts, a, p);
            }
        },
        Err(f) => {},
    }
}

/// The explicit multiplicative fold never moves backwards and stays within
/// the input.
pub proof fn lemma_term_more_progress(ts: Seq<TokView>, acc: Expr, pos: int)
    requires
        0 <= pos <= ts.len(),
    ensures
        match spec_term_more(ts, acc, pos) {
            Ok((e, p)) => pos <= p <= ts.len(),
            Err(f) => true,
        },
    decreases ts.len() - pos, 4int,
{
    if pos < ts.len() && (ts[pos] == TokView::Star || ts[pos] == TokView::Slash || ts[pos]
        == TokView::Percent) {
        let op = if ts[pos] == TokView::Star {
            BinOp::Multiply
        } else if ts[pos] == TokView::Slash {
            BinOp::Divide
        } else {
            BinOp::Modulo
        };
        lemma_juxt_progress(ts, pos + 1);
        match spec_juxt(ts, pos + 1) {
            Ok((b, p)) => {
                lemma_term_more_progress(ts, Expr::Binary(op, Box::new(acc), Box::new(b)), p);
            },
            Err(f) => {},
        }
    }
}

/// A successful term consumes at least one token and stays within the input.
pub proof fn lemma_term_progress(ts: Seq<TokView>, pos: int)
    ensures
        match spec_term(ts, pos) {
            Ok((e, p)) => pos < p <= ts.len(),
            Err(f) => true,
        },
    decreases ts.len() - pos, 5int,
{
    lemma_juxt_progress(ts, pos);
    match spec_juxt(ts, pos) {
        Ok((a, p)) => {
            if pos < p {
                lemma_term_more_progress(ts, a, p);
            }
        },
        Err(f) => {},
    }
}

/// The additive fold never moves backwards and stays within the input.
pub proof fn lemma_expr_more_progress(ts: Seq<TokView>, acc: Expr, pos: int)
    requires
        0 <= pos <= ts.len(),
    ensures
        match spec_expr_more(ts, acc, pos) {
            Ok((e, p)) => pos <= p <= ts.len(),
            Err(f) => true,
        },
    decreases ts.len() - pos, 6int,
{
    if pos < ts.len() && (ts[pos] == TokView::Plus || ts[pos] == TokView::Minus) {
        let op = if ts[pos] == TokView::Plus {
            BinOp::Add
        } else {
            BinOp::Subtract
        };
        lemma_term_progress(ts, pos + 1);
        match spec_term(ts, pos + 1) {
            Ok((b, p)) => {
                lemma_expr_more_progress(ts, Expr::Binary(op, Box::new(acc), Box::new(b)), p);
            },
            Err(f) => {},
        }
    }
}

/// A successful expression consumes at least one token and stays within the
/// input.
pub proof fn lemma_expr_progress(ts: Seq<TokView>, pos: int)
    ensures
        match spec_expr(ts, pos) {
            Ok((e, p)) => pos < p <= ts.len(),
            Err(f) => true,
        },
    decreases ts.len() - pos, 7int,
{
    lemma_term_progress(ts, pos);
    match spec_term(ts, pos) {
        Ok((a, p)) => {
            if pos < p {
                lemma_expr_more_progress(ts, a, p);
            }
        },
        Err(f) => {},
    }
}

/// A sequence is a prefix of itself.
pub proof fn lemma_prefix_refl<A>(s: Seq<A>)
    ensures
        s.is_prefix_of(s),
{
    assert(s =~= s.subrange(0, s.len() as int));
}

/// Mints a binary node over two already-denoting handles; the new handle
/// denotes the combined tree and is the newest record of the table.
fn emit_binary(t: &mut CtorTable, op: BinOp, l: IFunctionAST, r: IFunctionAST) -> (h: IFunctionAST)
    requires
        decode(old(t)@, l.0.0 as int) is Some,
        decode(old(t)@, r.0.0 as int) is Some,
    ensures
        old(t)@.is_prefix_of(final(t)@),
        final(t)@.len() == old(t)@.len() + 1,
        h.0.0 + 1 == final(t)@.len(),
        decode(final(t)@, h.0.0 as int) == Some(
            Expr::Binary(
                op,
                Box::new(decode(old(t)@, l.0.0 as int).unwrap()),
                Box::new(decode(old(t)@, r.0.0 as int).unwrap()),
            ),
        ),
{
    let h = t.new_binary(op, l, r);
    proof {
        lemma_push_prefix(old(t)@, Node::Binary(op, l.0.0 as int, r.0.0 as int));
        lemma_decode_prefix(old(t)@, t@, l.0.0 as int);
        lemma_decode_prefix(old(t)@, t@, r.0.0 as int);
    }
    h
}

/// Mints a function-application node over an already-denoting handle.
fn emit_apply(t: &mut CtorTable, k: FuncKind, inner: IFunctionAST) -> (h: IFunctionAST)
    requires
        decode(old(t)@, inner.0.0 as int) is Some,
    ensures
        old(t)@.is_prefix_of(final(t)@),
        final(t)@.len() == old(t)@.len() + 1,
        h.0.0 + 1 == final(t)@.len(),
        decode(final(t)@, h.0.0 as int) == Some(
            Expr::Apply(k, Box::new(decode(old(t)@, inner.0.0 as int).unwrap())),
        ),
{
    let h = t.new_function(k, inner);
    proof {
        lemma_push_prefix(old(t)@, Node::Apply(k, inner.0.0 as int));
        lemma_decode_prefix(old(t)@, t@, inner.0.0 as int);
    }
    h
}

/// Mints a number leaf.
fn emit_number(t: &mut CtorTable, text: &str) -> (h: IFunctionAST)
    ensures
        old(t)@.is_prefix_of(final(t)@),
        final(t)@.len() == old(t)@.len() + 1,
        h.0.0 + 1 == final(t)@.len(),
        decode(final(t)@, h.0.0 as int) == Some(Expr::Number(text@)),
{
    let h = t.new_number(text);
    proof {
        lemma_push_prefix(old(t)@, Node::Number(text@));
    }
    h
}

/// Mints a variable: first its name string, then the variable node that
/// refers to it.
fn emit_variable(t: &mut CtorTable, name: &str) -> (h: IFunctionAST)
    ensures
        old(t)@.is_prefix_of(final(t)@),
        final(t)@.len() == old(t)@.len() + 2,
        h.0.0 + 1 == final(t)@.len(),
        decode(final(t)@, h.0.0 as int) == Some(Expr::Variable(name@)),
{
    let ghost t0 = t@;
    let s: GCString = t.new_string(name);
    let ghost t1 = t@;
    let h = t.new_variable(s);
    proof {
        lemma_push_prefix(t0, Node::Str(name@));
        lemma_push_prefix(t1, Node::VarRef(s.0.0 as int));
        lemma_prefix_trans(t0, t1, t@);
        assert(t@[s.0.0 as int] == Node::Str(name@));
    }
    h
}

/// Mints a constant leaf.
fn emit_pi(t: &mut CtorTable) -> (h: IFunctionAST)
    ensures
        old(t)@.is_prefix_of(final(t)@),
        final(t)@.len() == old(t)@.len() + 1,
        h.0.0 + 1 == final(t)@.len(),
        decode(final(t)@, h.0.0 as int) == Some(Expr::Pi),
{
    let h = t.new_pi();
    proof {
        lemma_push_prefix(old(t)@, Node::Pi);
    }
    h
}

/// Mints a constant leaf.
fn emit_e(t: &mut CtorTable) -> (h: IFunctionAST)
    ensures
        old(t)@.is_prefix_of(final(t)@),
        final(t)@.len() == old(t)@.len() + 1,
        h.0.0 + 1 == final(t)@.len(),
        decode(final(t)@, h.0.0 as int) == Some(Expr::E),
{
    let h = t.new_e();
    proof {
        lemma_push_prefix(old(t)@, Node::E);
    }
    h
}

/// Whether the executable token can open an atom.
fn starts_atom_exec(tk: &Token) -> (b: bool)
    ensures
        b == starts_atom(tk@),
{
    match tk {
        Token::Number(_) => true,
        Token::Variable(_) => true,
        Token::LParen => true,
        Token::Function(_) => true,
        Token::Pi => true,
        Token::E => true,
        _ => false,
    }
}

/// Parses one atom, minting its nodes bottom-up.
fn parse_atom(t: &mut CtorTable, ts: &Vec<Token>, pos: usize) -> (r: Result<
    (IFunctionAST, usize),
    ParseFail,
>)
    requires
        pos <= ts@.len(),
    ensures
        old(t)@.is_prefix_of(final(t)@),
        match spec_atom(token_views(ts@), pos as int) {
            Ok((e, p)) => r matches Ok(hp) && hp.1 == p && pos < p <= ts@.len() && decode(
                final(t)@,
                hp.0.0.0 as int,
            ) == Some(e) && hp.0.0.0 + 1 == final(t)@.len() && final(t)@.len() > old(t)@.len(),
            Err(f) => r matches Err(g) && g == f,
        },
    decreases ts@.len() - pos, 0int,
{
    proof {
        lemma_atom_progress(token_views(ts@), pos as int);
    }
    if pos >= ts.len() {
        return Err(ParseFail::Eof);
    }
    match &ts[pos] {
        Token::Number(txt) => {
            let h = emit_number(t, txt.as_str());
            Ok((h, pos + 1))
        },
        Token::Variable(nm) => {
            let h = emit_variable(t, nm.as_str());
            Ok((h, pos + 1))
        },
        Token::Pi => {
            let h = emit_pi(t);
            Ok((h, pos + 1))
        },
        Token::E => {
            let h = emit_e(t);
            Ok((h, pos + 1))
        },
        Token::LParen => {
            match parse_expr(t, ts, pos + 1) {
                Err(f) => Err(f),
                Ok((h, p)) => {
                    if p < ts.len() {
                        let close = match &ts[p] {
                            Token::RParen => true,
                            _ => false,
                        };
                        if close {
                            Ok((h, p + 1))
                        } else {
                            Err(ParseFail::BadToken(p))
                        }
                    } else {
                        Err(ParseFail::Eof)
                    }
                },
            }
        },
        Token::Function(k) => {
            let kk: FuncKind = *k;
            let open_next = if pos + 1 < ts.len() {
                match &ts[pos + 1] {
                    Token::LParen => true,
                    _ => false,
                }
            } else {
                false
            };
            if open_next {
                match parse_expr(t, ts, pos + 2) {
                    Err(f) => Err(f),
                    Ok((h, p)) => {
                        if p < ts.len() {
                            let close = match &ts[p] {
                                Token::RParen => true,
                                _ => false,
                            };
                            if close {
                                let h2 = emit_apply(t, kk, h);
                                Ok((h2, p + 1))
                            } else {
                                Err(ParseFail::BadToken(p))
                            }
                        } else {
                            Err(ParseFail::Eof)
                        }
                    },
                }
            } else if pos + 1 < ts.len() {
                Err(ParseFail::BadToken(pos + 1))
            } else {
                Err(ParseFail::Eof)
            }
        },
        _ => Err(ParseFail::BadToken(pos)),
    }
}

/// Parses one factor: an atom, optionally raised to a factor.
fn parse_factor(t: &mut CtorTable, ts: &Vec<Token>, pos: usize) -> (r: Result<
    (IFunctionAST, usize),
    ParseFail,
>)
    requires
        pos <= ts@.len(),
    ensures
        old(t)@.is_prefix_of(final(t)@),
        match spec_factor(token_views(ts@), pos as int) {
            Ok((e, p)) => r matches Ok(hp) && hp.1 == p && pos < p <= ts@.len() && decode(
                final(t)@,
                hp.0.0.0 as int,
            ) == Some(e) && hp.0.0.0 + 1 == final(t)@.len() && final(t)@.len() > old(t)@.len(),
            Err(f) => r matches Err(g) && g == f,
        },
    decreases ts@.len() - pos, 1int,
{
    proof {
        lemma_factor_progress(token_views(ts@), pos as int);
    }
    let ghost t0 = t@;
    match parse_atom(t, ts, pos) {
        Err(f) => Err(f),
        Ok((h, p)) => {
            let ghost t1 = t@;
            let caret = if p < ts.len() {
                match &ts[p] {
                    Token::Caret => true,
                    _ => false,
                }
            } else {
                false
            };
            if caret {
                match parse_factor(t, ts, p + 1) {
                    Err(f) => {
                        proof {
                            lemma_prefix_trans(t0, t1, t@);
                        }
                        Err(f)
                    },
                    Ok((h2, p2)) => {
                        proof {
                            lemma_decode_prefix(t1, t@, h.0.0 as int);
                        }
                        let ghost t2 = t@;
                        let hb = emit_binary(t, BinOp::Exponent, h, h2);
                        proof {
                            lemma_prefix_trans(t0, t1, t2);
                            lemma_prefix_trans(t0, t2, t@);
                        }
                        Ok((hb, p2))
                    },
                }
            } else {
                Ok((h, p))
            }
        },
    }
}

/// Folds implicit multiplication to the left, starting from the already
/// minted `acc`, which must be the newest record of the table.
fn parse_juxt_more(t: &mut CtorTable, acc: IFunctionAST, ts: &Vec<Token>, pos: usize) -> (r: Result<
    (IFunctionAST, usize),
    ParseFail,
>)
    requires
        pos <= ts@.len(),
        decode(old(t)@, acc.0.0 as int) is Some,
        acc.0.0 + 1 == old(t)@.len(),
    ensures
        old(t)@.is_prefix_of(final(t)@),
        match spec_juxt_more(
            token_views(ts@),
            decode(old(t)@, acc.0.0 as int).unwrap(),
            pos as int,
        ) {
            Ok((e, p)) => r matches Ok(hp) && hp.1 == p && pos <= p <= ts@.len() && decode(
                final(t)@,
                hp.0.0.0 as int,
            ) == Some(e) && hp.0.0.0 + 1 == final(t)@.len(),
            Err(f) => r matches Err(g) && g == f,
        },
    decreases ts@.len() - pos, 2int,
{
    let ghost t0 = t@;
    let juxt = if pos < ts.len() {
        starts_atom_exec(&ts[pos])
    } else {
        false
    };
    if juxt {
        match parse_factor(t, ts, pos) {
            Err(f) => Err(f),
            Ok((hb, p)) => {
                let ghost t1 = t@;
                proof {
                    lemma_decode_prefix(t0, t1, acc.0.0 as int);
                }
                let h2 = emit_binary(t, BinOp::Multiply, acc, hb);
                proof {
                    lemma_prefix_trans(t0, t1, t@);
                }
                let ghost t2 = t@;
                match parse_juxt_more(t, h2, ts, p) {
                    Err(f) => {
                        proof {
                            lemma_prefix_trans(t0, t2, t@);
                        }
                        Err(f)
                    },
                    Ok(hp) => {
                        proof {
                            lemma_prefix_trans(t0, t2, t@);
                        }
                        Ok(hp)
                    },
                }
            },
        }
    } else {
        proof {
            lemma_prefix_refl(t@);
        }
        Ok((acc, pos))
    }
}

/// Parses one juxtaposition: a factor and its implicit-multiplication fold.
fn parse_juxt(t: &mut CtorTable, ts: &Vec<Token>, pos: usize) -> (r: Result<
    (IFunctionAST, usize),
    ParseFail,
>)
    requires
        pos <= ts@.len(),
    ensures
        old(t)@.is_prefix_of(final(t)@),
        match spec_juxt(token_views(ts@), pos as int) {
            Ok((e, p)) => r matches Ok(hp) && hp.1 == p && pos < p <= ts@.len() && decode(
                final(t)@,
                hp.0.0.0 as int,
            ) == Some(e) && hp.0.0.0 + 1 == final(t)@.len() && final(t)@.len() > old(t)@.len(),
            Err(f) => r matches Err(g) && g == f,
        },
    decreases ts@.len() - pos, 3int,
{
    proof {
        lemma_juxt_progress(token_views(ts@), pos as int);
        lemma_factor_progress(token_views(ts@), pos as int);
    }
    let ghost t0 = t@;
    match parse_factor(t, ts, pos) {
        Err(f) => Err(f),
        Ok((h, p)) => {
            let ghost t1 = t@;
            proof {
                if spec_juxt_more(token_views(ts@), decode(t1, h.0.0 as int).unwrap(), p as int)
                    is Ok {
                    lemma_juxt_more_progress(
                        token_views(ts@),
                        decode(t1, h.0.0 as int).unwrap(),
                        p as int,
                    );
                }
            }
            match parse_juxt_more(t, h, ts, p) {
                Err(f) => {
                    proof {
                        lemma_prefix_trans(t0, t1, t@);
                    }
                    Err(f)
                },
                Ok(hp) => {
                    proof {
                        lemma_prefix_trans(t0, t1, t@);
                    }
                    Ok(hp)
                },
            }
        },
    }
}

/// Folds the explicit multiplicative tier to the left, starting from the
/// already minted `acc`, which must be the newest record of the table.
fn parse_term_more(t: &mut CtorTable, acc: IFunctionAST, ts: &Vec<Token>, pos: usize) -> (r: Result<
    (IFunctionAST, usize),
    ParseFail,
>)
    requires
        pos <= ts@.len(),
        decode(old(t)@, acc.0.0 as int) is Some,
        acc.0.0 + 1 == old(t)@.len(),
    ensures
        old(t)@.is_prefix_of(final(t)@),
        match spec_term_more(
            token_views(ts@),
            decode(old(t)@, acc.0.0 as int).unwrap(),
            pos as int,
        ) {
            Ok((e, p)) => r matches Ok(hp) && hp.1 == p && pos <= p <= ts@.len() && decode(
                final(t)@,
                hp.0.0.0 as int,
            ) == Some(e) && hp.0.0.0 + 1 == final(t)@.len(),
            Err(f) => r matches Err(g) && g == f,
        },
    decreases ts@.len() - pos, 4int,
{
    let ghost t0 = t@;
    let op: Option<BinOp> = if pos < ts.len() {
        match &ts[pos] {
            Token::Star => Some(BinOp::Multiply),
            Token::Slash => Some(BinOp::Divide),
            Token::Percent => Some(BinOp::Modulo),
            _ => None,
        }
    } else {
        None
    };
    match op {
        Some(op) => {
            match parse_juxt(t, ts, pos + 1) {
                Err(f) => Err(f),
                Ok((hb, p)) => {
                    let ghost t1 = t@;
                    proof {
                        lemma_decode_prefix(t0, t1, acc.0.0 as int);
                    }
                    let h2 = emit_binary(t, op, acc, hb);
                    proof {
                        lemma_prefix_trans(t0, t1, t@);
                    }
                    let ghost t2 = t@;
                    match parse_term_more(t, h2, ts, p) {
                        Err(f) => {
                            proof {
                                lemma_prefix_trans(t0, t2, t@);
                            }
                            Err(f)
                        },
                        Ok(hp) => {
                            proof {
                                lemma_prefix_trans(t0, t2, t@);
                            }
                            Ok(hp)
                        },
                    }
                },
            }
        },
        None => {
            proof {
                lemma_prefix_refl(t@);
            }
            Ok((acc, pos))
        },
    }
}

/// Parses one term: a juxtaposition and its explicit multiplicative fold.
fn parse_term(t: &mut CtorTable, ts: &Vec<Token>, pos: usize) -> (r: Result<
    (IFunctionAST, usize),
    ParseFail,
>)
    requires
        pos <= ts@.len(),
    ensures
        old(t)@.is_prefix_of(final(t)@),
        match spec_term(token_views(ts@), pos as int) {
            Ok((e, p)) => r matches Ok(hp) && hp.1 == p && pos < p <= ts@.len() && decode(
                final(t)@,
                hp.0.0.0 as int,
            ) == Some(e) && hp.0.0.0 + 1 == final(t)@.len() && final(t)@.len() > old(t)@.len(),
            Err(f) => r matches Err(g) && g == f,
        },
    decreases ts@.len() - pos, 5int,
{
    proof {
        lemma_term_progress(token_views(ts@), pos as int);
        lemma_juxt_progress(token_views(ts@), pos as int);
    }
    let ghost t0 = t@;
    match parse_juxt(t, ts, pos) {
        Err(f) => Err(f),
        Ok((h, p)) => {
            let ghost t1 = t@;
            proof {
                if spec_term_more(token_views(ts@), decode(t1, h.0.0 as int).unwrap(), p as int)
                    is Ok {
                    lemma_term_more_progress(
                        token_views(ts@),
                        decode(t1, h.0.0 as int).unwrap(),
                        p as int,
                    );
                }
            }
            match parse_term_more(t, h, ts, p) {
                Err(f) => {
                    proof {
                        lemma_prefix_trans(t0, t1, t@);
                    }
                    Err(f)
                },
                Ok(hp) => {
                    proof {
                        lemma_prefix_trans(t0, t1, t@);
                    }
                    Ok(hp)
                },
            }
        },
    }
}

/// Folds the additive tier to the left, starting from the already minted
/// `acc`, which must be the newest record of the table.
fn parse_expr_more(t: &mut CtorTable, acc: IFunctionAST, ts: &Vec<Token>, pos: usize) -> (r: Result<
    (IFunctionAST, usize),
    ParseFail,
>)
    requires
        pos <= ts@.len(),
        decode(old(t)@, acc.0.0 as int) is Some,
        acc.0.0 + 1 == old(t)@.len(),
    ensures
        old(t)@.is_prefix_of(final(t)@),
        match spec_expr_more(
            token_views(ts@),
            decode(old(t)@, acc.0.0 as int).unwrap(),
            pos as int,
        ) {
            Ok((e, p)) => r matches Ok(hp) && hp.1 == p && pos <= p <= ts@.len() && decode(
                final(t)@,
                hp.0.0.0 as int,
            ) == Some(e) && hp.0.0.0 + 1 == final(t)@.len(),
            Err(f) => r matches Err(g) && g == f,
        },
    decreases ts@.len() - pos, 6int,
{
    let ghost t0 = t@;
    let op: Option<BinOp> = if pos < ts.len() {
        match &ts[pos] {
            Token::Plus => Some(BinOp::Add),
            Token::Minus => Some(BinOp::Subtract),
            _ => None,
        }
    } else {
        None
    };
    match op {
        Some(op) => {
            match parse_term(t, ts, pos + 1) {
                Err(f) => Err(f),
                Ok((hb, p)) => {
                    let ghost t1 = t@;
                    proof {
                        lemma_decode_prefix(t0, t1, acc.0.0 as int);
                    }
                    let h2 = emit_binary(t, op, acc, hb);
                    proof {
                        lemma_prefix_trans(t0, t1, t@);
                    }
                    let ghost t2 = t@;
                    match parse_expr_more(t, h2, ts, p) {
                        Err(f) => {
                            proof {
                                lemma_prefix_trans(t0, t2, t@);
                            }
                            Err(f)
                        },
                        Ok(hp) => {
                            proof {
                                lemma_prefix_trans(t0, t2, t@);
                            }
                            Ok(hp)
                        },
                    }
                },
            }
        },
        None => {
            proof {
                lemma_prefix_refl(t@);
            }
            Ok((acc, pos))
        },
    }
}

/// Parses one expression: a term and its additive fold.  This is the start
/// symbol of the grammar.
pub fn parse_expr(t: &mut CtorTable, ts: &Vec<Token>, pos: usize) -> (r: Result<
    (IFunctionAST, usize),
    ParseFail,
>)
    requires
        pos <= ts@.len(),
    ensures
        old(t)@.is_prefix_of(final(t)@),
        match spec_expr(token_views(ts@), pos as int) {
            Ok((e, p)) => r matches Ok(hp) && hp.1 == p && pos < p <= ts@.len() && decode(
                final(t)@,
                hp.0.0.0 as int,
            ) == Some(e) && hp.0.0.0 + 1 == final(t)@.len() && final(t)@.len() > old(t)@.len(),
            Err(f) => r matches Err(g) && g == f,
        },
    decreases ts@.len() - pos, 7int,
{
    proof {
        lemma_expr_progress(token_views(ts@), pos as int);
        lemma_term_progress(token_views(ts@), pos as int);
    }
    let ghost t0 = t@;
    match parse_term(t, ts, pos) {
        Err(f) => Err(f),
        Ok((h, p)) => {
            let ghost t1 = t@;
            proof {
                if spec_expr_more(token_views(ts@), decode(t1, h.0.0 as int).unwrap(), p as int)
                    is Ok {
                    lemma_expr_more_progress(
                        token_views(ts@),
                        decode(t1, h.0.0 as int).unwrap(),
                        p as int,
                    );
                }
            }
            match parse_expr_more(t, h, ts, p) {
                Err(f) => {
                    proof {
                        lemma_prefix_trans(t0, t1, t@);
                    }
                    Err(f)
                },
                Ok(hp) => {
                    proof {
                        lemma_prefix_trans(t0, t1, t@);
                    }
                    Ok(hp)
                },
            }
        },
    }
}

} // verus!
