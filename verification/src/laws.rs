//! Laws of the grammar that relate several runs of the front end.

use vstd::prelude::*;

use crate::ast::{BinOp, Expr};
use crate::lexer::{
    alnum_end, brace_end, is_alnum_char, is_letter_char, spec_lex,
};
use crate::grammar::{spec_atom, spec_expr, spec_expr_more, spec_factor, spec_juxt,
    spec_juxt_more, spec_term, spec_term_more, starts_atom};
use crate::spec_parse;
use crate::tokens::{ParseFail, TokView};

verus! {

/// A run of letters and digits reaching the end of the input scans to the
/// end.
proof fn lemma_alnum_end_full(s: Seq<char>, i: int)
    requires
        0 <= i <= s.len(),
        forall|j: int| i <= j < s.len() ==> is_alnum_char(s[j]),
    ensures
        alnum_end(s, i) == s.len(),
    decreases s.len() - i,
{
    if i < s.len() {
        lemma_alnum_end_full(s, i + 1);
    }
}

/// The subscript scan stops at the first closing brace.
proof fn lemma_brace_end_finds(s: Seq<char>, i: int, k: int)
    requires
        0 <= i <= k < s.len(),
        s[k] == '}',
        forall|j: int| i <= j < k ==> s[j] != '}',
    ensures
        brace_end(s, i) == k,
    decreases k - i,
{
    if i < k {
        lemma_brace_end_finds(s, i + 1, k);
    }
}

/// Brace-delimited and bare subscripts denote the same variable: for a base
/// letter `c` and a non-empty run `sub` of letters and digits, the inputs
/// `c_sub` and `c_{sub}` each parse to the variable named `c_sub`.
pub proof fn lemma_subscript_forms_agree(c: char, sub: Seq<char>)
    requires
        is_letter_char(c),
        sub.len() > 0,
        forall|i: int| 0 <= i < sub.len() ==> is_alnum_char(sub[i]),
    ensures
        spec_parse(seq![c, '_'] + sub) == Ok::<Expr, ParseFail>(
            Expr::Variable(seq![c, '_'] + sub),
        ),
        spec_parse(seq![c, '_', '{'] + sub + seq!['}']) == Ok::<Expr, ParseFail>(
            Expr::Variable(seq![c, '_'] + sub),
        ),
{
    let name = seq![c, '_'] + sub;

    let s1 = seq![c, '_'] + sub;
    assert forall|j: int| 2 <= j < s1.len() implies is_alnum_char(s1[j]) by {
        assert(s1[j] == sub[j - 2]);
    }
    lemma_alnum_end_full(s1, 2);
    assert(s1[1] == '_');
    assert(s1.subrange(2, s1.len() as int) =~= sub);
    assert(spec_lex(s1, s1.len() as int) == Ok::<Seq<TokView>, ParseFail>(Seq::empty()));
    assert(seq![TokView::Variable(name)] + Seq::<TokView>::empty() =~= seq![
        TokView::Variable(name),
    ]);
    assert(spec_lex(s1, 0) == Ok::<Seq<TokView>, ParseFail>(seq![TokView::Variable(name)]));

    let s2 = seq![c, '_', '{'] + sub + seq!['}'];
    let k = 3 + sub.len() as int;
    assert(s2[k] == '}');
    assert forall|j: int| 3 <= j < k implies s2[j] != '}' by {
        assert(s2[j] == sub[j - 3]);
        assert(is_alnum_char(sub[j - 3]));
    }
    lemma_brace_end_finds(s2, 3, k);
    assert(s2[1] == '_');
    assert(s2[2] == '{');
    assert(s2.subrange(3, k) =~= sub);
    assert(seq![s2[0], '_'] + s2.subrange(3, k) =~= name);
    assert(spec_lex(s2, s2.len() as int) == Ok::<Seq<TokView>, ParseFail>(Seq::empty()));
    assert(seq![TokView::Variable(name)] + Seq::<TokView>::empty() =~= seq![
        TokView::Variable(name),
    ]);
    assert(spec_lex(s2, 0) == Ok::<Seq<TokView>, ParseFail>(seq![TokView::Variable(name)]));

    let tvs = seq![TokView::Variable(name)];
    let e = Expr::Variable(name);
    assert(spec_atom(tvs, 0) == Ok::<(Expr, int), ParseFail>((e, 1)));
    assert(spec_factor(tvs, 0) == Ok::<(Expr, int), ParseFail>((e, 1)));
    assert(spec_term_more(tvs, e, 1) == Ok::<(Expr, int), ParseFail>((e, 1)));
    assert(spec_term(tvs, 0) == Ok::<(Expr, int), ParseFail>((e, 1)));
    assert(spec_expr_more(tvs, e, 1) == Ok::<(Expr, int), ParseFail>((e, 1)));
    assert(spec_expr(tvs, 0) == Ok::<(Expr, int), ParseFail>((e, 1)));
}

/// A single-token atom: a number, a variable or a constant.
pub open spec fn leaf_tok(t: TokView) -> bool {
    match t {
        TokView::Number(_) => true,
        TokView::Variable(_) => true,
        TokView::Pi => true,
        TokView::E => true,
        _ => false,
    }
}

/// The leaf tree of a single-token atom.
pub open spec fn leaf_expr(t: TokView) -> Expr {
    match t {
        TokView::Number(s) => Expr::Number(s),
        TokView::Variable(s) => Expr::Variable(s),
        TokView::Pi => Expr::Pi,
        TokView::E => Expr::E,
        _ => Expr::Pi,
    }
}

/// The left fold of implicit multiplication over the leaves from `pos` on.
pub open spec fn mul_fold(ts: Seq<TokView>, acc: Expr, pos: int) -> Expr
    decreases ts.len() - pos,
{
    if pos < 0 || pos >= ts.len() {
        acc
    } else {
        mul_fold(
            ts,
            Expr::Binary(BinOp::Multiply, Box::new(acc), Box::new(leaf_expr(ts[pos]))),
            pos + 1,
        )
    }
}

/// Each further leaf multiplies onto the accumulated tree from the left.
proof fn lemma_juxt_leaf_fold(ts: Seq<TokView>, acc: Expr, pos: int)
    requires
        0 <= pos <= ts.len(),
        forall|j: int| pos <= j < ts.len() ==> leaf_tok(ts[j]),
    ensures
        spec_juxt_more(ts, acc, pos) == Ok::<(Expr, int), ParseFail>(
            (mul_fold(ts, acc, pos), ts.len() as int),
        ),
    decreases ts.len() - pos,
{
    if pos < ts.len() {
        assert(leaf_tok(ts[pos]));
        assert(starts_atom(ts[pos]));
        assert(spec_atom(ts, pos) == Ok::<(Expr, int), ParseFail>((leaf_expr(ts[pos]), pos + 1)));
        if pos + 1 < ts.len() {
            assert(leaf_tok(ts[pos + 1]));
        }
        assert(spec_factor(ts, pos) == Ok::<(Expr, int), ParseFail>((leaf_expr(ts[pos]), pos + 1)));
        lemma_juxt_leaf_fold(
            ts,
            Expr::Binary(BinOp::Multiply, Box::new(acc), Box::new(leaf_expr(ts[pos]))),
            pos + 1,
        );
    }
}

/// Implicit multiplication is left-associative: a run of adjacent atoms
/// parses to the left fold of `Multiply` over their leaves.
pub proof fn lemma_implicit_mult_left_assoc(ts: Seq<TokView>)
    requires
        ts.len() >= 1,
        forall|j: int| 0 <= j < ts.len() ==> leaf_tok(ts[j]),
    ensures
        spec_expr(ts, 0) == Ok::<(Expr, int), ParseFail>(
            (mul_fold(ts, leaf_expr(ts[0]), 1), ts.len() as int),
        ),
{
    let e0 = leaf_expr(ts[0]);
    let n = ts.len() as int;
    assert(leaf_tok(ts[0]));
    assert(spec_atom(ts, 0) == Ok::<(Expr, int), ParseFail>((e0, 1)));
    if 1 < n {
        assert(leaf_tok(ts[1]));
    }
    assert(spec_factor(ts, 0) == Ok::<(Expr, int), ParseFail>((e0, 1)));
    lemma_juxt_leaf_fold(ts, e0, 1);
    let folded = mul_fold(ts, e0, 1);
    assert(spec_juxt(ts, 0) == Ok::<(Expr, int), ParseFail>((folded, n)));
    assert(spec_term_more(ts, folded, n) == Ok::<(Expr, int), ParseFail>((folded, n)));
    assert(spec_term(ts, 0) == Ok::<(Expr, int), ParseFail>((folded, n)));
    assert(spec_expr_more(ts, folded, n) == Ok::<(Expr, int), ParseFail>((folded, n)));
    assert(spec_expr(ts, 0) == Ok::<(Expr, int), ParseFail>((folded, n)));
}

/// The exponent binds tighter than implicit multiplication: for atoms `a`,
/// `b` and `c`, the input `a b ^ c` parses as `a * (b ^ c)`, not as
/// `(a * b) ^ c`.
pub proof fn lemma_exponent_binds_tighter(a: TokView, b: TokView, c: TokView)
    requires
        leaf_tok(a),
        leaf_tok(b),
        leaf_tok(c),
    ensures
        spec_expr(seq![a, b, TokView::Caret, c], 0) == Ok::<(Expr, int), ParseFail>(
            (
                Expr::Binary(
                    BinOp::Multiply,
                    Box::new(leaf_expr(a)),
                    Box::new(
                        Expr::Binary(
                            BinOp::Exponent,
                            Box::new(leaf_expr(b)),
                            Box::new(leaf_expr(c)),
                        ),
                    ),
                ),
                4,
            ),
        ),
{
    let ts = seq![a, b, TokView::Caret, c];
    let ea = leaf_expr(a);
    let eb = leaf_expr(b);
    let ec = leaf_expr(c);
    let pw = Expr::Binary(BinOp::Exponent, Box::new(eb), Box::new(ec));
    let whole = Expr::Binary(BinOp::Multiply, Box::new(ea), Box::new(pw));
    assert(spec_atom(ts, 0) == Ok::<(Expr, int), ParseFail>((ea, 1)));
    assert(spec_factor(ts, 0) == Ok::<(Expr, int), ParseFail>((ea, 1)));
    assert(spec_atom(ts, 1) == Ok::<(Expr, int), ParseFail>((eb, 2)));
    assert(spec_atom(ts, 3) == Ok::<(Expr, int), ParseFail>((ec, 4)));
    assert(spec_factor(ts, 3) == Ok::<(Expr, int), ParseFail>((ec, 4)));
    assert(spec_factor(ts, 1) == Ok::<(Expr, int), ParseFail>((pw, 4)));
    assert(spec_juxt_more(ts, whole, 4) == Ok::<(Expr, int), ParseFail>((whole, 4)));
    assert(spec_juxt_more(ts, ea, 1) == Ok::<(Expr, int), ParseFail>((whole, 4)));
    assert(spec_juxt(ts, 0) == Ok::<(Expr, int), ParseFail>((whole, 4)));
    assert(spec_term_more(ts, whole, 4) == Ok::<(Expr, int), ParseFail>((whole, 4)));
    assert(spec_term(ts, 0) == Ok::<(Expr, int), ParseFail>((whole, 4)));
    assert(spec_expr_more(ts, whole, 4) == Ok::<(Expr, int), ParseFail>((whole, 4)));
    assert(spec_expr(ts, 0) == Ok::<(Expr, int), ParseFail>((whole, 4)));
}

/// Modulo takes a whole juxtaposition as its right operand: for atoms `a`,
/// `b` and `c`, the input `a % b c` parses as `a % (b * c)`, not as
/// `(a % b) * c`.
pub proof fn lemma_modulo_takes_juxtaposition(a: TokView, b: TokView, c: TokView)
    requires
        leaf_tok(a),
        leaf_tok(b),
        leaf_tok(c),
    ensures
        spec_expr(seq![a, TokView::Percent, b, c], 0) == Ok::<(Expr, int), ParseFail>(
            (
                Expr::Binary(
                    BinOp::Modulo,
                    Box::new(leaf_expr(a)),
                    Box::new(
                        Expr::Binary(
                            BinOp::Multiply,
                            Box::new(leaf_expr(b)),
                            Box::new(leaf_expr(c)),
                        ),
                    ),
                ),
                4,
            ),
        ),
{
    let ts = seq![a, TokView::Percent, b, c];
    let ea = leaf_expr(a);
    let eb = leaf_expr(b);
    let ec = leaf_expr(c);
    let prod = Expr::Binary(BinOp::Multiply, Box::new(eb), Box::new(ec));
    let whole = Expr::Binary(BinOp::Modulo, Box::new(ea), Box::new(prod));
    assert(spec_atom(ts, 0) == Ok::<(Expr, int), ParseFail>((ea, 1)));
    assert(spec_factor(ts, 0) == Ok::<(Expr, int), ParseFail>((ea, 1)));
    assert(spec_juxt_more(ts, ea, 1) == Ok::<(Expr, int), ParseFail>((ea, 1)));
    assert(spec_juxt(ts, 0) == Ok::<(Expr, int), ParseFail>((ea, 1)));
    assert(spec_atom(ts, 2) == Ok::<(Expr, int), ParseFail>((eb, 3)));
    assert(spec_factor(ts, 2) == Ok::<(Expr, int), ParseFail>((eb, 3)));
    assert(spec_atom(ts, 3) == Ok::<(Expr, int), ParseFail>((ec, 4)));
    assert(spec_factor(ts, 3) == Ok::<(Expr, int), ParseFail>((ec, 4)));
    assert(spec_juxt_more(ts, prod, 4) == Ok::<(Expr, int), ParseFail>((prod, 4)));
    assert(spec_juxt_more(ts, eb, 3) == Ok::<(Expr, int), ParseFail>((prod, 4)));
    assert(spec_juxt(ts, 2) == Ok::<(Expr, int), ParseFail>((prod, 4)));
    assert(spec_term_more(ts, whole, 4) == Ok::<(Expr, int), ParseFail>((whole, 4)));
    assert(spec_term_more(ts, ea, 1) == Ok::<(Expr, int), ParseFail>((whole, 4)));
    assert(spec_term(ts, 0) == Ok::<(Expr, int), ParseFail>((whole, 4)));
    assert(spec_expr_more(ts, whole, 4) == Ok::<(Expr, int), ParseFail>((whole, 4)));
    assert(spec_expr(ts, 0) == Ok::<(Expr, int), ParseFail>((whole, 4)));
}

/// The left fold of addition over `acc` and the leaves at the odd offsets
/// from `pos` on.
pub open spec fn add_fold(ts: Seq<TokView>, acc: Expr, pos: int) -> Expr
    decreases ts.len() - pos,
{
    if pos < 0 || pos + 1 >= ts.len() {
        acc
    } else {
        add_fold(
            ts,
            Expr::Binary(BinOp::Add, Box::new(acc), Box::new(leaf_expr(ts[pos + 1]))),
            pos + 2,
        )
    }
}

/// Each further `+ leaf` pair adds onto the accumulated tree from the left.
proof fn lemma_expr_leaf_fold(ts: Seq<TokView>, acc: Expr, pos: int)
    requires
        0 <= pos <= ts.len(),
        (ts.len() - pos) % 2 == 0,
        forall|j: int|
            pos <= j < ts.len() ==> if (j - pos) % 2 == 0 {
                ts[j] == TokView::Plus
            } else {
                leaf_tok(ts[j])
            },
    ensures
        spec_expr_more(ts, acc, pos) == Ok::<(Expr, int), ParseFail>(
            (add_fold(ts, acc, pos), ts.len() as int),
        ),
    decreases ts.len() - pos,
{
    if pos < ts.len() {
        assert(ts[pos] == TokView::Plus);
        assert(pos + 1 < ts.len());
        assert(leaf_tok(ts[pos + 1]));
        let eb = leaf_expr(ts[pos + 1]);
        assert(spec_atom(ts, pos + 1) == Ok::<(Expr, int), ParseFail>((eb, pos + 2)));
        if pos + 2 < ts.len() {
            assert(ts[pos + 2] == TokView::Plus);
        }
        assert(spec_factor(ts, pos + 1) == Ok::<(Expr, int), ParseFail>((eb, pos + 2)));
        assert(spec_juxt_more(ts, eb, pos + 2) == Ok::<(Expr, int), ParseFail>((eb, pos + 2)));
        assert(spec_juxt(ts, pos + 1) == Ok::<(Expr, int), ParseFail>((eb, pos + 2)));
        assert(spec_term_more(ts, eb, pos + 2) == Ok::<(Expr, int), ParseFail>((eb, pos + 2)));
        assert(spec_term(ts, pos + 1) == Ok::<(Expr, int), ParseFail>((eb, pos + 2)));
        lemma_expr_leaf_fold(
            ts,
            Expr::Binary(BinOp::Add, Box::new(acc), Box::new(eb)),
            pos + 2,
        );
    }
}

/// Chained additions group left to right: atoms joined by `+` parse to the
/// left fold of `Add` over their leaves.
pub proof fn lemma_chained_adds_left_assoc(ts: Seq<TokView>)
    requires
        ts.len() % 2 == 1,
        forall|j: int|
            0 <= j < ts.len() ==> if j % 2 == 0 {
                leaf_tok(ts[j])
            } else {
                ts[j] == TokView::Plus
            },
    ensures
        spec_expr(ts, 0) == Ok::<(Expr, int), ParseFail>(
            (add_fold(ts, leaf_expr(ts[0]), 1), ts.len() as int),
        ),
{
    let e0 = leaf_expr(ts[0]);
    let n = ts.len() as int;
    assert(leaf_tok(ts[0]));
    assert(spec_atom(ts, 0) == Ok::<(Expr, int), ParseFail>((e0, 1)));
    if 1 < n {
        assert(ts[1] == TokView::Plus);
    }
    assert(spec_factor(ts, 0) == Ok::<(Expr, int), ParseFail>((e0, 1)));
    assert(spec_juxt_more(ts, e0, 1) == Ok::<(Expr, int), ParseFail>((e0, 1)));
    assert(spec_juxt(ts, 0) == Ok::<(Expr, int), ParseFail>((e0, 1)));
    assert(spec_term_more(ts, e0, 1) == Ok::<(Expr, int), ParseFail>((e0, 1)));
    assert(spec_term(ts, 0) == Ok::<(Expr, int), ParseFail>((e0, 1)));
    lemma_expr_leaf_fold(ts, e0, 1);
}

} // verus!
