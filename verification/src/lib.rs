//! A verified parser for textual mathematical function expressions such as
//! `5x^2 + 3x - 1` or `4floor(t) - 2floor(2t) + 1`.
//!
//! The parser turns input text into an abstract syntax tree.  It never owns
//! tree nodes itself: every node is requested from a construction table
//! ([`arena::CtorTable`]), which mints an opaque handle per node, and the
//! parser only passes those handles around.  On success the entry point
//! returns the handle of the root; on failure it returns the handle of a
//! string node carrying a diagnostic message, minted through the same table.
//! Partial constructions of a failed parse are not rolled back; they stay in
//! the table's keeping.

pub mod arena;
pub mod ast;
pub mod diag;
pub mod grammar;
pub mod laws;
pub mod lexer;
pub mod tokens;

use vstd::prelude::*;
use vstd::utf8::{decode_utf8, valid_utf8};

use crate::arena::{
    CtorTable, GCString, IFunctionAST, Node, decode, lemma_prefix_trans, lemma_push_prefix,
};
use crate::ast::Expr;
use crate::diag::{diagnostic, msg_of};
use crate::grammar::{parse_expr, spec_expr};
use crate::lexer::{lex, spec_lex};
use crate::tokens::ParseFail;

verus! {

/// What one parse returns: the root handle of the tree, or the handle of a
/// string node carrying the diagnostic.  Both travel through the same handle
/// channel of the construction table; this discriminant says which one was
/// minted.
#[derive(Clone, Copy, Debug)]
pub enum ParseOutcome {
    Tree(IFunctionAST),
    Message(GCString),
}

/// The tree the whole input denotes: the input is tokenized, parsed as one
/// expression, and every token must be consumed.
pub open spec fn spec_parse(chars: Seq<char>) -> Result<Expr, ParseFail> {
    match spec_lex(chars, 0) {
        Err(f) => Err(f),
        Ok(tvs) => match spec_expr(tvs, 0) {
            Err(f) => Err(f),
            Ok((e, p)) => if p == tvs.len() {
                Ok(e)
            } else {
                Err(ParseFail::BadToken(p as usize))
            },
        },
    }
}

/// Parses one text input against the table.  On success the returned handle
/// is the newest record of the table and denotes exactly the tree of
/// [`spec_parse`]; on failure the returned handle is the newest record and
/// is a string node holding exactly the non-empty diagnostic of [`msg_of`].
pub fn parse_str(input: &str, table: &mut CtorTable) -> (r: ParseOutcome)
    ensures
        old(table)@.is_prefix_of(final(table)@),
        final(table)@.len() > old(table)@.len(),
        match spec_parse(input@) {
            Ok(e) => r matches ParseOutcome::Tree(h) && h.0.0 + 1 == final(table)@.len() && h.0.0
                >= old(table)@.len() && decode(final(table)@, h.0.0 as int) == Some(e),
            Err(f) => r matches ParseOutcome::Message(g) && g.0.0 + 1 == final(table)@.len() && (
            final(table)@[g.0.0 as int] == Node::Str(msg_of(f))) && msg_of(f).len() > 0,
        },
{
    let ghost t0 = table@;
    let toks = match lex(input) {
        Ok(v) => v,
        Err(f) => {
            let m = diagnostic(&f);
            let g = table.new_string(m.as_str());
            proof {
                lemma_push_prefix(t0, Node::Str(msg_of(f)));
            }
            return ParseOutcome::Message(g);
        },
    };
    match parse_expr(table, &toks, 0) {
        Ok((h, p)) => {
            if p == toks.len() {
                ParseOutcome::Tree(h)
            } else {
                let f = ParseFail::BadToken(p);
                let ghost t1 = table@;
                let m = diagnostic(&f);
                let g = table.new_string(m.as_str());
                proof {
                    lemma_push_prefix(t1, Node::Str(msg_of(f)));
                    lemma_prefix_trans(t0, t1, table@);
                }
                ParseOutcome::Message(g)
            }
        },
        Err(f) => {
            let ghost t1 = table@;
            let m = diagnostic(&f);
            let g = table.new_string(m.as_str());
            proof {
                lemma_push_prefix(t1, Node::Str(msg_of(f)));
                lemma_prefix_trans(t0, t1, table@);
            }
            ParseOutcome::Message(g)
        },
    }
}

/// Relies on std's `str::from_utf8`: it returns `Ok` exactly when the bytes
/// are well-formed UTF-8, and then borrows them as the text they encode.
#[verifier::external_body]
fn utf8_to_str(bytes: &[u8]) -> (r: Option<&str>)
    ensures
        match r {
            Some(s) => valid_utf8(bytes@) && s@ == decode_utf8(bytes@),
            None => !valid_utf8(bytes@),
        },
{
    std::str::from_utf8(bytes).ok()
}

/// The boundary entry point: raw bytes against the table.  Bytes that are
/// not well-formed UTF-8 mint exactly one string node holding
/// `invalid utf8 given to parser` — no tokenization is attempted and no tree
/// constructor runs.  Well-formed bytes parse as [`parse_str`] on the
/// decoded text.
pub fn parse_bytes(input: &[u8], table: &mut CtorTable) -> (r: ParseOutcome)
    ensures
        old(table)@.is_prefix_of(final(table)@),
        final(table)@.len() > old(table)@.len(),
        valid_utf8(input@) ==> match spec_parse(decode_utf8(input@)) {
            Ok(e) => r matches ParseOutcome::Tree(h) && h.0.0 + 1 == final(table)@.len() && h.0.0
                >= old(table)@.len() && decode(final(table)@, h.0.0 as int) == Some(e),
            Err(f) => r matches ParseOutcome::Message(g) && g.0.0 + 1 == final(table)@.len() && (
            final(table)@[g.0.0 as int] == Node::Str(msg_of(f))) && msg_of(f).len() > 0,
        },
        !valid_utf8(input@) ==> (r matches ParseOutcome::Message(g) && (g.0.0 + 1 == final(
            table)@.len()) && final(table)@ == old(table)@.push(
            Node::Str("invalid utf8 given to parser"@),
        )),
{
    match utf8_to_str(input) {
        Some(s) => parse_str(s, table),
        None => {
            let g = table.new_string("invalid utf8 given to parser");
            proof {
                lemma_push_prefix(old(table)@, Node::Str("invalid utf8 given to parser"@));
            }
            ParseOutcome::Message(g)
        },
    }
}

} // verus!
