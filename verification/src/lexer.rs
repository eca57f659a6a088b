//! The lexer: raw text to a token sequence.
//!
//! [`spec_lex`] is the mathematical definition of tokenization, written over
//! a `Seq<char>`; [`lex`] is the executable scanner, proved to return exactly
//! what `spec_lex` says for every input.
//!
//! Lexical rules:
//! - whitespace separates tokens and is otherwise insignificant;
//! - a numeric literal is the longest run of digits with an optional single
//!   decimal point followed by at least one digit;
//! - an identifier is one base letter, optionally followed by `_` and either
//!   a brace-delimited subscript (`a_{12}`) or a longest run of letters and
//!   digits (`a_12`, `b_xy`); both subscript forms yield the same name;
//! - the keywords `abs`, `floor`, `ceil`, `sin`, `cos`, `tan`, `pi`, `e` are
//!   matched greedily: a keyword is chosen over an identifier match of the
//!   same or shorter length, and never treated as a bare variable;
//! - any other character is a lexical error naming its position.

use vstd::prelude::*;
use vstd::string::StrSliceExecFns;

use crate::ast::FuncKind;
use crate::tokens::{ParseFail, TokView, Token, token_views};

verus! {

/// An ASCII decimal digit.
pub open spec fn is_digit_char(c: char) -> bool {
    48 <= c as u32 <= 57
}

/// An ASCII letter, the alphabet of identifier base characters.
pub open spec fn is_letter_char(c: char) -> bool {
    (65 <= c as u32 <= 90) || (97 <= c as u32 <= 122)
}

/// A letter or a digit, the alphabet of bare subscripts.
pub open spec fn is_alnum_char(c: char) -> bool {
    is_letter_char(c) || is_digit_char(c)
}

/// Insignificant whitespace.
pub open spec fn is_space_char(c: char) -> bool {
    c == ' ' || c == '\t' || c == '\n' || c == '\r'
}

/// The first position at or after `i` that does not hold a digit.
pub open spec fn digits_end(s: Seq<char>, i: int) -> int
    decreases s.len() - i,
{
    if i < s.len() && is_digit_char(s[i]) {
        digits_end(s, i + 1)
    } else {
        i
    }
}

/// The first position at or after `i` that does not hold a letter or digit.
pub open spec fn alnum_end(s: Seq<char>, i: int) -> int
    decreases s.len() - i,
{
    if i < s.len() && is_alnum_char(s[i]) {
        alnum_end(s, i + 1)
    } else {
        i
    }
}

/// The first position at or after `i` that holds `}`, or the end of input.
pub open spec fn brace_end(s: Seq<char>, i: int) -> int
    decreases s.len() - i,
{
    if i < s.len() && s[i] != '}' {
        brace_end(s, i + 1)
    } else {
        i
    }
}

pub proof fn lemma_digits_end_bounds(s: Seq<char>, i: int)
    requires
        0 <= i <= s.len(),
    ensures
        i <= digits_end(s, i) <= s.len(),
    decreases s.len() - i,
{
    if i < s.len() && is_digit_char(s[i]) {
        lemma_digits_end_bounds(s, i + 1);
    }
}

pub proof fn lemma_alnum_end_bounds(s: Seq<char>, i: int)
    requires
        0 <= i <= s.len(),
    ensures
        i <= alnum_end(s, i) <= s.len(),
    decreases s.len() - i,
{
    if i < s.len() && is_alnum_char(s[i]) {
        lemma_alnum_end_bounds(s, i + 1);
    }
}

pub proof fn lemma_brace_end_bounds(s: Seq<char>, i: int)
    requires
        0 <= i <= s.len(),
    ensures
        i <= brace_end(s, i) <= s.len(),
    decreases s.len() - i,
{
    if i < s.len() && s[i] != '}' {
        lemma_brace_end_bounds(s, i + 1);
    }
}

/// The longest keyword that starts at `pos`, with its length.  No keyword is
/// a prefix of another, so at most one can match.
pub open spec fn keyword_at(s: Seq<char>, pos: int) -> Option<(TokView, int)> {
    if pos + 5 <= s.len() && s[pos] == 'f' && s[pos + 1] == 'l' && s[pos + 2] == 'o' && s[pos + 3]
        == 'o' && s[pos + 4] == 'r' {
        Some((TokView::Function(FuncKind::Floor), 5))
    } else if pos + 4 <= s.len() && s[pos] == 'c' && s[pos + 1] == 'e' && s[pos + 2] == 'i' && s[pos
        + 3] == 'l' {
        Some((TokView::Function(FuncKind::Ceil), 4))
    } else if pos + 3 <= s.len() && s[pos] == 'a' && s[pos + 1] == 'b' && s[pos + 2] == 's' {
        Some((TokView::Function(FuncKind::Abs), 3))
    } else if pos + 3 <= s.len() && s[pos] == 's' && s[pos + 1] == 'i' && s[pos + 2] == 'n' {
        Some((TokView::Function(FuncKind::Sin), 3))
    } else if pos + 3 <= s.len() && s[pos] == 'c' && s[pos + 1] == 'o' && s[pos + 2] == 's' {
        Some((TokView::Function(FuncKind::Cos), 3))
    } else if pos + 3 <= s.len() && s[pos] == 't' && s[pos + 1] == 'a' && s[pos + 2] == 'n' {
        Some((TokView::Function(FuncKind::Tan), 3))
    } else if pos + 2 <= s.len() && s[pos] == 'p' && s[pos + 1] == 'i' {
        Some((TokView::Pi, 2))
    } else if pos + 1 <= s.len() && s[pos] == 'e' {
        Some((TokView::E, 1))
    } else {
        None
    }
}

/// The identifier match that starts at `pos` (which must hold a letter):
/// the display name and the position after the match.  When `_` is not
/// followed by a well-formed subscript, the match is the base letter alone.
pub open spec fn ident_at(s: Seq<char>, pos: int) -> (Seq<char>, int) {
    if pos + 1 < s.len() && s[pos + 1] == '_' {
        if pos + 2 < s.len() && s[pos + 2] == '{' {
            let j = brace_end(s, pos + 3);
            if j < s.len() {
                (seq![s[pos], '_'] + s.subrange(pos + 3, j), j + 1)
            } else {
                (seq![s[pos]], pos + 1)
            }
        } else {
            let k = alnum_end(s, pos + 2);
            if k > pos + 2 {
                (seq![s[pos], '_'] + s.subrange(pos + 2, k), k)
            } else {
                (seq![s[pos]], pos + 1)
            }
        }
    } else {
        (seq![s[pos]], pos + 1)
    }
}

/// The token that starts at position `pos` (not whitespace), and the position
/// after it; or the lexical error at `pos`.
pub open spec fn next_token(s: Seq<char>, pos: int) -> Result<(TokView, int), ParseFail> {
    let c = s[pos];
    if c == '+' {
        Ok((TokView::Plus, pos + 1))
    } else if c == '-' {
        Ok((TokView::Minus, pos + 1))
    } else if c == '*' {
        Ok((TokView::Star, pos + 1))
    } else if c == '/' {
        Ok((TokView::Slash, pos + 1))
    } else if c == '%' {
        Ok((TokView::Percent, pos + 1))
    } else if c == '^' {
        Ok((TokView::Caret, pos + 1))
    } else if c == '(' {
        Ok((TokView::LParen, pos + 1))
    } else if c == ')' {
        Ok((TokView::RParen, pos + 1))
    } else if is_digit_char(c) {
        let e1 = digits_end(s, pos);
        if e1 < s.len() && s[e1] == '.' && e1 + 1 < s.len() && is_digit_char(s[e1 + 1]) {
            let e2 = digits_end(s, e1 + 1);
            Ok((TokView::Number(s.subrange(pos, e2)), e2))
        } else {
            Ok((TokView::Number(s.subrange(pos, e1)), e1))
        }
    } else if is_letter_char(c) {
        let id = ident_at(s, pos);
        match keyword_at(s, pos) {
            Some((kt, kl)) => if kl >= id.1 - pos {
                Ok((kt, pos + kl))
            } else {
                Ok((TokView::Variable(id.0), id.1))
            },
            None => Ok((TokView::Variable(id.0), id.1)),
        }
    } else {
        Err(ParseFail::BadChar(pos as usize))
    }
}

/// A successful token match always consumes at least one character and never
/// runs past the end of the input.
pub proof fn lemma_next_token_progress(s: Seq<char>, pos: int)
    requires
        0 <= pos < s.len(),
    ensures
        match next_token(s, pos) {
            Ok((tv, p)) => pos < p <= s.len(),
            Err(f) => true,
        },
{
    let c = s[pos];
    if is_digit_char(c) && c != '+' && c != '-' && c != '*' && c != '/' && c != '%' && c != '^' && c
        != '(' && c != ')' {
        lemma_digits_end_bounds(s, pos + 1);
        let e1 = digits_end(s, pos);
        if e1 < s.len() && s[e1] == '.' && e1 + 1 < s.len() && is_digit_char(s[e1 + 1]) {
            lemma_digits_end_bounds(s, e1 + 2);
        }
    } else if is_letter_char(c) {
        if pos + 1 < s.len() && s[pos + 1] == '_' {
            if pos + 2 < s.len() && s[pos + 2] == '{' {
                lemma_brace_end_bounds(s, pos + 3);
            } else {
                lemma_alnum_end_bounds(s, pos + 2);
            }
        }
    }
}

/// The token sequence of the input from position `pos` on, or the first
/// lexical error.
pub open spec fn spec_lex(s: Seq<char>, pos: int) -> Result<Seq<TokView>, ParseFail>
    decreases s.len() - pos,
{
    if pos >= s.len() {
        Ok(Seq::empty())
    } else if is_space_char(s[pos]) {
        spec_lex(s, pos + 1)
    } else {
        match next_token(s, pos) {
            Ok((tv, p)) => if pos < p <= s.len() {
                match spec_lex(s, p) {
                    Ok(rest) => Ok(seq![tv] + rest),
                    Err(f) => Err(f),
                }
            } else {
                Err(ParseFail::BadChar(pos as usize))
            },
            Err(f) => Err(f),
        }
    }
}

/// Whether `c` is an ASCII decimal digit.
fn digit_exec(c: char) -> (b: bool)
    ensures
        b == is_digit_char(c),
{
    let u = c as u32;
    48 <= u && u <= 57
}

/// Whether `c` is an ASCII letter or digit.
fn alnum_exec(c: char) -> (b: bool)
    ensures
        b == is_alnum_char(c),
{
    let u = c as u32;
    (48 <= u && u <= 57) || (65 <= u && u <= 90) || (97 <= u && u <= 122)
}

/// Scans the run of digits that starts at `i`.
fn scan_digits(s: &str, i: usize, n: usize) -> (r: usize)
    requires
        n == s@.len(),
        i <= n,
    ensures
        r == digits_end(s@, i as int),
        i <= r <= n,
{
    let mut j: usize = i;
    while j < n && digit_exec(s.get_char(j))
        invariant
            n == s@.len(),
            i <= j <= n,
            digits_end(s@, i as int) == digits_end(s@, j as int),
        decreases n - j,
    {
        j = j + 1;
    }
    j
}

/// Scans the run of letters and digits that starts at `i`.
fn scan_alnum(s: &str, i: usize, n: usize) -> (r: usize)
    requires
        n == s@.len(),
        i <= n,
    ensures
        r == alnum_end(s@, i as int),
        i <= r <= n,
{
    let mut j: usize = i;
    while j < n && alnum_exec(s.get_char(j))
        invariant
            n == s@.len(),
            i <= j <= n,
            alnum_end(s@, i as int) == alnum_end(s@, j as int),
        decreases n - j,
    {
        j = j + 1;
    }
    j
}

/// Scans to the closing brace that ends a subscript, or to the end of input.
fn scan_brace(s: &str, i: usize, n: usize) -> (r: usize)
    requires
        n == s@.len(),
        i <= n,
    ensures
        r == brace_end(s@, i as int),
        i <= r <= n,
{
    let mut j: usize = i;
    while j < n && s.get_char(j) != '}'
        invariant
            n == s@.len(),
            i <= j <= n,
            brace_end(s@, i as int) == brace_end(s@, j as int),
        decreases n - j,
    {
        j = j + 1;
    }
    j
}

/// The longest keyword that starts at `pos`, as a token with its end.
fn keyword_token(s: &str, pos: usize, n: usize) -> (r: Option<(Token, usize)>)
    requires
        n == s@.len(),
        pos < n,
    ensures
        match keyword_at(s@, pos as int) {
            Some((tv, kl)) => r matches Some(tp) && tp.0@ == tv && tp.1 == pos + kl,
            None => r is None,
        },
{
    if n - pos >= 5 && s.get_char(pos) == 'f' && s.get_char(pos + 1) == 'l' && s.get_char(pos + 2)
        == 'o' && s.get_char(pos + 3) == 'o' && s.get_char(pos + 4) == 'r' {
        Some((Token::Function(FuncKind::Floor), pos + 5))
    } else if n - pos >= 4 && s.get_char(pos) == 'c' && s.get_char(pos + 1) == 'e' && s.get_char(
        pos + 2,
    ) == 'i' && s.get_char(pos + 3) == 'l' {
        Some((Token::Function(FuncKind::Ceil), pos + 4))
    } else if n - pos >= 3 && s.get_char(pos) == 'a' && s.get_char(pos + 1) == 'b' && s.get_char(
        pos + 2,
    ) == 's' {
        Some((Token::Function(FuncKind::Abs), pos + 3))
    } else if n - pos >= 3 && s.get_char(pos) == 's' && s.get_char(pos + 1) == 'i' && s.get_char(
        pos + 2,
    ) == 'n' {
        Some((Token::Function(FuncKind::Sin), pos + 3))
    } else if n - pos >= 3 && s.get_char(pos) == 'c' && s.get_char(pos + 1) == 'o' && s.get_char(
        pos + 2,
    ) == 's' {
        Some((Token::Function(FuncKind::Cos), pos + 3))
    } else if n - pos >= 3 && s.get_char(pos) == 't' && s.get_char(pos + 1) == 'a' && s.get_char(
        pos + 2,
    ) == 'n' {
        Some((Token::Function(FuncKind::Tan), pos + 3))
    } else if n - pos >= 2 && s.get_char(pos) == 'p' && s.get_char(pos + 1) == 'i' {
        Some((Token::Pi, pos + 2))
    } else if s.get_char(pos) == 'e' {
        Some((Token::E, pos + 1))
    } else {
        None
    }
}

/// The identifier match that starts at `pos`, with its display name built.
fn ident_token(s: &str, pos: usize, n: usize) -> (r: (Token, usize))
    requires
        n == s@.len(),
        pos < n,
    ensures
        ({
            let (nm, e) = ident_at(s@, pos as int);
            r.0@ == TokView::Variable(nm) && r.1 == e && pos < e <= n
        }),
{
    if n - pos >= 2 && s.get_char(pos + 1) == '_' {
        if n - pos >= 3 && s.get_char(pos + 2) == '{' {
            let j = scan_brace(s, pos + 3, n);
            if j < n {
                let mut nm = s.substring_char(pos, pos + 2).to_owned();
                nm.append(s.substring_char(pos + 3, j));
                proof {
                    assert(s@.subrange(pos as int, pos + 2) =~= seq![s@[pos as int], '_']);
                }
                (Token::Variable(nm), j + 1)
            } else {
                let nm = s.substring_char(pos, pos + 1).to_owned();
                proof {
                    assert(s@.subrange(pos as int, pos + 1) =~= seq![s@[pos as int]]);
                }
                (Token::Variable(nm), pos + 1)
            }
        } else {
            let k = scan_alnum(s, pos + 2, n);
            if k > pos + 2 {
                let nm = s.substring_char(pos, k).to_owned();
                proof {
                    assert(s@.subrange(pos as int, k as int) =~= seq![s@[pos as int], '_']
                        + s@.subrange(pos + 2, k as int));
                }
                (Token::Variable(nm), k)
            } else {
                let nm = s.substring_char(pos, pos + 1).to_owned();
                proof {
                    assert(s@.subrange(pos as int, pos + 1) =~= seq![s@[pos as int]]);
                }
                (Token::Variable(nm), pos + 1)
            }
        }
    } else {
        let nm = s.substring_char(pos, pos + 1).to_owned();
        proof {
            assert(s@.subrange(pos as int, pos + 1) =~= seq![s@[pos as int]]);
        }
        (Token::Variable(nm), pos + 1)
    }
}

/// The token that starts at `pos`, which must not hold whitespace.
fn next_token_at(s: &str, pos: usize, n: usize) -> (r: Result<(Token, usize), ParseFail>)
    requires
        n == s@.len(),
        pos < n,
    ensures
        match next_token(s@, pos as int) {
            Ok((tv, p)) => r matches Ok(tp) && tp.0@ == tv && tp.1 == p && pos < p <= n,
            Err(f) => r matches Err(g) && g == f,
        },
{
    proof {
        lemma_next_token_progress(s@, pos as int);
    }
    let c = s.get_char(pos);
    if c == '+' {
        Ok((Token::Plus, pos + 1))
    } else if c == '-' {
        Ok((Token::Minus, pos + 1))
    } else if c == '*' {
        Ok((Token::Star, pos + 1))
    } else if c == '/' {
        Ok((Token::Slash, pos + 1))
    } else if c == '%' {
        Ok((Token::Percent, pos + 1))
    } else if c == '^' {
        Ok((Token::Caret, pos + 1))
    } else if c == '(' {
        Ok((Token::LParen, pos + 1))
    } else if c == ')' {
        Ok((Token::RParen, pos + 1))
    } else {
        let u = c as u32;
        if 48 <= u && u <= 57 {
            let e1 = scan_digits(s, pos, n);
            if e1 < n && s.get_char(e1) == '.' && n - e1 >= 2 && digit_exec(
                s.get_char(e1 + 1),
            ) {
                let e2 = scan_digits(s, e1 + 1, n);
                let text = s.substring_char(pos, e2).to_owned();
                Ok((Token::Number(text), e2))
            } else {
                let text = s.substring_char(pos, e1).to_owned();
                Ok((Token::Number(text), e1))
            }
        } else if (65 <= u && u <= 90) || (97 <= u && u <= 122) {
            let (vtok, idend) = ident_token(s, pos, n);
            match keyword_token(s, pos, n) {
                Some((kt, kp)) => if kp - pos >= idend - pos {
                    Ok((kt, kp))
                } else {
                    Ok((vtok, idend))
                },
                None => Ok((vtok, idend)),
            }
        } else {
            Err(ParseFail::BadChar(pos))
        }
    }
}

/// Tokenizes the whole input, returning exactly the tokens of [`spec_lex`]
/// or its first lexical error.
pub fn lex(s: &str) -> (r: Result<Vec<Token>, ParseFail>)
    ensures
        match spec_lex(s@, 0) {
            Ok(tvs) => r matches Ok(v) && token_views(v@) == tvs,
            Err(f) => r matches Err(g) && g == f,
        },
{
    let n: usize = s.unicode_len();
    let mut pos: usize = 0;
    let mut acc: Vec<Token> = Vec::new();
    proof {
        assert(token_views(acc@) =~= Seq::<TokView>::empty());
    }
    while pos < n
        invariant
            n == s@.len(),
            pos <= n,
            match spec_lex(s@, pos as int) {
                Ok(rest) => spec_lex(s@, 0) == Ok::<Seq<TokView>, ParseFail>(
                    token_views(acc@) + rest,
                ),
                Err(f) => spec_lex(s@, 0) == Err::<Seq<TokView>, ParseFail>(f),
            },
        decreases n - pos,
    {
        let c = s.get_char(pos);
        if c == ' ' || c == '\t' || c == '\n' || c == '\r' {
            pos = pos + 1;
        } else {
            match next_token_at(s, pos, n) {
                Err(f) => {
                    return Err(f);
                },
                Ok((tk, p)) => {
                    let ghost acc0 = acc@;
                    acc.push(tk);
                    pos = p;
                    proof {
                        assert(token_views(acc@) =~= token_views(acc0).push(tk@));
                        if spec_lex(s@, pos as int) is Ok {
                            let rest = spec_lex(s@, pos as int).unwrap();
                            assert(token_views(acc0) + (seq![tk@] + rest) =~= token_views(acc@)
                                + rest);
                        }
                    }
                },
            }
        }
    }
    proof {
        assert(token_views(acc@) + Seq::<TokView>::empty() =~= token_views(acc@));
    }
    Ok(acc)
}

} // verus!
