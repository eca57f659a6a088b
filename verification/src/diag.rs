//! The error formatter: one diagnostic line per rejected input.
//!
//! [`msg_of`] is the exact text owed for each [`ParseFail`]; [`diagnostic`]
//! builds it.  Every diagnostic is non-empty and names the offending
//! position, written in decimal.

use vstd::prelude::*;
use vstd::string::StringExecFns;

use crate::tokens::ParseFail;

verus! {

/// The decimal digit character for one value below ten.
pub open spec fn digit_char(d: nat) -> char {
    if d == 0 {
        '0'
    } else if d == 1 {
        '1'
    } else if d == 2 {
        '2'
    } else if d == 3 {
        '3'
    } else if d == 4 {
        '4'
    } else if d == 5 {
        '5'
    } else if d == 6 {
        '6'
    } else if d == 7 {
        '7'
    } else if d == 8 {
        '8'
    } else {
        '9'
    }
}

/// The decimal digits of `n`, most significant first.
pub open spec fn dec_digits(n: nat) -> Seq<char>
    decreases n,
{
    if n < 10 {
        seq![digit_char(n)]
    } else {
        dec_digits(n / 10).push(digit_char(n % 10))
    }
}

/// A decimal rendering always has at least one digit.
pub proof fn lemma_dec_digits_nonempty(n: nat)
    ensures
        dec_digits(n).len() >= 1,
    decreases n,
{
    if n >= 10 {
        lemma_dec_digits_nonempty(n / 10);
    }
}

/// The diagnostic text owed for each failure.
pub open spec fn msg_of(f: ParseFail) -> Seq<char> {
    match f {
        ParseFail::BadChar(p) => "unrecognized character at position "@ + dec_digits(p as nat),
        ParseFail::BadToken(i) => "unexpected token at position "@ + dec_digits(i as nat),
        ParseFail::Eof => "unexpected end of input"@,
    }
}

/// Every diagnostic is non-empty text.
pub proof fn lemma_msg_nonempty(f: ParseFail)
    ensures
        msg_of(f).len() > 0,
{
    reveal_strlit("unrecognized character at position ");
    reveal_strlit("unexpected token at position ");
    reveal_strlit("unexpected end of input");
    match f {
        ParseFail::BadChar(p) => lemma_dec_digits_nonempty(p as nat),
        ParseFail::BadToken(i) => lemma_dec_digits_nonempty(i as nat),
        ParseFail::Eof => {},
    }
}

/// One digit as text.
fn digit_str(d: usize) -> (r: &'static str)
    requires
        d < 10,
    ensures
        r@ == seq![digit_char(d as nat)],
{
    let r = if d == 0 {
        proof {
            reveal_strlit("0");
        }
        "0"
    } else if d == 1 {
        proof {
            reveal_strlit("1");
        }
        "1"
    } else if d == 2 {
        proof {
            reveal_strlit("2");
        }
        "2"
    } else if d == 3 {
        proof {
            reveal_strlit("3");
        }
        "3"
    } else if d == 4 {
        proof {
            reveal_strlit("4");
        }
        "4"
    } else if d == 5 {
        proof {
            reveal_strlit("5");
        }
        "5"
    } else if d == 6 {
        proof {
            reveal_strlit("6");
        }
        "6"
    } else if d == 7 {
        proof {
            reveal_strlit("7");
        }
        "7"
    } else if d == 8 {
        proof {
            reveal_strlit("8");
        }
        "8"
    } else {
        proof {
            reveal_strlit("9");
        }
        "9"
    };
    proof {
        assert(r@ =~= seq![digit_char(d as nat)]);
    }
    r
}

/// Renders `n` in decimal.
fn decimal(n: usize) -> (r: String)
    ensures
        r@ == dec_digits(n as nat),
    decreases n,
{
    if n < 10 {
        digit_str(n).to_owned()
    } else {
        let mut s = decimal(n / 10);
        s.append(digit_str(n % 10));
        proof {
            assert(dec_digits((n / 10) as nat) + seq![digit_char((n % 10) as nat)] =~= dec_digits(
                (n / 10) as nat,
            ).push(digit_char((n % 10) as nat)));
        }
        s
    }
}

/// Builds the diagnostic text owed for `f`: exactly [`msg_of`].
pub fn diagnostic(f: &ParseFail) -> (r: String)
    ensures
        r@ == msg_of(*f),
        r@.len() > 0,
{
    proof {
        lemma_msg_nonempty(*f);
    }
    match f {
        ParseFail::BadChar(p) => {
            let mut s = "unrecognized character at position ".to_owned();
            s.append(decimal(*p).as_str());
            s
        },
        ParseFail::BadToken(i) => {
            let mut s = "unexpected token at position ".to_owned();
            s.append(decimal(*i).as_str());
            s
        },
        ParseFail::Eof => "unexpected end of input".to_owned(),
    }
}

} // verus!
