//! Canonical rendering: an AST back to text. Every internal node renders
//! fully parenthesized as `(<left><op><right>)`, unary negation as
//! `(-<right>)`, and a leaf as its literal digits or identifier text, so the
//! result is re-parseable without any precedence-based elision.

use vstd::prelude::*;

use crate::parser::{ExprModel, Expression};
use crate::tokenizer::{Atomic, AtomicModel, Token, TokenModel};

verus! {

/// The decimal digit character for a value 0 through 9.
pub open spec fn digit_char(d: int) -> char {
    if d == 0 {
        '0'
    } else if d == 1 {
        '1'
    } else if d == 2 {
        '2'
    } else if d == 3 {
        '3'
    } else if d == 4 {
        '4'
    } else if d == 5 {
        '5'
    } else if d == 6 {
        '6'
    } else if d == 7 {
        '7'
    } else if d == 8 {
        '8'
    } else {
        '9'
    }
}

/// The decimal digits of a non-negative number, most significant first.
pub open spec fn nat_text(n: int) -> Seq<char>
    decreases n,
{
    if n < 10 {
        seq![digit_char(n)]
    } else {
        nat_text(n / 10) + seq![digit_char(n % 10)]
    }
}

/// The decimal rendering of an integer: a minus sign for a negative value,
/// then its digits.
pub open spec fn int_text(n: int) -> Seq<char> {
    if n < 0 {
        seq!['-'] + nat_text(-n)
    } else {
        nat_text(n)
    }
}

/// The text of an atomic leaf: a literal's digits or an identifier's name.
pub open spec fn spec_atomic_text(a: AtomicModel) -> Seq<char> {
    match a {
        AtomicModel::Integer(n) => int_text(n),
        AtomicModel::Ident(s) => s,
    }
}

/// The one-character text of each non-atomic token.
pub open spec fn spec_token_text(t: TokenModel) -> Seq<char> {
    match t {
        TokenModel::Atomic(a) => spec_atomic_text(a),
        TokenModel::OpenP => seq!['('],
        TokenModel::ClosedP => seq![')'],
        TokenModel::Plus => seq!['+'],
        TokenModel::Dash => seq!['-'],
        TokenModel::Star => seq!['*'],
        TokenModel::Slash => seq!['/'],
        TokenModel::Carot => seq!['^'],
        TokenModel::Eq => seq!['='],
    }
}

/// The canonical, fully parenthesized text of an expression.
pub open spec fn spec_expr_text(e: ExprModel) -> Seq<char>
    decreases e,
{
    match e {
        ExprModel::Add { left, right } => seq!['('] + spec_expr_text(*left) + seq!['+']
            + spec_expr_text(*right) + seq![')'],
        ExprModel::Subtract { left, right } => seq!['('] + spec_expr_text(*left) + seq!['-']
            + spec_expr_text(*right) + seq![')'],
        ExprModel::Negate { right } => seq!['(', '-'] + spec_expr_text(*right) + seq![')'],
        ExprModel::Multiply { left, right } => seq!['('] + spec_expr_text(*left) + seq!['*']
            + spec_expr_text(*right) + seq![')'],
        ExprModel::Divide { left, right } => seq!['('] + spec_expr_text(*left) + seq!['/']
            + spec_expr_text(*right) + seq![')'],
        ExprModel::Modulo { left, right } => seq!['('] + spec_expr_text(*left) + seq!['%']
            + spec_expr_text(*right) + seq![')'],
        ExprModel::Exponent { left, right } => seq!['('] + spec_expr_text(*left) + seq!['^']
            + spec_expr_text(*right) + seq![')'],
        ExprModel::Assign { left, right } => seq!['('] + spec_expr_text(*left) + seq!['=']
            + spec_expr_text(*right) + seq![')'],
        ExprModel::Leaf(a) => spec_atomic_text(a),
    }
}

/// The one-character string for a decimal digit value.
fn digit_str(d: u64) -> (s: &'static str)
    requires
        d < 10,
    ensures
        s@ == seq![digit_char(d as int)],
{
    proof {
        reveal_strlit("0");
        reveal_strlit("1");
        reveal_strlit("2");
        reveal_strlit("3");
        reveal_strlit("4");
        reveal_strlit("5");
        reveal_strlit("6");
        reveal_strlit("7");
        reveal_strlit("8");
        reveal_strlit("9");
    }
    let s = match d {
        0 => "0",
        1 => "1",
        2 => "2",
        3 => "3",
        4 => "4",
        5 => "5",
        6 => "6",
        7 => "7",
        8 => "8",
        _ => "9",
    };
    proof {
        assert(s@ =~= seq![digit_char(d as int)]);
    }
    s
}

/// The decimal digits of `m`, most significant first.
fn nat_to_string(m: u64) -> (s: String)
    ensures
        s@ == nat_text(m as int),
    decreases m,
{
    if m < 10 {
        String::from_str(digit_str(m))
    } else {
        let mut s = nat_to_string(m / 10);
        s.append(digit_str(m % 10));
        proof {
            assert(s@ =~= nat_text(m as int));
        }
        s
    }
}

/// The decimal rendering of `n`, minus sign included when negative.
fn int_to_string(n: i64) -> (s: String)
    ensures
        s@ == int_text(n as int),
{
    if n >= 0 {
        nat_to_string(n as u64)
    } else {
        let m: u64 = ((-(n + 1)) as u64) + 1;
        proof {
            assert(m as int == -(n as int));
        }
        let mut s = String::from_str("-");
        s.append(nat_to_string(m).as_str());
        proof {
            reveal_strlit("-");
            assert(s@ =~= int_text(n as int));
        }
        s
    }
}

impl Atomic {
    /// This leaf's text: a literal's decimal digits or the identifier's
    /// name.
    pub fn to_text(&self) -> (s: String)
        ensures
            s@ == spec_atomic_text(self@),
    {
        match self {
            Atomic::Integer(n) => int_to_string(*n),
            Atomic::Ident(name) => name.clone(),
        }
    }
}

impl Token {
    /// This token's text: its operator or parenthesis character, or its
    /// atomic value's text.
    pub fn to_text(&self) -> (s: String)
        ensures
            s@ == spec_token_text(self@),
    {
        let lit = match self {
            Token::Atomic(a) => {
                return a.to_text();
            },
            Token::OpenP => "(",
            Token::ClosedP => ")",
            Token::Plus => "+",
            Token::Dash => "-",
            Token::Star => "*",
            Token::Slash => "/",
            Token::Carot => "^",
            Token::Eq => "=",
        };
        proof {
            reveal_strlit("(");
            reveal_strlit(")");
            reveal_strlit("+");
            reveal_strlit("-");
            reveal_strlit("*");
            reveal_strlit("/");
            reveal_strlit("^");
            reveal_strlit("=");
            assert(lit@ =~= spec_token_text(self@));
        }
        String::from_str(lit)
    }
}

impl Expression {
    /// This expression's canonical text: every internal node fully
    /// parenthesized, exactly `spec_expr_text` of its model.
    pub fn to_text(&self) -> (s: String)
        ensures
            s@ == spec_expr_text(self@),
        decreases self,
    {
        proof {
            reveal_strlit("(");
            reveal_strlit(")");
            reveal_strlit("(-");
            reveal_strlit("+");
            reveal_strlit("-");
            reveal_strlit("*");
            reveal_strlit("/");
            reveal_strlit("%");
            reveal_strlit("^");
            reveal_strlit("=");
        }
        match self {
            Expression::Add { left, right } => {
                let mut s = String::from_str("(");
                s.append(left.to_text().as_str());
                s.append("+");
                s.append(right.to_text().as_str());
                s.append(")");
                proof {
                    assert(s@ =~= spec_expr_text(self@));
                }
                s
            },
            Expression::Subtract { left, right } => {
                let mut s = String::from_str("(");
                s.append(left.to_text().as_str());
                s.append("-");
                s.append(right.to_text().as_str());
                s.append(")");
                proof {
                    assert(s@ =~= spec_expr_text(self@));
                }
                s
            },
            Expression::Negate { right } => {
                let mut s = String::from_str("(-");
                s.append(right.to_text().as_str());
                s.append(")");
                proof {
                    assert(s@ =~= spec_expr_text(self@));
                }
                s
            },
            Expression::Multiply { left, right } => {
                let mut s = String::from_str("(");
                s.append(left.to_text().as_str());
                s.append("*");
                s.append(right.to_text().as_str());
                s.append(")");
                proof {
                    assert(s@ =~= spec_expr_text(self@));
                }
                s
            },
            Expression::Divide { left, right } => {
                let mut s = String::from_str("(");
                s.append(left.to_text().as_str());
                s.append("/");
                s.append(right.to_text().as_str());
                s.append(")");
                proof {
                    assert(s@ =~= spec_expr_text(self@));
                }
                s
            },
            Expression::Modulo { left, right } => {
                let mut s = String::from_str("(");
                s.append(left.to_text().as_str());
                s.append("%");
                s.append(right.to_text().as_str());
                s.append(")");
                proof {
                    assert(s@ =~= spec_expr_text(self@));
                }
                s
            },
            Expression::Exponent { left, right } => {
                let mut s = String::from_str("(");
                s.append(left.to_text().as_str());
                s.append("^");
                s.append(right.to_text().as_str());
                s.append(")");
                proof {
                    assert(s@ =~= spec_expr_text(self@));
                }
                s
            },
            Expression::Assign { left, right } => {
                let mut s = String::from_str("(");
                s.append(left.to_text().as_str());
                s.append("=");
                s.append(right.to_text().as_str());
                s.append(")");
                proof {
                    assert(s@ =~= spec_expr_text(self@));
                }
                s
            },
            Expression::Leaf(a) => a.to_text(),
        }
    }
}

} // verus!
