//! Recursive-descent parsing with precedence climbing: tokens to an AST.
//!
//! Grammar, lowest precedence first:
//! - expression: `term (('+' | '-') term)*`, left-associative;
//! - term: `factor (('*' | '/') factor)*`, left-associative;
//! - factor: an optional leading `+` (a no-op) or `-` (negation), then an
//!   atomic leaf or a parenthesized expression, either optionally followed
//!   by `^` and another whole factor, which makes `^` right-associative and
//!   binds it tighter than `*` and `/`.
//!
//! Two adjacent operands (implicit multiplication or a call) are reserved
//! and rejected, as is `=` anywhere inside an expression. Running out of
//! tokens mid-production is an unexpected-end error, distinct from finding
//! a token the grammar forbids.

use vstd::prelude::*;

use crate::error::{Error, ErrorModel};
use crate::tokenizer::{
    clone_lexeme, Atomic, AtomicModel, Token, TokenContainer, TokenContainerModel, TokenModel,
};

verus! {

/// An expression tree. Binary and unary nodes own their operands; the tree
/// is finite and acyclic by construction and never mutated once built.
#[derive(Debug, PartialEq)]
pub enum Expression {
    Add { left: Box<Expression>, right: Box<Expression> },
    Subtract { left: Box<Expression>, right: Box<Expression> },
    Negate { right: Box<Expression> },
    Multiply { left: Box<Expression>, right: Box<Expression> },
    Divide { left: Box<Expression>, right: Box<Expression> },
    Modulo { left: Box<Expression>, right: Box<Expression> },
    Exponent { left: Box<Expression>, right: Box<Expression> },
    Assign { left: Box<Expression>, right: Box<Expression> },
    Leaf(Atomic),
}

/// Mathematical image of an `Expression`.
pub enum ExprModel {
    Add { left: Box<ExprModel>, right: Box<ExprModel> },
    Subtract { left: Box<ExprModel>, right: Box<ExprModel> },
    Negate { right: Box<ExprModel> },
    Multiply { left: Box<ExprModel>, right: Box<ExprModel> },
    Divide { left: Box<ExprModel>, right: Box<ExprModel> },
    Modulo { left: Box<ExprModel>, right: Box<ExprModel> },
    Exponent { left: Box<ExprModel>, right: Box<ExprModel> },
    Assign { left: Box<ExprModel>, right: Box<ExprModel> },
    Leaf(AtomicModel),
}

/// The model of an expression tree, node for node.
pub open spec fn expr_view(e: Expression) -> ExprModel
    decreases e,
{
    match e {
        Expression::Add { left, right } => (ExprModel::Add {
            left: Box::new(expr_view(*left)),
            right: Box::new(expr_view(*right)),
        }),
        Expression::Subtract { left, right } => (ExprModel::Subtract {
            left: Box::new(expr_view(*left)),
            right: Box::new(expr_view(*right)),
        }),
        Expression::Negate { right } => (ExprModel::Negate { right: Box::new(expr_view(*right)) }),
        Expression::Multiply { left, right } => (ExprModel::Multiply {
            left: Box::new(expr_view(*left)),
            right: Box::new(expr_view(*right)),
        }),
        Expression::Divide { left, right } => (ExprModel::Divide {
            left: Box::new(expr_view(*left)),
            right: Box::new(expr_view(*right)),
        }),
        Expression::Modulo { left, right } => (ExprModel::Modulo {
            left: Box::new(expr_view(*left)),
            right: Box::new(expr_view(*right)),
        }),
        Expression::Exponent { left, right } => (ExprModel::Exponent {
            left: Box::new(expr_view(*left)),
            right: Box::new(expr_view(*right)),
        }),
        Expression::Assign { left, right } => (ExprModel::Assign {
            left: Box::new(expr_view(*left)),
            right: Box::new(expr_view(*right)),
        }),
        Expression::Leaf(a) => ExprModel::Leaf(a@),
    }
}

impl View for Expression {
    type V = ExprModel;

    open spec fn view(&self) -> ExprModel {
        expr_view(*self)
    }
}

/// `j` raised to at least `lo`, then capped at `hi`. The parser's
/// specification only ever applies it to positions already in range; it
/// keeps the recursion measures well-founded without appeal to anything
/// unproven.
pub open spec fn clampi(lo: int, j: int, hi: int) -> int {
    let k = if j < lo {
        lo
    } else {
        j
    };
    if k > hi {
        hi
    } else {
        k
    }
}

/// The factor rule. On success the result carries the subtree and the index
/// just past the tokens it consumed.
pub open spec fn spec_parse_f(ts: Seq<TokenContainerModel>, i: int) -> Result<
    (ExprModel, int),
    ErrorModel,
>
    decreases ts.len() - i, 0int,
{
    if i < 0 || i >= ts.len() {
        Err(ErrorModel::UnexpectedEnd)
    } else {
        match ts[i].token {
            TokenModel::Atomic(a) => {
                if i + 1 < ts.len() {
                    match ts[i + 1].token {
                        TokenModel::Atomic(_) => Err(
                            ErrorModel::UnsupportedConstruct { found: ts[i + 1] },
                        ),
                        TokenModel::OpenP => Err(
                            ErrorModel::UnsupportedConstruct { found: ts[i + 1] },
                        ),
                        TokenModel::Carot => match spec_parse_f(ts, i + 2) {
                            Ok(r) => Ok(
                                (
                                    ExprModel::Exponent {
                                        left: Box::new(ExprModel::Leaf(a)),
                                        right: Box::new(r.0),
                                    },
                                    r.1,
                                ),
                            ),
                            Err(e) => Err(e),
                        },
                        TokenModel::Eq => Err(ErrorModel::UnexpectedToken { found: ts[i + 1] }),
                        _ => Ok((ExprModel::Leaf(a), i + 1)),
                    }
                } else {
                    Ok((ExprModel::Leaf(a), i + 1))
                }
            },
            TokenModel::OpenP => match spec_parse_e(ts, i + 1) {
                Err(e) => Err(e),
                Ok(r) => {
                    let j = clampi(i + 1, r.1, ts.len() as int);
                    if j < ts.len() && ts[j].token is ClosedP {
                        if j + 1 < ts.len() && ts[j + 1].token is Carot {
                            match spec_parse_f(ts, j + 2) {
                                Ok(r2) => Ok(
                                    (
                                        ExprModel::Exponent {
                                            left: Box::new(r.0),
                                            right: Box::new(r2.0),
                                        },
                                        r2.1,
                                    ),
                                ),
                                Err(e) => Err(e),
                            }
                        } else {
                            Ok((r.0, j + 1))
                        }
                    } else if j >= ts.len() {
                        Err(ErrorModel::UnexpectedEnd)
                    } else {
                        Err(ErrorModel::UnexpectedToken { found: ts[j] })
                    }
                },
            },
            TokenModel::Plus => spec_parse_f(ts, i + 1),
            TokenModel::Dash => match spec_parse_f(ts, i + 1) {
                Ok(r) => Ok((ExprModel::Negate { right: Box::new(r.0) }, r.1)),
                Err(e) => Err(e),
            },
            _ => Err(ErrorModel::UnexpectedToken { found: ts[i] }),
        }
    }
}

/// The term rule's loop: absorb `*` and `/` factors into `left`.
pub open spec fn spec_parse_t_rest(
    ts: Seq<TokenContainerModel>,
    left: ExprModel,
    j: int,
) -> Result<(ExprModel, int), ErrorModel>
    decreases ts.len() - j, 1int,
{
    if j < 0 || j >= ts.len() {
        Ok((left, j))
    } else {
        match ts[j].token {
            TokenModel::Star => match spec_parse_f(ts, j + 1) {
                Err(e) => Err(e),
                Ok(r) => spec_parse_t_rest(
                    ts,
                    ExprModel::Multiply { left: Box::new(left), right: Box::new(r.0) },
                    clampi(j + 2, r.1, ts.len() as int),
                ),
            },
            TokenModel::Slash => match spec_parse_f(ts, j + 1) {
                Err(e) => Err(e),
                Ok(r) => spec_parse_t_rest(
                    ts,
                    ExprModel::Divide { left: Box::new(left), right: Box::new(r.0) },
                    clampi(j + 2, r.1, ts.len() as int),
                ),
            },
            _ => Ok((left, j)),
        }
    }
}

/// The term rule: a factor, then any run of `*` and `/` factors,
/// left-associative.
pub open spec fn spec_parse_t(ts: Seq<TokenContainerModel>, i: int) -> Result<
    (ExprModel, int),
    ErrorModel,
>
    decreases ts.len() - i, 2int,
{
    if i < 0 || i >= ts.len() {
        Err(ErrorModel::UnexpectedEnd)
    } else {
        match spec_parse_f(ts, i) {
            Err(e) => Err(e),
            Ok(r) => spec_parse_t_rest(ts, r.0, clampi(i + 1, r.1, ts.len() as int)),
        }
    }
}

/// The expression rule's loop: absorb `+` and `-` terms into `left`. Any
/// other pending token, `)` included, stops the rule without being consumed.
pub open spec fn spec_parse_e_rest(
    ts: Seq<TokenContainerModel>,
    left: ExprModel,
    j: int,
) -> Result<(ExprModel, int), ErrorModel>
    decreases ts.len() - j, 3int,
{
    if j < 0 || j >= ts.len() {
        Ok((left, j))
    } else {
        match ts[j].token {
            TokenModel::Plus => match spec_parse_t(ts, j + 1) {
                Err(e) => Err(e),
                Ok(r) => spec_parse_e_rest(
                    ts,
                    ExprModel::Add { left: Box::new(left), right: Box::new(r.0) },
                    clampi(j + 2, r.1, ts.len() as int),
                ),
            },
            TokenModel::Dash => match spec_parse_t(ts, j + 1) {
                Err(e) => Err(e),
                Ok(r) => spec_parse_e_rest(
                    ts,
                    ExprModel::Subtract { left: Box::new(left), right: Box::new(r.0) },
                    clampi(j + 2, r.1, ts.len() as int),
                ),
            },
            _ => Ok((left, j)),
        }
    }
}

/// The expression rule: a term, then any run of `+` and `-` terms,
/// left-associative.
pub open spec fn spec_parse_e(ts: Seq<TokenContainerModel>, i: int) -> Result<
    (ExprModel, int),
    ErrorModel,
>
    decreases ts.len() - i, 4int,
{
    if i < 0 || i >= ts.len() {
        Err(ErrorModel::UnexpectedEnd)
    } else {
        match spec_parse_t(ts, i) {
            Err(e) => Err(e),
            Ok(r) => spec_parse_e_rest(ts, r.0, clampi(i + 1, r.1, ts.len() as int)),
        }
    }
}

/// Parsing a whole token sequence: the expression rule from the start.
/// Tokens past the parsed expression are left unread.
pub open spec fn spec_parse(ts: Seq<TokenContainerModel>) -> Result<ExprModel, ErrorModel> {
    match spec_parse_e(ts, 0) {
        Ok(r) => Ok(r.0),
        Err(e) => Err(e),
    }
}

/// A copy of an atomic whose model is the same.
fn clone_atomic(a: &Atomic) -> (r: Atomic)
    ensures
        r@ == a@,
{
    match a {
        Atomic::Integer(i) => Atomic::Integer(*i),
        Atomic::Ident(s) => Atomic::Ident(s.clone()),
    }
}

/// A copy of a token whose model is the same.
fn clone_token(t: &Token) -> (r: Token)
    ensures
        r@ == t@,
{
    match t {
        Token::Atomic(a) => Token::Atomic(clone_atomic(a)),
        Token::OpenP => Token::OpenP,
        Token::ClosedP => Token::ClosedP,
        Token::Plus => Token::Plus,
        Token::Dash => Token::Dash,
        Token::Star => Token::Star,
        Token::Slash => Token::Slash,
        Token::Carot => Token::Carot,
        Token::Eq => Token::Eq,
    }
}

/// A copy of a token container whose model is the same.
fn clone_token_container(tc: &TokenContainer) -> (r: TokenContainer)
    ensures
        r@ == tc@,
{
    TokenContainer { token: clone_token(&tc.token), lexeme: clone_lexeme(&tc.lexeme) }
}

/// The factor rule, executably: returns the parse outcome and the index
/// just past the consumed tokens.
fn parse_f(ts: &Vec<TokenContainer>, i: usize) -> (res: (Result<Expression, Error>, usize))
    requires
        i <= ts@.len(),
    ensures
        match res.0 {
            Ok(e) => spec_parse_f(ts.deep_view(), i as int) == Ok::<(ExprModel, int), ErrorModel>(
                (e@, res.1 as int),
            ) && i < res.1 <= ts@.len(),
            Err(er) => spec_parse_f(ts.deep_view(), i as int) == Err::<
                (ExprModel, int),
                ErrorModel,
            >(er@),
        },
    decreases ts@.len() - i, 0int,
{
    if i >= ts.len() {
        return (Err(Error::UnexpectedEnd), i);
    }
    proof {
        assert(ts.deep_view()[i as int] == ts@[i as int]@);
        if i + 1 < ts@.len() {
            assert(ts.deep_view()[i as int + 1] == ts@[i as int + 1]@);
        }
    }
    match &ts[i].token {
        Token::Atomic(a) => {
            if i + 1 < ts.len() {
                match &ts[i + 1].token {
                    Token::Atomic(_) => (
                        Err(
                            Error::UnsupportedConstruct { found: clone_token_container(&ts[i + 1]) },
                        ),
                        i,
                    ),
                    Token::OpenP => (
                        Err(
                            Error::UnsupportedConstruct { found: clone_token_container(&ts[i + 1]) },
                        ),
                        i,
                    ),
                    Token::Carot => {
                        let leaf = Expression::Leaf(clone_atomic(a));
                        let ghost leafm = leaf@;
                        proof {
                            assert(ts.deep_view()[i as int].token == TokenModel::Atomic(a@));
                            assert(leafm == ExprModel::Leaf(a@));
                        }
                        let (r, j) = parse_f(ts, i + 2);
                        match r {
                            Ok(right) => {
                                let ghost rightm = right@;
                                let result = Expression::Exponent {
                                    left: Box::new(leaf),
                                    right: Box::new(right),
                                };
                                proof {
                                    assert(result@ == (ExprModel::Exponent {
                                        left: Box::new(leafm),
                                        right: Box::new(rightm),
                                    }));
                                    assert(spec_parse_f(ts.deep_view(), i as int) == Ok::<
                                        (ExprModel, int),
                                        ErrorModel,
                                    >((result@, j as int)));
                                }
                                (Ok(result), j)
                            },
                            Err(e) => (Err(e), j),
                        }
                    },
                    Token::Eq => (
                        Err(Error::UnexpectedToken { found: clone_token_container(&ts[i + 1]) }),
                        i,
                    ),
                    _ => (Ok(Expression::Leaf(clone_atomic(a))), i + 1),
                }
            } else {
                (Ok(Expression::Leaf(clone_atomic(a))), i + 1)
            }
        },
        Token::OpenP => {
            let (r, j) = parse_e(ts, i + 1);
            match r {
                Err(e) => (Err(e), j),
                Ok(left) => {
                    proof {
                        if j < ts@.len() {
                            assert(ts.deep_view()[j as int] == ts@[j as int]@);
                        }
                        if j + 1 < ts@.len() {
                            assert(ts.deep_view()[j as int + 1] == ts@[j as int + 1]@);
                        }
                    }
                    if j < ts.len() && matches!(&ts[j].token, Token::ClosedP) {
                        if j + 1 < ts.len() && matches!(&ts[j + 1].token, Token::Carot) {
                            let (r2, k) = parse_f(ts, j + 2);
                            match r2 {
                                Ok(right) => (
                                    Ok(
                                        Expression::Exponent {
                                            left: Box::new(left),
                                            right: Box::new(right),
                                        },
                                    ),
                                    k,
                                ),
                                Err(e) => (Err(e), k),
                            }
                        } else {
                            (Ok(left), j + 1)
                        }
                    } else if j >= ts.len() {
                        (Err(Error::UnexpectedEnd), j)
                    } else {
                        (Err(Error::UnexpectedToken { found: clone_token_container(&ts[j]) }), j)
                    }
                },
            }
        },
        Token::Plus => parse_f(ts, i + 1),
        Token::Dash => {
            let (r, j) = parse_f(ts, i + 1);
            match r {
                Ok(right) => (Ok(Expression::Negate { right: Box::new(right) }), j),
                Err(e) => (Err(e), j),
            }
        },
        _ => (Err(Error::UnexpectedToken { found: clone_token_container(&ts[i]) }), i),
    }
}

/// The term rule's loop, executably.
fn parse_t_rest(ts: &Vec<TokenContainer>, left: Expression, j: usize) -> (res: (
    Result<Expression, Error>,
    usize,
))
    requires
        j <= ts@.len(),
    ensures
        match res.0 {
            Ok(e) => spec_parse_t_rest(ts.deep_view(), left@, j as int) == Ok::<
                (ExprModel, int),
                ErrorModel,
            >((e@, res.1 as int)) && j <= res.1 <= ts@.len(),
            Err(er) => spec_parse_t_rest(ts.deep_view(), left@, j as int) == Err::<
                (ExprModel, int),
                ErrorModel,
            >(er@),
        },
    decreases ts@.len() - j, 1int,
{
    if j >= ts.len() {
        return (Ok(left), j);
    }
    match &ts[j].token {
        Token::Star => {
            let (r, k) = parse_f(ts, j + 1);
            match r {
                Err(e) => (Err(e), k),
                Ok(right) => parse_t_rest(
                    ts,
                    Expression::Multiply { left: Box::new(left), right: Box::new(right) },
                    k,
                ),
            }
        },
        Token::Slash => {
            let (r, k) = parse_f(ts, j + 1);
            match r {
                Err(e) => (Err(e), k),
                Ok(right) => parse_t_rest(
                    ts,
                    Expression::Divide { left: Box::new(left), right: Box::new(right) },
                    k,
                ),
            }
        },
        _ => (Ok(left), j),
    }
}

/// The term rule, executably.
fn parse_t(ts: &Vec<TokenContainer>, i: usize) -> (res: (Result<Expression, Error>, usize))
    requires
        i <= ts@.len(),
    ensures
        match res.0 {
            Ok(e) => spec_parse_t(ts.deep_view(), i as int) == Ok::<(ExprModel, int), ErrorModel>(
                (e@, res.1 as int),
            ) && i < res.1 <= ts@.len(),
            Err(er) => spec_parse_t(ts.deep_view(), i as int) == Err::<
                (ExprModel, int),
                ErrorModel,
            >(er@),
        },
    decreases ts@.len() - i, 2int,
{
    let (r, j) = parse_f(ts, i);
    match r {
        Err(e) => (Err(e), j),
        Ok(left) => parse_t_rest(ts, left, j),
    }
}

/// The expression rule's loop, executably.
fn parse_e_rest(ts: &Vec<TokenContainer>, left: Expression, j: usize) -> (res: (
    Result<Expression, Error>,
    usize,
))
    requires
        j <= ts@.len(),
    ensures
        match res.0 {
            Ok(e) => spec_parse_e_rest(ts.deep_view(), left@, j as int) == Ok::<
                (ExprModel, int),
                ErrorModel,
            >((e@, res.1 as int)) && j <= res.1 <= ts@.len(),
            Err(er) => spec_parse_e_rest(ts.deep_view(), left@, j as int) == Err::<
                (ExprModel, int),
                ErrorModel,
            >(er@),
        },
    decreases ts@.len() - j, 3int,
{
    if j >= ts.len() {
        return (Ok(left), j);
    }
    match &ts[j].token {
        Token::Plus => {
            let (r, k) = parse_t(ts, j + 1);
            match r {
                Err(e) => (Err(e), k),
                Ok(right) => parse_e_rest(
                    ts,
                    Expression::Add { left: Box::new(left), right: Box::new(right) },
                    k,
                ),
            }
        },
        Token::Dash => {
            let (r, k) = parse_t(ts, j + 1);
            match r {
                Err(e) => (Err(e), k),
                Ok(right) => parse_e_rest(
                    ts,
                    Expression::Subtract { left: Box::new(left), right: Box::new(right) },
                    k,
                ),
            }
        },
        _ => (Ok(left), j),
    }
}

/// The expression rule, executably.
fn parse_e(ts: &Vec<TokenContainer>, i: usize) -> (res: (Result<Expression, Error>, usize))
    requires
        i <= ts@.len(),
    ensures
        match res.0 {
            Ok(e) => spec_parse_e(ts.deep_view(), i as int) == Ok::<(ExprModel, int), ErrorModel>(
                (e@, res.1 as int),
            ) && i < res.1 <= ts@.len(),
            Err(er) => spec_parse_e(ts.deep_view(), i as int) == Err::<
                (ExprModel, int),
                ErrorModel,
            >(er@),
        },
    decreases ts@.len() - i, 4int,
{
    let (r, j) = parse_t(ts, i);
    match r {
        Err(e) => (Err(e), j),
        Ok(left) => parse_e_rest(ts, left, j),
    }
}

impl Expression {
    /// Parse a token sequence into an AST: exactly `spec_parse` of the
    /// tokens' models.
    pub fn parse(tokens: Vec<TokenContainer>) -> (r: Result<Expression, Error>)
        ensures
            match r {
                Ok(e) => spec_parse(tokens.deep_view()) == Ok::<ExprModel, ErrorModel>(e@),
                Err(er) => spec_parse(tokens.deep_view()) == Err::<ExprModel, ErrorModel>(er@),
            },
    {
        let (r, _) = parse_e(&tokens, 0);
        match r {
            Ok(e) => Ok(e),
            Err(e) => Err(e),
        }
    }
}

/// Parse a token sequence into an AST.
pub fn parse(tokens: Vec<TokenContainer>) -> (r: Result<Expression, Error>)
    ensures
        match r {
            Ok(e) => spec_parse(tokens.deep_view()) == Ok::<ExprModel, ErrorModel>(e@),
            Err(er) => spec_parse(tokens.deep_view()) == Err::<ExprModel, ErrorModel>(er@),
        },
{
    Expression::parse(tokens)
}

} // verus!
