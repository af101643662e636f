//! Tokenization: positioned lexemes to typed tokens.
//!
//! Each lexeme is classified, in priority order, as an operator or
//! parenthesis, a plain decimal integer literal, a radix-prefixed integer
//! literal (`0x`, `0b`, `0o`, `0d`), or an identifier holding the raw text.
//! The first malformed literal stops the stage with a radix-parse error.

use vstd::prelude::*;

use crate::error::{radix_err, Error, ErrorModel};
use crate::lexer::{Lexeme, LexemeModel};

verus! {

/// A leaf value of the grammar: an integer literal or an identifier.
#[derive(Debug, PartialEq, Clone)]
pub enum Atomic {
    Integer(i64),
    Ident(String),
}

/// Mathematical image of an `Atomic`.
pub enum AtomicModel {
    Integer(int),
    Ident(Seq<char>),
}

impl View for Atomic {
    type V = AtomicModel;

    open spec fn view(&self) -> AtomicModel {
        match self {
            Atomic::Integer(i) => AtomicModel::Integer(*i as int),
            Atomic::Ident(s) => AtomicModel::Ident(s@),
        }
    }
}

/// A typed token: an atomic value, a parenthesis, or one operator.
#[derive(PartialEq, Debug)]
pub enum Token {
    Atomic(Atomic),
    OpenP,
    ClosedP,
    Plus,
    Dash,
    Star,
    Slash,
    Carot,
    Eq,
}

/// Mathematical image of a `Token`.
pub enum TokenModel {
    Atomic(AtomicModel),
    OpenP,
    ClosedP,
    Plus,
    Dash,
    Star,
    Slash,
    Carot,
    Eq,
}

impl View for Token {
    type V = TokenModel;

    open spec fn view(&self) -> TokenModel {
        match self {
            Token::Atomic(a) => TokenModel::Atomic(a@),
            Token::OpenP => TokenModel::OpenP,
            Token::ClosedP => TokenModel::ClosedP,
            Token::Plus => TokenModel::Plus,
            Token::Dash => TokenModel::Dash,
            Token::Star => TokenModel::Star,
            Token::Slash => TokenModel::Slash,
            Token::Carot => TokenModel::Carot,
            Token::Eq => TokenModel::Eq,
        }
    }
}

/// A token together with the lexeme it came from, so that later error
/// messages can cite the source span.
#[derive(PartialEq, Debug)]
pub struct TokenContainer {
    pub token: Token,
    pub lexeme: Lexeme,
}

/// Mathematical image of a `TokenContainer`.
pub struct TokenContainerModel {
    pub token: TokenModel,
    pub lexeme: LexemeModel,
}

impl View for TokenContainer {
    type V = TokenContainerModel;

    open spec fn view(&self) -> TokenContainerModel {
        TokenContainerModel { token: self.token@, lexeme: self.lexeme@ }
    }
}

impl DeepView for TokenContainer {
    type V = TokenContainerModel;

    open spec fn deep_view(&self) -> TokenContainerModel {
        self@
    }
}

/// The token, if any, that a one-character operator or parenthesis lexeme
/// denotes. `%` scans as a lexeme of its own but is no token: it falls
/// through to the identifier rule.
pub open spec fn spec_op_token(c: char) -> Option<TokenModel> {
    if c == '+' {
        Some(TokenModel::Plus)
    } else if c == '-' {
        Some(TokenModel::Dash)
    } else if c == '*' {
        Some(TokenModel::Star)
    } else if c == '/' {
        Some(TokenModel::Slash)
    } else if c == '^' {
        Some(TokenModel::Carot)
    } else if c == '=' {
        Some(TokenModel::Eq)
    } else if c == '(' {
        Some(TokenModel::OpenP)
    } else if c == ')' {
        Some(TokenModel::ClosedP)
    } else {
        None
    }
}

/// The value of `c` as a digit under `radix`, if it is one. Decimal digits
/// carry their value; letters carry 10 and up, in either case.
pub open spec fn digit_of(c: char, radix: int) -> Option<int> {
    let u = c as int;
    let v = if 48 <= u && u <= 57 {
        u - 48
    } else if 97 <= u && u <= 122 {
        u - 87
    } else if 65 <= u && u <= 90 {
        u - 55
    } else {
        -1
    };
    if 0 <= v && v < radix {
        Some(v)
    } else {
        None
    }
}

/// Every character of `s` is a digit under `radix`.
pub open spec fn valid_digits(s: Seq<char>, radix: int) -> bool {
    forall|k: int| 0 <= k < s.len() ==> (#[trigger] digit_of(s[k], radix)) is Some
}

/// The number that the digit string `s` denotes under `radix`.
pub open spec fn radix_val(s: Seq<char>, radix: int) -> int
    decreases s.len(),
{
    if s.len() == 0 {
        0
    } else {
        radix_val(s.drop_last(), radix) * radix + digit_of(s.last(), radix).unwrap()
    }
}

/// The text starts with one of the four radix prefixes.
pub open spec fn has_radix_prefix(t: Seq<char>) -> bool {
    t.len() >= 2 && t[0] == '0' && (t[1] == 'x' || t[1] == 'b' || t[1] == 'o' || t[1] == 'd')
}

/// The radix that a prefix letter selects.
pub open spec fn radix_of_prefix(c: char) -> int {
    if c == 'x' {
        16
    } else if c == 'b' {
        2
    } else if c == 'o' {
        8
    } else {
        10
    }
}

/// Classification of one lexeme, in priority order: operator or parenthesis,
/// plain decimal literal, radix-prefixed literal, identifier. A literal out
/// of the signed 64-bit range, an empty digit string after a prefix, and an
/// invalid digit are all radix-parse errors.
pub open spec fn spec_token_of(lx: LexemeModel) -> Result<TokenModel, ErrorModel> {
    let t = lx.text;
    if t.len() == 1 && spec_op_token(t[0]) is Some {
        Ok(spec_op_token(t[0]).unwrap())
    } else if t.len() > 0 && valid_digits(t, 10) {
        if radix_val(t, 10) <= i64::MAX {
            Ok(TokenModel::Atomic(AtomicModel::Integer(radix_val(t, 10))))
        } else {
            Err(radix_err(10, lx))
        }
    } else if has_radix_prefix(t) {
        let radix = radix_of_prefix(t[1]);
        let digits = t.subrange(2, t.len() as int);
        if digits.len() > 0 && valid_digits(digits, radix) && radix_val(digits, radix)
            <= i64::MAX {
            Ok(TokenModel::Atomic(AtomicModel::Integer(radix_val(digits, radix))))
        } else {
            Err(radix_err(radix, lx))
        }
    } else {
        Ok(TokenModel::Atomic(AtomicModel::Ident(t)))
    }
}

/// Tokenization of the lexemes from index `i` on: the tokens in order, each
/// wrapped with its lexeme, or the first classification error.
pub open spec fn spec_tokenize_from(ls: Seq<LexemeModel>, i: int) -> Result<
    Seq<TokenContainerModel>,
    ErrorModel,
>
    decreases ls.len() - i,
{
    if i < 0 || i >= ls.len() {
        Ok(Seq::empty())
    } else {
        match spec_token_of(ls[i]) {
            Err(e) => Err(e),
            Ok(tk) => match spec_tokenize_from(ls, i + 1) {
                Err(e) => Err(e),
                Ok(rest) => Ok(
                    seq![TokenContainerModel { token: tk, lexeme: ls[i] }] + rest,
                ),
            },
        }
    }
}

/// Tokenization of a whole lexeme sequence.
pub open spec fn spec_tokenize(ls: Seq<LexemeModel>) -> Result<
    Seq<TokenContainerModel>,
    ErrorModel,
> {
    spec_tokenize_from(ls, 0)
}

/// The digit value of `c` under `radix`, matching `digit_of`.
fn digit_of_exec(c: char, radix: u32) -> (r: Option<u32>)
    ensures
        match r {
            Some(v) => digit_of(c, radix as int) == Some(v as int),
            None => digit_of(c, radix as int) is None,
        },
{
    let u = c as u32;
    let v: u32 = if 48 <= u && u <= 57 {
        u - 48
    } else if 97 <= u && u <= 122 {
        u - 87
    } else if 65 <= u && u <= 90 {
        u - 55
    } else {
        return None;
    };
    if v < radix {
        Some(v)
    } else {
        None
    }
}

/// Whether every character of `s` from index `from` on is a digit under
/// `radix`.
fn all_digits(s: &str, from: usize, radix: u32) -> (r: bool)
    requires
        from <= s@.len(),
    ensures
        r == valid_digits(s@.subrange(from as int, s@.len() as int), radix as int),
{
    let ghost digits = s@.subrange(from as int, s@.len() as int);
    let n = s.unicode_len();
    let mut k = from;
    while k < n
        invariant
            from <= k <= n == s@.len(),
            digits == s@.subrange(from as int, s@.len() as int),
            forall|j: int|
                0 <= j < k - from ==> (#[trigger] digit_of(digits[j], radix as int)) is Some,
        decreases n - k,
    {
        let c = s.get_char(k);
        if digit_of_exec(c, radix).is_none() {
            proof {
                assert(digits[k - from] == s@[k as int]);
            }
            return false;
        }
        k = k + 1;
    }
    true
}

/// `radix_val` of a valid digit string is never negative.
proof fn lemma_radix_val_nonneg(s: Seq<char>, radix: int)
    requires
        2 <= radix,
        valid_digits(s, radix),
    ensures
        0 <= radix_val(s, radix),
    decreases s.len(),
{
    if s.len() > 0 {
        let p = s.drop_last();
        assert(valid_digits(p, radix)) by {
            assert forall|k: int| 0 <= k < p.len() implies (#[trigger] digit_of(
                p[k],
                radix,
            )) is Some by {
                assert(p[k] == s[k]);
            }
        }
        lemma_radix_val_nonneg(p, radix);
        assert(digit_of(s.last(), radix) is Some);
        assert(0 <= radix_val(p, radix) * radix) by (nonlinear_arith)
            requires
                0 <= radix_val(p, radix),
                2 <= radix,
        ;
    }
}

/// `radix_val` of every prefix of a valid digit string is bounded by the
/// value of the whole string: appending digits never shrinks the value.
proof fn lemma_radix_val_grows(s: Seq<char>, radix: int, j: int)
    requires
        2 <= radix,
        valid_digits(s, radix),
        0 <= j <= s.len(),
    ensures
        0 <= radix_val(s.take(j), radix) <= radix_val(s, radix),
    decreases s.len() - j,
{
    if j == s.len() {
        assert(s.take(j) =~= s);
        lemma_radix_val_nonneg(s, radix);
    } else {
        lemma_radix_val_grows(s, radix, j + 1);
        let p = s.take(j + 1);
        assert(p.drop_last() =~= s.take(j));
        assert(p.last() == s[j]);
        let a = radix_val(s.take(j), radix);
        let d = digit_of(s[j], radix).unwrap();
        assert(radix_val(p, radix) == a * radix + d);
        assert(digit_of(s[j], radix) is Some);
        assert(valid_digits(s.take(j), radix)) by {
            assert forall|k: int| 0 <= k < j implies (#[trigger] digit_of(
                s.take(j)[k],
                radix,
            )) is Some by {
                assert(s.take(j)[k] == s[k]);
            }
        }
        lemma_radix_val_nonneg(s.take(j), radix);
        assert(a <= a * radix) by (nonlinear_arith)
            requires
                0 <= a,
                2 <= radix,
        ;
    }
}

/// Parse the digits of `s` from index `from` on under `radix`. `None` when
/// the digit string is empty, holds an invalid digit, or denotes a value
/// above `i64::MAX`.
fn parse_digits(s: &str, from: usize, radix: u32) -> (r: Option<i64>)
    requires
        from <= s@.len(),
        2 <= radix <= 16,
    ensures
        ({
            let digits = s@.subrange(from as int, s@.len() as int);
            match r {
                Some(v) => digits.len() > 0 && valid_digits(digits, radix as int) && radix_val(
                    digits,
                    radix as int,
                ) == v as int,
                None => !(digits.len() > 0 && valid_digits(digits, radix as int) && radix_val(
                    digits,
                    radix as int,
                ) <= i64::MAX),
            }
        }),
{
    let ghost digits = s@.subrange(from as int, s@.len() as int);
    let n = s.unicode_len();
    if from >= n {
        return None;
    }
    if !all_digits(s, from, radix) {
        return None;
    }
    let mut acc: i64 = 0;
    let mut k = from;
    while k < n
        invariant
            from <= k <= n == s@.len(),
            2 <= radix <= 16,
            digits == s@.subrange(from as int, s@.len() as int),
            valid_digits(digits, radix as int),
            acc as int == radix_val(digits.take(k - from), radix as int),
            0 <= acc,
        decreases n - k,
    {
        let c = s.get_char(k);
        proof {
            assert(digits[k - from] == s@[k as int]);
            assert(digit_of(s@[k as int], radix as int) is Some);
        }
        let d = digit_of_exec(c, radix).unwrap();
        let ghost pre = digits.take(k - from);
        let ghost post = digits.take(k + 1 - from);
        proof {
            assert(post.drop_last() =~= pre);
            assert(post.last() == digits[k - from]);
            assert(radix_val(post, radix as int) == radix_val(pre, radix as int) * radix + d);
            assert(radix_val(pre, radix as int) * radix + d >= radix_val(pre, radix as int))
                by (nonlinear_arith)
                requires
                    0 <= radix_val(pre, radix as int),
                    2 <= radix,
                    0 <= d,
            ;
        }
        let step = match acc.checked_mul(radix as i64) {
            Some(x) => x,
            None => {
                proof {
                    overflow_case(digits, radix as int, k - from);
                }
                return None;
            },
        };
        acc = match step.checked_add(d as i64) {
            Some(x) => x,
            None => {
                proof {
                    overflow_case(digits, radix as int, k - from);
                }
                return None;
            },
        };
        k = k + 1;
    }
    proof {
        assert(digits.take(n - from) =~= digits);
    }
    Some(acc)
}

/// When the running value exceeds `i64::MAX` at digit `j`, the whole digit
/// string does too.
proof fn overflow_case(digits: Seq<char>, radix: int, j: int)
    requires
        2 <= radix,
        valid_digits(digits, radix),
        0 <= j < digits.len(),
        radix_val(digits.take(j), radix) * radix + digit_of(digits[j], radix).unwrap()
            > i64::MAX,
    ensures
        radix_val(digits, radix) > i64::MAX,
{
    let post = digits.take(j + 1);
    assert(post.drop_last() =~= digits.take(j));
    assert(post.last() == digits[j]);
    lemma_radix_val_grows(digits, radix, j + 1);
}

impl TokenContainer {
    /// Classify one lexeme into its token, wrapped with the lexeme itself.
    fn new(lexeme: Lexeme) -> (r: Result<TokenContainer, Error>)
        ensures
            match r {
                Ok(tc) => spec_token_of(lexeme@) == Ok::<TokenModel, ErrorModel>(tc@.token)
                    && tc@.lexeme == lexeme@,
                Err(e) => spec_token_of(lexeme@) == Err::<TokenModel, ErrorModel>(e@),
            },
    {
        let n = lexeme.inner.as_str().unicode_len();
        if n == 1 {
            let c = lexeme.inner.as_str().get_char(0);
            let op = match c {
                '+' => Some(Token::Plus),
                '-' => Some(Token::Dash),
                '*' => Some(Token::Star),
                '/' => Some(Token::Slash),
                '^' => Some(Token::Carot),
                '=' => Some(Token::Eq),
                '(' => Some(Token::OpenP),
                ')' => Some(Token::ClosedP),
                _ => None,
            };
            if let Some(token) = op {
                return Ok(TokenContainer { token, lexeme });
            }
        }
        if n > 0 && all_digits(lexeme.inner.as_str(), 0, 10) {
            proof {
                assert(lexeme.inner@.subrange(0, lexeme.inner@.len() as int) =~= lexeme.inner@);
            }
            match parse_digits(lexeme.inner.as_str(), 0, 10) {
                Some(v) => {
                    return Ok(
                        TokenContainer { token: Token::Atomic(Atomic::Integer(v)), lexeme },
                    );
                },
                None => {
                    proof {
                        lemma_radix_val_nonneg(lexeme.inner@, 10);
                    }
                    let text = lexeme.inner.clone();
                    let line = lexeme.line;
                    let column = lexeme.column;
                    return Err(Error::RadixParse { radix: 10, text, line, column });
                },
            }
        }
        if n >= 2 {
            let c0 = lexeme.inner.as_str().get_char(0);
            let c1 = lexeme.inner.as_str().get_char(1);
            if c0 == '0' && (c1 == 'x' || c1 == 'b' || c1 == 'o' || c1 == 'd') {
                let radix: u32 = if c1 == 'x' {
                    16
                } else if c1 == 'b' {
                    2
                } else if c1 == 'o' {
                    8
                } else {
                    10
                };
                match parse_digits(lexeme.inner.as_str(), 2, radix) {
                    Some(v) => {
                        return Ok(
                            TokenContainer { token: Token::Atomic(Atomic::Integer(v)), lexeme },
                        );
                    },
                    None => {
                        let text = lexeme.inner.clone();
                        let line = lexeme.line;
                        let column = lexeme.column;
                        return Err(Error::RadixParse { radix, text, line, column });
                    },
                }
            }
        }
        let text = lexeme.inner.clone();
        Ok(TokenContainer { token: Token::Atomic(Atomic::Ident(text)), lexeme })
    }
}

/// Tokenize a lexeme sequence, failing fast on the first malformed literal.
pub fn tokenize(lexemes: Vec<Lexeme>) -> (r: Result<Vec<TokenContainer>, Error>)
    ensures
        match r {
            Ok(ts) => spec_tokenize(lexemes.deep_view()) == Ok::<
                Seq<TokenContainerModel>,
                ErrorModel,
            >(ts.deep_view()),
            Err(e) => spec_tokenize(lexemes.deep_view()) == Err::<
                Seq<TokenContainerModel>,
                ErrorModel,
            >(e@),
        },
{
    let ghost ls = lexemes.deep_view();
    let mut out: Vec<TokenContainer> = Vec::new();
    let mut i: usize = 0;
    proof {
        assert(ls.len() == lexemes.len());
    }
    while i < lexemes.len()
        invariant
            i <= lexemes.len(),
            ls == lexemes.deep_view(),
            ls.len() == lexemes.len(),
            out.deep_view().len() == i,
            spec_tokenize_from(ls, 0) == match spec_tokenize_from(ls, i as int) {
                Ok(rest) => Ok::<Seq<TokenContainerModel>, ErrorModel>(out.deep_view() + rest),
                Err(e) => Err::<Seq<TokenContainerModel>, ErrorModel>(e),
            },
        decreases lexemes.len() - i,
    {
        let lx = clone_lexeme(&lexemes[i]);
        proof {
            assert(lx@ == ls[i as int]);
        }
        match TokenContainer::new(lx) {
            Ok(tc) => {
                let ghost old_out = out.deep_view();
                out.push(tc);
                proof {
                    let tcm = TokenContainerModel { token: tc@.token, lexeme: ls[i as int] };
                    assert(tc@ == tcm);
                    assert(out.deep_view() =~= old_out + seq![tcm]);
                    assert forall|rest: Seq<TokenContainerModel>|
                        old_out + (seq![tcm] + rest) =~= (old_out + seq![tcm]) + rest by {};
                }
            },
            Err(e) => {
                return Err(e);
            },
        }
        i = i + 1;
    }
    proof {
        assert(out.deep_view() + Seq::<TokenContainerModel>::empty() =~= out.deep_view());
    }
    Ok(out)
}

/// A copy of a lexeme whose model is the same.
pub(crate) fn clone_lexeme(l: &Lexeme) -> (r: Lexeme)
    ensures
        r@ == l@,
{
    Lexeme { inner: l.inner.clone(), line: l.line, column: l.column }
}

} // verus!
