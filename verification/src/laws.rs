//! The library's laws, stated over arbitrary values and proved against the
//! stage specifications: the scanner's output ordering, associativity of
//! each operator family, the precedence of exponentiation, grouping, unary
//! chains, the negative-exponent policy, and the rejection of malformed
//! radix literals.

use vstd::prelude::*;

use crate::error::ErrorModel;
use crate::eval::{lemma_one_div_pow, pow_int, spec_eval, trunc_div};
use crate::lexer::{
    scan_flush, scan_init, scan_run, scan_step, spec_lexize, LexemeModel, ScanState,
};
use crate::parser::{
    spec_parse, spec_parse_e, spec_parse_e_rest, spec_parse_f, spec_parse_t, spec_parse_t_rest,
    ExprModel,
};
use crate::tokenizer::{
    digit_of, has_radix_prefix, radix_of_prefix, spec_token_of, valid_digits, AtomicModel,
    TokenContainerModel, TokenModel,
};

verus! {

/// `^` is right-associative: `a ^ b ^ c` parses as `a ^ (b ^ c)`.
pub proof fn lemma_caret_right_associative(
    ts: Seq<TokenContainerModel>,
    a: AtomicModel,
    b: AtomicModel,
    c: AtomicModel,
)
    requires
        ts.len() == 5,
        ts[0].token == TokenModel::Atomic(a),
        ts[1].token == TokenModel::Carot,
        ts[2].token == TokenModel::Atomic(b),
        ts[3].token == TokenModel::Carot,
        ts[4].token == TokenModel::Atomic(c),
    ensures
        spec_parse(ts) == Ok::<ExprModel, ErrorModel>(
            ExprModel::Exponent {
                left: Box::new(ExprModel::Leaf(a)),
                right: Box::new(
                    ExprModel::Exponent {
                        left: Box::new(ExprModel::Leaf(b)),
                        right: Box::new(ExprModel::Leaf(c)),
                    },
                ),
            },
        ),
{
    let ebc = ExprModel::Exponent {
        left: Box::new(ExprModel::Leaf(b)),
        right: Box::new(ExprModel::Leaf(c)),
    };
    let eabc = ExprModel::Exponent { left: Box::new(ExprModel::Leaf(a)), right: Box::new(ebc) };
    assert(spec_parse_f(ts, 4) == Ok::<(ExprModel, int), ErrorModel>((ExprModel::Leaf(c), 5)));
    assert(spec_parse_f(ts, 2) == Ok::<(ExprModel, int), ErrorModel>((ebc, 5)));
    assert(spec_parse_f(ts, 0) == Ok::<(ExprModel, int), ErrorModel>((eabc, 5)));
    assert(spec_parse_t_rest(ts, eabc, 5) == Ok::<(ExprModel, int), ErrorModel>((eabc, 5)));
    assert(spec_parse_t(ts, 0) == Ok::<(ExprModel, int), ErrorModel>((eabc, 5)));
    assert(spec_parse_e_rest(ts, eabc, 5) == Ok::<(ExprModel, int), ErrorModel>((eabc, 5)));
    assert(spec_parse_e(ts, 0) == Ok::<(ExprModel, int), ErrorModel>((eabc, 5)));
}

/// `^` binds tighter than `*` on its left: `a ^ b * c` parses as
/// `(a ^ b) * c`.
pub proof fn lemma_caret_before_star(
    ts: Seq<TokenContainerModel>,
    a: AtomicModel,
    b: AtomicModel,
    c: AtomicModel,
)
    requires
        ts.len() == 5,
        ts[0].token == TokenModel::Atomic(a),
        ts[1].token == TokenModel::Carot,
        ts[2].token == TokenModel::Atomic(b),
        ts[3].token == TokenModel::Star,
        ts[4].token == TokenModel::Atomic(c),
    ensures
        spec_parse(ts) == Ok::<ExprModel, ErrorModel>(
            ExprModel::Multiply {
                left: Box::new(
                    ExprModel::Exponent {
                        left: Box::new(ExprModel::Leaf(a)),
                        right: Box::new(ExprModel::Leaf(b)),
                    },
                ),
                right: Box::new(ExprModel::Leaf(c)),
            },
        ),
{
    let eab = ExprModel::Exponent {
        left: Box::new(ExprModel::Leaf(a)),
        right: Box::new(ExprModel::Leaf(b)),
    };
    let m = ExprModel::Multiply { left: Box::new(eab), right: Box::new(ExprModel::Leaf(c)) };
    assert(spec_parse_f(ts, 2) == Ok::<(ExprModel, int), ErrorModel>((ExprModel::Leaf(b), 3)));
    assert(spec_parse_f(ts, 0) == Ok::<(ExprModel, int), ErrorModel>((eab, 3)));
    assert(spec_parse_f(ts, 4) == Ok::<(ExprModel, int), ErrorModel>((ExprModel::Leaf(c), 5)));
    assert(spec_parse_t_rest(ts, m, 5) == Ok::<(ExprModel, int), ErrorModel>((m, 5)));
    assert(spec_parse_t_rest(ts, eab, 3) == Ok::<(ExprModel, int), ErrorModel>((m, 5)));
    assert(spec_parse_t(ts, 0) == Ok::<(ExprModel, int), ErrorModel>((m, 5)));
    assert(spec_parse_e_rest(ts, m, 5) == Ok::<(ExprModel, int), ErrorModel>((m, 5)));
    assert(spec_parse_e(ts, 0) == Ok::<(ExprModel, int), ErrorModel>((m, 5)));
}

/// `^` binds tighter than `*` on its right: `a * b ^ c` parses as
/// `a * (b ^ c)`.
pub proof fn lemma_star_before_caret(
    ts: Seq<TokenContainerModel>,
    a: AtomicModel,
    b: AtomicModel,
    c: AtomicModel,
)
    requires
        ts.len() == 5,
        ts[0].token == TokenModel::Atomic(a),
        ts[1].token == TokenModel::Star,
        ts[2].token == TokenModel::Atomic(b),
        ts[3].token == TokenModel::Carot,
        ts[4].token == TokenModel::Atomic(c),
    ensures
        spec_parse(ts) == Ok::<ExprModel, ErrorModel>(
            ExprModel::Multiply {
                left: Box::new(ExprModel::Leaf(a)),
                right: Box::new(
                    ExprModel::Exponent {
                        left: Box::new(ExprModel::Leaf(b)),
                        right: Box::new(ExprModel::Leaf(c)),
                    },
                ),
            },
        ),
{
    let ebc = ExprModel::Exponent {
        left: Box::new(ExprModel::Leaf(b)),
        right: Box::new(ExprModel::Leaf(c)),
    };
    let m = ExprModel::Multiply { left: Box::new(ExprModel::Leaf(a)), right: Box::new(ebc) };
    assert(spec_parse_f(ts, 0) == Ok::<(ExprModel, int), ErrorModel>((ExprModel::Leaf(a), 1)));
    assert(spec_parse_f(ts, 4) == Ok::<(ExprModel, int), ErrorModel>((ExprModel::Leaf(c), 5)));
    assert(spec_parse_f(ts, 2) == Ok::<(ExprModel, int), ErrorModel>((ebc, 5)));
    assert(spec_parse_t_rest(ts, m, 5) == Ok::<(ExprModel, int), ErrorModel>((m, 5)));
    assert(spec_parse_t_rest(ts, ExprModel::Leaf(a), 1) == Ok::<(ExprModel, int), ErrorModel>(
        (m, 5),
    ));
    assert(spec_parse_t(ts, 0) == Ok::<(ExprModel, int), ErrorModel>((m, 5)));
    assert(spec_parse_e_rest(ts, m, 5) == Ok::<(ExprModel, int), ErrorModel>((m, 5)));
    assert(spec_parse_e(ts, 0) == Ok::<(ExprModel, int), ErrorModel>((m, 5)));
}

/// Parentheses override precedence: `( a + b ) * c` parses as
/// `(a + b) * c`, the sum built first.
pub proof fn lemma_grouping_overrides_precedence(
    ts: Seq<TokenContainerModel>,
    a: AtomicModel,
    b: AtomicModel,
    c: AtomicModel,
)
    requires
        ts.len() == 7,
        ts[0].token == TokenModel::OpenP,
        ts[1].token == TokenModel::Atomic(a),
        ts[2].token == TokenModel::Plus,
        ts[3].token == TokenModel::Atomic(b),
        ts[4].token == TokenModel::ClosedP,
        ts[5].token == TokenModel::Star,
        ts[6].token == TokenModel::Atomic(c),
    ensures
        spec_parse(ts) == Ok::<ExprModel, ErrorModel>(
            ExprModel::Multiply {
                left: Box::new(
                    ExprModel::Add {
                        left: Box::new(ExprModel::Leaf(a)),
                        right: Box::new(ExprModel::Leaf(b)),
                    },
                ),
                right: Box::new(ExprModel::Leaf(c)),
            },
        ),
{
    let sum = ExprModel::Add { left: Box::new(ExprModel::Leaf(a)), right: Box::new(
        ExprModel::Leaf(b),
    ) };
    let m = ExprModel::Multiply { left: Box::new(sum), right: Box::new(ExprModel::Leaf(c)) };
    assert(spec_parse_f(ts, 1) == Ok::<(ExprModel, int), ErrorModel>((ExprModel::Leaf(a), 2)));
    assert(spec_parse_t_rest(ts, ExprModel::Leaf(a), 2) == Ok::<(ExprModel, int), ErrorModel>(
        (ExprModel::Leaf(a), 2),
    ));
    assert(spec_parse_t(ts, 1) == Ok::<(ExprModel, int), ErrorModel>((ExprModel::Leaf(a), 2)));
    assert(spec_parse_f(ts, 3) == Ok::<(ExprModel, int), ErrorModel>((ExprModel::Leaf(b), 4)));
    assert(spec_parse_t_rest(ts, ExprModel::Leaf(b), 4) == Ok::<(ExprModel, int), ErrorModel>(
        (ExprModel::Leaf(b), 4),
    ));
    assert(spec_parse_t(ts, 3) == Ok::<(ExprModel, int), ErrorModel>((ExprModel::Leaf(b), 4)));
    assert(spec_parse_e_rest(ts, sum, 4) == Ok::<(ExprModel, int), ErrorModel>((sum, 4)));
    assert(spec_parse_e_rest(ts, ExprModel::Leaf(a), 2) == Ok::<(ExprModel, int), ErrorModel>(
        (sum, 4),
    ));
    assert(spec_parse_e(ts, 1) == Ok::<(ExprModel, int), ErrorModel>((sum, 4)));
    assert(spec_parse_f(ts, 0) == Ok::<(ExprModel, int), ErrorModel>((sum, 5)));
    assert(spec_parse_f(ts, 6) == Ok::<(ExprModel, int), ErrorModel>((ExprModel::Leaf(c), 7)));
    assert(spec_parse_t_rest(ts, m, 7) == Ok::<(ExprModel, int), ErrorModel>((m, 7)));
    assert(spec_parse_t_rest(ts, sum, 5) == Ok::<(ExprModel, int), ErrorModel>((m, 7)));
    assert(spec_parse_t(ts, 0) == Ok::<(ExprModel, int), ErrorModel>((m, 7)));
    assert(spec_parse_e_rest(ts, m, 7) == Ok::<(ExprModel, int), ErrorModel>((m, 7)));
    assert(spec_parse_e(ts, 0) == Ok::<(ExprModel, int), ErrorModel>((m, 7)));
}

/// A chain of leading minus signs nests negations: `- - a` parses as the
/// double negation of the leaf.
pub proof fn lemma_unary_chain(ts: Seq<TokenContainerModel>, a: AtomicModel)
    requires
        ts.len() == 3,
        ts[0].token == TokenModel::Dash,
        ts[1].token == TokenModel::Dash,
        ts[2].token == TokenModel::Atomic(a),
    ensures
        spec_parse(ts) == Ok::<ExprModel, ErrorModel>(
            ExprModel::Negate {
                right: Box::new(ExprModel::Negate { right: Box::new(ExprModel::Leaf(a)) }),
            },
        ),
{
    let n1 = ExprModel::Negate { right: Box::new(ExprModel::Leaf(a)) };
    let n2 = ExprModel::Negate { right: Box::new(n1) };
    assert(spec_parse_f(ts, 2) == Ok::<(ExprModel, int), ErrorModel>((ExprModel::Leaf(a), 3)));
    assert(spec_parse_f(ts, 1) == Ok::<(ExprModel, int), ErrorModel>((n1, 3)));
    assert(spec_parse_f(ts, 0) == Ok::<(ExprModel, int), ErrorModel>((n2, 3)));
    assert(spec_parse_t_rest(ts, n2, 3) == Ok::<(ExprModel, int), ErrorModel>((n2, 3)));
    assert(spec_parse_t(ts, 0) == Ok::<(ExprModel, int), ErrorModel>((n2, 3)));
    assert(spec_parse_e_rest(ts, n2, 3) == Ok::<(ExprModel, int), ErrorModel>((n2, 3)));
    assert(spec_parse_e(ts, 0) == Ok::<(ExprModel, int), ErrorModel>((n2, 3)));
}

/// A leading plus is a no-op: `+ a` parses as the bare leaf.
pub proof fn lemma_leading_plus(ts: Seq<TokenContainerModel>, a: AtomicModel)
    requires
        ts.len() == 2,
        ts[0].token == TokenModel::Plus,
        ts[1].token == TokenModel::Atomic(a),
    ensures
        spec_parse(ts) == Ok::<ExprModel, ErrorModel>(ExprModel::Leaf(a)),
{
    assert(spec_parse_f(ts, 1) == Ok::<(ExprModel, int), ErrorModel>((ExprModel::Leaf(a), 2)));
    assert(spec_parse_f(ts, 0) == Ok::<(ExprModel, int), ErrorModel>((ExprModel::Leaf(a), 2)));
    assert(spec_parse_t(ts, 0) == Ok::<(ExprModel, int), ErrorModel>((ExprModel::Leaf(a), 2)));
    assert(spec_parse_e(ts, 0) == Ok::<(ExprModel, int), ErrorModel>((ExprModel::Leaf(a), 2)));
}

/// Double negation evaluates back to the operand's value, whenever that
/// value's negation stays in range.
pub proof fn lemma_double_negation(e: ExprModel, v: int)
    requires
        spec_eval(e) == Ok::<int, ErrorModel>(v),
        i64::MIN < v <= i64::MAX,
    ensures
        spec_eval(
            ExprModel::Negate { right: Box::new(ExprModel::Negate { right: Box::new(e) }) },
        ) == Ok::<int, ErrorModel>(v),
{
    let inner = ExprModel::Negate { right: Box::new(e) };
    assert(spec_eval(inner) == Ok::<int, ErrorModel>(-v));
    assert(spec_eval(ExprModel::Negate { right: Box::new(inner) }) == Ok::<int, ErrorModel>(v));
}

/// `/` and `-` associate left: `a / b / c` parses as `(a / b) / c`.
pub proof fn lemma_division_left_associative(
    ts: Seq<TokenContainerModel>,
    a: AtomicModel,
    b: AtomicModel,
    c: AtomicModel,
)
    requires
        ts.len() == 5,
        ts[0].token == TokenModel::Atomic(a),
        ts[1].token == TokenModel::Slash,
        ts[2].token == TokenModel::Atomic(b),
        ts[3].token == TokenModel::Slash,
        ts[4].token == TokenModel::Atomic(c),
    ensures
        spec_parse(ts) == Ok::<ExprModel, ErrorModel>(
            ExprModel::Divide {
                left: Box::new(
                    ExprModel::Divide {
                        left: Box::new(ExprModel::Leaf(a)),
                        right: Box::new(ExprModel::Leaf(b)),
                    },
                ),
                right: Box::new(ExprModel::Leaf(c)),
            },
        ),
{
    let dab = ExprModel::Divide { left: Box::new(ExprModel::Leaf(a)), right: Box::new(
        ExprModel::Leaf(b),
    ) };
    let dabc = ExprModel::Divide { left: Box::new(dab), right: Box::new(ExprModel::Leaf(c)) };
    assert(spec_parse_f(ts, 0) == Ok::<(ExprModel, int), ErrorModel>((ExprModel::Leaf(a), 1)));
    assert(spec_parse_f(ts, 2) == Ok::<(ExprModel, int), ErrorModel>((ExprModel::Leaf(b), 3)));
    assert(spec_parse_f(ts, 4) == Ok::<(ExprModel, int), ErrorModel>((ExprModel::Leaf(c), 5)));
    assert(spec_parse_t_rest(ts, dabc, 5) == Ok::<(ExprModel, int), ErrorModel>((dabc, 5)));
    assert(spec_parse_t_rest(ts, dab, 3) == Ok::<(ExprModel, int), ErrorModel>((dabc, 5)));
    assert(spec_parse_t_rest(ts, ExprModel::Leaf(a), 1) == Ok::<(ExprModel, int), ErrorModel>(
        (dabc, 5),
    ));
    assert(spec_parse_t(ts, 0) == Ok::<(ExprModel, int), ErrorModel>((dabc, 5)));
    assert(spec_parse_e_rest(ts, dabc, 5) == Ok::<(ExprModel, int), ErrorModel>((dabc, 5)));
    assert(spec_parse_e(ts, 0) == Ok::<(ExprModel, int), ErrorModel>((dabc, 5)));
}

/// The negative-exponent policy under truncating integer semantics:
/// `a ^ b` with `b < 0` is division by zero for base 0, stays 1 for base 1,
/// alternates for base -1, and is 0 for any base of larger magnitude.
pub proof fn lemma_negative_exponent(a: int, b: int)
    requires
        b < 0,
    ensures
        a == 0 ==> spec_eval(
            ExprModel::Exponent {
                left: Box::new(ExprModel::Leaf(AtomicModel::Integer(a))),
                right: Box::new(ExprModel::Leaf(AtomicModel::Integer(b))),
            },
        ) == Err::<int, ErrorModel>(ErrorModel::DivisionByZero),
        a != 0 ==> spec_eval(
            ExprModel::Exponent {
                left: Box::new(ExprModel::Leaf(AtomicModel::Integer(a))),
                right: Box::new(ExprModel::Leaf(AtomicModel::Integer(b))),
            },
        ) == Ok::<int, ErrorModel>(trunc_div(1, pow_int(a, (-b) as nat))),
        (a >= 2 || a <= -2) ==> trunc_div(1, pow_int(a, (-b) as nat)) == 0,
        a == 1 ==> trunc_div(1, pow_int(a, (-b) as nat)) == 1,
{
    let base = ExprModel::Leaf(AtomicModel::Integer(a));
    let expo = ExprModel::Leaf(AtomicModel::Integer(b));
    assert(spec_eval(base) == Ok::<int, ErrorModel>(a));
    assert(spec_eval(expo) == Ok::<int, ErrorModel>(b));
    if a != 0 {
        lemma_one_div_pow(a, (-b) as nat);
    }
}

/// A radix-prefixed literal with an invalid digit for its radix is a
/// tokenization error, never a silently mis-read number.
pub proof fn lemma_invalid_digit_is_error(lx: LexemeModel)
    requires
        has_radix_prefix(lx.text),
        !valid_digits(
            lx.text.subrange(2, lx.text.len() as int),
            radix_of_prefix(lx.text[1]),
        ),
    ensures
        spec_token_of(lx) is Err,
{
    let t = lx.text;
    assert(digit_of(t[1], 10) is None);
    assert(!valid_digits(t, 10));
}


/// Source order on positions: `a` stands at or before `b`.
pub open spec fn lex_pos_le(a: LexemeModel, b: LexemeModel) -> bool {
    a.line < b.line || (a.line == b.line && a.column <= b.column)
}

/// The lexemes appear with non-decreasing line and, within a line,
/// non-decreasing column.
pub open spec fn lexemes_ordered(out: Seq<LexemeModel>) -> bool {
    forall|k: int| 0 <= k < out.len() - 1 ==> lex_pos_le(#[trigger] out[k], out[k + 1])
}

/// The position at or before which the scanner's next lexeme will start:
/// the pending lexeme's start when one is pending, else the current column.
pub open spec fn scan_anchor(st: ScanState) -> LexemeModel {
    LexemeModel {
        text: Seq::empty(),
        line: st.line,
        column: if st.buf.len() > 0 {
            st.start
        } else {
            st.column
        },
    }
}

/// The scanner-state invariant behind the ordering law: the output so far
/// is ordered and ends at or before the anchor, and a pending lexeme never
/// starts past the current column.
pub open spec fn scan_pos_ok(st: ScanState) -> bool {
    &&& lexemes_ordered(st.out)
    &&& forall|k: int| 0 <= k < st.out.len() ==> lex_pos_le(#[trigger] st.out[k], scan_anchor(st))
    &&& (st.buf.len() > 0 ==> st.start <= st.column)
}

/// Pushing a lexeme at or after everything already produced keeps the
/// output ordered.
proof fn lemma_push_ordered(out: Seq<LexemeModel>, x: LexemeModel)
    requires
        lexemes_ordered(out),
        forall|k: int| 0 <= k < out.len() ==> lex_pos_le(#[trigger] out[k], x),
    ensures
        lexemes_ordered(out.push(x)),
{
    let o = out.push(x);
    assert forall|k: int| 0 <= k < o.len() - 1 implies lex_pos_le(#[trigger] o[k], o[k + 1]) by {
        if k + 1 < out.len() {
            assert(lex_pos_le(out[k], out[k + 1]));
        } else {
            assert(lex_pos_le(out[k], x));
        }
    }
}

/// One scanner step preserves the ordering invariant.
proof fn lemma_scan_step_ok(st: ScanState, c: char)
    requires
        scan_pos_ok(st),
    ensures
        scan_pos_ok(scan_step(st, c)),
{
    let col = st.column + 1;
    let moved = ScanState { line: st.line, column: col, start: st.start, buf: st.buf, out: st.out };
    if st.buf.len() > 0 {
        lemma_push_ordered(
            st.out,
            LexemeModel { text: st.buf, line: st.line, column: st.start },
        );
    }
    let f = scan_flush(moved);
    assert(lexemes_ordered(f.out));
    if crate::lexer::is_single(c) {
        lemma_push_ordered(f.out, LexemeModel { text: seq![c], line: f.line, column: col });
    }
}

/// Running the scanner preserves the ordering invariant.
proof fn lemma_scan_run_ok(st: ScanState, s: Seq<char>, i: int)
    requires
        scan_pos_ok(st),
    ensures
        scan_pos_ok(scan_run(st, s, i)),
    decreases s.len() - i,
{
    if 0 <= i < s.len() {
        lemma_scan_step_ok(st, s[i]);
        lemma_scan_run_ok(scan_step(st, s[i]), s, i + 1);
    }
}

/// The scanner's output ordering: on any input, the lexemes stand in source
/// order, with non-decreasing line and, within a line, non-decreasing
/// column.
pub proof fn lemma_lexize_ordered(s: Seq<char>)
    ensures
        lexemes_ordered(spec_lexize(s)),
{
    assert(scan_pos_ok(scan_init()));
    lemma_scan_run_ok(scan_init(), s, 0);
    let end = scan_run(scan_init(), s, 0);
    if end.buf.len() > 0 {
        lemma_push_ordered(
            end.out,
            LexemeModel { text: end.buf, line: end.line, column: end.start },
        );
    }
}

} // verus!
