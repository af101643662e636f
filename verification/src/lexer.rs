//! Lexical scanning: raw text to a sequence of positioned lexemes.
//!
//! A single left-to-right pass cuts the input into lexemes. Operator and
//! parenthesis characters each form a one-character lexeme of their own;
//! whitespace ends the pending lexeme without producing one; every other
//! character is buffered into a growing multi-character lexeme. Scanning
//! never fails.

use vstd::prelude::*;

verus! {

/// A run of source characters together with its 1-based source position.
#[derive(PartialEq, Debug, Clone)]
pub struct Lexeme {
    pub inner: String,
    pub line: usize,
    pub column: usize,
}

/// Mathematical image of a `Lexeme`: its characters and its position.
pub struct LexemeModel {
    pub text: Seq<char>,
    pub line: int,
    pub column: int,
}

impl View for Lexeme {
    type V = LexemeModel;

    open spec fn view(&self) -> LexemeModel {
        LexemeModel { text: self.inner@, line: self.line as int, column: self.column as int }
    }
}

impl DeepView for Lexeme {
    type V = LexemeModel;

    open spec fn deep_view(&self) -> LexemeModel {
        self@
    }
}

impl Lexeme {
    pub fn new(inner: &str, line: usize, column: usize) -> (r: Self)
        ensures
            r@ == (LexemeModel { text: inner@, line: line as int, column: column as int }),
    {
        Lexeme { inner: inner.to_owned(), line, column }
    }
}

/// The characters that always stand alone as one-character lexemes.
pub open spec fn is_single(c: char) -> bool {
    c == '(' || c == ')' || c == '+' || c == '-' || c == '*' || c == '/' || c == '%' || c == '^'
        || c == '='
}

/// The characters that end the pending lexeme without producing one.
pub open spec fn is_delim(c: char) -> bool {
    c == ' ' || c == '\t' || c == '\n'
}

/// The scanner's whole state: current position, the column where the pending
/// lexeme began, the pending characters, and the lexemes produced so far.
#[verifier::ext_equal]
pub struct ScanState {
    pub line: int,
    pub column: int,
    pub start: int,
    pub buf: Seq<char>,
    pub out: Seq<LexemeModel>,
}

pub open spec fn scan_init() -> ScanState {
    ScanState { line: 1, column: 0, start: 1, buf: Seq::empty(), out: Seq::empty() }
}

/// Emit the pending lexeme, if any, at the column where it began.
pub open spec fn scan_flush(st: ScanState) -> ScanState {
    if st.buf.len() == 0 {
        st
    } else {
        ScanState {
            line: st.line,
            column: st.column,
            start: st.start,
            buf: Seq::empty(),
            out: st.out.push(LexemeModel { text: st.buf, line: st.line, column: st.start }),
        }
    }
}

/// Consume one character: advance the column, then emit, delimit or buffer.
/// A newline moves to the next line, whose first character has column 1.
pub open spec fn scan_step(st: ScanState, c: char) -> ScanState {
    let col = st.column + 1;
    if is_single(c) {
        let f = scan_flush(
            ScanState { line: st.line, column: col, start: st.start, buf: st.buf, out: st.out },
        );
        ScanState {
            line: f.line,
            column: col,
            start: col,
            buf: Seq::empty(),
            out: f.out.push(LexemeModel { text: seq![c], line: f.line, column: col }),
        }
    } else if is_delim(c) {
        let f = scan_flush(
            ScanState { line: st.line, column: col, start: st.start, buf: st.buf, out: st.out },
        );
        if c == '\n' {
            ScanState { line: f.line + 1, column: 0, start: f.start, buf: f.buf, out: f.out }
        } else {
            ScanState { line: f.line, column: col, start: f.start, buf: f.buf, out: f.out }
        }
    } else {
        if st.buf.len() == 0 {
            ScanState { line: st.line, column: col, start: col, buf: seq![c], out: st.out }
        } else {
            ScanState { line: st.line, column: col, start: st.start, buf: st.buf.push(c), out: st.out }
        }
    }
}

/// Run the scanner over `s` from index `i` to the end.
pub open spec fn scan_run(st: ScanState, s: Seq<char>, i: int) -> ScanState
    decreases s.len() - i,
{
    if i < 0 || i >= s.len() {
        st
    } else {
        scan_run(scan_step(st, s[i]), s, i + 1)
    }
}

/// What scanning a text yields: every lexeme in source order, the last one
/// flushed even when the input does not end in a delimiter.
pub open spec fn spec_lexize(s: Seq<char>) -> Seq<LexemeModel> {
    scan_flush(scan_run(scan_init(), s, 0)).out
}

/// Scan `input` into lexemes. Never fails; the result is exactly
/// `spec_lexize` of the input's characters.
pub fn lexize(input: &str) -> (r: Vec<Lexeme>)
    requires
        input@.len() < usize::MAX,
    ensures
        r.deep_view() == spec_lexize(input@),
{
    let len = input.unicode_len();
    let mut out: Vec<Lexeme> = Vec::new();
    let mut line: usize = 1;
    let mut column: usize = 0;
    let mut start: usize = 1;
    let mut buf_begin: usize = 0;
    let mut i: usize = 0;
    proof {
        assert(cur_state(1, 0, 1, input@, 0, 0, out.deep_view()) =~= scan_init());
    }
    while i < len
        invariant
            len == input@.len() < usize::MAX,
            i <= len,
            buf_begin <= i,
            column <= i,
            line <= i + 1,
            scan_run(cur_state(line, column, start, input@, buf_begin as int, i as int, out.deep_view()), input@, i as int)
                == scan_run(scan_init(), input@, 0),
        decreases len - i,
    {
        let ghost prev = cur_state(line, column, start, input@, buf_begin as int, i as int, out.deep_view());
        let c = input.get_char(i);
        column = column + 1;
        match c {
            '(' | ')' | '+' | '-' | '*' | '/' | '%' | '^' | '=' => {
                if buf_begin < i {
                    out.push(Lexeme::new(input.substring_char(buf_begin, i), line, start));
                }
                start = column;
                out.push(Lexeme::new(input.substring_char(i, i + 1), line, column));
                buf_begin = i + 1;
                proof {
                    assert(input@.subrange(i as int, i + 1) =~= seq![input@[i as int]]);
                    assert(cur_state(line, column, start, input@, buf_begin as int, i + 1, out.deep_view())
                        =~= scan_step(prev, input@[i as int]));
                }
            },
            ' ' | '\t' | '\n' => {
                if buf_begin < i {
                    out.push(Lexeme::new(input.substring_char(buf_begin, i), line, start));
                }
                buf_begin = i + 1;
                if c == '\n' {
                    line = line + 1;
                    column = 0;
                }
                proof {
                    assert(cur_state(line, column, start, input@, buf_begin as int, i + 1, out.deep_view())
                        =~= scan_step(prev, input@[i as int]));
                }
            },
            _ => {
                if buf_begin == i {
                    start = column;
                }
                proof {
                    assert(input@.subrange(buf_begin as int, i + 1)
                        =~= input@.subrange(buf_begin as int, i as int).push(input@[i as int]));
                    assert(cur_state(line, column, start, input@, buf_begin as int, i + 1, out.deep_view())
                        =~= scan_step(prev, input@[i as int]));
                }
            },
        }
        i = i + 1;
    }
    if buf_begin < len {
        out.push(Lexeme::new(input.substring_char(buf_begin, len), line, start));
    }
    proof {
        assert(out.deep_view() =~= spec_lexize(input@));
    }
    out
}

/// The scanner state that the executable scanner's locals stand for: the
/// pending lexeme is the slice of the input from `buf_begin` to `i`.
spec fn cur_state(
    line: usize,
    column: usize,
    start: usize,
    s: Seq<char>,
    buf_begin: int,
    i: int,
    out: Seq<LexemeModel>,
) -> ScanState {
    ScanState {
        line: line as int,
        column: column as int,
        start: start as int,
        buf: s.subrange(buf_begin, i),
        out: out,
    }
}

} // verus!
