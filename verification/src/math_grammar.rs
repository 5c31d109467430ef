//! The math source grammar as a total function from characters and limits
//! to an AST model with its node and depth charge, or to the first refusal.
//!
//! Positions are character indexes; every node is charged once, at its depth,
//! before its children, and a charge beyond either limit refuses the source.
use vstd::prelude::*;
use crate::math_ast::{AtomView, TermView, is_ascii_alpha, is_ascii_digit};
use crate::math_chars::{literal_symbol, greek_letter};
use crate::math_source::{MathParseLimits, MathSourceErrorKind};

verus! {

/// Position and running charge of a parse.
pub struct ParseState {
    pub pos: int,
    pub count: int,
    pub depth: int,
}

/// A refusal at a character index.
pub struct ParseFailure {
    pub kind: MathSourceErrorKind,
    pub pos: int,
}

pub type Parsed<T> = Result<(T, ParseState), ParseFailure>;

pub open spec fn fail<T>(kind: MathSourceErrorKind, pos: int) -> Parsed<T> {
    Err(ParseFailure { kind, pos })
}

pub open spec fn at(st: ParseState, pos: int) -> ParseState {
    ParseState { pos, ..st }
}

pub open spec fn peek(s: Seq<char>, p: int) -> Option<char> {
    if 0 <= p < s.len() {
        Some(s[p])
    } else {
        None
    }
}

pub open spec fn is_space(c: char) -> bool {
    c == ' ' || c == '\n'
}

/// End of the run of spaces and newlines starting at `p`.
pub open spec fn space_end(s: Seq<char>, p: int) -> int
    decreases s.len() - p,
{
    if 0 <= p < s.len() && is_space(s[p]) {
        space_end(s, p + 1)
    } else {
        p
    }
}

/// End of the run of ASCII letters starting at `p`.
pub open spec fn alpha_end(s: Seq<char>, p: int) -> int
    decreases s.len() - p,
{
    if 0 <= p < s.len() && is_ascii_alpha(s[p]) {
        alpha_end(s, p + 1)
    } else {
        p
    }
}

/// End of the run of ASCII digits starting at `p`.
pub open spec fn digit_end(s: Seq<char>, p: int) -> int
    decreases s.len() - p,
{
    if 0 <= p < s.len() && is_ascii_digit(s[p]) {
        digit_end(s, p + 1)
    } else {
        p
    }
}

pub open spec fn digit_at(s: Seq<char>, p: int) -> bool {
    0 <= p < s.len() && is_ascii_digit(s[p])
}

/// A number starting at a digit: no leading zero before another digit, and an
/// optional fraction that needs at least one digit after the point.
pub open spec fn number_end(s: Seq<char>, p: int) -> Result<int, ParseFailure> {
    let whole = if peek(s, p) == Some('0') {
        if digit_at(s, p + 1) {
            Err(ParseFailure { kind: MathSourceErrorKind::InvalidNumber, pos: p + 1 })
        } else {
            Ok(p + 1)
        }
    } else {
        Ok(digit_end(s, p))
    };
    match whole {
        Err(e) => Err(e),
        Ok(q) => if peek(s, q) == Some('.') && digit_at(s, q + 1) {
            Ok(digit_end(s, q + 1))
        } else {
            Ok(q)
        },
    }
}

/// Skip spaces, then require `c`.
pub open spec fn expect(s: Seq<char>, p: int, c: char) -> Result<int, ParseFailure> {
    let q = space_end(s, p);
    if peek(s, q) == Some(c) {
        Ok(q + 1)
    } else {
        Err(ParseFailure { kind: MathSourceErrorKind::MissingDelimiter, pos: q })
    }
}

/// Charge one node at `depth`: the depth limit is checked first, then the
/// node limit; both are inclusive.
pub open spec fn charge(st: ParseState, depth: int, limits: MathParseLimits) -> Result<
    ParseState,
    ParseFailure,
> {
    if depth > limits.spec_max_depth() {
        Err(ParseFailure { kind: MathSourceErrorKind::DepthLimit, pos: st.pos })
    } else if st.count + 1 > limits.spec_max_nodes() {
        Err(ParseFailure { kind: MathSourceErrorKind::NodeLimit, pos: st.pos })
    } else {
        Ok(
            ParseState {
                pos: st.pos,
                count: st.count + 1,
                depth: if st.depth >= depth {
                    st.depth
                } else {
                    depth
                },
            },
        )
    }
}

/// Result positions that stay between `from` and the end of the source.
pub open spec fn within(s: Seq<char>, from: int, st: ParseState) -> bool {
    from <= st.pos <= s.len()
}

pub open spec fn symbol_char(c: char) -> bool {
    literal_symbol(c) || greek_letter(c)
}

pub proof fn lemma_space_end(s: Seq<char>, p: int)
    requires
        0 <= p <= s.len(),
    ensures
        p <= space_end(s, p) <= s.len(),
        forall|k: int| p <= k < space_end(s, p) ==> #[trigger] is_space(s[k]),
        space_end(s, p) < s.len() ==> !is_space(s[space_end(s, p)]),
    decreases s.len() - p,
{
    if p < s.len() && is_space(s[p]) {
        lemma_space_end(s, p + 1);
    }
}

pub proof fn lemma_space_end_idempotent(s: Seq<char>, p: int)
    requires
        0 <= p <= s.len(),
    ensures
        space_end(s, space_end(s, p)) == space_end(s, p),
        expect(s, space_end(s, p), '{') == expect(s, p, '{'),
        expect(s, space_end(s, p), '}') == expect(s, p, '}'),
{
    lemma_space_end(s, p);
}

pub proof fn lemma_expect(s: Seq<char>, p: int, c: char)
    requires
        0 <= p <= s.len(),
    ensures
        expect(s, p, c) matches Ok(e) ==> p < e <= s.len() && s[e - 1] == c,
        expect(s, p, c) matches Err(f) ==> p <= f.pos <= s.len(),
{
    lemma_space_end(s, p);
}

pub proof fn lemma_number_end(s: Seq<char>, p: int)
    requires
        0 <= p < s.len(),
        is_ascii_digit(s[p]),
    ensures
        number_end(s, p) matches Ok(e) ==> p < e <= s.len(),
{
    lemma_digit_end(s, p);
    lemma_digit_end(s, p + 1);
    if peek(s, p) == Some('0') {
        if p + 1 < s.len() {
            lemma_digit_end(s, p + 2);
        }
    } else {
        let q = digit_end(s, p);
        if q + 1 <= s.len() {
            lemma_digit_end(s, q + 1);
        }
    }
}

pub proof fn lemma_alpha_end(s: Seq<char>, p: int)
    requires
        0 <= p <= s.len(),
    ensures
        p <= alpha_end(s, p) <= s.len(),
        forall|k: int| p <= k < alpha_end(s, p) ==> #[trigger] is_ascii_alpha(s[k]),
        alpha_end(s, p) < s.len() ==> !is_ascii_alpha(s[alpha_end(s, p)]),
    decreases s.len() - p,
{
    if p < s.len() && is_ascii_alpha(s[p]) {
        lemma_alpha_end(s, p + 1);
    }
}

pub proof fn lemma_digit_end(s: Seq<char>, p: int)
    requires
        0 <= p <= s.len(),
    ensures
        p <= digit_end(s, p) <= s.len(),
        forall|k: int| p <= k < digit_end(s, p) ==> #[trigger] is_ascii_digit(s[k]),
        digit_end(s, p) < s.len() ==> !is_ascii_digit(s[digit_end(s, p)]),
    decreases s.len() - p,
{
    if p < s.len() && is_ascii_digit(s[p]) {
        lemma_digit_end(s, p + 1);
    }
}

/// A row: charged at `depth`, then terms at `depth + 1` until the terminator
/// (or the end); a row without terms is refused.
pub open spec fn parse_row(
    s: Seq<char>,
    limits: MathParseLimits,
    st: ParseState,
    terminator: Option<char>,
    depth: int,
) -> Parsed<Seq<TermView>>
    decreases s.len() - st.pos, 5int,
{
    match charge(st, depth, limits) {
        Err(e) => Err(e),
        Ok(st1) => parse_row_terms(s, limits, st1, terminator, depth, Seq::empty()),
    }
}

pub open spec fn parse_row_terms(
    s: Seq<char>,
    limits: MathParseLimits,
    st: ParseState,
    terminator: Option<char>,
    depth: int,
    terms: Seq<TermView>,
) -> Parsed<Seq<TermView>>
    decreases s.len() - st.pos, 4int,
{
    if !(0 <= st.pos <= s.len()) {
        fail(MathSourceErrorKind::ReceiptMismatch, st.pos)
    } else {
        let q = space_end(s, st.pos);
        proof {
            lemma_space_end(s, st.pos);
        }
        if peek(s, q) == terminator || peek(s, q) is None {
            if terms.len() == 0 {
                fail(MathSourceErrorKind::EmptyRow, q)
            } else {
                Ok((terms, at(st, q)))
            }
        } else {
            match parse_term(s, limits, at(st, q), depth + 1) {
                Err(e) => Err(e),
                Ok((term, st2)) => if st2.pos <= st.pos || st2.pos > s.len() {
                    fail(MathSourceErrorKind::ReceiptMismatch, st2.pos)
                } else {
                    parse_row_terms(s, limits, st2, terminator, depth, terms.push(term))
                },
            }
        }
    }
}

/// A term: charged at `depth`, its atom and scripts at `depth + 1`.
pub open spec fn parse_term(
    s: Seq<char>,
    limits: MathParseLimits,
    st: ParseState,
    depth: int,
) -> Parsed<TermView>
    decreases s.len() - st.pos, 3int,
{
    match charge(st, depth, limits) {
        Err(e) => Err(e),
        Ok(st1) => match parse_atom(s, limits, st1, depth + 1) {
            Err(e) => Err(e),
            Ok((atom, st2)) => if st2.pos < st.pos || st2.pos > s.len() {
                fail(MathSourceErrorKind::ReceiptMismatch, st2.pos)
            } else {
                parse_scripts(s, limits, st2, depth + 1, atom, None, None)
            },
        },
    }
}

/// Scripts in any order, each at most once; the term model orders them.
pub open spec fn parse_scripts(
    s: Seq<char>,
    limits: MathParseLimits,
    st: ParseState,
    depth: int,
    atom: AtomView,
    subscript: Option<AtomView>,
    superscript: Option<AtomView>,
) -> Parsed<TermView>
    decreases s.len() - st.pos, 2int,
{
    if !(0 <= st.pos <= s.len()) {
        fail(MathSourceErrorKind::ReceiptMismatch, st.pos)
    } else {
        let q = space_end(s, st.pos);
        proof {
            lemma_space_end(s, st.pos);
        }
        if peek(s, q) == Some('_') || peek(s, q) == Some('^') {
            let is_sub = peek(s, q) == Some('_');
            if (is_sub && subscript is Some) || (!is_sub && superscript is Some) {
                fail(MathSourceErrorKind::DuplicateScript, q)
            } else {
                let r = space_end(s, q + 1);
                proof {
                    lemma_space_end(s, q + 1);
                }
                match parse_atom(s, limits, at(st, r), depth) {
                    Err(e) => Err(e),
                    Ok((script, st3)) => if st3.pos < r || st3.pos > s.len() {
                        fail(MathSourceErrorKind::ReceiptMismatch, st3.pos)
                    } else if is_sub {
                        parse_scripts(s, limits, st3, depth, atom, Some(script), superscript)
                    } else {
                        parse_scripts(s, limits, st3, depth, atom, subscript, Some(script))
                    },
                }
            }
        } else {
            Ok((TermView { atom, subscript, superscript }, at(st, q)))
        }
    }
}

/// An atom: charged at `depth`; a braced group's row is at `depth + 1`.
pub open spec fn parse_atom(
    s: Seq<char>,
    limits: MathParseLimits,
    st: ParseState,
    depth: int,
) -> Parsed<AtomView>
    decreases s.len() - st.pos, 1int,
{
    match charge(st, depth, limits) {
        Err(e) => Err(e),
        Ok(st1) => {
            let p = st.pos;
            if !(0 <= p < s.len()) {
                fail(MathSourceErrorKind::UnexpectedToken, p)
            } else {
                let c = s[p];
                if is_ascii_alpha(c) {
                    let e = alpha_end(s, p);
                    Ok((AtomView::Identifier(s.subrange(p, e)), at(st1, e)))
                } else if is_ascii_digit(c) {
                    match number_end(s, p) {
                        Err(e) => Err(e),
                        Ok(e) => Ok((AtomView::Number(s.subrange(p, e)), at(st1, e))),
                    }
                } else if c == '{' {
                    match parse_row(s, limits, at(st1, p + 1), Some('}'), depth + 1) {
                        Err(e) => Err(e),
                        Ok((row, st2)) => match expect(s, st2.pos, '}') {
                            Err(e) => Err(e),
                            Ok(e) => Ok((AtomView::Group(row), at(st2, e))),
                        },
                    }
                } else if c == '\\' {
                    parse_command(s, limits, st1, depth)
                } else if symbol_char(c) {
                    Ok((AtomView::Symbol(c), at(st1, p + 1)))
                } else {
                    fail(MathSourceErrorKind::UnexpectedToken, p)
                }
            }
        },
    }
}

pub open spec fn frac_name() -> Seq<char> {
    seq!['f', 'r', 'a', 'c']
}

pub open spec fn sqrt_name() -> Seq<char> {
    seq!['s', 'q', 'r', 't']
}

pub open spec fn operator_name() -> Seq<char> {
    seq!['o', 'p', 'e', 'r', 'a', 't', 'o', 'r']
}

/// A command at a backslash: `\frac{..}{..}`, `\sqrt{..}` or
/// `\operator{name}`; any other name is refused after it was read.
pub open spec fn parse_command(
    s: Seq<char>,
    limits: MathParseLimits,
    st: ParseState,
    depth: int,
) -> Parsed<AtomView>
    decreases s.len() - st.pos, 0int,
{
    let q = st.pos + 1;
    let e = alpha_end(s, q);
    if !(0 <= st.pos < s.len()) {
        fail(MathSourceErrorKind::ReceiptMismatch, st.pos)
    } else if e == q {
        fail(MathSourceErrorKind::UnexpectedToken, q)
    } else {
        proof {
            lemma_alpha_end(s, q);
        }
        let name = s.subrange(q, e);
        if name == frac_name() {
            match parse_group(s, limits, at(st, e), depth) {
                Err(err) => Err(err),
                Ok((numerator, st2)) => if st2.pos < e || st2.pos > s.len() {
                    fail(MathSourceErrorKind::ReceiptMismatch, st2.pos)
                } else {
                    match parse_group(s, limits, st2, depth) {
                        Err(err) => Err(err),
                        Ok((denominator, st3)) => Ok(
                            (AtomView::Fraction(numerator, denominator), st3),
                        ),
                    }
                },
            }
        } else if name == sqrt_name() {
            match parse_group(s, limits, at(st, e), depth) {
                Err(err) => Err(err),
                Ok((row, st2)) => Ok((AtomView::Radical(row), st2)),
            }
        } else if name == operator_name() {
            match expect(s, e, '{') {
                Err(err) => Err(err),
                Ok(b) => {
                    let start = space_end(s, b);
                    let end = alpha_end(s, start);
                    if end == start {
                        fail(MathSourceErrorKind::UnexpectedToken, start)
                    } else {
                        match expect(s, end, '}') {
                            Err(err) => Err(err),
                            Ok(close) => Ok(
                                (AtomView::Operator(s.subrange(start, end)), at(st, close)),
                            ),
                        }
                    }
                },
            }
        } else {
            fail(MathSourceErrorKind::UnknownCommand, e)
        }
    }
}

/// A required braced group `{ row }` whose row is at `depth + 1`.
pub open spec fn parse_group(
    s: Seq<char>,
    limits: MathParseLimits,
    st: ParseState,
    depth: int,
) -> Parsed<Seq<TermView>>
    decreases s.len() - st.pos, 0int,
{
    match expect(s, st.pos, '{') {
        Err(e) => Err(e),
        Ok(b) => {
            proof {
                if 0 <= st.pos <= s.len() {
                    lemma_space_end(s, st.pos);
                }
            }
            if b <= st.pos {
                fail(MathSourceErrorKind::ReceiptMismatch, b)
            } else {
                match parse_row(s, limits, at(st, b), Some('}'), depth + 1) {
                    Err(e) => Err(e),
                    Ok((row, st2)) => match expect(s, st2.pos, '}') {
                        Err(e) => Err(e),
                        Ok(close) => Ok((row, at(st2, close))),
                    },
                }
            }
        },
    }
}

/// The whole source: one row at depth one that must reach the end.
pub open spec fn parse_source(s: Seq<char>, limits: MathParseLimits) -> Parsed<Seq<TermView>> {
    match parse_row(s, limits, ParseState { pos: 0, count: 0, depth: 0 }, None, 1) {
        Err(e) => Err(e),
        Ok((row, st)) => {
            let q = space_end(s, st.pos);
            if q != s.len() {
                fail(MathSourceErrorKind::UnexpectedToken, q)
            } else {
                Ok((row, at(st, q)))
            }
        },
    }
}

} // verus!
