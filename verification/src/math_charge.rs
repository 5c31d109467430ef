//! What the grammar charges is what the AST measures: an accepted parse
//! charges one node per AST node, and its deepest charge is the AST's
//! height. Hence a freshly parsed receipt passes its own verification.
use vstd::prelude::*;
use crate::math_ast::{AtomView, TermView};
use crate::math_encode::{
    atom_height, atom_nodes, max_nat, row_height, row_nodes, term_height, term_nodes, terms_height,
    terms_nodes,
};
use crate::math_grammar::{
    ParseState, at, charge, lemma_alpha_end, lemma_space_end, parse_atom, parse_command, parse_group,
    parse_row, parse_row_terms, parse_scripts, parse_source, parse_term, space_end, expect, peek,
};
use crate::math_receipt::{ParsedMathReceipt, checked_parse, parse_outcome};
use crate::math_source::MathParseLimits;

verus! {

pub open spec fn max_int(a: int, b: int) -> int {
    if a >= b {
        a
    } else {
        b
    }
}

pub open spec fn option_atom_nodes(a: Option<AtomView>) -> nat {
    match a {
        Some(v) => atom_nodes(v),
        None => 0,
    }
}

pub open spec fn option_atom_height(a: Option<AtomView>) -> nat {
    match a {
        Some(v) => atom_height(v),
        None => 0,
    }
}

/// Nodes a script slot gained during script parsing.
pub open spec fn gained_nodes(before: Option<AtomView>, after: Option<AtomView>) -> nat {
    if before is None {
        option_atom_nodes(after)
    } else {
        0
    }
}

/// Height of the script a slot gained during script parsing.
pub open spec fn gained_height(before: Option<AtomView>, after: Option<AtomView>) -> nat {
    if before is None {
        option_atom_height(after)
    } else {
        0
    }
}

proof fn lemma_push(terms: Seq<TermView>, t: TermView)
    ensures
        terms_nodes(terms.push(t)) == terms_nodes(terms) + term_nodes(t),
        terms_height(terms.push(t)) == max_nat(terms_height(terms), term_height(t)),
{
    let p = terms.push(t);
    assert(p.subrange(0, p.len() - 1) =~= terms);
}

proof fn lemma_charge_row(
    s: Seq<char>,
    limits: MathParseLimits,
    st: ParseState,
    terminator: Option<char>,
    depth: int,
)
    ensures
        parse_row(s, limits, st, terminator, depth) matches Ok((row, st2)) ==> st2.count == st.count
            + row_nodes(row) && st2.depth == max_int(st.depth, depth + terms_height(row)),
    decreases s.len() - st.pos, 5int,
{
    if let Ok(st1) = charge(st, depth, limits) {
        lemma_charge_row_terms(s, limits, st1, terminator, depth, Seq::empty());
    }
}

proof fn lemma_charge_row_terms(
    s: Seq<char>,
    limits: MathParseLimits,
    st: ParseState,
    terminator: Option<char>,
    depth: int,
    terms: Seq<TermView>,
)
    requires
        st.depth >= depth + terms_height(terms),
    ensures
        parse_row_terms(s, limits, st, terminator, depth, terms) matches Ok((row, st2)) ==> {
            &&& st2.count == st.count + terms_nodes(row) - terms_nodes(terms)
            &&& st2.depth == max_int(st.depth, depth + terms_height(row))
            &&& terms_height(row) >= terms_height(terms)
        },
    decreases s.len() - st.pos, 4int,
{
    if 0 <= st.pos <= s.len() {
        let q = space_end(s, st.pos);
        lemma_space_end(s, st.pos);
        if !(peek(s, q) == terminator || peek(s, q) is None) {
            lemma_charge_term(s, limits, at(st, q), depth + 1);
            if let Ok((term, st2)) = parse_term(s, limits, at(st, q), depth + 1) {
                if !(st2.pos <= st.pos || st2.pos > s.len()) {
                    lemma_push(terms, term);
                    lemma_charge_row_terms(s, limits, st2, terminator, depth, terms.push(term));
                }
            }
        }
    }
}

proof fn lemma_charge_term(s: Seq<char>, limits: MathParseLimits, st: ParseState, depth: int)
    ensures
        parse_term(s, limits, st, depth) matches Ok((t, st2)) ==> st2.count == st.count + term_nodes(t)
            && st2.depth == max_int(st.depth, depth + term_height(t) - 1),
    decreases s.len() - st.pos, 3int,
{
    if let Ok(st1) = charge(st, depth, limits) {
        lemma_charge_atom(s, limits, st1, depth + 1);
        if let Ok((atom, st2)) = parse_atom(s, limits, st1, depth + 1) {
            if !(st2.pos < st.pos || st2.pos > s.len()) {
                lemma_charge_scripts(s, limits, st2, depth + 1, atom, None, None);
            }
        }
    }
}

proof fn lemma_charge_scripts(
    s: Seq<char>,
    limits: MathParseLimits,
    st: ParseState,
    depth: int,
    atom: AtomView,
    subscript: Option<AtomView>,
    superscript: Option<AtomView>,
)
    requires
        st.depth >= depth - 1,
    ensures
        parse_scripts(s, limits, st, depth, atom, subscript, superscript) matches Ok((t, st2)) ==> {
            &&& t.atom == atom
            &&& subscript is Some ==> t.subscript == subscript
            &&& superscript is Some ==> t.superscript == superscript
            &&& st2.count == st.count + gained_nodes(subscript, t.subscript) + gained_nodes(
                superscript,
                t.superscript,
            )
            &&& st2.depth == max_int(
                st.depth,
                depth + max_nat(
                    gained_height(subscript, t.subscript),
                    gained_height(superscript, t.superscript),
                ) - 1,
            )
        },
    decreases s.len() - st.pos, 2int,
{
    if 0 <= st.pos <= s.len() {
        let q = space_end(s, st.pos);
        lemma_space_end(s, st.pos);
        if peek(s, q) == Some('_') || peek(s, q) == Some('^') {
            let is_sub = peek(s, q) == Some('_');
            if !((is_sub && subscript is Some) || (!is_sub && superscript is Some)) {
                let r = space_end(s, q + 1);
                lemma_space_end(s, q + 1);
                lemma_charge_atom(s, limits, at(st, r), depth);
                if let Ok((script, st3)) = parse_atom(s, limits, at(st, r), depth) {
                    if !(st3.pos < r || st3.pos > s.len()) {
                        if is_sub {
                            lemma_charge_scripts(s, limits, st3, depth, atom, Some(script), superscript);
                        } else {
                            lemma_charge_scripts(s, limits, st3, depth, atom, subscript, Some(script));
                        }
                    }
                }
            }
        }
    }
}

proof fn lemma_charge_atom(s: Seq<char>, limits: MathParseLimits, st: ParseState, depth: int)
    ensures
        parse_atom(s, limits, st, depth) matches Ok((a, st2)) ==> st2.count == st.count + atom_nodes(a)
            && st2.depth == max_int(st.depth, depth + atom_height(a) - 1),
    decreases s.len() - st.pos, 1int,
{
    if let Ok(st1) = charge(st, depth, limits) {
        let p = st.pos;
        if 0 <= p < s.len() {
            let c = s[p];
            if c == '{' {
                lemma_charge_row(s, limits, at(st1, p + 1), Some('}'), depth + 1);
            } else if c == '\\' {
                lemma_charge_command(s, limits, st1, depth);
            }
        }
    }
}

proof fn lemma_charge_command(s: Seq<char>, limits: MathParseLimits, st: ParseState, depth: int)
    requires
        st.depth >= depth,
    ensures
        parse_command(s, limits, st, depth) matches Ok((a, st2)) ==> st2.count == st.count + atom_nodes(a)
            - 1 && st2.depth == max_int(st.depth, depth + atom_height(a) - 1),
    decreases s.len() - st.pos, 0int,
{
    let q = st.pos + 1;
    if 0 <= st.pos < s.len() {
        lemma_alpha_end(s, q);
        let e = crate::math_grammar::alpha_end(s, q);
        if e != q {
            lemma_charge_group(s, limits, at(st, e), depth);
            if let Ok((numerator, st2)) = parse_group(s, limits, at(st, e), depth) {
                if !(st2.pos < e || st2.pos > s.len()) {
                    lemma_charge_group(s, limits, st2, depth);
                }
            }
        }
    }
}

proof fn lemma_charge_group(s: Seq<char>, limits: MathParseLimits, st: ParseState, depth: int)
    ensures
        parse_group(s, limits, st, depth) matches Ok((row, st2)) ==> st2.count == st.count + row_nodes(row)
            && st2.depth == max_int(st.depth, depth + 1 + terms_height(row)),
    decreases s.len() - st.pos, 0int,
{
    if let Ok(b) = expect(s, st.pos, '{') {
        if 0 <= st.pos <= s.len() {
            lemma_space_end(s, st.pos);
        }
        if b > st.pos {
            lemma_charge_row(s, limits, at(st, b), Some('}'), depth + 1);
        }
    }
}

/// An accepted source charges exactly its AST: the node count is the AST's
/// node count and the deepest charge is its height.
pub proof fn lemma_parse_charges_ast(s: Seq<char>, limits: MathParseLimits)
    ensures
        parse_source(s, limits) matches Ok((root, st)) ==> st.count == row_nodes(root) && st.depth
            == row_height(root),
{
    lemma_charge_row(s, limits, ParseState { pos: 0, count: 0, depth: 0 }, None, 1);
}

/// A receipt that `parse_math_source` issues passes `verify`, except when
/// the AST's depth is `u32::MAX`, where verification cannot count its depth.
pub proof fn lemma_parsed_receipt_verifies(source: Seq<char>, limits: MathParseLimits, receipt: ParsedMathReceipt)
    requires
        parse_outcome(source, limits) is Ok,
        receipt.issued_for(source, parse_outcome(source, limits)->Ok_0.0, parse_outcome(source, limits)->Ok_0.1),
        receipt.spec_ast_depth() < u32::MAX,
    ensures
        receipt.consistent(),
{
    lemma_parse_charges_ast(source, limits);
    let (root, st) = parse_outcome(source, limits)->Ok_0;
    assert(checked_parse(source, limits) == Ok::<(Seq<TermView>, ParseState), crate::math_source::MathSourceError>((root, st)));
    assert(parse_source(source, limits) == Ok::<(Seq<TermView>, ParseState), crate::math_grammar::ParseFailure>((root, st)));
}

/// Two successful parses of a row under any limits agree: a charge that
/// succeeds yields the same state whatever the limits.
proof fn lemma_limits_row(
    s: Seq<char>,
    l1: MathParseLimits,
    l2: MathParseLimits,
    st: ParseState,
    terminator: Option<char>,
    depth: int,
)
    requires
        parse_row(s, l1, st, terminator, depth) is Ok,
        parse_row(s, l2, st, terminator, depth) is Ok,
    ensures
        parse_row(s, l1, st, terminator, depth) == parse_row(s, l2, st, terminator, depth),
    decreases s.len() - st.pos, 5int,
{
    let st1 = charge(st, depth, l1)->Ok_0;
    assert(charge(st, depth, l2) == Ok::<ParseState, crate::math_grammar::ParseFailure>(st1));
    lemma_limits_row_terms(s, l1, l2, st1, terminator, depth, Seq::empty());
}

proof fn lemma_limits_row_terms(
    s: Seq<char>,
    l1: MathParseLimits,
    l2: MathParseLimits,
    st: ParseState,
    terminator: Option<char>,
    depth: int,
    terms: Seq<TermView>,
)
    requires
        parse_row_terms(s, l1, st, terminator, depth, terms) is Ok,
        parse_row_terms(s, l2, st, terminator, depth, terms) is Ok,
    ensures
        parse_row_terms(s, l1, st, terminator, depth, terms) == parse_row_terms(s, l2, st, terminator, depth, terms),
    decreases s.len() - st.pos, 4int,
{
    if 0 <= st.pos <= s.len() {
        let q = space_end(s, st.pos);
        lemma_space_end(s, st.pos);
        if !(peek(s, q) == terminator || peek(s, q) is None) {
            lemma_limits_term(s, l1, l2, at(st, q), depth + 1);
            let (term, st2) = parse_term(s, l1, at(st, q), depth + 1)->Ok_0;
            if !(st2.pos <= st.pos || st2.pos > s.len()) {
                lemma_limits_row_terms(s, l1, l2, st2, terminator, depth, terms.push(term));
            }
        }
    }
}

proof fn lemma_limits_term(s: Seq<char>, l1: MathParseLimits, l2: MathParseLimits, st: ParseState, depth: int)
    requires
        parse_term(s, l1, st, depth) is Ok,
        parse_term(s, l2, st, depth) is Ok,
    ensures
        parse_term(s, l1, st, depth) == parse_term(s, l2, st, depth),
    decreases s.len() - st.pos, 3int,
{
    let st1 = charge(st, depth, l1)->Ok_0;
    assert(charge(st, depth, l2) == Ok::<ParseState, crate::math_grammar::ParseFailure>(st1));
    lemma_limits_atom(s, l1, l2, st1, depth + 1);
    let (atom, st2) = parse_atom(s, l1, st1, depth + 1)->Ok_0;
    if !(st2.pos < st.pos || st2.pos > s.len()) {
        lemma_limits_scripts(s, l1, l2, st2, depth + 1, atom, None, None);
    }
}

proof fn lemma_limits_scripts(
    s: Seq<char>,
    l1: MathParseLimits,
    l2: MathParseLimits,
    st: ParseState,
    depth: int,
    atom: AtomView,
    subscript: Option<AtomView>,
    superscript: Option<AtomView>,
)
    requires
        parse_scripts(s, l1, st, depth, atom, subscript, superscript) is Ok,
        parse_scripts(s, l2, st, depth, atom, subscript, superscript) is Ok,
    ensures
        parse_scripts(s, l1, st, depth, atom, subscript, superscript) == parse_scripts(
            s,
            l2,
            st,
            depth,
            atom,
            subscript,
            superscript,
        ),
    decreases s.len() - st.pos, 2int,
{
    if 0 <= st.pos <= s.len() {
        let q = space_end(s, st.pos);
        lemma_space_end(s, st.pos);
        if peek(s, q) == Some('_') || peek(s, q) == Some('^') {
            let is_sub = peek(s, q) == Some('_');
            if !((is_sub && subscript is Some) || (!is_sub && superscript is Some)) {
                let r = space_end(s, q + 1);
                lemma_space_end(s, q + 1);
                lemma_limits_atom(s, l1, l2, at(st, r), depth);
                let (script, st3) = parse_atom(s, l1, at(st, r), depth)->Ok_0;
                if !(st3.pos < r || st3.pos > s.len()) {
                    if is_sub {
                        lemma_limits_scripts(s, l1, l2, st3, depth, atom, Some(script), superscript);
                    } else {
                        lemma_limits_scripts(s, l1, l2, st3, depth, atom, subscript, Some(script));
                    }
                }
            }
        }
    }
}

proof fn lemma_limits_atom(s: Seq<char>, l1: MathParseLimits, l2: MathParseLimits, st: ParseState, depth: int)
    requires
        parse_atom(s, l1, st, depth) is Ok,
        parse_atom(s, l2, st, depth) is Ok,
    ensures
        parse_atom(s, l1, st, depth) == parse_atom(s, l2, st, depth),
    decreases s.len() - st.pos, 1int,
{
    let st1 = charge(st, depth, l1)->Ok_0;
    assert(charge(st, depth, l2) == Ok::<ParseState, crate::math_grammar::ParseFailure>(st1));
    let p = st.pos;
    if 0 <= p < s.len() {
        let c = s[p];
        if c == '{' {
            lemma_limits_row(s, l1, l2, at(st1, p + 1), Some('}'), depth + 1);
        } else if c == '\\' {
            lemma_limits_command(s, l1, l2, st1, depth);
        }
    }
}

proof fn lemma_limits_command(s: Seq<char>, l1: MathParseLimits, l2: MathParseLimits, st: ParseState, depth: int)
    requires
        parse_command(s, l1, st, depth) is Ok,
        parse_command(s, l2, st, depth) is Ok,
    ensures
        parse_command(s, l1, st, depth) == parse_command(s, l2, st, depth),
    decreases s.len() - st.pos, 0int,
{
    let q = st.pos + 1;
    if 0 <= st.pos < s.len() {
        lemma_alpha_end(s, q);
        let e = crate::math_grammar::alpha_end(s, q);
        if e != q {
            let name = s.subrange(q, e);
            if name == crate::math_grammar::frac_name() {
                lemma_limits_group(s, l1, l2, at(st, e), depth);
                let (numerator, st2) = parse_group(s, l1, at(st, e), depth)->Ok_0;
                if !(st2.pos < e || st2.pos > s.len()) {
                    lemma_limits_group(s, l1, l2, st2, depth);
                }
            } else if name == crate::math_grammar::sqrt_name() {
                lemma_limits_group(s, l1, l2, at(st, e), depth);
            }
        }
    }
}

proof fn lemma_limits_group(s: Seq<char>, l1: MathParseLimits, l2: MathParseLimits, st: ParseState, depth: int)
    requires
        parse_group(s, l1, st, depth) is Ok,
        parse_group(s, l2, st, depth) is Ok,
    ensures
        parse_group(s, l1, st, depth) == parse_group(s, l2, st, depth),
    decreases s.len() - st.pos, 0int,
{
    let b = expect(s, st.pos, '{')->Ok_0;
    if 0 <= st.pos <= s.len() {
        lemma_space_end(s, st.pos);
    }
    if b > st.pos {
        lemma_limits_row(s, l1, l2, at(st, b), Some('}'), depth + 1);
    }
}

/// A source that parses under two sets of limits parses to the same AST
/// and accounting under both: the limits only decide whether it parses.
pub proof fn lemma_parse_independent_of_limits(s: Seq<char>, l1: MathParseLimits, l2: MathParseLimits)
    requires
        parse_outcome(s, l1) is Ok,
        parse_outcome(s, l2) is Ok,
    ensures
        parse_outcome(s, l1) == parse_outcome(s, l2),
{
    lemma_limits_row(s, l1, l2, ParseState { pos: 0, count: 0, depth: 0 }, None, 1);
    assert(checked_parse(s, l1) == checked_parse(s, l2));
}

/// Limits that admit a parse state: its nodes and its depth are within them.
pub open spec fn covers(limits: MathParseLimits, st: ParseState) -> bool {
    st.count <= limits.spec_max_nodes() && st.depth <= limits.spec_max_depth()
}

pub open spec fn grows(a: ParseState, b: ParseState) -> bool {
    b.count >= a.count && b.depth >= a.depth
}

proof fn lemma_cover_row(
    s: Seq<char>,
    l1: MathParseLimits,
    l2: MathParseLimits,
    st: ParseState,
    terminator: Option<char>,
    depth: int,
)
    requires
        parse_row(s, l1, st, terminator, depth) is Ok,
        covers(l2, parse_row(s, l1, st, terminator, depth)->Ok_0.1),
    ensures
        parse_row(s, l2, st, terminator, depth) == parse_row(s, l1, st, terminator, depth),
        grows(st, parse_row(s, l1, st, terminator, depth)->Ok_0.1),
    decreases s.len() - st.pos, 5int,
{
    let st1 = charge(st, depth, l1)->Ok_0;
    lemma_cover_row_terms(s, l1, l2, st1, terminator, depth, Seq::empty());
    assert(charge(st, depth, l2) == Ok::<ParseState, crate::math_grammar::ParseFailure>(st1));
}

proof fn lemma_cover_row_terms(
    s: Seq<char>,
    l1: MathParseLimits,
    l2: MathParseLimits,
    st: ParseState,
    terminator: Option<char>,
    depth: int,
    terms: Seq<TermView>,
)
    requires
        parse_row_terms(s, l1, st, terminator, depth, terms) is Ok,
        covers(l2, parse_row_terms(s, l1, st, terminator, depth, terms)->Ok_0.1),
    ensures
        parse_row_terms(s, l2, st, terminator, depth, terms) == parse_row_terms(s, l1, st, terminator, depth, terms),
        grows(st, parse_row_terms(s, l1, st, terminator, depth, terms)->Ok_0.1),
    decreases s.len() - st.pos, 4int,
{
    if 0 <= st.pos <= s.len() {
        let q = space_end(s, st.pos);
        lemma_space_end(s, st.pos);
        if !(peek(s, q) == terminator || peek(s, q) is None) {
            let (term, st2) = parse_term(s, l1, at(st, q), depth + 1)->Ok_0;
            if !(st2.pos <= st.pos || st2.pos > s.len()) {
                lemma_cover_row_terms(s, l1, l2, st2, terminator, depth, terms.push(term));
                lemma_cover_term(s, l1, l2, at(st, q), depth + 1);
            }
        }
    }
}

proof fn lemma_cover_term(s: Seq<char>, l1: MathParseLimits, l2: MathParseLimits, st: ParseState, depth: int)
    requires
        parse_term(s, l1, st, depth) is Ok,
        covers(l2, parse_term(s, l1, st, depth)->Ok_0.1),
    ensures
        parse_term(s, l2, st, depth) == parse_term(s, l1, st, depth),
        grows(st, parse_term(s, l1, st, depth)->Ok_0.1),
    decreases s.len() - st.pos, 3int,
{
    let st1 = charge(st, depth, l1)->Ok_0;
    let (atom, st2) = parse_atom(s, l1, st1, depth + 1)->Ok_0;
    if !(st2.pos < st.pos || st2.pos > s.len()) {
        lemma_cover_scripts(s, l1, l2, st2, depth + 1, atom, None, None);
        lemma_cover_atom(s, l1, l2, st1, depth + 1);
    }
    assert(charge(st, depth, l2) == Ok::<ParseState, crate::math_grammar::ParseFailure>(st1));
}

proof fn lemma_cover_scripts(
    s: Seq<char>,
    l1: MathParseLimits,
    l2: MathParseLimits,
    st: ParseState,
    depth: int,
    atom: AtomView,
    subscript: Option<AtomView>,
    superscript: Option<AtomView>,
)
    requires
        parse_scripts(s, l1, st, depth, atom, subscript, superscript) is Ok,
        covers(l2, parse_scripts(s, l1, st, depth, atom, subscript, superscript)->Ok_0.1),
    ensures
        parse_scripts(s, l2, st, depth, atom, subscript, superscript) == parse_scripts(
            s,
            l1,
            st,
            depth,
            atom,
            subscript,
            superscript,
        ),
        grows(st, parse_scripts(s, l1, st, depth, atom, subscript, superscript)->Ok_0.1),
    decreases s.len() - st.pos, 2int,
{
    if 0 <= st.pos <= s.len() {
        let q = space_end(s, st.pos);
        lemma_space_end(s, st.pos);
        if peek(s, q) == Some('_') || peek(s, q) == Some('^') {
            let is_sub = peek(s, q) == Some('_');
            if !((is_sub && subscript is Some) || (!is_sub && superscript is Some)) {
                let r = space_end(s, q + 1);
                lemma_space_end(s, q + 1);
                let (script, st3) = parse_atom(s, l1, at(st, r), depth)->Ok_0;
                if !(st3.pos < r || st3.pos > s.len()) {
                    if is_sub {
                        lemma_cover_scripts(s, l1, l2, st3, depth, atom, Some(script), superscript);
                    } else {
                        lemma_cover_scripts(s, l1, l2, st3, depth, atom, subscript, Some(script));
                    }
                    lemma_cover_atom(s, l1, l2, at(st, r), depth);
                }
            }
        }
    }
}

proof fn lemma_cover_atom(s: Seq<char>, l1: MathParseLimits, l2: MathParseLimits, st: ParseState, depth: int)
    requires
        parse_atom(s, l1, st, depth) is Ok,
        covers(l2, parse_atom(s, l1, st, depth)->Ok_0.1),
    ensures
        parse_atom(s, l2, st, depth) == parse_atom(s, l1, st, depth),
        grows(st, parse_atom(s, l1, st, depth)->Ok_0.1),
    decreases s.len() - st.pos, 1int,
{
    let st1 = charge(st, depth, l1)->Ok_0;
    let p = st.pos;
    if 0 <= p < s.len() {
        let c = s[p];
        if c == '{' {
            lemma_cover_row(s, l1, l2, at(st1, p + 1), Some('}'), depth + 1);
        } else if c == '\\' {
            lemma_cover_command(s, l1, l2, st1, depth);
        }
    }
    assert(charge(st, depth, l2) == Ok::<ParseState, crate::math_grammar::ParseFailure>(st1));
}

proof fn lemma_cover_command(s: Seq<char>, l1: MathParseLimits, l2: MathParseLimits, st: ParseState, depth: int)
    requires
        parse_command(s, l1, st, depth) is Ok,
        covers(l2, parse_command(s, l1, st, depth)->Ok_0.1),
    ensures
        parse_command(s, l2, st, depth) == parse_command(s, l1, st, depth),
        grows(st, parse_command(s, l1, st, depth)->Ok_0.1),
    decreases s.len() - st.pos, 0int,
{
    let q = st.pos + 1;
    if 0 <= st.pos < s.len() {
        lemma_alpha_end(s, q);
        let e = crate::math_grammar::alpha_end(s, q);
        if e != q {
            let name = s.subrange(q, e);
            if name == crate::math_grammar::frac_name() {
                let (numerator, st2) = parse_group(s, l1, at(st, e), depth)->Ok_0;
                if !(st2.pos < e || st2.pos > s.len()) {
                    lemma_cover_group(s, l1, l2, st2, depth);
                    lemma_cover_group(s, l1, l2, at(st, e), depth);
                }
            } else if name == crate::math_grammar::sqrt_name() {
                lemma_cover_group(s, l1, l2, at(st, e), depth);
            }
        }
    }
}

proof fn lemma_cover_group(s: Seq<char>, l1: MathParseLimits, l2: MathParseLimits, st: ParseState, depth: int)
    requires
        parse_group(s, l1, st, depth) is Ok,
        covers(l2, parse_group(s, l1, st, depth)->Ok_0.1),
    ensures
        parse_group(s, l2, st, depth) == parse_group(s, l1, st, depth),
        grows(st, parse_group(s, l1, st, depth)->Ok_0.1),
    decreases s.len() - st.pos, 0int,
{
    let b = expect(s, st.pos, '{')->Ok_0;
    if 0 <= st.pos <= s.len() {
        lemma_space_end(s, st.pos);
    }
    if b > st.pos {
        lemma_cover_row(s, l1, l2, at(st, b), Some('}'), depth + 1);
    }
}

proof fn lemma_within_row(
    s: Seq<char>,
    l1: MathParseLimits,
    st: ParseState,
    terminator: Option<char>,
    depth: int,
)
    requires
        parse_row(s, l1, st, terminator, depth) is Ok,
        covers(l1, st),
    ensures
        covers(l1, parse_row(s, l1, st, terminator, depth)->Ok_0.1),
    decreases s.len() - st.pos, 5int,
{
    let st1 = charge(st, depth, l1)->Ok_0;
    lemma_within_row_terms(s, l1, st1, terminator, depth, Seq::empty());
}

proof fn lemma_within_row_terms(
    s: Seq<char>,
    l1: MathParseLimits,
    st: ParseState,
    terminator: Option<char>,
    depth: int,
    terms: Seq<TermView>,
)
    requires
        parse_row_terms(s, l1, st, terminator, depth, terms) is Ok,
        covers(l1, st),
    ensures
        covers(l1, parse_row_terms(s, l1, st, terminator, depth, terms)->Ok_0.1),
    decreases s.len() - st.pos, 4int,
{
    if 0 <= st.pos <= s.len() {
        let q = space_end(s, st.pos);
        lemma_space_end(s, st.pos);
        if !(peek(s, q) == terminator || peek(s, q) is None) {
            let (term, st2) = parse_term(s, l1, at(st, q), depth + 1)->Ok_0;
            if !(st2.pos <= st.pos || st2.pos > s.len()) {
                lemma_within_term(s, l1, at(st, q), depth + 1);
                lemma_within_row_terms(s, l1, st2, terminator, depth, terms.push(term));
            }
        }
    }
}

proof fn lemma_within_term(s: Seq<char>, l1: MathParseLimits, st: ParseState, depth: int)
    requires
        parse_term(s, l1, st, depth) is Ok,
        covers(l1, st),
    ensures
        covers(l1, parse_term(s, l1, st, depth)->Ok_0.1),
    decreases s.len() - st.pos, 3int,
{
    let st1 = charge(st, depth, l1)->Ok_0;
    let (atom, st2) = parse_atom(s, l1, st1, depth + 1)->Ok_0;
    if !(st2.pos < st.pos || st2.pos > s.len()) {
        lemma_within_atom(s, l1, st1, depth + 1);
        lemma_within_scripts(s, l1, st2, depth + 1, atom, None, None);
    }
}

proof fn lemma_within_scripts(
    s: Seq<char>,
    l1: MathParseLimits,
    st: ParseState,
    depth: int,
    atom: AtomView,
    subscript: Option<AtomView>,
    superscript: Option<AtomView>,
)
    requires
        parse_scripts(s, l1, st, depth, atom, subscript, superscript) is Ok,
        covers(l1, st),
    ensures
        covers(l1, parse_scripts(s, l1, st, depth, atom, subscript, superscript)->Ok_0.1),
    decreases s.len() - st.pos, 2int,
{
    if 0 <= st.pos <= s.len() {
        let q = space_end(s, st.pos);
        lemma_space_end(s, st.pos);
        if peek(s, q) == Some('_') || peek(s, q) == Some('^') {
            let is_sub = peek(s, q) == Some('_');
            if !((is_sub && subscript is Some) || (!is_sub && superscript is Some)) {
                let r = space_end(s, q + 1);
                lemma_space_end(s, q + 1);
                let (script, st3) = parse_atom(s, l1, at(st, r), depth)->Ok_0;
                if !(st3.pos < r || st3.pos > s.len()) {
                    lemma_within_atom(s, l1, at(st, r), depth);
                    if is_sub {
                        lemma_within_scripts(s, l1, st3, depth, atom, Some(script), superscript);
                    } else {
                        lemma_within_scripts(s, l1, st3, depth, atom, subscript, Some(script));
                    }
                }
            }
        }
    }
}

proof fn lemma_within_atom(s: Seq<char>, l1: MathParseLimits, st: ParseState, depth: int)
    requires
        parse_atom(s, l1, st, depth) is Ok,
        covers(l1, st),
    ensures
        covers(l1, parse_atom(s, l1, st, depth)->Ok_0.1),
    decreases s.len() - st.pos, 1int,
{
    let st1 = charge(st, depth, l1)->Ok_0;
    let p = st.pos;
    if 0 <= p < s.len() {
        let c = s[p];
        if c == '{' {
            lemma_within_row(s, l1, at(st1, p + 1), Some('}'), depth + 1);
        } else if c == '\\' {
            lemma_within_command(s, l1, st1, depth);
        }
    }
}

proof fn lemma_within_command(s: Seq<char>, l1: MathParseLimits, st: ParseState, depth: int)
    requires
        parse_command(s, l1, st, depth) is Ok,
        covers(l1, st),
    ensures
        covers(l1, parse_command(s, l1, st, depth)->Ok_0.1),
    decreases s.len() - st.pos, 0int,
{
    let q = st.pos + 1;
    if 0 <= st.pos < s.len() {
        lemma_alpha_end(s, q);
        let e = crate::math_grammar::alpha_end(s, q);
        if e != q {
            let name = s.subrange(q, e);
            if name == crate::math_grammar::frac_name() {
                let (numerator, st2) = parse_group(s, l1, at(st, e), depth)->Ok_0;
                if !(st2.pos < e || st2.pos > s.len()) {
                    lemma_within_group(s, l1, at(st, e), depth);
                    lemma_within_group(s, l1, st2, depth);
                }
            } else if name == crate::math_grammar::sqrt_name() {
                lemma_within_group(s, l1, at(st, e), depth);
            }
        }
    }
}

proof fn lemma_within_group(s: Seq<char>, l1: MathParseLimits, st: ParseState, depth: int)
    requires
        parse_group(s, l1, st, depth) is Ok,
        covers(l1, st),
    ensures
        covers(l1, parse_group(s, l1, st, depth)->Ok_0.1),
    decreases s.len() - st.pos, 0int,
{
    let b = expect(s, st.pos, '{')->Ok_0;
    if 0 <= st.pos <= s.len() {
        lemma_space_end(s, st.pos);
    }
    if b > st.pos {
        lemma_within_row(s, l1, at(st, b), Some('}'), depth + 1);
    }
}

/// A parse charges at least a row, a term and an atom, three levels deep,
/// and never more nodes or depth than its limits admit; the parse of the
/// source succeeds again, unchanged, under exactly the nodes and depth it
/// used.
pub proof fn lemma_parse_accounting_bounds(s: Seq<char>, l: MathParseLimits, exact: MathParseLimits)
    requires
        checked_parse(s, l) is Ok,
        exact.spec_max_nodes() == checked_parse(s, l)->Ok_0.1.count,
        exact.spec_max_depth() == checked_parse(s, l)->Ok_0.1.depth,
    ensures
        3 <= checked_parse(s, l)->Ok_0.1.count <= l.spec_max_nodes(),
        3 <= checked_parse(s, l)->Ok_0.1.depth <= l.spec_max_depth(),
        checked_parse(s, exact) == checked_parse(s, l),
{
    let init = ParseState { pos: 0, count: 0, depth: 0 };
    lemma_within_row(s, l, init, None, 1);
    lemma_charge_row(s, l, init, None, 1);
    let (root, st) = parse_row(s, l, init, None, 1)->Ok_0;
    lemma_row_at_least_three(s, l, init, None, 1);
    lemma_parse_limits_inclusive(s, l, exact);
}

proof fn lemma_row_at_least_three(
    s: Seq<char>,
    l: MathParseLimits,
    st: ParseState,
    terminator: Option<char>,
    depth: int,
)
    requires
        parse_row(s, l, st, terminator, depth) is Ok,
    ensures
        parse_row(s, l, st, terminator, depth)->Ok_0.0.len() > 0,
{
    let st1 = charge(st, depth, l)->Ok_0;
    lemma_row_terms_nonempty(s, l, st1, terminator, depth, Seq::empty());
}

proof fn lemma_row_terms_nonempty(
    s: Seq<char>,
    l: MathParseLimits,
    st: ParseState,
    terminator: Option<char>,
    depth: int,
    terms: Seq<TermView>,
)
    requires
        parse_row_terms(s, l, st, terminator, depth, terms) is Ok,
    ensures
        parse_row_terms(s, l, st, terminator, depth, terms)->Ok_0.0.len() > 0,
    decreases s.len() - st.pos,
{
    if 0 <= st.pos <= s.len() {
        let q = space_end(s, st.pos);
        lemma_space_end(s, st.pos);
        if !(peek(s, q) == terminator || peek(s, q) is None) {
            let (term, st2) = parse_term(s, l, at(st, q), depth + 1)->Ok_0;
            if !(st2.pos <= st.pos || st2.pos > s.len()) {
                lemma_row_terms_nonempty(s, l, st2, terminator, depth, terms.push(term));
            }
        }
    }
}

/// The node and depth limits are inclusive: a source that parses under some
/// limits parses, to the same AST and accounting, under any limits that
/// admit the nodes it charged and the depth it reached, the exact ones
/// among them.
pub proof fn lemma_parse_limits_inclusive(s: Seq<char>, l1: MathParseLimits, l2: MathParseLimits)
    requires
        checked_parse(s, l1) is Ok,
        covers(l2, checked_parse(s, l1)->Ok_0.1),
    ensures
        checked_parse(s, l2) == checked_parse(s, l1),
{
    lemma_cover_row(s, l1, l2, ParseState { pos: 0, count: 0, depth: 0 }, None, 1);
    assert(parse_source(s, l2) == parse_source(s, l1));
}

/// What `parse_math_source` decides is the same under any limits that
/// admit both the parse of the source and the parse of its canonical
/// source under the first limits.
pub proof fn lemma_parse_outcome_limits_inclusive(s: Seq<char>, l1: MathParseLimits, l2: MathParseLimits)
    requires
        parse_outcome(s, l1) is Ok,
        covers(l2, checked_parse(s, l1)->Ok_0.1),
        covers(l2, checked_parse(crate::math_ast::canonical_row(checked_parse(s, l1)->Ok_0.0), l1)->Ok_0.1),
    ensures
        parse_outcome(s, l2) == parse_outcome(s, l1),
{
    lemma_parse_limits_inclusive(s, l1, l2);
    lemma_parse_limits_inclusive(crate::math_ast::canonical_row(checked_parse(s, l1)->Ok_0.0), l1, l2);
}

} // verus!
