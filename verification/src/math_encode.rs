//! Canonical JSON of the math AST and the accounting of its nodes and depth.
use vstd::prelude::*;
use crate::math_ast::{Atom, AtomView, Row, Term, TermView};
use crate::math_source::MATH_AST_FINGERPRINT_ID;
use crate::text::{json_string, push_json_chars, push_json_str};

verus! {

/// JSON object of a token atom.
pub open spec fn encoded_token(kind: Seq<char>, value: Seq<char>) -> Seq<char> {
    "{\"kind\":"@ + json_string(kind) + ",\"value\":"@ + json_string(value) + "}"@
}

pub open spec fn encoded_atom(a: AtomView) -> Seq<char>
    decreases a,
{
    match a {
        AtomView::Identifier(v) => encoded_token("identifier"@, v),
        AtomView::Number(v) => encoded_token("number"@, v),
        AtomView::Symbol(c) => encoded_token("symbol"@, seq![c]),
        AtomView::Group(r) => "{\"kind\":\"group\",\"row\":"@ + ("{\"kind\":\"row\",\"terms\":["@
            + encoded_terms(r) + "]}"@) + "}"@,
        AtomView::Fraction(n, d) => "{\"denominator\":"@ + ("{\"kind\":\"row\",\"terms\":["@
            + encoded_terms(d) + "]}"@) + ",\"kind\":\"fraction\",\"numerator\":"@ + (
        "{\"kind\":\"row\",\"terms\":["@ + encoded_terms(n) + "]}"@) + "}"@,
        AtomView::Radical(r) => "{\"kind\":\"radical\",\"radicand\":"@ + (
        "{\"kind\":\"row\",\"terms\":["@ + encoded_terms(r) + "]}"@) + "}"@,
        AtomView::Operator(v) => encoded_token("operator"@, v),
    }
}

pub open spec fn encoded_term(t: TermView) -> Seq<char>
    decreases t,
{
    "{\"atom\":"@ + encoded_atom(t.atom) + ",\"kind\":\"term\",\"subscript\":"@ + match t.subscript {
        Some(a) => encoded_atom(a),
        None => "null"@,
    } + ",\"superscript\":"@ + match t.superscript {
        Some(a) => encoded_atom(a),
        None => "null"@,
    } + "}"@
}

/// Comma-separated term objects.
pub open spec fn encoded_terms(terms: Seq<TermView>) -> Seq<char>
    decreases terms,
{
    if terms.len() == 0 {
        Seq::empty()
    } else {
        encoded_terms(terms.subrange(0, terms.len() - 1)) + (if terms.len() > 1 {
            ","@
        } else {
            Seq::empty()
        }) + encoded_term(terms[terms.len() - 1])
    }
}

pub open spec fn encoded_row(terms: Seq<TermView>) -> Seq<char> {
    "{\"kind\":\"row\",\"terms\":["@ + encoded_terms(terms) + "]}"@
}

/// The AST fingerprint preimage.
pub open spec fn encoded_ast(root: Seq<TermView>) -> Seq<char> {
    "{\"algorithm\":"@ + json_string(MATH_AST_FINGERPRINT_ID@) + ",\"root\":"@ + encoded_row(root)
        + "}"@
}

proof fn lemma_encoded_terms_step(terms: Seq<TermView>, i: int)
    requires
        0 <= i < terms.len(),
    ensures
        encoded_terms(terms.take(i + 1)) == encoded_terms(terms.take(i)) + (if i > 0 {
            ","@
        } else {
            Seq::empty()
        }) + encoded_term(terms[i]),
{
    let t = terms.take(i + 1);
    assert(t.subrange(0, t.len() - 1) =~= terms.take(i));
}

fn encode_token_atom(kind: &str, value: &Vec<char>, output: &mut String)
    ensures
        final(output)@ == old(output)@ + encoded_token(kind@, value@),
{
    output.append("{\"kind\":");
    push_json_str(output, kind);
    output.append(",\"value\":");
    push_json_chars(output, value);
    output.append("}");
    assert(output@ =~= old(output)@ + encoded_token(kind@, value@));
}

fn encode_atom(atom: &Atom, output: &mut String)
    ensures
        final(output)@ == old(output)@ + encoded_atom(atom.view()),
    decreases atom,
{
    match atom {
        Atom::Identifier(value) => encode_token_atom("identifier", value, output),
        Atom::Number(value) => encode_token_atom("number", value, output),
        Atom::Symbol(c) => {
            let mut value: Vec<char> = Vec::new();
            value.push(*c);
            assert(value@ =~= seq![*c]);
            encode_token_atom("symbol", &value, output);
        },
        Atom::Group(row) => {
            output.append("{\"kind\":\"group\",\"row\":");
            encode_row(row, output);
            output.append("}");
            assert(output@ =~= old(output)@ + encoded_atom(atom.view()));
        },
        Atom::Fraction { numerator, denominator } => {
            output.append("{\"denominator\":");
            encode_row(denominator, output);
            output.append(",\"kind\":\"fraction\",\"numerator\":");
            encode_row(numerator, output);
            output.append("}");
            assert(output@ =~= old(output)@ + encoded_atom(atom.view()));
        },
        Atom::Radical(row) => {
            output.append("{\"kind\":\"radical\",\"radicand\":");
            encode_row(row, output);
            output.append("}");
            assert(output@ =~= old(output)@ + encoded_atom(atom.view()));
        },
        Atom::Operator(value) => encode_token_atom("operator", value, output),
    }
}

fn encode_term(term: &Term, output: &mut String)
    ensures
        final(output)@ == old(output)@ + encoded_term(term.view()),
    decreases term,
{
    output.append("{\"atom\":");
    encode_atom(&term.atom, output);
    output.append(",\"kind\":\"term\",\"subscript\":");
    match &term.subscript {
        Some(atom) => encode_atom(atom, output),
        None => output.append("null"),
    }
    output.append(",\"superscript\":");
    match &term.superscript {
        Some(atom) => encode_atom(atom, output),
        None => output.append("null"),
    }
    output.append("}");
    assert(output@ =~= old(output)@ + encoded_term(term.view()));
}

pub(crate) fn encode_row(row: &Row, output: &mut String)
    ensures
        final(output)@ == old(output)@ + encoded_row(row.view()),
    decreases row,
{
    let ghost view = row.view();
    assert(view.len() == row.terms@.len());
    output.append("{\"kind\":\"row\",\"terms\":[");
    let ghost start = output@;
    let mut index: usize = 0;
    assert(view.take(0) =~= Seq::<TermView>::empty());
    while index < row.terms.len()
        invariant
            0 <= index <= row.terms@.len(),
            view == row.view(),
            view.len() == row.terms@.len(),
            forall|i: int| 0 <= i < row.terms@.len() ==> #[trigger] view[i] == row.terms@[i].view(),
            output@ == start + encoded_terms(view.take(index as int)),
        decreases row.terms.len() - index,
    {
        proof {
            lemma_encoded_terms_step(view, index as int);
        }
        if index > 0 {
            output.append(",");
        }
        encode_term(&row.terms[index], output);
        assert(output@ =~= start + encoded_terms(view.take(index as int + 1)));
        index = index + 1;
    }
    assert(view.take(row.terms@.len() as int) =~= view);
    output.append("]}");
    assert(output@ =~= old(output)@ + encoded_row(row.view()));
}

pub(crate) fn encode_ast(root: &Row) -> (jcs: String)
    ensures
        jcs@ == encoded_ast(root.view()),
{
    let mut output = String::new();
    output.append("{\"algorithm\":");
    push_json_str(&mut output, MATH_AST_FINGERPRINT_ID);
    output.append(",\"root\":");
    encode_row(root, &mut output);
    output.append("}");
    assert(output@ =~= encoded_ast(root.view()));
    output
}

} // verus!

verus! {

pub open spec fn atom_nodes(a: AtomView) -> nat
    decreases a,
{
    1 + match a {
        AtomView::Group(r) => 1 + terms_nodes(r),
        AtomView::Radical(r) => 1 + terms_nodes(r),
        AtomView::Fraction(n, d) => 1 + terms_nodes(n) + 1 + terms_nodes(d),
        _ => 0,
    }
}

pub open spec fn term_nodes(t: TermView) -> nat
    decreases t,
{
    1 + atom_nodes(t.atom) + match t.subscript {
        Some(a) => atom_nodes(a),
        None => 0,
    } + match t.superscript {
        Some(a) => atom_nodes(a),
        None => 0,
    }
}

pub open spec fn terms_nodes(terms: Seq<TermView>) -> nat
    decreases terms,
{
    if terms.len() == 0 {
        0
    } else {
        terms_nodes(terms.subrange(0, terms.len() - 1)) + term_nodes(terms[terms.len() - 1])
    }
}

/// Number of AST nodes of a row: the row, each term, each atom and script.
pub open spec fn row_nodes(terms: Seq<TermView>) -> nat {
    1 + terms_nodes(terms)
}

pub open spec fn max_nat(a: nat, b: nat) -> nat {
    if a >= b {
        a
    } else {
        b
    }
}

pub open spec fn atom_height(a: AtomView) -> nat
    decreases a,
{
    1 + match a {
        AtomView::Group(r) => 1 + terms_height(r),
        AtomView::Radical(r) => 1 + terms_height(r),
        AtomView::Fraction(n, d) => 1 + max_nat(terms_height(n), terms_height(d)),
        _ => 0,
    }
}

pub open spec fn term_height(t: TermView) -> nat
    decreases t,
{
    1 + max_nat(
        atom_height(t.atom),
        max_nat(
            match t.subscript {
                Some(a) => atom_height(a),
                None => 0,
            },
            match t.superscript {
                Some(a) => atom_height(a),
                None => 0,
            },
        ),
    )
}

pub open spec fn terms_height(terms: Seq<TermView>) -> nat
    decreases terms,
{
    if terms.len() == 0 {
        0
    } else {
        max_nat(
            terms_height(terms.subrange(0, terms.len() - 1)),
            term_height(terms[terms.len() - 1]),
        )
    }
}

/// Depth of the deepest node of a row placed at depth one.
pub open spec fn row_height(terms: Seq<TermView>) -> nat {
    1 + terms_height(terms)
}

/// The accounting walk of a subtree with `nodes` nodes and `height` levels,
/// entered at `depth`, succeeds exactly when neither the count nor the depth
/// arithmetic overflows, and then adds the nodes and raises the maximum depth.
pub open spec fn measured(
    old_count: u64,
    old_max: u32,
    depth: u32,
    nodes: nat,
    height: nat,
    ok: bool,
    count: u64,
    max_depth: u32,
) -> bool {
    &&& ok <==> (old_count + nodes <= u64::MAX && depth + height <= u32::MAX)
    &&& ok ==> count == old_count + nodes && max_depth == if old_max >= depth + height - 1 {
        old_max as int
    } else {
        depth + height - 1
    }
}

proof fn lemma_terms_prefix_bounds(terms: Seq<TermView>, j: int)
    requires
        0 <= j <= terms.len(),
    ensures
        terms_nodes(terms.take(j)) <= terms_nodes(terms),
        terms_height(terms.take(j)) <= terms_height(terms),
    decreases terms.len() - j,
{
    if j < terms.len() {
        lemma_terms_prefix_bounds(terms, j + 1);
        let t = terms.take(j + 1);
        assert(t.subrange(0, t.len() - 1) =~= terms.take(j));
    } else {
        assert(terms.take(j) =~= terms);
    }
}

proof fn lemma_terms_measure_step(terms: Seq<TermView>, i: int)
    requires
        0 <= i < terms.len(),
    ensures
        terms_nodes(terms.take(i + 1)) == terms_nodes(terms.take(i)) + term_nodes(terms[i]),
        terms_height(terms.take(i + 1)) == max_nat(terms_height(terms.take(i)), term_height(terms[i])),
{
    let t = terms.take(i + 1);
    assert(t.subrange(0, t.len() - 1) =~= terms.take(i));
}

fn charge_node(count: &mut u64, maximum_depth: &mut u32, depth: u32) -> (ok: bool)
    ensures
        ok <==> old(count) + 1 <= u64::MAX,
        ok ==> *final(count) == *old(count) + 1 && *final(maximum_depth) == if *old(maximum_depth)
            >= depth {
            *old(maximum_depth)
        } else {
            depth
        },
{
    if *count == u64::MAX {
        return false;
    }
    *count = *count + 1;
    if depth > *maximum_depth {
        *maximum_depth = depth;
    }
    true
}

fn measure_row(value: &Row, depth: u32, count: &mut u64, maximum_depth: &mut u32) -> (ok: bool)
    ensures
        measured(
            *old(count),
            *old(maximum_depth),
            depth,
            row_nodes(value.view()),
            row_height(value.view()),
            ok,
            *final(count),
            *final(maximum_depth),
        ),
    decreases value,
{
    let ghost view = value.view();
    let ghost c0 = *count;
    let ghost m0 = *maximum_depth;
    proof {
        lemma_terms_prefix_bounds(view, 0);
    }
    if !charge_node(count, maximum_depth, depth) {
        return false;
    }
    if depth == u32::MAX {
        return false;
    }
    let child_depth = depth + 1;
    let mut index: usize = 0;
    assert(view.take(0) =~= Seq::<TermView>::empty());
    while index < value.terms.len()
        invariant
            0 <= index <= value.terms@.len(),
            view == value.view(),
            view.len() == value.terms@.len(),
            forall|i: int| 0 <= i < value.terms@.len() ==> #[trigger] view[i] == value.terms@[i].view(),
            child_depth == depth + 1,
            *count == c0 + 1 + terms_nodes(view.take(index as int)),
            *maximum_depth == max_nat(
                max_nat(m0 as nat, depth as nat),
                (child_depth + terms_height(view.take(index as int)) - 1) as nat,
            ),
            c0 + 1 <= u64::MAX,
            c0 == *old(count),
            m0 == *old(maximum_depth),
            child_depth + terms_height(view.take(index as int)) <= u32::MAX,
        decreases value.terms.len() - index,
    {
        proof {
            lemma_terms_measure_step(view, index as int);
            lemma_terms_prefix_bounds(view, index as int + 1);
        }
        assert(view[index as int] == value.terms@[index as int].view());
        let ghost before_count = *count;
        let ghost before_max = *maximum_depth;
        let ok = measure_term(&value.terms[index], child_depth, count, maximum_depth);
        if !ok {
            assert(terms_nodes(view.take(index as int + 1)) <= terms_nodes(view));
            assert(terms_height(view.take(index as int + 1)) <= terms_height(view));
            assert(term_height(view[index as int]) <= terms_height(view.take(index as int + 1)));
            return false;
        }
        index = index + 1;
    }
    assert(view.take(value.terms@.len() as int) =~= view);
    assert(terms_height(view.take(value.terms@.len() as int)) == terms_height(view));
    true
}

fn measure_term(value: &Term, depth: u32, count: &mut u64, maximum_depth: &mut u32) -> (ok: bool)
    ensures
        measured(
            *old(count),
            *old(maximum_depth),
            depth,
            term_nodes(value.view()),
            term_height(value.view()),
            ok,
            *final(count),
            *final(maximum_depth),
        ),
    decreases value,
{
    if !charge_node(count, maximum_depth, depth) {
        return false;
    }
    if depth == u32::MAX {
        return false;
    }
    let atom_depth = depth + 1;
    let ghost v = value.view();
    let ghost sub_nodes: nat = match v.subscript {
        Some(a) => atom_nodes(a),
        None => 0,
    };
    let ghost sup_nodes: nat = match v.superscript {
        Some(a) => atom_nodes(a),
        None => 0,
    };
    let ghost sub_height: nat = match v.subscript {
        Some(a) => atom_height(a),
        None => 0,
    };
    let ghost sup_height: nat = match v.superscript {
        Some(a) => atom_height(a),
        None => 0,
    };
    assert(term_nodes(v) == 1 + atom_nodes(v.atom) + sub_nodes + sup_nodes);
    assert(term_height(v) == 1 + max_nat(atom_height(v.atom), max_nat(sub_height, sup_height)));
    assert(v.atom == value.atom.view());
    assert(value.subscript matches Some(a) ==> v.subscript == Some(a.view()));
    assert(value.superscript matches Some(a) ==> v.superscript == Some(a.view()));
    if !measure_atom(&value.atom, atom_depth, count, maximum_depth) {
        return false;
    }
    match &value.subscript {
        Some(atom) => {
            if !measure_atom(atom, atom_depth, count, maximum_depth) {
                return false;
            }
        },
        None => {},
    }
    match &value.superscript {
        Some(atom) => {
            if !measure_atom(atom, atom_depth, count, maximum_depth) {
                return false;
            }
        },
        None => {},
    }
    true
}

fn measure_atom(value: &Atom, depth: u32, count: &mut u64, maximum_depth: &mut u32) -> (ok: bool)
    ensures
        measured(
            *old(count),
            *old(maximum_depth),
            depth,
            atom_nodes(value.view()),
            atom_height(value.view()),
            ok,
            *final(count),
            *final(maximum_depth),
        ),
    decreases value,
{
    if !charge_node(count, maximum_depth, depth) {
        return false;
    }
    if depth == u32::MAX {
        return false;
    }
    let child_depth = depth + 1;
    match value {
        Atom::Group(row) => measure_row(row, child_depth, count, maximum_depth),
        Atom::Radical(row) => measure_row(row, child_depth, count, maximum_depth),
        Atom::Fraction { numerator, denominator } => {
            if !measure_row(numerator, child_depth, count, maximum_depth) {
                return false;
            }
            measure_row(denominator, child_depth, count, maximum_depth)
        },
        _ => true,
    }
}

/// Recount the nodes and the depth of an AST whose root row is at depth one.
/// Refused (as a receipt mismatch) exactly when the count does not fit `u64`
/// or the depth arithmetic would leave `u32`.
pub(crate) fn measure_ast(root: &Row) -> (result: Option<(u64, u32)>)
    ensures
        result is Some <==> (row_nodes(root.view()) <= u64::MAX && row_height(root.view())
            < u32::MAX),
        result matches Some((count, depth)) ==> count == row_nodes(root.view()) && depth
            == row_height(root.view()),
{
    let mut count: u64 = 0;
    let mut maximum_depth: u32 = 0;
    if measure_row(root, 1, &mut count, &mut maximum_depth) {
        Some((count, maximum_depth))
    } else {
        None
    }
}

} // verus!
