//! Layout work accounting: the boxes and paint commands a parsed formula
//! will issue, the exact units to reserve before layout, and the budget that
//! layout charges against.
use vstd::prelude::*;
use crate::math_arith::{Checked, MathComputationError};
use crate::math_ast::{Atom, AtomView, Row, Term, TermView};
use crate::math_encode::row_nodes;
use crate::math_receipt::ParsedMathReceipt;
use crate::math_source::MathNodeKind;

verus! {

/// Layout boxes an atom issues: one per token or symbol, one per group
/// around its row, one per fraction and two per radical, plus the boxes of
/// nested rows (each row one box plus its terms).
pub open spec fn atom_boxes(a: AtomView) -> nat
    decreases a,
{
    match a {
        AtomView::Group(r) => 2 + terms_boxes(r),
        AtomView::Fraction(n, d) => 3 + terms_boxes(n) + terms_boxes(d),
        AtomView::Radical(r) => 3 + terms_boxes(r),
        _ => 1,
    }
}

/// Paint commands an atom issues: one glyph per token character, one per
/// symbol, a rule per fraction, a glyph and a rule per radical.
pub open spec fn atom_paints(a: AtomView) -> nat
    decreases a,
{
    match a {
        AtomView::Identifier(v) => v.len(),
        AtomView::Number(v) => v.len(),
        AtomView::Operator(v) => v.len(),
        AtomView::Symbol(_) => 1,
        AtomView::Group(r) => terms_paints(r),
        AtomView::Fraction(n, d) => 1 + terms_paints(n) + terms_paints(d),
        AtomView::Radical(r) => 2 + terms_paints(r),
    }
}

pub open spec fn option_boxes(a: Option<AtomView>) -> nat
    decreases a,
{
    match a {
        Some(v) => atom_boxes(v),
        None => 0,
    }
}

pub open spec fn option_paints(a: Option<AtomView>) -> nat
    decreases a,
{
    match a {
        Some(v) => atom_paints(v),
        None => 0,
    }
}

pub open spec fn term_boxes(t: TermView) -> nat
    decreases t,
{
    1 + atom_boxes(t.atom) + option_boxes(t.subscript) + option_boxes(t.superscript)
}

pub open spec fn term_paints(t: TermView) -> nat
    decreases t,
{
    atom_paints(t.atom) + option_paints(t.subscript) + option_paints(t.superscript)
}

pub open spec fn terms_boxes(terms: Seq<TermView>) -> nat
    decreases terms,
{
    if terms.len() == 0 {
        0
    } else {
        terms_boxes(terms.subrange(0, terms.len() - 1)) + term_boxes(terms[terms.len() - 1])
    }
}

pub open spec fn terms_paints(terms: Seq<TermView>) -> nat
    decreases terms,
{
    if terms.len() == 0 {
        0
    } else {
        terms_paints(terms.subrange(0, terms.len() - 1)) + term_paints(terms[terms.len() - 1])
    }
}

/// Boxes of a row: its own box and those of its terms.
pub open spec fn row_boxes(terms: Seq<TermView>) -> nat {
    1 + terms_boxes(terms)
}

/// Paint commands of a row.
pub open spec fn row_paints(terms: Seq<TermView>) -> nat {
    terms_paints(terms)
}

/// Layout units a formula needs: its AST nodes, its boxes and its paints.
pub open spec fn required_units(root: Seq<TermView>) -> nat {
    row_nodes(root) + row_boxes(root) + row_paints(root)
}

/// What `required_math_layout_units` answers for a parsed receipt.
pub open spec fn required_units_result(parsed: ParsedMathReceipt) -> Checked<u64> {
    if !parsed.consistent() {
        Err(MathComputationError::ParsedReceipt)
    } else if required_units(parsed.spec_ast()) > u64::MAX {
        Err(MathComputationError::LayoutUnitLimit)
    } else {
        Ok(required_units(parsed.spec_ast()) as u64)
    }
}

proof fn lemma_terms_prefix(terms: Seq<TermView>, j: int)
    requires
        0 <= j <= terms.len(),
    ensures
        terms_boxes(terms.take(j)) <= terms_boxes(terms),
        terms_paints(terms.take(j)) <= terms_paints(terms),
    decreases terms.len() - j,
{
    if j < terms.len() {
        lemma_terms_prefix(terms, j + 1);
        let t = terms.take(j + 1);
        assert(t.subrange(0, t.len() - 1) =~= terms.take(j));
    } else {
        assert(terms.take(j) =~= terms);
    }
}

proof fn lemma_terms_step(terms: Seq<TermView>, i: int)
    requires
        0 <= i < terms.len(),
    ensures
        terms_boxes(terms.take(i + 1)) == terms_boxes(terms.take(i)) + term_boxes(terms[i]),
        terms_paints(terms.take(i + 1)) == terms_paints(terms.take(i)) + term_paints(terms[i]),
{
    let t = terms.take(i + 1);
    assert(t.subrange(0, t.len() - 1) =~= terms.take(i));
}

/// Boxes and paint commands counted before layout.
#[derive(Clone, Copy)]
pub(crate) struct LayoutWorkPreflight {
    pub(crate) boxes: u64,
    pub(crate) paints: u64,
}

/// The counting pass of a subtree with `boxes` boxes and `paints` paints
/// answers their exact counts, or a layout unit limit exactly when one of
/// them does not fit `u64`.
pub(crate) open spec fn preflighted(r: Checked<LayoutWorkPreflight>, boxes: nat, paints: nat) -> bool {
    &&& r is Ok <==> (boxes <= u64::MAX && paints <= u64::MAX)
    &&& r matches Ok(p) ==> p.boxes == boxes && p.paints == paints
    &&& r matches Err(e) ==> e == MathComputationError::LayoutUnitLimit
}

impl LayoutWorkPreflight {
    pub(crate) fn zero() -> (work: Self)
        ensures
            work.boxes == 0 && work.paints == 0,
    {
        LayoutWorkPreflight { boxes: 0, paints: 0 }
    }

    /// Field-wise sum, refused as a layout unit limit when either overflows.
    pub(crate) fn add(self, other: Self) -> (r: Checked<Self>)
        ensures
            preflighted(r, (self.boxes + other.boxes) as nat, (self.paints + other.paints) as nat),
    {
        let boxes = match self.boxes.checked_add(other.boxes) {
            Some(v) => v,
            None => return Err(MathComputationError::LayoutUnitLimit),
        };
        let paints = match self.paints.checked_add(other.paints) {
            Some(v) => v,
            None => return Err(MathComputationError::LayoutUnitLimit),
        };
        Ok(LayoutWorkPreflight { boxes, paints })
    }
}

fn preflight_row(value: &Row) -> (r: Checked<LayoutWorkPreflight>)
    ensures
        preflighted(r, row_boxes(value.view()), row_paints(value.view())),
    decreases value,
{
    let ghost view = value.view();
    proof {
        lemma_terms_prefix(view, 0);
    }
    let mut result = LayoutWorkPreflight { boxes: 1, paints: 0 };
    let mut index: usize = 0;
    assert(view.take(0) =~= Seq::<TermView>::empty());
    while index < value.terms.len()
        invariant
            0 <= index <= value.terms@.len(),
            view == value.view(),
            view.len() == value.terms@.len(),
            forall|i: int| 0 <= i < value.terms@.len() ==> #[trigger] view[i] == value.terms@[i].view(),
            result.boxes == 1 + terms_boxes(view.take(index as int)),
            result.paints == terms_paints(view.take(index as int)),
        decreases value.terms.len() - index,
    {
        proof {
            lemma_terms_step(view, index as int);
            lemma_terms_prefix(view, index as int + 1);
        }
        assert(view[index as int] == value.terms@[index as int].view());
        let item = match preflight_term(&value.terms[index]) {
            Ok(item) => item,
            Err(e) => return Err(e),
        };
        result = match result.add(item) {
            Ok(next) => next,
            Err(e) => return Err(e),
        };
        index = index + 1;
    }
    assert(view.take(value.terms@.len() as int) =~= view);
    Ok(result)
}

fn preflight_term(value: &Term) -> (r: Checked<LayoutWorkPreflight>)
    ensures
        preflighted(r, term_boxes(value.view()), term_paints(value.view())),
    decreases value,
{
    let ghost v = value.view();
    assert(v.atom == value.atom.view());
    assert(value.subscript matches Some(a) ==> v.subscript == Some(a.view()));
    assert(value.superscript matches Some(a) ==> v.superscript == Some(a.view()));
    assert(value.subscript is None ==> v.subscript is None);
    assert(value.superscript is None ==> v.superscript is None);
    let own = LayoutWorkPreflight { boxes: 1, paints: 0 };
    let atom = match preflight_atom(&value.atom) {
        Ok(atom) => atom,
        Err(e) => return Err(e),
    };
    let mut result = match own.add(atom) {
        Ok(next) => next,
        Err(e) => return Err(e),
    };
    match &value.subscript {
        Some(script) => {
            let item = match preflight_atom(script) {
                Ok(item) => item,
                Err(e) => return Err(e),
            };
            result = match result.add(item) {
                Ok(next) => next,
                Err(e) => return Err(e),
            };
        },
        None => {},
    }
    match &value.superscript {
        Some(script) => {
            let item = match preflight_atom(script) {
                Ok(item) => item,
                Err(e) => return Err(e),
            };
            result = match result.add(item) {
                Ok(next) => next,
                Err(e) => return Err(e),
            };
        },
        None => {},
    }
    Ok(result)
}

fn preflight_atom(value: &Atom) -> (r: Checked<LayoutWorkPreflight>)
    ensures
        preflighted(r, atom_boxes(value.view()), atom_paints(value.view())),
    decreases value,
{
    match value {
        Atom::Identifier(text) => Ok(LayoutWorkPreflight { boxes: 1, paints: text.len() as u64 }),
        Atom::Number(text) => Ok(LayoutWorkPreflight { boxes: 1, paints: text.len() as u64 }),
        Atom::Operator(text) => Ok(LayoutWorkPreflight { boxes: 1, paints: text.len() as u64 }),
        Atom::Symbol(_) => Ok(LayoutWorkPreflight { boxes: 1, paints: 1 }),
        Atom::Group(row) => {
            let inner = match preflight_row(row) {
                Ok(inner) => inner,
                Err(e) => return Err(e),
            };
            LayoutWorkPreflight { boxes: 1, paints: 0 }.add(inner)
        },
        Atom::Fraction { numerator, denominator } => {
            let top = match preflight_row(numerator) {
                Ok(top) => top,
                Err(e) => return Err(e),
            };
            let bottom = match preflight_row(denominator) {
                Ok(bottom) => bottom,
                Err(e) => return Err(e),
            };
            let partial = match (LayoutWorkPreflight { boxes: 1, paints: 1 }).add(top) {
                Ok(partial) => partial,
                Err(e) => return Err(e),
            };
            partial.add(bottom)
        },
        Atom::Radical(row) => {
            let inner = match preflight_row(row) {
                Ok(inner) => inner,
                Err(e) => return Err(e),
            };
            LayoutWorkPreflight { boxes: 2, paints: 2 }.add(inner)
        },
    }
}

/// The counting pass over a whole formula.
pub(crate) fn preflight_layout_work(root: &Row) -> (r: Checked<LayoutWorkPreflight>)
    ensures
        preflighted(r, row_boxes(root.view()), row_paints(root.view())),
{
    let inner = match preflight_row(root) {
        Ok(inner) => inner,
        Err(e) => return Err(e),
    };
    LayoutWorkPreflight::zero().add(inner)
}

/// Units from the node count of a parsed receipt and a counting pass.
pub(crate) fn required_math_layout_units_from_preflight(
    node_count: u64,
    preflight: LayoutWorkPreflight,
) -> (r: Checked<u64>)
    ensures
        r is Ok <==> node_count + preflight.boxes + preflight.paints <= u64::MAX,
        r matches Ok(v) ==> v == node_count + preflight.boxes + preflight.paints,
        r matches Err(e) ==> e == MathComputationError::LayoutUnitLimit,
{
    let partial = match node_count.checked_add(preflight.boxes) {
        Some(v) => v,
        None => return Err(MathComputationError::LayoutUnitLimit),
    };
    match partial.checked_add(preflight.paints) {
        Some(v) => Ok(v),
        None => Err(MathComputationError::LayoutUnitLimit),
    }
}

/// Exact units that must be reserved before font parsing or layout: the
/// AST nodes, the layout boxes and the paint commands of the formula. Only
/// the bounded accounting pass runs; no box or paint is issued.
pub fn required_math_layout_units(parsed: &ParsedMathReceipt) -> (r: Result<u64, MathComputationError>)
    ensures
        r == required_units_result(*parsed),
{
    match parsed.verify() {
        Ok(()) => {},
        Err(_) => return Err(MathComputationError::ParsedReceipt),
    }
    let root = parsed.root();
    let preflight = match preflight_layout_work(root) {
        Ok(p) => p,
        Err(e) => return Err(e),
    };
    required_math_layout_units_from_preflight(parsed.ast_node_count(), preflight)
}

/// A validated request for math layout: a positive font size and a positive
/// work limit.
#[derive(Clone, Copy, Debug, PartialEq, Eq)]
pub struct MathComputationInput {
    kind: MathNodeKind,
    font_size_raw: i64,
    max_layout_units: u64,
}

impl MathComputationInput {
    pub closed spec fn spec_kind(self) -> MathNodeKind {
        self.kind
    }

    pub closed spec fn spec_font_size_raw(self) -> i64 {
        self.font_size_raw
    }

    pub closed spec fn spec_max_layout_units(self) -> u64 {
        self.max_layout_units
    }

    #[verifier::type_invariant]
    closed spec fn positive(self) -> bool {
        self.font_size_raw > 0 && self.max_layout_units > 0
    }

    /// `None` unless the font size and the work limit are both positive.
    pub fn new(kind: MathNodeKind, font_size_raw: i64, max_layout_units: u64) -> (input: Option<Self>)
        ensures
            input is Some <==> (font_size_raw > 0 && max_layout_units > 0),
            input matches Some(i) ==> i.spec_kind() == kind && i.spec_font_size_raw() == font_size_raw
                && i.spec_max_layout_units() == max_layout_units,
    {
        if font_size_raw <= 0 || max_layout_units == 0 {
            None
        } else {
            Some(MathComputationInput { kind, font_size_raw, max_layout_units })
        }
    }

    pub fn kind(self) -> (kind: MathNodeKind)
        ensures
            kind == self.spec_kind(),
    {
        self.kind
    }

    pub fn font_size_raw(self) -> (size: i64)
        ensures
            size == self.spec_font_size_raw(),
            size > 0,
    {
        proof {
            use_type_invariant(&self);
        }
        self.font_size_raw
    }

    pub fn max_layout_units(self) -> (units: u64)
        ensures
            units == self.spec_max_layout_units(),
            units > 0,
    {
        proof {
            use_type_invariant(&self);
        }
        self.max_layout_units
    }
}

/// Units layout charges as it issues boxes and paints, bounded by the
/// units reserved for it; the AST nodes are charged on creation.
pub(crate) struct LayoutWorkBudget {
    pub(crate) maximum: u64,
    pub(crate) consumed: u64,
}

impl LayoutWorkBudget {
    pub(crate) fn new(ast_nodes: u64, maximum: u64) -> (r: Checked<Self>)
        ensures
            r is Ok <==> ast_nodes <= maximum,
            r matches Ok(b) ==> b.consumed == ast_nodes && b.maximum == maximum,
            r matches Err(e) ==> e == MathComputationError::LayoutUnitLimit,
    {
        if ast_nodes > maximum {
            return Err(MathComputationError::LayoutUnitLimit);
        }
        Ok(LayoutWorkBudget { maximum, consumed: ast_nodes })
    }

    /// Charge `units`; refused as a layout unit limit beyond the maximum.
    pub(crate) fn charge(&mut self, units: u64) -> (r: Checked<()>)
        ensures
            final(self).maximum == old(self).maximum,
            r is Ok <==> old(self).consumed + units <= old(self).maximum,
            r is Ok ==> final(self).consumed == old(self).consumed + units,
            r matches Err(e) ==> e == MathComputationError::LayoutUnitLimit,
    {
        let next = match self.consumed.checked_add(units) {
            Some(v) => v,
            None => return Err(MathComputationError::LayoutUnitLimit),
        };
        if next > self.maximum {
            return Err(MathComputationError::LayoutUnitLimit);
        }
        self.consumed = next;
        Ok(())
    }

    pub(crate) fn consumed(&self) -> (units: u64)
        ensures
            units == self.consumed,
    {
        self.consumed
    }
}

} // verus!
