//! The typed math AST, its mathematical model, and the canonical formatter.
use vstd::prelude::*;
use crate::text::extend_chars;

verus! {

/// Model of an atom: a token, a symbol, or a nested row.
pub enum AtomView {
    Identifier(Seq<char>),
    Number(Seq<char>),
    Symbol(char),
    Group(Seq<TermView>),
    Fraction(Seq<TermView>, Seq<TermView>),
    Radical(Seq<TermView>),
    Operator(Seq<char>),
}

/// Model of a term: an atom with at most one subscript and one superscript.
pub struct TermView {
    pub atom: AtomView,
    pub subscript: Option<AtomView>,
    pub superscript: Option<AtomView>,
}

#[derive(Debug)]
pub(crate) struct Row {
    pub(crate) terms: Vec<Term>,
}

#[derive(Debug)]
pub(crate) struct Term {
    pub(crate) atom: Atom,
    pub(crate) subscript: Option<Atom>,
    pub(crate) superscript: Option<Atom>,
}

#[derive(Debug)]
pub(crate) enum Atom {
    Identifier(Vec<char>),
    Number(Vec<char>),
    Symbol(char),
    Group(Row),
    Fraction { numerator: Row, denominator: Row },
    Radical(Row),
    Operator(Vec<char>),
}

pub(crate) open spec fn option_view(a: Option<Atom>) -> Option<AtomView> {
    match a {
        Some(atom) => Some(atom.view()),
        None => None,
    }
}

impl Atom {
    pub(crate) open spec fn view(&self) -> AtomView
        decreases self,
    {
        match self {
            Atom::Identifier(v) => AtomView::Identifier(v@),
            Atom::Number(v) => AtomView::Number(v@),
            Atom::Symbol(c) => AtomView::Symbol(*c),
            Atom::Group(r) => AtomView::Group(r.view()),
            Atom::Fraction { numerator, denominator } => AtomView::Fraction(
                numerator.view(),
                denominator.view(),
            ),
            Atom::Radical(r) => AtomView::Radical(r.view()),
            Atom::Operator(v) => AtomView::Operator(v@),
        }
    }
}

impl Term {
    pub(crate) open spec fn view(&self) -> TermView
        decreases self,
    {
        TermView {
            atom: self.atom.view(),
            subscript: match self.subscript {
                Some(a) => Some(a.view()),
                None => None,
            },
            superscript: match self.superscript {
                Some(a) => Some(a.view()),
                None => None,
            },
        }
    }
}

impl Row {
    pub(crate) open spec fn view(&self) -> Seq<TermView>
        decreases self,
    {
        Seq::new(
            self.terms@.len(),
            |i: int|
                {
                    if 0 <= i < self.terms@.len() {
                        self.terms@[i].view()
                    } else {
                        arbitrary()
                    }
                },
        )
    }
}

pub open spec fn is_ascii_alpha(c: char) -> bool {
    ('a' <= c && c <= 'z') || ('A' <= c && c <= 'Z')
}

pub open spec fn is_ascii_digit(c: char) -> bool {
    '0' <= c && c <= '9'
}

pub open spec fn first_char(s: Seq<char>) -> Option<char> {
    if s.len() > 0 {
        Some(s[0])
    } else {
        None
    }
}

pub open spec fn last_char(s: Seq<char>) -> Option<char> {
    if s.len() > 0 {
        Some(s.last())
    } else {
        None
    }
}

/// A space is needed between two adjacent terms exactly where their
/// characters would otherwise run together into one token.
pub open spec fn separator_needed(left: Option<char>, right: Option<char>) -> bool {
    match (left, right) {
        (Some(a), Some(b)) => (is_ascii_alpha(a) && is_ascii_alpha(b)) || (is_ascii_digit(a)
            && is_ascii_digit(b)) || (is_ascii_digit(a) && b == '.') || (a == '.'
            && is_ascii_digit(b)),
        _ => false,
    }
}

pub open spec fn operator_prefix() -> Seq<char> {
    seq!['\\', 'o', 'p', 'e', 'r', 'a', 't', 'o', 'r', '{']
}

pub open spec fn frac_prefix() -> Seq<char> {
    seq!['\\', 'f', 'r', 'a', 'c', '{']
}

pub open spec fn sqrt_prefix() -> Seq<char> {
    seq!['\\', 's', 'q', 'r', 't', '{']
}

/// Canonical source text of an atom.
pub open spec fn canonical_atom(a: AtomView) -> Seq<char>
    decreases a,
{
    match a {
        AtomView::Identifier(v) => v,
        AtomView::Number(v) => v,
        AtomView::Operator(v) => operator_prefix() + v + seq!['}'],
        AtomView::Symbol(c) => seq![c],
        AtomView::Group(r) => seq!['{'] + canonical_row(r) + seq!['}'],
        AtomView::Fraction(n, d) => frac_prefix() + canonical_row(n) + seq!['}', '{']
            + canonical_row(d) + seq!['}'],
        AtomView::Radical(r) => sqrt_prefix() + canonical_row(r) + seq!['}'],
    }
}

/// Canonical source text of a term: subscript before superscript.
pub open spec fn canonical_term(t: TermView) -> Seq<char>
    decreases t,
{
    canonical_atom(t.atom) + match t.subscript {
        Some(a) => seq!['_'] + canonical_atom(a),
        None => Seq::empty(),
    } + match t.superscript {
        Some(a) => seq!['^'] + canonical_atom(a),
        None => Seq::empty(),
    }
}

/// Canonical source text of a row: terms concatenated, with one space only
/// where two neighbours would merge.
pub open spec fn canonical_row(terms: Seq<TermView>) -> Seq<char>
    decreases terms,
{
    if terms.len() == 0 {
        Seq::empty()
    } else {
        let init = terms.subrange(0, terms.len() - 1);
        let formatted = canonical_term(terms[terms.len() - 1]);
        let left = if terms.len() >= 2 {
            last_char(canonical_term(terms[terms.len() - 2]))
        } else {
            None
        };
        canonical_row(init) + (if separator_needed(left, first_char(formatted)) {
            seq![' ']
        } else {
            Seq::empty()
        }) + formatted
    }
}

pub fn is_alpha(c: char) -> (r: bool)
    ensures
        r == is_ascii_alpha(c),
{
    ('a' <= c && c <= 'z') || ('A' <= c && c <= 'Z')
}

pub fn is_digit(c: char) -> (r: bool)
    ensures
        r == is_ascii_digit(c),
{
    '0' <= c && c <= '9'
}

fn separator_required(left: Option<char>, right: Option<char>) -> (r: bool)
    ensures
        r == separator_needed(left, right),
{
    match (left, right) {
        (Some(a), Some(b)) => (is_alpha(a) && is_alpha(b)) || (is_digit(a) && is_digit(b)) || (
        is_digit(a) && b == '.') || (a == '.' && is_digit(b)),
        _ => false,
    }
}

fn push_all(output: &mut Vec<char>, more: &[char])
    ensures
        final(output)@ == old(output)@ + more@,
{
    let mut index: usize = 0;
    while index < more.len()
        invariant
            0 <= index <= more@.len(),
            output@ == old(output)@ + more@.take(index as int),
        decreases more.len() - index,
    {
        output.push(more[index]);
        assert(more@.take(index as int + 1) =~= more@.take(index as int).push(more@[index as int]));
        index = index + 1;
    }
    assert(more@.take(more@.len() as int) =~= more@);
}

proof fn lemma_row_view_len(row: &Row)
    ensures
        row.view().len() == row.terms@.len(),
        forall|i: int| 0 <= i < row.terms@.len() ==> #[trigger] row.view()[i] == row.terms@[i].view(),
{
}

proof fn lemma_canonical_row_step(terms: Seq<TermView>, i: int)
    requires
        0 <= i < terms.len(),
    ensures
        canonical_row(terms.take(i + 1)) == canonical_row(terms.take(i)) + (if separator_needed(
            if i >= 1 {
                last_char(canonical_term(terms[i - 1]))
            } else {
                None
            },
            first_char(canonical_term(terms[i])),
        ) {
            seq![' ']
        } else {
            Seq::empty()
        }) + canonical_term(terms[i]),
{
    let t = terms.take(i + 1);
    assert(t.subrange(0, t.len() - 1) =~= terms.take(i));
    assert(t[t.len() - 1] == terms[i]);
    if i >= 1 {
        assert(t[t.len() - 2] == terms[i - 1]);
    }
}

/// Canonical source of an atom.
pub(crate) fn format_atom(atom: &Atom) -> (out: Vec<char>)
    ensures
        out@ == canonical_atom(atom.view()),
    decreases atom,
{
    match atom {
        Atom::Identifier(value) => value.clone(),
        Atom::Number(value) => value.clone(),
        Atom::Operator(value) => {
            let mut out = Vec::new();
            push_all(&mut out, &['\\', 'o', 'p', 'e', 'r', 'a', 't', 'o', 'r', '{']);
            extend_chars(&mut out, value);
            out.push('}');
            assert(out@ =~= canonical_atom(atom.view()));
            out
        },
        Atom::Symbol(c) => {
            let mut out = Vec::new();
            out.push(*c);
            assert(out@ =~= canonical_atom(atom.view()));
            out
        },
        Atom::Group(row) => {
            let mut out = Vec::new();
            out.push('{');
            let inner = format_row(row);
            extend_chars(&mut out, &inner);
            out.push('}');
            assert(out@ =~= canonical_atom(atom.view()));
            out
        },
        Atom::Fraction { numerator, denominator } => {
            let mut out = Vec::new();
            push_all(&mut out, &['\\', 'f', 'r', 'a', 'c', '{']);
            let top = format_row(numerator);
            extend_chars(&mut out, &top);
            out.push('}');
            out.push('{');
            let bottom = format_row(denominator);
            extend_chars(&mut out, &bottom);
            out.push('}');
            assert(out@ =~= canonical_atom(atom.view()));
            out
        },
        Atom::Radical(row) => {
            let mut out = Vec::new();
            push_all(&mut out, &['\\', 's', 'q', 'r', 't', '{']);
            let inner = format_row(row);
            extend_chars(&mut out, &inner);
            out.push('}');
            assert(out@ =~= canonical_atom(atom.view()));
            out
        },
    }
}

/// Canonical source of a term.
pub(crate) fn format_term(term: &Term) -> (out: Vec<char>)
    ensures
        out@ == canonical_term(term.view()),
    decreases term,
{
    let mut out = format_atom(&term.atom);
    match &term.subscript {
        Some(atom) => {
            out.push('_');
            let script = format_atom(atom);
            extend_chars(&mut out, &script);
        },
        None => {},
    }
    match &term.superscript {
        Some(atom) => {
            out.push('^');
            let script = format_atom(atom);
            extend_chars(&mut out, &script);
        },
        None => {},
    }
    assert(out@ =~= canonical_term(term.view()));
    out
}

/// Canonical source of a row.
pub(crate) fn format_row(row: &Row) -> (out: Vec<char>)
    ensures
        out@ == canonical_row(row.view()),
    decreases row,
{
    let mut out: Vec<char> = Vec::new();
    let mut previous_last: Option<char> = None;
    let mut index: usize = 0;
    proof {
        lemma_row_view_len(row);
        assert(row.view().take(0) =~= Seq::<TermView>::empty());
    }
    while index < row.terms.len()
        invariant
            0 <= index <= row.terms@.len(),
            row.view().len() == row.terms@.len(),
            forall|i: int| 0 <= i < row.terms@.len() ==> #[trigger] row.view()[i] == row.terms@[i].view(),
            out@ == canonical_row(row.view().take(index as int)),
            previous_last == (if index >= 1 {
                last_char(canonical_term(row.view()[index - 1]))
            } else {
                None
            }),
        decreases row.terms.len() - index,
    {
        let formatted = format_term(&row.terms[index]);
        let first = if formatted.len() > 0 {
            Some(formatted[0])
        } else {
            None
        };
        proof {
            lemma_canonical_row_step(row.view(), index as int);
        }
        if separator_required(previous_last, first) {
            out.push(' ');
        }
        extend_chars(&mut out, &formatted);
        previous_last = if formatted.len() > 0 {
            Some(formatted[formatted.len() - 1])
        } else {
            None
        };
        index = index + 1;
    }
    assert(row.view().take(row.terms@.len() as int) =~= row.view());
    out
}

} // verus!
