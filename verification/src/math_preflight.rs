//! The counting pass over producer input: it establishes the exact node and
//! depth charge of the grammar, and refuses the first node beyond a limit,
//! before any AST vector or token is allocated.
use vstd::prelude::*;
use crate::math_ast::{TermView, is_alpha, is_digit};
use crate::math_chars::{is_literal_symbol, is_greek};
use crate::math_grammar::{
    ParseFailure, ParseState, alpha_end, at, charge, digit_end, expect, frac_name, lemma_alpha_end,
    lemma_space_end, number_end, operator_name, parse_atom, parse_command, parse_group, parse_row,
    parse_row_terms, parse_scripts, parse_term, peek, space_end, sqrt_name, digit_at,
    lemma_space_end_idempotent, lemma_expect, lemma_number_end,
};
use crate::math_parse::{Failure, agrees_unit, name_is};
use crate::math_source::{MathParseLimits, MathSourceErrorKind};

verus! {

pub(crate) struct MathSourcePreflight<'a> {
    pub(crate) chars: &'a [char],
    pub(crate) offset: usize,
    pub(crate) limits: MathParseLimits,
    pub(crate) node_count: u64,
    pub(crate) maximum_depth: u32,
}

impl<'a> MathSourcePreflight<'a> {
    pub(crate) open spec fn state(&self) -> ParseState {
        ParseState {
            pos: self.offset as int,
            count: self.node_count as int,
            depth: self.maximum_depth as int,
        }
    }

    pub(crate) open spec fn src(&self) -> Seq<char> {
        self.chars@
    }

    pub(crate) open spec fn keeps(&self, old: &Self) -> bool {
        &&& self.chars@ == old.chars@
        &&& self.limits == old.limits
        &&& self.offset <= self.chars@.len()
    }

    fn error(&self, kind: MathSourceErrorKind) -> (f: Failure)
        ensures
            f.view() == (ParseFailure { kind, pos: self.offset as int }),
    {
        Failure { kind, pos: self.offset }
    }

    fn peek(&self) -> (c: Option<char>)
        ensures
            c == peek(self.src(), self.offset as int),
    {
        if self.offset < self.chars.len() {
            Some(self.chars[self.offset])
        } else {
            None
        }
    }

    fn bump(&mut self)
        requires
            old(self).offset < old(self).chars@.len(),
        ensures
            final(self).keeps(old(self)),
            final(self).offset == old(self).offset + 1,
            final(self).node_count == old(self).node_count,
            final(self).maximum_depth == old(self).maximum_depth,
    {
        let length = self.chars.len();
        assert(self.offset < length);
        self.offset = self.offset + 1;
    }

    pub(crate) fn skip_space(&mut self)
        requires
            old(self).offset <= old(self).chars@.len(),
        ensures
            final(self).keeps(old(self)),
            final(self).offset == space_end(old(self).src(), old(self).offset as int),
            final(self).offset >= old(self).offset,
            final(self).node_count == old(self).node_count,
            final(self).maximum_depth == old(self).maximum_depth,
        decreases old(self).chars@.len() - old(self).offset,
    {
        proof {
            lemma_space_end(old(self).src(), old(self).offset as int);
        }
        if self.offset < self.chars.len() && (self.chars[self.offset] == ' '
            || self.chars[self.offset] == '\n') {
            self.offset = self.offset + 1;
            self.skip_space();
        }
    }

    fn charge(&mut self, depth: u32) -> (r: Result<(), Failure>)
        requires
            old(self).offset <= old(self).chars@.len(),
        ensures
            final(self).keeps(old(self)),
            final(self).offset == old(self).offset,
            agrees_unit(
                match charge(old(self).state(), depth as int, old(self).limits) {
                    Ok(st) => Ok::<((), ParseState), ParseFailure>(((), st)),
                    Err(e) => Err(e),
                },
                r,
                final(self).state(),
            ),
    {
        if depth > self.limits.max_depth() {
            return Err(self.error(MathSourceErrorKind::DepthLimit));
        }
        if self.node_count == u64::MAX || self.node_count + 1 > self.limits.max_nodes() {
            return Err(self.error(MathSourceErrorKind::NodeLimit));
        }
        self.node_count = self.node_count + 1;
        if depth > self.maximum_depth {
            self.maximum_depth = depth;
        }
        Ok(())
    }

    fn take_identifier(&mut self) -> (r: Result<usize, Failure>)
        requires
            old(self).offset <= old(self).chars@.len(),
        ensures
            final(self).keeps(old(self)),
            final(self).node_count == old(self).node_count,
            final(self).maximum_depth == old(self).maximum_depth,
            final(self).offset == alpha_end(old(self).src(), old(self).offset as int),
            r is Err <==> final(self).offset == old(self).offset,
            r matches Ok(start) ==> start == old(self).offset,
            r matches Err(f) ==> f.view() == (ParseFailure {
                kind: MathSourceErrorKind::UnexpectedToken,
                pos: old(self).offset as int,
            }),
        decreases old(self).chars@.len() - old(self).offset,
    {
        let start = self.offset;
        proof {
            lemma_alpha_end(self.src(), start as int);
        }
        while self.offset < self.chars.len() && is_alpha(self.chars[self.offset])
            invariant
                start <= self.offset <= self.chars@.len(),
                self.keeps(old(self)),
                self.node_count == old(self).node_count,
                self.maximum_depth == old(self).maximum_depth,
                alpha_end(self.src(), self.offset as int) == alpha_end(
                    self.src(),
                    start as int,
                ),
                start == old(self).offset,
            decreases self.chars@.len() - self.offset,
        {
            self.offset = self.offset + 1;
        }
        if start == self.offset {
            return Err(Failure { kind: MathSourceErrorKind::UnexpectedToken, pos: start });
        }
        Ok(start)
    }

    fn take_digits(&mut self)
        requires
            old(self).offset <= old(self).chars@.len(),
        ensures
            final(self).keeps(old(self)),
            final(self).node_count == old(self).node_count,
            final(self).maximum_depth == old(self).maximum_depth,
            final(self).offset == digit_end(old(self).src(), old(self).offset as int),
    {
        while self.offset < self.chars.len() && is_digit(self.chars[self.offset])
            invariant
                old(self).offset <= self.offset <= self.chars@.len(),
                self.keeps(old(self)),
                self.node_count == old(self).node_count,
                self.maximum_depth == old(self).maximum_depth,
                digit_end(self.src(), self.offset as int) == digit_end(
                    self.src(),
                    old(self).offset as int,
                ),
            decreases self.chars@.len() - self.offset,
        {
            self.offset = self.offset + 1;
        }
    }

    fn take_number(&mut self) -> (r: Result<(), Failure>)
        requires
            old(self).offset < old(self).chars@.len(),
        ensures
            final(self).keeps(old(self)),
            final(self).node_count == old(self).node_count,
            final(self).maximum_depth == old(self).maximum_depth,
            match number_end(old(self).src(), old(self).offset as int) {
                Ok(e) => r is Ok && final(self).offset == e,
                Err(f) => r matches Err(g) && g.view() == f,
            },
    {
        let ghost s = self.src();
        let ghost p = self.offset as int;
        if self.peek() == Some('0') {
            self.bump();
            match self.peek() {
                Some(c) => {
                    if is_digit(c) {
                        return Err(self.error(MathSourceErrorKind::InvalidNumber));
                    }
                },
                None => {},
            }
        } else {
            self.take_digits();
        }
        let q = self.offset;
        if self.peek() == Some('.') {
            self.bump();
            let after_dot = match self.peek() {
                Some(c) => is_digit(c),
                None => false,
            };
            if !after_dot {
                self.offset = q;
            } else {
                self.take_digits();
            }
        }
        proof {
            assert(digit_at(s, q as int + 1) == (q + 1 < s.len() && crate::math_ast::is_ascii_digit(s[q + 1])));
        }
        Ok(())
    }

    fn expect(&mut self, expected: char) -> (r: Result<(), Failure>)
        requires
            old(self).offset <= old(self).chars@.len(),
        ensures
            final(self).keeps(old(self)),
            final(self).node_count == old(self).node_count,
            final(self).maximum_depth == old(self).maximum_depth,
            match expect(old(self).src(), old(self).offset as int, expected) {
                Ok(e) => r is Ok && final(self).offset == e,
                Err(f) => r matches Err(g) && g.view() == f,
            },
            r is Ok ==> final(self).offset > old(self).offset,
    {
        proof {
            lemma_expect(old(self).src(), old(self).offset as int, expected);
        }
        self.skip_space();
        proof {
            lemma_space_end(old(self).src(), old(self).offset as int);
        }
        if self.peek() != Some(expected) {
            return Err(self.error(MathSourceErrorKind::MissingDelimiter));
        }
        self.bump();
        Ok(())
    }
}

impl<'a> MathSourcePreflight<'a> {
    pub(crate) fn parse_row(&mut self, terminator: Option<char>, depth: u32) -> (r: Result<
        (),
        Failure,
    >)
        requires
            old(self).offset <= old(self).chars@.len(),
        ensures
            final(self).keeps(old(self)),
            agrees_unit(
                parse_row(
                    old(self).src(),
                    old(self).limits,
                    old(self).state(),
                    terminator,
                    depth as int,
                ),
                r,
                final(self).state(),
            ),
            r is Ok ==> final(self).offset >= old(self).offset,
        decreases old(self).chars@.len() - old(self).offset, 5int,
    {
        match self.charge(depth) {
            Err(e) => return Err(e),
            Ok(()) => {},
        }
        let mut nonempty = false;
        let ghost mut terms: Seq<TermView> = Seq::empty();
        loop
            invariant
                self.keeps(old(self)),
                old(self).offset <= self.offset,
                nonempty == (terms.len() > 0),
                parse_row(old(self).src(), old(self).limits, old(self).state(), terminator, depth as int)
                    == parse_row_terms(
                    self.src(),
                    self.limits,
                    self.state(),
                    terminator,
                    depth as int,
                    terms,
                ),
            decreases self.chars@.len() - self.offset,
        {
            let ghost st = self.state();
            proof {
                lemma_space_end(self.src(), self.offset as int);
            }
            self.skip_space();
            let next = self.peek();
            if same_option_char(next, terminator) || next.is_none() {
                if !nonempty {
                    return Err(self.error(MathSourceErrorKind::EmptyRow));
                }
                return Ok(());
            }
            if depth == u32::MAX {
                proof {
                    assert(depth as int + 1 > self.limits.spec_max_depth());
                    assert(charge(at(st, self.offset as int), depth as int + 1, self.limits) is Err);
                    assert(parse_term(self.src(), self.limits, at(st, self.offset as int), depth as int + 1)
                        == crate::math_grammar::fail::<TermView>(MathSourceErrorKind::DepthLimit, self.offset as int));
                    assert(parse_row_terms(self.src(), self.limits, st, terminator, depth as int, terms)
                        == crate::math_grammar::fail::<Seq<TermView>>(MathSourceErrorKind::DepthLimit, self.offset as int));
                }
                return Err(self.error(MathSourceErrorKind::DepthLimit));
            }
            let ghost q = self.state();
            match self.parse_term(depth + 1) {
                Err(e) => return Err(e),
                Ok(()) => {
                    proof {
                        let term = parse_term(self.src(), self.limits, q, depth as int + 1)->Ok_0.0;
                        terms = terms.push(term);
                    }
                    nonempty = true;
                },
            }
        }
    }

    pub(crate) fn parse_term(&mut self, depth: u32) -> (r: Result<(), Failure>)
        requires
            old(self).offset <= old(self).chars@.len(),
        ensures
            final(self).keeps(old(self)),
            agrees_unit(
                parse_term(old(self).src(), old(self).limits, old(self).state(), depth as int),
                r,
                final(self).state(),
            ),
            r is Ok ==> final(self).offset > old(self).offset,
        decreases old(self).chars@.len() - old(self).offset, 3int,
    {
        match self.charge(depth) {
            Err(e) => return Err(e),
            Ok(()) => {},
        }
        if depth == u32::MAX {
            return Err(self.error(MathSourceErrorKind::DepthLimit));
        }
        let atom_depth = depth + 1;
        let ghost st1 = self.state();
        match self.parse_atom(atom_depth) {
            Err(e) => return Err(e),
            Ok(()) => {},
        }
        let ghost atom = parse_atom(self.src(), self.limits, st1, atom_depth as int)->Ok_0.0;
        let mut subscript = false;
        let mut superscript = false;
        let ghost mut sub_view: Option<crate::math_ast::AtomView> = None;
        let ghost mut sup_view: Option<crate::math_ast::AtomView> = None;
        loop
            invariant
                self.keeps(old(self)),
                old(self).offset < self.offset,
                atom_depth == depth + 1,
                subscript == (sub_view is Some),
                superscript == (sup_view is Some),
                parse_term(old(self).src(), old(self).limits, old(self).state(), depth as int)
                    == parse_scripts(
                    self.src(),
                    self.limits,
                    self.state(),
                    atom_depth as int,
                    atom,
                    sub_view,
                    sup_view,
                ),
            decreases self.chars@.len() - self.offset,
        {
            proof {
                lemma_space_end(self.src(), self.offset as int);
            }
            self.skip_space();
            let next = self.peek();
            let is_sub = same_option_char(next, Some('_'));
            let is_sup = same_option_char(next, Some('^'));
            if !is_sub && !is_sup {
                return Ok(());
            }
            if (is_sub && subscript) || (is_sup && superscript) {
                return Err(self.error(MathSourceErrorKind::DuplicateScript));
            }
            self.bump();
            proof {
                lemma_space_end(self.src(), self.offset as int);
            }
            self.skip_space();
            let ghost r = self.state();
            match self.parse_atom(atom_depth) {
                Err(e) => return Err(e),
                Ok(()) => {
                    proof {
                        let script = parse_atom(self.src(), self.limits, r, atom_depth as int)->Ok_0.0;
                        if is_sub {
                            sub_view = Some(script);
                        } else {
                            sup_view = Some(script);
                        }
                    }
                    if is_sub {
                        subscript = true;
                    } else {
                        superscript = true;
                    }
                },
            }
        }
    }

    pub(crate) fn parse_atom(&mut self, depth: u32) -> (r: Result<(), Failure>)
        requires
            old(self).offset <= old(self).chars@.len(),
        ensures
            final(self).keeps(old(self)),
            agrees_unit(
                parse_atom(old(self).src(), old(self).limits, old(self).state(), depth as int),
                r,
                final(self).state(),
            ),
            r is Ok ==> final(self).offset > old(self).offset,
        decreases old(self).chars@.len() - old(self).offset, 1int,
    {
        match self.charge(depth) {
            Err(e) => return Err(e),
            Ok(()) => {},
        }
        let c = match self.peek() {
            None => return Err(self.error(MathSourceErrorKind::UnexpectedToken)),
            Some(c) => c,
        };
        if is_alpha(c) {
            proof {
                lemma_alpha_end(self.src(), self.offset as int);
            }
            match self.take_identifier() {
                Err(e) => return Err(e),
                Ok(_) => {},
            }
            return Ok(());
        }
        if is_digit(c) {
            proof {
                lemma_number_end(self.src(), self.offset as int);
            }
            match self.take_number() {
                Err(e) => return Err(e),
                Ok(()) => {},
            }
            return Ok(());
        }
        if c == '{' {
            self.bump();
            if depth == u32::MAX {
                return Err(self.error(MathSourceErrorKind::DepthLimit));
            }
            match self.parse_row(Some('}'), depth + 1) {
                Err(e) => return Err(e),
                Ok(()) => {},
            }
            match self.expect('}') {
                Err(e) => return Err(e),
                Ok(()) => {},
            }
            return Ok(());
        }
        if c == '\\' {
            return self.parse_command(depth);
        }
        if is_literal_symbol(c) || is_greek(c) {
            self.bump();
            return Ok(());
        }
        Err(self.error(MathSourceErrorKind::UnexpectedToken))
    }

    #[verifier::rlimit(60)]
    fn parse_command(&mut self, depth: u32) -> (r: Result<(), Failure>)
        requires
            old(self).offset < old(self).chars@.len(),
            old(self).chars@[old(self).offset as int] == '\\',
        ensures
            final(self).keeps(old(self)),
            agrees_unit(
                parse_command(old(self).src(), old(self).limits, old(self).state(), depth as int),
                r,
                final(self).state(),
            ),
            r is Ok ==> final(self).offset > old(self).offset,
        decreases old(self).chars@.len() - old(self).offset, 0int,
    {
        self.bump();
        proof {
            lemma_alpha_end(self.src(), self.offset as int);
        }
        let start = match self.take_identifier() {
            Err(e) => return Err(e),
            Ok(start) => start,
        };
        let end = self.offset;
        proof {
            assert(['f', 'r', 'a', 'c']@ =~= frac_name());
            assert(['s', 'q', 'r', 't']@ =~= sqrt_name());
            assert(['o', 'p', 'e', 'r', 'a', 't', 'o', 'r']@ =~= operator_name());
        }
        if name_is(self.chars, start, end, &['f', 'r', 'a', 'c']) {
            match self.parse_required_group(depth) {
                Err(e) => return Err(e),
                Ok(()) => {},
            }
            match self.parse_required_group(depth) {
                Err(e) => return Err(e),
                Ok(()) => {},
            }
            return Ok(());
        }
        if name_is(self.chars, start, end, &['s', 'q', 'r', 't']) {
            return self.parse_required_group(depth);
        }
        if name_is(self.chars, start, end, &['o', 'p', 'e', 'r', 'a', 't', 'o', 'r']) {
            return self.parse_operator_name();
        }
        Err(self.error(MathSourceErrorKind::UnknownCommand))
    }

    /// `{ name }` after `\\operator`.
    fn parse_operator_name(&mut self) -> (r: Result<(), Failure>)
        requires
            old(self).offset <= old(self).chars@.len(),
        ensures
            final(self).keeps(old(self)),
            final(self).node_count == old(self).node_count,
            final(self).maximum_depth == old(self).maximum_depth,
            match expect(old(self).src(), old(self).offset as int, '{') {
                Err(err) => r matches Err(g) && g.view() == err,
                Ok(b) => {
                    let start = space_end(old(self).src(), b);
                    let end = alpha_end(old(self).src(), start);
                    if end == start {
                        r matches Err(g) && g.view() == (ParseFailure {
                            kind: MathSourceErrorKind::UnexpectedToken,
                            pos: start,
                        })
                    } else {
                        match expect(old(self).src(), end, '}') {
                            Err(err) => r matches Err(g) && g.view() == err,
                            Ok(close) => r is Ok && final(self).offset == close,
                        }
                    }
                },
            },
            r is Ok ==> final(self).offset > old(self).offset,
    {
        proof {
            lemma_space_end_idempotent(self.src(), self.offset as int);
        }
        self.skip_space();
        match self.expect('{') {
            Err(e) => return Err(e),
            Ok(()) => {},
        }
        proof {
            lemma_space_end(self.src(), self.offset as int);
        }
        self.skip_space();
        proof {
            lemma_alpha_end(self.src(), self.offset as int);
        }
        match self.take_identifier() {
            Err(e) => return Err(e),
            Ok(_) => {},
        }
        proof {
            lemma_space_end_idempotent(self.src(), self.offset as int);
        }
        self.skip_space();
        self.expect('}')
    }

    fn parse_required_group(&mut self, depth: u32) -> (r: Result<(), Failure>)
        requires
            old(self).offset <= old(self).chars@.len(),
        ensures
            final(self).keeps(old(self)),
            agrees_unit(
                parse_group(old(self).src(), old(self).limits, old(self).state(), depth as int),
                r,
                final(self).state(),
            ),
            r is Ok ==> final(self).offset > old(self).offset,
        decreases old(self).chars@.len() - old(self).offset, 0int,
    {
        proof {
            lemma_space_end_idempotent(self.src(), self.offset as int);
            lemma_space_end(self.src(), self.offset as int);
            lemma_expect(self.src(), self.offset as int, '{');
        }
        self.skip_space();
        match self.expect('{') {
            Err(e) => return Err(e),
            Ok(()) => {},
        }
        if depth == u32::MAX {
            return Err(self.error(MathSourceErrorKind::DepthLimit));
        }
        match self.parse_row(Some('}'), depth + 1) {
            Err(e) => return Err(e),
            Ok(()) => {},
        }
        self.expect('}')
    }
}

fn same_option_char(a: Option<char>, b: Option<char>) -> (r: bool)
    ensures
        r == (a == b),
{
    match (a, b) {
        (Some(x), Some(y)) => x == y,
        (None, None) => true,
        _ => false,
    }
}

} // verus!
