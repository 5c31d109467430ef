//! Character classes of the math source grammar.
use vstd::prelude::*;

verus! {

/// Operators, relations, arrows and punctuation that stand as symbol atoms.
pub open spec fn literal_symbol(c: char) -> bool {
    c == '+'
        || c == '-'
        || c == '\u{00b1}'
        || c == '\u{2213}'
        || c == '\u{00d7}'
        || c == '\u{00f7}'
        || c == '\u{00b7}'
        || c == '='
        || c == '\u{2260}'
        || c == '<'
        || c == '>'
        || c == '\u{2264}'
        || c == '\u{2265}'
        || c == '\u{2248}'
        || c == '\u{2261}'
        || c == '\u{223c}'
        || c == '\u{221d}'
        || c == '\u{2208}'
        || c == '\u{2209}'
        || c == '\u{220b}'
        || c == '\u{2282}'
        || c == '\u{2286}'
        || c == '\u{2283}'
        || c == '\u{2287}'
        || c == '\u{222a}'
        || c == '\u{2229}'
        || c == '\u{2227}'
        || c == '\u{2228}'
        || c == '\u{00ac}'
        || c == '\u{2200}'
        || c == '\u{2203}'
        || c == '\u{2205}'
        || c == '\u{221e}'
        || c == '\u{2202}'
        || c == '\u{2207}'
        || c == '\u{2211}'
        || c == '\u{220f}'
        || c == '\u{222b}'
        || c == '\u{2192}'
        || c == '\u{2190}'
        || c == '\u{2194}'
        || c == '\u{21a6}'
        || c == '('
        || c == ')'
        || c == '['
        || c == ']'
        || c == '|'
        || c == '\u{2016}'
        || c == ','
        || c == '.'
        || c == ':'
        || c == ';'
        || c == '!'
}

/// Greek letters that stand as symbol atoms.
pub open spec fn greek_letter(c: char) -> bool {
    c == '\u{03b1}'
        || c == '\u{03b2}'
        || c == '\u{03b3}'
        || c == '\u{03b4}'
        || c == '\u{03b5}'
        || c == '\u{03b6}'
        || c == '\u{03b7}'
        || c == '\u{03b8}'
        || c == '\u{03b9}'
        || c == '\u{03ba}'
        || c == '\u{03bb}'
        || c == '\u{03bc}'
        || c == '\u{03bd}'
        || c == '\u{03be}'
        || c == '\u{03bf}'
        || c == '\u{03c0}'
        || c == '\u{03c1}'
        || c == '\u{03c3}'
        || c == '\u{03c4}'
        || c == '\u{03c5}'
        || c == '\u{03c6}'
        || c == '\u{03c7}'
        || c == '\u{03c8}'
        || c == '\u{03c9}'
        || c == '\u{0391}'
        || c == '\u{0392}'
        || c == '\u{0393}'
        || c == '\u{0394}'
        || c == '\u{0395}'
        || c == '\u{0396}'
        || c == '\u{0397}'
        || c == '\u{0398}'
        || c == '\u{0399}'
        || c == '\u{039a}'
        || c == '\u{039b}'
        || c == '\u{039c}'
        || c == '\u{039d}'
        || c == '\u{039e}'
        || c == '\u{039f}'
        || c == '\u{03a0}'
        || c == '\u{03a1}'
        || c == '\u{03a3}'
        || c == '\u{03a4}'
        || c == '\u{03a5}'
        || c == '\u{03a6}'
        || c == '\u{03a7}'
        || c == '\u{03a8}'
        || c == '\u{03a9}'
        || c == '\u{03d1}'
        || c == '\u{03d5}'
        || c == '\u{03d6}'
        || c == '\u{03f1}'
        || c == '\u{03f5}'
}

pub fn is_literal_symbol(c: char) -> (r: bool)
    ensures
        r == literal_symbol(c),
{
    matches!(c, '+' | '-' | '\u{00b1}' | '\u{2213}' | '\u{00d7}' | '\u{00f7}' | '\u{00b7}' | '=' | '\u{2260}' | '<' | '>' | '\u{2264}' | '\u{2265}' | '\u{2248}' | '\u{2261}' | '\u{223c}' | '\u{221d}' | '\u{2208}' | '\u{2209}' | '\u{220b}' | '\u{2282}' | '\u{2286}' | '\u{2283}' | '\u{2287}' | '\u{222a}' | '\u{2229}' | '\u{2227}' | '\u{2228}' | '\u{00ac}' | '\u{2200}' | '\u{2203}' | '\u{2205}' | '\u{221e}' | '\u{2202}' | '\u{2207}' | '\u{2211}' | '\u{220f}' | '\u{222b}' | '\u{2192}' | '\u{2190}' | '\u{2194}' | '\u{21a6}' | '(' | ')' | '[' | ']' | '|' | '\u{2016}' | ',' | '.' | ':' | ';' | '!')
}

pub fn is_greek(c: char) -> (r: bool)
    ensures
        r == greek_letter(c),
{
    matches!(c, '\u{03b1}' | '\u{03b2}' | '\u{03b3}' | '\u{03b4}' | '\u{03b5}' | '\u{03b6}' | '\u{03b7}' | '\u{03b8}' | '\u{03b9}' | '\u{03ba}' | '\u{03bb}' | '\u{03bc}' | '\u{03bd}' | '\u{03be}' | '\u{03bf}' | '\u{03c0}' | '\u{03c1}' | '\u{03c3}' | '\u{03c4}' | '\u{03c5}' | '\u{03c6}' | '\u{03c7}' | '\u{03c8}' | '\u{03c9}' | '\u{0391}' | '\u{0392}' | '\u{0393}' | '\u{0394}' | '\u{0395}' | '\u{0396}' | '\u{0397}' | '\u{0398}' | '\u{0399}' | '\u{039a}' | '\u{039b}' | '\u{039c}' | '\u{039d}' | '\u{039e}' | '\u{039f}' | '\u{03a0}' | '\u{03a1}' | '\u{03a3}' | '\u{03a4}' | '\u{03a5}' | '\u{03a6}' | '\u{03a7}' | '\u{03a8}' | '\u{03a9}' | '\u{03d1}' | '\u{03d5}' | '\u{03d6}' | '\u{03f1}' | '\u{03f5}')
}

} // verus!
