//! What math layout produces, as spec functions over the AST model: the box
//! and paints of every row, term and atom, the glyph ordinal that follows
//! them, or the error the layout stops with.
use vstd::prelude::*;
use crate::math_arith::{Checked, MathComputationError, MathFontError, add_spec, overflow, scale_spec, sub_spec};
use crate::math_ast::{AtomView, TermView};
use crate::math_font::MathFontFace;
use crate::math_layout::{
    child_level, fraction_constants, fraction_layout, glyph_box, large_operator, larger, level_size,
    script_shifts_spec,
};
use crate::math_paint::{MathPaint, OriginalGlyphId, glyph_at, rule_at, translated};
use crate::math_source::MathNodeKind;

verus! {

/// A laid-out box: its advance, its extent above and below the baseline,
/// the italic correction it leaves to a superscript, and its paints relative
/// to its origin.
pub struct LaidBox {
    pub width: i64,
    pub ascent: i64,
    pub descent: i64,
    pub italic: i64,
    pub paints: Seq<MathPaint>,
}

/// A box and the glyph ordinal that follows its glyphs, or the error that
/// stops the layout.
pub type Laid = Checked<(LaidBox, u32)>;

/// A font unit count scaled to `size`.
pub open spec fn scaled_at(face: MathFontFace, units: int, size: i64) -> Checked<i64> {
    scale_spec(units, size as int, face.units_per_em as int)
}

/// The smallest count of font units whose scaled size reaches `raw`, if
/// that is a positive `u16` count.
pub open spec fn unscaled_ceiling(raw: i64, size: i64, units_per_em: u16) -> Option<u16> {
    let n = raw * units_per_em + size - 1;
    if raw <= 0 || size <= 0 || !crate::math_arith::fits_i64(raw * units_per_em) || !crate::math_arith::fits_i64(n)
        || n / (size as int) > u16::MAX {
        None
    } else {
        Some((n / (size as int)) as u16)
    }
}

/// One glyph set at `size` as glyph number `ordinal`: its box, its scaled
/// italic correction, and the glyph at the box's origin.
pub open spec fn glyph_layout(
    face: MathFontFace,
    c: char,
    glyph: OriginalGlyphId,
    size: i64,
    vertical: Option<u16>,
    ordinal: u32,
) -> Laid {
    match glyph_box(face, glyph, size, vertical) {
        Ok((w, a, d)) => match face.record_of(glyph) {
            Some(g) => match scaled_at(face, g.italic_correction as int, size) {
                Ok(italic) => if ordinal == u32::MAX {
                    overflow()
                } else {
                    Ok(
                        (
                            LaidBox {
                                width: w,
                                ascent: a,
                                descent: d,
                                italic,
                                paints: seq![MathPaint::Glyph(glyph_at(glyph, c, ordinal, 0, size, w))],
                            },
                            (ordinal + 1) as u32,
                        ),
                    )
                },
                Err(e) => Err(e),
            },
            None => Err(MathComputationError::Font(MathFontError::MissingGlyph)),
        },
        Err(e) => Err(e),
    }
}

/// A symbol at `level`: in display style at the top level, a large operator
/// whose glyph is shorter than the display operator height takes the first
/// vertical variant reaching it, stretched; any other symbol its own glyph.
pub open spec fn symbol_layout(
    face: MathFontFace,
    kind: MathNodeKind,
    root: i64,
    level: u8,
    c: char,
    ordinal: u32,
) -> Laid {
    let min = face.constants.display_operator_min_height;
    match level_size(face, root, level) {
        Ok(size) => match face.spec_glyph_id(c) {
            Ok(base) => match face.record_of(base) {
                Some(g) => if kind == MathNodeKind::Display && level == 0 && large_operator(c) && g.height < min {
                    match face.spec_vertical_variant(base, min) {
                        Ok((variant, advance)) => glyph_layout(face, c, variant, size, Some(advance), ordinal),
                        Err(e) => Err(MathComputationError::Font(e)),
                    }
                } else {
                    glyph_layout(face, c, base, size, None, ordinal)
                },
                None => Err(MathComputationError::Font(MathFontError::MissingGlyph)),
            },
            Err(e) => Err(MathComputationError::Font(e)),
        },
        Err(e) => Err(e),
    }
}

/// The first `n` characters of a token at `size`, side by side from the
/// origin: their width, the italic correction of the last one, their glyphs
/// and the ordinal after them.
pub open spec fn token_prefix(face: MathFontFace, size: i64, chars: Seq<char>, n: int, ordinal: u32) -> Checked<
    (i64, i64, Seq<MathPaint>, u32),
>
    decreases n,
{
    if n <= 0 {
        Ok((0, 0, Seq::empty(), ordinal))
    } else {
        match token_prefix(face, size, chars, n - 1, ordinal) {
            Ok((width, _, paints, next)) => {
                let c = chars[n - 1];
                match face.spec_glyph_id(c) {
                    Ok(g) => match face.record_of(g) {
                        Some(record) => match scaled_at(face, record.advance_width as int, size) {
                            Ok(advance) => if next == u32::MAX {
                                overflow()
                            } else {
                                match add_spec(width as int, advance as int) {
                                    Ok(w) => match scaled_at(face, record.italic_correction as int, size) {
                                        Ok(italic) => Ok(
                                            (
                                                w,
                                                italic,
                                                paints.push(
                                                    MathPaint::Glyph(glyph_at(g, c, next, width, size, advance)),
                                                ),
                                                (next + 1) as u32,
                                            ),
                                        ),
                                        Err(e) => Err(e),
                                    },
                                    Err(e) => Err(e),
                                }
                            },
                            Err(e) => Err(e),
                        },
                        None => Err(MathComputationError::Font(MathFontError::MissingGlyph)),
                    },
                    Err(e) => Err(MathComputationError::Font(e)),
                }
            },
            Err(e) => Err(e),
        }
    }
}

/// A token at `level`: its characters side by side, as high and deep as
/// the face's scaled ascent and descent.
pub open spec fn token_layout(face: MathFontFace, root: i64, level: u8, chars: Seq<char>, ordinal: u32) -> Laid {
    match level_size(face, root, level) {
        Ok(size) => match scaled_at(face, face.ascent as int, size) {
            Ok(ascent) => match scaled_at(face, -(face.descent as int), size) {
                Ok(descent) => match token_prefix(face, size, chars, chars.len() as int, ordinal) {
                    Ok((width, italic, paints, next)) => Ok(
                        (LaidBox { width, ascent, descent, italic, paints }, next),
                    ),
                    Err(e) => Err(e),
                },
                Err(e) => Err(e),
            },
            Err(e) => Err(e),
        },
        Err(e) => Err(e),
    }
}

/// The empty box a row starts from.
pub open spec fn empty_box() -> LaidBox {
    LaidBox { width: 0, ascent: 0, descent: 0, italic: 0, paints: Seq::empty() }
}

/// The first `n` terms of a row at `level`, side by side on the baseline:
/// each term's box follows the previous ones, the row as high and deep as
/// its tallest and deepest term, with the italic correction of its last.
pub open spec fn row_prefix(
    face: MathFontFace,
    kind: MathNodeKind,
    root: i64,
    level: u8,
    row: Seq<TermView>,
    n: int,
    ordinal: u32,
) -> Laid
    decreases row, n,
{
    if n <= 0 || n > row.len() {
        Ok((empty_box(), ordinal))
    } else {
        match row_prefix(face, kind, root, level, row, n - 1, ordinal) {
            Ok((done, next)) => match term_layout(face, kind, root, level, row[n - 1], next) {
                Ok((item, after)) => match translated(item.paints, done.width as int, 0) {
                    Ok(moved) => match add_spec(done.width as int, item.width as int) {
                        Ok(width) => Ok(
                            (
                                LaidBox {
                                    width,
                                    ascent: larger(done.ascent, item.ascent),
                                    descent: larger(done.descent, item.descent),
                                    italic: item.italic,
                                    paints: done.paints + moved,
                                },
                                after,
                            ),
                        ),
                        Err(e) => Err(e),
                    },
                    Err(e) => Err(e),
                },
                Err(e) => Err(e),
            },
            Err(e) => Err(e),
        }
    }
}

/// A whole row at `level`.
pub open spec fn row_layout(
    face: MathFontFace,
    kind: MathNodeKind,
    root: i64,
    level: u8,
    row: Seq<TermView>,
    ordinal: u32,
) -> Laid {
    row_prefix(face, kind, root, level, row, row.len() as int, ordinal)
}

/// A term at `level`: its atom, then its scripts attached to it.
pub open spec fn term_layout(
    face: MathFontFace,
    kind: MathNodeKind,
    root: i64,
    level: u8,
    t: TermView,
    ordinal: u32,
) -> Laid
    decreases t, 1int,
{
    match atom_layout(face, kind, root, level, t.atom, ordinal) {
        Ok((base, next)) => if t.subscript is None && t.superscript is None {
            Ok((base, next))
        } else {
            scripts_layout(face, kind, root, level, t, base, next)
        },
        Err(e) => Err(e),
    }
}

/// The scripts of a term laid out one level down, subscript first, and
/// attached to the term's base box.
pub open spec fn scripts_layout(
    face: MathFontFace,
    kind: MathNodeKind,
    root: i64,
    level: u8,
    t: TermView,
    base: LaidBox,
    ordinal: u32,
) -> Laid
    decreases t, 0int,
{
    match level_size(face, root, level) {
        Ok(size) => {
            let sub: Checked<(Option<LaidBox>, u32)> = match t.subscript {
                Some(a) => match atom_layout(face, kind, root, child_level(level), a, ordinal) {
                    Ok((b, next)) => Ok((Some(b), next)),
                    Err(e) => Err(e),
                },
                None => Ok((None, ordinal)),
            };
            match sub {
                Ok((sub_box, next)) => {
                    let sup: Checked<(Option<LaidBox>, u32)> = match t.superscript {
                        Some(a) => match atom_layout(face, kind, root, child_level(level), a, next) {
                            Ok((b, after)) => Ok((Some(b), after)),
                            Err(e) => Err(e),
                        },
                        None => Ok((None, next)),
                    };
                    match sup {
                        Ok((sup_box, after)) => match attach_scripts(face, level, size, base, sub_box, sup_box) {
                            Ok(b) => Ok((b, after)),
                            Err(e) => Err(e),
                        },
                        Err(e) => Err(e),
                    }
                },
                Err(e) => Err(e),
            }
        },
        Err(e) => Err(e),
    }
}

/// The ascent and descent of a script box, if there is one.
pub open spec fn script_metrics(b: Option<LaidBox>) -> Option<(i64, i64)> {
    match b {
        Some(s) => Some((s.ascent, s.descent)),
        None => None,
    }
}

/// The right edge, descent and paints once a subscript is attached: the
/// subscript lowered by its shift after the base's advance, the right edge
/// past it by the space after a script.
pub open spec fn with_subscript(base: LaidBox, sub: Option<LaidBox>, shift: i64, space: i64) -> Checked<
    (i64, i64, Seq<MathPaint>),
> {
    match sub {
        None => Ok((base.width, base.descent, base.paints)),
        Some(s) => match add_spec(shift as int, s.descent as int) {
            Ok(below) => match translated(s.paints, base.width as int, shift as int) {
                Ok(moved) => match add_spec(base.width as int, s.width as int) {
                    Ok(reach) => match add_spec(reach as int, space as int) {
                        Ok(edge) => Ok((larger(base.width, edge), larger(base.descent, below), base.paints + moved)),
                        Err(e) => Err(e),
                    },
                    Err(e) => Err(e),
                },
                Err(e) => Err(e),
            },
            Err(e) => Err(e),
        },
    }
}

/// Scripts attached to a base at `level` and `size`: the subscript lowered
/// and the superscript raised by their shifts, the superscript after the
/// base's italic correction, the box widened to the farthest script plus
/// the space after a script.
pub open spec fn attach_scripts(
    face: MathFontFace,
    level: u8,
    size: i64,
    base: LaidBox,
    sub: Option<LaidBox>,
    sup: Option<LaidBox>,
) -> Checked<LaidBox> {
    match script_shifts_spec(face, level, size, base.ascent, base.descent, script_metrics(sub), script_metrics(sup)) {
        Ok((sub_shift, super_shift)) => match scaled_at(face, face.constants.space_after_script as int, size) {
            Ok(space) => match with_subscript(base, sub, sub_shift, space) {
                Ok((right, descent, paints)) => match sup {
                    None => Ok(LaidBox { width: right, ascent: base.ascent, descent, italic: 0, paints }),
                    Some(s) => match add_spec(base.width as int, larger(base.italic, 0) as int) {
                        Ok(x) => match sub_spec(0, super_shift as int) {
                            Ok(up) => match add_spec(super_shift as int, s.ascent as int) {
                                Ok(above) => match translated(s.paints, x as int, up as int) {
                                    Ok(moved) => match add_spec(x as int, s.width as int) {
                                        Ok(reach) => match add_spec(reach as int, space as int) {
                                            Ok(edge) => Ok(
                                                LaidBox {
                                                    width: larger(right, edge),
                                                    ascent: larger(base.ascent, above),
                                                    descent,
                                                    italic: 0,
                                                    paints: paints + moved,
                                                },
                                            ),
                                            Err(e) => Err(e),
                                        },
                                        Err(e) => Err(e),
                                    },
                                    Err(e) => Err(e),
                                },
                                Err(e) => Err(e),
                            },
                            Err(e) => Err(e),
                        },
                        Err(e) => Err(e),
                    },
                },
                Err(e) => Err(e),
            },
            Err(e) => Err(e),
        },
        Err(e) => Err(e),
    }
}

/// An atom at `level`: a token, a symbol, a group's row, a fraction or a
/// radical.
pub open spec fn atom_layout(
    face: MathFontFace,
    kind: MathNodeKind,
    root: i64,
    level: u8,
    a: AtomView,
    ordinal: u32,
) -> Laid
    decreases a, 0int,
{
    match a {
        AtomView::Identifier(v) => token_layout(face, root, level, v, ordinal),
        AtomView::Number(v) => token_layout(face, root, level, v, ordinal),
        AtomView::Operator(v) => token_layout(face, root, level, v, ordinal),
        AtomView::Symbol(c) => symbol_layout(face, kind, root, level, c, ordinal),
        AtomView::Group(r) => row_prefix(face, kind, root, level, r, r.len() as int, ordinal),
        AtomView::Fraction(n, d) => match level_size(face, root, level) {
            Ok(size) => match row_prefix(face, kind, root, child_level(level), n, n.len() as int, ordinal) {
                Ok((top, next)) => match row_prefix(face, kind, root, child_level(level), d, d.len() as int, next) {
                    Ok((bottom, after)) => fraction_parts(face, kind, level, size, top, bottom, after),
                    Err(e) => Err(e),
                },
                Err(e) => Err(e),
            },
            Err(e) => Err(e),
        },
        AtomView::Radical(r) => match level_size(face, root, level) {
            Ok(size) => match row_prefix(face, kind, root, level, r, r.len() as int, ordinal) {
                Ok((radicand, next)) => radical_parts(face, kind, level, size, radicand, next),
                Err(e) => Err(e),
            },
            Err(e) => Err(e),
        },
    }
}

/// A fraction of laid-out parts: the fraction layout of their boxes, the
/// numerator's paints, the rule, then the denominator's paints.
pub open spec fn fraction_parts(
    face: MathFontFace,
    kind: MathNodeKind,
    level: u8,
    size: i64,
    top: LaidBox,
    bottom: LaidBox,
    ordinal: u32,
) -> Laid {
    match fraction_layout(
        face,
        kind,
        level,
        size,
        (top.width, top.ascent, top.descent),
        (bottom.width, bottom.ascent, bottom.descent),
    ) {
        Some((width, ascent, descent, top_x, top_y, bottom_x, bottom_y, rule_top)) => match (
            translated(top.paints, top_x, top_y),
            translated(bottom.paints, bottom_x, bottom_y),
        ) {
            (Ok(upper), Ok(lower)) => {
                let rule = fraction_constants(face, kind, level, size)->Some_0.0;
                Ok(
                    (
                        LaidBox {
                            width: width as i64,
                            ascent: ascent as i64,
                            descent: descent as i64,
                            italic: 0,
                            paints: upper.push(MathPaint::Rule(rule_at(0, rule_top as i64, width as i64, rule)))
                                + lower,
                        },
                        ordinal,
                    ),
                )
            },
            _ => overflow(),
        },
        None => overflow(),
    }
}

/// The radical sign of a radicand: the first vertical variant of the sign
/// tall enough for the radicand, the gap and the rule, or the sign itself.
pub open spec fn radical_sign(face: MathFontFace, size: i64, target: u16, ordinal: u32) -> Laid {
    match face.spec_glyph_id('\u{221A}') {
        Ok(base) => match face.record_of(base) {
            Some(g) => if target > g.height {
                match face.spec_vertical_variant(base, target) {
                    Ok((variant, advance)) => glyph_layout(face, '\u{221A}', variant, size, Some(advance), ordinal),
                    Err(e) => Err(MathComputationError::Font(e)),
                }
            } else {
                glyph_layout(face, '\u{221A}', base, size, None, ordinal)
            },
            None => Err(MathComputationError::Font(MathFontError::MissingGlyph)),
        },
        Err(e) => Err(MathComputationError::Font(e)),
    }
}

/// A radical over a laid-out radicand: the sign, a rule over the radicand
/// a gap above it, the radicand after the sign.
pub open spec fn radical_parts(
    face: MathFontFace,
    kind: MathNodeKind,
    level: u8,
    size: i64,
    radicand: LaidBox,
    ordinal: u32,
) -> Laid {
    let c = face.constants;
    let gap_units = if level == 0 && kind == MathNodeKind::Display {
        c.radical_display_vertical_gap
    } else {
        c.radical_vertical_gap
    };
    match (
        scaled_at(face, larger(gap_units as i64, 0) as int, size),
        scaled_at(face, c.radical_rule_thickness as int, size),
    ) {
        (Ok(gap), Ok(thickness)) => {
            let rule = larger(thickness, 1);
            match add_spec(radicand.ascent as int, radicand.descent as int) {
                Ok(extent) => match add_spec(gap as int, rule as int) {
                    Ok(clearance) => match add_spec(extent as int, clearance as int) {
                        Ok(target_raw) => match unscaled_ceiling(target_raw, size, face.units_per_em) {
                            Some(target) => match radical_sign(face, size, target, ordinal) {
                                Ok((sign, next)) => match translated(radicand.paints, sign.width as int, 0) {
                                    Ok(moved) => match add_spec(sign.width as int, radicand.width as int) {
                                        Ok(width) => match add_spec(radicand.ascent as int, gap as int) {
                                            Ok(over) => match add_spec(over as int, rule as int) {
                                                Ok(covered) => match sub_spec(0, over as int) {
                                                    Ok(bar_y) => Ok(
                                                        (
                                                            LaidBox {
                                                                width,
                                                                ascent: larger(sign.ascent, covered),
                                                                descent: larger(sign.descent, radicand.descent),
                                                                italic: 0,
                                                                paints: sign.paints.push(
                                                                    MathPaint::Rule(
                                                                        rule_at(sign.width, bar_y, radicand.width, rule),
                                                                    ),
                                                                ) + moved,
                                                            },
                                                            next,
                                                        ),
                                                    ),
                                                    Err(e) => Err(e),
                                                },
                                                Err(e) => Err(e),
                                            },
                                            Err(e) => Err(e),
                                        },
                                        Err(e) => Err(e),
                                    },
                                    Err(e) => Err(e),
                                },
                                Err(e) => Err(e),
                            },
                            None => overflow(),
                        },
                        Err(e) => Err(e),
                    },
                    Err(e) => Err(e),
                },
                Err(e) => Err(e),
            }
        },
        _ => overflow(),
    }
}

} // verus!
