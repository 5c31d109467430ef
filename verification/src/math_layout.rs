//! Integer math layout: rows, scripts, tokens, symbols, fractions and
//! radicals laid out from the font's MATH constants. Every box and paint
//! command is charged against the reserved work, which makes the accounting
//! pass exact.
use vstd::prelude::*;
use crate::math_arith::{
    Checked, MathComputationError, add_spec, fits_i64, checked_add, overflow, sub_spec, scale_spec, checked_add_u64, checked_sub, round_ratio,
    scale_font_units, unscale_font_units_ceiling,
};
use crate::math_ast::{Atom, AtomView, Row, Term, TermView};
use crate::math_font::MathFontFace;
use crate::math_paint::{MathGlyphPaint, MathPaint, MathRulePaint, OriginalGlyphId, translate_paints, translated};
use crate::math_source::MathNodeKind;
use crate::math_shape::{
    Laid, LaidBox, atom_layout, glyph_layout, row_layout, row_prefix, scripts_layout, symbol_layout, term_layout,
    token_layout, token_prefix,
};
use crate::math_work::{
    LayoutWorkBudget, atom_boxes, atom_paints, option_boxes, option_paints, row_boxes, row_paints, term_boxes,
    term_paints, terms_boxes, terms_paints,
};

verus! {

pub(crate) struct LayoutBox {
    pub(crate) width: i64,
    pub(crate) ascent: i64,
    pub(crate) descent: i64,
    pub(crate) paints: Vec<MathPaint>,
    pub(crate) box_count: u64,
    pub(crate) italic_correction: i64,
}

/// The larger of two lengths.
pub open spec fn larger(a: i64, b: i64) -> i64 {
    if a >= b {
        a
    } else {
        b
    }
}

/// A MATH constant scaled to a size.
pub open spec fn scaled_constant(face: MathFontFace, constant: i16, size: i64) -> Checked<i64> {
    scale_spec(constant as int, size as int, face.units_per_em as int)
}

/// The font size of a script level: the root size, then the two script
/// scale-downs of the MATH table.
pub open spec fn level_size(face: MathFontFace, root: i64, level: u8) -> Checked<i64> {
    if level == 0 {
        Ok(root)
    } else {
        let percent = if level == 1 {
            face.constants.script_percent_scale_down
        } else {
            face.constants.script_script_percent_scale_down
        };
        crate::math_arith::round_ratio_spec(root as int, percent as int, 100)
    }
}

/// Ascent and descent grown evenly to a stretched variant's height `total`
/// when it is taller than the nominal box: half the growth, rounded half to
/// even, goes above the baseline and the rest below.
pub open spec fn stretched(ascent: i64, descent: i64, total: i64) -> Checked<(i64, i64)> {
    match add_spec(ascent as int, descent as int) {
        Ok(nominal) => if total <= nominal {
            Ok((ascent, descent))
        } else {
            match sub_spec(total as int, nominal as int) {
                Ok(extra) => match crate::math_arith::round_ratio_spec(extra as int, 1, 2) {
                    Ok(up) => match (add_spec(ascent as int, up as int), add_spec(descent as int, extra - up)) {
                        (Ok(a), Ok(d)) => Ok((a, d)),
                        _ => overflow(),
                    },
                    Err(e) => Err(e),
                },
                Err(e) => Err(e),
            }
        },
        Err(e) => Err(e),
    }
}

/// The box of one glyph at `size`: as wide as its scaled advance, as high
/// and deep as the face's scaled ascent and descent, or as a stretched
/// variant's scaled vertical advance where that is taller.
pub open spec fn glyph_box(face: MathFontFace, glyph: OriginalGlyphId, size: i64, vertical: Option<u16>) -> Checked<
    (i64, i64, i64),
> {
    let em = face.units_per_em as int;
    match (scale_spec(face.ascent as int, size as int, em), scale_spec(-(face.descent as int), size as int, em)) {
        (Ok(ascent), Ok(descent)) => {
            let extent: Checked<(i64, i64)> = match vertical {
                None => Ok((ascent, descent)),
                Some(v) => match scale_spec(v as int, size as int, em) {
                    Ok(total) => stretched(ascent, descent, total),
                    Err(e) => Err(e),
                },
            };
            match extent {
                Ok((a, d)) => match face.record_of(glyph) {
                    Some(g) => match scale_spec(g.advance_width as int, size as int, em) {
                        Ok(w) => Ok((w, a, d)),
                        Err(e) => Err(e),
                    },
                    None => Err(MathComputationError::Font(crate::math_arith::MathFontError::MissingGlyph)),
                },
                Err(e) => Err(e),
            }
        },
        _ => overflow(),
    }
}

/// The symbols set as large operators.
pub open spec fn large_operator(c: char) -> bool {
    c == '\u{2211}' || c == '\u{220F}' || c == '\u{222B}'
}

/// Display style takes the stretched variant of a large operator.
pub open spec fn takes_display_variant(face: MathFontFace, c: char) -> bool {
    &&& large_operator(c)
    &&& face.spec_glyph_id(c) matches Ok(base)
    &&& face.record_of(base) matches Some(g)
    &&& g.height < face.constants.display_operator_min_height
}

/// The scaled vertical advance of the variant that display style takes for
/// a large operator at `size`, if it takes one.
pub open spec fn display_variant_height(face: MathFontFace, c: char, size: i64) -> Option<i64> {
    if takes_display_variant(face, c) {
        match face.spec_vertical_variant(face.spec_glyph_id(c)->Ok_0, face.constants.display_operator_min_height) {
            Ok((_, advance)) => match scale_spec(advance as int, size as int, face.units_per_em as int) {
                Ok(total) => Some(total),
                Err(_) => None,
            },
            Err(_) => None,
        }
    } else {
        None
    }
}

/// A stretched box is never shorter than the nominal one, and grows above
/// the baseline once the variant exceeds it by two units or more.
proof fn lemma_stretched_grows(ascent: i64, descent: i64, total: i64)
    requires
        stretched(ascent, descent, total) is Ok,
    ensures
        stretched(ascent, descent, total) matches Ok((a, d)) && a >= ascent && d >= descent && (total >= ascent
            + descent + 2 ==> a > ascent),
{
    let nominal = ascent + descent;
    if total > nominal {
        let extra = total - nominal;
        let q = extra / 2;
        let m = extra % 2;
        assert(extra == 2 * q + m && 0 <= m < 2);
        assert(0 <= crate::math_arith::nearest_even(extra, 2) <= extra);
        assert(extra >= 2 ==> crate::math_arith::nearest_even(extra, 2) >= 1);
    }
}

/// The same symbol at the top level in display and inline style: the
/// display box is never shorter above or below the baseline, and where
/// display style takes a large operator's variant whose scaled height exceeds
/// the nominal box by two units or more, it stands strictly higher.
pub proof fn lemma_display_symbol_not_shorter(face: MathFontFace, root: i64, c: char, ordinal: u32)
    requires
        symbol_layout(face, MathNodeKind::Inline, root, 0, c, ordinal) is Ok,
        symbol_layout(face, MathNodeKind::Display, root, 0, c, ordinal) is Ok,
    ensures
        ({
            let inline = symbol_layout(face, MathNodeKind::Inline, root, 0, c, ordinal)->Ok_0.0;
            let display = symbol_layout(face, MathNodeKind::Display, root, 0, c, ordinal)->Ok_0.0;
            &&& display.ascent >= inline.ascent
            &&& display.descent >= inline.descent
            &&& (display_variant_height(face, c, root) matches Some(total) && total >= inline.ascent + inline.descent + 2
                ==> display.ascent > inline.ascent)
        }),
{
    let em = face.units_per_em as int;
    if takes_display_variant(face, c) {
        let base = face.spec_glyph_id(c)->Ok_0;
        let min = face.constants.display_operator_min_height;
        let (variant, advance) = face.spec_vertical_variant(base, min)->Ok_0;
        let ascent = scale_spec(face.ascent as int, root as int, em)->Ok_0;
        let descent = scale_spec(-(face.descent as int), root as int, em)->Ok_0;
        let total = scale_spec(advance as int, root as int, em)->Ok_0;
        lemma_stretched_grows(ascent, descent, total);
    }
}

/// Division truncated toward zero, as integer division rounds in code.
pub open spec fn truncated(value: int, divisor: int) -> int {
    if value >= 0 {
        value / divisor
    } else {
        -((-value) / divisor)
    }
}

/// Whether a fraction at `level` is set in display style.
pub open spec fn display_fraction(kind: MathNodeKind, level: u8) -> bool {
    level == 0 && kind == MathNodeKind::Display
}

/// The scaled constants of a fraction at `size`: rule thickness (at least
/// one unit), numerator and denominator gaps (never negative), math axis,
/// and numerator and denominator shifts, in display or text style.
pub open spec fn fraction_constants(face: MathFontFace, kind: MathNodeKind, level: u8, size: i64) -> Option<
    (i64, i64, i64, i64, i64, i64),
> {
    let c = face.constants;
    let display = display_fraction(kind, level);
    let top_gap = if display {
        c.fraction_numerator_display_gap_min
    } else {
        c.fraction_numerator_gap_min
    };
    let bottom_gap = if display {
        c.fraction_denominator_display_gap_min
    } else {
        c.fraction_denominator_gap_min
    };
    let up = if display {
        c.fraction_numerator_display_shift_up
    } else {
        c.fraction_numerator_shift_up
    };
    let down = if display {
        c.fraction_denominator_display_shift_down
    } else {
        c.fraction_denominator_shift_down
    };
    let em = face.units_per_em as int;
    match (
        scale_spec(c.fraction_rule_thickness as int, size as int, em),
        scale_spec(larger(top_gap as i64, 0) as int, size as int, em),
        scale_spec(larger(bottom_gap as i64, 0) as int, size as int, em),
        scale_spec(c.axis_height as int, size as int, em),
        scale_spec(up as int, size as int, em),
        scale_spec(down as int, size as int, em),
    ) {
        (Ok(rule), Ok(tg), Ok(bg), Ok(axis), Ok(u), Ok(d)) => Some((larger(rule, 1), tg, bg, axis, u, d)),
        _ => None,
    }
}

/// A fraction at `size` over a numerator box and a denominator box (each
/// width, ascent, descent): both centred in the wider one plus a side
/// bearing of a tenth of the size (at least one unit) on each side; the
/// rule centred on the axis; the numerator raised by the larger of its
/// shift and what keeps its gap above the rule, the denominator lowered by
/// the larger of its shift and what keeps its gap below. Gives the box
/// (width, ascent, descent), the numerator's and the denominator's offsets,
/// and the rule's top, each checked against `i64`.
pub open spec fn fraction_layout(
    face: MathFontFace,
    kind: MathNodeKind,
    level: u8,
    size: i64,
    top: (i64, i64, i64),
    bottom: (i64, i64, i64),
) -> Option<(int, int, int, int, int, int, int, int)> {
    match fraction_constants(face, kind, level, size) {
        Some((rule, top_gap, bottom_gap, axis, up, down)) => {
            let (tw, ta, td) = top;
            let (bw, ba, bd) = bottom;
            let side = larger(truncated(size as int, 10) as i64, 1) as int;
            let inner = larger(tw, bw) as int;
            let width = inner + 2 * side;
            let top_x = side + truncated(inner - tw, 2);
            let bottom_x = side + truncated(inner - bw, 2);
            let above = rule / 2;
            let rule_top = -axis - above;
            let top_clear = top_gap + td;
            let top_min = axis + above + top_clear;
            let top_shift = if up >= top_min { up as int } else { top_min };
            let bottom_clear = bottom_gap + ba;
            let bottom_min = rule - above - axis + bottom_clear;
            let bottom_shift = if down >= bottom_min { down as int } else { bottom_min };
            let ascent = ta + top_shift;
            let descent = bd + bottom_shift;
            if fits_i64(2 * side) && fits_i64(width) && fits_i64(inner - tw) && fits_i64(top_x) && fits_i64(
                inner - bw,
            ) && fits_i64(bottom_x) && fits_i64(-axis) && fits_i64(rule_top) && fits_i64(axis + above) && fits_i64(
                top_clear,
            ) && fits_i64(top_min) && fits_i64(rule - above - axis) && fits_i64(bottom_clear) && fits_i64(bottom_min)
                && fits_i64(top_shift) && fits_i64(-top_shift) && fits_i64(ascent) && fits_i64(descent) {
                Some((width, ascent, descent, top_x, -top_shift, bottom_x, bottom_shift, rule_top))
            } else {
                None
            }
        },
        None => None,
    }
}

/// The level of a fraction's parts or of scripts below `level`.
pub open spec fn child_level(level: u8) -> u8 {
    if level == u8::MAX {
        u8::MAX
    } else {
        (level + 1) as u8
    }
}

/// The subscript drop below the base: the largest of the constant shift,
/// the base's descent plus the minimal baseline drop, and the script's
/// ascent above the top limit.
pub open spec fn subscript_drop(face: MathFontFace, size: i64, base_descent: i64, script_ascent: i64) -> Checked<i64> {
    let c = face.constants;
    let shift = scaled_constant(face, c.subscript_shift_down, size);
    let drop = scaled_constant(face, c.subscript_baseline_drop_min, size);
    let top_max = scaled_constant(face, c.subscript_top_max, size);
    if shift is Err || drop is Err || top_max is Err {
        overflow()
    } else {
        let dropped = add_spec(base_descent as int, drop->Ok_0 as int);
        let clear = sub_spec(script_ascent as int, top_max->Ok_0 as int);
        if dropped is Err || clear is Err {
            overflow()
        } else {
            Ok(larger(larger(shift->Ok_0, dropped->Ok_0), clear->Ok_0))
        }
    }
}

/// The superscript rise above the base: the largest of the constant shift
/// (cramped below the top level), the base's ascent less the maximal
/// baseline drop, and the script's descent above the bottom minimum.
pub open spec fn superscript_rise(
    face: MathFontFace,
    level: u8,
    size: i64,
    base_ascent: i64,
    script_descent: i64,
) -> Checked<i64> {
    let c = face.constants;
    let shift = scaled_constant(
        face,
        if level == 0 {
            c.superscript_shift_up
        } else {
            c.superscript_shift_up_cramped
        },
        size,
    );
    let drop = scaled_constant(face, c.superscript_baseline_drop_max, size);
    let bottom = scaled_constant(face, c.superscript_bottom_min, size);
    if shift is Err || drop is Err || bottom is Err {
        overflow()
    } else {
        let raised = sub_spec(base_ascent as int, drop->Ok_0 as int);
        let clear = add_spec(script_descent as int, bottom->Ok_0 as int);
        if raised is Err || clear is Err {
            overflow()
        } else {
            Ok(larger(larger(shift->Ok_0, raised->Ok_0), clear->Ok_0))
        }
    }
}

/// With both scripts: the rise is at least the subscript-limited bottom,
/// and the drop grows until the gap between the scripts reaches its minimum.
pub open spec fn paired_shifts(
    face: MathFontFace,
    size: i64,
    sub_shift: i64,
    super_shift: i64,
    sub_ascent: i64,
    sup_descent: i64,
) -> Checked<(i64, i64)> {
    let c = face.constants;
    let bottom_max = scaled_constant(face, c.superscript_bottom_max_with_subscript, size);
    if bottom_max is Err {
        overflow()
    } else {
        let limit = add_spec(sup_descent as int, bottom_max->Ok_0 as int);
        if limit is Err {
            overflow()
        } else {
            let rise = larger(super_shift, limit->Ok_0);
            let gap_min = scaled_constant(face, c.sub_superscript_gap_min, size);
            let shifts = add_spec(sub_shift as int, rise as int);
            let extents = add_spec(sub_ascent as int, sup_descent as int);
            if gap_min is Err || shifts is Err || extents is Err {
                overflow()
            } else {
                let gap = sub_spec(shifts->Ok_0 as int, extents->Ok_0 as int);
                if gap is Err {
                    overflow()
                } else if gap->Ok_0 < gap_min->Ok_0 {
                    let missing = sub_spec(gap_min->Ok_0 as int, gap->Ok_0 as int);
                    if missing is Err {
                        overflow()
                    } else {
                        let dropped = add_spec(sub_shift as int, missing->Ok_0 as int);
                        if dropped is Err {
                            overflow()
                        } else {
                            Ok((dropped->Ok_0, rise))
                        }
                    }
                } else {
                    Ok((sub_shift, rise))
                }
            }
        }
    }
}

/// Subscript drop and superscript rise of a base with the given scripts
/// (each given by its ascent and descent).
pub open spec fn script_shifts_spec(
    face: MathFontFace,
    level: u8,
    size: i64,
    base_ascent: i64,
    base_descent: i64,
    sub: Option<(i64, i64)>,
    sup: Option<(i64, i64)>,
) -> Checked<(i64, i64)> {
    let sub_shift: Checked<i64> = match sub {
        Some((a, _)) => subscript_drop(face, size, base_descent, a),
        None => Ok(0i64),
    };
    let super_shift: Checked<i64> = match sup {
        Some((_, d)) => superscript_rise(face, level, size, base_ascent, d),
        None => Ok(0i64),
    };
    if sub_shift is Err || super_shift is Err {
        overflow()
    } else {
        match (sub, sup) {
            (Some((a, _)), Some((_, d))) => paired_shifts(face, size, sub_shift->Ok_0, super_shift->Ok_0, a, d),
            _ => Ok((sub_shift->Ok_0, super_shift->Ok_0)),
        }
    }
}

/// With both scripts the shifts keep the scripts apart: the subscript's top
/// and the superscript's bottom end at least the scaled minimal gap between
/// scripts apart; neither script moves toward the base from its own shift,
/// the superscript's bottom stays at most the scaled maximal bottom below
/// the base line; and the subscript is lowered no further than that gap
/// needs.
pub proof fn lemma_paired_shifts_keep_gap(
    face: MathFontFace,
    size: i64,
    sub_shift: i64,
    super_shift: i64,
    sub_ascent: i64,
    sup_descent: i64,
)
    requires
        paired_shifts(face, size, sub_shift, super_shift, sub_ascent, sup_descent) is Ok,
    ensures
        ({
            let (lowered, raised) = paired_shifts(face, size, sub_shift, super_shift, sub_ascent, sup_descent)->Ok_0;
            let c = face.constants;
            &&& scaled_constant(face, c.sub_superscript_gap_min, size) matches Ok(gap_min)
            &&& lowered + raised - sub_ascent - sup_descent >= gap_min
            &&& (lowered == sub_shift || lowered + raised - sub_ascent - sup_descent == gap_min)
            &&& lowered >= sub_shift
            &&& raised >= super_shift
            &&& scaled_constant(face, c.superscript_bottom_max_with_subscript, size) matches Ok(bottom_max)
            &&& raised >= sup_descent + bottom_max
        }),
{
}

/// A term with both scripts: the subscript's top and the superscript's
/// bottom end at least the scaled minimal gap between scripts apart, and
/// each shift is at least the one its script would have alone.
pub proof fn lemma_script_shifts_keep_gap(
    face: MathFontFace,
    level: u8,
    size: i64,
    base_ascent: i64,
    base_descent: i64,
    sub: (i64, i64),
    sup: (i64, i64),
)
    requires
        script_shifts_spec(face, level, size, base_ascent, base_descent, Some(sub), Some(sup)) is Ok,
    ensures
        ({
            let (lowered, raised) = script_shifts_spec(
                face,
                level,
                size,
                base_ascent,
                base_descent,
                Some(sub),
                Some(sup),
            )->Ok_0;
            &&& scaled_constant(face, face.constants.sub_superscript_gap_min, size) matches Ok(gap_min)
            &&& lowered + raised - sub.0 - sup.1 >= gap_min
            &&& subscript_drop(face, size, base_descent, sub.0) matches Ok(alone) && lowered >= alone
            &&& superscript_rise(face, level, size, base_ascent, sup.1) matches Ok(alone_up) && raised >= alone_up
        }),
{
    let d = subscript_drop(face, size, base_descent, sub.0)->Ok_0;
    let u = superscript_rise(face, level, size, base_ascent, sup.1)->Ok_0;
    lemma_paired_shifts_keep_gap(face, size, d, u, sub.0, sup.1);
}

/// A layout step's answer is the one the spec gives: the same box, paints
/// and following glyph ordinal, or the same error.
pub(crate) open spec fn agrees(r: Checked<LayoutBox>, s: Laid, ordinal: u32) -> bool {
    match s {
        Ok((b, next)) => r matches Ok(x) && x.width == b.width && x.ascent == b.ascent && x.descent == b.descent
            && x.italic_correction == b.italic && x.paints@ == b.paints && ordinal == next,
        Err(e) => r == Err::<LayoutBox, MathComputationError>(e),
    }
}

/// Once the first `n` characters of a token fail, every longer prefix
/// fails the same way.
proof fn lemma_token_prefix_stops(face: MathFontFace, size: i64, chars: Seq<char>, n: int, m: int, ordinal: u32)
    requires
        n <= m,
    ensures
        token_prefix(face, size, chars, n, ordinal) is Err ==> token_prefix(face, size, chars, m, ordinal)
            == token_prefix(face, size, chars, n, ordinal),
    decreases m - n,
{
    if n < m {
        lemma_token_prefix_stops(face, size, chars, n, m - 1, ordinal);
    }
}

pub(crate) struct LayoutContext<'a> {
    pub(crate) face: &'a MathFontFace,
    pub(crate) kind: MathNodeKind,
    pub(crate) root_size: i64,
    pub(crate) logical_ordinal: u32,
    pub(crate) work: LayoutWorkBudget,
}

/// A layout step kept the context's inputs, and a box it answers carries
/// `boxes` boxes and `paints` paints, charged to the work budget.
pub(crate) open spec fn laid_out<'a>(
    before: LayoutContext<'a>,
    after: LayoutContext<'a>,
    r: Checked<LayoutBox>,
    boxes: nat,
    paints: nat,
) -> bool {
    &&& after.face == before.face
    &&& after.kind == before.kind
    &&& after.root_size == before.root_size
    &&& after.work.maximum == before.work.maximum
    &&& r matches Err(e) ==> e != MathComputationError::ReceiptMismatch
    &&& r matches Ok(b) ==> b.box_count == boxes && b.paints@.len() == paints && after.work.consumed
        == before.work.consumed + boxes + paints
}

/// The work budget has room for `units` more.
pub(crate) open spec fn room<'a>(c: LayoutContext<'a>, units: nat) -> bool {
    c.work.consumed + units <= c.work.maximum
}

fn max_i64(a: i64, b: i64) -> (r: i64)
    ensures
        r == if a >= b {
            a
        } else {
            b
        },
{
    if a >= b {
        a
    } else {
        b
    }
}

/// Division truncating toward zero, as Rust's `/` on integers.
fn trunc_div(value: i64, divisor: i64) -> (r: i64)
    requires
        divisor > 0,
    ensures
        value >= 0 ==> r == value / divisor,
        value < 0 ==> r == -((-(value as int)) / (divisor as int)),
{
    if value >= 0 {
        ((value as u64) / (divisor as u64)) as i64
    } else {
        let magnitude: u64 = if value == i64::MIN {
            0x8000_0000_0000_0000u64
        } else {
            (-value) as u64
        };
        let q = magnitude / (divisor as u64);
        assert(q <= 0x8000_0000_0000_0000u64);
        if q == 0x8000_0000_0000_0000u64 {
            i64::MIN
        } else {
            -(q as i64)
        }
    }
}

/// Move a script's paints to `(x, y)` and add them and its boxes to the
/// base; answers the script's right edge.
fn attach_script(base: &mut LayoutBox, script: LayoutBox, x: i64, y: i64) -> (r: Checked<i64>)
    ensures
        r is Ok ==> final(base).box_count == old(base).box_count + script.box_count
            && final(base).paints@.len() == old(base).paints@.len() + script.paints@.len(),
        r matches Err(e) ==> e == MathComputationError::ArithmeticOverflow,
        r is Ok <==> translated(script.paints@, x as int, y as int) is Ok && add_spec(x as int, script.width as int) is Ok
            && old(base).box_count + script.box_count <= u64::MAX,
        r matches Ok(reach) ==> add_spec(x as int, script.width as int) == Ok::<i64, MathComputationError>(reach)
            && final(base).paints@ == old(base).paints@ + translated(script.paints@, x as int, y as int)->Ok_0
            && final(base).width == old(base).width && final(base).ascent == old(base).ascent && final(base).descent
            == old(base).descent && final(base).italic_correction == old(base).italic_correction,
{
    let mut script = script;
    match translate_paints(&mut script.paints, x, y) {
        Ok(()) => {},
        Err(e) => return Err(e),
    }
    let reach = match checked_add(x, script.width) {
        Ok(v) => v,
        Err(e) => return Err(e),
    };
    base.box_count = match checked_add_u64(base.box_count, script.box_count) {
        Ok(v) => v,
        Err(e) => return Err(e),
    };
    base.paints.append(&mut script.paints);
    Ok(reach)
}

proof fn lemma_terms_step(terms: Seq<TermView>, i: int)
    requires
        0 <= i < terms.len(),
    ensures
        terms_boxes(terms.take(i + 1)) == terms_boxes(terms.take(i)) + term_boxes(terms[i]),
        terms_paints(terms.take(i + 1)) == terms_paints(terms.take(i)) + term_paints(terms[i]),
{
    let t = terms.take(i + 1);
    assert(t.subrange(0, t.len() - 1) =~= terms.take(i));
}

/// The boxes and paints of a prefix of terms are within those of all of them.
proof fn lemma_terms_prefix_bound(terms: Seq<TermView>, k: int)
    requires
        0 <= k <= terms.len(),
    ensures
        terms_boxes(terms.take(k)) <= terms_boxes(terms),
        terms_paints(terms.take(k)) <= terms_paints(terms),
    decreases terms.len() - k,
{
    if k < terms.len() {
        lemma_terms_step(terms, k);
        lemma_terms_prefix_bound(terms, k + 1);
    } else {
        assert(terms.take(k) =~= terms);
    }
}

/// Once the first `n` terms of a row fail, every longer prefix fails the
/// same way.
proof fn lemma_row_prefix_stops(
    face: MathFontFace,
    kind: MathNodeKind,
    root: i64,
    level: u8,
    row: Seq<TermView>,
    n: int,
    m: int,
    ordinal: u32,
)
    requires
        1 <= n <= m <= row.len(),
    ensures
        row_prefix(face, kind, root, level, row, n, ordinal) is Err ==> row_prefix(face, kind, root, level, row, m, ordinal)
            == row_prefix(face, kind, root, level, row, n, ordinal),
    decreases m - n,
{
    if n < m {
        lemma_row_prefix_stops(face, kind, root, level, row, n, m - 1, ordinal);
    }
}

impl<'a> LayoutContext<'a> {
    /// The font size of a script level: the root size, then the two
    /// script scale-downs of the MATH table.
    fn size_for_level(&self, level: u8) -> (r: Checked<i64>)
        ensures
            r == level_size(*self.face, self.root_size, level),
            level == 0 ==> r == Ok::<i64, MathComputationError>(self.root_size),
            r matches Err(e) ==> e == MathComputationError::ArithmeticOverflow,
    {
        if level == 0 {
            return Ok(self.root_size);
        }
        let percent: i16 = if level == 1 {
            self.face.constants.script_percent_scale_down
        } else {
            self.face.constants.script_script_percent_scale_down
        };
        round_ratio(self.root_size, percent as i64, 100)
    }

    fn scaled(&self, units: i64, size: i64) -> (r: Checked<i64>)
        ensures
            r == scale_spec(units as int, size as int, self.face.units_per_em as int),
    {
        scale_font_units(units, size, self.face.units_per_em)
    }

    #[verifier::rlimit(40)]
    pub(crate) fn layout_row(&mut self, row: &Row, level: u8) -> (r: Checked<LayoutBox>)
        ensures
            laid_out(*old(self), *final(self), r, row_boxes(row.view()), row_paints(row.view())),
            room(*old(self), row_boxes(row.view()) + row_paints(row.view())) ==> agrees(
                r,
                row_layout(*old(self).face, old(self).kind, old(self).root_size, level, row.view(), old(self).logical_ordinal),
                final(self).logical_ordinal,
            ),
        decreases row, 0int,
    {
        match self.work.charge(1) {
            Ok(()) => {},
            Err(e) => return Err(e),
        }
        let ghost view = row.view();
        let ghost start = *old(self);
        let ghost enough = room(start, row_boxes(view) + row_paints(view));
        let mut output = LayoutBox {
            width: 0,
            ascent: 0,
            descent: 0,
            paints: Vec::new(),
            box_count: 1,
            italic_correction: 0,
        };
        let mut index: usize = 0;
        assert(view.take(0) =~= Seq::<TermView>::empty());
        assert(output.paints@ =~= Seq::<MathPaint>::empty());
        while index < row.terms.len()
            invariant
                0 <= index <= row.terms@.len(),
                view == row.view(),
                view.len() == row.terms@.len(),
                forall|i: int| 0 <= i < row.terms@.len() ==> #[trigger] view[i] == row.terms@[i].view(),
                start == *old(self),
                enough == room(start, row_boxes(view) + row_paints(view)),
                self.face == start.face,
                self.kind == start.kind,
                self.root_size == start.root_size,
                self.work.maximum == start.work.maximum,
                output.box_count == 1 + terms_boxes(view.take(index as int)),
                output.paints@.len() == terms_paints(view.take(index as int)),
                self.work.consumed == start.work.consumed + 1 + terms_boxes(view.take(index as int))
                    + terms_paints(view.take(index as int)),
                enough ==> row_prefix(*start.face, start.kind, start.root_size, level, view, index as int, start.logical_ordinal)
                    == Ok::<(LaidBox, u32), MathComputationError>(
                    (
                        LaidBox {
                            width: output.width,
                            ascent: output.ascent,
                            descent: output.descent,
                            italic: output.italic_correction,
                            paints: output.paints@,
                        },
                        self.logical_ordinal,
                    ),
                ),
            decreases row.terms.len() - index,
        {
            proof {
                lemma_terms_step(view, index as int);
                lemma_terms_prefix_bound(view, index as int + 1);
                lemma_row_prefix_stops(
                    *start.face,
                    start.kind,
                    start.root_size,
                    level,
                    view,
                    index as int + 1,
                    view.len() as int,
                    start.logical_ordinal,
                );
            }
            assert(view[index as int] == row.terms@[index as int].view());
            let mut item = match self.layout_term(&row.terms[index], level) {
                Ok(item) => item,
                Err(e) => return Err(e),
            };
            match translate_paints(&mut item.paints, output.width, 0) {
                Ok(()) => {},
                Err(e) => return Err(e),
            }
            output.width = match checked_add(output.width, item.width) {
                Ok(v) => v,
                Err(e) => return Err(e),
            };
            output.ascent = max_i64(output.ascent, item.ascent);
            output.descent = max_i64(output.descent, item.descent);
            output.box_count = match checked_add_u64(output.box_count, item.box_count) {
                Ok(v) => v,
                Err(e) => return Err(e),
            };
            output.italic_correction = item.italic_correction;
            output.paints.append(&mut item.paints);
            index = index + 1;
        }
        assert(view.take(row.terms@.len() as int) =~= view);
        Ok(output)
    }

    fn subscript_drop_at(&self, base_size: i64, base_descent: i64, script_ascent: i64) -> (r: Checked<i64>)
        ensures
            r == subscript_drop(*self.face, base_size, base_descent, script_ascent),
    {
        let constants = self.face.constants;
        let shift = match self.scaled(constants.subscript_shift_down as i64, base_size) {
            Ok(v) => v,
            Err(e) => return Err(e),
        };
        let drop = match self.scaled(constants.subscript_baseline_drop_min as i64, base_size) {
            Ok(v) => v,
            Err(e) => return Err(e),
        };
        let top_max = match self.scaled(constants.subscript_top_max as i64, base_size) {
            Ok(v) => v,
            Err(e) => return Err(e),
        };
        let dropped = match checked_add(base_descent, drop) {
            Ok(v) => v,
            Err(e) => return Err(e),
        };
        let clear = match checked_sub(script_ascent, top_max) {
            Ok(v) => v,
            Err(e) => return Err(e),
        };
        Ok(max_i64(max_i64(shift, dropped), clear))
    }

    fn superscript_rise_at(&self, level: u8, base_size: i64, base_ascent: i64, script_descent: i64) -> (r: Checked<
        i64,
    >)
        ensures
            r == superscript_rise(*self.face, level, base_size, base_ascent, script_descent),
    {
        let constants = self.face.constants;
        let shift_constant = if level == 0 {
            constants.superscript_shift_up
        } else {
            constants.superscript_shift_up_cramped
        };
        let shift = match self.scaled(shift_constant as i64, base_size) {
            Ok(v) => v,
            Err(e) => return Err(e),
        };
        let drop = match self.scaled(constants.superscript_baseline_drop_max as i64, base_size) {
            Ok(v) => v,
            Err(e) => return Err(e),
        };
        let bottom = match self.scaled(constants.superscript_bottom_min as i64, base_size) {
            Ok(v) => v,
            Err(e) => return Err(e),
        };
        let raised = match checked_sub(base_ascent, drop) {
            Ok(v) => v,
            Err(e) => return Err(e),
        };
        let clear = match checked_add(script_descent, bottom) {
            Ok(v) => v,
            Err(e) => return Err(e),
        };
        Ok(max_i64(max_i64(shift, raised), clear))
    }

    fn paired_shifts_at(
        &self,
        base_size: i64,
        sub_shift: i64,
        super_shift: i64,
        sub_ascent: i64,
        sup_descent: i64,
    ) -> (r: Checked<(i64, i64)>)
        ensures
            r == paired_shifts(*self.face, base_size, sub_shift, super_shift, sub_ascent, sup_descent),
    {
        let constants = self.face.constants;
        let bottom_max = match self.scaled(constants.superscript_bottom_max_with_subscript as i64, base_size) {
            Ok(v) => v,
            Err(e) => return Err(e),
        };
        let limit = match checked_add(sup_descent, bottom_max) {
            Ok(v) => v,
            Err(e) => return Err(e),
        };
        let rise = max_i64(super_shift, limit);
        let gap_min = match self.scaled(constants.sub_superscript_gap_min as i64, base_size) {
            Ok(v) => v,
            Err(e) => return Err(e),
        };
        let shifts = match checked_add(sub_shift, rise) {
            Ok(v) => v,
            Err(e) => return Err(e),
        };
        let extents = match checked_add(sub_ascent, sup_descent) {
            Ok(v) => v,
            Err(e) => return Err(e),
        };
        let actual_gap = match checked_sub(shifts, extents) {
            Ok(v) => v,
            Err(e) => return Err(e),
        };
        if actual_gap < gap_min {
            let missing = match checked_sub(gap_min, actual_gap) {
                Ok(v) => v,
                Err(e) => return Err(e),
            };
            let dropped = match checked_add(sub_shift, missing) {
                Ok(v) => v,
                Err(e) => return Err(e),
            };
            Ok((dropped, rise))
        } else {
            Ok((sub_shift, rise))
        }
    }

    /// Subscript drop and superscript rise from the MATH constants at the
    /// base's size: each the largest of its constant shift and its clearance
    /// limits; with both scripts the gap between them is widened downward.
    fn script_shifts(
        &self,
        level: u8,
        base_size: i64,
        base_ascent: i64,
        base_descent: i64,
        sub: Option<(i64, i64)>,
        sup: Option<(i64, i64)>,
    ) -> (r: Checked<(i64, i64)>)
        ensures
            r == script_shifts_spec(*self.face, level, base_size, base_ascent, base_descent, sub, sup),
    {
        let sub_shift: i64 = match sub {
            Some((script_ascent, _)) => match self.subscript_drop_at(base_size, base_descent, script_ascent) {
                Ok(v) => v,
                Err(e) => return Err(e),
            },
            None => 0,
        };
        let super_shift: i64 = match sup {
            Some((_, script_descent)) => match self.superscript_rise_at(level, base_size, base_ascent, script_descent) {
                Ok(v) => v,
                Err(e) => return Err(e),
            },
            None => 0,
        };
        match (sub, sup) {
            (Some((sub_ascent, _)), Some((_, sup_descent))) => self.paired_shifts_at(
                base_size,
                sub_shift,
                super_shift,
                sub_ascent,
                sup_descent,
            ),
            _ => Ok((sub_shift, super_shift)),
        }
    }

    fn layout_term(&mut self, term: &Term, level: u8) -> (r: Checked<LayoutBox>)
        ensures
            laid_out(*old(self), *final(self), r, term_boxes(term.view()), term_paints(term.view())),
            room(*old(self), term_boxes(term.view()) + term_paints(term.view())) ==> agrees(
                r,
                term_layout(*old(self).face, old(self).kind, old(self).root_size, level, term.view(), old(self).logical_ordinal),
                final(self).logical_ordinal,
            ),
        decreases term, 1int,
    {
        let ghost v = term.view();
        assert(v.atom == term.atom.view());
        assert(term.subscript matches Some(a) ==> v.subscript == Some(a.view()));
        assert(term.superscript matches Some(a) ==> v.superscript == Some(a.view()));
        assert(term.subscript is None ==> v.subscript is None);
        assert(term.superscript is None ==> v.superscript is None);
        match self.work.charge(1) {
            Ok(()) => {},
            Err(e) => return Err(e),
        }
        let mut base = match self.layout_atom(&term.atom, level) {
            Ok(b) => b,
            Err(e) => return Err(e),
        };
        base.box_count = match checked_add_u64(base.box_count, 1) {
            Ok(v) => v,
            Err(e) => return Err(e),
        };
        if term.subscript.is_none() && term.superscript.is_none() {
            return Ok(base);
        }
        self.layout_scripts(term, level, base)
    }

    /// Attach the scripts of a term to its laid-out base.
    #[verifier::rlimit(100)]
    #[verifier::spinoff_prover]
    fn layout_scripts(&mut self, term: &Term, level: u8, base: LayoutBox) -> (r: Checked<LayoutBox>)
        ensures
            final(self).face == old(self).face,
            final(self).kind == old(self).kind,
            final(self).root_size == old(self).root_size,
            final(self).work.maximum == old(self).work.maximum,
            r matches Err(e) ==> e != MathComputationError::ReceiptMismatch,
            r matches Ok(b) ==> b.box_count == base.box_count + option_boxes(term.view().subscript)
                + option_boxes(term.view().superscript) && b.paints@.len() == base.paints@.len()
                + option_paints(term.view().subscript) + option_paints(term.view().superscript)
                && final(self).work.consumed == old(self).work.consumed + option_boxes(
                term.view().subscript,
            ) + option_boxes(term.view().superscript) + option_paints(term.view().subscript)
                + option_paints(term.view().superscript),
            room(
                *old(self),
                option_boxes(term.view().subscript) + option_boxes(term.view().superscript) + option_paints(
                    term.view().subscript,
                ) + option_paints(term.view().superscript),
            ) && base.box_count + option_boxes(term.view().subscript) + option_boxes(term.view().superscript)
                <= u64::MAX ==> agrees(
                r,
                scripts_layout(
                    *old(self).face,
                    old(self).kind,
                    old(self).root_size,
                    level,
                    term.view(),
                    LaidBox {
                        width: base.width,
                        ascent: base.ascent,
                        descent: base.descent,
                        italic: base.italic_correction,
                        paints: base.paints@,
                    },
                    old(self).logical_ordinal,
                ),
                final(self).logical_ordinal,
            ),
        decreases term, 0int,
    {
        let ghost v = term.view();
        assert(term.subscript matches Some(a) ==> v.subscript == Some(a.view()));
        assert(term.superscript matches Some(a) ==> v.superscript == Some(a.view()));
        assert(term.subscript is None ==> v.subscript is None);
        assert(term.superscript is None ==> v.superscript is None);
        let mut base = base;
        let next_level: u8 = if level == u8::MAX {
            u8::MAX
        } else {
            level + 1
        };
        let base_size = match self.size_for_level(level) {
            Ok(v) => v,
            Err(e) => return Err(e),
        };
        let constants = self.face.constants;
        let mut subscript: Option<LayoutBox> = match &term.subscript {
            Some(atom) => match self.layout_atom(atom, next_level) {
                Ok(b) => Some(b),
                Err(e) => return Err(e),
            },
            None => None,
        };
        let mut superscript: Option<LayoutBox> = match &term.superscript {
            Some(atom) => match self.layout_atom(atom, next_level) {
                Ok(b) => Some(b),
                Err(e) => return Err(e),
            },
            None => None,
        };
        let sub_metrics: Option<(i64, i64)> = match &subscript {
            Some(script) => Some((script.ascent, script.descent)),
            None => None,
        };
        let sup_metrics: Option<(i64, i64)> = match &superscript {
            Some(script) => Some((script.ascent, script.descent)),
            None => None,
        };
        let (sub_shift, super_shift) = match self.script_shifts(
            level,
            base_size,
            base.ascent,
            base.descent,
            sub_metrics,
            sup_metrics,
        ) {
            Ok(shifts) => shifts,
            Err(e) => return Err(e),
        };
        let base_width = base.width;
        let mut right = base_width;
        let space_after = match self.scaled(constants.space_after_script as i64, base_size) {
            Ok(v) => v,
            Err(e) => return Err(e),
        };
        match subscript {
            Some(script) => {
                let below = match checked_add(sub_shift, script.descent) {
                    Ok(v) => v,
                    Err(e) => return Err(e),
                };
                let reach = match attach_script(&mut base, script, base_width, sub_shift) {
                    Ok(v) => v,
                    Err(e) => return Err(e),
                };
                let reach = match checked_add(reach, space_after) {
                    Ok(v) => v,
                    Err(e) => return Err(e),
                };
                right = max_i64(right, reach);
                base.descent = max_i64(base.descent, below);
            },
            None => {},
        }
        match superscript {
            Some(script) => {
                let x = match checked_add(base_width, max_i64(base.italic_correction, 0)) {
                    Ok(v) => v,
                    Err(e) => return Err(e),
                };
                let up = match checked_sub(0, super_shift) {
                    Ok(v) => v,
                    Err(e) => return Err(e),
                };
                let above = match checked_add(super_shift, script.ascent) {
                    Ok(v) => v,
                    Err(e) => return Err(e),
                };
                let reach = match attach_script(&mut base, script, x, up) {
                    Ok(v) => v,
                    Err(e) => return Err(e),
                };
                let reach = match checked_add(reach, space_after) {
                    Ok(v) => v,
                    Err(e) => return Err(e),
                };
                right = max_i64(right, reach);
                base.ascent = max_i64(base.ascent, above);
            },
            None => {},
        }
        base.width = right;
        base.italic_correction = 0;
        Ok(base)
    }

    fn layout_atom(&mut self, atom: &Atom, level: u8) -> (r: Checked<LayoutBox>)
        ensures
            laid_out(*old(self), *final(self), r, atom_boxes(atom.view()), atom_paints(atom.view())),
            room(*old(self), atom_boxes(atom.view()) + atom_paints(atom.view())) ==> agrees(
                r,
                atom_layout(*old(self).face, old(self).kind, old(self).root_size, level, atom.view(), old(self).logical_ordinal),
                final(self).logical_ordinal,
            ),
        decreases atom, 1int,
    {
        match atom {
            Atom::Identifier(value) => self.layout_token(value, level),
            Atom::Number(value) => self.layout_token(value, level),
            Atom::Operator(value) => self.layout_token(value, level),
            Atom::Symbol(value) => self.layout_symbol(*value, level),
            Atom::Group(row) => {
                match self.work.charge(1) {
                    Ok(()) => {},
                    Err(e) => return Err(e),
                }
                let mut result = match self.layout_row(row, level) {
                    Ok(b) => b,
                    Err(e) => return Err(e),
                };
                result.box_count = match checked_add_u64(result.box_count, 1) {
                    Ok(v) => v,
                    Err(e) => return Err(e),
                };
                Ok(result)
            },
            Atom::Fraction { .. } => self.layout_fraction(atom, level),
            Atom::Radical(_) => self.layout_radical(atom, level),
        }
    }

    /// One glyph per character, side by side on the baseline.
    fn layout_token(&mut self, value: &Vec<char>, level: u8) -> (r: Checked<LayoutBox>)
        ensures
            laid_out(*old(self), *final(self), r, 1, value@.len()),
            room(*old(self), 1 + value@.len()) ==> agrees(
                r,
                token_layout(*old(self).face, old(self).root_size, level, value@, old(self).logical_ordinal),
                final(self).logical_ordinal,
            ),
    {
        match self.work.charge(1) {
            Ok(()) => {},
            Err(e) => return Err(e),
        }
        let size = match self.size_for_level(level) {
            Ok(v) => v,
            Err(e) => return Err(e),
        };
        let ascent = match self.scaled(self.face.ascent as i64, size) {
            Ok(v) => v,
            Err(e) => return Err(e),
        };
        let descent = match self.scaled(-(self.face.descent as i64), size) {
            Ok(v) => v,
            Err(e) => return Err(e),
        };
        let mut width: i64 = 0;
        let mut italic_correction: i64 = 0;
        let mut paints: Vec<MathPaint> = Vec::new();
        match self.work.charge(value.len() as u64) {
            Ok(()) => {},
            Err(e) => return Err(e),
        }
        let ghost start = *self;
        let ghost first = old(self).logical_ordinal;
        let mut index: usize = 0;
        while index < value.len()
            invariant
                0 <= index <= value@.len(),
                paints@.len() == index,
                self.face == old(self).face,
                self.kind == old(self).kind,
                self.root_size == old(self).root_size,
                self.work == start.work,
                start.work.maximum == old(self).work.maximum,
                start.work.consumed == old(self).work.consumed + 1 + value@.len(),
                first == old(self).logical_ordinal,
                level_size(*self.face, self.root_size, level) == Ok::<i64, MathComputationError>(size),
                scale_spec(self.face.ascent as int, size as int, self.face.units_per_em as int) == Ok::<
                    i64,
                    MathComputationError,
                >(ascent),
                scale_spec(-(self.face.descent as int), size as int, self.face.units_per_em as int) == Ok::<
                    i64,
                    MathComputationError,
                >(descent),
                token_prefix(*self.face, size, value@, index as int, first) == Ok::<
                    (i64, i64, Seq<MathPaint>, u32),
                    MathComputationError,
                >((width, italic_correction, paints@, self.logical_ordinal)),
            decreases value.len() - index,
        {
            let character = value[index];
            proof {
                assert(character == value@[index as int]);
                lemma_token_prefix_stops(*self.face, size, value@, index as int + 1, value@.len() as int, first);
            }
            let glyph = match self.face.glyph_id(character) {
                Ok(g) => g,
                Err(e) => return Err(MathComputationError::Font(e)),
            };
            let units = match self.face.advance_width(glyph) {
                Ok(u) => u,
                Err(e) => return Err(MathComputationError::Font(e)),
            };
            let advance = match self.scaled(units as i64, size) {
                Ok(v) => v,
                Err(e) => return Err(e),
            };
            let ghost before = paints@;
            paints.push(
                MathPaint::Glyph(
                    MathGlyphPaint::at_origin(glyph, character, self.logical_ordinal, width, size, advance),
                ),
            );
            if self.logical_ordinal == u32::MAX {
                return Err(MathComputationError::ArithmeticOverflow);
            }
            self.logical_ordinal = self.logical_ordinal + 1;
            width = match checked_add(width, advance) {
                Ok(v) => v,
                Err(e) => return Err(e),
            };
            let italic = match self.face.italic_correction(glyph) {
                Ok(u) => u,
                Err(e) => return Err(MathComputationError::Font(e)),
            };
            italic_correction = match self.scaled(italic as i64, size) {
                Ok(v) => v,
                Err(e) => return Err(e),
            };
            index = index + 1;
        }
        Ok(LayoutBox { width, ascent, descent, paints, box_count: 1, italic_correction })
    }

    /// A symbol: large operators in display style take the first vertical
    /// variant reaching the display operator height.
    fn layout_symbol(&mut self, character: char, level: u8) -> (r: Checked<LayoutBox>)
        ensures
            laid_out(*old(self), *final(self), r, 1, 1),
            room(*old(self), 2) ==> agrees(
                r,
                symbol_layout(*old(self).face, old(self).kind, old(self).root_size, level, character, old(self).logical_ordinal),
                final(self).logical_ordinal,
            ),
    {
        let size = match self.size_for_level(level) {
            Ok(v) => v,
            Err(e) => return Err(e),
        };
        let base = match self.face.glyph_id(character) {
            Ok(g) => g,
            Err(e) => return Err(MathComputationError::Font(e)),
        };
        let nominal_height = match self.face.glyph_height(base) {
            Ok(h) => h,
            Err(e) => return Err(MathComputationError::Font(e)),
        };
        let min_height = self.face.constants.display_operator_min_height;
        let large = character == '\u{2211}' || character == '\u{220F}' || character == '\u{222B}';
        let display = match self.kind {
            MathNodeKind::Display => true,
            MathNodeKind::Inline => false,
        };
        if display && level == 0 && large && nominal_height < min_height {
            let (variant, advance) = match self.face.vertical_variant(base, min_height) {
                Ok(v) => v,
                Err(e) => return Err(MathComputationError::Font(e)),
            };
            self.layout_single_glyph(character, variant, size, Some(advance))
        } else {
            self.layout_single_glyph(character, base, size, None)
        }
    }

    /// One glyph box; a stretched variant grows the box's ascent and descent
    /// evenly to its vertical advance.
    fn layout_single_glyph(
        &mut self,
        character: char,
        glyph: OriginalGlyphId,
        size: i64,
        vertical_advance: Option<u16>,
    ) -> (r: Checked<LayoutBox>)
        ensures
            laid_out(*old(self), *final(self), r, 1, 1),
            room(*old(self), 2) ==> agrees(
                r,
                glyph_layout(*old(self).face, character, glyph, size, vertical_advance, old(self).logical_ordinal),
                final(self).logical_ordinal,
            ),
    {
        match self.work.charge(2) {
            Ok(()) => {},
            Err(e) => return Err(e),
        }
        let mut ascent = match self.scaled(self.face.ascent as i64, size) {
            Ok(v) => v,
            Err(e) => return Err(e),
        };
        let mut descent = match self.scaled(-(self.face.descent as i64), size) {
            Ok(v) => v,
            Err(e) => return Err(e),
        };
        match vertical_advance {
            Some(vertical) => {
                let total = match self.scaled(vertical as i64, size) {
                    Ok(v) => v,
                    Err(e) => return Err(e),
                };
                let nominal = match checked_add(ascent, descent) {
                    Ok(v) => v,
                    Err(e) => return Err(e),
                };
                if total > nominal {
                    let extra = match checked_sub(total, nominal) {
                        Ok(v) => v,
                        Err(e) => return Err(e),
                    };
                    let extra_ascent = match round_ratio(extra, 1, 2) {
                        Ok(v) => v,
                        Err(e) => return Err(e),
                    };
                    ascent = match checked_add(ascent, extra_ascent) {
                        Ok(v) => v,
                        Err(e) => return Err(e),
                    };
                    let extra_descent = match checked_sub(extra, extra_ascent) {
                        Ok(v) => v,
                        Err(e) => return Err(e),
                    };
                    descent = match checked_add(descent, extra_descent) {
                        Ok(v) => v,
                        Err(e) => return Err(e),
                    };
                }
            },
            None => {},
        }
        let units = match self.face.advance_width(glyph) {
            Ok(u) => u,
            Err(e) => return Err(MathComputationError::Font(e)),
        };
        let advance = match self.scaled(units as i64, size) {
            Ok(v) => v,
            Err(e) => return Err(e),
        };
        let italic = match self.face.italic_correction(glyph) {
            Ok(u) => u,
            Err(e) => return Err(MathComputationError::Font(e)),
        };
        let italic_correction = match self.scaled(italic as i64, size) {
            Ok(v) => v,
            Err(e) => return Err(e),
        };
        let paint = MathGlyphPaint::at_origin(glyph, character, self.logical_ordinal, 0, size, advance);
        if self.logical_ordinal == u32::MAX {
            return Err(MathComputationError::ArithmeticOverflow);
        }
        self.logical_ordinal = self.logical_ordinal + 1;
        let mut paints: Vec<MathPaint> = Vec::new();
        paints.push(MathPaint::Glyph(paint));
        Ok(LayoutBox { width: advance, ascent, descent, paints, box_count: 1, italic_correction })
    }

    /// The arithmetic of a fraction at `size` over a numerator box and a
    /// denominator box (each width, ascent, descent): the fraction's box, the
    /// parts' offsets, the rule's top and its thickness.
    #[verifier::rlimit(40)]
    fn fraction_placement(&self, level: u8, size: i64, top: (i64, i64, i64), bottom: (i64, i64, i64)) -> (r: Checked<
        (i64, i64, i64, i64, i64, i64, i64, i64, i64),
    >)
        ensures
            r is Ok <==> fraction_layout(*self.face, self.kind, level, size, top, bottom) is Some,
            r matches Ok(v) ==> fraction_layout(*self.face, self.kind, level, size, top, bottom) == Some(
                (v.0 as int, v.1 as int, v.2 as int, v.3 as int, v.4 as int, v.5 as int, v.6 as int, v.7 as int),
            ),
            r matches Ok(v) ==> fraction_constants(*self.face, self.kind, level, size) matches Some(
                (rule, _, _, axis, _, _),
            ) && v.8 == rule && v.7 == -axis - rule / 2,
            r matches Err(e) ==> e == MathComputationError::ArithmeticOverflow,
    {
        let constants = self.face.constants;
        let rule = match self.scaled(constants.fraction_rule_thickness as i64, size) {
            Ok(v) => max_i64(v, 1),
            Err(e) => return Err(e),
        };
        let display_style = level == 0 && match self.kind {
            MathNodeKind::Display => true,
            MathNodeKind::Inline => false,
        };
        let numerator_gap = if display_style {
            constants.fraction_numerator_display_gap_min
        } else {
            constants.fraction_numerator_gap_min
        };
        let denominator_gap = if display_style {
            constants.fraction_denominator_display_gap_min
        } else {
            constants.fraction_denominator_gap_min
        };
        let top_gap = match self.scaled(max_i64(numerator_gap as i64, 0), size) {
            Ok(v) => v,
            Err(e) => return Err(e),
        };
        let bottom_gap = match self.scaled(max_i64(denominator_gap as i64, 0), size) {
            Ok(v) => v,
            Err(e) => return Err(e),
        };
        let side = max_i64(trunc_div(size, 10), 1);
        let side_pair = match checked_add(side, side) {
            Ok(v) => v,
            Err(e) => return Err(e),
        };
        let width = match checked_add(max_i64(top.0, bottom.0), side_pair) {
            Ok(v) => v,
            Err(e) => return Err(e),
        };
        let inner = match checked_sub(width, side_pair) {
            Ok(v) => v,
            Err(e) => return Err(e),
        };
        let top_slack = match checked_sub(inner, top.0) {
            Ok(v) => v,
            Err(e) => return Err(e),
        };
        let top_x = match checked_add(side, trunc_div(top_slack, 2)) {
            Ok(v) => v,
            Err(e) => return Err(e),
        };
        let bottom_slack = match checked_sub(inner, bottom.0) {
            Ok(v) => v,
            Err(e) => return Err(e),
        };
        let bottom_x = match checked_add(side, trunc_div(bottom_slack, 2)) {
            Ok(v) => v,
            Err(e) => return Err(e),
        };
        let numerator_shift = if display_style {
            constants.fraction_numerator_display_shift_up
        } else {
            constants.fraction_numerator_shift_up
        };
        let denominator_shift = if display_style {
            constants.fraction_denominator_display_shift_down
        } else {
            constants.fraction_denominator_shift_down
        };
        let axis = match self.scaled(constants.axis_height as i64, size) {
            Ok(v) => v,
            Err(e) => return Err(e),
        };
        let rule_above_axis = trunc_div(rule, 2);
        let below_axis_top = match checked_sub(0, axis) {
            Ok(v) => v,
            Err(e) => return Err(e),
        };
        let rule_top = match checked_sub(below_axis_top, rule_above_axis) {
            Ok(v) => v,
            Err(e) => return Err(e),
        };
        let rule_below_axis = match checked_sub(rule, rule_above_axis) {
            Ok(v) => v,
            Err(e) => return Err(e),
        };
        let top_lift = match checked_add(axis, rule_above_axis) {
            Ok(v) => v,
            Err(e) => return Err(e),
        };
        let top_clear = match checked_add(top_gap, top.2) {
            Ok(v) => v,
            Err(e) => return Err(e),
        };
        let top_minimum = match checked_add(top_lift, top_clear) {
            Ok(v) => v,
            Err(e) => return Err(e),
        };
        let top_shift = match self.scaled(numerator_shift as i64, size) {
            Ok(v) => max_i64(v, top_minimum),
            Err(e) => return Err(e),
        };
        let bottom_drop = match checked_sub(rule_below_axis, axis) {
            Ok(v) => v,
            Err(e) => return Err(e),
        };
        let bottom_clear = match checked_add(bottom_gap, bottom.1) {
            Ok(v) => v,
            Err(e) => return Err(e),
        };
        let bottom_minimum = match checked_add(bottom_drop, bottom_clear) {
            Ok(v) => v,
            Err(e) => return Err(e),
        };
        let bottom_shift = match self.scaled(denominator_shift as i64, size) {
            Ok(v) => max_i64(v, bottom_minimum),
            Err(e) => return Err(e),
        };
        let top_y = match checked_sub(0, top_shift) {
            Ok(v) => v,
            Err(e) => return Err(e),
        };
        let bottom_y = bottom_shift;
        let ascent = match checked_sub(top.1, top_y) {
            Ok(v) => v,
            Err(e) => return Err(e),
        };
        let descent = match checked_add(bottom.2, bottom_y) {
            Ok(v) => v,
            Err(e) => return Err(e),
        };
        Ok((width, ascent, descent, top_x, top_y, bottom_x, bottom_y, rule_top, rule))
    }

    /// Numerator over a rule over denominator, centred, the rule on the
    /// math axis.
    #[verifier::rlimit(100)]
    #[verifier::spinoff_prover]
    fn layout_fraction(&mut self, atom: &Atom, level: u8) -> (r: Checked<LayoutBox>)
        requires
            atom is Fraction,
        ensures
            laid_out(*old(self), *final(self), r, atom_boxes(atom.view()), atom_paints(atom.view())),
            room(*old(self), atom_boxes(atom.view()) + atom_paints(atom.view())) ==> agrees(
                r,
                atom_layout(*old(self).face, old(self).kind, old(self).root_size, level, atom.view(), old(self).logical_ordinal),
                final(self).logical_ordinal,
            ),
        decreases atom, 0int,
    {
        let (numerator, denominator) = match atom {
            Atom::Fraction { numerator, denominator } => (numerator, denominator),
            _ => return Err(MathComputationError::ReceiptMismatch),
        };
        assert(atom.view() == AtomView::Fraction(numerator.view(), denominator.view()));
        match self.work.charge(1) {
            Ok(()) => {},
            Err(e) => return Err(e),
        }
        let size = match self.size_for_level(level) {
            Ok(v) => v,
            Err(e) => return Err(e),
        };
        let child_level: u8 = if level == u8::MAX {
            u8::MAX
        } else {
            level + 1
        };
        let mut top = match self.layout_row(numerator, child_level) {
            Ok(b) => b,
            Err(e) => return Err(e),
        };
        let mut bottom = match self.layout_row(denominator, child_level) {
            Ok(b) => b,
            Err(e) => return Err(e),
        };
        let (width, ascent, descent, top_x, top_y, bottom_x, bottom_y, rule_top, rule) = match self.fraction_placement(
            level,
            size,
            (top.width, top.ascent, top.descent),
            (bottom.width, bottom.ascent, bottom.descent),
        ) {
            Ok(v) => v,
            Err(e) => return Err(e),
        };
        match translate_paints(&mut top.paints, top_x, top_y) {
            Ok(()) => {},
            Err(e) => return Err(e),
        }
        match translate_paints(&mut bottom.paints, bottom_x, bottom_y) {
            Ok(()) => {},
            Err(e) => return Err(e),
        }
        let mut paints = top.paints;
        match self.work.charge(1) {
            Ok(()) => {},
            Err(e) => return Err(e),
        }
        paints.push(MathPaint::Rule(MathRulePaint::new(0, rule_top, width, rule)));
        paints.append(&mut bottom.paints);
        let boxes = match checked_add_u64(top.box_count, bottom.box_count) {
            Ok(v) => v,
            Err(e) => return Err(e),
        };
        let box_count = match checked_add_u64(boxes, 1) {
            Ok(v) => v,
            Err(e) => return Err(e),
        };
        Ok(LayoutBox { width, ascent, descent, paints, box_count, italic_correction: 0 })
    }

    /// A radical sign tall enough for the radicand, a rule over it.
    #[verifier::rlimit(100)]
    #[verifier::spinoff_prover]
    fn layout_radical(&mut self, atom: &Atom, level: u8) -> (r: Checked<LayoutBox>)
        requires
            atom is Radical,
        ensures
            laid_out(*old(self), *final(self), r, atom_boxes(atom.view()), atom_paints(atom.view())),
            room(*old(self), atom_boxes(atom.view()) + atom_paints(atom.view())) ==> agrees(
                r,
                atom_layout(*old(self).face, old(self).kind, old(self).root_size, level, atom.view(), old(self).logical_ordinal),
                final(self).logical_ordinal,
            ),
        decreases atom, 0int,
    {
        let row = match atom {
            Atom::Radical(row) => row,
            _ => return Err(MathComputationError::ReceiptMismatch),
        };
        match self.work.charge(1) {
            Ok(()) => {},
            Err(e) => return Err(e),
        }
        let size = match self.size_for_level(level) {
            Ok(v) => v,
            Err(e) => return Err(e),
        };
        let mut radicand = match self.layout_row(row, level) {
            Ok(b) => b,
            Err(e) => return Err(e),
        };
        let display = level == 0 && match self.kind {
            MathNodeKind::Display => true,
            MathNodeKind::Inline => false,
        };
        let radical_gap = if display {
            self.face.constants.radical_display_vertical_gap
        } else {
            self.face.constants.radical_vertical_gap
        };
        let gap = match self.scaled(max_i64(radical_gap as i64, 0), size) {
            Ok(v) => v,
            Err(e) => return Err(e),
        };
        let rule = match self.scaled(self.face.constants.radical_rule_thickness as i64, size) {
            Ok(v) => max_i64(v, 1),
            Err(e) => return Err(e),
        };
        let extent = match checked_add(radicand.ascent, radicand.descent) {
            Ok(v) => v,
            Err(e) => return Err(e),
        };
        let clearance = match checked_add(gap, rule) {
            Ok(v) => v,
            Err(e) => return Err(e),
        };
        let target_raw = match checked_add(extent, clearance) {
            Ok(v) => v,
            Err(e) => return Err(e),
        };
        let target_units = match unscale_font_units_ceiling(target_raw, size, self.face.units_per_em) {
            Ok(v) => v,
            Err(e) => return Err(e),
        };
        let base = match self.face.glyph_id('\u{221A}') {
            Ok(g) => g,
            Err(e) => return Err(MathComputationError::Font(e)),
        };
        let nominal_height = match self.face.glyph_height(base) {
            Ok(h) => h,
            Err(e) => return Err(MathComputationError::Font(e)),
        };
        let mut radical = if target_units > nominal_height {
            let (variant, advance) = match self.face.vertical_variant(base, target_units) {
                Ok(v) => v,
                Err(e) => return Err(MathComputationError::Font(e)),
            };
            match self.layout_single_glyph('\u{221A}', variant, size, Some(advance)) {
                Ok(b) => b,
                Err(e) => return Err(e),
            }
        } else {
            match self.layout_single_glyph('\u{221A}', base, size, None) {
                Ok(b) => b,
                Err(e) => return Err(e),
            }
        };
        let x = radical.width;
        match translate_paints(&mut radicand.paints, x, 0) {
            Ok(()) => {},
            Err(e) => return Err(e),
        }
        let width = match checked_add(radical.width, radicand.width) {
            Ok(v) => v,
            Err(e) => return Err(e),
        };
        let over = match checked_add(radicand.ascent, gap) {
            Ok(v) => v,
            Err(e) => return Err(e),
        };
        let covered = match checked_add(over, rule) {
            Ok(v) => v,
            Err(e) => return Err(e),
        };
        let ascent = max_i64(radical.ascent, covered);
        match self.work.charge(1) {
            Ok(()) => {},
            Err(e) => return Err(e),
        }
        let bar_y = match checked_sub(0, over) {
            Ok(v) => v,
            Err(e) => return Err(e),
        };
        radical.paints.push(MathPaint::Rule(MathRulePaint::new(x, bar_y, radicand.width, rule)));
        radical.paints.append(&mut radicand.paints);
        let boxes = match checked_add_u64(radical.box_count, radicand.box_count) {
            Ok(v) => v,
            Err(e) => return Err(e),
        };
        let box_count = match checked_add_u64(boxes, 1) {
            Ok(v) => v,
            Err(e) => return Err(e),
        };
        Ok(
            LayoutBox {
                width,
                ascent,
                descent: max_i64(radical.descent, radicand.descent),
                paints: radical.paints,
                box_count,
                italic_correction: 0,
            },
        )
    }
}

} // verus!
