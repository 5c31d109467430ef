//! The font facts math layout reads: metrics, the MATH table constants, the
//! per-glyph metrics and the vertical size variants, held as plain values.
use vstd::prelude::*;
use crate::math_arith::MathFontError;
use crate::math_paint::OriginalGlyphId;

verus! {

/// MATH table constants, in font units.
#[derive(Clone, Copy, Debug, PartialEq, Eq)]
pub struct MathConstants {
    pub script_percent_scale_down: i16,
    pub script_script_percent_scale_down: i16,
    pub display_operator_min_height: u16,
    pub axis_height: i16,
    pub subscript_shift_down: i16,
    pub subscript_top_max: i16,
    pub subscript_baseline_drop_min: i16,
    pub superscript_shift_up: i16,
    pub superscript_shift_up_cramped: i16,
    pub superscript_bottom_min: i16,
    pub superscript_baseline_drop_max: i16,
    pub sub_superscript_gap_min: i16,
    pub superscript_bottom_max_with_subscript: i16,
    pub space_after_script: i16,
    pub fraction_numerator_shift_up: i16,
    pub fraction_numerator_display_shift_up: i16,
    pub fraction_denominator_shift_down: i16,
    pub fraction_denominator_display_shift_down: i16,
    pub fraction_numerator_gap_min: i16,
    pub fraction_numerator_display_gap_min: i16,
    pub fraction_rule_thickness: i16,
    pub fraction_denominator_gap_min: i16,
    pub fraction_denominator_display_gap_min: i16,
    pub radical_vertical_gap: i16,
    pub radical_display_vertical_gap: i16,
    pub radical_rule_thickness: i16,
}

/// Metrics of one mapped glyph.
#[derive(Clone, Copy, Debug, PartialEq, Eq)]
pub struct MathFontGlyph {
    pub unicode: char,
    pub gid: OriginalGlyphId,
    pub advance_width: u16,
    pub italic_correction: i16,
    pub height: u16,
}

/// One vertical size variant of a glyph and its full vertical advance.
#[derive(Clone, Copy, Debug, PartialEq, Eq)]
pub struct MathGlyphVariant {
    pub gid: OriginalGlyphId,
    pub advance: u16,
}

/// The vertical size variants of a base glyph, smallest first.
#[derive(Clone, Debug, PartialEq, Eq)]
pub struct MathGlyphVariants {
    pub base: OriginalGlyphId,
    pub variants: Vec<MathGlyphVariant>,
}

/// A face with a MATH table, as layout reads it.
#[derive(Clone, Debug, PartialEq, Eq)]
pub struct MathFontFace {
    pub units_per_em: u16,
    pub ascent: i16,
    pub descent: i16,
    pub constants: MathConstants,
    pub glyphs: Vec<MathFontGlyph>,
    pub variants: Vec<MathGlyphVariants>,
    pub math_table_fingerprint: [u8; 32],
}

/// Index of the first glyph record mapping `c`, at or after `from`.
pub open spec fn glyph_for_char(glyphs: Seq<MathFontGlyph>, c: char, from: int) -> Option<int>
    decreases glyphs.len() - from,
{
    if from < 0 || from >= glyphs.len() {
        None
    } else if glyphs[from].unicode == c {
        Some(from)
    } else {
        glyph_for_char(glyphs, c, from + 1)
    }
}

/// Index of the first glyph record of glyph `gid`, at or after `from`.
pub open spec fn glyph_record(glyphs: Seq<MathFontGlyph>, gid: OriginalGlyphId, from: int) -> Option<int>
    decreases glyphs.len() - from,
{
    if from < 0 || from >= glyphs.len() {
        None
    } else if glyphs[from].gid == gid {
        Some(from)
    } else {
        glyph_record(glyphs, gid, from + 1)
    }
}

/// Index of the first variant list of base glyph `base`, at or after `from`.
pub open spec fn variant_list(lists: Seq<MathGlyphVariants>, base: OriginalGlyphId, from: int) -> Option<
    int,
>
    decreases lists.len() - from,
{
    if from < 0 || from >= lists.len() {
        None
    } else if lists[from].base == base {
        Some(from)
    } else {
        variant_list(lists, base, from + 1)
    }
}

/// Index of the first variant whose advance reaches `min`, at or after `from`.
pub open spec fn variant_reaching(variants: Seq<MathGlyphVariant>, min: u16, from: int) -> Option<int>
    decreases variants.len() - from,
{
    if from < 0 || from >= variants.len() {
        None
    } else if variants[from].advance >= min {
        Some(from)
    } else {
        variant_reaching(variants, min, from + 1)
    }
}

proof fn lemma_variant_list_first(lists: Seq<MathGlyphVariants>, base: OriginalGlyphId, from: int)
    requires
        0 <= from,
    ensures
        variant_list(lists, base, from) matches Some(l) ==> from <= l < lists.len() && lists[l].base == base && (
        forall|k: int| from <= k < l ==> #[trigger] lists[k].base != base),
        variant_list(lists, base, from) is None ==> forall|k: int| from <= k < lists.len() ==> #[trigger] lists[k].base
            != base,
    decreases lists.len() - from,
{
    if from < lists.len() {
        lemma_variant_list_first(lists, base, from + 1);
    }
}

proof fn lemma_variant_reaching_first(variants: Seq<MathGlyphVariant>, min: u16, from: int)
    requires
        0 <= from,
    ensures
        variant_reaching(variants, min, from) matches Some(v) ==> from <= v < variants.len() && variants[v].advance
            >= min && (forall|j: int| from <= j < v ==> #[trigger] variants[j].advance < min),
        variant_reaching(variants, min, from) is None ==> forall|j: int| from <= j < variants.len()
            ==> #[trigger] variants[j].advance < min,
    decreases variants.len() - from,
{
    if from < variants.len() {
        lemma_variant_reaching_first(variants, min, from + 1);
    }
}

/// The vertical variant of a base glyph for a requested height comes from
/// the first variant list of that glyph: it is the first listed variant
/// whose vertical advance reaches the height, so it is at least that tall
/// and every variant listed before it is shorter; there is none exactly
/// when the glyph has no list or no variant in its first list reaches the
/// height.
pub proof fn lemma_vertical_variant_first_reaching(face: MathFontFace, base: OriginalGlyphId, min_height: u16)
    ensures
        face.spec_vertical_variant(base, min_height) matches Ok((gid, advance)) ==> {
            &&& advance >= min_height
            &&& exists|l: int, v: int|
                #![trigger face.variants@[l].variants@[v]]
                0 <= l < face.variants@.len() && face.variants@[l].base == base && (forall|k: int|
                    0 <= k < l ==> #[trigger] face.variants@[k].base != base) && 0 <= v
                    < face.variants@[l].variants@.len() && face.variants@[l].variants@[v].gid == gid
                    && face.variants@[l].variants@[v].advance == advance && (forall|j: int|
                    0 <= j < v ==> #[trigger] face.variants@[l].variants@[j].advance < min_height)
        },
        face.spec_vertical_variant(base, min_height) is Err ==> forall|l: int|
            0 <= l < face.variants@.len() && face.variants@[l].base == base && (forall|k: int|
                0 <= k < l ==> #[trigger] face.variants@[k].base != base) ==> forall|j: int|
                0 <= j < face.variants@[l].variants@.len() ==> #[trigger] face.variants@[l].variants@[j].advance
                    < min_height,
{
    lemma_variant_list_first(face.variants@, base, 0);
    match variant_list(face.variants@, base, 0) {
        Some(l) => {
            lemma_variant_reaching_first(face.variants@[l].variants@, min_height, 0);
            assert forall|l2: int|
                0 <= l2 < face.variants@.len() && face.variants@[l2].base == base && (forall|k: int|
                    0 <= k < l2 ==> #[trigger] face.variants@[k].base != base) implies l2 == l by {
                if l2 < l {
                    assert(face.variants@[l2].base != base);
                } else if l2 > l {
                    assert(face.variants@[l].base != base);
                }
            }
            match variant_reaching(face.variants@[l].variants@, min_height, 0) {
                Some(v) => {
                    assert(face.variants@[l].variants@[v].gid == face.variants@[l].variants@[v].gid);
                },
                None => {},
            }
        },
        None => {},
    }
}

impl MathFontFace {
    /// The record of glyph `gid`, if the face maps it.
    pub open spec fn record_of(&self, gid: OriginalGlyphId) -> Option<MathFontGlyph> {
        match glyph_record(self.glyphs@, gid, 0) {
            Some(i) => Some(self.glyphs@[i]),
            None => None,
        }
    }

    /// The glyph of a character: the first record that maps it.
    pub open spec fn spec_glyph_id(&self, c: char) -> Result<OriginalGlyphId, MathFontError> {
        match glyph_for_char(self.glyphs@, c, 0) {
            Some(i) => Ok(self.glyphs@[i].gid),
            None => Err(MathFontError::MissingGlyph),
        }
    }

    /// The smallest listed variant of `base` whose vertical advance reaches
    /// `min_height`.
    pub open spec fn spec_vertical_variant(&self, base: OriginalGlyphId, min_height: u16) -> Result<
        (OriginalGlyphId, u16),
        MathFontError,
    > {
        match variant_list(self.variants@, base, 0) {
            None => Err(MathFontError::MissingVariant),
            Some(l) => match variant_reaching(self.variants@[l].variants@, min_height, 0) {
                None => Err(MathFontError::MissingVariant),
                Some(v) => Ok(
                    (self.variants@[l].variants@[v].gid, self.variants@[l].variants@[v].advance),
                ),
            },
        }
    }

    fn find_record(&self, gid: OriginalGlyphId) -> (r: Option<usize>)
        ensures
            r matches Some(i) ==> i < self.glyphs@.len() && glyph_record(self.glyphs@, gid, 0) == Some(
                i as int,
            ),
            r is None ==> glyph_record(self.glyphs@, gid, 0) is None,
    {
        let mut index: usize = 0;
        while index < self.glyphs.len()
            invariant
                0 <= index <= self.glyphs@.len(),
                glyph_record(self.glyphs@, gid, 0) == glyph_record(self.glyphs@, gid, index as int),
            decreases self.glyphs.len() - index,
        {
            if self.glyphs[index].gid == gid {
                return Some(index);
            }
            index = index + 1;
        }
        None
    }

    /// The glyph mapped to `c`.
    pub fn glyph_id(&self, c: char) -> (r: Result<OriginalGlyphId, MathFontError>)
        ensures
            r == self.spec_glyph_id(c),
    {
        let mut index: usize = 0;
        while index < self.glyphs.len()
            invariant
                0 <= index <= self.glyphs@.len(),
                glyph_for_char(self.glyphs@, c, 0) == glyph_for_char(self.glyphs@, c, index as int),
            decreases self.glyphs.len() - index,
        {
            if self.glyphs[index].unicode == c {
                return Ok(self.glyphs[index].gid);
            }
            index = index + 1;
        }
        Err(MathFontError::MissingGlyph)
    }

    pub fn advance_width(&self, gid: OriginalGlyphId) -> (r: Result<u16, MathFontError>)
        ensures
            r == match self.record_of(gid) {
                Some(g) => Ok::<u16, MathFontError>(g.advance_width),
                None => Err(MathFontError::MissingGlyph),
            },
    {
        match self.find_record(gid) {
            Some(i) => Ok(self.glyphs[i].advance_width),
            None => Err(MathFontError::MissingGlyph),
        }
    }

    pub fn italic_correction(&self, gid: OriginalGlyphId) -> (r: Result<i16, MathFontError>)
        ensures
            r == match self.record_of(gid) {
                Some(g) => Ok::<i16, MathFontError>(g.italic_correction),
                None => Err(MathFontError::MissingGlyph),
            },
    {
        match self.find_record(gid) {
            Some(i) => Ok(self.glyphs[i].italic_correction),
            None => Err(MathFontError::MissingGlyph),
        }
    }

    pub fn glyph_height(&self, gid: OriginalGlyphId) -> (r: Result<u16, MathFontError>)
        ensures
            r == match self.record_of(gid) {
                Some(g) => Ok::<u16, MathFontError>(g.height),
                None => Err(MathFontError::MissingGlyph),
            },
    {
        match self.find_record(gid) {
            Some(i) => Ok(self.glyphs[i].height),
            None => Err(MathFontError::MissingGlyph),
        }
    }

    pub fn vertical_variant(&self, base: OriginalGlyphId, min_height: u16) -> (r: Result<
        (OriginalGlyphId, u16),
        MathFontError,
    >)
        ensures
            r == self.spec_vertical_variant(base, min_height),
    {
        let mut list: usize = 0;
        while list < self.variants.len()
            invariant
                0 <= list <= self.variants@.len(),
                variant_list(self.variants@, base, 0) == variant_list(self.variants@, base, list as int),
            decreases self.variants.len() - list,
        {
            if self.variants[list].base == base {
                assert(variant_list(self.variants@, base, 0) == Some(list as int));
                let variants = &self.variants[list].variants;
                assert(variants@ == self.variants@[list as int].variants@);
                let mut index: usize = 0;
                while index < variants.len()
                    invariant
                        0 <= index <= variants@.len(),
                        0 <= list < self.variants@.len(),
                        variant_list(self.variants@, base, 0) == Some(list as int),
                        variants@ == self.variants@[list as int].variants@,
                        variant_reaching(variants@, min_height, 0) == variant_reaching(
                            variants@,
                            min_height,
                            index as int,
                        ),
                    decreases variants.len() - index,
                {
                    if variants[index].advance >= min_height {
                        assert(variant_reaching(variants@, min_height, 0) == Some(index as int));
                        return Ok((variants[index].gid, variants[index].advance));
                    }
                    index = index + 1;
                }
                return Err(MathFontError::MissingVariant);
            }
            list = list + 1;
        }
        Err(MathFontError::MissingVariant)
    }
}

} // verus!
