//! Vector paint commands of math layout, their translation, their
//! portability check and their canonical JSON.
use vstd::prelude::*;
use crate::math_arith::{Checked, MathComputationError, portable, portable_integer};
use crate::math_receipt::{fingerprint_text, text_fingerprint};
use crate::math_source::MATH_VECTOR_IR_ID;
use crate::text::{
    decimal, json_string, push_char, push_i64, push_json_char, push_json_str, push_u64, signed_decimal,
};

verus! {

/// Identity of a glyph in the font the formula was laid out with.
#[derive(Clone, Copy, Debug, PartialEq, Eq, Structural, Hash)]
pub struct OriginalGlyphId {
    value: u16,
}

impl OriginalGlyphId {
    pub closed spec fn spec_get(self) -> u16 {
        self.value
    }

    pub fn new(value: u16) -> (id: Self)
        ensures
            id.spec_get() == value,
    {
        OriginalGlyphId { value }
    }

    pub fn get(self) -> (value: u16)
        ensures
            value == self.spec_get(),
    {
        self.value
    }
}

/// One glyph placed at `(x, y)` relative to the formula's origin.
#[derive(Clone, Copy, Debug, PartialEq, Eq)]
pub struct MathGlyphPaint {
    original_gid: OriginalGlyphId,
    unicode: char,
    logical_ordinal: u32,
    x: i64,
    y: i64,
    font_size_raw: i64,
    advance: i64,
}

impl MathGlyphPaint {
    pub closed spec fn spec_original_gid(&self) -> OriginalGlyphId {
        self.original_gid
    }

    pub closed spec fn spec_unicode(&self) -> char {
        self.unicode
    }

    pub closed spec fn spec_logical_ordinal(&self) -> u32 {
        self.logical_ordinal
    }

    pub closed spec fn spec_x(&self) -> i64 {
        self.x
    }

    pub closed spec fn spec_y(&self) -> i64 {
        self.y
    }

    pub closed spec fn spec_font_size_raw(&self) -> i64 {
        self.font_size_raw
    }

    pub closed spec fn spec_advance(&self) -> i64 {
        self.advance
    }

    /// A glyph at the origin of its box.
    pub(crate) fn at_origin(
        original_gid: OriginalGlyphId,
        unicode: char,
        logical_ordinal: u32,
        x: i64,
        font_size_raw: i64,
        advance: i64,
    ) -> (glyph: Self)
        ensures
            glyph.spec_original_gid() == original_gid,
            glyph.spec_unicode() == unicode,
            glyph.spec_logical_ordinal() == logical_ordinal,
            glyph.spec_x() == x,
            glyph.spec_y() == 0,
            glyph.spec_font_size_raw() == font_size_raw,
            glyph.spec_advance() == advance,
            glyph == glyph_at(original_gid, unicode, logical_ordinal, x, font_size_raw, advance),
    {
        MathGlyphPaint { original_gid, unicode, logical_ordinal, x, y: 0, font_size_raw, advance }
    }

    pub fn original_gid(&self) -> (id: OriginalGlyphId)
        ensures
            id == self.spec_original_gid(),
    {
        self.original_gid
    }

    pub fn unicode(&self) -> (c: char)
        ensures
            c == self.spec_unicode(),
    {
        self.unicode
    }

    pub fn logical_ordinal(&self) -> (ordinal: u32)
        ensures
            ordinal == self.spec_logical_ordinal(),
    {
        self.logical_ordinal
    }

    pub fn x(&self) -> (x: i64)
        ensures
            x == self.spec_x(),
    {
        self.x
    }

    pub fn y(&self) -> (y: i64)
        ensures
            y == self.spec_y(),
    {
        self.y
    }

    pub fn font_size_raw(&self) -> (size: i64)
        ensures
            size == self.spec_font_size_raw(),
    {
        self.font_size_raw
    }

    pub fn advance(&self) -> (advance: i64)
        ensures
            advance == self.spec_advance(),
    {
        self.advance
    }
}

/// A filled rectangle (fraction bar, radical overbar).
#[derive(Clone, Copy, Debug, PartialEq, Eq)]
pub struct MathRulePaint {
    x: i64,
    y: i64,
    width: i64,
    height: i64,
}

impl MathRulePaint {
    pub closed spec fn spec_x(self) -> i64 {
        self.x
    }

    pub closed spec fn spec_y(self) -> i64 {
        self.y
    }

    pub closed spec fn spec_width(self) -> i64 {
        self.width
    }

    pub closed spec fn spec_height(self) -> i64 {
        self.height
    }

    pub(crate) fn new(x: i64, y: i64, width: i64, height: i64) -> (rule: Self)
        ensures
            rule.spec_x() == x,
            rule.spec_y() == y,
            rule.spec_width() == width,
            rule.spec_height() == height,
            rule == rule_at(x, y, width, height),
    {
        MathRulePaint { x, y, width, height }
    }

    pub fn x(self) -> (x: i64)
        ensures
            x == self.spec_x(),
    {
        self.x
    }

    pub fn y(self) -> (y: i64)
        ensures
            y == self.spec_y(),
    {
        self.y
    }

    pub fn width(self) -> (width: i64)
        ensures
            width == self.spec_width(),
    {
        self.width
    }

    pub fn height(self) -> (height: i64)
        ensures
            height == self.spec_height(),
    {
        self.height
    }
}

/// A glyph on the baseline at `x`.
pub closed spec fn glyph_at(
    original_gid: OriginalGlyphId,
    unicode: char,
    logical_ordinal: u32,
    x: i64,
    font_size_raw: i64,
    advance: i64,
) -> MathGlyphPaint {
    MathGlyphPaint { original_gid, unicode, logical_ordinal, x, y: 0, font_size_raw, advance }
}

/// A rule with its top left corner at `(x, y)`.
pub closed spec fn rule_at(x: i64, y: i64, width: i64, height: i64) -> MathRulePaint {
    MathRulePaint { x, y, width, height }
}

/// One paint command.
#[derive(Clone, Copy, Debug, PartialEq, Eq)]
pub enum MathPaint {
    Glyph(MathGlyphPaint),
    Rule(MathRulePaint),
}

/// A paint command moved by `(dx, dy)`.
pub closed spec fn shifted(p: MathPaint, dx: int, dy: int) -> MathPaint {
    match p {
        MathPaint::Glyph(g) => MathPaint::Glyph(
            MathGlyphPaint { x: (g.x + dx) as i64, y: (g.y + dy) as i64, ..g },
        ),
        MathPaint::Rule(r) => MathPaint::Rule(
            MathRulePaint { x: (r.x + dx) as i64, y: (r.y + dy) as i64, ..r },
        ),
    }
}

/// Moving the paint by `(dx, dy)` keeps its coordinates in `i64`.
pub closed spec fn shift_fits(p: MathPaint, dx: int, dy: int) -> bool {
    match p {
        MathPaint::Glyph(g) => i64::MIN <= g.x + dx <= i64::MAX && i64::MIN <= g.y + dy <= i64::MAX,
        MathPaint::Rule(r) => i64::MIN <= r.x + dx <= i64::MAX && i64::MIN <= r.y + dy <= i64::MAX,
    }
}

/// Every paint moved by `(dx, dy)`, refused as an overflow when a
/// coordinate leaves `i64`.
pub open spec fn translated(paints: Seq<MathPaint>, dx: int, dy: int) -> Checked<Seq<MathPaint>> {
    if forall|i: int| 0 <= i < paints.len() ==> #[trigger] shift_fits(paints[i], dx, dy) {
        Ok(Seq::new(paints.len(), |i: int| shifted(paints[i], dx, dy)))
    } else {
        Err(MathComputationError::ArithmeticOverflow)
    }
}

/// Move every paint by `(delta_x, delta_y)`; refused as an arithmetic
/// overflow when a coordinate leaves `i64` (paints before it are moved).
pub(crate) fn translate_paints(paints: &mut Vec<MathPaint>, delta_x: i64, delta_y: i64) -> (r: Checked<
    (),
>)
    ensures
        final(paints)@.len() == old(paints)@.len(),
        r is Ok <==> forall|i: int| 0 <= i < old(paints)@.len() ==> #[trigger] shift_fits(
            old(paints)@[i],
            delta_x as int,
            delta_y as int,
        ),
        r is Ok ==> forall|i: int| 0 <= i < old(paints)@.len() ==> #[trigger] final(paints)@[i]
            == shifted(old(paints)@[i], delta_x as int, delta_y as int),
        r matches Err(e) ==> e == MathComputationError::ArithmeticOverflow,
        r is Ok ==> translated(old(paints)@, delta_x as int, delta_y as int) == Ok::<
            Seq<MathPaint>,
            MathComputationError,
        >(final(paints)@),
        r is Err ==> translated(old(paints)@, delta_x as int, delta_y as int) is Err,
{
    let mut index: usize = 0;
    let ghost original = paints@;
    while index < paints.len()
        invariant
            0 <= index <= paints@.len(),
            paints@.len() == original.len(),
            original == old(paints)@,
            forall|i: int| 0 <= i < index ==> #[trigger] shift_fits(original[i], delta_x as int, delta_y as int),
            forall|i: int| 0 <= i < index ==> #[trigger] paints@[i] == shifted(
                original[i],
                delta_x as int,
                delta_y as int,
            ),
            forall|i: int| index <= i < paints@.len() ==> #[trigger] paints@[i] == original[i],
        decreases paints.len() - index,
    {
        let current = paints[index];
        assert(current == original[index as int]);
        let moved = match &current {
            MathPaint::Glyph(glyph) => {
                let x = match glyph.x.checked_add(delta_x) {
                    Some(v) => v,
                    None => {
                        assert(!shift_fits(original[index as int], delta_x as int, delta_y as int));
                        return Err(MathComputationError::ArithmeticOverflow);
                    },
                };
                let y = match glyph.y.checked_add(delta_y) {
                    Some(v) => v,
                    None => {
                        assert(!shift_fits(original[index as int], delta_x as int, delta_y as int));
                        return Err(MathComputationError::ArithmeticOverflow);
                    },
                };
                MathPaint::Glyph(
                    MathGlyphPaint {
                        original_gid: glyph.original_gid,
                        unicode: glyph.unicode,
                        logical_ordinal: glyph.logical_ordinal,
                        x,
                        y,
                        font_size_raw: glyph.font_size_raw,
                        advance: glyph.advance,
                    },
                )
            },
            MathPaint::Rule(rule) => {
                let x = match rule.x.checked_add(delta_x) {
                    Some(v) => v,
                    None => {
                        assert(!shift_fits(original[index as int], delta_x as int, delta_y as int));
                        return Err(MathComputationError::ArithmeticOverflow);
                    },
                };
                let y = match rule.y.checked_add(delta_y) {
                    Some(v) => v,
                    None => {
                        assert(!shift_fits(original[index as int], delta_x as int, delta_y as int));
                        return Err(MathComputationError::ArithmeticOverflow);
                    },
                };
                MathPaint::Rule(MathRulePaint { x, y, width: rule.width, height: rule.height })
            },
        };
        paints.set(index, moved);
        index = index + 1;
    }
    assert(paints@ =~= Seq::new(original.len(), |i: int| shifted(original[i], delta_x as int, delta_y as int)));
    Ok(())
}

/// A paint command is portable: positive extent and size, and coordinates
/// within the JSON-safe integer range.
pub closed spec fn portable_paint(p: MathPaint) -> bool {
    match p {
        MathPaint::Glyph(g) => g.font_size_raw > 0 && g.advance > 0 && portable(g.x as int) && portable(
            g.y as int,
        ) && portable(g.font_size_raw as int) && portable(g.advance as int),
        MathPaint::Rule(r) => r.width > 0 && r.height > 0 && portable(r.x as int) && portable(
            r.y as int,
        ) && portable(r.width as int) && portable(r.height as int),
    }
}

/// What portability of a paint means, over its public accessors: a glyph
/// has a positive size and advance and a rule a positive width and height,
/// and every coordinate and extent lies in the JSON-safe integer range.
pub proof fn lemma_portable_paint(p: MathPaint)
    ensures
        portable_paint(p) <==> match p {
            MathPaint::Glyph(g) => g.spec_font_size_raw() > 0 && g.spec_advance() > 0 && portable(
                g.spec_x() as int,
            ) && portable(g.spec_y() as int) && portable(g.spec_font_size_raw() as int) && portable(
                g.spec_advance() as int,
            ),
            MathPaint::Rule(r) => r.spec_width() > 0 && r.spec_height() > 0 && portable(r.spec_x() as int)
                && portable(r.spec_y() as int) && portable(r.spec_width() as int) && portable(
                r.spec_height() as int,
            ),
        },
{
}

/// Box metrics and paints are all portable.
pub open spec fn portable_geometry(width: i64, ascent: i64, descent: i64, paints: Seq<MathPaint>) -> bool {
    &&& portable(width as int)
    &&& portable(ascent as int)
    &&& portable(descent as int)
    &&& forall|i: int| 0 <= i < paints.len() ==> #[trigger] portable_paint(paints[i])
}

fn paint_is_portable(paint: &MathPaint) -> (r: bool)
    ensures
        r == portable_paint(*paint),
{
    match paint {
        MathPaint::Glyph(glyph) => glyph.font_size_raw > 0 && glyph.advance > 0 && portable_integer(
            glyph.x,
        ) && portable_integer(glyph.y) && portable_integer(glyph.font_size_raw) && portable_integer(
            glyph.advance,
        ),
        MathPaint::Rule(rule) => rule.width > 0 && rule.height > 0 && portable_integer(rule.x)
            && portable_integer(rule.y) && portable_integer(rule.width) && portable_integer(
            rule.height,
        ),
    }
}

/// Refuse, as an arithmetic overflow, geometry a JSON consumer could not
/// read back exactly.
pub(crate) fn validate_portable_geometry(
    width: i64,
    ascent: i64,
    descent: i64,
    paints: &Vec<MathPaint>,
) -> (r: Checked<()>)
    ensures
        r is Ok <==> portable_geometry(width, ascent, descent, paints@),
        r matches Err(e) ==> e == MathComputationError::ArithmeticOverflow,
{
    if !portable_integer(width) || !portable_integer(ascent) || !portable_integer(descent) {
        return Err(MathComputationError::ArithmeticOverflow);
    }
    let mut index: usize = 0;
    while index < paints.len()
        invariant
            0 <= index <= paints@.len(),
            forall|i: int| 0 <= i < index ==> #[trigger] portable_paint(paints@[i]),
        decreases paints.len() - index,
    {
        if !paint_is_portable(&paints[index]) {
            return Err(MathComputationError::ArithmeticOverflow);
        }
        index = index + 1;
    }
    Ok(())
}

/// Canonical JSON of one paint command, keys in sorted order.
pub closed spec fn encoded_paint(p: MathPaint) -> Seq<char> {
    match p {
        MathPaint::Glyph(g) => "{\"advance\":"@ + signed_decimal(g.advance as int) + ",\"font_size\":"@
            + signed_decimal(g.font_size_raw as int) + ",\"kind\":\"glyph\",\"logical_ordinal\":"@
            + decimal(g.logical_ordinal as nat) + ",\"original_gid\":"@ + decimal(
            g.original_gid.value as nat,
        ) + ",\"unicode\":"@ + json_string(seq![g.unicode]) + ",\"x\":"@ + signed_decimal(g.x as int)
            + ",\"y\":"@ + signed_decimal(g.y as int) + "}"@,
        MathPaint::Rule(r) => "{\"height\":"@ + signed_decimal(r.height as int)
            + ",\"kind\":\"rule\",\"width\":"@ + signed_decimal(r.width as int) + ",\"x\":"@
            + signed_decimal(r.x as int) + ",\"y\":"@ + signed_decimal(r.y as int) + "}"@,
    }
}

/// The canonical JSON of a paint, over its public accessors.
pub proof fn lemma_encoded_paint(p: MathPaint)
    ensures
        encoded_paint(p) == match p {
            MathPaint::Glyph(g) => "{\"advance\":"@ + signed_decimal(g.spec_advance() as int) + ",\"font_size\":"@
                + signed_decimal(g.spec_font_size_raw() as int) + ",\"kind\":\"glyph\",\"logical_ordinal\":"@
                + decimal(g.spec_logical_ordinal() as nat) + ",\"original_gid\":"@ + decimal(
                g.spec_original_gid().spec_get() as nat,
            ) + ",\"unicode\":"@ + json_string(seq![g.spec_unicode()]) + ",\"x\":"@ + signed_decimal(
                g.spec_x() as int,
            ) + ",\"y\":"@ + signed_decimal(g.spec_y() as int) + "}"@,
            MathPaint::Rule(r) => "{\"height\":"@ + signed_decimal(r.spec_height() as int)
                + ",\"kind\":\"rule\",\"width\":"@ + signed_decimal(r.spec_width() as int) + ",\"x\":"@
                + signed_decimal(r.spec_x() as int) + ",\"y\":"@ + signed_decimal(r.spec_y() as int) + "}"@,
        },
{
}

/// Comma-separated encodings of a list of paints.
pub open spec fn encoded_paint_list(paints: Seq<MathPaint>) -> Seq<char>
    decreases paints.len(),
{
    if paints.len() == 0 {
        Seq::empty()
    } else if paints.len() == 1 {
        encoded_paint(paints[0])
    } else {
        encoded_paint_list(paints.drop_last()) + ","@ + encoded_paint(paints.last())
    }
}

/// Canonical JSON of a paint list in the vector IR.
pub open spec fn encoded_vector(paints: Seq<MathPaint>) -> Seq<char> {
    "{\"algorithm\":"@ + json_string(MATH_VECTOR_IR_ID@) + ",\"paint\":["@ + encoded_paint_list(paints)
        + "]}"@
}

/// The fingerprint of a paint list.
pub open spec fn vector_fingerprint(paints: Seq<MathPaint>) -> Seq<u8> {
    text_fingerprint(encoded_vector(paints))
}

fn push_paint(output: &mut String, paint: &MathPaint)
    ensures
        final(output)@ == old(output)@ + encoded_paint(*paint),
{
    match paint {
        MathPaint::Glyph(glyph) => {
            output.append("{\"advance\":");
            push_i64(output, glyph.advance);
            output.append(",\"font_size\":");
            push_i64(output, glyph.font_size_raw);
            output.append(",\"kind\":\"glyph\",\"logical_ordinal\":");
            push_u64(output, glyph.logical_ordinal as u64);
            output.append(",\"original_gid\":");
            push_u64(output, glyph.original_gid.value as u64);
            output.append(",\"unicode\":");
            let ghost before = output@;
            push_char(output, '"');
            push_json_char(output, glyph.unicode);
            push_char(output, '"');
            proof {
                let one = seq![glyph.unicode];
                assert(one.drop_last() =~= Seq::<char>::empty());
                assert(crate::text::json_escaped(Seq::<char>::empty()) =~= Seq::<char>::empty());
                assert(crate::text::json_escaped(one) =~= crate::text::json_escaped(one.drop_last())
                    + crate::text::json_escape(one.last()));
                assert(json_string(one) =~= seq!['"'] + crate::text::json_escape(glyph.unicode) + seq!['"']);
                assert(output@ =~= before + json_string(one));
            }
            output.append(",\"x\":");
            push_i64(output, glyph.x);
            output.append(",\"y\":");
            push_i64(output, glyph.y);
            output.append("}");
        },
        MathPaint::Rule(rule) => {
            output.append("{\"height\":");
            push_i64(output, rule.height);
            output.append(",\"kind\":\"rule\",\"width\":");
            push_i64(output, rule.width);
            output.append(",\"x\":");
            push_i64(output, rule.x);
            output.append(",\"y\":");
            push_i64(output, rule.y);
            output.append("}");
        },
    }
    assert(output@ =~= old(output)@ + encoded_paint(*paint));
}

/// The canonical JSON of a paint list.
pub(crate) fn encode_vector(paints: &[MathPaint]) -> (text: String)
    ensures
        text@ == encoded_vector(paints@),
{
    let mut output = String::new();
    output.append("{\"algorithm\":");
    push_json_str(&mut output, MATH_VECTOR_IR_ID);
    output.append(",\"paint\":[");
    let ghost head = output@;
    let mut index: usize = 0;
    while index < paints.len()
        invariant
            0 <= index <= paints@.len(),
            output@ == head + encoded_paint_list(paints@.take(index as int)),
        decreases paints.len() - index,
    {
        if index > 0 {
            output.append(",");
        }
        push_paint(&mut output, &paints[index]);
        proof {
            let prefix = paints@.take(index as int + 1);
            assert(prefix.drop_last() =~= paints@.take(index as int));
            assert(prefix.last() == paints@[index as int]);
            if index == 0 {
                assert(paints@.take(0) =~= Seq::<MathPaint>::empty());
            }
        }
        index = index + 1;
    }
    assert(paints@.take(paints@.len() as int) =~= paints@);
    output.append("]}");
    assert(output@ =~= encoded_vector(paints@));
    output
}

/// SHA-256 of the canonical JSON of a paint list.
pub fn math_vector_fingerprint(paints: &[MathPaint]) -> (digest: [u8; 32])
    ensures
        digest@ == vector_fingerprint(paints@),
{
    let text = encode_vector(paints);
    fingerprint_text(&text)
}

} // verus!
