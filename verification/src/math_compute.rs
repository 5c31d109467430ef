//! Math computation: layout of a parsed formula with a face, sealed into a
//! receipt whose canonical JSON binds the parsed receipt, the MATH table,
//! the dimensions, the vector paint and the exact layout work.
use vstd::prelude::*;
use crate::digest::fingerprint_eq;
use crate::math_arith::{
    Checked, MathComputationError, checked_sub, portable, portable_integer, scale_font_units,
};
use crate::math_font::MathFontFace;
use crate::math_ast::TermView;
use crate::math_layout::LayoutContext;
use crate::math_shape::{LaidBox, row_layout};
use crate::math_paint::{
    MathPaint, portable_geometry, validate_portable_geometry, math_vector_fingerprint, vector_fingerprint,
};
use crate::math_receipt::{ParsedMathReceipt, fingerprint_text, text_fingerprint};
use crate::math_source::{MATH_COMPUTATION_ID, MATH_LAYOUT_WORK_ID, MATH_VECTOR_IR_ID, MathNodeKind};
use crate::math_work::{
    LayoutWorkBudget, MathComputationInput, preflight_layout_work, required_math_layout_units_from_preflight,
    required_units,
};
use crate::text::{
    decimal, json_string, push_hash, push_i64, push_json_str, push_u64, quoted_hex, signed_decimal,
};

verus! {

/// Extent of a laid-out formula: advance, ascent and descent from the
/// baseline, the baseline and math axis, and the bounding box.
#[derive(Clone, Copy, Debug, PartialEq, Eq)]
pub struct MathDimensions {
    advance: i64,
    ascent: i64,
    descent: i64,
    baseline: i64,
    axis: i64,
    bbox_x_min: i64,
    bbox_y_min: i64,
    bbox_x_max: i64,
    bbox_y_max: i64,
}

impl MathDimensions {
    pub closed spec fn spec_advance(self) -> i64 {
        self.advance
    }

    pub closed spec fn spec_ascent(self) -> i64 {
        self.ascent
    }

    pub closed spec fn spec_descent(self) -> i64 {
        self.descent
    }

    pub closed spec fn spec_baseline(self) -> i64 {
        self.baseline
    }

    pub closed spec fn spec_axis(self) -> i64 {
        self.axis
    }

    pub closed spec fn spec_bbox(self) -> (i64, i64, i64, i64) {
        (self.bbox_x_min, self.bbox_y_min, self.bbox_x_max, self.bbox_y_max)
    }

    pub fn advance(self) -> (v: i64)
        ensures
            v == self.spec_advance(),
    {
        self.advance
    }

    pub fn ascent(self) -> (v: i64)
        ensures
            v == self.spec_ascent(),
    {
        self.ascent
    }

    pub fn descent(self) -> (v: i64)
        ensures
            v == self.spec_descent(),
    {
        self.descent
    }

    pub fn baseline(self) -> (v: i64)
        ensures
            v == self.spec_baseline(),
    {
        self.baseline
    }

    pub fn axis(self) -> (v: i64)
        ensures
            v == self.spec_axis(),
    {
        self.axis
    }

    /// `(x_min, y_min, x_max, y_max)`, y growing downward.
    pub fn bbox(self) -> (v: (i64, i64, i64, i64))
        ensures
            v == self.spec_bbox(),
    {
        (self.bbox_x_min, self.bbox_y_min, self.bbox_x_max, self.bbox_y_max)
    }
}

/// Record name of a placement kind.
pub open spec fn kind_name(kind: MathNodeKind) -> Seq<char> {
    match kind {
        MathNodeKind::Inline => "inline_math"@,
        MathNodeKind::Display => "display_math"@,
    }
}

/// Canonical JSON of a math computation.
pub open spec fn computation_jcs(
    parsed_fingerprint: Seq<u8>,
    kind: MathNodeKind,
    font_size_raw: i64,
    math_table_fingerprint: Seq<u8>,
    d: MathDimensions,
    vector: Seq<u8>,
    layout_work: u64,
) -> Seq<char> {
    "{\"algorithm\":"@ + json_string(MATH_COMPUTATION_ID@) + ",\"dimensions\":{\"advance\":"@
        + signed_decimal(d.spec_advance() as int) + ",\"ascent\":"@ + signed_decimal(
        d.spec_ascent() as int,
    ) + ",\"axis\":"@ + signed_decimal(d.spec_axis() as int) + ",\"baseline\":"@ + signed_decimal(
        d.spec_baseline() as int,
    ) + ",\"bbox\":["@ + signed_decimal(d.spec_bbox().0 as int) + ","@ + signed_decimal(
        d.spec_bbox().1 as int,
    ) + ","@ + signed_decimal(d.spec_bbox().2 as int) + ","@ + signed_decimal(d.spec_bbox().3 as int)
        + "],\"descent\":"@ + signed_decimal(d.spec_descent() as int) + "},\"font_size\":"@
        + signed_decimal(font_size_raw as int) + ",\"kind\":"@ + json_string(kind_name(kind))
        + ",\"layout_work\":"@ + decimal(layout_work as nat) + ",\"math_table_fingerprint\":"@
        + quoted_hex(math_table_fingerprint) + ",\"parsed_fingerprint\":"@ + quoted_hex(
        parsed_fingerprint,
    ) + ",\"vector_algorithm\":"@ + json_string(MATH_VECTOR_IR_ID@) + ",\"vector_fingerprint\":"@
        + quoted_hex(vector) + ",\"work_algorithm\":"@ + json_string(MATH_LAYOUT_WORK_ID@) + "}"@
}

fn encode_computation(
    parsed_fingerprint: &[u8; 32],
    kind: MathNodeKind,
    font_size_raw: i64,
    math_table_fingerprint: &[u8; 32],
    dimensions: MathDimensions,
    vector: &[u8; 32],
    layout_work: u64,
) -> (text: String)
    ensures
        text@ == computation_jcs(
            parsed_fingerprint@,
            kind,
            font_size_raw,
            math_table_fingerprint@,
            dimensions,
            vector@,
            layout_work,
        ),
{
    let mut output = String::new();
    output.append("{\"algorithm\":");
    push_json_str(&mut output, MATH_COMPUTATION_ID);
    output.append(",\"dimensions\":{\"advance\":");
    push_i64(&mut output, dimensions.advance);
    output.append(",\"ascent\":");
    push_i64(&mut output, dimensions.ascent);
    output.append(",\"axis\":");
    push_i64(&mut output, dimensions.axis);
    output.append(",\"baseline\":");
    push_i64(&mut output, dimensions.baseline);
    output.append(",\"bbox\":[");
    push_i64(&mut output, dimensions.bbox_x_min);
    output.append(",");
    push_i64(&mut output, dimensions.bbox_y_min);
    output.append(",");
    push_i64(&mut output, dimensions.bbox_x_max);
    output.append(",");
    push_i64(&mut output, dimensions.bbox_y_max);
    output.append("],\"descent\":");
    push_i64(&mut output, dimensions.descent);
    output.append("},\"font_size\":");
    push_i64(&mut output, font_size_raw);
    output.append(",\"kind\":");
    push_json_str(&mut output, kind.as_str());
    output.append(",\"layout_work\":");
    push_u64(&mut output, layout_work);
    output.append(",\"math_table_fingerprint\":");
    push_hash(&mut output, math_table_fingerprint);
    output.append(",\"parsed_fingerprint\":");
    push_hash(&mut output, parsed_fingerprint);
    output.append(",\"vector_algorithm\":");
    push_json_str(&mut output, MATH_VECTOR_IR_ID);
    output.append(",\"vector_fingerprint\":");
    push_hash(&mut output, vector);
    output.append(",\"work_algorithm\":");
    push_json_str(&mut output, MATH_LAYOUT_WORK_ID);
    output.append("}");
    assert(output@ =~= computation_jcs(
        parsed_fingerprint@,
        kind,
        font_size_raw,
        math_table_fingerprint@,
        dimensions,
        vector@,
        layout_work,
    ));
    output
}

/// A laid-out formula sealed to its parsed receipt and face.
#[derive(Clone, Debug, PartialEq, Eq)]
pub struct MathComputationReceipt {
    parsed_fingerprint: [u8; 32],
    kind: MathNodeKind,
    font_size_raw: i64,
    math_table_fingerprint: [u8; 32],
    dimensions: MathDimensions,
    paints: Vec<MathPaint>,
    vector_fingerprint: [u8; 32],
    layout_work: u64,
    canonical_jcs: String,
    fingerprint: [u8; 32],
}

impl MathComputationReceipt {
    pub closed spec fn spec_parsed_fingerprint(&self) -> Seq<u8> {
        self.parsed_fingerprint@
    }

    pub closed spec fn spec_kind(&self) -> MathNodeKind {
        self.kind
    }

    pub closed spec fn spec_font_size_raw(&self) -> i64 {
        self.font_size_raw
    }

    pub closed spec fn spec_math_table_fingerprint(&self) -> Seq<u8> {
        self.math_table_fingerprint@
    }

    pub closed spec fn spec_dimensions(&self) -> MathDimensions {
        self.dimensions
    }

    pub closed spec fn spec_paints(&self) -> Seq<MathPaint> {
        self.paints@
    }

    pub closed spec fn spec_vector_fingerprint(&self) -> Seq<u8> {
        self.vector_fingerprint@
    }

    pub closed spec fn spec_layout_work(&self) -> u64 {
        self.layout_work
    }

    pub closed spec fn spec_canonical_jcs(&self) -> Seq<char> {
        self.canonical_jcs@
    }

    pub closed spec fn spec_fingerprint(&self) -> Seq<u8> {
        self.fingerprint@
    }

    /// What `verify_sealed` compares: the receipt is bound to the parsed
    /// receipt and the face, its paint is nonempty with a positive extent,
    /// and its fingerprints and canonical JSON are recomputed exactly.
    pub open spec fn sealed_to(&self, parsed: ParsedMathReceipt, face: MathFontFace) -> bool {
        &&& self.spec_font_size_raw() > 0
        &&& self.spec_parsed_fingerprint() == parsed.spec_fingerprint()
        &&& self.spec_math_table_fingerprint() == face.math_table_fingerprint@
        &&& self.spec_paints().len() > 0
        &&& self.spec_dimensions().spec_advance() > 0
        &&& self.spec_dimensions().spec_ascent() > 0
        &&& self.spec_dimensions().spec_descent() >= 0
        &&& self.spec_vector_fingerprint() == vector_fingerprint(self.spec_paints())
        &&& self.spec_canonical_jcs() == computation_jcs(
            parsed.spec_fingerprint(),
            self.spec_kind(),
            self.spec_font_size_raw(),
            face.math_table_fingerprint@,
            self.spec_dimensions(),
            vector_fingerprint(self.spec_paints()),
            self.spec_layout_work(),
        )
        &&& self.spec_fingerprint() == text_fingerprint(self.spec_canonical_jcs())
    }

    pub fn parsed_fingerprint(&self) -> (v: [u8; 32])
        ensures
            v@ == self.spec_parsed_fingerprint(),
    {
        self.parsed_fingerprint
    }

    pub fn kind(&self) -> (v: MathNodeKind)
        ensures
            v == self.spec_kind(),
    {
        self.kind
    }

    pub fn font_size_raw(&self) -> (v: i64)
        ensures
            v == self.spec_font_size_raw(),
    {
        self.font_size_raw
    }

    pub fn math_table_fingerprint(&self) -> (v: [u8; 32])
        ensures
            v@ == self.spec_math_table_fingerprint(),
    {
        self.math_table_fingerprint
    }

    pub fn dimensions(&self) -> (v: MathDimensions)
        ensures
            v == self.spec_dimensions(),
    {
        self.dimensions
    }

    pub fn paints(&self) -> (v: &[MathPaint])
        ensures
            v@ == self.spec_paints(),
    {
        self.paints.as_slice()
    }

    pub fn vector_fingerprint(&self) -> (v: [u8; 32])
        ensures
            v@ == self.spec_vector_fingerprint(),
    {
        self.vector_fingerprint
    }

    pub fn layout_work(&self) -> (v: u64)
        ensures
            v == self.spec_layout_work(),
    {
        self.layout_work
    }

    pub fn canonical_jcs(&self) -> (v: &str)
        ensures
            v@ == self.spec_canonical_jcs(),
    {
        self.canonical_jcs.as_str()
    }

    pub fn fingerprint(&self) -> (v: [u8; 32])
        ensures
            v@ == self.spec_fingerprint(),
    {
        self.fingerprint
    }

    /// Re-derive the canonical JSON and the fingerprints from the receipt's
    /// fields, the parsed receipt and the face; refuse a receipt that was
    /// not issued for them.
    pub fn verify_sealed(&self, parsed: &ParsedMathReceipt, face: &MathFontFace) -> (r: Result<
        (),
        MathComputationError,
    >)
        ensures
            !parsed.consistent() ==> r == Err::<(), MathComputationError>(
                MathComputationError::ParsedReceipt,
            ),
            parsed.consistent() ==> (r is Ok <==> self.sealed_to(*parsed, *face)),
            parsed.consistent() && r is Err ==> r == Err::<(), MathComputationError>(
                MathComputationError::ReceiptMismatch,
            ),
    {
        match parsed.verify() {
            Ok(()) => {},
            Err(_) => return Err(MathComputationError::ParsedReceipt),
        }
        let work_limit = if self.layout_work == 0 {
            1
        } else {
            self.layout_work
        };
        match MathComputationInput::new(self.kind, self.font_size_raw, work_limit) {
            Some(_) => {},
            None => return Err(MathComputationError::ReceiptMismatch),
        }
        let parsed_fingerprint = parsed.fingerprint();
        let vector = math_vector_fingerprint(self.paints.as_slice());
        let canonical_jcs = encode_computation(
            &parsed_fingerprint,
            self.kind,
            self.font_size_raw,
            &face.math_table_fingerprint,
            self.dimensions,
            &vector,
            self.layout_work,
        );
        let fingerprint = fingerprint_text(&canonical_jcs);
        if !fingerprint_eq(&self.parsed_fingerprint, &parsed_fingerprint) || !fingerprint_eq(
            &self.math_table_fingerprint,
            &face.math_table_fingerprint,
        ) || self.paints.len() == 0 || self.dimensions.advance <= 0 || self.dimensions.ascent <= 0
            || self.dimensions.descent < 0 || !fingerprint_eq(&self.vector_fingerprint, &vector)
            || self.canonical_jcs != canonical_jcs || !fingerprint_eq(&self.fingerprint, &fingerprint) {
            return Err(MathComputationError::ReceiptMismatch);
        }
        Ok(())
    }
}

/// What a computed receipt states of its inputs: every sealed field, the
/// exact reserved work, portable paint, and dimensions measured from the
/// baseline with the axis from the face.
pub open spec fn computed_from(
    receipt: MathComputationReceipt,
    parsed: ParsedMathReceipt,
    face: MathFontFace,
    input: MathComputationInput,
) -> bool {
    let d = receipt.spec_dimensions();
    &&& parsed.consistent()
    &&& receipt.sealed_to(parsed, face)
    &&& receipt.spec_kind() == input.spec_kind()
    &&& receipt.spec_font_size_raw() == input.spec_font_size_raw()
    &&& receipt.spec_layout_work() == required_units(parsed.spec_ast())
    &&& portable_geometry(d.spec_advance(), d.spec_ascent(), d.spec_descent(), receipt.spec_paints())
    &&& d.spec_baseline() == d.spec_ascent()
    &&& d.spec_bbox() == (0i64, (-d.spec_ascent()) as i64, d.spec_advance(), d.spec_descent())
    &&& scale_font_units_result(face, input.spec_font_size_raw()) == Ok::<i64, MathComputationError>(
        d.spec_axis(),
    )
    &&& portable(d.spec_axis() as int)
}

/// The math axis scaled to a font size.
pub open spec fn scale_font_units_result(face: MathFontFace, size: i64) -> Checked<i64> {
    crate::math_arith::scale_spec(face.constants.axis_height as int, size as int, face.units_per_em as int)
}

/// What computing a formula answers: the parsed receipt must be consistent
/// and its exact layout work within the request's limit; then the layout of
/// its root row at the requested size from glyph ordinal zero, which must
/// paint something with a positive extent in JSON-safe integers, beside a
/// JSON-safe math axis.
pub open spec fn computation_outcome(parsed: ParsedMathReceipt, face: MathFontFace, input: MathComputationInput) -> Checked<
    LaidBox,
> {
    let size = input.spec_font_size_raw();
    if !parsed.consistent() {
        Err(MathComputationError::ParsedReceipt)
    } else if required_units(parsed.spec_ast()) > input.spec_max_layout_units() {
        Err(MathComputationError::LayoutUnitLimit)
    } else {
        match row_layout(face, input.spec_kind(), size, 0, parsed.spec_ast(), 0) {
            Ok((b, _)) => if b.paints.len() == 0 || b.width <= 0 || b.ascent <= 0 || b.descent < 0 {
                Err(MathComputationError::EmptyPaint)
            } else if !portable_geometry(b.width, b.ascent, b.descent, b.paints) {
                Err(MathComputationError::ArithmeticOverflow)
            } else {
                match scale_font_units_result(face, size) {
                    Ok(axis) => if portable(axis as int) {
                        Ok(b)
                    } else {
                        Err(MathComputationError::ArithmeticOverflow)
                    },
                    Err(e) => Err(e),
                }
            },
            Err(e) => Err(e),
        }
    }
}

/// Lay out a parsed formula with a face at the requested size. The parsed
/// receipt is verified first; the exact layout work is reserved and must fit
/// the request's limit; the result must paint something with a positive
/// extent, in portable integers.
#[verifier::rlimit(80)]
pub fn compute_math(parsed: &ParsedMathReceipt, face: &MathFontFace, input: MathComputationInput) -> (r:
    Result<MathComputationReceipt, MathComputationError>)
    ensures
        !parsed.consistent() ==> r == Err::<MathComputationReceipt, MathComputationError>(
            MathComputationError::ParsedReceipt,
        ),
        parsed.consistent() && required_units(parsed.spec_ast()) > input.spec_max_layout_units() ==> r
            == Err::<MathComputationReceipt, MathComputationError>(
            MathComputationError::LayoutUnitLimit,
        ),
        r matches Ok(receipt) ==> computed_from(receipt, *parsed, *face, input),
        r matches Err(e) ==> computation_outcome(*parsed, *face, input) == Err::<LaidBox, MathComputationError>(e),
        r matches Ok(receipt) ==> computation_outcome(*parsed, *face, input) matches Ok(b) && receipt.spec_paints()
            == b.paints && receipt.spec_dimensions().spec_advance() == b.width && receipt.spec_dimensions().spec_ascent()
            == b.ascent && receipt.spec_dimensions().spec_descent() == b.descent,
        computation_outcome(*parsed, *face, input) is Ok ==> r is Ok,
        r matches Err(e) ==> e != MathComputationError::ReceiptMismatch,
{
    match parsed.verify() {
        Ok(()) => {},
        Err(_) => return Err(MathComputationError::ParsedReceipt),
    }
    let root = parsed.root();
    let preflight = match preflight_layout_work(root) {
        Ok(p) => p,
        Err(e) => return Err(e),
    };
    let expected = match required_math_layout_units_from_preflight(parsed.ast_node_count(), preflight) {
        Ok(v) => v,
        Err(e) => return Err(e),
    };
    if expected > input.max_layout_units() {
        return Err(MathComputationError::LayoutUnitLimit);
    }
    let work = match LayoutWorkBudget::new(parsed.ast_node_count(), expected) {
        Ok(w) => w,
        Err(e) => return Err(e),
    };
    let size = input.font_size_raw();
    let mut context = LayoutContext {
        face,
        kind: input.kind(),
        root_size: size,
        logical_ordinal: 0,
        work,
    };
    assert(context.work.consumed + crate::math_work::row_boxes(root.view()) + crate::math_work::row_paints(
        root.view(),
    ) <= context.work.maximum);
    let result = match context.layout_row(root, 0) {
        Ok(b) => b,
        Err(e) => return Err(e),
    };
    if result.paints.len() == 0 || result.width <= 0 || result.ascent <= 0 || result.descent < 0 {
        return Err(MathComputationError::EmptyPaint);
    }
    match validate_portable_geometry(result.width, result.ascent, result.descent, &result.paints) {
        Ok(()) => {},
        Err(e) => return Err(e),
    }
    let paint_count = result.paints.len() as u64;
    let layout_work = context.work.consumed();
    if result.box_count != preflight.boxes || paint_count != preflight.paints || layout_work != expected {
        return Err(MathComputationError::ReceiptMismatch);
    }
    let axis = match scale_font_units(face.constants.axis_height as i64, size, face.units_per_em) {
        Ok(v) => v,
        Err(e) => return Err(e),
    };
    if !portable_integer(axis) {
        return Err(MathComputationError::ArithmeticOverflow);
    }
    let bbox_y_min = match checked_sub(0, result.ascent) {
        Ok(v) => v,
        Err(e) => return Err(e),
    };
    let dimensions = MathDimensions {
        advance: result.width,
        ascent: result.ascent,
        descent: result.descent,
        baseline: result.ascent,
        axis,
        bbox_x_min: 0,
        bbox_y_min,
        bbox_x_max: result.width,
        bbox_y_max: result.descent,
    };
    let parsed_fingerprint = parsed.fingerprint();
    let vector = math_vector_fingerprint(result.paints.as_slice());
    let kind = input.kind();
    let canonical_jcs = encode_computation(
        &parsed_fingerprint,
        kind,
        size,
        &face.math_table_fingerprint,
        dimensions,
        &vector,
        layout_work,
    );
    let fingerprint = fingerprint_text(&canonical_jcs);
    Ok(
        MathComputationReceipt {
            parsed_fingerprint,
            kind,
            font_size_raw: size,
            math_table_fingerprint: face.math_table_fingerprint,
            dimensions,
            paints: result.paints,
            vector_fingerprint: vector,
            layout_work,
            canonical_jcs,
            fingerprint,
        },
    )
}

/// A computed receipt verifies against the parsed receipt and face it was
/// computed from.
pub proof fn lemma_computed_receipt_verifies(
    receipt: MathComputationReceipt,
    parsed: ParsedMathReceipt,
    face: MathFontFace,
    input: MathComputationInput,
)
    requires
        computed_from(receipt, parsed, face, input),
    ensures
        parsed.consistent(),
        receipt.sealed_to(parsed, face),
{
}

} // verus!
