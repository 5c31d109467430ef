//! Page geometry shared by the selected layouts: rectangles, PDF page
//! boxes, margins, flow positions and selected frames, with their canonical
//! JSON.
use vstd::prelude::*;
use crate::text::{decimal, push_i64, push_u64, signed_decimal};

verus! {

/// The flow of the document body.
pub const DOCUMENT_BODY_FLOW: u32 = 0;

/// A rectangle in raw length units, y growing downward.
#[derive(Clone, Copy, Debug, PartialEq, Eq, Structural)]
pub struct Rect {
    pub x: i64,
    pub y: i64,
    pub width: i64,
    pub height: i64,
}

/// `inner` lies within `outer`, both edges computed without overflow.
pub open spec fn rect_within(outer: Rect, inner: Rect) -> bool {
    &&& outer.x + outer.width <= i64::MAX && outer.y + outer.height <= i64::MAX
    &&& inner.x + inner.width <= i64::MAX && inner.y + inner.height <= i64::MAX
    &&& outer.x + outer.width >= i64::MIN && outer.y + outer.height >= i64::MIN
    &&& inner.x + inner.width >= i64::MIN && inner.y + inner.height >= i64::MIN
    &&& inner.x >= outer.x && inner.y >= outer.y
    &&& inner.x + inner.width <= outer.x + outer.width
    &&& inner.y + inner.height <= outer.y + outer.height
}

/// Whether `inner` lies within `outer`; false when an edge overflows.
pub fn rect_contains(outer: Rect, inner: Rect) -> (r: bool)
    ensures
        r == rect_within(outer, inner),
{
    let outer_right = match outer.x.checked_add(outer.width) {
        Some(v) => v,
        None => return false,
    };
    let outer_bottom = match outer.y.checked_add(outer.height) {
        Some(v) => v,
        None => return false,
    };
    let inner_right = match inner.x.checked_add(inner.width) {
        Some(v) => v,
        None => return false,
    };
    let inner_bottom = match inner.y.checked_add(inner.height) {
        Some(v) => v,
        None => return false,
    };
    inner.x >= outer.x && inner.y >= outer.y && inner_right <= outer_right && inner_bottom
        <= outer_bottom
}

/// A PDF page box `[x_min, y_min, x_max, y_max]`, y growing upward.
#[derive(Clone, Copy, Debug, PartialEq, Eq, Structural)]
pub struct StagingPdfPageBox {
    pub x_min: i64,
    pub y_min: i64,
    pub x_max: i64,
    pub y_max: i64,
}

impl StagingPdfPageBox {
    pub fn new(x_min: i64, y_min: i64, x_max: i64, y_max: i64) -> (b: Self)
        ensures
            b == (StagingPdfPageBox { x_min, y_min, x_max, y_max }),
    {
        StagingPdfPageBox { x_min, y_min, x_max, y_max }
    }

    pub fn values(self) -> (v: [i64; 4])
        ensures
            v@ == seq![self.x_min, self.y_min, self.x_max, self.y_max],
    {
        [self.x_min, self.y_min, self.x_max, self.y_max]
    }
}

/// The media, crop and trim boxes of a selected page.
#[derive(Clone, Copy, Debug, PartialEq, Eq, Structural)]
pub struct StagingSelectedPageBoxes {
    pub media_box: StagingPdfPageBox,
    pub crop_box: StagingPdfPageBox,
    pub trim_box: StagingPdfPageBox,
}

impl StagingSelectedPageBoxes {
    pub fn new(media_box: StagingPdfPageBox, crop_box: StagingPdfPageBox, trim_box: StagingPdfPageBox) -> (b:
        Self)
        ensures
            b == (StagingSelectedPageBoxes { media_box, crop_box, trim_box }),
    {
        StagingSelectedPageBoxes { media_box, crop_box, trim_box }
    }

    pub fn media_box(self) -> (b: StagingPdfPageBox)
        ensures
            b == self.media_box,
    {
        self.media_box
    }

    pub fn crop_box(self) -> (b: StagingPdfPageBox)
        ensures
            b == self.crop_box,
    {
        self.crop_box
    }

    pub fn trim_box(self) -> (b: StagingPdfPageBox)
        ensures
            b == self.trim_box,
    {
        self.trim_box
    }
}

/// Distances from the trim box to the body frame; none is negative.
#[derive(Clone, Copy, Debug, PartialEq, Eq, Structural)]
pub struct StagingPageMargins {
    pub top: i64,
    pub right: i64,
    pub bottom: i64,
    pub left: i64,
}

impl StagingPageMargins {
    pub fn top(self) -> (v: i64)
        ensures
            v == self.top,
    {
        self.top
    }

    pub fn right(self) -> (v: i64)
        ensures
            v == self.right,
    {
        self.right
    }

    pub fn bottom(self) -> (v: i64)
        ensures
            v == self.bottom,
    {
        self.bottom
    }

    pub fn left(self) -> (v: i64)
        ensures
            v == self.left,
    {
        self.left
    }
}

/// The role of a frame on a page.
#[derive(Clone, Copy, Debug, PartialEq, Eq, Structural, Hash, PartialOrd, Ord)]
pub enum StagingAdvancedPageFrameKind {
    Header,
    Body,
    Footer,
}

pub open spec fn frame_kind_name(kind: StagingAdvancedPageFrameKind) -> Seq<char> {
    match kind {
        StagingAdvancedPageFrameKind::Header => "header"@,
        StagingAdvancedPageFrameKind::Body => "body"@,
        StagingAdvancedPageFrameKind::Footer => "footer"@,
    }
}

impl StagingAdvancedPageFrameKind {
    /// The record name of the frame kind.
    pub fn as_str(self) -> (name: &'static str)
        ensures
            name@ == frame_kind_name(self),
    {
        match self {
            StagingAdvancedPageFrameKind::Header => "header",
            StagingAdvancedPageFrameKind::Body => "body",
            StagingAdvancedPageFrameKind::Footer => "footer",
        }
    }
}

/// A position in a flow: the number of flow items before it.
#[derive(Clone, Copy, Debug, PartialEq, Eq, Structural)]
pub struct StagingAdvancedFlowPosition {
    pub flow_id: u32,
    pub ordinal: u32,
}

impl StagingAdvancedFlowPosition {
    pub fn new(flow_id: u32, ordinal: u32) -> (p: Self)
        ensures
            p == (StagingAdvancedFlowPosition { flow_id, ordinal }),
    {
        StagingAdvancedFlowPosition { flow_id, ordinal }
    }

    pub fn flow_id(self) -> (v: u32)
        ensures
            v == self.flow_id,
    {
        self.flow_id
    }

    pub fn ordinal(self) -> (v: u32)
        ensures
            v == self.ordinal,
    {
        self.ordinal
    }
}

/// A frame selected on a page: its role, column, flows, rectangle and the
/// flow positions it starts and ends at.
#[derive(Clone, Copy, Debug, PartialEq, Eq, Structural)]
pub struct StagingSelectedAdvancedFrame {
    pub kind: StagingAdvancedPageFrameKind,
    pub column_index: Option<u32>,
    pub frame_flow_id: u32,
    pub source_flow_id: u32,
    pub rect: Rect,
    pub before_position: StagingAdvancedFlowPosition,
    pub after_position: StagingAdvancedFlowPosition,
    pub terminal: bool,
    pub repetition_index: Option<u32>,
}

impl StagingSelectedAdvancedFrame {
    pub fn kind(&self) -> (v: StagingAdvancedPageFrameKind)
        ensures
            v == self.kind,
    {
        self.kind
    }

    pub fn column_index(&self) -> (v: Option<u32>)
        ensures
            v == self.column_index,
    {
        self.column_index
    }

    pub fn frame_flow_id(&self) -> (v: u32)
        ensures
            v == self.frame_flow_id,
    {
        self.frame_flow_id
    }

    pub fn source_flow_id(&self) -> (v: u32)
        ensures
            v == self.source_flow_id,
    {
        self.source_flow_id
    }

    pub fn rect(&self) -> (v: Rect)
        ensures
            v == self.rect,
    {
        self.rect
    }

    pub fn before_position(&self) -> (v: StagingAdvancedFlowPosition)
        ensures
            v == self.before_position,
    {
        self.before_position
    }

    pub fn after_position(&self) -> (v: StagingAdvancedFlowPosition)
        ensures
            v == self.after_position,
    {
        self.after_position
    }

    pub fn terminal(&self) -> (v: bool)
        ensures
            v == self.terminal,
    {
        self.terminal
    }

    pub fn repetition_index(&self) -> (v: Option<u32>)
        ensures
            v == self.repetition_index,
    {
        self.repetition_index
    }
}

pub closed spec fn encoded_rect(r: Rect) -> Seq<char> {
    "{\"height\":"@ + signed_decimal(r.height as int) + ",\"width\":"@ + signed_decimal(r.width as int)
        + ",\"x\":"@ + signed_decimal(r.x as int) + ",\"y\":"@ + signed_decimal(r.y as int) + "}"@
}

pub closed spec fn encoded_box(b: StagingPdfPageBox) -> Seq<char> {
    "["@ + signed_decimal(b.x_min as int) + ","@ + signed_decimal(b.y_min as int) + ","@
        + signed_decimal(b.x_max as int) + ","@ + signed_decimal(b.y_max as int) + "]"@
}

pub closed spec fn encoded_position(p: StagingAdvancedFlowPosition) -> Seq<char> {
    "{\"flow_id\":"@ + decimal(p.flow_id as nat) + ",\"ordinal\":"@ + decimal(p.ordinal as nat) + "}"@
}

pub closed spec fn encoded_margins(m: StagingPageMargins) -> Seq<char> {
    "{\"bottom\":"@ + signed_decimal(m.bottom as int) + ",\"left\":"@ + signed_decimal(m.left as int)
        + ",\"right\":"@ + signed_decimal(m.right as int) + ",\"top\":"@ + signed_decimal(m.top as int)
        + "}"@
}

pub closed spec fn encoded_optional(v: Option<u32>) -> Seq<char> {
    match v {
        Some(n) => decimal(n as nat),
        None => "null"@,
    }
}

pub closed spec fn encoded_bool(b: bool) -> Seq<char> {
    if b {
        "true"@
    } else {
        "false"@
    }
}

pub closed spec fn encoded_boxes(b: StagingSelectedPageBoxes) -> Seq<char> {
    "{\"crop\":"@ + encoded_box(b.crop_box) + ",\"media\":"@ + encoded_box(b.media_box) + ",\"trim\":"@
        + encoded_box(b.trim_box) + "}"@
}

/// The canonical JSON encodings of geometry, unfolded: a rectangle, a PDF
/// page box, a flow position, margins, an optional number, a flag and the
/// three page boxes.
pub proof fn lemma_encoded_geometry(
    r: Rect,
    b: StagingPdfPageBox,
    p: StagingAdvancedFlowPosition,
    m: StagingPageMargins,
    v: Option<u32>,
    f: bool,
    bs: StagingSelectedPageBoxes,
)
    ensures
        encoded_rect(r) == "{\"height\":"@ + signed_decimal(r.height as int) + ",\"width\":"@ + signed_decimal(
            r.width as int,
        ) + ",\"x\":"@ + signed_decimal(r.x as int) + ",\"y\":"@ + signed_decimal(r.y as int) + "}"@,
        encoded_box(b) == "["@ + signed_decimal(b.x_min as int) + ","@ + signed_decimal(b.y_min as int) + ","@
            + signed_decimal(b.x_max as int) + ","@ + signed_decimal(b.y_max as int) + "]"@,
        encoded_position(p) == "{\"flow_id\":"@ + decimal(p.flow_id as nat) + ",\"ordinal\":"@ + decimal(
            p.ordinal as nat,
        ) + "}"@,
        encoded_margins(m) == "{\"bottom\":"@ + signed_decimal(m.bottom as int) + ",\"left\":"@
            + signed_decimal(m.left as int) + ",\"right\":"@ + signed_decimal(m.right as int) + ",\"top\":"@
            + signed_decimal(m.top as int) + "}"@,
        encoded_optional(v) == match v {
            Some(n) => decimal(n as nat),
            None => "null"@,
        },
        encoded_bool(f) == if f {
            "true"@
        } else {
            "false"@
        },
        encoded_boxes(bs) == "{\"crop\":"@ + encoded_box(bs.crop_box) + ",\"media\":"@ + encoded_box(
            bs.media_box,
        ) + ",\"trim\":"@ + encoded_box(bs.trim_box) + "}"@,
{
}

pub fn push_rect(output: &mut String, r: Rect)
    ensures
        final(output)@ == old(output)@ + encoded_rect(r),
{
    output.append("{\"height\":");
    push_i64(output, r.height);
    output.append(",\"width\":");
    push_i64(output, r.width);
    output.append(",\"x\":");
    push_i64(output, r.x);
    output.append(",\"y\":");
    push_i64(output, r.y);
    output.append("}");
    assert(output@ =~= old(output)@ + encoded_rect(r));
}

pub fn push_box(output: &mut String, b: StagingPdfPageBox)
    ensures
        final(output)@ == old(output)@ + encoded_box(b),
{
    output.append("[");
    push_i64(output, b.x_min);
    output.append(",");
    push_i64(output, b.y_min);
    output.append(",");
    push_i64(output, b.x_max);
    output.append(",");
    push_i64(output, b.y_max);
    output.append("]");
    assert(output@ =~= old(output)@ + encoded_box(b));
}

pub fn push_boxes(output: &mut String, b: StagingSelectedPageBoxes)
    ensures
        final(output)@ == old(output)@ + encoded_boxes(b),
{
    output.append("{\"crop\":");
    push_box(output, b.crop_box);
    output.append(",\"media\":");
    push_box(output, b.media_box);
    output.append(",\"trim\":");
    push_box(output, b.trim_box);
    output.append("}");
    assert(output@ =~= old(output)@ + encoded_boxes(b));
}

pub fn push_position(output: &mut String, p: StagingAdvancedFlowPosition)
    ensures
        final(output)@ == old(output)@ + encoded_position(p),
{
    output.append("{\"flow_id\":");
    push_u64(output, p.flow_id as u64);
    output.append(",\"ordinal\":");
    push_u64(output, p.ordinal as u64);
    output.append("}");
    assert(output@ =~= old(output)@ + encoded_position(p));
}

pub fn push_margins(output: &mut String, m: StagingPageMargins)
    ensures
        final(output)@ == old(output)@ + encoded_margins(m),
{
    output.append("{\"bottom\":");
    push_i64(output, m.bottom);
    output.append(",\"left\":");
    push_i64(output, m.left);
    output.append(",\"right\":");
    push_i64(output, m.right);
    output.append(",\"top\":");
    push_i64(output, m.top);
    output.append("}");
    assert(output@ =~= old(output)@ + encoded_margins(m));
}

pub fn push_optional(output: &mut String, v: Option<u32>)
    ensures
        final(output)@ == old(output)@ + encoded_optional(v),
{
    match v {
        Some(n) => push_u64(output, n as u64),
        None => output.append("null"),
    }
}

pub fn push_bool(output: &mut String, b: bool)
    ensures
        final(output)@ == old(output)@ + encoded_bool(b),
{
    if b {
        output.append("true");
    } else {
        output.append("false");
    }
}

} // verus!

verus! {

/// Resource limits of pagination: inclusive maxima.
#[derive(Clone, Copy, Debug, PartialEq, Eq, Structural)]
pub struct PaginationLimits {
    pub max_pages: u32,
    pub max_fragments: u64,
    pub max_column_balance_candidates: u16,
    pub max_float_queue: u32,
    pub max_float_carry_pages: u16,
}

} // verus!
