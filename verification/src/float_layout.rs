//! Float pagination records: the float queue, candidate decisions,
//! placements, carries, body fragments and selected pages, with the
//! selected layout receipt and its verification.
use vstd::prelude::*;
use crate::body_errors::NodeId;
use crate::digest::fingerprint_eq;
use crate::header_footer::ADVANCED_SELECTED_LAYOUT_ALGORITHM;
use crate::math_receipt::{fingerprint_text, text_fingerprint};
use crate::page_geometry::{
    Rect, StagingAdvancedFlowPosition, StagingPageMargins, StagingSelectedAdvancedFrame,
    StagingSelectedPageBoxes, encoded_bool, encoded_boxes, encoded_margins, encoded_optional,
    encoded_position, encoded_rect, push_bool, push_boxes, push_margins, push_optional, push_position,
    push_rect,
};
use crate::text::{
    decimal, joined, json_string, lemma_joined_step, push_char, push_hash, push_i64, push_json_str, push_u64,
    quoted_hex, signed_decimal,
};

verus! {

pub const FLOAT_QUEUE_ALGORITHM: &'static str = "typaxis.float-queue/1";

/// Where a float is placed: at its anchor, at the top or bottom of a column,
/// or carried to the next page.
#[derive(Clone, Copy, Debug, PartialEq, Eq, Structural, Hash, PartialOrd, Ord)]
pub enum FloatPlacementClass {
    Here,
    Top,
    Bottom,
    NextPage,
}

/// The clearance a float asks of the body around it: none, or some that
/// this pagination does not implement.
#[derive(Clone, Copy, Debug, PartialEq, Eq, Structural, Hash)]
pub enum FloatClearance {
    Zero,
    Other,
}

pub open spec fn class_name(class: FloatPlacementClass) -> Seq<char> {
    match class {
        FloatPlacementClass::Here => "here"@,
        FloatPlacementClass::Top => "top"@,
        FloatPlacementClass::Bottom => "bottom"@,
        FloatPlacementClass::NextPage => "next_page"@,
    }
}

impl FloatPlacementClass {
    pub fn as_str(self) -> (name: &'static str)
        ensures
            name@ == class_name(self),
    {
        match self {
            FloatPlacementClass::Here => "here",
            FloatPlacementClass::Top => "top",
            FloatPlacementClass::Bottom => "bottom",
            FloatPlacementClass::NextPage => "next_page",
        }
    }
}

/// A float waiting for placement.
#[derive(Clone, Copy, Debug, PartialEq, Eq, Structural)]
pub struct StagingFloatQueueEntry {
    pub float_flow_id: u32,
    pub caption_flow_id: u32,
    pub figure_node_id: NodeId,
    pub anchor_body_flow_id: u32,
    pub anchor_position: StagingAdvancedFlowPosition,
    pub anchor_page_index: u32,
    pub anchor_column_index: u32,
    pub carry_count: u32,
    pub image_width: i64,
    pub float_extent: i64,
    pub here_evaluated: bool,
    pub top_evaluated_frame: Option<StagingFloatFrameRef>,
}

impl StagingFloatQueueEntry {
    pub fn float_flow_id(&self) -> (v: u32)
        ensures
            v == self.float_flow_id,
    {
        self.float_flow_id
    }

    pub fn caption_flow_id(&self) -> (v: u32)
        ensures
            v == self.caption_flow_id,
    {
        self.caption_flow_id
    }

    pub fn figure_node_id(&self) -> (v: NodeId)
        ensures
            v == self.figure_node_id,
    {
        self.figure_node_id
    }

    pub fn anchor_body_flow_id(&self) -> (v: u32)
        ensures
            v == self.anchor_body_flow_id,
    {
        self.anchor_body_flow_id
    }

    pub fn anchor_position(&self) -> (v: StagingAdvancedFlowPosition)
        ensures
            v == self.anchor_position,
    {
        self.anchor_position
    }

    pub fn carry_count(&self) -> (v: u32)
        ensures
            v == self.carry_count,
    {
        self.carry_count
    }

    pub fn image_width(&self) -> (v: i64)
        ensures
            v == self.image_width,
    {
        self.image_width
    }

    pub fn float_extent(&self) -> (v: i64)
        ensures
            v == self.float_extent,
    {
        self.float_extent
    }
}

/// A column frame on a page.
#[derive(Clone, Copy, Debug, PartialEq, Eq, Structural)]
pub struct StagingFloatFrameRef {
    pub page_index: u32,
    pub column_index: u32,
}

/// The fields two queue manifests must agree on.
pub open spec fn manifest_eq(a: StagingFloatQueueEntry, b: StagingFloatQueueEntry) -> bool {
    &&& a.float_flow_id == b.float_flow_id
    &&& a.figure_node_id == b.figure_node_id
    &&& a.anchor_body_flow_id == b.anchor_body_flow_id
    &&& a.anchor_position == b.anchor_position
    &&& a.carry_count == b.carry_count
}

/// One candidate position evaluated for the queue head.
#[derive(Clone, Copy, Debug, PartialEq, Eq, Structural)]
pub struct StagingFloatCandidateDecision {
    pub float_flow_id: u32,
    pub figure_node_id: NodeId,
    pub class: FloatPlacementClass,
    pub page_index: u32,
    pub column_index: u32,
    pub applicable: bool,
    pub accepted: bool,
}

impl StagingFloatCandidateDecision {
    pub fn float_flow_id(&self) -> (v: u32)
        ensures
            v == self.float_flow_id,
    {
        self.float_flow_id
    }

    pub fn figure_node_id(&self) -> (v: NodeId)
        ensures
            v == self.figure_node_id,
    {
        self.figure_node_id
    }

    pub fn class(&self) -> (v: FloatPlacementClass)
        ensures
            v == self.class,
    {
        self.class
    }

    pub fn page_index(&self) -> (v: u32)
        ensures
            v == self.page_index,
    {
        self.page_index
    }

    pub fn column_index(&self) -> (v: u32)
        ensures
            v == self.column_index,
    {
        self.column_index
    }

    pub fn applicable(&self) -> (v: bool)
        ensures
            v == self.applicable,
    {
        self.applicable
    }

    pub fn accepted(&self) -> (v: bool)
        ensures
            v == self.accepted,
    {
        self.accepted
    }
}

/// A float placed in a column frame.
#[derive(Clone, Copy, Debug, PartialEq, Eq, Structural)]
pub struct StagingFloatPlacement {
    pub float_flow_id: u32,
    pub caption_flow_id: u32,
    pub figure_node_id: NodeId,
    pub class: FloatPlacementClass,
    pub clearance: FloatClearance,
    pub page_index: u32,
    pub column_index: u32,
    pub frame_flow_id: u32,
    pub source_flow_id: u32,
    pub anchor_position: StagingAdvancedFlowPosition,
    pub frame_paint_ordinal: u32,
    pub bounds: Rect,
    pub image_width: i64,
    pub float_terminal: bool,
    pub caption_terminal: bool,
}

impl StagingFloatPlacement {
    pub fn float_flow_id(&self) -> (v: u32)
        ensures
            v == self.float_flow_id,
    {
        self.float_flow_id
    }

    pub fn caption_flow_id(&self) -> (v: u32)
        ensures
            v == self.caption_flow_id,
    {
        self.caption_flow_id
    }

    pub fn figure_node_id(&self) -> (v: NodeId)
        ensures
            v == self.figure_node_id,
    {
        self.figure_node_id
    }

    pub fn class(&self) -> (v: FloatPlacementClass)
        ensures
            v == self.class,
    {
        self.class
    }

    pub fn page_index(&self) -> (v: u32)
        ensures
            v == self.page_index,
    {
        self.page_index
    }

    pub fn column_index(&self) -> (v: u32)
        ensures
            v == self.column_index,
    {
        self.column_index
    }

    pub fn frame_flow_id(&self) -> (v: u32)
        ensures
            v == self.frame_flow_id,
    {
        self.frame_flow_id
    }

    pub fn source_flow_id(&self) -> (v: u32)
        ensures
            v == self.source_flow_id,
    {
        self.source_flow_id
    }

    pub fn anchor_position(&self) -> (v: StagingAdvancedFlowPosition)
        ensures
            v == self.anchor_position,
    {
        self.anchor_position
    }

    pub fn frame_paint_ordinal(&self) -> (v: u32)
        ensures
            v == self.frame_paint_ordinal,
    {
        self.frame_paint_ordinal
    }

    pub fn bounds(&self) -> (v: Rect)
        ensures
            v == self.bounds,
    {
        self.bounds
    }

    pub fn image_width(&self) -> (v: i64)
        ensures
            v == self.image_width,
    {
        self.image_width
    }

    pub fn float_terminal(&self) -> (v: bool)
        ensures
            v == self.float_terminal,
    {
        self.float_terminal
    }

    pub fn caption_terminal(&self) -> (v: bool)
        ensures
            v == self.caption_terminal,
    {
        self.caption_terminal
    }
}

/// A float carried from one page to the next.
#[derive(Clone, Copy, Debug, PartialEq, Eq, Structural)]
pub struct StagingFloatCarry {
    pub float_flow_id: u32,
    pub figure_node_id: NodeId,
    pub source_page_index: u32,
    pub target_page_index: u32,
    pub carry_count: u32,
}

impl StagingFloatCarry {
    pub fn float_flow_id(&self) -> (v: u32)
        ensures
            v == self.float_flow_id,
    {
        self.float_flow_id
    }

    pub fn figure_node_id(&self) -> (v: NodeId)
        ensures
            v == self.figure_node_id,
    {
        self.figure_node_id
    }

    pub fn source_page_index(&self) -> (v: u32)
        ensures
            v == self.source_page_index,
    {
        self.source_page_index
    }

    pub fn target_page_index(&self) -> (v: u32)
        ensures
            v == self.target_page_index,
    {
        self.target_page_index
    }

    pub fn carry_count(&self) -> (v: u32)
        ensures
            v == self.carry_count,
    {
        self.carry_count
    }
}

/// A body block placed in a column frame, with its paint order in the frame.
#[derive(Clone, Copy, Debug, PartialEq, Eq, Structural)]
pub struct StagingFloatBodyFragment {
    pub page_index: u32,
    pub column_index: u32,
    pub frame_flow_id: u32,
    pub source_flow_id: u32,
    pub block_node_id: NodeId,
    pub before_position: u32,
    pub after_position: u32,
    pub frame_paint_ordinal: u32,
    pub bounds: Rect,
}

impl StagingFloatBodyFragment {
    pub fn page_index(&self) -> (v: u32)
        ensures
            v == self.page_index,
    {
        self.page_index
    }

    pub fn column_index(&self) -> (v: u32)
        ensures
            v == self.column_index,
    {
        self.column_index
    }

    pub fn frame_flow_id(&self) -> (v: u32)
        ensures
            v == self.frame_flow_id,
    {
        self.frame_flow_id
    }

    pub fn source_flow_id(&self) -> (v: u32)
        ensures
            v == self.source_flow_id,
    {
        self.source_flow_id
    }

    pub fn block_node_id(&self) -> (v: NodeId)
        ensures
            v == self.block_node_id,
    {
        self.block_node_id
    }

    pub fn before_position(&self) -> (v: u32)
        ensures
            v == self.before_position,
    {
        self.before_position
    }

    pub fn after_position(&self) -> (v: u32)
        ensures
            v == self.after_position,
    {
        self.after_position
    }

    pub fn frame_paint_ordinal(&self) -> (v: u32)
        ensures
            v == self.frame_paint_ordinal,
    {
        self.frame_paint_ordinal
    }

    pub fn bounds(&self) -> (v: Rect)
        ensures
            v == self.bounds,
    {
        self.bounds
    }
}

/// One selected page with floats.
#[derive(Clone, Debug, PartialEq, Eq)]
pub struct StagingFloatSelectedPage {
    pub page_index: u32,
    pub master_id: String,
    pub boxes: StagingSelectedPageBoxes,
    pub margins: StagingPageMargins,
    pub frames: Vec<StagingSelectedAdvancedFrame>,
    pub body_fragments: Vec<StagingFloatBodyFragment>,
    pub queue_before: Vec<StagingFloatQueueEntry>,
    pub placements: Vec<StagingFloatPlacement>,
    pub candidates: Vec<StagingFloatCandidateDecision>,
    pub carries: Vec<StagingFloatCarry>,
    pub queue_after: Vec<StagingFloatQueueEntry>,
}

impl StagingFloatSelectedPage {
    pub fn page_index(&self) -> (v: u32)
        ensures
            v == self.page_index,
    {
        self.page_index
    }

    pub fn master_id(&self) -> (v: &str)
        ensures
            v@ == self.master_id@,
    {
        self.master_id.as_str()
    }

    pub fn boxes(&self) -> (v: StagingSelectedPageBoxes)
        ensures
            v == self.boxes,
    {
        self.boxes
    }

    pub fn margins(&self) -> (v: StagingPageMargins)
        ensures
            v == self.margins,
    {
        self.margins
    }

    pub fn frames(&self) -> (v: &[StagingSelectedAdvancedFrame])
        ensures
            v@ == self.frames@,
    {
        self.frames.as_slice()
    }

    pub fn body_fragments(&self) -> (v: &[StagingFloatBodyFragment])
        ensures
            v@ == self.body_fragments@,
    {
        self.body_fragments.as_slice()
    }

    pub fn queue_before(&self) -> (v: &[StagingFloatQueueEntry])
        ensures
            v@ == self.queue_before@,
    {
        self.queue_before.as_slice()
    }

    pub fn placements(&self) -> (v: &[StagingFloatPlacement])
        ensures
            v@ == self.placements@,
    {
        self.placements.as_slice()
    }

    pub fn candidates(&self) -> (v: &[StagingFloatCandidateDecision])
        ensures
            v@ == self.candidates@,
    {
        self.candidates.as_slice()
    }

    pub fn carries(&self) -> (v: &[StagingFloatCarry])
        ensures
            v@ == self.carries@,
    {
        self.carries.as_slice()
    }

    pub fn queue_after(&self) -> (v: &[StagingFloatQueueEntry])
        ensures
            v@ == self.queue_after@,
    {
        self.queue_after.as_slice()
    }
}

/// Why float pagination was refused.
#[derive(Clone, Copy, Debug, PartialEq, Eq, Structural)]
pub enum StagingFloatPaginationError {
    EmptyColumns,
    PageLimit,
    FragmentLimit,
    QueueLimit(NodeId),
    CarryLimit(NodeId),
    Oversize(NodeId),
    ProgressContradiction,
    SelectedReceiptMismatch,
    Geometry,
    ArithmeticOverflow,
    AllocationFailure,
}

/// The receipt of a float selected layout.
#[derive(Debug)]
pub struct StagingFloatSelectedLayoutReceipt {
    profile_receipt_sha256: [u8; 32],
    flow_registry_sha256: [u8; 32],
    selected_layout_sha256: [u8; 32],
    canonical_jcs: String,
}

impl StagingFloatSelectedLayoutReceipt {
    pub closed spec fn spec_profile_receipt_sha256(&self) -> Seq<u8> {
        self.profile_receipt_sha256@
    }

    pub closed spec fn spec_flow_registry_sha256(&self) -> Seq<u8> {
        self.flow_registry_sha256@
    }

    pub closed spec fn spec_selected_layout_sha256(&self) -> Seq<u8> {
        self.selected_layout_sha256@
    }

    pub closed spec fn spec_canonical_jcs(&self) -> Seq<char> {
        self.canonical_jcs@
    }

    pub fn profile_receipt_sha256(&self) -> (v: [u8; 32])
        ensures
            v@ == self.spec_profile_receipt_sha256(),
    {
        self.profile_receipt_sha256
    }

    pub fn flow_registry_sha256(&self) -> (v: [u8; 32])
        ensures
            v@ == self.spec_flow_registry_sha256(),
    {
        self.flow_registry_sha256
    }

    pub fn selected_layout_sha256(&self) -> (v: [u8; 32])
        ensures
            v@ == self.spec_selected_layout_sha256(),
    {
        self.selected_layout_sha256
    }

    pub fn canonical_jcs(&self) -> (v: &str)
        ensures
            v@ == self.spec_canonical_jcs(),
    {
        self.canonical_jcs.as_str()
    }

    /// The receipt of `pages` under the given upstream fingerprints.
    pub(crate) fn issue(
        profile_receipt_sha256: [u8; 32],
        flow_registry_sha256: [u8; 32],
        pages: &[StagingFloatSelectedPage],
    ) -> (r: Self)
        ensures
            r.spec_profile_receipt_sha256() == profile_receipt_sha256@,
            r.spec_flow_registry_sha256() == flow_registry_sha256@,
            r.spec_canonical_jcs() == encoded_float_layout(profile_receipt_sha256@, flow_registry_sha256@, pages@),
            r.spec_selected_layout_sha256() == text_fingerprint(r.spec_canonical_jcs()),
    {
        let canonical_jcs = encode_float_layout(&profile_receipt_sha256, &flow_registry_sha256, pages);
        let selected_layout_sha256 = fingerprint_text(&canonical_jcs);
        StagingFloatSelectedLayoutReceipt {
            profile_receipt_sha256,
            flow_registry_sha256,
            selected_layout_sha256,
            canonical_jcs,
        }
    }

    /// Whether this receipt is the canonical JSON of `pages` and its
    /// fingerprint.
    pub(crate) fn certifies(&self, pages: &[StagingFloatSelectedPage]) -> (ok: bool)
        ensures
            ok == (self.spec_canonical_jcs() == encoded_float_layout(
                self.spec_profile_receipt_sha256(),
                self.spec_flow_registry_sha256(),
                pages@,
            ) && self.spec_selected_layout_sha256() == text_fingerprint(self.spec_canonical_jcs())),
    {
        let canonical = encode_float_layout(&self.profile_receipt_sha256, &self.flow_registry_sha256, pages);
        let digest = fingerprint_text(&canonical);
        canonical == self.canonical_jcs && fingerprint_eq(&digest, &self.selected_layout_sha256)
    }
}

#[verifier::opaque]
pub open spec fn encoded_float_fragment(x: StagingFloatBodyFragment) -> Seq<char> {
    "{\"after_position\":"@ + decimal(x.after_position as nat) + ",\"before_position\":"@ + decimal(x.before_position as nat)
        + ",\"block_node_id\":"@ + decimal(x.block_node_id.spec_get() as nat) + ",\"bounds\":"@ + encoded_rect(x.bounds)
        + ",\"column_index\":"@ + decimal(x.column_index as nat) + ",\"frame_flow_id\":"@ + decimal(x.frame_flow_id as nat)
        + ",\"frame_paint_ordinal\":"@ + decimal(x.frame_paint_ordinal as nat) + "}"@
}

pub open spec fn float_fragment_encoder() -> spec_fn(StagingFloatBodyFragment) -> Seq<char> {
    |x: StagingFloatBodyFragment| encoded_float_fragment(x)
}

fn push_float_fragment(output: &mut String, x: &StagingFloatBodyFragment)
    ensures
        final(output)@ == old(output)@ + encoded_float_fragment(*x),
{
    output.append("{\"after_position\":");
    push_u64(output, x.after_position as u64);
    output.append(",\"before_position\":");
    push_u64(output, x.before_position as u64);
    output.append(",\"block_node_id\":");
    push_u64(output, x.block_node_id.get() as u64);
    output.append(",\"bounds\":");
    push_rect(output, x.bounds);
    output.append(",\"column_index\":");
    push_u64(output, x.column_index as u64);
    output.append(",\"frame_flow_id\":");
    push_u64(output, x.frame_flow_id as u64);
    output.append(",\"frame_paint_ordinal\":");
    push_u64(output, x.frame_paint_ordinal as u64);
    output.append("}");
    proof {
        reveal(encoded_float_fragment);
    }
    assert(output@ =~= old(output)@ + encoded_float_fragment(*x));
}

fn push_float_fragment_list(output: &mut String, items: &Vec<StagingFloatBodyFragment>)
    ensures
        final(output)@ == old(output)@ + joined(items@, float_fragment_encoder()),
{
    let ghost enc = float_fragment_encoder();
    let mut index: usize = 0;
    assert(items@.take(0) =~= Seq::<StagingFloatBodyFragment>::empty());
    while index < items.len()
        invariant
            0 <= index <= items@.len(),
            enc == float_fragment_encoder(),
            output@ == old(output)@ + joined(items@.take(index as int), enc),
        decreases items.len() - index,
    {
        proof {
            lemma_joined_step(items@, enc, index as int);
        }
        if index > 0 {
            push_char(output, ',');
        }
        push_float_fragment(output, &items[index]);
        assert(enc(items@[index as int]) == encoded_float_fragment(items@[index as int]));
        assert(output@ =~= old(output)@ + joined(items@.take(index as int + 1), enc));
        index = index + 1;
    }
    assert(items@.take(items@.len() as int) =~= items@);
}

#[verifier::opaque]
pub open spec fn encoded_float_candidate(x: StagingFloatCandidateDecision) -> Seq<char> {
    "{\"accepted\":"@ + encoded_bool(x.accepted) + ",\"applicable\":"@ + encoded_bool(x.applicable) + ",\"class\":"@
        + json_string(class_name(x.class)) + ",\"column_index\":"@ + decimal(x.column_index as nat)
        + ",\"figure_node_id\":"@ + decimal(x.figure_node_id.spec_get() as nat) + ",\"float_flow_id\":"@
        + decimal(x.float_flow_id as nat) + ",\"page_index\":"@ + decimal(x.page_index as nat) + "}"@
}

pub open spec fn float_candidate_encoder() -> spec_fn(StagingFloatCandidateDecision) -> Seq<char> {
    |x: StagingFloatCandidateDecision| encoded_float_candidate(x)
}

fn push_float_candidate(output: &mut String, x: &StagingFloatCandidateDecision)
    ensures
        final(output)@ == old(output)@ + encoded_float_candidate(*x),
{
    output.append("{\"accepted\":");
    push_bool(output, x.accepted);
    output.append(",\"applicable\":");
    push_bool(output, x.applicable);
    output.append(",\"class\":");
    push_json_str(output, x.class.as_str());
    output.append(",\"column_index\":");
    push_u64(output, x.column_index as u64);
    output.append(",\"figure_node_id\":");
    push_u64(output, x.figure_node_id.get() as u64);
    output.append(",\"float_flow_id\":");
    push_u64(output, x.float_flow_id as u64);
    output.append(",\"page_index\":");
    push_u64(output, x.page_index as u64);
    output.append("}");
    proof {
        reveal(encoded_float_candidate);
    }
    assert(output@ =~= old(output)@ + encoded_float_candidate(*x));
}

fn push_float_candidate_list(output: &mut String, items: &Vec<StagingFloatCandidateDecision>)
    ensures
        final(output)@ == old(output)@ + joined(items@, float_candidate_encoder()),
{
    let ghost enc = float_candidate_encoder();
    let mut index: usize = 0;
    assert(items@.take(0) =~= Seq::<StagingFloatCandidateDecision>::empty());
    while index < items.len()
        invariant
            0 <= index <= items@.len(),
            enc == float_candidate_encoder(),
            output@ == old(output)@ + joined(items@.take(index as int), enc),
        decreases items.len() - index,
    {
        proof {
            lemma_joined_step(items@, enc, index as int);
        }
        if index > 0 {
            push_char(output, ',');
        }
        push_float_candidate(output, &items[index]);
        assert(enc(items@[index as int]) == encoded_float_candidate(items@[index as int]));
        assert(output@ =~= old(output)@ + joined(items@.take(index as int + 1), enc));
        index = index + 1;
    }
    assert(items@.take(items@.len() as int) =~= items@);
}

#[verifier::opaque]
pub open spec fn encoded_float_carry(x: StagingFloatCarry) -> Seq<char> {
    "{\"carry_count\":"@ + decimal(x.carry_count as nat) + ",\"figure_node_id\":"@ + decimal(x.figure_node_id.spec_get() as nat)
        + ",\"float_flow_id\":"@ + decimal(x.float_flow_id as nat) + ",\"source_page_index\":"@ + decimal(x.source_page_index as nat)
        + ",\"target_page_index\":"@ + decimal(x.target_page_index as nat) + "}"@
}

pub open spec fn float_carry_encoder() -> spec_fn(StagingFloatCarry) -> Seq<char> {
    |x: StagingFloatCarry| encoded_float_carry(x)
}

fn push_float_carry(output: &mut String, x: &StagingFloatCarry)
    ensures
        final(output)@ == old(output)@ + encoded_float_carry(*x),
{
    output.append("{\"carry_count\":");
    push_u64(output, x.carry_count as u64);
    output.append(",\"figure_node_id\":");
    push_u64(output, x.figure_node_id.get() as u64);
    output.append(",\"float_flow_id\":");
    push_u64(output, x.float_flow_id as u64);
    output.append(",\"source_page_index\":");
    push_u64(output, x.source_page_index as u64);
    output.append(",\"target_page_index\":");
    push_u64(output, x.target_page_index as u64);
    output.append("}");
    proof {
        reveal(encoded_float_carry);
    }
    assert(output@ =~= old(output)@ + encoded_float_carry(*x));
}

fn push_float_carry_list(output: &mut String, items: &Vec<StagingFloatCarry>)
    ensures
        final(output)@ == old(output)@ + joined(items@, float_carry_encoder()),
{
    let ghost enc = float_carry_encoder();
    let mut index: usize = 0;
    assert(items@.take(0) =~= Seq::<StagingFloatCarry>::empty());
    while index < items.len()
        invariant
            0 <= index <= items@.len(),
            enc == float_carry_encoder(),
            output@ == old(output)@ + joined(items@.take(index as int), enc),
        decreases items.len() - index,
    {
        proof {
            lemma_joined_step(items@, enc, index as int);
        }
        if index > 0 {
            push_char(output, ',');
        }
        push_float_carry(output, &items[index]);
        assert(enc(items@[index as int]) == encoded_float_carry(items@[index as int]));
        assert(output@ =~= old(output)@ + joined(items@.take(index as int + 1), enc));
        index = index + 1;
    }
    assert(items@.take(items@.len() as int) =~= items@);
}

#[verifier::opaque]
pub open spec fn encoded_float_frame(x: StagingSelectedAdvancedFrame) -> Seq<char> {
    "{\"after_position\":"@ + encoded_position(x.after_position) + ",\"before_position\":"@ + encoded_position(x.before_position)
        + ",\"column_index\":"@ + encoded_optional(x.column_index) + ",\"frame_flow_id\":"@ + decimal(x.frame_flow_id as nat)
        + ",\"kind\":\"body\",\"rect\":"@ + encoded_rect(x.rect) + ",\"source_flow_id\":"@ + decimal(x.source_flow_id as nat)
        + ",\"terminal\":"@ + encoded_bool(x.terminal) + "}"@
}

pub open spec fn float_frame_encoder() -> spec_fn(StagingSelectedAdvancedFrame) -> Seq<char> {
    |x: StagingSelectedAdvancedFrame| encoded_float_frame(x)
}

fn push_float_frame(output: &mut String, x: &StagingSelectedAdvancedFrame)
    ensures
        final(output)@ == old(output)@ + encoded_float_frame(*x),
{
    output.append("{\"after_position\":");
    push_position(output, x.after_position);
    output.append(",\"before_position\":");
    push_position(output, x.before_position);
    output.append(",\"column_index\":");
    push_optional(output, x.column_index);
    output.append(",\"frame_flow_id\":");
    push_u64(output, x.frame_flow_id as u64);
    output.append(",\"kind\":\"body\",\"rect\":");
    push_rect(output, x.rect);
    output.append(",\"source_flow_id\":");
    push_u64(output, x.source_flow_id as u64);
    output.append(",\"terminal\":");
    push_bool(output, x.terminal);
    output.append("}");
    proof {
        reveal(encoded_float_frame);
    }
    assert(output@ =~= old(output)@ + encoded_float_frame(*x));
}

fn push_float_frame_list(output: &mut String, items: &Vec<StagingSelectedAdvancedFrame>)
    ensures
        final(output)@ == old(output)@ + joined(items@, float_frame_encoder()),
{
    let ghost enc = float_frame_encoder();
    let mut index: usize = 0;
    assert(items@.take(0) =~= Seq::<StagingSelectedAdvancedFrame>::empty());
    while index < items.len()
        invariant
            0 <= index <= items@.len(),
            enc == float_frame_encoder(),
            output@ == old(output)@ + joined(items@.take(index as int), enc),
        decreases items.len() - index,
    {
        proof {
            lemma_joined_step(items@, enc, index as int);
        }
        if index > 0 {
            push_char(output, ',');
        }
        push_float_frame(output, &items[index]);
        assert(enc(items@[index as int]) == encoded_float_frame(items@[index as int]));
        assert(output@ =~= old(output)@ + joined(items@.take(index as int + 1), enc));
        index = index + 1;
    }
    assert(items@.take(items@.len() as int) =~= items@);
}

#[verifier::opaque]
pub open spec fn float_placement_head(x: StagingFloatPlacement) -> Seq<char> {
    "{\"anchor_position\":"@ + encoded_position(x.anchor_position) + ",\"bounds\":"@ + encoded_rect(x.bounds)
        + ",\"caption_flow_id\":"@ + decimal(x.caption_flow_id as nat) + ",\"caption_terminal\":"@ + encoded_bool(x.caption_terminal)
        + ",\"class\":"@ + json_string(class_name(x.class)) + ",\"clearance\":0,\"column_index\":"@ + decimal(x.column_index as nat)
}

#[verifier::opaque]
pub open spec fn float_placement_tail(x: StagingFloatPlacement) -> Seq<char> {
    ",\"figure_node_id\":"@ + decimal(x.figure_node_id.spec_get() as nat) + ",\"float_flow_id\":"@ + decimal(x.float_flow_id as nat)
        + ",\"float_terminal\":"@ + encoded_bool(x.float_terminal) + ",\"frame_flow_id\":"@ + decimal(x.frame_flow_id as nat)
        + ",\"frame_paint_ordinal\":"@ + decimal(x.frame_paint_ordinal as nat) + ",\"image_width\":"@ + signed_decimal(x.image_width as int)
        + ",\"page_index\":"@ + decimal(x.page_index as nat) + "}"@
}

/// Canonical JSON of one float placement.
pub open spec fn encoded_float_placement(x: StagingFloatPlacement) -> Seq<char> {
    float_placement_head(x) + float_placement_tail(x)
}

pub open spec fn float_placement_encoder() -> spec_fn(StagingFloatPlacement) -> Seq<char> {
    |x: StagingFloatPlacement| encoded_float_placement(x)
}

fn push_float_placement_head(output: &mut String, x: &StagingFloatPlacement)
    ensures
        final(output)@ == old(output)@ + float_placement_head(*x),
{
    output.append("{\"anchor_position\":");
    push_position(output, x.anchor_position);
    output.append(",\"bounds\":");
    push_rect(output, x.bounds);
    output.append(",\"caption_flow_id\":");
    push_u64(output, x.caption_flow_id as u64);
    output.append(",\"caption_terminal\":");
    push_bool(output, x.caption_terminal);
    output.append(",\"class\":");
    push_json_str(output, x.class.as_str());
    output.append(",\"clearance\":0,\"column_index\":");
    push_u64(output, x.column_index as u64);
    proof {
        reveal(float_placement_head);
    }
    assert(output@ =~= old(output)@ + float_placement_head(*x));
}

fn push_float_placement_tail(output: &mut String, x: &StagingFloatPlacement)
    ensures
        final(output)@ == old(output)@ + float_placement_tail(*x),
{
    output.append(",\"figure_node_id\":");
    push_u64(output, x.figure_node_id.get() as u64);
    output.append(",\"float_flow_id\":");
    push_u64(output, x.float_flow_id as u64);
    output.append(",\"float_terminal\":");
    push_bool(output, x.float_terminal);
    output.append(",\"frame_flow_id\":");
    push_u64(output, x.frame_flow_id as u64);
    output.append(",\"frame_paint_ordinal\":");
    push_u64(output, x.frame_paint_ordinal as u64);
    output.append(",\"image_width\":");
    push_i64(output, x.image_width);
    output.append(",\"page_index\":");
    push_u64(output, x.page_index as u64);
    output.append("}");
    proof {
        reveal(float_placement_tail);
    }
    assert(output@ =~= old(output)@ + float_placement_tail(*x));
}

fn push_float_placement(output: &mut String, x: &StagingFloatPlacement)
    ensures
        final(output)@ == old(output)@ + encoded_float_placement(*x),
{
    push_float_placement_head(output, x);
    push_float_placement_tail(output, x);
    assert(output@ =~= old(output)@ + encoded_float_placement(*x));
}

fn push_float_placement_list(output: &mut String, items: &Vec<StagingFloatPlacement>)
    ensures
        final(output)@ == old(output)@ + joined(items@, float_placement_encoder()),
{
    let ghost enc = float_placement_encoder();
    let mut index: usize = 0;
    assert(items@.take(0) =~= Seq::<StagingFloatPlacement>::empty());
    while index < items.len()
        invariant
            0 <= index <= items@.len(),
            enc == float_placement_encoder(),
            output@ == old(output)@ + joined(items@.take(index as int), enc),
        decreases items.len() - index,
    {
        proof {
            lemma_joined_step(items@, enc, index as int);
        }
        if index > 0 {
            push_char(output, ',');
        }
        push_float_placement(output, &items[index]);
        assert(enc(items@[index as int]) == encoded_float_placement(items@[index as int]));
        assert(output@ =~= old(output)@ + joined(items@.take(index as int + 1), enc));
        index = index + 1;
    }
    assert(items@.take(items@.len() as int) =~= items@);
}

#[verifier::opaque]
pub open spec fn encoded_queue_entry(x: StagingFloatQueueEntry) -> Seq<char> {
    "{\"anchor_body_flow_id\":"@ + decimal(x.anchor_body_flow_id as nat) + ",\"anchor_position\":"@ + encoded_position(x.anchor_position)
        + ",\"caption_flow_id\":"@ + decimal(x.caption_flow_id as nat) + ",\"carry_count\":"@ + decimal(x.carry_count as nat)
        + ",\"figure_node_id\":"@ + decimal(x.figure_node_id.spec_get() as nat) + ",\"float_extent\":"@ + signed_decimal(x.float_extent as int)
        + ",\"float_flow_id\":"@ + decimal(x.float_flow_id as nat) + ",\"image_width\":"@ + signed_decimal(x.image_width as int) + "}"@
}

pub open spec fn queue_entry_encoder() -> spec_fn(StagingFloatQueueEntry) -> Seq<char> {
    |x: StagingFloatQueueEntry| encoded_queue_entry(x)
}

#[verifier::rlimit(60)]
fn push_queue_entry(output: &mut String, x: &StagingFloatQueueEntry)
    ensures
        final(output)@ == old(output)@ + encoded_queue_entry(*x),
{
    output.append("{\"anchor_body_flow_id\":");
    push_u64(output, x.anchor_body_flow_id as u64);
    output.append(",\"anchor_position\":");
    push_position(output, x.anchor_position);
    output.append(",\"caption_flow_id\":");
    push_u64(output, x.caption_flow_id as u64);
    output.append(",\"carry_count\":");
    push_u64(output, x.carry_count as u64);
    output.append(",\"figure_node_id\":");
    push_u64(output, x.figure_node_id.get() as u64);
    output.append(",\"float_extent\":");
    push_i64(output, x.float_extent);
    output.append(",\"float_flow_id\":");
    push_u64(output, x.float_flow_id as u64);
    output.append(",\"image_width\":");
    push_i64(output, x.image_width);
    output.append("}");
    proof {
        reveal(encoded_queue_entry);
    }
    assert(output@ =~= old(output)@ + encoded_queue_entry(*x));
}

fn push_queue_entry_list(output: &mut String, items: &Vec<StagingFloatQueueEntry>)
    ensures
        final(output)@ == old(output)@ + joined(items@, queue_entry_encoder()),
{
    let ghost enc = queue_entry_encoder();
    let mut index: usize = 0;
    assert(items@.take(0) =~= Seq::<StagingFloatQueueEntry>::empty());
    while index < items.len()
        invariant
            0 <= index <= items@.len(),
            enc == queue_entry_encoder(),
            output@ == old(output)@ + joined(items@.take(index as int), enc),
        decreases items.len() - index,
    {
        proof {
            lemma_joined_step(items@, enc, index as int);
        }
        if index > 0 {
            push_char(output, ',');
        }
        push_queue_entry(output, &items[index]);
        assert(enc(items@[index as int]) == encoded_queue_entry(items@[index as int]));
        assert(output@ =~= old(output)@ + joined(items@.take(index as int + 1), enc));
        index = index + 1;
    }
    assert(items@.take(items@.len() as int) =~= items@);
}

#[verifier::opaque]
pub open spec fn float_page_head(p: StagingFloatSelectedPage) -> Seq<char> {
    "{\"body_fragments\":["@ + joined(p.body_fragments@, float_fragment_encoder()) + "],\"boxes\":"@
        + encoded_boxes(p.boxes) + ",\"candidates\":["@ + joined(p.candidates@, float_candidate_encoder())
        + "],\"carries\":["@ + joined(p.carries@, float_carry_encoder()) + "],\"frames\":["@ + joined(
        p.frames@,
        float_frame_encoder(),
    ) + "],\"margins\":"@
}

#[verifier::opaque]
pub open spec fn float_page_tail(p: StagingFloatSelectedPage) -> Seq<char> {
    encoded_margins(p.margins) + ",\"master_id\":"@ + json_string(p.master_id@)
        + ",\"page_index\":"@ + decimal(p.page_index as nat) + ",\"placements\":["@ + joined(
        p.placements@,
        float_placement_encoder(),
    ) + "],\"queue_after\":["@ + joined(p.queue_after@, queue_entry_encoder()) + "],\"queue_before\":["@
        + joined(p.queue_before@, queue_entry_encoder()) + "]}"@
}

/// Canonical JSON of one float page.
pub open spec fn encoded_float_page(p: StagingFloatSelectedPage) -> Seq<char> {
    float_page_head(p) + float_page_tail(p)
}

pub open spec fn float_page_encoder() -> spec_fn(StagingFloatSelectedPage) -> Seq<char> {
    |p: StagingFloatSelectedPage| encoded_float_page(p)
}

/// Canonical JSON of a float selected layout.
pub open spec fn encoded_float_layout(
    profile_receipt_sha256: Seq<u8>,
    flow_registry_sha256: Seq<u8>,
    pages: Seq<StagingFloatSelectedPage>,
) -> Seq<char> {
    "{\"algorithm\":"@ + json_string(ADVANCED_SELECTED_LAYOUT_ALGORITHM@) + ",\"float_queue_algorithm\":"@
        + json_string(FLOAT_QUEUE_ALGORITHM@) + ",\"flow_registry_sha256\":"@ + quoted_hex(flow_registry_sha256)
        + ",\"pages\":["@ + joined(pages, float_page_encoder()) + "],\"profile_receipt_sha256\":"@ + quoted_hex(
        profile_receipt_sha256,
    ) + "}"@
}

fn push_float_page_head(output: &mut String, page: &StagingFloatSelectedPage)
    ensures
        final(output)@ == old(output)@ + float_page_head(*page),
{
    output.append("{\"body_fragments\":[");
    push_float_fragment_list(output, &page.body_fragments);
    output.append("],\"boxes\":");
    push_boxes(output, page.boxes);
    output.append(",\"candidates\":[");
    push_float_candidate_list(output, &page.candidates);
    output.append("],\"carries\":[");
    push_float_carry_list(output, &page.carries);
    output.append("],\"frames\":[");
    push_float_frame_list(output, &page.frames);
    output.append("],\"margins\":");
    proof {
        reveal(float_page_head);
    }
    assert(output@ =~= old(output)@ + float_page_head(*page));
}

fn push_float_page_tail(output: &mut String, page: &StagingFloatSelectedPage)
    ensures
        final(output)@ == old(output)@ + float_page_tail(*page),
{
    push_margins(output, page.margins);
    output.append(",\"master_id\":");
    push_json_str(output, page.master_id.as_str());
    output.append(",\"page_index\":");
    push_u64(output, page.page_index as u64);
    output.append(",\"placements\":[");
    push_float_placement_list(output, &page.placements);
    output.append("],\"queue_after\":[");
    push_queue_entry_list(output, &page.queue_after);
    output.append("],\"queue_before\":[");
    push_queue_entry_list(output, &page.queue_before);
    output.append("]}");
    proof {
        reveal(float_page_tail);
    }
    assert(output@ =~= old(output)@ + float_page_tail(*page));
}

fn encode_float_page(output: &mut String, page: &StagingFloatSelectedPage)
    ensures
        final(output)@ == old(output)@ + encoded_float_page(*page),
{
    push_float_page_head(output, page);
    push_float_page_tail(output, page);
    assert(output@ =~= old(output)@ + encoded_float_page(*page));
}

fn encode_float_layout(
    profile_receipt_sha256: &[u8; 32],
    flow_registry_sha256: &[u8; 32],
    pages: &[StagingFloatSelectedPage],
) -> (text: String)
    ensures
        text@ == encoded_float_layout(profile_receipt_sha256@, flow_registry_sha256@, pages@),
{
    let ghost enc = float_page_encoder();
    let mut output = String::new();
    output.append("{\"algorithm\":");
    push_json_str(&mut output, ADVANCED_SELECTED_LAYOUT_ALGORITHM);
    output.append(",\"float_queue_algorithm\":");
    push_json_str(&mut output, FLOAT_QUEUE_ALGORITHM);
    output.append(",\"flow_registry_sha256\":");
    push_hash(&mut output, flow_registry_sha256);
    output.append(",\"pages\":[");
    let ghost head = output@;
    let mut index: usize = 0;
    assert(pages@.take(0) =~= Seq::<StagingFloatSelectedPage>::empty());
    while index < pages.len()
        invariant
            0 <= index <= pages@.len(),
            enc == float_page_encoder(),
            output@ == head + joined(pages@.take(index as int), enc),
        decreases pages.len() - index,
    {
        proof {
            lemma_joined_step(pages@, enc, index as int);
        }
        if index > 0 {
            push_char(&mut output, ',');
        }
        encode_float_page(&mut output, &pages[index]);
        assert(enc(pages@[index as int]) == encoded_float_page(pages@[index as int]));
        assert(output@ =~= head + joined(pages@.take(index as int + 1), enc));
        index = index + 1;
    }
    assert(pages@.take(pages@.len() as int) =~= pages@);
    output.append("],\"profile_receipt_sha256\":");
    push_hash(&mut output, profile_receipt_sha256);
    output.append("}");
    assert(output@ =~= encoded_float_layout(profile_receipt_sha256@, flow_registry_sha256@, pages@));
    output
}

} // verus!
