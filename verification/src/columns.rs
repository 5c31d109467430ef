//! Multi-column pagination: sequential fill of the column frames of each
//! page with indivisible keep-with-next groups, last-page balancing by
//! candidate target heights, and the selected layout receipt.
use vstd::prelude::*;
use crate::body_errors::NodeId;
use crate::digest::fingerprint_eq;
use crate::math_receipt::{fingerprint_text, text_fingerprint};
use crate::page_geometry::{
    DOCUMENT_BODY_FLOW, PaginationLimits, Rect, StagingAdvancedFlowPosition, StagingAdvancedPageFrameKind,
    StagingPageMargins, StagingPdfPageBox, StagingSelectedAdvancedFrame, StagingSelectedPageBoxes,
    encoded_bool, encoded_boxes, encoded_margins, encoded_optional, encoded_position, encoded_rect,
    push_bool, push_boxes, push_margins, push_optional, push_position, push_rect, rect_contains, rect_within,
};
use crate::text::{
    decimal, joined, json_string, lemma_joined_step, push_char, push_hash, push_i64, push_json_str,
    push_u64, quoted_hex, signed_decimal,
};
use crate::header_footer::ADVANCED_SELECTED_LAYOUT_ALGORITHM;

verus! {

pub const COLUMN_BALANCE_ALGORITHM: &'static str = "typaxis.column-balance-candidates/1";

/// One column frame template: its index, rectangle and frame flow.
#[derive(Clone, Copy, Debug, PartialEq, Eq, Structural)]
pub struct StagingColumnLayout {
    pub column_index: u32,
    pub rect: Rect,
    pub frame_flow_id: u32,
}

/// One laid-out body block: its node, flow positions, extent and break
/// properties.
#[derive(Clone, Copy, Debug, PartialEq, Eq, Structural)]
pub struct StagingColumnBlockLayout {
    pub node_id: NodeId,
    pub before_position: u32,
    pub after_position: u32,
    pub block_extent: i64,
    pub forced_page_break: bool,
    pub keep_with_next: bool,
}

/// The columns layout pagination reads: column templates, body blocks, the
/// page master's geometry, whether the last page is balanced, and the
/// fingerprints of the receipts it was derived from.
#[derive(Clone, Debug, PartialEq, Eq)]
pub struct StagingColumnsLayout {
    pub columns: Vec<StagingColumnLayout>,
    pub blocks: Vec<StagingColumnBlockLayout>,
    pub master_id: String,
    pub page_width: i64,
    pub page_height: i64,
    pub body: Rect,
    pub trim: Rect,
    pub balance_last_page: bool,
    pub profile_receipt_sha256: [u8; 32],
    pub flow_registry_sha256: [u8; 32],
    pub package_sha256: [u8; 32],
}

/// Why columns pagination was refused.
#[derive(Clone, Copy, Debug, PartialEq, Eq, Structural)]
pub enum StagingColumnsPaginationError {
    EmptyColumns,
    PageLimit,
    FragmentLimit,
    Oversize(NodeId),
    BalanceLimit,
    BalanceOscillation,
    ProgressContradiction,
    SelectedReceiptMismatch,
    Geometry,
    ArithmeticOverflow,
    AllocationFailure,
}

/// A column that could not take the next group: where, which node, and by
/// how much the group overshot the target height.
#[derive(Clone, Copy, Debug, PartialEq, Eq, Structural)]
pub struct StagingColumnRejectionReceipt {
    pub column_index: u32,
    pub position: StagingAdvancedFlowPosition,
    pub blocked_node_id: NodeId,
    pub deficit: i64,
}

impl StagingColumnRejectionReceipt {
    pub fn column_index(&self) -> (v: u32)
        ensures
            v == self.column_index,
    {
        self.column_index
    }

    pub fn position(&self) -> (v: StagingAdvancedFlowPosition)
        ensures
            v == self.position,
    {
        self.position
    }

    pub fn blocked_node_id(&self) -> (v: NodeId)
        ensures
            v == self.blocked_node_id,
    {
        self.blocked_node_id
    }

    pub fn deficit(&self) -> (v: i64)
        ensures
            v == self.deficit,
    {
        self.deficit
    }
}

/// A body block placed in a column frame.
#[derive(Clone, Copy, Debug, PartialEq, Eq, Structural)]
pub struct StagingColumnFragment {
    pub page_index: u32,
    pub column_index: u32,
    pub frame_flow_id: u32,
    pub source_flow_id: u32,
    pub block_node_id: NodeId,
    pub before_position: u32,
    pub after_position: u32,
    pub bounds: Rect,
}

impl StagingColumnFragment {
    pub fn page_index(&self) -> (v: u32)
        ensures
            v == self.page_index,
    {
        self.page_index
    }

    pub fn column_index(&self) -> (v: u32)
        ensures
            v == self.column_index,
    {
        self.column_index
    }

    pub fn frame_flow_id(&self) -> (v: u32)
        ensures
            v == self.frame_flow_id,
    {
        self.frame_flow_id
    }

    pub fn source_flow_id(&self) -> (v: u32)
        ensures
            v == self.source_flow_id,
    {
        self.source_flow_id
    }

    pub fn block_node_id(&self) -> (v: NodeId)
        ensures
            v == self.block_node_id,
    {
        self.block_node_id
    }

    pub fn before_position(&self) -> (v: u32)
        ensures
            v == self.before_position,
    {
        self.before_position
    }

    pub fn after_position(&self) -> (v: u32)
        ensures
            v == self.after_position,
    {
        self.after_position
    }

    pub fn bounds(&self) -> (v: Rect)
        ensures
            v == self.bounds,
    {
        self.bounds
    }
}


/// The end of the group of blocks starting at `end` with `extent` so far:
/// blocks are taken until a forced break, the end, or a block that does not
/// keep with the next one; a missing block contradicts progress.
pub open spec fn group_scan(blocks: Seq<StagingColumnBlockLayout>, end: int, extent: int) -> Result<
    (int, int),
    StagingColumnsPaginationError,
>
    decreases blocks.len() - end,
{
    if end < 0 || end >= blocks.len() {
        Err(StagingColumnsPaginationError::ProgressContradiction)
    } else if blocks[end].forced_page_break {
        Ok((end, extent))
    } else if !(i64::MIN <= extent + blocks[end].block_extent <= i64::MAX) {
        Err(StagingColumnsPaginationError::ArithmeticOverflow)
    } else if !blocks[end].keep_with_next || end + 1 >= blocks.len() || blocks[end + 1].forced_page_break {
        Ok((end + 1, extent + blocks[end].block_extent))
    } else {
        group_scan(blocks, end + 1, extent + blocks[end].block_extent)
    }
}

/// The indivisible group starting at `start`: its end and total extent; an
/// empty group contradicts progress.
pub open spec fn group_spec(blocks: Seq<StagingColumnBlockLayout>, start: int) -> Result<
    (int, int),
    StagingColumnsPaginationError,
> {
    match group_scan(blocks, start, 0) {
        Err(e) => Err(e),
        Ok((end, extent)) => if end == start {
            Err(StagingColumnsPaginationError::ProgressContradiction)
        } else {
            Ok((end, extent))
        },
    }
}

proof fn lemma_group_scan_bounds(blocks: Seq<StagingColumnBlockLayout>, end: int, extent: int)
    ensures
        group_scan(blocks, end, extent) matches Ok((e, _)) ==> end <= e <= blocks.len(),
    decreases blocks.len() - end,
{
    if 0 <= end < blocks.len() && !blocks[end].forced_page_break && i64::MIN <= extent
        + blocks[end].block_extent <= i64::MAX && !(!blocks[end].keep_with_next || end + 1 >= blocks.len()
        || blocks[end + 1].forced_page_break) {
        lemma_group_scan_bounds(blocks, end + 1, extent + blocks[end].block_extent);
    }
}

fn group_extent(blocks: &[StagingColumnBlockLayout], start: usize) -> (r: Result<
    (usize, i64),
    StagingColumnsPaginationError,
>)
    ensures
        match group_spec(blocks@, start as int) {
            Ok((end, extent)) => r == Ok::<(usize, i64), StagingColumnsPaginationError>(
                (end as usize, extent as i64),
            ) && start < end <= blocks@.len(),
            Err(e) => r == Err::<(usize, i64), StagingColumnsPaginationError>(e),
        },
{
    proof {
        lemma_group_scan_bounds(blocks@, start as int, 0);
    }
    let mut end = start;
    let mut extent: i64 = 0;
    loop
        invariant
            start <= end,
            group_scan(blocks@, start as int, 0) == group_scan(blocks@, end as int, extent as int),
            end > start ==> end <= blocks@.len(),
        decreases blocks.len() - end,
    {
        if end >= blocks.len() {
            return Err(StagingColumnsPaginationError::ProgressContradiction);
        }
        let block = blocks[end];
        if block.forced_page_break {
            if end == start {
                return Err(StagingColumnsPaginationError::ProgressContradiction);
            }
            return Ok((end, extent));
        }
        let total = match extent.checked_add(block.block_extent) {
            Some(v) => v,
            None => return Err(StagingColumnsPaginationError::ArithmeticOverflow),
        };
        let next = end + 1;
        if !block.keep_with_next || next >= blocks.len() || blocks[next].forced_page_break {
            return Ok((next, total));
        }
        end = next;
        extent = total;
    }
}

/// Charge selected records against the inclusive fragment limit.
fn charge_fragments(count: &mut u64, amount: u64, limits: &PaginationLimits) -> (r: Result<
    (),
    StagingColumnsPaginationError,
>)
    ensures
        r is Ok <==> old(count) + amount <= limits.max_fragments,
        r is Ok ==> *final(count) == old(count) + amount,
        r is Err ==> *final(count) == *old(count) && r == Err::<(), StagingColumnsPaginationError>(
            StagingColumnsPaginationError::FragmentLimit,
        ),
{
    let next = match count.checked_add(amount) {
        Some(v) => v,
        None => return Err(StagingColumnsPaginationError::FragmentLimit),
    };
    if next > limits.max_fragments {
        return Err(StagingColumnsPaginationError::FragmentLimit);
    }
    *count = next;
    Ok(())
}

/// The page boxes of a columns page: the trim must be the whole page, and
/// media, crop and trim are all the page.
pub open spec fn columns_boxes(layout: StagingColumnsLayout) -> Result<StagingSelectedPageBoxes, StagingColumnsPaginationError> {
    if layout.trim.x != 0 || layout.trim.y != 0 || layout.trim.width != layout.page_width || layout.trim.height
        != layout.page_height {
        Err(StagingColumnsPaginationError::Geometry)
    } else {
        let media = StagingPdfPageBox { x_min: 0, y_min: 0, x_max: layout.page_width, y_max: layout.page_height };
        Ok(StagingSelectedPageBoxes { media_box: media, crop_box: media, trim_box: media })
    }
}

fn derive_boxes(layout: &StagingColumnsLayout) -> (r: Result<StagingSelectedPageBoxes, StagingColumnsPaginationError>)
    ensures
        r == columns_boxes(*layout),
{
    if layout.trim.x != 0 || layout.trim.y != 0 || layout.trim.width != layout.page_width || layout.trim.height
        != layout.page_height {
        return Err(StagingColumnsPaginationError::Geometry);
    }
    let media = StagingPdfPageBox { x_min: 0, y_min: 0, x_max: layout.page_width, y_max: layout.page_height };
    Ok(StagingSelectedPageBoxes { media_box: media, crop_box: media, trim_box: media })
}

/// The margins from page edge to body, each representable and non-negative.
pub open spec fn columns_margins(layout: StagingColumnsLayout) -> Result<StagingPageMargins, StagingColumnsPaginationError> {
    let right = layout.page_width - layout.body.x - layout.body.width;
    let bottom = layout.page_height - layout.body.y - layout.body.height;
    if !(i64::MIN <= layout.page_width - layout.body.x <= i64::MAX) || !(i64::MIN <= right <= i64::MAX)
        || !(i64::MIN <= layout.page_height - layout.body.y <= i64::MAX) || !(i64::MIN <= bottom <= i64::MAX) {
        Err(StagingColumnsPaginationError::Geometry)
    } else if layout.body.y < 0 || right < 0 || bottom < 0 || layout.body.x < 0 {
        Err(StagingColumnsPaginationError::Geometry)
    } else {
        Ok(
            StagingPageMargins {
                top: layout.body.y,
                right: right as i64,
                bottom: bottom as i64,
                left: layout.body.x,
            },
        )
    }
}

fn derive_margins(layout: &StagingColumnsLayout) -> (r: Result<StagingPageMargins, StagingColumnsPaginationError>)
    ensures
        r == columns_margins(*layout),
{
    let inner = match layout.page_width.checked_sub(layout.body.x) {
        Some(v) => v,
        None => return Err(StagingColumnsPaginationError::Geometry),
    };
    let right = match inner.checked_sub(layout.body.width) {
        Some(v) => v,
        None => return Err(StagingColumnsPaginationError::Geometry),
    };
    let below = match layout.page_height.checked_sub(layout.body.y) {
        Some(v) => v,
        None => return Err(StagingColumnsPaginationError::Geometry),
    };
    let bottom = match below.checked_sub(layout.body.height) {
        Some(v) => v,
        None => return Err(StagingColumnsPaginationError::Geometry),
    };
    if layout.body.y < 0 || right < 0 || bottom < 0 || layout.body.x < 0 {
        return Err(StagingColumnsPaginationError::Geometry);
    }
    Ok(StagingPageMargins { top: layout.body.y, right, bottom, left: layout.body.x })
}


/// One balance target tried: the resulting flow position, whether it
/// reached the end, and the columns that rejected a group.
#[derive(Clone, Debug, PartialEq, Eq)]
pub struct StagingColumnBalanceCandidate {
    pub candidate_index: u32,
    pub target_height: i64,
    pub after_position: StagingAdvancedFlowPosition,
    pub terminal: bool,
    pub rejections: Vec<StagingColumnRejectionReceipt>,
}

#[verifier::opaque]
pub open spec fn encoded_rejection(r: StagingColumnRejectionReceipt) -> Seq<char> {
    "{\"blocked_node_id\":"@ + decimal(r.blocked_node_id.spec_get() as nat) + ",\"column_index\":"@
        + decimal(r.column_index as nat) + ",\"deficit\":"@ + signed_decimal(r.deficit as int)
        + ",\"position\":"@ + encoded_position(r.position) + "}"@
}

pub open spec fn rejection_encoder() -> spec_fn(StagingColumnRejectionReceipt) -> Seq<char> {
    |r: StagingColumnRejectionReceipt| encoded_rejection(r)
}

#[verifier::opaque]
pub open spec fn encoded_candidate(c: StagingColumnBalanceCandidate) -> Seq<char> {
    "{\"after_position\":"@ + encoded_position(c.after_position) + ",\"candidate_index\":"@ + decimal(
        c.candidate_index as nat,
    ) + ",\"rejections\":["@ + joined(c.rejections@, rejection_encoder()) + "],\"target_height\":"@
        + signed_decimal(c.target_height as int) + ",\"terminal\":"@ + encoded_bool(c.terminal) + "}"@
}

pub open spec fn candidate_encoder() -> spec_fn(StagingColumnBalanceCandidate) -> Seq<char> {
    |c: StagingColumnBalanceCandidate| encoded_candidate(c)
}

pub open spec fn encoded_candidates(cs: Seq<StagingColumnBalanceCandidate>) -> Seq<char> {
    seq!['['] + joined(cs, candidate_encoder()) + seq![']']
}

/// Canonical JSON of a balance receipt.
pub open spec fn encoded_balance_receipt(
    input_sha256: Seq<u8>,
    selected_target_height: i64,
    cs: Seq<StagingColumnBalanceCandidate>,
) -> Seq<char> {
    "{\"algorithm\":"@ + json_string(COLUMN_BALANCE_ALGORITHM@) + ",\"candidates\":"@ + encoded_candidates(cs)
        + ",\"input_sha256\":"@ + quoted_hex(input_sha256) + ",\"selected_target_height\":"@
        + signed_decimal(selected_target_height as int) + "}"@
}

/// Canonical JSON of the input of a balance search.
pub open spec fn encoded_balance_input(
    layout: StagingColumnsLayout,
    page_index: u32,
    entry_position: u32,
    initial_fragments_sha256: Seq<u8>,
    cs: Seq<StagingColumnBalanceCandidate>,
) -> Seq<char> {
    "{\"body_rect\":"@ + encoded_rect(layout.body) + ",\"candidates\":"@ + encoded_candidates(cs)
        + ",\"entry_position\":"@ + decimal(entry_position as nat) + ",\"flow_registry_sha256\":"@
        + quoted_hex(layout.flow_registry_sha256@) + ",\"initial_fragments_sha256\":"@ + quoted_hex(
        initial_fragments_sha256,
    ) + ",\"master_id\":"@ + json_string(layout.master_id@) + ",\"package_sha256\":"@ + quoted_hex(
        layout.package_sha256@,
    ) + ",\"page_index\":"@ + decimal(page_index as nat) + ",\"profile_receipt_sha256\":"@ + quoted_hex(
        layout.profile_receipt_sha256@,
    ) + "}"@
}

#[verifier::opaque]
pub open spec fn fragment_summary(f: StagingColumnFragment) -> Seq<char> {
    "{\"after\":"@ + decimal(f.after_position as nat) + ",\"before\":"@ + decimal(f.before_position as nat)
        + ",\"column\":"@ + decimal(f.column_index as nat) + ",\"node\":"@ + decimal(
        f.block_node_id.spec_get() as nat,
    ) + "}"@
}

pub open spec fn summary_encoder() -> spec_fn(StagingColumnFragment) -> Seq<char> {
    |f: StagingColumnFragment| fragment_summary(f)
}

/// The text whose fingerprint identifies a fragment list.
pub open spec fn fragments_text(fs: Seq<StagingColumnFragment>) -> Seq<char> {
    seq!['['] + joined(fs, summary_encoder()) + seq![']']
}

/// The text whose fingerprint identifies a rejection state.
pub open spec fn rejections_text(rs: Seq<StagingColumnRejectionReceipt>) -> Seq<char> {
    seq!['['] + joined(rs, rejection_encoder()) + seq![']']
}

fn push_rejection(output: &mut String, r: &StagingColumnRejectionReceipt)
    ensures
        final(output)@ == old(output)@ + encoded_rejection(*r),
{
    output.append("{\"blocked_node_id\":");
    push_u64(output, r.blocked_node_id.get() as u64);
    output.append(",\"column_index\":");
    push_u64(output, r.column_index as u64);
    output.append(",\"deficit\":");
    push_i64(output, r.deficit);
    output.append(",\"position\":");
    push_position(output, r.position);
    output.append("}");
    proof {
        reveal(encoded_rejection);
    }
    assert(output@ =~= old(output)@ + encoded_rejection(*r));
}

fn push_rejections(output: &mut String, rs: &[StagingColumnRejectionReceipt])
    ensures
        final(output)@ == old(output)@ + joined(rs@, rejection_encoder()),
{
    let ghost enc = rejection_encoder();
    let mut index: usize = 0;
    assert(rs@.take(0) =~= Seq::<StagingColumnRejectionReceipt>::empty());
    while index < rs.len()
        invariant
            0 <= index <= rs@.len(),
            enc == rejection_encoder(),
            output@ == old(output)@ + joined(rs@.take(index as int), enc),
        decreases rs.len() - index,
    {
        proof {
            lemma_joined_step(rs@, enc, index as int);
        }
        if index > 0 {
            push_char(output, ',');
        }
        push_rejection(output, &rs[index]);
        assert(enc(rs@[index as int]) == encoded_rejection(rs@[index as int]));
        assert(output@ =~= old(output)@ + joined(rs@.take(index as int + 1), enc));
        index = index + 1;
    }
    assert(rs@.take(rs@.len() as int) =~= rs@);
}

fn push_candidate(output: &mut String, c: &StagingColumnBalanceCandidate)
    ensures
        final(output)@ == old(output)@ + encoded_candidate(*c),
{
    output.append("{\"after_position\":");
    push_position(output, c.after_position);
    output.append(",\"candidate_index\":");
    push_u64(output, c.candidate_index as u64);
    output.append(",\"rejections\":[");
    push_rejections(output, c.rejections.as_slice());
    output.append("],\"target_height\":");
    push_i64(output, c.target_height);
    output.append(",\"terminal\":");
    push_bool(output, c.terminal);
    output.append("}");
    proof {
        reveal(encoded_candidate);
    }
    assert(output@ =~= old(output)@ + encoded_candidate(*c));
}

fn push_candidates(output: &mut String, cs: &[StagingColumnBalanceCandidate])
    ensures
        final(output)@ == old(output)@ + encoded_candidates(cs@),
{
    let ghost enc = candidate_encoder();
    push_char(output, '[');
    let ghost head = output@;
    let mut index: usize = 0;
    assert(cs@.take(0) =~= Seq::<StagingColumnBalanceCandidate>::empty());
    while index < cs.len()
        invariant
            0 <= index <= cs@.len(),
            enc == candidate_encoder(),
            output@ == head + joined(cs@.take(index as int), enc),
        decreases cs.len() - index,
    {
        proof {
            lemma_joined_step(cs@, enc, index as int);
        }
        if index > 0 {
            push_char(output, ',');
        }
        push_candidate(output, &cs[index]);
        assert(enc(cs@[index as int]) == encoded_candidate(cs@[index as int]));
        assert(output@ =~= head + joined(cs@.take(index as int + 1), enc));
        index = index + 1;
    }
    assert(cs@.take(cs@.len() as int) =~= cs@);
    push_char(output, ']');
    assert(output@ =~= old(output)@ + encoded_candidates(cs@));
}

fn encode_balance_receipt(
    input_sha256: &[u8; 32],
    selected_target_height: i64,
    cs: &[StagingColumnBalanceCandidate],
) -> (text: String)
    ensures
        text@ == encoded_balance_receipt(input_sha256@, selected_target_height, cs@),
{
    let mut output = String::new();
    output.append("{\"algorithm\":");
    push_json_str(&mut output, COLUMN_BALANCE_ALGORITHM);
    output.append(",\"candidates\":");
    push_candidates(&mut output, cs);
    output.append(",\"input_sha256\":");
    push_hash(&mut output, input_sha256);
    output.append(",\"selected_target_height\":");
    push_i64(&mut output, selected_target_height);
    output.append("}");
    assert(output@ =~= encoded_balance_receipt(input_sha256@, selected_target_height, cs@));
    output
}

fn encode_balance_input(
    layout: &StagingColumnsLayout,
    page_index: u32,
    entry_position: u32,
    initial_fragments_sha256: &[u8; 32],
    cs: &[StagingColumnBalanceCandidate],
) -> (text: String)
    ensures
        text@ == encoded_balance_input(*layout, page_index, entry_position, initial_fragments_sha256@, cs@),
{
    let mut output = String::new();
    output.append("{\"body_rect\":");
    push_rect(&mut output, layout.body);
    output.append(",\"candidates\":");
    push_candidates(&mut output, cs);
    output.append(",\"entry_position\":");
    push_u64(&mut output, entry_position as u64);
    output.append(",\"flow_registry_sha256\":");
    push_hash(&mut output, &layout.flow_registry_sha256);
    output.append(",\"initial_fragments_sha256\":");
    push_hash(&mut output, initial_fragments_sha256);
    output.append(",\"master_id\":");
    push_json_str(&mut output, layout.master_id.as_str());
    output.append(",\"package_sha256\":");
    push_hash(&mut output, &layout.package_sha256);
    output.append(",\"page_index\":");
    push_u64(&mut output, page_index as u64);
    output.append(",\"profile_receipt_sha256\":");
    push_hash(&mut output, &layout.profile_receipt_sha256);
    output.append("}");
    assert(output@ =~= encoded_balance_input(
        *layout,
        page_index,
        entry_position,
        initial_fragments_sha256@,
        cs@,
    ));
    output
}

fn push_fragment_summary(output: &mut String, f: &StagingColumnFragment)
    ensures
        final(output)@ == old(output)@ + fragment_summary(*f),
{
    output.append("{\"after\":");
    push_u64(output, f.after_position as u64);
    output.append(",\"before\":");
    push_u64(output, f.before_position as u64);
    output.append(",\"column\":");
    push_u64(output, f.column_index as u64);
    output.append(",\"node\":");
    push_u64(output, f.block_node_id.get() as u64);
    output.append("}");
    proof {
        reveal(fragment_summary);
    }
    assert(output@ =~= old(output)@ + fragment_summary(*f));
}

/// SHA-256 of the summary of a fragment list.
fn fragments_fingerprint(fs: &[StagingColumnFragment]) -> (digest: [u8; 32])
    ensures
        digest@ == text_fingerprint(fragments_text(fs@)),
{
    let ghost enc = summary_encoder();
    let mut output = String::new();
    push_char(&mut output, '[');
    let ghost head = output@;
    let mut index: usize = 0;
    assert(fs@.take(0) =~= Seq::<StagingColumnFragment>::empty());
    while index < fs.len()
        invariant
            0 <= index <= fs@.len(),
            enc == summary_encoder(),
            output@ == head + joined(fs@.take(index as int), enc),
        decreases fs.len() - index,
    {
        proof {
            lemma_joined_step(fs@, enc, index as int);
        }
        if index > 0 {
            push_char(&mut output, ',');
        }
        push_fragment_summary(&mut output, &fs[index]);
        assert(enc(fs@[index as int]) == fragment_summary(fs@[index as int]));
        assert(output@ =~= head + joined(fs@.take(index as int + 1), enc));
        index = index + 1;
    }
    assert(fs@.take(fs@.len() as int) =~= fs@);
    push_char(&mut output, ']');
    assert(output@ =~= fragments_text(fs@));
    fingerprint_text(&output)
}

/// SHA-256 of a rejection state.
fn rejections_fingerprint(rs: &[StagingColumnRejectionReceipt]) -> (digest: [u8; 32])
    ensures
        digest@ == text_fingerprint(rejections_text(rs@)),
{
    let mut output = String::new();
    push_char(&mut output, '[');
    push_rejections(&mut output, rs);
    push_char(&mut output, ']');
    assert(output@ =~= rejections_text(rs@));
    fingerprint_text(&output)
}


/// The receipt of a last-page balance search.
#[derive(Clone, Debug, PartialEq, Eq)]
pub struct StagingColumnBalanceReceipt {
    input_sha256: [u8; 32],
    candidate_count: u32,
    selected_target_height: i64,
    receipt_sha256: [u8; 32],
    candidates: Vec<StagingColumnBalanceCandidate>,
    canonical_jcs: String,
}

impl StagingColumnBalanceReceipt {
    pub closed spec fn spec_input_sha256(&self) -> Seq<u8> {
        self.input_sha256@
    }

    pub closed spec fn spec_candidate_count(&self) -> u32 {
        self.candidate_count
    }

    pub closed spec fn spec_selected_target_height(&self) -> i64 {
        self.selected_target_height
    }

    pub closed spec fn spec_receipt_sha256(&self) -> Seq<u8> {
        self.receipt_sha256@
    }

    pub closed spec fn spec_candidates(&self) -> Seq<StagingColumnBalanceCandidate> {
        self.candidates@
    }

    pub closed spec fn spec_canonical_jcs(&self) -> Seq<char> {
        self.canonical_jcs@
    }

    /// The search ended at its last candidate, which reached the end with
    /// the selected target and no rejection; candidates are numbered from
    /// one; the canonical JSON and its fingerprint are exact.
    pub open spec fn balance_valid(&self) -> bool {
        let cs = self.spec_candidates();
        &&& self.spec_candidate_count() != 0
        &&& self.spec_candidate_count() == cs.len()
        &&& cs.last().terminal
        &&& cs.last().target_height == self.spec_selected_target_height()
        &&& cs.last().rejections@.len() == 0
        &&& forall|i: int| 0 <= i < cs.len() ==> #[trigger] cs[i].candidate_index == i + 1
        &&& self.spec_canonical_jcs() == encoded_balance_receipt(
            self.spec_input_sha256(),
            self.spec_selected_target_height(),
            cs,
        )
        &&& self.spec_receipt_sha256() == text_fingerprint(self.spec_canonical_jcs())
    }

    pub fn input_sha256(&self) -> (v: [u8; 32])
        ensures
            v@ == self.spec_input_sha256(),
    {
        self.input_sha256
    }

    pub fn candidate_count(&self) -> (v: u32)
        ensures
            v == self.spec_candidate_count(),
    {
        self.candidate_count
    }

    pub fn selected_target_height(&self) -> (v: i64)
        ensures
            v == self.spec_selected_target_height(),
    {
        self.selected_target_height
    }

    pub fn receipt_sha256(&self) -> (v: [u8; 32])
        ensures
            v@ == self.spec_receipt_sha256(),
    {
        self.receipt_sha256
    }

    pub fn canonical_jcs(&self) -> (v: &str)
        ensures
            v@ == self.spec_canonical_jcs(),
    {
        self.canonical_jcs.as_str()
    }

    fn verify(&self) -> (ok: bool)
        ensures
            ok == self.balance_valid(),
    {
        let n = self.candidates.len();
        if self.candidate_count == 0 || self.candidate_count as usize != n || n == 0 {
            return false;
        }
        let last = &self.candidates[n - 1];
        if !last.terminal || last.target_height != self.selected_target_height || last.rejections.len() != 0 {
            return false;
        }
        let mut index: usize = 0;
        while index < n
            invariant
                0 <= index <= n,
                n == self.candidates@.len(),
                forall|i: int| 0 <= i < index ==> #[trigger] self.candidates@[i].candidate_index == i + 1,
            decreases n - index,
        {
            if index >= u32::MAX as usize || self.candidates[index].candidate_index != (index + 1) as u32 {
                return false;
            }
            index = index + 1;
        }
        let canonical = encode_balance_receipt(
            &self.input_sha256,
            self.selected_target_height,
            self.candidates.as_slice(),
        );
        let digest = fingerprint_text(&canonical);
        canonical == self.canonical_jcs && fingerprint_eq(&self.receipt_sha256, &digest)
    }
}

/// One selected columns page.
#[derive(Clone, Debug, PartialEq, Eq)]
pub struct StagingColumnsSelectedPage {
    pub page_index: u32,
    pub master_id: String,
    pub boxes: StagingSelectedPageBoxes,
    pub margins: StagingPageMargins,
    pub frames: Vec<StagingSelectedAdvancedFrame>,
    pub fragments: Vec<StagingColumnFragment>,
    pub balance: Option<StagingColumnBalanceReceipt>,
}

impl StagingColumnsSelectedPage {
    pub fn page_index(&self) -> (v: u32)
        ensures
            v == self.page_index,
    {
        self.page_index
    }

    pub fn master_id(&self) -> (v: &str)
        ensures
            v@ == self.master_id@,
    {
        self.master_id.as_str()
    }

    pub fn boxes(&self) -> (v: StagingSelectedPageBoxes)
        ensures
            v == self.boxes,
    {
        self.boxes
    }

    pub fn margins(&self) -> (v: StagingPageMargins)
        ensures
            v == self.margins,
    {
        self.margins
    }

    pub fn frames(&self) -> (v: &[StagingSelectedAdvancedFrame])
        ensures
            v@ == self.frames@,
    {
        self.frames.as_slice()
    }

    pub fn fragments(&self) -> (v: &[StagingColumnFragment])
        ensures
            v@ == self.fragments@,
    {
        self.fragments.as_slice()
    }

    pub fn balance(&self) -> (v: Option<&StagingColumnBalanceReceipt>)
        ensures
            v is None <==> self.balance is None,
            v matches Some(b) ==> self.balance == Some(*b),
    {
        match &self.balance {
            Some(b) => Some(b),
            None => None,
        }
    }
}


#[verifier::opaque]
pub open spec fn encoded_column_frame(f: StagingSelectedAdvancedFrame) -> Seq<char> {
    "{\"after_position\":"@ + encoded_position(f.after_position) + ",\"before_position\":"@
        + encoded_position(f.before_position) + ",\"column_index\":"@ + encoded_optional(f.column_index)
        + ",\"frame_flow_id\":"@ + decimal(f.frame_flow_id as nat) + ",\"kind\":\"body\",\"rect\":"@
        + encoded_rect(f.rect) + ",\"repetition_index\":null,\"source_flow_id\":"@ + decimal(
        f.source_flow_id as nat,
    ) + ",\"terminal\":"@ + encoded_bool(f.terminal) + "}"@
}

#[verifier::opaque]
pub open spec fn encoded_column_fragment(f: StagingColumnFragment) -> Seq<char> {
    "{\"after_position\":"@ + decimal(f.after_position as nat) + ",\"before_position\":"@ + decimal(
        f.before_position as nat,
    ) + ",\"block_node_id\":"@ + decimal(f.block_node_id.spec_get() as nat) + ",\"bounds\":"@
        + encoded_rect(f.bounds) + ",\"column_index\":"@ + decimal(f.column_index as nat)
        + ",\"frame_flow_id\":"@ + decimal(f.frame_flow_id as nat) + ",\"source_flow_id\":"@ + decimal(
        f.source_flow_id as nat,
    ) + "}"@
}

pub open spec fn column_frame_encoder() -> spec_fn(StagingSelectedAdvancedFrame) -> Seq<char> {
    |f: StagingSelectedAdvancedFrame| encoded_column_frame(f)
}

pub open spec fn column_fragment_encoder() -> spec_fn(StagingColumnFragment) -> Seq<char> {
    |f: StagingColumnFragment| encoded_column_fragment(f)
}

pub open spec fn encoded_balance_reference(b: Option<StagingColumnBalanceReceipt>) -> Seq<char> {
    match b {
        Some(r) => quoted_hex(r.spec_receipt_sha256()),
        None => "null"@,
    }
}

#[verifier::opaque]
pub open spec fn encoded_columns_page(p: StagingColumnsSelectedPage) -> Seq<char> {
    "{\"balance_receipt_sha256\":"@ + encoded_balance_reference(p.balance) + ",\"boxes\":"@ + encoded_boxes(
        p.boxes,
    ) + ",\"fragments\":["@ + joined(p.fragments@, column_fragment_encoder()) + "],\"frames\":["@
        + joined(p.frames@, column_frame_encoder()) + "],\"margins\":"@ + encoded_margins(p.margins)
        + ",\"master_id\":"@ + json_string(p.master_id@) + ",\"page_index\":"@ + decimal(
        p.page_index as nat,
    ) + "}"@
}

pub open spec fn columns_page_encoder() -> spec_fn(StagingColumnsSelectedPage) -> Seq<char> {
    |p: StagingColumnsSelectedPage| encoded_columns_page(p)
}

/// Canonical JSON of a columns selected layout.
pub open spec fn encoded_columns_layout(
    profile_receipt_sha256: Seq<u8>,
    flow_registry_sha256: Seq<u8>,
    pages: Seq<StagingColumnsSelectedPage>,
) -> Seq<char> {
    "{\"algorithm\":"@ + json_string(ADVANCED_SELECTED_LAYOUT_ALGORITHM@) + ",\"flow_registry_sha256\":"@
        + quoted_hex(flow_registry_sha256) + ",\"pages\":["@ + joined(pages, columns_page_encoder())
        + "],\"profile_receipt_sha256\":"@ + quoted_hex(profile_receipt_sha256) + "}"@
}

fn push_column_frame(output: &mut String, f: &StagingSelectedAdvancedFrame)
    ensures
        final(output)@ == old(output)@ + encoded_column_frame(*f),
{
    output.append("{\"after_position\":");
    push_position(output, f.after_position);
    output.append(",\"before_position\":");
    push_position(output, f.before_position);
    output.append(",\"column_index\":");
    push_optional(output, f.column_index);
    output.append(",\"frame_flow_id\":");
    push_u64(output, f.frame_flow_id as u64);
    output.append(",\"kind\":\"body\",\"rect\":");
    push_rect(output, f.rect);
    output.append(",\"repetition_index\":null,\"source_flow_id\":");
    push_u64(output, f.source_flow_id as u64);
    output.append(",\"terminal\":");
    push_bool(output, f.terminal);
    output.append("}");
    proof {
        reveal(encoded_column_frame);
    }
    assert(output@ =~= old(output)@ + encoded_column_frame(*f));
}

fn push_column_fragment(output: &mut String, f: &StagingColumnFragment)
    ensures
        final(output)@ == old(output)@ + encoded_column_fragment(*f),
{
    output.append("{\"after_position\":");
    push_u64(output, f.after_position as u64);
    output.append(",\"before_position\":");
    push_u64(output, f.before_position as u64);
    output.append(",\"block_node_id\":");
    push_u64(output, f.block_node_id.get() as u64);
    output.append(",\"bounds\":");
    push_rect(output, f.bounds);
    output.append(",\"column_index\":");
    push_u64(output, f.column_index as u64);
    output.append(",\"frame_flow_id\":");
    push_u64(output, f.frame_flow_id as u64);
    output.append(",\"source_flow_id\":");
    push_u64(output, f.source_flow_id as u64);
    output.append("}");
    proof {
        reveal(encoded_column_fragment);
    }
    assert(output@ =~= old(output)@ + encoded_column_fragment(*f));
}

fn push_column_frames(output: &mut String, frames: &Vec<StagingSelectedAdvancedFrame>)
    ensures
        final(output)@ == old(output)@ + joined(frames@, column_frame_encoder()),
{
    let ghost enc = column_frame_encoder();
    let mut index: usize = 0;
    assert(frames@.take(0) =~= Seq::<StagingSelectedAdvancedFrame>::empty());
    while index < frames.len()
        invariant
            0 <= index <= frames@.len(),
            enc == column_frame_encoder(),
            output@ == old(output)@ + joined(frames@.take(index as int), enc),
        decreases frames.len() - index,
    {
        proof {
            lemma_joined_step(frames@, enc, index as int);
        }
        if index > 0 {
            push_char(output, ',');
        }
        push_column_frame(output, &frames[index]);
        assert(enc(frames@[index as int]) == encoded_column_frame(frames@[index as int]));
        assert(output@ =~= old(output)@ + joined(frames@.take(index as int + 1), enc));
        index = index + 1;
    }
    assert(frames@.take(frames@.len() as int) =~= frames@);
}

fn push_column_fragments(output: &mut String, fragments: &Vec<StagingColumnFragment>)
    ensures
        final(output)@ == old(output)@ + joined(fragments@, column_fragment_encoder()),
{
    let ghost enc = column_fragment_encoder();
    let mut index: usize = 0;
    assert(fragments@.take(0) =~= Seq::<StagingColumnFragment>::empty());
    while index < fragments.len()
        invariant
            0 <= index <= fragments@.len(),
            enc == column_fragment_encoder(),
            output@ == old(output)@ + joined(fragments@.take(index as int), enc),
        decreases fragments.len() - index,
    {
        proof {
            lemma_joined_step(fragments@, enc, index as int);
        }
        if index > 0 {
            push_char(output, ',');
        }
        push_column_fragment(output, &fragments[index]);
        assert(enc(fragments@[index as int]) == encoded_column_fragment(fragments@[index as int]));
        assert(output@ =~= old(output)@ + joined(fragments@.take(index as int + 1), enc));
        index = index + 1;
    }
    assert(fragments@.take(fragments@.len() as int) =~= fragments@);
}

fn encode_columns_page(output: &mut String, page: &StagingColumnsSelectedPage)
    ensures
        final(output)@ == old(output)@ + encoded_columns_page(*page),
{
    output.append("{\"balance_receipt_sha256\":");
    match &page.balance {
        Some(balance) => push_hash(output, &balance.receipt_sha256),
        None => output.append("null"),
    }
    output.append(",\"boxes\":");
    push_boxes(output, page.boxes);
    output.append(",\"fragments\":[");
    push_column_fragments(output, &page.fragments);
    output.append("],\"frames\":[");
    push_column_frames(output, &page.frames);
    output.append("],\"margins\":");
    push_margins(output, page.margins);
    output.append(",\"master_id\":");
    push_json_str(output, page.master_id.as_str());
    output.append(",\"page_index\":");
    push_u64(output, page.page_index as u64);
    output.append("}");
    proof {
        reveal(encoded_columns_page);
    }
    assert(output@ =~= old(output)@ + encoded_columns_page(*page));
}

fn encode_selected_layout(
    profile_receipt_sha256: &[u8; 32],
    flow_registry_sha256: &[u8; 32],
    pages: &[StagingColumnsSelectedPage],
) -> (text: String)
    ensures
        text@ == encoded_columns_layout(profile_receipt_sha256@, flow_registry_sha256@, pages@),
{
    let ghost enc = columns_page_encoder();
    let mut output = String::new();
    output.append("{\"algorithm\":");
    push_json_str(&mut output, ADVANCED_SELECTED_LAYOUT_ALGORITHM);
    output.append(",\"flow_registry_sha256\":");
    push_hash(&mut output, flow_registry_sha256);
    output.append(",\"pages\":[");
    let ghost head = output@;
    let mut index: usize = 0;
    assert(pages@.take(0) =~= Seq::<StagingColumnsSelectedPage>::empty());
    while index < pages.len()
        invariant
            0 <= index <= pages@.len(),
            enc == columns_page_encoder(),
            output@ == head + joined(pages@.take(index as int), enc),
        decreases pages.len() - index,
    {
        proof {
            lemma_joined_step(pages@, enc, index as int);
        }
        if index > 0 {
            push_char(&mut output, ',');
        }
        encode_columns_page(&mut output, &pages[index]);
        assert(enc(pages@[index as int]) == encoded_columns_page(pages@[index as int]));
        assert(output@ =~= head + joined(pages@.take(index as int + 1), enc));
        index = index + 1;
    }
    assert(pages@.take(pages@.len() as int) =~= pages@);
    output.append("],\"profile_receipt_sha256\":");
    push_hash(&mut output, profile_receipt_sha256);
    output.append("}");
    assert(output@ =~= encoded_columns_layout(profile_receipt_sha256@, flow_registry_sha256@, pages@));
    output
}


/// The receipt of a columns selected layout.
#[derive(Debug)]
pub struct StagingColumnsSelectedLayoutReceipt {
    profile_receipt_sha256: [u8; 32],
    flow_registry_sha256: [u8; 32],
    selected_layout_sha256: [u8; 32],
    canonical_jcs: String,
}

impl StagingColumnsSelectedLayoutReceipt {
    pub closed spec fn spec_profile_receipt_sha256(&self) -> Seq<u8> {
        self.profile_receipt_sha256@
    }

    pub closed spec fn spec_flow_registry_sha256(&self) -> Seq<u8> {
        self.flow_registry_sha256@
    }

    pub closed spec fn spec_selected_layout_sha256(&self) -> Seq<u8> {
        self.selected_layout_sha256@
    }

    pub closed spec fn spec_canonical_jcs(&self) -> Seq<char> {
        self.canonical_jcs@
    }

    pub fn profile_receipt_sha256(&self) -> (v: [u8; 32])
        ensures
            v@ == self.spec_profile_receipt_sha256(),
    {
        self.profile_receipt_sha256
    }

    pub fn flow_registry_sha256(&self) -> (v: [u8; 32])
        ensures
            v@ == self.spec_flow_registry_sha256(),
    {
        self.flow_registry_sha256
    }

    pub fn selected_layout_sha256(&self) -> (v: [u8; 32])
        ensures
            v@ == self.spec_selected_layout_sha256(),
    {
        self.selected_layout_sha256
    }

    pub fn canonical_jcs(&self) -> (v: &str)
        ensures
            v@ == self.spec_canonical_jcs(),
    {
        self.canonical_jcs.as_str()
    }
}

/// Every frame of a columns page is a body frame of the body flow, column
/// `j` at index `j`.
pub open spec fn body_frames(frames: Seq<StagingSelectedAdvancedFrame>) -> bool {
    forall|j: int| 0 <= j < frames.len() ==> #[trigger] body_frame_at(frames[j], j)
}

/// Frame `f` is the body frame of column `j`.
pub open spec fn body_frame_at(f: StagingSelectedAdvancedFrame, j: int) -> bool {
    &&& f.kind == StagingAdvancedPageFrameKind::Body
    &&& j <= u32::MAX && f.column_index == Some(j as u32)
    &&& f.source_flow_id == DOCUMENT_BODY_FLOW
    &&& f.before_position.flow_id == DOCUMENT_BODY_FLOW
    &&& f.after_position.flow_id == DOCUMENT_BODY_FLOW
}

/// Each frame starts where the previous one ended.
pub open spec fn frames_chained(frames: Seq<StagingSelectedAdvancedFrame>) -> bool {
    forall|j: int| 0 < j < frames.len() ==> #[trigger] chained_at(frames, j)
}

pub open spec fn chained_at(frames: Seq<StagingSelectedAdvancedFrame>, j: int) -> bool {
    frames[j].before_position.ordinal == frames[j - 1].after_position.ordinal
}

/// A fragment lies in its column's frame, in the frame's flow range.
pub open spec fn fragment_in_frame(page: StagingColumnsSelectedPage, f: StagingColumnFragment) -> bool {
    &&& f.page_index == page.page_index
    &&& f.source_flow_id == DOCUMENT_BODY_FLOW
    &&& f.column_index < page.frames@.len()
    &&& page.frames@[f.column_index as int].frame_flow_id == f.frame_flow_id
    &&& rect_within(page.frames@[f.column_index as int].rect, f.bounds)
    &&& f.before_position >= page.frames@[f.column_index as int].before_position.ordinal
    &&& f.after_position <= page.frames@[f.column_index as int].after_position.ordinal
}

/// The flow position where page `k` must start.
pub open spec fn page_entry(pages: Seq<StagingColumnsSelectedPage>, k: int) -> u32 {
    if k <= 0 {
        0
    } else {
        pages[k - 1].frames@.last().after_position.ordinal
    }
}

/// Page `k` is well formed and continues the previous page; only the last
/// page may carry a balance receipt, and it must verify.
pub open spec fn columns_page_valid(pages: Seq<StagingColumnsSelectedPage>, k: int) -> bool {
    let page = pages[k];
    &&& page.page_index == k
    &&& page.frames@.len() > 0
    &&& body_frames(page.frames@)
    &&& page.frames@[0].before_position.ordinal == page_entry(pages, k)
    &&& frames_chained(page.frames@)
    &&& k != pages.len() - 1 ==> page.balance is None
    &&& page.balance matches Some(b) ==> b.balance_valid()
    &&& forall|i: int| 0 <= i < page.fragments@.len() ==> #[trigger] fragment_in_frame(page, page.fragments@[i])
}

/// Selected pages and their receipt.
#[derive(Debug)]
pub struct StagingColumnsSelectedLayout {
    pages: Vec<StagingColumnsSelectedPage>,
    receipt: StagingColumnsSelectedLayoutReceipt,
}

impl StagingColumnsSelectedLayout {
    pub closed spec fn spec_pages(&self) -> Seq<StagingColumnsSelectedPage> {
        self.pages@
    }

    pub closed spec fn spec_receipt(&self) -> StagingColumnsSelectedLayoutReceipt {
        self.receipt
    }

    /// What `verify_receipt` checks: the pages tile the body flow from
    /// position zero, the last frame is terminal, and the receipt is the
    /// canonical JSON of the pages and its fingerprint.
    pub open spec fn receipt_valid(&self) -> bool {
        let pages = self.spec_pages();
        let r = self.spec_receipt();
        &&& pages.len() > 0
        &&& forall|k: int| 0 <= k < pages.len() ==> #[trigger] columns_page_valid(pages, k)
        &&& pages.last().frames@.last().terminal
        &&& r.spec_canonical_jcs() == encoded_columns_layout(
            r.spec_profile_receipt_sha256(),
            r.spec_flow_registry_sha256(),
            pages,
        )
        &&& r.spec_selected_layout_sha256() == text_fingerprint(r.spec_canonical_jcs())
    }

    /// A selected layout from pages and a receipt received from elsewhere,
    /// to be checked with `verify_receipt`.
    pub fn from_parts(pages: Vec<StagingColumnsSelectedPage>, receipt: StagingColumnsSelectedLayoutReceipt) -> (s: Self)
        ensures
            s.spec_pages() == pages@,
            s.spec_receipt() == receipt,
    {
        StagingColumnsSelectedLayout { pages, receipt }
    }

    /// The pages and the receipt.
    pub fn into_parts(self) -> (parts: (Vec<StagingColumnsSelectedPage>, StagingColumnsSelectedLayoutReceipt))
        ensures
            parts.0@ == self.spec_pages(),
            parts.1 == self.spec_receipt(),
    {
        (self.pages, self.receipt)
    }

    pub fn pages(&self) -> (v: &[StagingColumnsSelectedPage])
        ensures
            v@ == self.spec_pages(),
    {
        self.pages.as_slice()
    }

    pub fn receipt(&self) -> (v: &StagingColumnsSelectedLayoutReceipt)
        ensures
            *v == self.spec_receipt(),
    {
        &self.receipt
    }

    /// Re-check every page and recompute the canonical JSON and fingerprint.
    pub fn verify_receipt(&self) -> (r: Result<(), StagingColumnsPaginationError>)
        ensures
            r is Ok <==> self.receipt_valid(),
            r matches Err(e) ==> e == StagingColumnsPaginationError::SelectedReceiptMismatch,
    {
        let n = self.pages.len();
        if n == 0 {
            return Err(StagingColumnsPaginationError::SelectedReceiptMismatch);
        }
        let mut k: usize = 0;
        while k < n
            invariant
                0 <= k <= n,
                n == self.pages@.len(),
                forall|j: int| 0 <= j < k ==> #[trigger] columns_page_valid(self.pages@, j),
            decreases n - k,
        {
            if k > 0 {
                assert(columns_page_valid(self.pages@, k - 1));
            }
            if !check_columns_page(self.pages.as_slice(), k) {
                return Err(StagingColumnsPaginationError::SelectedReceiptMismatch);
            }
            k = k + 1;
        }
        assert(columns_page_valid(self.pages@, n - 1));
        let last = &self.pages[n - 1];
        if !last.frames[last.frames.len() - 1].terminal {
            return Err(StagingColumnsPaginationError::SelectedReceiptMismatch);
        }
        let canonical = encode_selected_layout(
            &self.receipt.profile_receipt_sha256,
            &self.receipt.flow_registry_sha256,
            self.pages.as_slice(),
        );
        let digest = fingerprint_text(&canonical);
        if canonical != self.receipt.canonical_jcs || !fingerprint_eq(&digest, &self.receipt.selected_layout_sha256) {
            return Err(StagingColumnsPaginationError::SelectedReceiptMismatch);
        }
        Ok(())
    }
}

fn check_fragment(page: &StagingColumnsSelectedPage, f: &StagingColumnFragment) -> (ok: bool)
    ensures
        ok == fragment_in_frame(*page, *f),
{
    if f.page_index != page.page_index || f.source_flow_id != DOCUMENT_BODY_FLOW || f.column_index as usize
        >= page.frames.len() {
        return false;
    }
    let frame = &page.frames[f.column_index as usize];
    frame.frame_flow_id == f.frame_flow_id && rect_contains(frame.rect, f.bounds) && f.before_position
        >= frame.before_position.ordinal && f.after_position <= frame.after_position.ordinal
}

fn check_columns_page(pages: &[StagingColumnsSelectedPage], k: usize) -> (ok: bool)
    requires
        k < pages@.len(),
        k > 0 ==> pages@[k - 1].frames@.len() > 0,
    ensures
        ok == columns_page_valid(pages@, k as int),
{
    let page = &pages[k];
    let frames = &page.frames;
    assert(*page == pages@[k as int]);
    if k > u32::MAX as usize || page.page_index != k as u32 || frames.len() == 0 {
        return false;
    }
    let entry: u32 = if k == 0 {
        0
    } else {
        let previous = &pages[k - 1].frames;
        previous[previous.len() - 1].after_position.ordinal
    };
    if k > 0 {
        assert(page_entry(pages@, k as int) == entry);
    }
    if frames[0].before_position.ordinal != entry {
        return false;
    }
    let mut j: usize = 0;
    while j < frames.len()
        invariant
            0 <= j <= frames@.len(),
            k < pages@.len(),
            *page == pages@[k as int],
            frames@ == pages@[k as int].frames@,
            forall|i: int| 0 <= i < j ==> #[trigger] body_frame_at(frames@[i], i),
            forall|i: int| 0 < i < j ==> #[trigger] chained_at(frames@, i),
        decreases frames.len() - j,
    {
        let frame = &frames[j];
        let column_ok = match frame.column_index {
            Some(c) => j <= u32::MAX as usize && c == j as u32,
            None => false,
        };
        let kind_ok = match frame.kind {
            StagingAdvancedPageFrameKind::Body => true,
            _ => false,
        };
        let frame_ok = kind_ok && column_ok && frame.source_flow_id == DOCUMENT_BODY_FLOW
            && frame.before_position.flow_id == DOCUMENT_BODY_FLOW && frame.after_position.flow_id
            == DOCUMENT_BODY_FLOW;
        assert(frame_ok == body_frame_at(frames@[j as int], j as int));
        if !frame_ok {
            assert(!body_frames(pages@[k as int].frames@));
            return false;
        }
        if j > 0 {
            let link = frames[j - 1].after_position.ordinal == frame.before_position.ordinal;
            assert(link == chained_at(frames@, j as int));
            if !link {
                assert(!frames_chained(pages@[k as int].frames@));
                return false;
            }
        }
        j = j + 1;
    }
    if k + 1 != pages.len() && page.balance.is_some() {
        return false;
    }
    match &page.balance {
        Some(b) => {
            if !b.verify() {
                return false;
            }
        },
        None => {},
    }
    let mut i: usize = 0;
    while i < page.fragments.len()
        invariant
            0 <= i <= page.fragments@.len(),
            k < pages@.len(),
            *page == pages@[k as int],
            forall|t: int| 0 <= t < i ==> #[trigger] fragment_in_frame(*page, page.fragments@[t]),
        decreases page.fragments.len() - i,
    {
        if !check_fragment(page, &page.fragments[i]) {
            assert(!fragment_in_frame(pages@[k as int], pages@[k as int].fragments@[i as int]));
            return false;
        }
        i = i + 1;
    }
    true
}


/// A page evaluated at one target height.
pub(crate) struct EvaluatedPage {
    pub(crate) frames: Vec<StagingSelectedAdvancedFrame>,
    pub(crate) fragments: Vec<StagingColumnFragment>,
    pub(crate) rejections: Vec<StagingColumnRejectionReceipt>,
    pub(crate) after_position: u32,
    pub(crate) terminal: bool,
    pub(crate) positive_extent: i64,
}

/// The frame a column gets on a page: the column's position and width at
/// the target height, over the flow range the fill consumed.
pub open spec fn column_frame(
    column: StagingColumnLayout,
    target_height: i64,
    before: u32,
    after: u32,
    terminal: u32,
) -> StagingSelectedAdvancedFrame {
    StagingSelectedAdvancedFrame {
        kind: StagingAdvancedPageFrameKind::Body,
        column_index: Some(column.column_index),
        frame_flow_id: column.frame_flow_id,
        source_flow_id: DOCUMENT_BODY_FLOW,
        rect: Rect { x: column.rect.x, y: column.rect.y, width: column.rect.width, height: target_height },
        before_position: StagingAdvancedFlowPosition { flow_id: DOCUMENT_BODY_FLOW, ordinal: before },
        after_position: StagingAdvancedFlowPosition { flow_id: DOCUMENT_BODY_FLOW, ordinal: after },
        terminal: after == terminal,
        repetition_index: None,
    }
}

/// An evaluated page has one frame per column, chained from the entry
/// position to its after position, with positive deficits and positive
/// fragment extents.
pub(crate) open spec fn evaluated_shape(
    layout: StagingColumnsLayout,
    page_index: u32,
    entry: u32,
    target_height: i64,
    ev: EvaluatedPage,
) -> bool {
    let frames = ev.frames@;
    &&& layout.blocks@.len() <= u32::MAX
    &&& frames.len() == layout.columns@.len()
    &&& frames.len() > 0 ==> frames[0].before_position.ordinal == entry && frames.last().after_position.ordinal
        == ev.after_position
    &&& frames.len() == 0 ==> ev.after_position == entry
    &&& forall|j: int| 0 <= j < frames.len() ==> #[trigger] frames[j] == column_frame(
        layout.columns@[j],
        target_height,
        frames[j].before_position.ordinal,
        frames[j].after_position.ordinal,
        layout.blocks@.len() as u32,
    )
    &&& frames_chained(frames)
    &&& ev.terminal == (ev.after_position == layout.blocks@.len())
    &&& forall|i: int| 0 <= i < ev.rejections@.len() ==> #[trigger] ev.rejections@[i].deficit > 0
    &&& forall|i: int| 0 <= i < ev.fragments@.len() ==> #[trigger] ev.fragments@[i].page_index == page_index
        && ev.fragments@[i].bounds.height > 0
    &&& ev.positive_extent >= 0
}

/// Block `i` spans the flow positions `i..i + 1`.
pub open spec fn blocks_consecutive(blocks: Seq<StagingColumnBlockLayout>) -> bool {
    forall|i: int| #![trigger blocks[i]] 0 <= i < blocks.len() ==> blocks[i].before_position == i
        && blocks[i].after_position == i + 1
}

/// The total extent of blocks `a..b`.
pub open spec fn extent_sum(blocks: Seq<StagingColumnBlockLayout>, a: int, b: int) -> int
    decreases b - a,
{
    if b <= a {
        0
    } else {
        extent_sum(blocks, a, b - 1) + blocks[b - 1].block_extent
    }
}

/// A layout whose fill at `target_height` stays representable: at most
/// `u32::MAX` blocks at consecutive positions, no negative extent, twice
/// the total extent an `i64`, a non-negative target, and every column's
/// top plus the total extent an `i64`.
pub open spec fn fill_representable(layout: StagingColumnsLayout, target_height: i64) -> bool {
    let blocks = layout.blocks@;
    &&& blocks.len() <= u32::MAX
    &&& blocks_consecutive(blocks)
    &&& forall|i: int| 0 <= i < blocks.len() ==> #[trigger] blocks[i].block_extent >= 0
    &&& 2 * extent_sum(blocks, 0, blocks.len() as int) <= i64::MAX
    &&& target_height >= 0
    &&& forall|j: int| 0 <= j < layout.columns@.len() ==> #[trigger] layout.columns@[j].rect.y + extent_sum(
        blocks,
        0,
        blocks.len() as int,
    ) <= i64::MAX
}

/// Every group that can start at a block fits `target_height`.
pub open spec fn groups_fit(blocks: Seq<StagingColumnBlockLayout>, target_height: i64) -> bool {
    forall|i: int|
        0 <= i < blocks.len() && !blocks[i].forced_page_break ==> (#[trigger] group_spec(blocks, i) matches Ok((
            _,
            x,
        )) && x <= target_height)
}

proof fn lemma_extent_sum_split(blocks: Seq<StagingColumnBlockLayout>, a: int, b: int, c: int)
    requires
        a <= b <= c,
    ensures
        extent_sum(blocks, a, c) == extent_sum(blocks, a, b) + extent_sum(blocks, b, c),
    decreases c - b,
{
    if b < c {
        lemma_extent_sum_split(blocks, a, b, c - 1);
    }
}

proof fn lemma_extent_sum_nonneg(blocks: Seq<StagingColumnBlockLayout>, a: int, b: int)
    requires
        0 <= a,
        b <= blocks.len(),
        forall|i: int| 0 <= i < blocks.len() ==> #[trigger] blocks[i].block_extent >= 0,
    ensures
        extent_sum(blocks, a, b) >= 0,
    decreases b - a,
{
    if a < b {
        lemma_extent_sum_nonneg(blocks, a, b - 1);
    }
}

/// With no negative extent, sums inside `0..len` are bounded by the total.
proof fn lemma_extent_sum_within(blocks: Seq<StagingColumnBlockLayout>, a: int, b: int)
    requires
        0 <= a <= b <= blocks.len(),
        forall|i: int| 0 <= i < blocks.len() ==> #[trigger] blocks[i].block_extent >= 0,
    ensures
        0 <= extent_sum(blocks, 0, a) <= extent_sum(blocks, 0, b) <= extent_sum(blocks, 0, blocks.len() as int),
        extent_sum(blocks, 0, b) == extent_sum(blocks, 0, a) + extent_sum(blocks, a, b),
{
    lemma_extent_sum_split(blocks, 0, a, b);
    lemma_extent_sum_split(blocks, 0, b, blocks.len() as int);
    lemma_extent_sum_nonneg(blocks, 0, a);
    lemma_extent_sum_nonneg(blocks, a, b);
    lemma_extent_sum_nonneg(blocks, b, blocks.len() as int);
}

/// With no negative extent and a small enough total, a group scan never
/// overflows: it ends at or after where it starts, past it unless that
/// block is a forced break, with the extents between added.
proof fn lemma_group_scan_total(blocks: Seq<StagingColumnBlockLayout>, e: int, acc: int)
    requires
        0 <= e < blocks.len(),
        acc >= 0,
        acc + extent_sum(blocks, e, blocks.len() as int) <= i64::MAX,
        forall|i: int| 0 <= i < blocks.len() ==> #[trigger] blocks[i].block_extent >= 0,
    ensures
        group_scan(blocks, e, acc) matches Ok((e2, x)) && e <= e2 <= blocks.len() && x == acc + extent_sum(
            blocks,
            e,
            e2,
        ) && (!blocks[e].forced_page_break ==> e2 > e),
    decreases blocks.len() - e,
{
    lemma_extent_sum_split(blocks, e, e + 1, blocks.len() as int);
    lemma_extent_sum_nonneg(blocks, e + 1, blocks.len() as int);
    assert(extent_sum(blocks, e, e) == 0);
    assert(extent_sum(blocks, e, e + 1) == blocks[e].block_extent);
    if !blocks[e].forced_page_break && !(!blocks[e].keep_with_next || e + 1 >= blocks.len() || blocks[e
        + 1].forced_page_break) {
        lemma_group_scan_total(blocks, e + 1, acc + blocks[e].block_extent);
        let (e2, x) = group_scan(blocks, e + 1, acc + blocks[e].block_extent)->Ok_0;
        lemma_extent_sum_split(blocks, e, e + 1, e2);
    }
}

/// Where a column that starts at block `cursor` with `used` taken stops at
/// `target_height`: it takes whole groups while they fit; it stops at the
/// end, before a group that does not fit, or just past a forced break
/// (the flag says the page ends there).
pub open spec fn column_stop(blocks: Seq<StagingColumnBlockLayout>, cursor: int, used: int, target_height: int) -> (
    int,
    bool,
)
    decreases blocks.len() - cursor,
{
    if cursor < 0 || cursor >= blocks.len() {
        (cursor, false)
    } else if blocks[cursor].forced_page_break {
        (cursor + 1, true)
    } else {
        match group_spec(blocks, cursor) {
            Ok((end, extent)) => if used + extent > target_height || end <= cursor || end > blocks.len() {
                (cursor, false)
            } else {
                column_stop(blocks, end, used + extent, target_height)
            },
            Err(_) => (cursor, false),
        }
    }
}

/// Whether a forced break ended one of the columns before column `j`.
pub open spec fn forced_before(
    blocks: Seq<StagingColumnBlockLayout>,
    frames: Seq<StagingSelectedAdvancedFrame>,
    target_height: int,
    j: int,
) -> bool
    decreases j,
{
    if j <= 0 {
        false
    } else {
        forced_before(blocks, frames, target_height, j - 1) || column_stop(
            blocks,
            frames[j - 1].before_position.ordinal as int,
            0,
            target_height,
        ).1
    }
}

/// Each column of a page is filled greedily: after a forced break the
/// remaining columns are empty, any other column stops where
/// `column_stop` says.
pub open spec fn columns_greedy(
    blocks: Seq<StagingColumnBlockLayout>,
    frames: Seq<StagingSelectedAdvancedFrame>,
    target_height: int,
) -> bool {
    forall|j: int|
        0 <= j < frames.len() ==> (#[trigger] frames[j]).after_position.ordinal == (if forced_before(
            blocks,
            frames,
            target_height,
            j,
        ) {
            frames[j].before_position.ordinal as int
        } else {
            column_stop(blocks, frames[j].before_position.ordinal as int, 0, target_height).0
        })
}

proof fn lemma_forced_before_prefix(
    blocks: Seq<StagingColumnBlockLayout>,
    frames: Seq<StagingSelectedAdvancedFrame>,
    f: StagingSelectedAdvancedFrame,
    target_height: int,
    j: int,
)
    requires
        j <= frames.len(),
    ensures
        forced_before(blocks, frames.push(f), target_height, j) == forced_before(blocks, frames, target_height, j),
    decreases j,
{
    if j > 0 {
        lemma_forced_before_prefix(blocks, frames, f, target_height, j - 1);
        assert(frames.push(f)[j - 1] == frames[j - 1]);
    }
}

/// Columns that a page at `target_height` can hold fragments in: column
/// `j` has index `j`, and its right edge and its top plus the target are
/// representable.
pub open spec fn columns_placeable(columns: Seq<StagingColumnLayout>, target_height: i64) -> bool {
    forall|j: int|
        0 <= j < columns.len() ==> (#[trigger] columns[j]).column_index == j && i64::MIN <= columns[j].rect.x
            + columns[j].rect.width <= i64::MAX && columns[j].rect.y + target_height <= i64::MAX
}

/// A fragment lies in its column's frame among `frames`, within the
/// frame's flow range, on page `page_index`.
pub open spec fn fragment_fits_frames(
    f: StagingColumnFragment,
    frames: Seq<StagingSelectedAdvancedFrame>,
    page_index: u32,
) -> bool {
    &&& f.page_index == page_index
    &&& f.source_flow_id == DOCUMENT_BODY_FLOW
    &&& f.column_index < frames.len()
    &&& frames[f.column_index as int].frame_flow_id == f.frame_flow_id
    &&& rect_within(frames[f.column_index as int].rect, f.bounds)
    &&& f.before_position >= frames[f.column_index as int].before_position.ordinal
    &&& f.after_position <= frames[f.column_index as int].after_position.ordinal
}

/// A fragment placed so far while filling column `k`: in an earlier
/// column's frame, or in the current column's rectangle from `before` to
/// `cursor`.
pub open spec fn fragment_so_far(
    f: StagingColumnFragment,
    frames: Seq<StagingSelectedAdvancedFrame>,
    page_index: u32,
    k: int,
    column: StagingColumnLayout,
    frame_rect: Rect,
    before: int,
    cursor: int,
) -> bool {
    &&& f.page_index == page_index
    &&& f.source_flow_id == DOCUMENT_BODY_FLOW
    &&& f.column_index <= k
    &&& f.column_index < k ==> fragment_fits_frames(f, frames, page_index)
    &&& f.column_index == k ==> f.frame_flow_id == column.frame_flow_id && rect_within(frame_rect, f.bounds)
        && f.before_position >= before && f.after_position <= cursor
}

proof fn lemma_column_stop_bounds(blocks: Seq<StagingColumnBlockLayout>, c: int, used: int, t: int)
    requires
        0 <= c <= blocks.len(),
    ensures
        c <= column_stop(blocks, c, used, t).0 <= blocks.len(),
    decreases blocks.len() - c,
{
    if c < blocks.len() && !blocks[c].forced_page_break {
        match group_spec(blocks, c) {
            Ok((end, extent)) => {
                if !(used + extent > t || end <= c || end > blocks.len()) {
                    lemma_column_stop_bounds(blocks, end, used + extent, t);
                }
            },
            Err(_) => {},
        }
    }
}

/// An empty column whose groups all fit takes at least one block.
proof fn lemma_column_stop_takes(blocks: Seq<StagingColumnBlockLayout>, c: int, t: i64)
    requires
        0 <= c < blocks.len(),
        groups_fit(blocks, t),
    ensures
        column_stop(blocks, c, 0, t as int).0 > c,
{
    if !blocks[c].forced_page_break {
        assert(group_spec(blocks, c) matches Ok((_, x)) && x <= t);
        lemma_group_scan_bounds(blocks, c, 0);
        let (end, extent) = group_spec(blocks, c)->Ok_0;
        lemma_column_stop_bounds(blocks, end, extent, t as int);
    }
}

/// In a greedy chained page, every column ends no earlier than the first.
proof fn lemma_greedy_frames_advance(
    blocks: Seq<StagingColumnBlockLayout>,
    frames: Seq<StagingSelectedAdvancedFrame>,
    t: int,
    j: int,
)
    requires
        columns_greedy(blocks, frames, t),
        frames_chained(frames),
        0 <= j < frames.len(),
        frames[0].before_position.ordinal <= blocks.len(),
    ensures
        frames[j].after_position.ordinal >= frames[0].after_position.ordinal,
        frames[j].before_position.ordinal <= frames[j].after_position.ordinal <= blocks.len(),
    decreases j,
{
    if j > 0 {
        lemma_greedy_frames_advance(blocks, frames, t, j - 1);
        assert(chained_at(frames, j));
    }
    lemma_column_stop_bounds(blocks, frames[j].before_position.ordinal as int, 0, t);
    assert(frames[j] == frames[j]);
}

/// Filling `n` columns from `cursor` at `target_height`: where the last of
/// them stops, and whether a forced break ended the page.
pub open spec fn fill_columns(blocks: Seq<StagingColumnBlockLayout>, n: int, cursor: int, target_height: int) -> (
    int,
    bool,
)
    decreases n,
{
    if n <= 0 {
        (cursor, false)
    } else {
        let (p, forced) = fill_columns(blocks, n - 1, cursor, target_height);
        if forced {
            (p, true)
        } else {
            column_stop(blocks, p, 0, target_height)
        }
    }
}

/// How many of blocks `a..b` make a fragment: those of positive extent
/// that are not forced breaks.
pub open spec fn positive_blocks(blocks: Seq<StagingColumnBlockLayout>, a: int, b: int) -> nat
    decreases b - a,
{
    if b <= a {
        0
    } else {
        positive_blocks(blocks, a, b - 1) + (if blocks[b - 1].block_extent > 0 && !blocks[b - 1].forced_page_break {
            1nat
        } else {
            0nat
        })
    }
}

/// The refusal, if any, of paginating at the body height without balance
/// from page `k` at `cursor` with `records` selected: the page limit before
/// each page, then the fragment limit once the page's frames and fragments
/// are charged, then a page that does not advance; none once a page
/// reaches the end.
pub open spec fn columns_pages_refusal(
    layout: StagingColumnsLayout,
    limits: PaginationLimits,
    k: int,
    cursor: int,
    records: int,
) -> Option<StagingColumnsPaginationError>
    decreases layout.blocks@.len() - cursor,
{
    let blocks = layout.blocks@;
    let after = fill_columns(blocks, layout.columns@.len() as int, cursor, layout.body.height as int).0;
    let taken = layout.columns@.len() + positive_blocks(blocks, cursor, after);
    if k >= limits.max_pages {
        Some(StagingColumnsPaginationError::PageLimit)
    } else if after != blocks.len() && after <= cursor {
        Some(StagingColumnsPaginationError::ProgressContradiction)
    } else if records + taken > limits.max_fragments {
        Some(StagingColumnsPaginationError::FragmentLimit)
    } else if after >= blocks.len() {
        None
    } else {
        columns_pages_refusal(layout, limits, k + 1, after, records + taken)
    }
}

proof fn lemma_group_scan_unforced(blocks: Seq<StagingColumnBlockLayout>, e: int, acc: int)
    ensures
        group_scan(blocks, e, acc) matches Ok((e2, _)) ==> forall|t: int|
            e <= t < e2 ==> !(#[trigger] blocks[t]).forced_page_break,
    decreases blocks.len() - e,
{
    if 0 <= e < blocks.len() && !blocks[e].forced_page_break && i64::MIN <= acc + blocks[e].block_extent
        <= i64::MAX && !(!blocks[e].keep_with_next || e + 1 >= blocks.len() || blocks[e + 1].forced_page_break) {
        lemma_group_scan_unforced(blocks, e + 1, acc + blocks[e].block_extent);
    }
}

/// A greedy chained page ends where filling its columns from its entry
/// stops.
proof fn lemma_greedy_page_end(
    blocks: Seq<StagingColumnBlockLayout>,
    frames: Seq<StagingSelectedAdvancedFrame>,
    t: int,
    j: int,
)
    requires
        columns_greedy(blocks, frames, t),
        frames_chained(frames),
        0 < j <= frames.len(),
    ensures
        fill_columns(blocks, j, frames[0].before_position.ordinal as int, t) == (
            frames[j - 1].after_position.ordinal as int,
            forced_before(blocks, frames, t, j),
        ),
    decreases j,
{
    let f = frames[j - 1];
    let before = f.before_position.ordinal as int;
    assert(f.after_position.ordinal == (if forced_before(blocks, frames, t, j - 1) {
        before
    } else {
        column_stop(blocks, before, 0, t).0
    }));
    assert(forced_before(blocks, frames, t, j) == (forced_before(blocks, frames, t, j - 1) || column_stop(
        blocks,
        before,
        0,
        t,
    ).1));
    if j > 1 {
        lemma_greedy_page_end(blocks, frames, t, j - 1);
        assert(chained_at(frames, j - 1));
        assert(before == frames[j - 2].after_position.ordinal);
    } else {
        assert(fill_columns(blocks, 0, before, t) == (before, false));
    }
}

/// A columns layout whose pagination is owed success: columns with valid
/// page boxes and margins, a representable fill at the body height whose
/// groups all fit it, columns that hold fragments, no last-page balance,
/// at most one page per block plus one, and room in the fragment limit
/// for every frame and every block of that many pages.
pub open spec fn columns_pagination_owed(layout: StagingColumnsLayout, limits: PaginationLimits) -> bool {
    let n = layout.blocks@.len() as int;
    let c = layout.columns@.len() as int;
    &&& c > 0
    &&& columns_boxes(layout) is Ok
    &&& columns_margins(layout) is Ok
    &&& fill_representable(layout, layout.body.height)
    &&& groups_fit(layout.blocks@, layout.body.height)
    &&& columns_placeable(layout.columns@, layout.body.height)
    &&& !(layout.balance_last_page && c > 1)
    &&& n + 1 <= limits.max_pages
    &&& (n + 1) * c + n <= limits.max_fragments
}

/// A columns layout whose pages fill without geometry or arithmetic
/// refusals: columns, boxes and margins derive, the fill at the body height
/// is representable, every group fits the body and the columns are placeable.
pub open spec fn columns_fill_plain(layout: StagingColumnsLayout) -> bool {
    &&& layout.columns@.len() > 0
    &&& columns_boxes(layout) is Ok
    &&& columns_margins(layout) is Ok
    &&& fill_representable(layout, layout.body.height)
    &&& groups_fit(layout.blocks@, layout.body.height)
    &&& columns_placeable(layout.columns@, layout.body.height)
}

/// A columns layout whose pagination decides only on the page and fragment
/// limits: the conditions of `columns_pagination_owed` without the two
/// limit bounds.
pub open spec fn columns_pagination_plain(layout: StagingColumnsLayout) -> bool {
    &&& columns_fill_plain(layout)
    &&& !(layout.balance_last_page && layout.columns@.len() > 1)
}

/// Where the last page of a columns pagination starts: the pages are filled
/// at the body height from `cursor` until one reaches the end (or would not
/// advance).
pub open spec fn columns_final_entry(layout: StagingColumnsLayout, cursor: int) -> int
    decreases layout.blocks@.len() - cursor,
{
    let blocks = layout.blocks@;
    let after = fill_columns(blocks, layout.columns@.len() as int, cursor, layout.body.height as int).0;
    if after >= blocks.len() || after <= cursor {
        cursor
    } else {
        columns_final_entry(layout, after)
    }
}

/// The balance search of a last page entered at `entry` settles at its first
/// target: the rest of the flow, with no forced break, fits the first column
/// at the even spread of its extent, within the search's limits.
pub open spec fn balance_settles(layout: StagingColumnsLayout, limits: PaginationLimits, entry: int) -> bool {
    let blocks = layout.blocks@;
    let pe = extent_sum(blocks, entry, blocks.len() as int);
    &&& 0 <= entry <= blocks.len()
    &&& unforced_span(blocks, entry, blocks.len() as int)
    &&& limits.max_column_balance_candidates >= 1
    &&& layout.columns@.len() <= i64::MAX
    &&& pe + layout.columns@.len() - 1 <= i64::MAX
    &&& layout.body.height >= 1
    &&& pe > 0 ==> fills_first_column(layout, entry as u32, first_balance_target(layout, pe as i64) as i64)
}

/// A balanced columns layout whose pagination is owed: its pages fill
/// plainly, no page, progress or fragment limit refuses it, and the balance
/// search of its last page settles at its first target.
pub open spec fn columns_pagination_owed_balanced(layout: StagingColumnsLayout, limits: PaginationLimits) -> bool {
    &&& columns_fill_plain(layout)
    &&& layout.balance_last_page && layout.columns@.len() > 1
    &&& columns_pages_refusal(layout, limits, 0, 0, 0) is None
    &&& balance_settles(layout, limits, columns_final_entry(layout, 0))
}

/// The refusals of `columns_pages_refusal` that come before the last page is
/// balanced: the page limit on every page, and the progress and fragment
/// limits of every page but the last.
pub open spec fn columns_refusal_before_last(
    layout: StagingColumnsLayout,
    limits: PaginationLimits,
    k: int,
    cursor: int,
    records: int,
) -> Option<StagingColumnsPaginationError>
    decreases layout.blocks@.len() - cursor,
{
    let blocks = layout.blocks@;
    let after = fill_columns(blocks, layout.columns@.len() as int, cursor, layout.body.height as int).0;
    let taken = layout.columns@.len() + positive_blocks(blocks, cursor, after);
    if k >= limits.max_pages {
        Some(StagingColumnsPaginationError::PageLimit)
    } else if after != blocks.len() && after <= cursor {
        Some(StagingColumnsPaginationError::ProgressContradiction)
    } else if after >= blocks.len() {
        None
    } else if records + taken > limits.max_fragments {
        Some(StagingColumnsPaginationError::FragmentLimit)
    } else {
        columns_refusal_before_last(layout, limits, k + 1, after, records + taken)
    }
}

/// No block in `[a, b)` forces a page break.
pub open spec fn unforced_span(blocks: Seq<StagingColumnBlockLayout>, a: int, b: int) -> bool {
    forall|i: int| a <= i < b ==> !(#[trigger] blocks[i]).forced_page_break
}

/// A representable fill at `target_height` whose first column takes all
/// the blocks from `entry` on: there is a column, no forced break from
/// `entry` on, and their total extent fits the target.
pub open spec fn fills_first_column(layout: StagingColumnsLayout, entry: u32, target_height: i64) -> bool {
    let blocks = layout.blocks@;
    &&& fill_representable(layout, target_height)
    &&& layout.columns@.len() > 0
    &&& entry <= blocks.len()
    &&& forall|i: int| entry <= i < blocks.len() ==> !(#[trigger] blocks[i]).forced_page_break
    &&& extent_sum(blocks, entry as int, blocks.len() as int) <= target_height
}

/// Fill the columns of one page from `entry_position` at `target_height`:
/// each column takes whole groups while they fit, a group that does not
/// fit is recorded as a rejection with its deficit; a forced page break
/// ends the page. In a full-height evaluation a group taller than an empty
/// column is oversize. A fill that would not advance the flow contradicts
/// progress.
fn evaluate_page(
    layout: &StagingColumnsLayout,
    page_index: u32,
    entry_position: u32,
    target_height: i64,
    full_height_evaluation: bool,
) -> (r: Result<EvaluatedPage, StagingColumnsPaginationError>)
    ensures
        r matches Ok(ev) ==> evaluated_shape(*layout, page_index, entry_position, target_height, ev),
        fill_representable(*layout, target_height) && (full_height_evaluation ==> groups_fit(
            layout.blocks@,
            target_height,
        )) ==> r is Ok,
        fills_first_column(*layout, entry_position, target_height) && (full_height_evaluation ==> groups_fit(
            layout.blocks@,
            target_height,
        )) ==> (r matches Ok(ev) && ev.terminal && ev.rejections@.len() == 0 && ev.after_position
            == layout.blocks@.len()),
        fill_representable(*layout, target_height) && (full_height_evaluation ==> groups_fit(
            layout.blocks@,
            target_height,
        )) ==> (r matches Ok(ev) && columns_greedy(layout.blocks@, ev.frames@, target_height as int)),
        fill_representable(*layout, target_height) && (full_height_evaluation ==> groups_fit(
            layout.blocks@,
            target_height,
        )) && columns_placeable(layout.columns@, target_height) ==> (r matches Ok(ev) && (forall|i: int|
            0 <= i < ev.fragments@.len() ==> fragment_fits_frames(
                #[trigger] ev.fragments@[i],
                ev.frames@,
                page_index,
            )) && ev.fragments@.len() + entry_position <= ev.after_position),
        fill_representable(*layout, target_height) && (full_height_evaluation ==> groups_fit(
            layout.blocks@,
            target_height,
        )) ==> (r matches Ok(ev) && ev.fragments@.len() == positive_blocks(
            layout.blocks@,
            entry_position as int,
            ev.after_position as int,
        )),
        r matches Ok(ev) ==> (fill_representable(*layout, target_height) && (full_height_evaluation ==> groups_fit(
            layout.blocks@,
            target_height,
        )) && unforced_span(layout.blocks@, entry_position as int, ev.after_position as int) ==> ev.positive_extent
            == extent_sum(layout.blocks@, entry_position as int, ev.after_position as int)),
{
    let ghost ok = fill_representable(*layout, target_height) && (full_height_evaluation ==> groups_fit(
        layout.blocks@,
        target_height,
    ));
    let ghost all = ok && fills_first_column(*layout, entry_position, target_height);
    let ghost place = ok && columns_placeable(layout.columns@, target_height);
    let ghost total = extent_sum(layout.blocks@, 0, layout.blocks@.len() as int);
    if layout.blocks.len() > u32::MAX as usize {
        return Err(StagingColumnsPaginationError::ArithmeticOverflow);
    }
    let terminal = layout.blocks.len() as u32;
    let mut cursor = entry_position;
    let mut frames: Vec<StagingSelectedAdvancedFrame> = Vec::new();
    let mut fragments: Vec<StagingColumnFragment> = Vec::new();
    let mut rejections: Vec<StagingColumnRejectionReceipt> = Vec::new();
    let mut positive_extent: i64 = 0;
    let mut forced_page_boundary = false;
    let mut k: usize = 0;
    proof {
        if ok && cursor <= terminal {
            lemma_extent_sum_within(layout.blocks@, cursor as int, layout.blocks@.len() as int);
        }
    }
    while k < layout.columns.len()
        invariant
            0 <= k <= layout.columns@.len(),
            terminal == layout.blocks@.len(),
            layout.blocks@.len() <= u32::MAX,
            frames@.len() == k,
            k > 0 ==> frames@[0].before_position.ordinal == entry_position && frames@.last().after_position.ordinal
                == cursor,
            k == 0 ==> cursor == entry_position,
            forall|j: int| 0 <= j < k ==> #[trigger] frames@[j] == column_frame(
                layout.columns@[j],
                target_height,
                frames@[j].before_position.ordinal,
                frames@[j].after_position.ordinal,
                terminal,
            ),
            frames_chained(frames@),
            forall|i: int| #![trigger rejections@[i]] 0 <= i < rejections@.len() ==> rejections@[i].deficit > 0,
            forall|i: int| #![trigger fragments@[i]] 0 <= i < fragments@.len() ==> fragments@[i].page_index == page_index
                && fragments@[i].bounds.height > 0,
            positive_extent >= 0,
            ok && unforced_span(layout.blocks@, entry_position as int, cursor as int) ==> positive_extent == extent_sum(
                layout.blocks@,
                entry_position as int,
                cursor as int,
            ),
            ok == (fill_representable(*layout, target_height) && (full_height_evaluation ==> groups_fit(
                layout.blocks@,
                target_height,
            ))),
            total == extent_sum(layout.blocks@, 0, layout.blocks@.len() as int),
            ok ==> (cursor > terminal ==> positive_extent == 0) && (cursor <= terminal ==> positive_extent
                <= extent_sum(layout.blocks@, 0, cursor as int)),
            all == (ok && fills_first_column(*layout, entry_position, target_height)),
            all ==> rejections@.len() == 0 && !forced_page_boundary && (k == 0 ==> cursor == entry_position) && (k
                > 0 ==> cursor == terminal),
            ok ==> forced_page_boundary == forced_before(layout.blocks@, frames@, target_height as int, k as int)
                && columns_greedy(layout.blocks@, frames@, target_height as int),
            place == (ok && columns_placeable(layout.columns@, target_height)),
            ok ==> entry_position <= cursor && fragments@.len() == positive_blocks(
                layout.blocks@,
                entry_position as int,
                cursor as int,
            ),
            place ==> fragments@.len() + entry_position <= cursor && forall|i: int|
                0 <= i < fragments@.len() ==> (#[trigger] fragments@[i]).column_index < k && fragment_fits_frames(
                    fragments@[i],
                    frames@,
                    page_index,
                ),
        decreases layout.columns.len() - k,
    {
        let column = layout.columns[k];
        let before = cursor;
        let ghost forced_at_start = forced_page_boundary;
        let frame_rect = Rect { x: column.rect.x, y: column.rect.y, width: column.rect.width, height: target_height };
        let mut used: i64 = 0;
        proof {
            if ok && cursor <= terminal {
                lemma_extent_sum_within(layout.blocks@, cursor as int, layout.blocks@.len() as int);
            }
        }
        if !forced_page_boundary && cursor < terminal {
            loop
                invariant_except_break
                    cursor < terminal,
                    ok ==> !forced_page_boundary && column_stop(layout.blocks@, before as int, 0, target_height as int)
                        == column_stop(layout.blocks@, cursor as int, used as int, target_height as int),
                invariant
                    terminal == layout.blocks@.len(),
                    used >= 0,
                    positive_extent >= 0,
                    ok && unforced_span(layout.blocks@, entry_position as int, cursor as int) ==> positive_extent == extent_sum(
                        layout.blocks@,
                        entry_position as int,
                        cursor as int,
                    ),
                    ok == (fill_representable(*layout, target_height) && (full_height_evaluation ==> groups_fit(
                        layout.blocks@,
                        target_height,
                    ))),
                    total == extent_sum(layout.blocks@, 0, layout.blocks@.len() as int),
                    k < layout.columns@.len(),
                    column == layout.columns@[k as int],
                    frame_rect.y == column.rect.y,
                    ok ==> cursor <= terminal && used <= extent_sum(layout.blocks@, 0, cursor as int)
                        && positive_extent <= extent_sum(layout.blocks@, 0, cursor as int),
                    all == (ok && fills_first_column(*layout, entry_position, target_height)),
                    all ==> k == 0 && rejections@.len() == 0 && !forced_page_boundary && entry_position <= cursor
                        && used == extent_sum(layout.blocks@, entry_position as int, cursor as int),
                    place == (ok && columns_placeable(layout.columns@, target_height)),
                    frames@.len() == k,
                    frame_rect == (Rect {
                        x: column.rect.x,
                        y: column.rect.y,
                        width: column.rect.width,
                        height: target_height,
                    }),
                    ok ==> entry_position <= cursor && fragments@.len() == positive_blocks(
                        layout.blocks@,
                        entry_position as int,
                        cursor as int,
                    ),
                    place ==> before <= cursor && fragments@.len() + entry_position <= cursor && forall|i: int|
                        0 <= i < fragments@.len() ==> fragment_so_far(
                            #[trigger] fragments@[i],
                            frames@,
                            page_index,
                            k as int,
                            column,
                            frame_rect,
                            before as int,
                            cursor as int,
                        ),
                    forall|i: int| #![trigger rejections@[i]] 0 <= i < rejections@.len() ==> rejections@[i].deficit > 0,
                    forall|i: int| #![trigger fragments@[i]] 0 <= i < fragments@.len() ==> fragments@[i].page_index == page_index
                        && fragments@[i].bounds.height > 0,
                ensures
                    all ==> cursor == terminal && rejections@.len() == 0 && !forced_page_boundary,
                    ok ==> column_stop(layout.blocks@, before as int, 0, target_height as int) == (
                        cursor as int,
                        forced_page_boundary,
                    ),
                decreases terminal - cursor,
            {
                let block_index = cursor as usize;
                let block = layout.blocks[block_index];
                proof {
                    if all {
                        assert(!layout.blocks@[block_index as int].forced_page_break);
                    }
                }
                if block.forced_page_break {
                    cursor = block.after_position;
                    forced_page_boundary = true;
                    proof {
                        if ok {
                            assert(cursor == block_index + 1);
                            lemma_extent_sum_within(layout.blocks@, block_index as int, block_index + 1);
                        }
                    }
                    break;
                }
                proof {
                    if ok {
                        lemma_extent_sum_within(layout.blocks@, block_index as int, layout.blocks@.len() as int);
                        lemma_group_scan_total(layout.blocks@, block_index as int, 0);
                    }
                }
                let (group_end, group_extent) = match group_extent(layout.blocks.as_slice(), block_index) {
                    Ok(g) => g,
                    Err(e) => return Err(e),
                };
                proof {
                    if ok {
                        let (e2, x) = group_scan(layout.blocks@, block_index as int, 0)->Ok_0;
                        lemma_extent_sum_within(layout.blocks@, block_index as int, e2);
                        lemma_extent_sum_within(layout.blocks@, e2, layout.blocks@.len() as int);
                        assert(group_end == e2);
                        assert(group_extent == extent_sum(layout.blocks@, block_index as int, group_end as int));
                    }
                }
                let required = match used.checked_add(group_extent) {
                    Some(v) => v,
                    None => return Err(StagingColumnsPaginationError::ArithmeticOverflow),
                };
                proof {
                    if all {
                        lemma_extent_sum_split(
                            layout.blocks@,
                            entry_position as int,
                            block_index as int,
                            group_end as int,
                        );
                        lemma_extent_sum_split(
                            layout.blocks@,
                            entry_position as int,
                            group_end as int,
                            layout.blocks@.len() as int,
                        );
                        lemma_extent_sum_nonneg(layout.blocks@, group_end as int, layout.blocks@.len() as int);
                        assert(required <= target_height);
                    }
                }
                if required > target_height {
                    if full_height_evaluation && used == 0 && group_extent > target_height {
                        assert(!ok) by {
                            if ok {
                                assert(group_spec(layout.blocks@, block_index as int) is Ok);
                            }
                        }
                        return Err(StagingColumnsPaginationError::Oversize(block.node_id));
                    }
                    let deficit = match required.checked_sub(target_height) {
                        Some(v) => v,
                        None => return Err(StagingColumnsPaginationError::ProgressContradiction),
                    };
                    rejections.push(
                        StagingColumnRejectionReceipt {
                            column_index: column.column_index,
                            position: StagingAdvancedFlowPosition { flow_id: DOCUMENT_BODY_FLOW, ordinal: cursor },
                            blocked_node_id: block.node_id,
                            deficit,
                        },
                    );
                    proof {
                        if ok {
                            assert(column_stop(layout.blocks@, cursor as int, used as int, target_height as int) == (
                                cursor as int,
                                false,
                            ));
                        }
                    }
                    break;
                }
                proof {
                    if ok {
                        assert(column_stop(layout.blocks@, cursor as int, used as int, target_height as int)
                            == column_stop(layout.blocks@, group_end as int, used + group_extent, target_height as int));
                    }
                }
                proof {
                    if ok {
                        lemma_group_scan_unforced(layout.blocks@, block_index as int, 0);
                    }
                }
                let ghost used_before_group = used as int;
                let start_cursor = cursor;
                let mut source_index = block_index;
                while source_index < group_end
                    invariant
                        block_index <= source_index <= group_end,
                        group_end <= layout.blocks@.len(),
                        used >= 0,
                        positive_extent >= 0,
                        ok && unforced_span(layout.blocks@, entry_position as int, cursor as int) ==> positive_extent == extent_sum(
                            layout.blocks@,
                            entry_position as int,
                            cursor as int,
                        ),
                        terminal == layout.blocks@.len(),
                        ok == (fill_representable(*layout, target_height) && (full_height_evaluation ==> groups_fit(
                            layout.blocks@,
                            target_height,
                        ))),
                        total == extent_sum(layout.blocks@, 0, layout.blocks@.len() as int),
                        k < layout.columns@.len(),
                        column == layout.columns@[k as int],
                        frame_rect.y == column.rect.y,
                        all == (ok && fills_first_column(*layout, entry_position, target_height)),
                        all ==> k == 0 && rejections@.len() == 0 && !forced_page_boundary && entry_position
                            <= source_index && used == extent_sum(
                            layout.blocks@,
                            entry_position as int,
                            source_index as int,
                        ),
                        ok ==> used == used_before_group + extent_sum(
                            layout.blocks@,
                            block_index as int,
                            source_index as int,
                        ),
                        place == (ok && columns_placeable(layout.columns@, target_height)),
                        frames@.len() == k,
                        frame_rect == (Rect {
                            x: column.rect.x,
                            y: column.rect.y,
                            width: column.rect.width,
                            height: target_height,
                        }),
                        ok ==> used_before_group + group_extent <= target_height && group_extent == extent_sum(
                            layout.blocks@,
                            block_index as int,
                            group_end as int,
                        ),
                        ok ==> entry_position <= source_index && fragments@.len() == positive_blocks(
                            layout.blocks@,
                            entry_position as int,
                            source_index as int,
                        ) && forall|t: int|
                            block_index <= t < group_end ==> !(#[trigger] layout.blocks@[t]).forced_page_break,
                        place ==> before <= block_index && fragments@.len() + entry_position <= source_index
                            && forall|i: int|
                            0 <= i < fragments@.len() ==> fragment_so_far(
                                #[trigger] fragments@[i],
                                frames@,
                                page_index,
                                k as int,
                                column,
                                frame_rect,
                                before as int,
                                source_index as int,
                            ),
                        ok ==> cursor == source_index && used <= extent_sum(layout.blocks@, 0, source_index as int)
                            && positive_extent <= extent_sum(layout.blocks@, 0, source_index as int) && extent_sum(
                            layout.blocks@,
                            0,
                            source_index as int,
                        ) <= total,
                        forall|i: int| #![trigger fragments@[i]] 0 <= i < fragments@.len() ==> fragments@[i].page_index
                            == page_index && fragments@[i].bounds.height > 0,
                    decreases group_end - source_index,
                {
                    let source = layout.blocks[source_index];
                    proof {
                        if ok {
                            lemma_extent_sum_within(layout.blocks@, source_index as int, source_index + 1);
                            lemma_extent_sum_within(layout.blocks@, source_index + 1, layout.blocks@.len() as int);
                            assert(extent_sum(layout.blocks@, source_index as int, source_index + 1)
                                == source.block_extent);
                            assert(layout.columns@[k as int].rect.y + total <= i64::MAX);
                        }
                    }
                    proof {
                        if place {
                            lemma_extent_sum_split(
                                layout.blocks@,
                                block_index as int,
                                source_index + 1,
                                group_end as int,
                            );
                            lemma_extent_sum_nonneg(layout.blocks@, source_index + 1, group_end as int);
                            lemma_extent_sum_nonneg(layout.blocks@, block_index as int, source_index as int);
                            assert(extent_sum(layout.blocks@, block_index as int, source_index + 1) == extent_sum(
                                layout.blocks@,
                                block_index as int,
                                source_index as int,
                            ) + source.block_extent);
                            assert(used + source.block_extent <= target_height);
                            assert(layout.columns@[k as int].column_index == k);
                            assert(source.before_position == source_index && source.after_position == source_index
                                + 1);
                        }
                    }
                    let ghost frags_before = fragments@;
                    if source.block_extent > 0 {
                        let y = match frame_rect.y.checked_add(used) {
                            Some(v) => v,
                            None => return Err(StagingColumnsPaginationError::Geometry),
                        };
                        fragments.push(
                            StagingColumnFragment {
                                page_index,
                                column_index: column.column_index,
                                frame_flow_id: column.frame_flow_id,
                                source_flow_id: DOCUMENT_BODY_FLOW,
                                block_node_id: source.node_id,
                                before_position: source.before_position,
                                after_position: source.after_position,
                                bounds: Rect { x: frame_rect.x, y, width: frame_rect.width, height: source.block_extent },
                            },
                        );
                        used = match used.checked_add(source.block_extent) {
                            Some(v) => v,
                            None => return Err(StagingColumnsPaginationError::ArithmeticOverflow),
                        };
                        positive_extent = match positive_extent.checked_add(source.block_extent) {
                            Some(v) => v,
                            None => return Err(StagingColumnsPaginationError::ArithmeticOverflow),
                        };
                    }
                    cursor = source.after_position;
                    source_index = source_index + 1;
                }
                proof {
                    if ok {
                        assert(used == used_before_group + group_extent);
                        assert(column_stop(layout.blocks@, before as int, 0, target_height as int) == column_stop(
                            layout.blocks@,
                            cursor as int,
                            used as int,
                            target_height as int,
                        ));
                        if cursor >= terminal {
                            assert(column_stop(layout.blocks@, cursor as int, used as int, target_height as int) == (
                                cursor as int,
                                false,
                            ));
                        }
                    }
                }
                // Block positions advance with the blocks; a group that does
                // not move the cursor forward would fill forever.
                if cursor <= start_cursor {
                    return Err(StagingColumnsPaginationError::ProgressContradiction);
                }
                if cursor >= terminal {
                    break;
                }
            }
        }
        proof {
            if ok && !forced_at_start && cursor >= terminal && before >= terminal {
                assert(column_stop(layout.blocks@, before as int, 0, target_height as int) == (before as int, false));
            }
        }
        let ghost previous = frames@;
        frames.push(
            StagingSelectedAdvancedFrame {
                kind: StagingAdvancedPageFrameKind::Body,
                column_index: Some(column.column_index),
                frame_flow_id: column.frame_flow_id,
                source_flow_id: DOCUMENT_BODY_FLOW,
                rect: frame_rect,
                before_position: StagingAdvancedFlowPosition { flow_id: DOCUMENT_BODY_FLOW, ordinal: before },
                after_position: StagingAdvancedFlowPosition { flow_id: DOCUMENT_BODY_FLOW, ordinal: cursor },
                terminal: cursor == terminal,
                repetition_index: None,
            },
        );
        assert forall|j: int| 0 < j < frames@.len() implies #[trigger] chained_at(frames@, j) by {
            if j < k {
                assert(chained_at(previous, j));
            }
        }
        proof {
            if ok {
                let blocks = layout.blocks@;
                let t = target_height as int;
                assert forall|j: int| 0 <= j <= k implies forced_before(blocks, frames@, t, j) == forced_before(
                    blocks,
                    previous,
                    t,
                    j,
                ) by {
                    lemma_forced_before_prefix(blocks, previous, frames@.last(), t, j);
                }
                assert(frames@[k as int].before_position.ordinal == before);
                assert(forced_before(blocks, frames@, t, k + 1) == (forced_before(blocks, frames@, t, k as int)
                    || column_stop(blocks, before as int, 0, t).1));
                assert forall|j: int| 0 <= j < frames@.len() implies (#[trigger] frames@[j]).after_position.ordinal
                    == (if forced_before(blocks, frames@, t, j) {
                    frames@[j].before_position.ordinal as int
                } else {
                    column_stop(blocks, frames@[j].before_position.ordinal as int, 0, t).0
                }) by {
                    if j < k {
                        assert(frames@[j] == previous[j]);
                    }
                }
            }
        }
        k = k + 1;
    }
    Ok(
        EvaluatedPage {
            frames,
            fragments,
            rejections,
            after_position: cursor,
            terminal: cursor == terminal,
            positive_extent,
        },
    )
}


/// Record a rejection state; a state seen before means the balance search
/// oscillates.
pub fn record_rejection_state(history: &mut Vec<[u8; 32]>, rejections: &[StagingColumnRejectionReceipt]) -> (r:
    Result<(), StagingColumnsPaginationError>)
    ensures
        r is Ok <==> forall|i: int| 0 <= i < old(history)@.len() ==> #[trigger] old(history)@[i]@
            != text_fingerprint(rejections_text(rejections@)),
        r is Ok ==> final(history)@.len() == old(history)@.len() + 1 && final(history)@.last()@
            == text_fingerprint(rejections_text(rejections@)) && final(history)@.drop_last() == old(history)@,
        r matches Err(e) ==> e == StagingColumnsPaginationError::BalanceOscillation,
{
    let state = rejections_fingerprint(rejections);
    let mut index: usize = 0;
    while index < history.len()
        invariant
            0 <= index <= history@.len(),
            history@ == old(history)@,
            state@ == text_fingerprint(rejections_text(rejections@)),
            forall|i: int| 0 <= i < index ==> #[trigger] history@[i]@ != state@,
        decreases history.len() - index,
    {
        if fingerprint_eq(&history[index], &state) {
            assert(old(history)@[index as int]@ == state@);
            return Err(StagingColumnsPaginationError::BalanceOscillation);
        }
        index = index + 1;
    }
    history.push(state);
    assert(history@.drop_last() =~= old(history)@);
    Ok(())
}

/// Rejection `a` orders before `b`: by deficit, then column, then position.
pub open spec fn rejection_before(a: StagingColumnRejectionReceipt, b: StagingColumnRejectionReceipt) -> bool {
    a.deficit < b.deficit || (a.deficit == b.deficit && (a.column_index < b.column_index || (a.column_index
        == b.column_index && a.position.ordinal < b.position.ordinal)))
}

/// The first rejection with the least (deficit, column, position).
fn least_rejection(rejections: &Vec<StagingColumnRejectionReceipt>) -> (least: usize)
    requires
        rejections@.len() > 0,
    ensures
        least < rejections@.len(),
        forall|i: int| 0 <= i < least ==> rejection_before(rejections@[least as int], #[trigger] rejections@[i]),
        forall|i: int| least < i < rejections@.len() ==> !rejection_before(
            #[trigger] rejections@[i],
            rejections@[least as int],
        ),
{
    let mut least: usize = 0;
    let mut index: usize = 1;
    while index < rejections.len()
        invariant
            0 <= least < index <= rejections@.len(),
            forall|i: int| 0 <= i < least ==> rejection_before(rejections@[least as int], #[trigger] rejections@[i]),
            forall|i: int| least < i < index ==> !rejection_before(
                #[trigger] rejections@[i],
                rejections@[least as int],
            ),
        decreases rejections.len() - index,
    {
        let a = rejections[index];
        let b = rejections[least];
        if a.deficit < b.deficit || (a.deficit == b.deficit && (a.column_index < b.column_index || (
        a.column_index == b.column_index && a.position.ordinal < b.position.ordinal))) {
            least = index;
        }
        index = index + 1;
    }
    least
}

fn copy_rejections(rejections: &Vec<StagingColumnRejectionReceipt>) -> (copy: Vec<StagingColumnRejectionReceipt>)
    ensures
        copy@ == rejections@,
{
    let mut copy: Vec<StagingColumnRejectionReceipt> = Vec::new();
    let mut index: usize = 0;
    while index < rejections.len()
        invariant
            0 <= index <= rejections@.len(),
            copy@ == rejections@.take(index as int),
        decreases rejections.len() - index,
    {
        copy.push(rejections[index]);
        assert(rejections@.take(index as int + 1) =~= rejections@.take(index as int).push(rejections@[index as int]));
        index = index + 1;
    }
    assert(rejections@.take(rejections@.len() as int) =~= rejections@);
    copy
}

/// The first balance target: the positive extent spread evenly over the
/// columns, rounded up, at least one unit and at most the body height.
pub open spec fn first_balance_target(layout: StagingColumnsLayout, positive_extent: i64) -> int {
    let count = layout.columns@.len() as int;
    let spread = (positive_extent + count - 1) / count;
    if spread < 1 {
        1
    } else if spread > layout.body.height {
        layout.body.height as int
    } else {
        spread
    }
}

/// `d` is the least deficit among the rejections `rs`.
pub open spec fn least_deficit(rs: Seq<StagingColumnRejectionReceipt>, d: int) -> bool {
    &&& exists|i: int| 0 <= i < rs.len() && #[trigger] rs[i].deficit == d
    &&& forall|j: int| 0 <= j < rs.len() ==> d <= #[trigger] rs[j].deficit
}

/// The balance candidates of a search from `first`: the first candidate's
/// target is `first`, every candidate before the last one did not reach the
/// end, and each next target is the previous one raised by the least
/// deficit among the previous candidate's rejections.
pub open spec fn balance_chain(cs: Seq<StagingColumnBalanceCandidate>, first: int) -> bool {
    &&& cs.len() >= 1
    &&& cs[0].target_height == first
    &&& forall|i: int| 0 <= i < cs.len() - 1 ==> !(#[trigger] cs[i]).terminal && least_deficit(
        cs[i].rejections@,
        cs[i + 1].target_height - cs[i].target_height,
    )
}

/// Balance the last page: start from the positive extent spread evenly over
/// the columns (at least one unit, at most the body height), and raise the
/// target by the least deficit until a candidate reaches the end as the
/// full-height evaluation did. The search is bounded by the candidate limit
/// and refuses a repeated rejection state.
fn select_balanced_page(
    layout: &StagingColumnsLayout,
    page_index: u32,
    entry_position: u32,
    initial: &EvaluatedPage,
    limits: &PaginationLimits,
) -> (r: Result<(EvaluatedPage, Option<StagingColumnBalanceReceipt>), StagingColumnsPaginationError>)
    requires
        layout.columns@.len() > 0,
        initial.positive_extent >= 0,
    ensures
        r matches Ok((ev, balance)) ==> {
            &&& evaluated_shape(*layout, page_index, entry_position, ev.frames@.first().rect.height, ev)
            &&& ev.terminal
            &&& ev.after_position == initial.after_position
            &&& balance matches Some(b) && b.balance_valid() && b.spec_candidate_count()
                <= limits.max_column_balance_candidates && ev.frames@.first().rect.height
                == b.spec_selected_target_height() && balance_chain(
                b.spec_candidates(),
                first_balance_target(*layout, initial.positive_extent),
            )
            &&& fill_representable(*layout, layout.body.height) ==> columns_greedy(
                layout.blocks@,
                ev.frames@,
                ev.frames@.first().rect.height as int,
            )
            &&& fill_representable(*layout, layout.body.height) ==> ev.fragments@.len() == positive_blocks(
                layout.blocks@,
                entry_position as int,
                ev.after_position as int,
            )
            &&& fill_representable(*layout, layout.body.height) && layout.body.height >= 1 && columns_placeable(
                layout.columns@,
                layout.body.height,
            ) ==> forall|i: int|
                0 <= i < ev.fragments@.len() ==> fragment_fits_frames(
                    #[trigger] ev.fragments@[i],
                    ev.frames@,
                    page_index,
                )
        },
        limits.max_column_balance_candidates >= 1 && layout.columns@.len() <= i64::MAX && initial.positive_extent
            + layout.columns@.len() - 1 <= i64::MAX && layout.body.height >= 1 && initial.after_position
            == layout.blocks@.len() && fills_first_column(
            *layout,
            entry_position,
            first_balance_target(*layout, initial.positive_extent) as i64,
        ) ==> r is Ok,
{
    let ghost cond = limits.max_column_balance_candidates >= 1 && layout.columns@.len() <= i64::MAX
        && initial.positive_extent + layout.columns@.len() - 1 <= i64::MAX && layout.body.height >= 1
        && initial.after_position == layout.blocks@.len() && fills_first_column(
        *layout,
        entry_position,
        first_balance_target(*layout, initial.positive_extent) as i64,
    );
    if layout.columns.len() > i64::MAX as usize {
        proof {
            let len = layout.columns.len();
            assert(len <= 0x7fff_ffff_ffff_ffff ==> len <= (i64::MAX as usize)) by (bit_vector);
        }
        return Err(StagingColumnsPaginationError::ArithmeticOverflow);
    }
    let count = layout.columns.len() as i64;
    let full_height = layout.body.height;
    let spread = match initial.positive_extent.checked_add(count - 1) {
        Some(v) => {
            let q = v as u64 / count as u64;
            assert(q <= v) by (nonlinear_arith)
                requires
                    q == v as u64 / count as u64,
                    v >= 0,
                    count >= 1,
            ;
            q as i64
        },
        None => return Err(StagingColumnsPaginationError::ArithmeticOverflow),
    };
    assert(spread == (initial.positive_extent + layout.columns@.len() - 1) / (layout.columns@.len() as int));
    let clamped = if spread < 1 {
        1
    } else if spread > full_height {
        full_height
    } else {
        spread
    };
    if clamped <= 0 {
        return Err(StagingColumnsPaginationError::ArithmeticOverflow);
    }
    assert(clamped == first_balance_target(*layout, initial.positive_extent));
    let ghost first = first_balance_target(*layout, initial.positive_extent);
    let initial_fragments_sha256 = fragments_fingerprint(initial.fragments.as_slice());
    let mut target = clamped;
    let mut candidates: Vec<StagingColumnBalanceCandidate> = Vec::new();
    let mut history: Vec<[u8; 32]> = Vec::new();
    assert(cond ==> target == first_balance_target(*layout, initial.positive_extent));
    loop
        invariant
            layout.columns@.len() > 0,
            target > 0,
            forall|i: int| 0 <= i < candidates@.len() ==> #[trigger] candidates@[i].candidate_index == i + 1,
            cond == (limits.max_column_balance_candidates >= 1 && layout.columns@.len() <= i64::MAX
                && initial.positive_extent + layout.columns@.len() - 1 <= i64::MAX && layout.body.height >= 1
                && initial.after_position == layout.blocks@.len() && fills_first_column(
                *layout,
                entry_position,
                first_balance_target(*layout, initial.positive_extent) as i64,
            )),
            cond ==> candidates@.len() == 0 && target == first_balance_target(*layout, initial.positive_extent),
            first == first_balance_target(*layout, initial.positive_extent),
            full_height == layout.body.height,
            layout.body.height >= 1 ==> target <= layout.body.height,
            candidates@.len() == 0 ==> target == first,
            candidates@.len() > 0 ==> candidates@[0].target_height == first && !candidates@.last().terminal
                && least_deficit(candidates@.last().rejections@, target - candidates@.last().target_height),
            forall|i: int| 0 <= i < candidates@.len() - 1 ==> !(#[trigger] candidates@[i]).terminal && least_deficit(
                candidates@[i].rejections@,
                candidates@[i + 1].target_height - candidates@[i].target_height,
            ),
        decreases limits.max_column_balance_candidates - candidates@.len(),
    {
        if candidates.len() >= limits.max_column_balance_candidates as usize {
            return Err(StagingColumnsPaginationError::BalanceLimit);
        }
        let evaluated = match evaluate_page(layout, page_index, entry_position, target, false) {
            Ok(ev) => ev,
            Err(e) => return Err(e),
        };
        if candidates.len() >= u32::MAX as usize {
            return Err(StagingColumnsPaginationError::ArithmeticOverflow);
        }
        let candidate_index = (candidates.len() + 1) as u32;
        let candidate = StagingColumnBalanceCandidate {
            candidate_index,
            target_height: target,
            after_position: StagingAdvancedFlowPosition {
                flow_id: DOCUMENT_BODY_FLOW,
                ordinal: evaluated.after_position,
            },
            terminal: evaluated.terminal,
            rejections: copy_rejections(&evaluated.rejections),
        };
        if evaluated.terminal {
            if evaluated.after_position != initial.after_position {
                return Err(StagingColumnsPaginationError::ProgressContradiction);
            }
            let ghost before = candidates@;
            candidates.push(candidate);
            assert forall|i: int| 0 <= i < candidates@.len() - 1 implies !(#[trigger] candidates@[i]).terminal
                && least_deficit(
                candidates@[i].rejections@,
                candidates@[i + 1].target_height - candidates@[i].target_height,
            ) by {
                assert(candidates@[i] == before[i]);
                if i + 1 < before.len() {
                    assert(candidates@[i + 1] == before[i + 1]);
                }
            }
            assert(balance_chain(candidates@, first));
            let input_jcs = encode_balance_input(
                layout,
                page_index,
                entry_position,
                &initial_fragments_sha256,
                candidates.as_slice(),
            );
            let input_sha256 = fingerprint_text(&input_jcs);
            let canonical_jcs = encode_balance_receipt(&input_sha256, target, candidates.as_slice());
            let receipt_sha256 = fingerprint_text(&canonical_jcs);
            let receipt = StagingColumnBalanceReceipt {
                input_sha256,
                candidate_count: candidate_index,
                selected_target_height: target,
                receipt_sha256,
                candidates,
                canonical_jcs,
            };
            if !receipt.verify() {
                return Err(StagingColumnsPaginationError::ProgressContradiction);
            }
            return Ok((evaluated, Some(receipt)));
        }
        if evaluated.rejections.len() == 0 {
            return Err(StagingColumnsPaginationError::ProgressContradiction);
        }
        match record_rejection_state(&mut history, evaluated.rejections.as_slice()) {
            Ok(()) => {},
            Err(e) => return Err(e),
        }
        let least = least_rejection(&evaluated.rejections);
        assert(least_deficit(evaluated.rejections@, evaluated.rejections@[least as int].deficit as int)) by {
            assert forall|j: int| 0 <= j < evaluated.rejections@.len() implies evaluated.rejections@[least as int].deficit
                <= #[trigger] evaluated.rejections@[j].deficit by {
                if j < least {
                    assert(rejection_before(evaluated.rejections@[least as int], evaluated.rejections@[j]));
                } else if j > least {
                    assert(!rejection_before(evaluated.rejections@[j], evaluated.rejections@[least as int]));
                }
            }
        }
        let next = match target.checked_add(evaluated.rejections[least].deficit) {
            Some(v) => v,
            None => return Err(StagingColumnsPaginationError::ProgressContradiction),
        };
        if next <= target || next > full_height {
            return Err(StagingColumnsPaginationError::ProgressContradiction);
        }
        let ghost before = candidates@;
        candidates.push(candidate);
        assert forall|i: int| 0 <= i < candidates@.len() - 1 implies !(#[trigger] candidates@[i]).terminal && least_deficit(
            candidates@[i].rejections@,
            candidates@[i + 1].target_height - candidates@[i].target_height,
        ) by {
            assert(candidates@[i] == before[i]);
            if i + 1 < before.len() {
                assert(candidates@[i + 1] == before[i + 1]);
            }
        }
        target = next;
    }
}

/// Frame `j` of a columns page is column `j`'s template at the page's
/// height: its index, flow, position and width.
pub open spec fn frames_follow_columns(
    frames: Seq<StagingSelectedAdvancedFrame>,
    columns: Seq<StagingColumnLayout>,
    height: i64,
) -> bool {
    &&& frames.len() == columns.len()
    &&& forall|j: int|
        0 <= j < frames.len() ==> #[trigger] frames[j].column_index == Some(columns[j].column_index)
            && frames[j].frame_flow_id == columns[j].frame_flow_id && frames[j].rect == (Rect {
            x: columns[j].rect.x,
            y: columns[j].rect.y,
            width: columns[j].rect.width,
            height,
        })
}

/// The height of a columns page: the selected balance target on a balanced
/// page, the body height otherwise.
pub open spec fn page_height(page: StagingColumnsSelectedPage, layout: StagingColumnsLayout) -> i64 {
    match page.balance {
        Some(b) => b.spec_selected_target_height(),
        None => layout.body.height,
    }
}

/// Paginate a columns layout: pages are filled in turn from the current
/// flow position at the body height; when balancing is on (more than one
/// column, last-page balance) the final page with content is balanced. Page,
/// selected-record and balance-candidate limits are inclusive. The result is
/// checked against its own receipt before it is returned.
pub fn paginate_staging_columns(layout: &StagingColumnsLayout, limits: &PaginationLimits) -> (r: Result<
    StagingColumnsSelectedLayout,
    StagingColumnsPaginationError,
>)
    ensures
        layout.columns@.len() == 0 ==> r == Err::<StagingColumnsSelectedLayout, StagingColumnsPaginationError>(
            StagingColumnsPaginationError::EmptyColumns,
        ),
        layout.columns@.len() > 0 && columns_boxes(*layout) is Err ==> r == Err::<
            StagingColumnsSelectedLayout,
            StagingColumnsPaginationError,
        >(StagingColumnsPaginationError::Geometry),
        layout.columns@.len() > 0 && columns_boxes(*layout) is Ok && columns_margins(*layout) is Err ==> r
            == Err::<StagingColumnsSelectedLayout, StagingColumnsPaginationError>(
            StagingColumnsPaginationError::Geometry,
        ),
        columns_pagination_owed(*layout, *limits) ==> r is Ok,
        columns_pagination_plain(*layout) ==> match columns_pages_refusal(*layout, *limits, 0, 0, 0) {
            Some(e) => r == Err::<StagingColumnsSelectedLayout, StagingColumnsPaginationError>(e),
            None => r is Ok,
        },
        columns_fill_plain(*layout) ==> match columns_refusal_before_last(*layout, *limits, 0, 0, 0) {
            Some(e) => r == Err::<StagingColumnsSelectedLayout, StagingColumnsPaginationError>(e),
            None => true,
        },
        columns_fill_plain(*layout) && r is Ok ==> columns_pages_refusal(*layout, *limits, 0, 0, 0) is None,
        columns_pagination_owed_balanced(*layout, *limits) ==> r is Ok,
        r matches Ok(selected) ==> {
            &&& selected.receipt_valid()
            &&& selected.spec_pages().len() <= limits.max_pages
            &&& selected.spec_receipt().spec_profile_receipt_sha256() == layout.profile_receipt_sha256@
            &&& selected.spec_receipt().spec_flow_registry_sha256() == layout.flow_registry_sha256@
            &&& forall|k: int| 0 <= k < selected.spec_pages().len() ==> {
                &&& (#[trigger] selected.spec_pages()[k]).master_id@ == layout.master_id@
                &&& frames_follow_columns(
                    selected.spec_pages()[k].frames@,
                    layout.columns@,
                    page_height(selected.spec_pages()[k], *layout),
                )
                &&& Ok::<StagingSelectedPageBoxes, StagingColumnsPaginationError>(selected.spec_pages()[k].boxes)
                    == columns_boxes(*layout)
                &&& Ok::<StagingPageMargins, StagingColumnsPaginationError>(selected.spec_pages()[k].margins)
                    == columns_margins(*layout)
                &&& fill_representable(*layout, layout.body.height) && groups_fit(layout.blocks@, layout.body.height)
                    ==> columns_greedy(
                    layout.blocks@,
                    selected.spec_pages()[k].frames@,
                    page_height(selected.spec_pages()[k], *layout) as int,
                )
            }
        },
{
    if layout.columns.len() == 0 {
        return Err(StagingColumnsPaginationError::EmptyColumns);
    }
    let boxes = match derive_boxes(layout) {
        Ok(b) => b,
        Err(e) => return Err(e),
    };
    let margins = match derive_margins(layout) {
        Ok(m) => m,
        Err(e) => return Err(e),
    };
    let full_height = layout.body.height;
    let balance_enabled = layout.balance_last_page && layout.columns.len() > 1;
    let mut pages: Vec<StagingColumnsSelectedPage> = Vec::new();
    let mut cursor: u32 = 0;
    let mut selected_records: u64 = 0;
    let ghost owed = columns_pagination_owed(*layout, *limits);
    let ghost plain = columns_pagination_plain(*layout);
    let ghost fp = columns_fill_plain(*layout);
    let ghost ob = columns_pagination_owed_balanced(*layout, *limits);
    let ghost vp = plain || ob;
    let ghost n = layout.blocks@.len() as int;
    let ghost c = layout.columns@.len() as int;
    assert(owed ==> plain);
    loop
        invariant_except_break
            owed ==> pages@.len() <= cursor,
            vp ==> forall|k: int|
                0 <= k < pages@.len() ==> #[trigger] columns_page_valid(pages@, k) && pages@[k].balance is None,
            fp ==> columns_final_entry(*layout, 0) == columns_final_entry(*layout, cursor as int),
            fp ==> columns_pages_refusal(*layout, *limits, 0, 0, 0) == columns_pages_refusal(
                *layout,
                *limits,
                pages@.len() as int,
                cursor as int,
                selected_records as int,
            ),
            fp ==> columns_refusal_before_last(*layout, *limits, 0, 0, 0) == columns_refusal_before_last(
                *layout,
                *limits,
                pages@.len() as int,
                cursor as int,
                selected_records as int,
            ),
            fp ==> cursor <= n,
        invariant
            fp == columns_fill_plain(*layout),
            plain == (fp && !balance_enabled),
            ob == columns_pagination_owed_balanced(*layout, *limits),
            vp == (plain || ob),
            ob ==> fp,
            owed == columns_pagination_owed(*layout, *limits),
            plain == columns_pagination_plain(*layout),
            owed ==> plain,
            n == layout.blocks@.len(),
            c == layout.columns@.len(),
            balance_enabled == (layout.balance_last_page && layout.columns@.len() > 1),
            owed ==> selected_records <= pages@.len() * c + cursor,
            fp ==> cursor <= n,
            fp ==> cursor == page_entry(pages@, pages@.len() as int),
            layout.columns@.len() > 0,
            full_height == layout.body.height,
            pages@.len() <= limits.max_pages,
            Ok::<StagingSelectedPageBoxes, StagingColumnsPaginationError>(boxes) == columns_boxes(*layout),
            Ok::<StagingPageMargins, StagingColumnsPaginationError>(margins) == columns_margins(*layout),
            forall|k: int| 0 <= k < pages@.len() ==> {
                &&& (#[trigger] pages@[k]).master_id@ == layout.master_id@
                &&& frames_follow_columns(pages@[k].frames@, layout.columns@, page_height(pages@[k], *layout))
                &&& pages@[k].boxes == boxes
                &&& pages@[k].margins == margins
                &&& fill_representable(*layout, layout.body.height) && groups_fit(layout.blocks@, layout.body.height)
                    ==> columns_greedy(layout.blocks@, pages@[k].frames@, page_height(pages@[k], *layout) as int)
            },
        ensures
            vp ==> pages@.len() > 0 && pages@.last().frames@.last().terminal && forall|k: int|
                0 <= k < pages@.len() ==> #[trigger] columns_page_valid(pages@, k),
            plain ==> columns_pages_refusal(*layout, *limits, 0, 0, 0) is None,
            fp ==> columns_pages_refusal(*layout, *limits, 0, 0, 0) is None,
            fp ==> columns_refusal_before_last(*layout, *limits, 0, 0, 0) is None,
        decreases limits.max_pages - pages@.len(),
    {
        if pages.len() >= limits.max_pages as usize {
            return Err(StagingColumnsPaginationError::PageLimit);
        }
        let page_index = pages.len() as u32;
        let initial = match evaluate_page(layout, page_index, cursor, full_height, true) {
            Ok(ev) => ev,
            Err(e) => return Err(e),
        };
        let ghost init_ev = initial;
        proof {
            if fp {
                let fr = init_ev.frames@;
                let t = layout.body.height as int;
                lemma_greedy_frames_advance(layout.blocks@, fr, t, fr.len() - 1);
                if cursor < n {
                    lemma_column_stop_takes(layout.blocks@, cursor as int, layout.body.height);
                    assert(!forced_before(layout.blocks@, fr, t, 0));
                    assert(fr[0].after_position.ordinal == column_stop(layout.blocks@, cursor as int, 0, t).0);
                }
                lemma_greedy_page_end(layout.blocks@, fr, t, fr.len() as int);
                assert(fill_columns(layout.blocks@, c, cursor as int, t).0 == init_ev.after_position);
            }
        }
        let (selected, balance) = if initial.terminal && initial.positive_extent > 0 && balance_enabled {
            match select_balanced_page(layout, page_index, cursor, &initial, limits) {
                Ok(choice) => choice,
                Err(e) => return Err(e),
            }
        } else {
            (initial, None)
        };
        proof {
            if fp {
                let fr = init_ev.frames@;
                let t = layout.body.height as int;
                assert(fr.len() == c);
                lemma_greedy_frames_advance(layout.blocks@, fr, t, fr.len() - 1);
                if cursor < n {
                    lemma_column_stop_takes(layout.blocks@, cursor as int, layout.body.height);
                    assert(!forced_before(layout.blocks@, fr, t, 0));
                    assert(fr[0].after_position.ordinal == column_stop(layout.blocks@, cursor as int, 0, t).0);
                }
                assert(init_ev.after_position == fr.last().after_position.ordinal);
                assert(cursor <= init_ev.after_position <= n);
                assert(cursor < n ==> cursor < init_ev.after_position);
                lemma_greedy_page_end(layout.blocks@, fr, t, fr.len() as int);
                assert(fill_columns(layout.blocks@, c, cursor as int, t).0 == init_ev.after_position);
                assert(selected.after_position == init_ev.after_position);
                assert(selected.frames@.len() == c);
                assert(selected.fragments@.len() == positive_blocks(
                    layout.blocks@,
                    cursor as int,
                    selected.after_position as int,
                ));
                assert(layout.columns@[c - 1].column_index == c - 1);
                if owed {
                    assert((pages@.len() + 1) * c <= (n + 1) * c) by (nonlinear_arith)
                        requires
                            pages@.len() <= n,
                            c >= 0,
                    ;
                    assert(pages@.len() * c + c == (pages@.len() + 1) * c) by (nonlinear_arith);
                }
            }
        }
        if !selected.terminal && selected.after_position <= cursor {
            return Err(StagingColumnsPaginationError::ProgressContradiction);
        }
        let page_records = match (selected.frames.len() as u64).checked_add(selected.fragments.len() as u64) {
            Some(v) => v,
            None => return Err(StagingColumnsPaginationError::ArithmeticOverflow),
        };
        match charge_fragments(&mut selected_records, page_records, limits) {
            Ok(()) => {},
            Err(e) => return Err(e),
        }
        proof {
            let h: i64 = if balance is Some {
                balance->0.spec_selected_target_height()
            } else {
                layout.body.height
            };
            assert(evaluated_shape(*layout, page_index, cursor, h, selected));
            assert forall|j: int| 0 <= j < selected.frames@.len() implies #[trigger] selected.frames@[j].column_index
                == Some(layout.columns@[j].column_index) && selected.frames@[j].frame_flow_id
                == layout.columns@[j].frame_flow_id && selected.frames@[j].rect == (Rect {
                x: layout.columns@[j].rect.x,
                y: layout.columns@[j].rect.y,
                width: layout.columns@[j].rect.width,
                height: h,
            }) by {
                assert(selected.frames@[j] == column_frame(
                    layout.columns@[j],
                    h,
                    selected.frames@[j].before_position.ordinal,
                    selected.frames@[j].after_position.ordinal,
                    layout.blocks@.len() as u32,
                ));
            }
        }
        cursor = selected.after_position;
        let terminal = selected.terminal;
        let ghost before_pages = pages@;
        pages.push(
            StagingColumnsSelectedPage {
                page_index,
                master_id: layout.master_id.clone(),
                boxes,
                margins,
                frames: selected.frames,
                fragments: selected.fragments,
                balance,
            },
        );
        assert(pages@[pages@.len() - 1].balance == balance);
        proof {
            if vp {
                let k = pages@.len() - 1;
                let page = pages@[k];
                let h: i64 = if balance is Some {
                    balance->0.spec_selected_target_height()
                } else {
                    layout.body.height
                };
                assert(page.frames@ == selected.frames@);
                assert(page.fragments@ == selected.fragments@);
                assert(page_entry(pages@, k) == page_entry(before_pages, k));
                assert forall|j: int| 0 <= j < page.frames@.len() implies #[trigger] body_frame_at(
                    page.frames@[j],
                    j,
                ) by {
                    assert(page.frames@[j] == column_frame(
                        layout.columns@[j],
                        h,
                        page.frames@[j].before_position.ordinal,
                        page.frames@[j].after_position.ordinal,
                        layout.blocks@.len() as u32,
                    ));
                    assert(layout.columns@[j].column_index == j);
                }
                assert forall|i: int| 0 <= i < page.fragments@.len() implies #[trigger] fragment_in_frame(
                    page,
                    page.fragments@[i],
                ) by {
                    assert(fragment_fits_frames(page.fragments@[i], selected.frames@, page_index));
                }
                assert(columns_page_valid(pages@, k));
                assert forall|i: int| 0 <= i < pages@.len() implies #[trigger] columns_page_valid(pages@, i) by {
                    if i < k {
                        assert(pages@[i] == before_pages[i]);
                        assert(columns_page_valid(before_pages, i));
                        if i > 0 {
                            assert(pages@[i - 1] == before_pages[i - 1]);
                        }
                    }
                }
                if balance is None {
                    assert forall|i: int| 0 <= i < pages@.len() implies #[trigger] columns_page_valid(pages@, i)
                        && pages@[i].balance is None by {
                        if i < k {
                            assert(pages@[i] == before_pages[i]);
                            assert(columns_page_valid(before_pages, i));
                        }
                    }
                }
            }
        }
        if terminal {
            break;
        }
    }
    let canonical_jcs = encode_selected_layout(
        &layout.profile_receipt_sha256,
        &layout.flow_registry_sha256,
        pages.as_slice(),
    );
    let selected_layout_sha256 = fingerprint_text(&canonical_jcs);
    let receipt = StagingColumnsSelectedLayoutReceipt {
        profile_receipt_sha256: layout.profile_receipt_sha256,
        flow_registry_sha256: layout.flow_registry_sha256,
        selected_layout_sha256,
        canonical_jcs,
    };
    let selected = StagingColumnsSelectedLayout { pages, receipt };
    match selected.verify_receipt() {
        Ok(()) => {},
        Err(e) => return Err(e),
    }
    Ok(selected)
}

} // verus!
