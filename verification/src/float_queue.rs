//! The float queue pagination: body blocks fill the column frames of each
//! page in keep-with-next groups, float anchors enqueue their floats, and
//! the queue head is tried here at its anchor, at the top and at the bottom
//! of each column, or carried to the next page.
use vstd::prelude::*;
use crate::body_errors::NodeId;
use crate::columns::StagingColumnLayout;
use crate::float_layout::{
    FloatClearance, FloatPlacementClass, StagingFloatBodyFragment, StagingFloatCandidateDecision, StagingFloatCarry,
    StagingFloatFrameRef, StagingFloatPaginationError, StagingFloatPlacement, StagingFloatQueueEntry,
    StagingFloatSelectedLayoutReceipt, StagingFloatSelectedPage,
};
use crate::float_pagination::{StagingFloatSelectedLayout, placement_id, placement_ids};
use crate::page_geometry::{
    DOCUMENT_BODY_FLOW, PaginationLimits, Rect, StagingAdvancedFlowPosition, StagingAdvancedPageFrameKind,
    StagingPageMargins, StagingPdfPageBox, StagingSelectedAdvancedFrame, StagingSelectedPageBoxes,
};

verus! {

/// What a body item of a float layout is.
#[derive(Clone, Copy, Debug, PartialEq, Eq, Structural)]
pub enum StagingFloatBodyItemKind {
    Block,
    FloatAnchor,
}

/// One body item: a block with its extent and break properties, or the
/// anchor of a float with the float's flows and size.
#[derive(Clone, Copy, Debug, PartialEq, Eq, Structural)]
pub struct StagingFloatBodyItem {
    pub kind: StagingFloatBodyItemKind,
    pub node_id: NodeId,
    pub before_position: u32,
    pub after_position: u32,
    pub block_extent: i64,
    pub forced_page_break: bool,
    pub keep_with_next: bool,
    pub float_flow_id: Option<u32>,
    pub caption_flow_id: Option<u32>,
    pub image_width: Option<i64>,
    pub float_extent: Option<i64>,
}

/// The float layout pagination reads: column templates, body items, the
/// page master's geometry, and the fingerprints of the receipts it was
/// derived from.
#[derive(Clone, Debug, PartialEq, Eq)]
pub struct StagingFloatLayout {
    pub columns: Vec<StagingColumnLayout>,
    pub body_items: Vec<StagingFloatBodyItem>,
    pub master_id: String,
    pub page_width: i64,
    pub page_height: i64,
    pub body: Rect,
    pub trim: Rect,
    pub profile_receipt_sha256: [u8; 32],
    pub flow_registry_sha256: [u8; 32],
}

/// Body items sit at consecutive flow positions: item `i` spans `i..i + 1`.
pub open spec fn body_positions_consecutive(items: Seq<StagingFloatBodyItem>) -> bool {
    forall|i: int| #![trigger items[i]] 0 <= i < items.len() ==> items[i].before_position == i && items[i].after_position == i + 1
}

/// Whether an item enqueues a float when the fill reaches it: an anchor that
/// is not a forced page break and names its float.
pub open spec fn enqueues_float(item: StagingFloatBodyItem) -> bool {
    item.kind == StagingFloatBodyItemKind::FloatAnchor && !item.forced_page_break && item.float_flow_id is Some
}

/// The float ids the items enqueue, in body order.
pub open spec fn anchor_ids(items: Seq<StagingFloatBodyItem>) -> Seq<u32>
    decreases items.len(),
{
    if items.len() == 0 {
        Seq::empty()
    } else if enqueues_float(items.last()) {
        anchor_ids(items.drop_last()).push(items.last().float_flow_id->0)
    } else {
        anchor_ids(items.drop_last())
    }
}

/// The float ids of a queue, head first.
pub open spec fn queue_ids(queue: Seq<StagingFloatQueueEntry>) -> Seq<u32> {
    queue.map_values(|e: StagingFloatQueueEntry| e.float_flow_id)
}

/// The float ids of placements, in placement order.
pub open spec fn placed_ids(placements: Seq<StagingFloatPlacement>) -> Seq<u32> {
    placements.map_values(placement_id())
}

/// Moving the queue head to the placements keeps placed-then-queued ids.
proof fn lemma_move_head(
    placements: Seq<StagingFloatPlacement>,
    queue: Seq<StagingFloatQueueEntry>,
    placement: StagingFloatPlacement,
)
    requires
        queue.len() > 0,
        placement.float_flow_id == queue[0].float_flow_id,
    ensures
        placed_ids(placements.push(placement)) + queue_ids(queue.remove(0)) == placed_ids(placements) + queue_ids(queue),
{
    assert(placed_ids(placements.push(placement)) =~= placed_ids(placements).push(placement.float_flow_id));
    assert(queue_ids(queue) =~= seq![queue[0].float_flow_id] + queue_ids(queue.remove(0)));
    assert(placed_ids(placements.push(placement)) + queue_ids(queue.remove(0)) =~= placed_ids(placements) + queue_ids(
        queue,
    ));
}

/// Ids placed and queued keep their order when the page's placements and
/// the queue exchange a float.
proof fn lemma_flow_preserved(
    before: Seq<u32>,
    p0: Seq<u32>,
    q0: Seq<u32>,
    p1: Seq<u32>,
    q1: Seq<u32>,
)
    requires
        p1 + q1 == p0 + q0,
    ensures
        before + p1 + q1 == before + p0 + q0,
{
    assert(before + p1 + q1 =~= before + (p1 + q1));
    assert(before + p0 + q0 =~= before + (p0 + q0));
}

/// Rewriting the queue head with the same float keeps the queue's ids.
proof fn lemma_same_head(queue: Seq<StagingFloatQueueEntry>, head: StagingFloatQueueEntry)
    requires
        queue.len() > 0,
        head.float_flow_id == queue[0].float_flow_id,
    ensures
        queue_ids(queue.update(0, head)) == queue_ids(queue),
{
    assert(queue_ids(queue.update(0, head)) =~= queue_ids(queue));
}

/// One more item of the body: its float, if it enqueues one, joins the ids.
proof fn lemma_anchor_ids_step(items: Seq<StagingFloatBodyItem>, i: int)
    requires
        0 <= i < items.len(),
    ensures
        anchor_ids(items.take(i + 1)) == (if enqueues_float(items[i]) {
            anchor_ids(items.take(i)).push(items[i].float_flow_id->0)
        } else {
            anchor_ids(items.take(i))
        }),
{
    assert(items.take(i + 1).drop_last() =~= items.take(i));
    assert(items.take(i + 1).last() == items[i]);
}

/// The page boxes of a float page: the trim must be the whole page, and
/// media, crop and trim are all the page.
pub open spec fn float_boxes(layout: StagingFloatLayout) -> Result<StagingSelectedPageBoxes, StagingFloatPaginationError> {
    if layout.trim.x != 0 || layout.trim.y != 0 || layout.trim.width != layout.page_width || layout.trim.height
        != layout.page_height {
        Err(StagingFloatPaginationError::Geometry)
    } else {
        let media = StagingPdfPageBox { x_min: 0, y_min: 0, x_max: layout.page_width, y_max: layout.page_height };
        Ok(StagingSelectedPageBoxes { media_box: media, crop_box: media, trim_box: media })
    }
}

fn derive_boxes(layout: &StagingFloatLayout) -> (r: Result<StagingSelectedPageBoxes, StagingFloatPaginationError>)
    ensures
        r == float_boxes(*layout),
{
    if layout.trim.x != 0 || layout.trim.y != 0 || layout.trim.width != layout.page_width || layout.trim.height
        != layout.page_height {
        return Err(StagingFloatPaginationError::Geometry);
    }
    let media = StagingPdfPageBox { x_min: 0, y_min: 0, x_max: layout.page_width, y_max: layout.page_height };
    Ok(StagingSelectedPageBoxes { media_box: media, crop_box: media, trim_box: media })
}

/// The margins from page edge to body, each representable and non-negative.
pub open spec fn float_margins(layout: StagingFloatLayout) -> Result<StagingPageMargins, StagingFloatPaginationError> {
    let right = layout.page_width - layout.body.x - layout.body.width;
    let bottom = layout.page_height - layout.body.y - layout.body.height;
    if !(i64::MIN <= layout.page_width - layout.body.x <= i64::MAX) || !(i64::MIN <= right <= i64::MAX)
        || !(i64::MIN <= layout.page_height - layout.body.y <= i64::MAX) || !(i64::MIN <= bottom <= i64::MAX) {
        Err(StagingFloatPaginationError::Geometry)
    } else if layout.body.y < 0 || right < 0 || bottom < 0 || layout.body.x < 0 {
        Err(StagingFloatPaginationError::Geometry)
    } else {
        Ok(
            StagingPageMargins {
                top: layout.body.y,
                right: right as i64,
                bottom: bottom as i64,
                left: layout.body.x,
            },
        )
    }
}

fn derive_margins(layout: &StagingFloatLayout) -> (r: Result<StagingPageMargins, StagingFloatPaginationError>)
    ensures
        r == float_margins(*layout),
{
    let inner = match layout.page_width.checked_sub(layout.body.x) {
        Some(v) => v,
        None => return Err(StagingFloatPaginationError::Geometry),
    };
    let right = match inner.checked_sub(layout.body.width) {
        Some(v) => v,
        None => return Err(StagingFloatPaginationError::Geometry),
    };
    let below = match layout.page_height.checked_sub(layout.body.y) {
        Some(v) => v,
        None => return Err(StagingFloatPaginationError::Geometry),
    };
    let bottom = match below.checked_sub(layout.body.height) {
        Some(v) => v,
        None => return Err(StagingFloatPaginationError::Geometry),
    };
    if layout.body.y < 0 || right < 0 || bottom < 0 || layout.body.x < 0 {
        return Err(StagingFloatPaginationError::Geometry);
    }
    Ok(StagingPageMargins { top: layout.body.y, right, bottom, left: layout.body.x })
}

/// Charge selected records against the inclusive fragment limit.
fn charge_fragments(count: &mut u64, amount: u64, limits: &PaginationLimits) -> (r: Result<
    (),
    StagingFloatPaginationError,
>)
    ensures
        r is Ok <==> old(count) + amount <= limits.max_fragments,
        r is Ok ==> *final(count) == old(count) + amount,
        r is Err ==> *final(count) == *old(count) && r == Err::<(), StagingFloatPaginationError>(
            StagingFloatPaginationError::FragmentLimit,
        ),
{
    let next = match count.checked_add(amount) {
        Some(v) => v,
        None => return Err(StagingFloatPaginationError::FragmentLimit),
    };
    if next > limits.max_fragments {
        return Err(StagingFloatPaginationError::FragmentLimit);
    }
    *count = next;
    Ok(())
}

/// Where the keep-with-next group that takes item `i` ends: a block that is
/// no forced break joins, and the group goes on past it while it keeps with
/// the next item.
pub open spec fn group_run(items: Seq<StagingFloatBodyItem>, i: int) -> int
    decreases items.len() - i,
{
    if i < 0 || i >= items.len() || items[i].kind != StagingFloatBodyItemKind::Block || items[i].forced_page_break {
        i
    } else if !items[i].keep_with_next {
        i + 1
    } else {
        group_run(items, i + 1)
    }
}

/// The total extent of items `start..end`.
pub open spec fn range_extent(items: Seq<StagingFloatBodyItem>, start: int, end: int) -> int
    decreases end - start,
{
    if end <= start {
        0
    } else {
        range_extent(items, start, end - 1) + items[end - 1].block_extent
    }
}

pub open spec fn fits_i64(v: int) -> bool {
    i64::MIN <= v <= i64::MAX
}

/// The group starting at `start`, with its end and total extent: an error
/// when `start` is past the items or takes no block, an overflow when a
/// running total leaves `i64`.
pub open spec fn group_extent_spec(items: Seq<StagingFloatBodyItem>, start: int) -> Result<
    (usize, i64),
    StagingFloatPaginationError,
> {
    let end = group_run(items, start);
    if start >= items.len() || end == start {
        Err(StagingFloatPaginationError::ProgressContradiction)
    } else if exists|k: int| start < k <= end && !fits_i64(#[trigger] range_extent(items, start, k)) {
        Err(StagingFloatPaginationError::ArithmeticOverflow)
    } else {
        Ok((end as usize, range_extent(items, start, end) as i64))
    }
}

proof fn lemma_group_run_bounds(items: Seq<StagingFloatBodyItem>, i: int)
    requires
        0 <= i <= items.len(),
    ensures
        i <= group_run(items, i) <= items.len(),
        forall|t: int| i <= t < group_run(items, i) ==> #[trigger] items[t].kind == StagingFloatBodyItemKind::Block
            && !items[t].forced_page_break,
    decreases items.len() - i,
{
    if i < items.len() && items[i].kind == StagingFloatBodyItemKind::Block && !items[i].forced_page_break
        && items[i].keep_with_next {
        lemma_group_run_bounds(items, i + 1);
    }
}

/// The keep-with-next group of blocks starting at `start`: blocks are taken
/// until a block that does not keep with the next, the end, a forced break
/// or a float anchor; returns its end and total extent.
fn group_extent(items: &[StagingFloatBodyItem], start: usize) -> (r: Result<(usize, i64), StagingFloatPaginationError>)
    ensures
        r == group_extent_spec(items@, start as int),
        r matches Ok((end, _)) ==> start < end <= items@.len() && forall|t: int|
            start <= t < end ==> #[trigger] items@[t].kind == StagingFloatBodyItemKind::Block
                && !items@[t].forced_page_break,
{
    if start >= items.len() {
        return Err(StagingFloatPaginationError::ProgressContradiction);
    }
    let ghost s = items@;
    proof {
        lemma_group_run_bounds(s, start as int);
    }
    let mut end = start;
    let mut extent: i64 = 0;
    loop
        invariant_except_break
            start <= end < items@.len(),
            group_run(s, start as int) == group_run(s, end as int),
        invariant
            s == items@,
            start < items@.len(),
            start <= group_run(s, start as int) <= s.len(),
            extent == range_extent(s, start as int, end as int),
            forall|k: int| start < k <= end ==> fits_i64(#[trigger] range_extent(s, start as int, k)),
            forall|t: int| start <= t < group_run(s, start as int) ==> #[trigger] s[t].kind
                == StagingFloatBodyItemKind::Block && !s[t].forced_page_break,
        ensures
            start <= end <= items@.len(),
            end == group_run(s, start as int),
        decreases items@.len() - end,
    {
        let item = items[end];
        let is_block = match item.kind {
            StagingFloatBodyItemKind::Block => true,
            StagingFloatBodyItemKind::FloatAnchor => false,
        };
        if !is_block || item.forced_page_break {
            break;
        }
        proof {
            lemma_group_run_bounds(s, end as int);
            lemma_group_run_bounds(s, end + 1);
        }
        extent = match extent.checked_add(item.block_extent) {
            Some(v) => v,
            None => {
                assert(!fits_i64(range_extent(s, start as int, end + 1)));
                return Err(StagingFloatPaginationError::ArithmeticOverflow);
            },
        };
        end = end + 1;
        if !item.keep_with_next || end >= items.len() {
            break;
        }
        let next = items[end];
        let next_is_anchor = match next.kind {
            StagingFloatBodyItemKind::Block => false,
            StagingFloatBodyItemKind::FloatAnchor => true,
        };
        if next.forced_page_break || next_is_anchor {
            break;
        }
    }
    if end == start {
        return Err(StagingFloatPaginationError::ProgressContradiction);
    }
    assert(!(exists|k: int| start < k <= end && !fits_i64(#[trigger] range_extent(s, start as int, k))));
    Ok((end, extent))
}

/// Why an anchor's float cannot join the queue, checked in this order: its
/// image width and extent must be known and fit the narrowest column and a
/// full column height, the queue must have room, its float and caption flows
/// must be named, and the float must not be queued already.
pub open spec fn enqueue_refusal(
    item: StagingFloatBodyItem,
    min_column_width: i64,
    full_column_height: i64,
    queue: Seq<StagingFloatQueueEntry>,
    limits: PaginationLimits,
) -> Option<StagingFloatPaginationError> {
    if item.image_width is None || item.float_extent is None {
        Some(StagingFloatPaginationError::ProgressContradiction)
    } else if item.image_width->0 > min_column_width || item.float_extent->0 > full_column_height {
        Some(StagingFloatPaginationError::Oversize(item.node_id))
    } else if queue.len() >= limits.max_float_queue {
        Some(StagingFloatPaginationError::QueueLimit(item.node_id))
    } else if item.float_flow_id is None || item.caption_flow_id is None {
        Some(StagingFloatPaginationError::ProgressContradiction)
    } else if exists|i: int| 0 <= i < queue.len() && #[trigger] queue[i].float_flow_id == item.float_flow_id->0 {
        Some(StagingFloatPaginationError::ProgressContradiction)
    } else {
        None
    }
}

/// The queue entry of an anchor's float, anchored at the anchor's position
/// in a column of a page, not yet tried anywhere.
pub open spec fn queued_entry(item: StagingFloatBodyItem, page_index: u32, column_index: u32) -> StagingFloatQueueEntry {
    StagingFloatQueueEntry {
        float_flow_id: item.float_flow_id->0,
        caption_flow_id: item.caption_flow_id->0,
        figure_node_id: item.node_id,
        anchor_body_flow_id: DOCUMENT_BODY_FLOW,
        anchor_position: StagingAdvancedFlowPosition { flow_id: DOCUMENT_BODY_FLOW, ordinal: item.before_position },
        anchor_page_index: page_index,
        anchor_column_index: column_index,
        carry_count: 0,
        image_width: item.image_width->0,
        float_extent: item.float_extent->0,
        here_evaluated: false,
        top_evaluated_frame: None,
    }
}

/// Enqueue the float of an anchor: it must fit the narrowest column and a
/// full column height, the queue must have room, and the float must not be
/// queued already.
fn enqueue_float(
    item: &StagingFloatBodyItem,
    page_index: u32,
    column_index: u32,
    min_column_width: i64,
    full_column_height: i64,
    queue: &mut Vec<StagingFloatQueueEntry>,
    limits: &PaginationLimits,
) -> (r: Result<(), StagingFloatPaginationError>)
    ensures
        match enqueue_refusal(*item, min_column_width, full_column_height, old(queue)@, *limits) {
            Some(e) => r == Err::<(), StagingFloatPaginationError>(e) && final(queue)@ == old(queue)@,
            None => r is Ok && final(queue)@ == old(queue)@.push(queued_entry(*item, page_index, column_index)),
        },
        r is Ok ==> item.float_flow_id is Some && queue_ids(final(queue)@) == queue_ids(old(queue)@).push(
            item.float_flow_id->0,
        ),
{
    let image_width = match item.image_width {
        Some(v) => v,
        None => return Err(StagingFloatPaginationError::ProgressContradiction),
    };
    let float_extent = match item.float_extent {
        Some(v) => v,
        None => return Err(StagingFloatPaginationError::ProgressContradiction),
    };
    if image_width > min_column_width || float_extent > full_column_height {
        return Err(StagingFloatPaginationError::Oversize(item.node_id));
    }
    if queue.len() >= limits.max_float_queue as usize {
        return Err(StagingFloatPaginationError::QueueLimit(item.node_id));
    }
    let float_flow_id = match item.float_flow_id {
        Some(v) => v,
        None => return Err(StagingFloatPaginationError::ProgressContradiction),
    };
    let caption_flow_id = match item.caption_flow_id {
        Some(v) => v,
        None => return Err(StagingFloatPaginationError::ProgressContradiction),
    };
    let mut i: usize = 0;
    while i < queue.len()
        invariant
            0 <= i <= queue@.len(),
            queue@ == old(queue)@,
            item.float_flow_id == Some(float_flow_id),
            item.caption_flow_id == Some(caption_flow_id),
            item.image_width == Some(image_width),
            item.float_extent == Some(float_extent),
            image_width <= min_column_width && float_extent <= full_column_height,
            queue@.len() < limits.max_float_queue,
            forall|t: int| 0 <= t < i ==> #[trigger] queue@[t].float_flow_id != float_flow_id,
        decreases queue.len() - i,
    {
        if queue[i].float_flow_id == float_flow_id {
            assert(old(queue)@[i as int].float_flow_id == item.float_flow_id->0);
            return Err(StagingFloatPaginationError::ProgressContradiction);
        }
        i = i + 1;
    }
    queue.push(
        StagingFloatQueueEntry {
            float_flow_id,
            caption_flow_id,
            figure_node_id: item.node_id,
            anchor_body_flow_id: DOCUMENT_BODY_FLOW,
            anchor_position: StagingAdvancedFlowPosition { flow_id: DOCUMENT_BODY_FLOW, ordinal: item.before_position },
            anchor_page_index: page_index,
            anchor_column_index: column_index,
            carry_count: 0,
            image_width,
            float_extent,
            here_evaluated: false,
            top_evaluated_frame: None,
        },
    );
    assert(queue_ids(queue@) =~= queue_ids(old(queue)@).push(float_flow_id));
    Ok(())
}

/// The decision recorded for a queue entry tried at a position of a column.
pub open spec fn candidate_of(
    entry: StagingFloatQueueEntry,
    class: FloatPlacementClass,
    page_index: u32,
    column: StagingColumnLayout,
    applicable: bool,
    accepted: bool,
) -> StagingFloatCandidateDecision {
    StagingFloatCandidateDecision {
        float_flow_id: entry.float_flow_id,
        figure_node_id: entry.figure_node_id,
        class,
        page_index,
        column_index: column.column_index,
        applicable,
        accepted,
    }
}

/// The placement of a queue entry in a column at height `y`: the column's
/// x and width, the float's extent.
pub open spec fn placement_of(
    entry: StagingFloatQueueEntry,
    class: FloatPlacementClass,
    page_index: u32,
    column: StagingColumnLayout,
    y: i64,
) -> StagingFloatPlacement {
    StagingFloatPlacement {
        float_flow_id: entry.float_flow_id,
        caption_flow_id: entry.caption_flow_id,
        figure_node_id: entry.figure_node_id,
        class,
        clearance: FloatClearance::Zero,
        page_index,
        column_index: column.column_index,
        frame_flow_id: column.frame_flow_id,
        source_flow_id: DOCUMENT_BODY_FLOW,
        anchor_position: entry.anchor_position,
        frame_paint_ordinal: 0,
        bounds: Rect { x: column.rect.x, y, width: column.rect.width, height: entry.float_extent },
        image_width: entry.image_width,
        float_terminal: true,
        caption_terminal: true,
    }
}

/// Record one candidate position evaluated for a queue entry.
fn record_candidate(
    candidates: &mut Vec<StagingFloatCandidateDecision>,
    entry: &StagingFloatQueueEntry,
    class: FloatPlacementClass,
    page_index: u32,
    column: &StagingColumnLayout,
    applicable: bool,
    accepted: bool,
)
    ensures
        final(candidates)@ == old(candidates)@.push(
            candidate_of(*entry, class, page_index, *column, applicable, accepted),
        ),
{
    candidates.push(
        StagingFloatCandidateDecision {
            float_flow_id: entry.float_flow_id,
            figure_node_id: entry.figure_node_id,
            class,
            page_index,
            column_index: column.column_index,
            applicable,
            accepted,
        },
    );
}

/// Place a queue entry in a column at height `y`, with the column's width
/// and the float's extent.
fn push_placement(
    placements: &mut Vec<StagingFloatPlacement>,
    entry: StagingFloatQueueEntry,
    class: FloatPlacementClass,
    page_index: u32,
    column: &StagingColumnLayout,
    y: i64,
)
    ensures
        final(placements)@ == old(placements)@.push(placement_of(entry, class, page_index, *column, y)),
{
    placements.push(
        StagingFloatPlacement {
            float_flow_id: entry.float_flow_id,
            caption_flow_id: entry.caption_flow_id,
            figure_node_id: entry.figure_node_id,
            class,
            clearance: FloatClearance::Zero,
            page_index,
            column_index: column.column_index,
            frame_flow_id: column.frame_flow_id,
            source_flow_id: DOCUMENT_BODY_FLOW,
            anchor_position: entry.anchor_position,
            frame_paint_ordinal: 0,
            bounds: Rect { x: column.rect.x, y, width: column.rect.width, height: entry.float_extent },
            image_width: entry.image_width,
            float_terminal: true,
            caption_terminal: true,
        },
    );
}

/// The frame reference of a column on a page.
fn frame_ref(page_index: u32, column: &StagingColumnLayout) -> (f: StagingFloatFrameRef)
    ensures
        f == (StagingFloatFrameRef { page_index, column_index: column.column_index }),
{
    StagingFloatFrameRef { page_index, column_index: column.column_index }
}

/// `base` plus the extents of the first `i` queue entries.
pub open spec fn stacked(q: Seq<StagingFloatQueueEntry>, base: int, i: int) -> int
    decreases i,
{
    if i <= 0 || i > q.len() {
        base
    } else {
        stacked(q, base, i - 1) + q[i - 1].float_extent
    }
}

/// Whether an extent fits in a column below `used`, the sum representable.
pub open spec fn fits_int(used: int, extent: i64, column: StagingColumnLayout) -> bool {
    fits_i64(used + extent) && used + extent <= column.rect.height
}

/// How many queue heads, from the `i`-th on, fit one below the other at
/// the top of a column below `used`.
pub open spec fn top_run(q: Seq<StagingFloatQueueEntry>, used: int, column: StagingColumnLayout, i: int) -> int
    decreases q.len() - i,
{
    if i < 0 || i >= q.len() || !fits_int(stacked(q, used, i), q[i].float_extent, column) {
        i
    } else {
        top_run(q, used, column, i + 1)
    }
}

/// A queue entry once tried at the top of a column of a page (and so, if
/// it was not yet, at its anchor too).
pub open spec fn top_tried(e: StagingFloatQueueEntry, page_index: u32, column: StagingColumnLayout) -> StagingFloatQueueEntry {
    StagingFloatQueueEntry {
        here_evaluated: true,
        top_evaluated_frame: Some(StagingFloatFrameRef { page_index, column_index: column.column_index }),
        ..e
    }
}

/// The decisions recorded for one head tried at the top: not applicable
/// here if it was not tried at its anchor yet, then the top.
pub open spec fn top_entry_candidates(
    e: StagingFloatQueueEntry,
    fits: bool,
    page_index: u32,
    column: StagingColumnLayout,
) -> Seq<StagingFloatCandidateDecision> {
    (if e.here_evaluated {
        Seq::empty()
    } else {
        seq![candidate_of(e, FloatPlacementClass::Here, page_index, column, false, false)]
    }) + seq![candidate_of(e, FloatPlacementClass::Top, page_index, column, true, fits)]
}

/// The decisions recorded for the first `i` heads tried at the top.
pub open spec fn top_candidates(
    q: Seq<StagingFloatQueueEntry>,
    used: int,
    page_index: u32,
    column: StagingColumnLayout,
    i: int,
) -> Seq<StagingFloatCandidateDecision>
    decreases i,
{
    if i <= 0 || i > q.len() {
        Seq::empty()
    } else {
        top_candidates(q, used, page_index, column, i - 1) + top_entry_candidates(
            q[i - 1],
            fits_int(stacked(q, used, i - 1), q[i - 1].float_extent, column),
            page_index,
            column,
        )
    }
}

/// The first `i` heads placed at the top of a column, one below the other
/// from `used` down.
pub open spec fn top_placements(
    q: Seq<StagingFloatQueueEntry>,
    used: int,
    page_index: u32,
    column: StagingColumnLayout,
    i: int,
) -> Seq<StagingFloatPlacement> {
    Seq::new(
        i as nat,
        |k: int|
            placement_of(q[k], FloatPlacementClass::Top, page_index, column, (column.rect.y + stacked(q, used, k)) as i64),
    )
}

/// Whether placing head `k` at the top can be recorded: the fragment limit
/// has room and its top is representable.
pub open spec fn top_step_ok(
    q: Seq<StagingFloatQueueEntry>,
    used: int,
    column: StagingColumnLayout,
    records: u64,
    limits: PaginationLimits,
    k: int,
) -> bool {
    records + k + 1 <= limits.max_fragments && fits_i64(column.rect.y + stacked(q, used, k))
}

proof fn lemma_top_run_bounds(q: Seq<StagingFloatQueueEntry>, used: int, column: StagingColumnLayout, i: int)
    requires
        0 <= i <= q.len(),
    ensures
        i <= top_run(q, used, column, i) <= q.len(),
    decreases q.len() - i,
{
    if i < q.len() && fits_int(stacked(q, used, i), q[i].float_extent, column) {
        lemma_top_run_bounds(q, used, column, i + 1);
    }
}

/// At the top of a column, place queue heads while they fit below what is
/// already used; a head not yet tried at its anchor is first recorded as
/// not applicable there.
fn place_top_floats(
    queue: &mut Vec<StagingFloatQueueEntry>,
    column: &StagingColumnLayout,
    page_index: u32,
    used: &mut i64,
    placements: &mut Vec<StagingFloatPlacement>,
    candidates: &mut Vec<StagingFloatCandidateDecision>,
    selected_records: &mut u64,
    limits: &PaginationLimits,
) -> (r: Result<(), StagingFloatPaginationError>)
    ensures
        ({
            let q = old(queue)@;
            let n = top_run(q, *old(used) as int, *column, 0);
            &&& r is Ok <==> forall|k: int|
                0 <= k < n ==> #[trigger] top_step_ok(q, *old(used) as int, *column, *old(selected_records), *limits, k)
            &&& r is Ok ==> {
                &&& final(queue)@ == (if n < q.len() {
                    q.skip(n).update(0, top_tried(q[n], page_index, *column))
                } else {
                    Seq::empty()
                })
                &&& final(placements)@ == old(placements)@ + top_placements(q, *old(used) as int, page_index, *column, n)
                &&& *final(used) == stacked(q, *old(used) as int, n)
                &&& *final(selected_records) == *old(selected_records) + n
                &&& final(candidates)@ == old(candidates)@ + top_candidates(
                    q,
                    *old(used) as int,
                    page_index,
                    *column,
                    if n < q.len() {
                        n + 1
                    } else {
                        n
                    },
                )
            }
            &&& r is Err ==> exists|k: int|
                0 <= k < n && !top_step_ok(q, *old(used) as int, *column, *old(selected_records), *limits, k) && (
                forall|j: int|
                    0 <= j < k ==> #[trigger] top_step_ok(
                        q,
                        *old(used) as int,
                        *column,
                        *old(selected_records),
                        *limits,
                        j,
                    )) && r == Err::<(), StagingFloatPaginationError>(
                    if old(selected_records) + k + 1 > limits.max_fragments {
                        StagingFloatPaginationError::FragmentLimit
                    } else {
                        StagingFloatPaginationError::Geometry
                    },
                )
        }),
        r is Ok ==> placed_ids(final(placements)@) + queue_ids(final(queue)@) == placed_ids(old(placements)@)
            + queue_ids(old(queue)@),
{
    let ghost q = old(queue)@;
    let ghost u0 = *old(used) as int;
    let ghost rec0 = *old(selected_records);
    let ghost n = top_run(q, u0, *column, 0);
    let ghost mut i: int = 0;
    proof {
        lemma_top_run_bounds(q, u0, *column, 0);
        assert(q.skip(0) =~= q);
        assert(placements@ =~= old(placements)@ + top_placements(q, u0, page_index, *column, 0));
        assert(candidates@ =~= old(candidates)@ + top_candidates(q, u0, page_index, *column, 0));
    }
    while queue.len() > 0
        invariant_except_break
            0 <= i <= q.len(),
            queue@ == q.skip(i),
            top_run(q, u0, *column, i) == n,
            forall|k: int| 0 <= k < i ==> #[trigger] top_step_ok(q, u0, *column, rec0, *limits, k),
            *used == stacked(q, u0, i),
            placements@ == old(placements)@ + top_placements(q, u0, page_index, *column, i),
            *selected_records == rec0 + i,
            candidates@ == old(candidates)@ + top_candidates(q, u0, page_index, *column, i),
        invariant
            q == old(queue)@,
            u0 == *old(used) as int,
            rec0 == *old(selected_records),
            n == top_run(q, u0, *column, 0),
            n <= q.len(),
            placed_ids(placements@) + queue_ids(queue@) == placed_ids(old(placements)@) + queue_ids(old(queue)@),
        ensures
            0 <= i <= q.len(),
            n == i,
            forall|k: int| 0 <= k < i ==> #[trigger] top_step_ok(q, u0, *column, rec0, *limits, k),
            *used == stacked(q, u0, i),
            placements@ == old(placements)@ + top_placements(q, u0, page_index, *column, i),
            *selected_records == rec0 + i,
            queue@ == (if i < q.len() {
                q.skip(i).update(0, top_tried(q[i], page_index, *column))
            } else {
                Seq::empty()
            }),
            candidates@ == old(candidates)@ + top_candidates(
                q,
                u0,
                page_index,
                *column,
                if i < q.len() {
                    i + 1
                } else {
                    i
                },
            ),
        decreases queue.len(),
    {
        proof {
            lemma_top_run_bounds(q, u0, *column, i);
        }
        let ghost c0 = candidates@;
        let ghost here0 = queue@[0].here_evaluated;
        assert(queue@[0] == q[i]);
        let mut head = queue[0];
        if !head.here_evaluated {
            record_candidate(candidates, &head, FloatPlacementClass::Here, page_index, column, false, false);
            head.here_evaluated = true;
            proof {
                lemma_same_head(queue@, head);
            }
            queue.set(0, head);
        }
        let fits = match used.checked_add(head.float_extent) {
            Some(required) => required <= column.rect.height,
            None => false,
        };
        assert(fits == fits_int(stacked(q, u0, i), q[i].float_extent, *column));
        record_candidate(candidates, &head, FloatPlacementClass::Top, page_index, column, true, fits);
        proof {
            assert(candidates@ =~= c0 + top_entry_candidates(q[i], fits, page_index, *column));
            assert(top_candidates(q, u0, page_index, *column, i + 1) == top_candidates(q, u0, page_index, *column, i)
                + top_entry_candidates(q[i], fits, page_index, *column));
            assert(candidates@ =~= old(candidates)@ + top_candidates(q, u0, page_index, *column, i + 1));
        }
        head.top_evaluated_frame = Some(frame_ref(page_index, column));
        proof {
            lemma_same_head(queue@, head);
        }
        queue.set(0, head);
        assert(head == top_tried(q[i], page_index, *column));
        if !fits {
            assert(queue@ =~= q.skip(i).update(0, top_tried(q[i], page_index, *column)));
            break;
        }
        proof {
            lemma_top_run_bounds(q, u0, *column, i + 1);
        }
        match charge_fragments(selected_records, 1, limits) {
            Ok(()) => {},
            Err(e) => {
                assert(!top_step_ok(q, u0, *column, rec0, *limits, i));
                return Err(e);
            },
        }
        let ghost before_queue = queue@;
        let ghost before_placements = placements@;
        let entry = queue.remove(0);
        let y = match column.rect.y.checked_add(*used) {
            Some(v) => v,
            None => {
                assert(!top_step_ok(q, u0, *column, rec0, *limits, i));
                return Err(StagingFloatPaginationError::Geometry);
            },
        };
        push_placement(placements, entry, FloatPlacementClass::Top, page_index, column, y);
        proof {
            lemma_move_head(before_placements, before_queue, placements@.last());
            assert(top_step_ok(q, u0, *column, rec0, *limits, i));
            assert(placements@ =~= old(placements)@ + top_placements(q, u0, page_index, *column, i + 1));
            assert(queue@ =~= q.skip(i + 1));
        }
        *used = match used.checked_add(entry.float_extent) {
            Some(v) => v,
            None => return Err(StagingFloatPaginationError::ArithmeticOverflow),
        };
        proof {
            i = i + 1;
        }
    }
    Ok(())
}

/// A queue entry once tried at its anchor.
pub open spec fn here_tried(e: StagingFloatQueueEntry) -> StagingFloatQueueEntry {
    StagingFloatQueueEntry { here_evaluated: true, ..e }
}

/// Whether a queue entry is tried here in a column of a page: the column
/// of its anchor.
pub open spec fn at_anchor(e: StagingFloatQueueEntry, page_index: u32, column: StagingColumnLayout) -> bool {
    e.anchor_page_index == page_index && e.anchor_column_index == column.column_index
}

/// Whether a float of extent `extent` fits in a column below `used`.
pub open spec fn fits_below(used: i64, extent: i64, column: StagingColumnLayout) -> bool {
    fits_i64(used + extent) && used + extent <= column.rect.height
}

/// Right after its anchor, try the queue head here: it is applicable only
/// in the column of its anchor and accepted when it fits below what is
/// used.
fn evaluate_here_head(
    queue: &mut Vec<StagingFloatQueueEntry>,
    column: &StagingColumnLayout,
    page_index: u32,
    used: &mut i64,
    placements: &mut Vec<StagingFloatPlacement>,
    candidates: &mut Vec<StagingFloatCandidateDecision>,
    selected_records: &mut u64,
    limits: &PaginationLimits,
) -> (r: Result<(), StagingFloatPaginationError>)
    ensures
        old(queue)@.len() == 0 || old(queue)@[0].here_evaluated ==> r is Ok && final(queue)@ == old(queue)@
            && *final(used) == *old(used) && final(placements)@ == old(placements)@ && final(candidates)@ == old(
            candidates,
        )@ && *final(selected_records) == *old(selected_records),
        old(queue)@.len() > 0 && !old(queue)@[0].here_evaluated ==> {
            let head = old(queue)@[0];
            let here = at_anchor(head, page_index, *column);
            let fits = here && fits_below(*old(used), head.float_extent, *column);
            &&& final(candidates)@ == old(candidates)@.push(
                candidate_of(head, FloatPlacementClass::Here, page_index, *column, here, fits),
            )
            &&& !fits ==> r is Ok && final(queue)@ == old(queue)@.update(0, here_tried(head)) && *final(used)
                == *old(used) && final(placements)@ == old(placements)@ && *final(selected_records) == *old(
                selected_records,
            )
            &&& fits && old(selected_records) + 1 > limits.max_fragments ==> r == Err::<
                (),
                StagingFloatPaginationError,
            >(StagingFloatPaginationError::FragmentLimit)
            &&& fits && old(selected_records) + 1 <= limits.max_fragments && !fits_i64(column.rect.y + *old(used))
                ==> r == Err::<(), StagingFloatPaginationError>(StagingFloatPaginationError::Geometry)
            &&& fits && old(selected_records) + 1 <= limits.max_fragments && fits_i64(column.rect.y + *old(used))
                ==> r is Ok && final(queue)@ == old(queue)@.remove(0) && final(placements)@ == old(placements)@.push(
                placement_of(
                    here_tried(head),
                    FloatPlacementClass::Here,
                    page_index,
                    *column,
                    (column.rect.y + *old(used)) as i64,
                ),
            ) && *final(used) == *old(used) + head.float_extent && *final(selected_records) == *old(
                selected_records,
            ) + 1
        },
        r is Ok ==> placed_ids(final(placements)@) + queue_ids(final(queue)@) == placed_ids(old(placements)@)
            + queue_ids(old(queue)@),
{
    if queue.len() == 0 {
        return Ok(());
    }
    let mut head = queue[0];
    if head.here_evaluated {
        return Ok(());
    }
    let at_anchor = head.anchor_page_index == page_index && head.anchor_column_index == column.column_index;
    let fits = at_anchor && match used.checked_add(head.float_extent) {
        Some(required) => required <= column.rect.height,
        None => false,
    };
    record_candidate(candidates, &head, FloatPlacementClass::Here, page_index, column, at_anchor, fits);
    head.here_evaluated = true;
    proof {
        lemma_same_head(queue@, head);
    }
    queue.set(0, head);
    if !fits {
        return Ok(());
    }
    match charge_fragments(selected_records, 1, limits) {
        Ok(()) => {},
        Err(e) => return Err(e),
    }
    let ghost before_queue = queue@;
    let ghost before_placements = placements@;
    let entry = queue.remove(0);
    assert(before_queue.remove(0) =~= old(queue)@.remove(0));
    let y = match column.rect.y.checked_add(*used) {
        Some(v) => v,
        None => return Err(StagingFloatPaginationError::Geometry),
    };
    push_placement(placements, entry, FloatPlacementClass::Here, page_index, column, y);
    proof {
        lemma_move_head(before_placements, before_queue, placements@.last());
    }
    *used = match used.checked_add(entry.float_extent) {
        Some(v) => v,
        None => return Err(StagingFloatPaginationError::ArithmeticOverflow),
    };
    Ok(())
}

/// Whether the sums for bottom head `i` are representable: what the top
/// used plus what the bottom used, and that plus the head's extent.
pub open spec fn bottom_sums_ok(q: Seq<StagingFloatQueueEntry>, top_used: int, i: int) -> bool {
    fits_i64(top_used + stacked(q, 0, i)) && fits_i64(top_used + stacked(q, 0, i) + q[i].float_extent)
}

/// How many queue heads, from the `i`-th on, fit stacked upward at the
/// bottom of a column together with what its top used.
pub open spec fn bottom_run(q: Seq<StagingFloatQueueEntry>, top_used: int, column: StagingColumnLayout, i: int) -> int
    decreases q.len() - i,
{
    if i < 0 || i >= q.len() || !bottom_sums_ok(q, top_used, i) || top_used + stacked(q, 0, i) + q[i].float_extent
        > column.rect.height {
        i
    } else {
        bottom_run(q, top_used, column, i + 1)
    }
}

/// The decisions recorded for one head tried at the bottom: not applicable
/// here or at the top where it was not tried yet, then the bottom.
pub open spec fn bottom_entry_candidates(
    e: StagingFloatQueueEntry,
    fits: bool,
    page_index: u32,
    column: StagingColumnLayout,
) -> Seq<StagingFloatCandidateDecision> {
    (if e.here_evaluated {
        Seq::empty()
    } else {
        seq![candidate_of(e, FloatPlacementClass::Here, page_index, column, false, false)]
    }) + (if e.top_evaluated_frame == Some(StagingFloatFrameRef { page_index, column_index: column.column_index }) {
        Seq::empty()
    } else {
        seq![candidate_of(e, FloatPlacementClass::Top, page_index, column, false, false)]
    }) + seq![candidate_of(e, FloatPlacementClass::Bottom, page_index, column, true, fits)]
}

/// The decisions recorded for the first `i` heads tried at the bottom.
pub open spec fn bottom_candidates(
    q: Seq<StagingFloatQueueEntry>,
    top_used: int,
    page_index: u32,
    column: StagingColumnLayout,
    i: int,
) -> Seq<StagingFloatCandidateDecision>
    decreases i,
{
    if i <= 0 || i > q.len() {
        Seq::empty()
    } else {
        bottom_candidates(q, top_used, page_index, column, i - 1) + bottom_entry_candidates(
            q[i - 1],
            top_used + stacked(q, 0, i - 1) + q[i - 1].float_extent <= column.rect.height,
            page_index,
            column,
        )
    }
}

/// The first `i` heads placed at the bottom of a column, each above the
/// ones before it.
pub open spec fn bottom_placements(
    q: Seq<StagingFloatQueueEntry>,
    page_index: u32,
    column: StagingColumnLayout,
    i: int,
) -> Seq<StagingFloatPlacement> {
    Seq::new(
        i as nat,
        |k: int|
            placement_of(
                q[k],
                FloatPlacementClass::Bottom,
                page_index,
                column,
                (column.rect.y + column.rect.height - stacked(q, 0, k + 1)) as i64,
            ),
    )
}

/// Why placing bottom head `k` cannot be recorded, if it cannot: the
/// fragment limit, then the bottom's running extent, then the column's
/// bottom and the head's top.
pub open spec fn bottom_step_refusal(
    q: Seq<StagingFloatQueueEntry>,
    column: StagingColumnLayout,
    records: u64,
    limits: PaginationLimits,
    k: int,
) -> Option<StagingFloatPaginationError> {
    if records + k + 1 > limits.max_fragments {
        Some(StagingFloatPaginationError::FragmentLimit)
    } else if !fits_i64(stacked(q, 0, k + 1)) {
        Some(StagingFloatPaginationError::ArithmeticOverflow)
    } else if !fits_i64(column.rect.y + column.rect.height) || !fits_i64(
        column.rect.y + column.rect.height - stacked(q, 0, k + 1),
    ) {
        Some(StagingFloatPaginationError::Geometry)
    } else {
        None
    }
}

proof fn lemma_bottom_run_bounds(q: Seq<StagingFloatQueueEntry>, top_used: int, column: StagingColumnLayout, i: int)
    requires
        0 <= i <= q.len(),
    ensures
        i <= bottom_run(q, top_used, column, i) <= q.len(),
    decreases q.len() - i,
{
    if i < q.len() && bottom_sums_ok(q, top_used, i) && top_used + stacked(q, 0, i) + q[i].float_extent
        <= column.rect.height {
        lemma_bottom_run_bounds(q, top_used, column, i + 1);
    }
}

/// At the bottom of a column, stack queue heads upward while they fit
/// together with what the top of the column used.
fn place_bottom_floats(
    queue: &mut Vec<StagingFloatQueueEntry>,
    column: &StagingColumnLayout,
    page_index: u32,
    top_used: i64,
    placements: &mut Vec<StagingFloatPlacement>,
    candidates: &mut Vec<StagingFloatCandidateDecision>,
    selected_records: &mut u64,
    limits: &PaginationLimits,
) -> (r: Result<(), StagingFloatPaginationError>)
    ensures
        ({
            let q = old(queue)@;
            let n = bottom_run(q, top_used as int, *column, 0);
            let steps_ok = forall|k: int|
                0 <= k < n ==> #[trigger] bottom_step_refusal(q, *column, *old(selected_records), *limits, k) is None;
            &&& r is Ok <==> steps_ok && (n < q.len() ==> bottom_sums_ok(q, top_used as int, n))
            &&& r is Ok ==> {
                &&& final(queue)@ == (if n < q.len() {
                    q.skip(n).update(0, top_tried(q[n], page_index, *column))
                } else {
                    Seq::empty()
                })
                &&& final(placements)@ == old(placements)@ + bottom_placements(q, page_index, *column, n)
                &&& *final(selected_records) == *old(selected_records) + n
                &&& final(candidates)@ == old(candidates)@ + bottom_candidates(
                    q,
                    top_used as int,
                    page_index,
                    *column,
                    if n < q.len() {
                        n + 1
                    } else {
                        n
                    },
                )
            }
            &&& r is Err ==> (exists|k: int|
                0 <= k < n && (forall|j: int|
                    0 <= j < k ==> #[trigger] bottom_step_refusal(q, *column, *old(selected_records), *limits, j) is None)
                    && bottom_step_refusal(q, *column, *old(selected_records), *limits, k) == Some(r->Err_0)) || (
            steps_ok && n < q.len() && !bottom_sums_ok(q, top_used as int, n) && r == Err::<
                (),
                StagingFloatPaginationError,
            >(StagingFloatPaginationError::ArithmeticOverflow))
        }),
        r is Ok ==> placed_ids(final(placements)@) + queue_ids(final(queue)@) == placed_ids(old(placements)@)
            + queue_ids(old(queue)@),
{
    let ghost q = old(queue)@;
    let ghost t0 = top_used as int;
    let ghost rec0 = *old(selected_records);
    let ghost n = bottom_run(q, t0, *column, 0);
    let ghost mut i: int = 0;
    proof {
        lemma_bottom_run_bounds(q, t0, *column, 0);
        assert(q.skip(0) =~= q);
        assert(placements@ =~= old(placements)@ + bottom_placements(q, page_index, *column, 0));
        assert(candidates@ =~= old(candidates)@ + bottom_candidates(q, t0, page_index, *column, 0));
    }
    let mut bottom_used: i64 = 0;
    while queue.len() > 0
        invariant_except_break
            0 <= i <= q.len(),
            queue@ == q.skip(i),
            bottom_run(q, t0, *column, i) == n,
            forall|k: int| 0 <= k < i ==> #[trigger] bottom_step_refusal(q, *column, rec0, *limits, k) is None,
            bottom_used == stacked(q, 0, i),
            placements@ == old(placements)@ + bottom_placements(q, page_index, *column, i),
            *selected_records == rec0 + i,
            candidates@ == old(candidates)@ + bottom_candidates(q, t0, page_index, *column, i),
        invariant
            q == old(queue)@,
            t0 == top_used as int,
            rec0 == *old(selected_records),
            n == bottom_run(q, t0, *column, 0),
            n <= q.len(),
            placed_ids(placements@) + queue_ids(queue@) == placed_ids(old(placements)@) + queue_ids(old(queue)@),
        ensures
            0 <= i <= q.len(),
            n == i,
            i < q.len() ==> bottom_sums_ok(q, t0, i),
            forall|k: int| 0 <= k < i ==> #[trigger] bottom_step_refusal(q, *column, rec0, *limits, k) is None,
            placements@ == old(placements)@ + bottom_placements(q, page_index, *column, i),
            *selected_records == rec0 + i,
            queue@ == (if i < q.len() {
                q.skip(i).update(0, top_tried(q[i], page_index, *column))
            } else {
                Seq::empty()
            }),
            candidates@ == old(candidates)@ + bottom_candidates(
                q,
                t0,
                page_index,
                *column,
                if i < q.len() {
                    i + 1
                } else {
                    i
                },
            ),
        decreases queue.len(),
    {
        proof {
            lemma_bottom_run_bounds(q, t0, *column, i);
        }
        let ghost c0 = candidates@;
        assert(queue@[0] == q[i]);
        let mut head = queue[0];
        if !head.here_evaluated {
            record_candidate(candidates, &head, FloatPlacementClass::Here, page_index, column, false, false);
            head.here_evaluated = true;
            proof {
                lemma_same_head(queue@, head);
            }
            queue.set(0, head);
        }
        let tried_top_here = match head.top_evaluated_frame {
            Some(frame) => frame.page_index == page_index && frame.column_index == column.column_index,
            None => false,
        };
        assert(tried_top_here == (q[i].top_evaluated_frame == Some(
            StagingFloatFrameRef { page_index, column_index: column.column_index },
        )));
        if !tried_top_here {
            record_candidate(candidates, &head, FloatPlacementClass::Top, page_index, column, false, false);
            head.top_evaluated_frame = Some(frame_ref(page_index, column));
            proof {
                lemma_same_head(queue@, head);
            }
            queue.set(0, head);
        }
        assert(head == top_tried(q[i], page_index, *column));
        let stacked = match top_used.checked_add(bottom_used) {
            Some(v) => v,
            None => return Err(StagingFloatPaginationError::ArithmeticOverflow),
        };
        let required = match stacked.checked_add(head.float_extent) {
            Some(v) => v,
            None => return Err(StagingFloatPaginationError::ArithmeticOverflow),
        };
        let fits = required <= column.rect.height;
        record_candidate(candidates, &head, FloatPlacementClass::Bottom, page_index, column, true, fits);
        proof {
            assert(candidates@ =~= c0 + bottom_entry_candidates(q[i], fits, page_index, *column));
            assert(candidates@ =~= old(candidates)@ + bottom_candidates(q, t0, page_index, *column, i + 1));
        }
        if !fits {
            assert(queue@ =~= q.skip(i).update(0, top_tried(q[i], page_index, *column)));
            break;
        }
        proof {
            lemma_bottom_run_bounds(q, t0, *column, i + 1);
        }
        match charge_fragments(selected_records, 1, limits) {
            Ok(()) => {},
            Err(e) => {
                assert(bottom_step_refusal(q, *column, rec0, *limits, i) == Some(e));
                return Err(e);
            },
        }
        let ghost before_queue = queue@;
        let ghost before_placements = placements@;
        let entry = queue.remove(0);
        bottom_used = match bottom_used.checked_add(entry.float_extent) {
            Some(v) => v,
            None => {
                assert(bottom_step_refusal(q, *column, rec0, *limits, i) == Some(
                    StagingFloatPaginationError::ArithmeticOverflow,
                ));
                return Err(StagingFloatPaginationError::ArithmeticOverflow);
            },
        };
        let column_bottom = match column.rect.y.checked_add(column.rect.height) {
            Some(v) => v,
            None => {
                assert(bottom_step_refusal(q, *column, rec0, *limits, i) == Some(
                    StagingFloatPaginationError::Geometry,
                ));
                return Err(StagingFloatPaginationError::Geometry);
            },
        };
        let y = match column_bottom.checked_sub(bottom_used) {
            Some(v) => v,
            None => {
                assert(bottom_step_refusal(q, *column, rec0, *limits, i) == Some(
                    StagingFloatPaginationError::Geometry,
                ));
                return Err(StagingFloatPaginationError::Geometry);
            },
        };
        push_placement(placements, entry, FloatPlacementClass::Bottom, page_index, column, y);
        proof {
            lemma_move_head(before_placements, before_queue, placements@.last());
            assert(bottom_step_refusal(q, *column, rec0, *limits, i) is None);
            assert(placements@ =~= old(placements)@ + bottom_placements(q, page_index, *column, i + 1));
            assert(queue@ =~= q.skip(i + 1));
            i = i + 1;
        }
    }
    Ok(())
}

/// One entry of a column's middle paint order: flow position, a tie-break
/// rank (a float painted here before a block at the same position), the
/// index of the item, and whether it is a placement.
type MiddleEntry = (u32, u8, usize, bool);

spec fn middle_entry_ok(e: MiddleEntry, placements: nat, fragments: nat) -> bool {
    if e.3 {
        e.2 < placements
    } else {
        e.2 < fragments
    }
}

/// Whether `a` comes after `b` in the middle paint order.
fn middle_after(a: MiddleEntry, b: MiddleEntry) -> (r: bool)
    ensures
        r == (a.0 > b.0 || (a.0 == b.0 && a.1 > b.1)),
{
    a.0 > b.0 || (a.0 == b.0 && a.1 > b.1)
}

/// Whether `a` comes no later than `b` in the middle paint order: by flow
/// position, then by rank.
pub open spec fn middle_le(a: MiddleEntry, b: MiddleEntry) -> bool {
    a.0 < b.0 || (a.0 == b.0 && a.1 <= b.1)
}

/// Entries ordered by position and rank.
pub open spec fn middle_sorted(s: Seq<MiddleEntry>) -> bool {
    forall|i: int, j: int| 0 <= i < j < s.len() ==> middle_le(#[trigger] s[i], #[trigger] s[j])
}

/// Exchanging two entries keeps the multiset of entries.
proof fn lemma_swap_multiset(s: Seq<MiddleEntry>, i: int, j: int)
    requires
        0 <= i < s.len(),
        0 <= j < s.len(),
    ensures
        s.update(i, s[j]).update(j, s[i]).to_multiset() == s.to_multiset(),
{
    broadcast use vstd::seq_lib::to_multiset_update, vstd::seq_lib::to_multiset_contains,
        vstd::multiset::group_multiset_axioms;

    let s1 = s.update(i, s[j]);
    assert(s1.to_multiset() == s.to_multiset().insert(s[j]).remove(s[i]));
    assert(s1.update(j, s[i]).to_multiset() == s1.to_multiset().insert(s[i]).remove(s1[j]));
    if i == j {
        assert(s.update(i, s[j]).update(j, s[i]) =~= s);
    } else {
        assert(s1[j] == s[j]);
        let m = s.to_multiset();
        assert(s.contains(s[i]));
        assert(s.contains(s[j]));
        assert(m.count(s[i]) > 0);
        assert(m.count(s[j]) > 0);
        assert(m.insert(s[j]).remove(s[i]).insert(s[i]).remove(s[j]) =~= m);
    }
}

/// Insertion sort of the middle entries by position and rank.
fn sort_middle(middle: &mut Vec<MiddleEntry>, placements: Ghost<nat>, fragments: Ghost<nat>)
    requires
        forall|m: int| 0 <= m < old(middle)@.len() ==> #[trigger] middle_entry_ok(old(middle)@[m], placements@, fragments@),
    ensures
        final(middle)@.len() == old(middle)@.len(),
        final(middle)@.to_multiset() == old(middle)@.to_multiset(),
        middle_sorted(final(middle)@),
        forall|m: int| 0 <= m < final(middle)@.len() ==> #[trigger] middle_entry_ok(final(middle)@[m], placements@, fragments@),
{
    let n = middle.len();
    if n == 0 {
        return;
    }
    let mut a: usize = 1;
    while a < n
        invariant
            1 <= a <= n,
            middle@.len() == n,
            middle@.to_multiset() == old(middle)@.to_multiset(),
            middle_sorted(middle@.take(a as int)),
            forall|m: int| 0 <= m < n ==> #[trigger] middle_entry_ok(middle@[m], placements@, fragments@),
        decreases n - a,
    {
        let mut b = a;
        assert forall|i: int, j: int| 0 <= i < j <= a && i != b && j != b implies middle_le(
            middle@[i],
            middle@[j],
        ) by {
            assert(middle@.take(a as int)[i] == middle@[i]);
            assert(middle@.take(a as int)[j] == middle@[j]);
        }
        while b > 0 && middle_after(middle[b - 1], middle[b])
            invariant
                b <= a < n,
                middle@.len() == n,
                middle@.to_multiset() == old(middle)@.to_multiset(),
                forall|i: int, j: int|
                    0 <= i < j <= a && i != b && j != b ==> middle_le(#[trigger] middle@[i], #[trigger] middle@[j]),
                forall|j: int| b < j <= a ==> middle_le(middle@[b as int], #[trigger] middle@[j]),
                forall|m: int| 0 <= m < n ==> #[trigger] middle_entry_ok(middle@[m], placements@, fragments@),
            decreases b,
        {
            let x = middle[b - 1];
            let y = middle[b];
            assert(middle_entry_ok(middle@[b - 1], placements@, fragments@));
            assert(middle_entry_ok(middle@[b as int], placements@, fragments@));
            proof {
                lemma_swap_multiset(middle@, b - 1, b as int);
            }
            middle.set(b - 1, y);
            middle.set(b, x);
            b = b - 1;
        }
        assert forall|i: int, j: int| 0 <= i < j < a + 1 implies middle_le(
            #[trigger] middle@.take(a + 1)[i],
            #[trigger] middle@.take(a + 1)[j],
        ) by {
            if i == b {
            } else if j == b {
                assert(middle_le(middle@[i], middle@[b - 1]) || i == b - 1);
            }
        }
        a = a + 1;
    }
    assert(middle@.take(n as int) =~= middle@);
}

/// How many placements of a class, among the first `end`, lie in a column.
pub open spec fn count_class(
    pl: Seq<StagingFloatPlacement>,
    column: u32,
    class: FloatPlacementClass,
    end: int,
) -> nat
    decreases end,
{
    if end <= 0 || end > pl.len() {
        0
    } else {
        count_class(pl, column, class, end - 1) + (if pl[end - 1].column_index == column && pl[end - 1].class
            == class {
            1nat
        } else {
            0nat
        })
    }
}

/// How many body fragments, among the first `end`, lie in a column.
pub open spec fn count_fragments(fl: Seq<StagingFloatBodyFragment>, column: u32, end: int) -> nat
    decreases end,
{
    if end <= 0 || end > fl.len() {
        0
    } else {
        count_fragments(fl, column, end - 1) + (if fl[end - 1].column_index == column {
            1nat
        } else {
            0nat
        })
    }
}

/// `b` is `a` with at most its paint ordinal changed.
pub open spec fn placement_ordinal_only(a: StagingFloatPlacement, b: StagingFloatPlacement) -> bool {
    b == (StagingFloatPlacement { frame_paint_ordinal: b.frame_paint_ordinal, ..a })
}

/// `b` is `a` with at most its paint ordinal changed.
pub open spec fn fragment_ordinal_only(a: StagingFloatBodyFragment, b: StagingFloatBodyFragment) -> bool {
    b == (StagingFloatBodyFragment { frame_paint_ordinal: b.frame_paint_ordinal, ..a })
}

/// The first paint ordinal of a column's bottom floats: after its top
/// floats, its body fragments and its floats placed here.
pub open spec fn bottom_base(pl: Seq<StagingFloatPlacement>, fl: Seq<StagingFloatBodyFragment>, column: u32) -> nat {
    count_class(pl, column, FloatPlacementClass::Top, pl.len() as int) + count_fragments(fl, column, fl.len() as int)
        + count_class(pl, column, FloatPlacementClass::Here, pl.len() as int)
}

proof fn lemma_count_class_mono(
    pl: Seq<StagingFloatPlacement>,
    column: u32,
    class: FloatPlacementClass,
    i: int,
    j: int,
)
    requires
        0 <= i <= j <= pl.len(),
    ensures
        count_class(pl, column, class, i) <= count_class(pl, column, class, j),
    decreases j - i,
{
    if i < j {
        lemma_count_class_mono(pl, column, class, i, j - 1);
    }
}

proof fn lemma_counts_bound(pl: Seq<StagingFloatPlacement>, fl: Seq<StagingFloatBodyFragment>, column: u32, i: int)
    requires
        0 <= i <= pl.len(),
    ensures
        count_class(pl, column, FloatPlacementClass::Top, i) + count_class(pl, column, FloatPlacementClass::Here, i)
            + count_class(pl, column, FloatPlacementClass::Bottom, i) <= i,
        i == pl.len() ==> count_fragments(fl, column, fl.len() as int) <= fl.len(),
    decreases i,
{
    if i > 0 {
        lemma_counts_bound(pl, fl, column, i - 1);
    }
    if i == pl.len() {
        lemma_count_fragments_bound(fl, column, fl.len() as int);
    }
}

proof fn lemma_count_fragments_bound(fl: Seq<StagingFloatBodyFragment>, column: u32, i: int)
    requires
        0 <= i <= fl.len(),
    ensures
        count_fragments(fl, column, i) <= i,
    decreases i,
{
    if i > 0 {
        lemma_count_fragments_bound(fl, column, i - 1);
    }
}

/// The middle entry of a float placed here: its anchor's position, rank 0.
spec fn here_entry(pl: Seq<StagingFloatPlacement>, t: int) -> MiddleEntry {
    (pl[t].anchor_position.ordinal, 0u8, t as usize, true)
}

/// The middle entry of a body fragment: its position, rank 1.
spec fn fragment_entry(fl: Seq<StagingFloatBodyFragment>, t: int) -> MiddleEntry {
    (fl[t].before_position, 1u8, t as usize, false)
}

/// A middle entry is that of a float placed here in the column, or of a
/// body fragment of the column.
spec fn middle_entry_in(
    e: MiddleEntry,
    pl: Seq<StagingFloatPlacement>,
    fl: Seq<StagingFloatBodyFragment>,
    column: u32,
) -> bool {
    if e.3 {
        e.2 < pl.len() && pl[e.2 as int].column_index == column && pl[e.2 as int].class == FloatPlacementClass::Here
            && e == here_entry(pl, e.2 as int)
    } else {
        e.2 < fl.len() && fl[e.2 as int].column_index == column && e == fragment_entry(fl, e.2 as int)
    }
}

/// The column of the item a middle entry names.
spec fn entry_column(e: MiddleEntry, pl: Seq<StagingFloatPlacement>, fl: Seq<StagingFloatBodyFragment>) -> u32 {
    if e.3 {
        pl[e.2 as int].column_index
    } else {
        fl[e.2 as int].column_index
    }
}

/// A middle entry is that of a float placed here or of a body fragment,
/// in its own column.
spec fn middle_item(e: MiddleEntry, pl: Seq<StagingFloatPlacement>, fl: Seq<StagingFloatBodyFragment>) -> bool {
    middle_entry_in(e, pl, fl, entry_column(e, pl, fl))
}

/// The paint ordinal of the item a middle entry names.
spec fn entry_ordinal(e: MiddleEntry, pl: Seq<StagingFloatPlacement>, fl: Seq<StagingFloatBodyFragment>) -> u32 {
    if e.3 {
        pl[e.2 as int].frame_paint_ordinal
    } else {
        fl[e.2 as int].frame_paint_ordinal
    }
}

/// What holds of every entry still holds after a reordering.
proof fn lemma_middle_entries_kept(
    a: Seq<MiddleEntry>,
    b: Seq<MiddleEntry>,
    pl: Seq<StagingFloatPlacement>,
    fl: Seq<StagingFloatBodyFragment>,
    column: u32,
)
    requires
        a.to_multiset() == b.to_multiset(),
        forall|k: int| 0 <= k < a.len() ==> #[trigger] middle_entry_in(a[k], pl, fl, column),
    ensures
        forall|k: int| 0 <= k < b.len() ==> #[trigger] middle_entry_in(b[k], pl, fl, column),
        forall|x: MiddleEntry| a.contains(x) ==> b.contains(x),
        a.no_duplicates() ==> b.no_duplicates(),
{
    broadcast use vstd::seq_lib::to_multiset_contains;

    assert forall|x: MiddleEntry| a.contains(x) implies b.contains(x) by {
        assert(a.to_multiset().count(x) > 0);
    }
    if a.no_duplicates() {
        a.lemma_multiset_has_no_duplicates();
        assert forall|x: MiddleEntry| b.to_multiset().contains(x) implies b.to_multiset().count(x) == 1 by {
            assert(a.to_multiset().contains(x));
        }
        b.lemma_multiset_has_no_duplicates_conv();
    }

    assert forall|k: int| 0 <= k < b.len() implies #[trigger] middle_entry_in(b[k], pl, fl, column) by {
        assert(b.contains(b[k]));
        assert(a.to_multiset().count(b[k]) > 0);
        assert(a.contains(b[k]));
        let j = choose|j: int| 0 <= j < a.len() && a[j] == b[k];
        assert(middle_entry_in(a[j], pl, fl, column));
    }
}

/// Number the items of each column frame in paint order: top floats,
/// then body fragments and floats placed here by flow position (a float
/// before a block at the same position), then bottom floats.
#[verifier::rlimit(40)]
fn assign_paint_ordinals(
    frame_count: usize,
    placements: &mut Vec<StagingFloatPlacement>,
    body_fragments: &mut Vec<StagingFloatBodyFragment>,
) -> (r: Result<(), StagingFloatPaginationError>)
    ensures
        final(placements)@.len() == old(placements)@.len(),
        final(body_fragments)@.len() == old(body_fragments)@.len(),
        r is Ok ==> placed_ids(final(placements)@) == placed_ids(old(placements)@),
        r is Err ==> r == Err::<(), StagingFloatPaginationError>(StagingFloatPaginationError::ArithmeticOverflow),
        frame_count <= u32::MAX as int + 1 && old(placements)@.len() + old(body_fragments)@.len() <= u32::MAX ==> r is Ok,
        r is Ok ==> {
            let pl = old(placements)@;
            let fl = old(body_fragments)@;
            &&& forall|t: int| 0 <= t < pl.len() ==> placement_ordinal_only(pl[t], #[trigger] final(placements)@[t])
            &&& forall|t: int|
                0 <= t < fl.len() ==> fragment_ordinal_only(fl[t], #[trigger] final(body_fragments)@[t])
            &&& forall|t: int|
                0 <= t < pl.len() && (pl[t].column_index >= frame_count || pl[t].class == FloatPlacementClass::NextPage)
                    ==> #[trigger] final(placements)@[t] == pl[t]
            &&& forall|t: int|
                0 <= t < fl.len() && fl[t].column_index >= frame_count ==> #[trigger] final(body_fragments)@[t] == fl[t]
            &&& forall|t: int|
                0 <= t < pl.len() && pl[t].column_index < frame_count && pl[t].class == FloatPlacementClass::Top
                    ==> #[trigger] final(placements)@[t].frame_paint_ordinal == count_class(
                    pl,
                    pl[t].column_index,
                    FloatPlacementClass::Top,
                    t,
                )
            &&& forall|t: int|
                0 <= t < pl.len() && pl[t].column_index < frame_count && pl[t].class == FloatPlacementClass::Bottom
                    ==> #[trigger] final(placements)@[t].frame_paint_ordinal == bottom_base(pl, fl, pl[t].column_index)
                    + count_class(pl, pl[t].column_index, FloatPlacementClass::Bottom, t)
            &&& forall|e: MiddleEntry|
                middle_item(e, pl, fl) && entry_column(e, pl, fl) < frame_count ==> count_class(
                    pl,
                    entry_column(e, pl, fl),
                    FloatPlacementClass::Top,
                    pl.len() as int,
                ) <= #[trigger] entry_ordinal(e, final(placements)@, final(body_fragments)@) < bottom_base(
                    pl,
                    fl,
                    entry_column(e, pl, fl),
                )
            &&& forall|e1: MiddleEntry, e2: MiddleEntry|
                middle_item(e1, pl, fl) && middle_item(e2, pl, fl) && entry_column(e1, pl, fl) == entry_column(
                    e2,
                    pl,
                    fl,
                ) && entry_column(e1, pl, fl) < frame_count && !middle_le(e2, e1) ==> #[trigger] entry_ordinal(
                    e1,
                    final(placements)@,
                    final(body_fragments)@,
                ) < #[trigger] entry_ordinal(e2, final(placements)@, final(body_fragments)@)
        },
{
    let ghost pl0 = placements@;
    let ghost fl0 = body_fragments@;
    let ghost bound_ok = frame_count <= u32::MAX as int + 1 && pl0.len() + fl0.len() <= u32::MAX;
    let mut column_index: usize = 0;
    while column_index < frame_count
        invariant
            pl0 == old(placements)@,
            fl0 == old(body_fragments)@,
            bound_ok == (frame_count <= u32::MAX as int + 1 && pl0.len() + fl0.len() <= u32::MAX),
            column_index <= frame_count,
            placements@.len() == pl0.len(),
            body_fragments@.len() == fl0.len(),
            forall|t: int| 0 <= t < pl0.len() ==> placement_ordinal_only(pl0[t], #[trigger] placements@[t]),
            forall|t: int| 0 <= t < fl0.len() ==> fragment_ordinal_only(fl0[t], #[trigger] body_fragments@[t]),
            forall|t: int|
                0 <= t < pl0.len() && (pl0[t].column_index >= column_index || pl0[t].class
                    == FloatPlacementClass::NextPage) ==> #[trigger] placements@[t] == pl0[t],
            forall|t: int| 0 <= t < fl0.len() && fl0[t].column_index >= column_index ==> #[trigger] body_fragments@[t] == fl0[t],
            forall|t: int|
                0 <= t < pl0.len() && pl0[t].column_index < column_index && pl0[t].class == FloatPlacementClass::Top
                    ==> #[trigger] placements@[t].frame_paint_ordinal == count_class(
                    pl0,
                    pl0[t].column_index,
                    FloatPlacementClass::Top,
                    t,
                ),
            forall|t: int|
                0 <= t < pl0.len() && pl0[t].column_index < column_index && pl0[t].class
                    == FloatPlacementClass::Bottom ==> #[trigger] placements@[t].frame_paint_ordinal == bottom_base(
                    pl0,
                    fl0,
                    pl0[t].column_index,
                ) + count_class(pl0, pl0[t].column_index, FloatPlacementClass::Bottom, t),
            forall|e: MiddleEntry|
                middle_item(e, pl0, fl0) && entry_column(e, pl0, fl0) < column_index ==> count_class(
                    pl0,
                    entry_column(e, pl0, fl0),
                    FloatPlacementClass::Top,
                    pl0.len() as int,
                ) <= #[trigger] entry_ordinal(e, placements@, body_fragments@) < bottom_base(
                    pl0,
                    fl0,
                    entry_column(e, pl0, fl0),
                ),
            forall|e1: MiddleEntry, e2: MiddleEntry|
                middle_item(e1, pl0, fl0) && middle_item(e2, pl0, fl0) && entry_column(e1, pl0, fl0) == entry_column(
                    e2,
                    pl0,
                    fl0,
                ) && entry_column(e1, pl0, fl0) < column_index && !middle_le(e2, e1) ==> #[trigger] entry_ordinal(
                    e1,
                    placements@,
                    body_fragments@,
                ) < #[trigger] entry_ordinal(e2, placements@, body_fragments@),
        decreases frame_count - column_index,
    {
        if column_index > u32::MAX as usize {
            return Err(StagingFloatPaginationError::ArithmeticOverflow);
        }
        let column = column_index as u32;
        let ghost pl_s = placements@;
        let ghost fl_s = body_fragments@;
        proof {
            lemma_counts_bound(pl0, fl0, column, pl0.len() as int);
        }
        let mut next: u32 = 0;
        let mut i: usize = 0;
        while i < placements.len()
            invariant
                pl0 == old(placements)@,
                bound_ok == (frame_count <= u32::MAX as int + 1 && pl0.len() + fl0.len() <= u32::MAX),
                column == column_index,
                i <= pl0.len(),
                placements@.len() == pl0.len(),
                body_fragments@ == fl_s,
                fl_s.len() == fl0.len(),
                fl0 == old(body_fragments)@,
                next == count_class(pl0, column, FloatPlacementClass::Top, i as int),
                forall|t: int| 0 <= t < pl0.len() ==> placement_ordinal_only(pl0[t], #[trigger] placements@[t]),
                forall|t: int|
                    0 <= t < i && pl0[t].column_index == column && pl0[t].class == FloatPlacementClass::Top
                        ==> #[trigger] placements@[t].frame_paint_ordinal == count_class(
                        pl0,
                        column,
                        FloatPlacementClass::Top,
                        t,
                    ),
                forall|t: int|
                    0 <= t < pl0.len() && !(t < i && pl0[t].column_index == column && pl0[t].class
                        == FloatPlacementClass::Top) ==> #[trigger] placements@[t] == pl_s[t],
            decreases placements.len() - i,
        {
            proof {
                lemma_counts_bound(pl0, fl0, column, i as int);
            }
            let mut placement = placements[i];
            assert(placement.column_index == pl0[i as int].column_index && placement.class == pl0[i as int].class);
            let is_top = match placement.class {
                FloatPlacementClass::Top => true,
                _ => false,
            };
            if placement.column_index == column && is_top {
                placement.frame_paint_ordinal = next;
                placements.set(i, placement);
                next = match next.checked_add(1) {
                    Some(v) => v,
                    None => return Err(StagingFloatPaginationError::ArithmeticOverflow),
                };
            }
            i = i + 1;
        }
        let ghost tops = next as nat;
        let ghost pl_t = placements@;
        let ghost pl = placements@.len();
        let ghost fl = body_fragments@.len();
        let mut middle: Vec<MiddleEntry> = Vec::new();
        let mut f: usize = 0;
        while f < body_fragments.len()
            invariant
                pl == placements@.len(),
                fl == body_fragments@.len(),
                fl == fl0.len(),
                pl == pl0.len(),
                f <= fl,
                body_fragments@ == fl_s,
                forall|t: int| 0 <= t < fl0.len() ==> fragment_ordinal_only(fl0[t], #[trigger] fl_s[t]),
                middle@.len() == count_fragments(fl0, column, f as int),
                forall|m: int| 0 <= m < middle@.len() ==> #[trigger] middle_entry_in(middle@[m], pl0, fl0, column),
                middle@.no_duplicates(),
                forall|m: int| 0 <= m < middle@.len() ==> !(#[trigger] middle@[m]).3 && middle@[m].2 < f,
                forall|t: int|
                    0 <= t < f && fl0[t].column_index == column ==> middle@.contains(#[trigger] fragment_entry(fl0, t)),
            decreases body_fragments.len() - f,
        {
            let fragment = body_fragments[f];
            assert(fragment.column_index == fl0[f as int].column_index);
            if fragment.column_index == column {
                let ghost before = middle@;
                middle.push((fragment.before_position, 1u8, f, false));
                proof {
                    assert(middle@.last() == fragment_entry(fl0, f as int));
                    assert forall|t: int|
                        0 <= t < f + 1 && fl0[t].column_index == column implies middle@.contains(
                        #[trigger] fragment_entry(fl0, t),
                    ) by {
                        if t < f {
                            let w = choose|w: int| 0 <= w < before.len() && before[w] == fragment_entry(fl0, t);
                            assert(middle@[w] == fragment_entry(fl0, t));
                        } else {
                            assert(middle@[middle@.len() - 1] == fragment_entry(fl0, t));
                        }
                    }
                }
            }
            f = f + 1;
        }
        let mut p: usize = 0;
        while p < placements.len()
            invariant
                pl == placements@.len(),
                fl == body_fragments@.len(),
                fl == fl0.len(),
                pl == pl0.len(),
                p <= pl,
                placements@ == pl_t,
                forall|t: int| 0 <= t < pl0.len() ==> placement_ordinal_only(pl0[t], #[trigger] pl_t[t]),
                middle@.len() == count_fragments(fl0, column, fl as int) + count_class(
                    pl0,
                    column,
                    FloatPlacementClass::Here,
                    p as int,
                ),
                forall|m: int| 0 <= m < middle@.len() ==> #[trigger] middle_entry_in(middle@[m], pl0, fl0, column),
                middle@.no_duplicates(),
                forall|m: int| 0 <= m < middle@.len() ==> (#[trigger] middle@[m]).3 ==> middle@[m].2 < p,
                forall|t: int|
                    0 <= t < fl && fl0[t].column_index == column ==> middle@.contains(#[trigger] fragment_entry(fl0, t)),
                forall|t: int|
                    0 <= t < p && pl0[t].column_index == column && pl0[t].class == FloatPlacementClass::Here
                        ==> middle@.contains(#[trigger] here_entry(pl0, t)),
            decreases placements.len() - p,
        {
            let placement = placements[p];
            assert(placement.column_index == pl0[p as int].column_index && placement.class == pl0[p as int].class);
            let is_here = match placement.class {
                FloatPlacementClass::Here => true,
                _ => false,
            };
            if placement.column_index == column && is_here {
                let ghost before = middle@;
                middle.push((placement.anchor_position.ordinal, 0u8, p, true));
                proof {
                    assert(middle@.last() == here_entry(pl0, p as int));
                    assert forall|t: int| 0 <= t < fl && fl0[t].column_index == column implies middle@.contains(
                        #[trigger] fragment_entry(fl0, t),
                    ) by {
                        let w = choose|w: int| 0 <= w < before.len() && before[w] == fragment_entry(fl0, t);
                        assert(middle@[w] == fragment_entry(fl0, t));
                    }
                    assert forall|t: int|
                        0 <= t < p + 1 && pl0[t].column_index == column && pl0[t].class == FloatPlacementClass::Here
                            implies middle@.contains(#[trigger] here_entry(pl0, t)) by {
                        if t < p {
                            let w = choose|w: int| 0 <= w < before.len() && before[w] == here_entry(pl0, t);
                            assert(middle@[w] == here_entry(pl0, t));
                        } else {
                            assert(middle@[middle@.len() - 1] == here_entry(pl0, t));
                        }
                    }
                }
            }
            p = p + 1;
        }
        let ghost middle_before = middle@;
        assert forall|m: int| 0 <= m < middle@.len() implies #[trigger] middle_entry_ok(middle@[m], pl, fl) by {
            assert(middle_entry_in(middle@[m], pl0, fl0, column));
        }
        sort_middle(&mut middle, Ghost(pl), Ghost(fl));
        proof {
            lemma_middle_entries_kept(middle_before, middle@, pl0, fl0, column);
        }
        let ghost fl_m0 = body_fragments@;
        let mut m: usize = 0;
        while m < middle.len()
            invariant
                pl0 == old(placements)@,
                fl0 == old(body_fragments)@,
                bound_ok == (frame_count <= u32::MAX as int + 1 && pl0.len() + fl0.len() <= u32::MAX),
                pl == placements@.len(),
                fl == body_fragments@.len(),
                pl == pl0.len(),
                fl == fl0.len(),
                m <= middle@.len(),
                middle@.len() == count_fragments(fl0, column, fl as int) + count_class(
                    pl0,
                    column,
                    FloatPlacementClass::Here,
                    pl as int,
                ),
                tops == count_class(pl0, column, FloatPlacementClass::Top, pl as int),
                next == tops + m,
                count_class(pl0, column, FloatPlacementClass::Top, pl as int) + count_class(
                    pl0,
                    column,
                    FloatPlacementClass::Here,
                    pl as int,
                ) + count_class(pl0, column, FloatPlacementClass::Bottom, pl as int) <= pl,
                count_fragments(fl0, column, fl as int) <= fl,
                forall|t: int| 0 <= t < middle@.len() ==> #[trigger] middle_entry_in(middle@[t], pl0, fl0, column),
                forall|t: int| 0 <= t < pl0.len() ==> placement_ordinal_only(pl0[t], #[trigger] placements@[t]),
                forall|t: int| 0 <= t < fl0.len() ==> fragment_ordinal_only(fl0[t], #[trigger] body_fragments@[t]),
                forall|t: int|
                    0 <= t < pl0.len() && !(pl0[t].column_index == column && pl0[t].class == FloatPlacementClass::Here)
                        ==> #[trigger] placements@[t] == pl_t[t],
                forall|t: int|
                    0 <= t < fl0.len() && fl0[t].column_index != column ==> #[trigger] body_fragments@[t] == fl_m0[t],
                middle@.no_duplicates(),
                forall|t: int|
                    0 <= t < m ==> entry_ordinal(#[trigger] middle@[t], placements@, body_fragments@) == tops + t,
            decreases middle.len() - m,
        {
            let (_, _, index, is_float) = middle[m];
            assert(middle_entry_in(middle@[m as int], pl0, fl0, column));
            let ghost prev_pl = placements@;
            let ghost prev_fl = body_fragments@;
            if is_float {
                let mut placement = placements[index];
                placement.frame_paint_ordinal = next;
                placements.set(index, placement);
            } else {
                let mut fragment = body_fragments[index];
                fragment.frame_paint_ordinal = next;
                body_fragments.set(index, fragment);
            }
            proof {
                assert forall|t: int| 0 <= t < m + 1 implies entry_ordinal(
                    #[trigger] middle@[t],
                    placements@,
                    body_fragments@,
                ) == tops + t by {
                    if t < m {
                        assert(middle@[t] != middle@[m as int]);
                        assert(middle_entry_in(middle@[t], pl0, fl0, column));
                        assert(entry_ordinal(middle@[t], prev_pl, prev_fl) == tops + t);
                    }
                }
            }
            next = match next.checked_add(1) {
                Some(v) => v,
                None => return Err(StagingFloatPaginationError::ArithmeticOverflow),
            };
            m = m + 1;
        }
        proof {
            assert forall|e: MiddleEntry| middle_entry_in(e, pl0, fl0, column) implies exists|w: int|
                0 <= w < middle@.len() && middle@[w] == e by {
                if e.3 {
                    assert(e == here_entry(pl0, e.2 as int));
                    assert(middle_before.contains(here_entry(pl0, e.2 as int)));
                } else {
                    assert(e == fragment_entry(fl0, e.2 as int));
                    assert(middle_before.contains(fragment_entry(fl0, e.2 as int)));
                }
                assert(middle@.contains(e));
            }
            assert forall|e: MiddleEntry| middle_entry_in(e, pl0, fl0, column) implies tops <= #[trigger] entry_ordinal(
                e,
                placements@,
                body_fragments@,
            ) < tops + middle@.len() by {
                let w = choose|w: int| 0 <= w < middle@.len() && middle@[w] == e;
                assert(entry_ordinal(middle@[w], placements@, body_fragments@) == tops + w);
            }
            assert forall|e1: MiddleEntry, e2: MiddleEntry|
                middle_entry_in(e1, pl0, fl0, column) && middle_entry_in(e2, pl0, fl0, column) && !middle_le(
                    e2,
                    e1,
                ) implies #[trigger] entry_ordinal(e1, placements@, body_fragments@) < #[trigger] entry_ordinal(
                e2,
                placements@,
                body_fragments@,
            ) by {
                let w1 = choose|w: int| 0 <= w < middle@.len() && middle@[w] == e1;
                let w2 = choose|w: int| 0 <= w < middle@.len() && middle@[w] == e2;
                assert(entry_ordinal(middle@[w1], placements@, body_fragments@) == tops + w1);
                assert(entry_ordinal(middle@[w2], placements@, body_fragments@) == tops + w2);
                if w2 < w1 {
                    assert(middle_le(middle@[w2], middle@[w1]));
                }
            }
        }
        let ghost pl_m = placements@;
        let ghost fl_m = body_fragments@;
        let mut b: usize = 0;
        while b < placements.len()
            invariant
                pl0 == old(placements)@,
                fl0 == old(body_fragments)@,
                bound_ok == (frame_count <= u32::MAX as int + 1 && pl0.len() + fl0.len() <= u32::MAX),
                column == column_index,
                b <= pl0.len(),
                placements@.len() == pl0.len(),
                body_fragments@.len() == fl0.len(),
                body_fragments@ == fl_m,
                next == bottom_base(pl0, fl0, column) + count_class(pl0, column, FloatPlacementClass::Bottom, b as int),
                count_class(pl0, column, FloatPlacementClass::Top, pl0.len() as int) + count_class(
                    pl0,
                    column,
                    FloatPlacementClass::Here,
                    pl0.len() as int,
                ) + count_class(pl0, column, FloatPlacementClass::Bottom, pl0.len() as int) <= pl0.len(),
                count_fragments(fl0, column, fl0.len() as int) <= fl0.len(),
                forall|t: int| 0 <= t < pl0.len() ==> placement_ordinal_only(pl0[t], #[trigger] placements@[t]),
                forall|t: int|
                    0 <= t < b && pl0[t].column_index == column && pl0[t].class == FloatPlacementClass::Bottom
                        ==> #[trigger] placements@[t].frame_paint_ordinal == bottom_base(pl0, fl0, column)
                        + count_class(pl0, column, FloatPlacementClass::Bottom, t),
                forall|t: int|
                    0 <= t < pl0.len() && !(t < b && pl0[t].column_index == column && pl0[t].class
                        == FloatPlacementClass::Bottom) ==> #[trigger] placements@[t] == pl_m[t],
            decreases placements.len() - b,
        {
            proof {
                lemma_count_class_mono(pl0, column, FloatPlacementClass::Bottom, b + 1, pl0.len() as int);
            }
            let mut placement = placements[b];
            assert(placement.column_index == pl0[b as int].column_index && placement.class == pl0[b as int].class);
            let is_bottom = match placement.class {
                FloatPlacementClass::Bottom => true,
                _ => false,
            };
            if placement.column_index == column && is_bottom {
                placement.frame_paint_ordinal = next;
                placements.set(b, placement);
                next = match next.checked_add(1) {
                    Some(v) => v,
                    None => return Err(StagingFloatPaginationError::ArithmeticOverflow),
                };
            }
            b = b + 1;
        }
        proof {
            assert(fl_m0 == fl_s);
            assert forall|e: MiddleEntry|
                middle_item(e, pl0, fl0) && entry_column(e, pl0, fl0) != column implies #[trigger] entry_ordinal(
                e,
                placements@,
                body_fragments@,
            ) == entry_ordinal(e, pl_s, fl_s) by {
                if e.3 {
                    assert(placements@[e.2 as int] == pl_m[e.2 as int]);
                    assert(pl_m[e.2 as int] == pl_t[e.2 as int]);
                    assert(pl_t[e.2 as int] == pl_s[e.2 as int]);
                } else {
                    assert(body_fragments@[e.2 as int] == fl_m0[e.2 as int]);
                }
            }
            assert forall|e: MiddleEntry| middle_entry_in(e, pl0, fl0, column) implies #[trigger] entry_ordinal(
                e,
                placements@,
                body_fragments@,
            ) == entry_ordinal(e, pl_m, fl_m) by {
                if e.3 {
                    assert(placements@[e.2 as int] == pl_m[e.2 as int]);
                }
            }
            assert forall|e: MiddleEntry|
                middle_item(e, pl0, fl0) && entry_column(e, pl0, fl0) < column_index + 1 implies count_class(
                    pl0,
                    entry_column(e, pl0, fl0),
                    FloatPlacementClass::Top,
                    pl0.len() as int,
                ) <= #[trigger] entry_ordinal(e, placements@, body_fragments@) < bottom_base(
                    pl0,
                    fl0,
                    entry_column(e, pl0, fl0),
                ) by {
                if entry_column(e, pl0, fl0) != column {
                    assert(entry_ordinal(e, placements@, body_fragments@) == entry_ordinal(e, pl_s, fl_s));
                } else {
                    assert(entry_ordinal(e, placements@, body_fragments@) == entry_ordinal(e, pl_m, fl_m));
                }
            }
            assert forall|e1: MiddleEntry, e2: MiddleEntry|
                middle_item(e1, pl0, fl0) && middle_item(e2, pl0, fl0) && entry_column(e1, pl0, fl0) == entry_column(
                    e2,
                    pl0,
                    fl0,
                ) && entry_column(e1, pl0, fl0) < column_index + 1 && !middle_le(
                    e2,
                    e1,
                ) implies #[trigger] entry_ordinal(e1, placements@, body_fragments@) < #[trigger] entry_ordinal(
                e2,
                placements@,
                body_fragments@,
            ) by {
                if entry_column(e1, pl0, fl0) != column {
                    assert(entry_ordinal(e1, placements@, body_fragments@) == entry_ordinal(e1, pl_s, fl_s));
                    assert(entry_ordinal(e2, placements@, body_fragments@) == entry_ordinal(e2, pl_s, fl_s));
                } else {
                    assert(entry_ordinal(e1, placements@, body_fragments@) == entry_ordinal(e1, pl_m, fl_m));
                    assert(entry_ordinal(e2, placements@, body_fragments@) == entry_ordinal(e2, pl_m, fl_m));
                }
            }
        }
        column_index = column_index + 1;
    }
    assert(placed_ids(placements@) =~= placed_ids(old(placements)@));
    Ok(())
}

/// The placements `first` open the placements `placements`.
pub open spec fn placed_first(placements: Seq<StagingFloatPlacement>, first: Seq<StagingFloatPlacement>) -> bool {
    first.len() <= placements.len() && forall|t: int| 0 <= t < first.len() ==> #[trigger] placements[t] == first[t]
}

/// The floats queued when a page starts that fit one below the other at the
/// top of its first column, placed there in queue order.
pub open spec fn first_column_tops(
    queue: Seq<StagingFloatQueueEntry>,
    page_index: u32,
    columns: Seq<StagingColumnLayout>,
) -> Seq<StagingFloatPlacement> {
    if columns.len() == 0 {
        Seq::empty()
    } else {
        top_placements(queue, 0, page_index, columns[0], top_run(queue, 0, columns[0], 0))
    }
}

/// Frame `j` of a float page is column `j`'s template: its index, flow and
/// rectangle.
pub open spec fn frames_follow_columns(frames: Seq<StagingSelectedAdvancedFrame>, columns: Seq<StagingColumnLayout>) -> bool {
    &&& frames.len() == columns.len()
    &&& forall|j: int|
        0 <= j < frames.len() ==> #[trigger] frames[j].column_index == Some(columns[j].column_index)
            && frames[j].frame_flow_id == columns[j].frame_flow_id && frames[j].rect == columns[j].rect
}

/// Whether body item `i` is a float anchor the fill reads as one.
pub open spec fn anchor_at(items: Seq<StagingFloatBodyItem>, i: int) -> bool {
    items[i].kind == StagingFloatBodyItemKind::FloatAnchor && !items[i].forced_page_break
}

/// A float extent that is non-negative and fits the height of every column.
pub open spec fn extent_fits_columns(extent: i64, columns: Seq<StagingColumnLayout>) -> bool {
    0 <= extent && forall|j: int| 0 <= j < columns.len() ==> extent <= (#[trigger] columns[j]).rect.height
}

/// An anchor whose float can be queued: its width fits the narrowest
/// column, its extent every column, and its float and caption are named.
pub open spec fn anchor_float_ok(item: StagingFloatBodyItem, min_column_width: i64, columns: Seq<StagingColumnLayout>) -> bool {
    &&& item.image_width is Some && item.image_width->0 <= min_column_width
    &&& item.float_extent is Some && extent_fits_columns(item.float_extent->0, columns)
    &&& item.float_flow_id is Some && item.caption_flow_id is Some
}

/// A float id that was queued before the page or anchored at `c0..cursor`.
pub open spec fn id_known(
    id: u32,
    q0: Seq<StagingFloatQueueEntry>,
    items: Seq<StagingFloatBodyItem>,
    c0: int,
    cursor: int,
) -> bool {
    ||| exists|u: int| 0 <= u < q0.len() && (#[trigger] q0[u]).float_flow_id == id
    ||| exists|i: int| c0 <= i < cursor && anchor_at(items, i) && (#[trigger] items[i]).float_flow_id == Some(id)
}

/// Queue entries whose extents fit every column and whose floats are known.
pub open spec fn queue_entries_ok(
    q: Seq<StagingFloatQueueEntry>,
    q0: Seq<StagingFloatQueueEntry>,
    items: Seq<StagingFloatBodyItem>,
    c0: int,
    cursor: int,
    columns: Seq<StagingColumnLayout>,
) -> bool {
    forall|t: int|
        0 <= t < q.len() ==> extent_fits_columns((#[trigger] q[t]).float_extent, columns) && id_known(
            q[t].float_flow_id,
            q0,
            items,
            c0,
            cursor,
        )
}

/// A page fill that stays representable: consecutive positions, no negative
/// extent, every group from `cursor` on fitting every column, columns with
/// a non-negative top and height whose top plus twice the height is an
/// `i64`; queued floats and the floats anchored from `cursor` on fitting
/// every column, anchored floats named, fitting the narrowest column and
/// all distinct; room in the queue for every float, and in the fragment
/// limit for a frame per column, a placement per float and a fragment per
/// item.
pub open spec fn page_fill_ok(
    layout: StagingFloatLayout,
    queue: Seq<StagingFloatQueueEntry>,
    cursor: u32,
    records: u64,
    limits: PaginationLimits,
    min_column_width: i64,
) -> bool {
    let items = layout.body_items@;
    let columns = layout.columns@;
    &&& body_positions_consecutive(items)
    &&& cursor <= items.len()
    &&& forall|i: int| 0 <= i < items.len() ==> (#[trigger] items[i]).block_extent >= 0
    &&& forall|i: int, j: int|
        cursor <= i < items.len() && items[i].kind == StagingFloatBodyItemKind::Block && !items[i].forced_page_break
            && 0 <= j < columns.len() ==> (#[trigger] group_extent_spec(items, i) matches Ok((_, x)) && x <= (
        #[trigger] columns[j]).rect.height)
    &&& forall|j: int|
        0 <= j < columns.len() ==> 0 <= (#[trigger] columns[j]).rect.y && 0 <= columns[j].rect.height
            && columns[j].rect.y + 2 * columns[j].rect.height <= i64::MAX
    &&& forall|u: int| 0 <= u < queue.len() ==> extent_fits_columns((#[trigger] queue[u]).float_extent, columns)
    &&& forall|i: int|
        cursor <= i < items.len() && anchor_at(items, i) ==> anchor_float_ok(
            #[trigger] items[i],
            min_column_width,
            columns,
        )
    &&& forall|i: int, i2: int|
        cursor <= i < i2 < items.len() && anchor_at(items, i) && anchor_at(items, i2) ==> (#[trigger] items[i]).float_flow_id
            != (#[trigger] items[i2]).float_flow_id
    &&& forall|i: int, u: int|
        cursor <= i < items.len() && anchor_at(items, i) && 0 <= u < queue.len() ==> (#[trigger] items[i]).float_flow_id
            != Some((#[trigger] queue[u]).float_flow_id)
    &&& queue.len() + items.len() <= limits.max_float_queue
    &&& records + columns.len() + queue.len() + 2 * items.len() <= limits.max_fragments
}

/// Entries taken, in order, from `shift` on in a queue keep what is known
/// of them.
proof fn lemma_queue_entries_kept(
    a: Seq<StagingFloatQueueEntry>,
    b: Seq<StagingFloatQueueEntry>,
    shift: int,
    q0: Seq<StagingFloatQueueEntry>,
    items: Seq<StagingFloatBodyItem>,
    c0: int,
    cursor: int,
    columns: Seq<StagingColumnLayout>,
)
    requires
        queue_entries_ok(a, q0, items, c0, cursor, columns),
        0 <= shift,
        b.len() + shift <= a.len(),
        forall|t: int|
            0 <= t < b.len() ==> (#[trigger] b[t]).float_extent == a[t + shift].float_extent && b[t].float_flow_id
                == a[t + shift].float_flow_id,
    ensures
        queue_entries_ok(b, q0, items, c0, cursor, columns),
{
    assert forall|t: int| 0 <= t < b.len() implies extent_fits_columns((#[trigger] b[t]).float_extent, columns)
        && id_known(b[t].float_flow_id, q0, items, c0, cursor) by {
        assert(extent_fits_columns(a[t + shift].float_extent, columns));
    }
}

proof fn lemma_top_run_prefix(q: Seq<StagingFloatQueueEntry>, used: int, column: StagingColumnLayout, i: int)
    requires
        0 <= i <= q.len(),
    ensures
        forall|m: int|
            i <= m < top_run(q, used, column, i) ==> fits_int(#[trigger] stacked(q, used, m), q[m].float_extent, column),
    decreases q.len() - i,
{
    if i < q.len() && fits_int(stacked(q, used, i), q[i].float_extent, column) {
        lemma_top_run_prefix(q, used, column, i + 1);
    }
}

/// Heads stacked at the top stay within the column.
proof fn lemma_top_stack(q: Seq<StagingFloatQueueEntry>, used: int, column: StagingColumnLayout, k: int)
    requires
        0 <= used <= column.rect.height,
        forall|t: int| 0 <= t < q.len() ==> (#[trigger] q[t]).float_extent >= 0,
        0 <= k <= top_run(q, used, column, 0),
    ensures
        used <= stacked(q, used, k) <= column.rect.height,
    decreases k,
{
    lemma_top_run_bounds(q, used, column, 0);
    lemma_top_run_prefix(q, used, column, 0);
    if k > 0 {
        lemma_top_stack(q, used, column, k - 1);
        assert(fits_int(stacked(q, used, k - 1), q[k - 1].float_extent, column));
    }
}

proof fn lemma_bottom_run_prefix(q: Seq<StagingFloatQueueEntry>, top_used: int, column: StagingColumnLayout, i: int)
    requires
        0 <= i <= q.len(),
    ensures
        forall|m: int|
            i <= m < bottom_run(q, top_used, column, i) ==> bottom_sums_ok(q, top_used, m) && top_used + (#[trigger] stacked(
                q,
                0,
                m,
            )) + q[m].float_extent <= column.rect.height,
    decreases q.len() - i,
{
    if i < q.len() && bottom_sums_ok(q, top_used, i) && top_used + stacked(q, 0, i) + q[i].float_extent
        <= column.rect.height {
        lemma_bottom_run_prefix(q, top_used, column, i + 1);
    }
}

/// Heads stacked at the bottom stay within the column with its top.
proof fn lemma_bottom_stack(q: Seq<StagingFloatQueueEntry>, top_used: int, column: StagingColumnLayout, k: int)
    requires
        0 <= top_used <= column.rect.height,
        forall|t: int| 0 <= t < q.len() ==> (#[trigger] q[t]).float_extent >= 0,
        0 <= k <= bottom_run(q, top_used, column, 0),
    ensures
        0 <= stacked(q, 0, k),
        top_used + stacked(q, 0, k) <= column.rect.height,
    decreases k,
{
    lemma_bottom_run_bounds(q, top_used, column, 0);
    lemma_bottom_run_prefix(q, top_used, column, 0);
    if k > 0 {
        lemma_bottom_stack(q, top_used, column, k - 1);
        assert(top_used + stacked(q, 0, k - 1) + q[k - 1].float_extent <= column.rect.height);
    }
}

proof fn lemma_range_extent_within(items: Seq<StagingFloatBodyItem>, a: int, b: int, c: int)
    requires
        0 <= a <= b <= c <= items.len(),
        forall|i: int| 0 <= i < items.len() ==> (#[trigger] items[i]).block_extent >= 0,
    ensures
        0 <= range_extent(items, a, b) <= range_extent(items, a, c),
    decreases c - b,
{
    if b < c {
        lemma_range_extent_within(items, a, b, c - 1);
    } else {
        lemma_range_extent_nonneg(items, a, b);
    }
}

proof fn lemma_range_extent_nonneg(items: Seq<StagingFloatBodyItem>, a: int, b: int)
    requires
        0 <= a <= b <= items.len(),
        forall|i: int| 0 <= i < items.len() ==> (#[trigger] items[i]).block_extent >= 0,
    ensures
        0 <= range_extent(items, a, b),
    decreases b - a,
{
    if a < b {
        lemma_range_extent_nonneg(items, a, b - 1);
    }
}

/// A page evaluated by the queue fill, before its carries and paint
/// ordinals.
struct EvaluatedFloatPage {
    page: StagingFloatSelectedPage,
    forced_page_boundary: bool,
    last_eligible_column: u32,
}

/// Fill the columns of page `page_index` from `cursor`: each column first
/// takes queued floats at its top, then body groups while they fit, with
/// each float anchor enqueuing its float and trying it here, then queued
/// floats at its bottom. A forced page break ends the fill; later columns
/// still get frames but take nothing.
#[verifier::rlimit(40)]
fn evaluate_page(
    layout: &StagingFloatLayout,
    page_index: u32,
    cursor: &mut u32,
    terminal: u32,
    min_column_width: i64,
    queue: &mut Vec<StagingFloatQueueEntry>,
    limits: &PaginationLimits,
    boxes: StagingSelectedPageBoxes,
    margins: StagingPageMargins,
    selected_records: &mut u64,
    placed_before: Ghost<Seq<u32>>,
) -> (r: Result<EvaluatedFloatPage, StagingFloatPaginationError>)
    requires
        terminal == layout.body_items@.len(),
        body_positions_consecutive(layout.body_items@) ==> *old(cursor) <= terminal && placed_before@ + queue_ids(
            old(queue)@,
        ) == anchor_ids(layout.body_items@.take(*old(cursor) as int)),
    ensures
        r matches Ok(ev) ==> {
            &&& ev.page.page_index == page_index
            &&& ev.page.master_id@ == layout.master_id@
            &&& ev.page.boxes == boxes
            &&& ev.page.margins == margins
            &&& frames_follow_columns(ev.page.frames@, layout.columns@)
            &&& body_positions_consecutive(layout.body_items@) ==> *final(cursor) <= terminal && placed_before@
                + placed_ids(ev.page.placements@) + queue_ids(final(queue)@) == anchor_ids(
                layout.body_items@.take(*final(cursor) as int),
            )
        },
        page_fill_ok(*layout, old(queue)@, *old(cursor), *old(selected_records), *limits, min_column_width) ==> r is Ok,
        page_fill_ok(*layout, old(queue)@, *old(cursor), *old(selected_records), *limits, min_column_width) && old(
            queue,
        )@.len() == 0 && *old(cursor) < terminal && layout.columns@.len() > 0 ==> *final(cursor) > *old(cursor),
        r matches Ok(ev) ==> placed_first(ev.page.placements@, first_column_tops(old(queue)@, page_index, layout.columns@)),
{
    let ghost ok = page_fill_ok(*layout, old(queue)@, *old(cursor), *old(selected_records), *limits, min_column_width);
    let ghost cursor0 = *old(cursor);
    let ghost rec0 = *old(selected_records);
    let ghost q_entry = old(queue)@;
    let queue_before = queue.clone();
    match charge_fragments(selected_records, layout.columns.len() as u64, limits) {
        Ok(()) => {},
        Err(e) => return Err(e),
    }
    let mut frames: Vec<StagingSelectedAdvancedFrame> = Vec::new();
    let mut body_fragments: Vec<StagingFloatBodyFragment> = Vec::new();
    let mut placements: Vec<StagingFloatPlacement> = Vec::new();
    let mut candidates: Vec<StagingFloatCandidateDecision> = Vec::new();
    let mut forced_page_boundary = false;
    let mut last_eligible_column: u32 = 0;
    let mut k: usize = 0;
    assert(placed_ids(placements@) =~= Seq::<u32>::empty());
    assert(placed_before@ + placed_ids(placements@) =~= placed_before@);
    while k < layout.columns.len()
        invariant
            terminal == layout.body_items@.len(),
            k <= layout.columns@.len(),
            frames@.len() == k,
            forall|j: int|
                0 <= j < k ==> #[trigger] frames@[j].column_index == Some(layout.columns@[j].column_index)
                    && frames@[j].frame_flow_id == layout.columns@[j].frame_flow_id && frames@[j].rect
                    == layout.columns@[j].rect,
            body_positions_consecutive(layout.body_items@) ==> *cursor <= terminal && placed_before@ + placed_ids(
                placements@,
            ) + queue_ids(queue@) == anchor_ids(layout.body_items@.take(*cursor as int)),
            q_entry == old(queue)@,
            cursor0 == *old(cursor),
            rec0 == *old(selected_records),
            ok == page_fill_ok(*layout, q_entry, cursor0, rec0, *limits, min_column_width),
            ok ==> cursor0 <= *cursor <= terminal && *selected_records == rec0 + layout.columns@.len()
                + body_fragments@.len() + placements@.len() && placements@.len() + queue@.len() <= q_entry.len() + (
            *cursor - cursor0) && body_fragments@.len() <= *cursor - cursor0 && queue_entries_ok(
                queue@,
                q_entry,
                layout.body_items@,
                cursor0 as int,
                *cursor as int,
                layout.columns@,
            ),
            k == 0 ==> queue@ == q_entry && *cursor == cursor0 && !forced_page_boundary && placements@.len() == 0,
            k > 0 ==> placed_first(placements@, first_column_tops(q_entry, page_index, layout.columns@)),
            ok && q_entry.len() == 0 && cursor0 < terminal && k > 0 ==> *cursor > cursor0,
        decreases layout.columns.len() - k,
    {
        let column = layout.columns[k];
        let before = *cursor;
        let height = column.rect.height;
        let mut used: i64 = 0;
        let boundary_precedes_column = forced_page_boundary;
        if !boundary_precedes_column {
            last_eligible_column = column.column_index;
            let ghost p0 = placed_ids(placements@);
            let ghost q0 = queue_ids(queue@);
            let ghost qb = queue@;
            let ghost ub = used as int;
            proof {
                if ok {
                    assert(0 <= layout.columns@[k as int].rect.y);
                    assert forall|t: int| 0 <= t < qb.len() implies (#[trigger] qb[t]).float_extent >= 0 by {
                        assert(extent_fits_columns(qb[t].float_extent, layout.columns@));
                    }
                    lemma_top_run_bounds(qb, ub, column, 0);
                    assert forall|m: int| 0 <= m < top_run(qb, ub, column, 0) implies #[trigger] top_step_ok(
                        qb,
                        ub,
                        column,
                        *selected_records,
                        *limits,
                        m,
                    ) by {
                        lemma_top_stack(qb, ub, column, m);
                    }
                }
            }
            let ghost pl_before = placements@;
            match place_top_floats(
                queue,
                &column,
                page_index,
                &mut used,
                &mut placements,
                &mut candidates,
                selected_records,
                limits,
            ) {
                Ok(()) => {},
                Err(e) => return Err(e),
            }
            proof {
                if k == 0 {
                    assert(placements@ =~= first_column_tops(q_entry, page_index, layout.columns@));
                } else {
                    assert forall|t: int| 0 <= t < first_column_tops(q_entry, page_index, layout.columns@).len() implies #[trigger] placements@[t]
                        == first_column_tops(q_entry, page_index, layout.columns@)[t] by {
                        assert(placements@[t] == pl_before[t]);
                    }
                }
            }
            proof {
                lemma_flow_preserved(placed_before@, p0, q0, placed_ids(placements@), queue_ids(queue@));
                if ok {
                    let n = top_run(qb, ub, column, 0);
                    lemma_top_stack(qb, ub, column, n);
                    lemma_queue_entries_kept(
                        qb,
                        queue@,
                        n,
                        q_entry,
                        layout.body_items@,
                        cursor0 as int,
                        *cursor as int,
                        layout.columns@,
                    );
                }
            }
        }
        if !boundary_precedes_column && *cursor < terminal {
            loop
                invariant_except_break
                    *cursor < terminal,
                invariant
                    terminal == layout.body_items@.len(),
                    body_positions_consecutive(layout.body_items@) ==> *cursor <= terminal && placed_before@ + placed_ids(
                    placements@,
                ) + queue_ids(queue@) == anchor_ids(layout.body_items@.take(*cursor as int)),
                    q_entry == old(queue)@,
            cursor0 == *old(cursor),
            rec0 == *old(selected_records),
            ok == page_fill_ok(*layout, q_entry, cursor0, rec0, *limits, min_column_width),
            ok ==> cursor0 <= *cursor <= terminal && *selected_records == rec0 + layout.columns@.len()
                + body_fragments@.len() + placements@.len() && placements@.len() + queue@.len() <= q_entry.len() + (
            *cursor - cursor0) && body_fragments@.len() <= *cursor - cursor0 && queue_entries_ok(
                queue@,
                q_entry,
                layout.body_items@,
                cursor0 as int,
                *cursor as int,
                layout.columns@,
            ),
                    k < layout.columns@.len(),
                    column == layout.columns@[k as int],
                    height == column.rect.height,
                    ok ==> 0 <= used <= height,
                    ok ==> before <= *cursor,
                    ok && k == 0 && q_entry.len() == 0 ==> *cursor > cursor0 || used == 0,
                    placed_first(placements@, first_column_tops(q_entry, page_index, layout.columns@)),
                ensures
                    ok && k == 0 && q_entry.len() == 0 ==> *cursor > cursor0,
                decreases terminal - *cursor,
            {
                let item_index = *cursor as usize;
                let item = layout.body_items[item_index];
                proof {
                    if ok {
                        assert(layout.body_items@[item_index as int].before_position == item_index);
                        assert(0 <= layout.columns@[k as int].rect.y);
                    }
                }
                proof {
                    lemma_anchor_ids_step(layout.body_items@, item_index as int);
                }
                if item.forced_page_break {
                    *cursor = item.after_position;
                    forced_page_boundary = true;
                    break;
                }
                let is_anchor = match item.kind {
                    StagingFloatBodyItemKind::Block => false,
                    StagingFloatBodyItemKind::FloatAnchor => true,
                };
                if is_anchor {
                    let ghost q0 = queue_ids(queue@);
                    match enqueue_float(
                        &item,
                        page_index,
                        column.column_index,
                        min_column_width,
                        height,
                        queue,
                        limits,
                    ) {
                        Ok(()) => {},
                        Err(e) => return Err(e),
                    }
                    // Flow positions advance with the items; an anchor that
                    // did not move the cursor forward would be read forever.
                    if item.after_position <= *cursor {
                        return Err(StagingFloatPaginationError::ProgressContradiction);
                    }
                    *cursor = item.after_position;
                    proof {
                        if body_positions_consecutive(layout.body_items@) {
                            assert(enqueues_float(item));
                            assert(placed_before@ + placed_ids(placements@) + queue_ids(queue@) =~= (placed_before@
                                + placed_ids(placements@) + q0).push(item.float_flow_id->0));
                        }
                    }
                    let ghost p1 = placed_ids(placements@);
                    let ghost q1 = queue_ids(queue@);
                    match evaluate_here_head(
                        queue,
                        &column,
                        page_index,
                        &mut used,
                        &mut placements,
                        &mut candidates,
                        selected_records,
                        limits,
                    ) {
                        Ok(()) => {},
                        Err(e) => return Err(e),
                    }
                    proof {
                        lemma_flow_preserved(placed_before@, p1, q1, placed_ids(placements@), queue_ids(queue@));
                    }
                    if *cursor >= terminal {
                        break;
                    }
                } else {
                    proof {
                        if ok {
                            assert(group_extent_spec(layout.body_items@, item_index as int) matches Ok((_, x)) && x
                                <= layout.columns@[k as int].rect.height);
                        }
                    }
                    let (group_end, extent) = match group_extent(layout.body_items.as_slice(), item_index) {
                        Ok(g) => g,
                        Err(e) => return Err(e),
                    };
                    let ghost used_start = used as int;
                    proof {
                        if ok {
                            lemma_group_run_bounds(layout.body_items@, item_index as int);
                            assert(group_end as int == group_run(layout.body_items@, item_index as int));
                            assert(fits_i64(range_extent(layout.body_items@, item_index as int, group_end as int)));
                            assert(extent == range_extent(layout.body_items@, item_index as int, group_end as int));
                            lemma_range_extent_within(
                                layout.body_items@,
                                item_index as int,
                                item_index as int,
                                group_end as int,
                            );
                        }
                    }
                    if extent > height {
                        return Err(StagingFloatPaginationError::Oversize(item.node_id));
                    }
                    let required = match used.checked_add(extent) {
                        Some(v) => v,
                        None => return Err(StagingFloatPaginationError::ArithmeticOverflow),
                    };
                    if required > height {
                        break;
                    }
                    let start_cursor = *cursor;
                    let mut source_index = item_index;
                    while source_index < group_end
                        invariant
                            item_index <= source_index <= group_end,
                            group_end <= layout.body_items@.len(),
                            terminal == layout.body_items@.len(),
                            forall|t: int| item_index <= t < group_end ==> #[trigger] layout.body_items@[t].kind
                                == StagingFloatBodyItemKind::Block && !layout.body_items@[t].forced_page_break,
                            body_positions_consecutive(layout.body_items@) ==> *cursor == source_index && placed_before@
                                + placed_ids(placements@) + queue_ids(queue@) == anchor_ids(
                                layout.body_items@.take(source_index as int),
                            ),
                            q_entry == old(queue)@,
            cursor0 == *old(cursor),
            rec0 == *old(selected_records),
            ok == page_fill_ok(*layout, q_entry, cursor0, rec0, *limits, min_column_width),
            ok ==> cursor0 <= *cursor <= terminal && *selected_records == rec0 + layout.columns@.len()
                + body_fragments@.len() + placements@.len() && placements@.len() + queue@.len() <= q_entry.len() + (
            *cursor - cursor0) && body_fragments@.len() <= *cursor - cursor0 && queue_entries_ok(
                queue@,
                q_entry,
                layout.body_items@,
                cursor0 as int,
                *cursor as int,
                layout.columns@,
            ),
                            k < layout.columns@.len(),
                            column == layout.columns@[k as int],
                            height == column.rect.height,
                            ok ==> 0 <= used_start && used_start + extent <= height && extent == range_extent(
                                layout.body_items@,
                                item_index as int,
                                group_end as int,
                            ) && used == used_start + range_extent(
                                layout.body_items@,
                                item_index as int,
                                source_index as int,
                            ),
                        decreases group_end - source_index,
                    {
                        proof {
                            lemma_anchor_ids_step(layout.body_items@, source_index as int);
                        }
                        let source = layout.body_items[source_index];
                        proof {
                            if ok {
                                lemma_range_extent_within(
                                    layout.body_items@,
                                    item_index as int,
                                    source_index + 1,
                                    group_end as int,
                                );
                                assert(layout.body_items@[source_index as int].block_extent >= 0);
                                assert(0 <= layout.columns@[k as int].rect.y);
                            }
                        }
                        if source.block_extent > 0 {
                            match charge_fragments(selected_records, 1, limits) {
                                Ok(()) => {},
                                Err(e) => return Err(e),
                            }
                            let y = match column.rect.y.checked_add(used) {
                                Some(v) => v,
                                None => return Err(StagingFloatPaginationError::Geometry),
                            };
                            body_fragments.push(
                                StagingFloatBodyFragment {
                                    page_index,
                                    column_index: column.column_index,
                                    frame_flow_id: column.frame_flow_id,
                                    source_flow_id: DOCUMENT_BODY_FLOW,
                                    block_node_id: source.node_id,
                                    before_position: source.before_position,
                                    after_position: source.after_position,
                                    frame_paint_ordinal: 0,
                                    bounds: Rect {
                                        x: column.rect.x,
                                        y,
                                        width: column.rect.width,
                                        height: source.block_extent,
                                    },
                                },
                            );
                            used = match used.checked_add(source.block_extent) {
                                Some(v) => v,
                                None => return Err(StagingFloatPaginationError::ArithmeticOverflow),
                            };
                        }
                        *cursor = source.after_position;
                        source_index = source_index + 1;
                    }
                    // A group that did not move the cursor forward would be
                    // read forever.
                    if *cursor <= start_cursor {
                        return Err(StagingFloatPaginationError::ProgressContradiction);
                    }
                    if *cursor >= terminal {
                        break;
                    }
                }
            }
        }
        if !boundary_precedes_column {
            let ghost p0 = placed_ids(placements@);
            let ghost q0 = queue_ids(queue@);
            let ghost qb = queue@;
            proof {
                if ok {
                    assert(0 <= layout.columns@[k as int].rect.y);
                    assert forall|t: int| 0 <= t < qb.len() implies (#[trigger] qb[t]).float_extent >= 0 by {
                        assert(extent_fits_columns(qb[t].float_extent, layout.columns@));
                    }
                    lemma_bottom_run_bounds(qb, used as int, column, 0);
                    let n = bottom_run(qb, used as int, column, 0);
                    assert forall|m: int| 0 <= m < n implies #[trigger] bottom_step_refusal(
                        qb,
                        column,
                        *selected_records,
                        *limits,
                        m,
                    ) is None by {
                        lemma_bottom_stack(qb, used as int, column, m + 1);
                    }
                    if n < qb.len() {
                        lemma_bottom_stack(qb, used as int, column, n);
                        assert(extent_fits_columns(qb[n].float_extent, layout.columns@));
                    }
                }
            }
            let ghost pl_before = placements@;
            match place_bottom_floats(
                queue,
                &column,
                page_index,
                used,
                &mut placements,
                &mut candidates,
                selected_records,
                limits,
            ) {
                Ok(()) => {},
                Err(e) => return Err(e),
            }
            proof {
                assert forall|t: int| 0 <= t < first_column_tops(q_entry, page_index, layout.columns@).len() implies #[trigger] placements@[t]
                    == first_column_tops(q_entry, page_index, layout.columns@)[t] by {
                    assert(placements@[t] == pl_before[t]);
                }
            }
            proof {
                lemma_flow_preserved(placed_before@, p0, q0, placed_ids(placements@), queue_ids(queue@));
                if ok {
                    let n = bottom_run(qb, used as int, column, 0);
                    lemma_queue_entries_kept(
                        qb,
                        queue@,
                        n,
                        q_entry,
                        layout.body_items@,
                        cursor0 as int,
                        *cursor as int,
                        layout.columns@,
                    );
                }
            }
        }
        frames.push(
            StagingSelectedAdvancedFrame {
                kind: StagingAdvancedPageFrameKind::Body,
                column_index: Some(column.column_index),
                frame_flow_id: column.frame_flow_id,
                source_flow_id: DOCUMENT_BODY_FLOW,
                rect: column.rect,
                before_position: StagingAdvancedFlowPosition { flow_id: DOCUMENT_BODY_FLOW, ordinal: before },
                after_position: StagingAdvancedFlowPosition { flow_id: DOCUMENT_BODY_FLOW, ordinal: *cursor },
                terminal: *cursor == terminal,
                repetition_index: None,
            },
        );
        k = k + 1;
    }
    let page = StagingFloatSelectedPage {
        page_index,
        master_id: layout.master_id.clone(),
        boxes,
        margins,
        frames,
        body_fragments,
        queue_before,
        placements,
        candidates,
        carries: Vec::new(),
        queue_after: Vec::new(),
    };
    Ok(EvaluatedFloatPage { page, forced_page_boundary, last_eligible_column })
}

/// Paginate a float layout: fill pages until the body flow ends and the
/// float queue is empty, carrying what is still queued at the end of a page
/// to the next one, within the page, fragment, queue and carry limits; the
/// selected layout's receipt is verified before it is returned.
#[verifier::loop_isolation(false)]
pub fn paginate_staging_float(layout: &StagingFloatLayout, limits: &PaginationLimits) -> (r: Result<
    StagingFloatSelectedLayout,
    StagingFloatPaginationError,
>)
    ensures
        layout.columns@.len() == 0 ==> r == Err::<StagingFloatSelectedLayout, StagingFloatPaginationError>(
            StagingFloatPaginationError::EmptyColumns,
        ),
        layout.columns@.len() > 0 && float_boxes(*layout) is Err ==> r == Err::<
            StagingFloatSelectedLayout,
            StagingFloatPaginationError,
        >(StagingFloatPaginationError::Geometry),
        layout.columns@.len() > 0 && float_boxes(*layout) is Ok && float_margins(*layout) is Err ==> r == Err::<
            StagingFloatSelectedLayout,
            StagingFloatPaginationError,
        >(StagingFloatPaginationError::Geometry),
        layout.columns@.len() > 0 && float_boxes(*layout) is Ok && float_margins(*layout) is Ok
            && layout.body_items@.len() > u32::MAX ==> r == Err::<
            StagingFloatSelectedLayout,
            StagingFloatPaginationError,
        >(StagingFloatPaginationError::ArithmeticOverflow),
        r matches Ok(selected) ==> {
            &&& selected.receipt_valid()
            &&& selected.spec_pages().len() <= limits.max_pages
            &&& selected.spec_receipt().spec_profile_receipt_sha256() == layout.profile_receipt_sha256@
            &&& selected.spec_receipt().spec_flow_registry_sha256() == layout.flow_registry_sha256@
            &&& forall|k: int| 0 <= k < selected.spec_pages().len() ==> {
                &&& (#[trigger] selected.spec_pages()[k]).master_id@ == layout.master_id@
                &&& frames_follow_columns(selected.spec_pages()[k].frames@, layout.columns@)
                &&& Ok::<StagingSelectedPageBoxes, StagingFloatPaginationError>(selected.spec_pages()[k].boxes)
                    == float_boxes(*layout)
                &&& Ok::<StagingPageMargins, StagingFloatPaginationError>(selected.spec_pages()[k].margins)
                    == float_margins(*layout)
            }
            &&& body_positions_consecutive(layout.body_items@) ==> placement_ids(selected.spec_pages()) == anchor_ids(
                layout.body_items@,
            )
        },
{
    if layout.columns.len() == 0 {
        return Err(StagingFloatPaginationError::EmptyColumns);
    }
    let boxes = match derive_boxes(layout) {
        Ok(b) => b,
        Err(e) => return Err(e),
    };
    let margins = match derive_margins(layout) {
        Ok(m) => m,
        Err(e) => return Err(e),
    };
    if layout.body_items.len() > u32::MAX as usize {
        return Err(StagingFloatPaginationError::ArithmeticOverflow);
    }
    let terminal = layout.body_items.len() as u32;
    let mut min_column_width = layout.columns[0].rect.width;
    let mut c: usize = 1;
    while c < layout.columns.len()
        decreases layout.columns.len() - c,
    {
        if layout.columns[c].rect.width < min_column_width {
            min_column_width = layout.columns[c].rect.width;
        }
        c = c + 1;
    }
    let mut queue: Vec<StagingFloatQueueEntry> = Vec::new();
    let mut pages: Vec<StagingFloatSelectedPage> = Vec::new();
    let mut cursor: u32 = 0;
    let mut selected_records: u64 = 0;
    let mut page_required_by_break = false;
    loop
        invariant
            terminal == layout.body_items@.len(),
            pages@.len() <= limits.max_pages,
            Ok::<StagingSelectedPageBoxes, StagingFloatPaginationError>(boxes) == float_boxes(*layout),
            Ok::<StagingPageMargins, StagingFloatPaginationError>(margins) == float_margins(*layout),
            forall|k: int| 0 <= k < pages@.len() ==> {
                &&& (#[trigger] pages@[k]).master_id@ == layout.master_id@
                &&& frames_follow_columns(pages@[k].frames@, layout.columns@)
                &&& pages@[k].boxes == boxes
                &&& pages@[k].margins == margins
            },
            body_positions_consecutive(layout.body_items@) ==> cursor <= terminal && placement_ids(pages@) + queue_ids(
                queue@,
            ) == anchor_ids(layout.body_items@.take(cursor as int)),
        decreases limits.max_pages - pages@.len(),
    {
        if pages.len() >= limits.max_pages as usize {
            return Err(StagingFloatPaginationError::PageLimit);
        }
        let page_index = pages.len() as u32;
        let page_entry_cursor = cursor;
        let evaluated = match evaluate_page(
            layout,
            page_index,
            &mut cursor,
            terminal,
            min_column_width,
            &mut queue,
            limits,
            boxes,
            margins,
            &mut selected_records,
            Ghost(placement_ids(pages@)),
        ) {
            Ok(ev) => ev,
            Err(e) => return Err(e),
        };
        let mut page = evaluated.page;
        let forced_page_boundary = evaluated.forced_page_boundary;
        if queue.len() > 0 {
            let target_page = match page_index.checked_add(1) {
                Some(v) => v,
                None => return Err(StagingFloatPaginationError::ArithmeticOverflow),
            };
            let mut q: usize = 0;
            while q < queue.len()
                decreases queue.len() - q,
            {
                if queue[q].carry_count >= limits.max_float_carry_pages as u32 {
                    return Err(StagingFloatPaginationError::CarryLimit(queue[q].figure_node_id));
                }
                q = q + 1;
            }
            let head = queue[0];
            page.candidates.push(
                StagingFloatCandidateDecision {
                    float_flow_id: head.float_flow_id,
                    figure_node_id: head.figure_node_id,
                    class: FloatPlacementClass::NextPage,
                    page_index,
                    column_index: evaluated.last_eligible_column,
                    applicable: true,
                    accepted: true,
                },
            );
            match charge_fragments(&mut selected_records, queue.len() as u64, limits) {
                Ok(()) => {},
                Err(e) => return Err(e),
            }
            let mut carries: Vec<StagingFloatCarry> = Vec::new();
            let ghost ids = queue_ids(queue@);
            let mut e: usize = 0;
            while e < queue.len()
                invariant
                    queue_ids(queue@) == ids,
                decreases queue.len() - e,
            {
                let mut entry = queue[e];
                entry.carry_count = match entry.carry_count.checked_add(1) {
                    Some(v) => v,
                    None => return Err(StagingFloatPaginationError::ArithmeticOverflow),
                };
                assert(queue_ids(queue@.update(e as int, entry)) =~= queue_ids(queue@));
                queue.set(e, entry);
                carries.push(
                    StagingFloatCarry {
                        float_flow_id: entry.float_flow_id,
                        figure_node_id: entry.figure_node_id,
                        source_page_index: page_index,
                        target_page_index: target_page,
                        carry_count: entry.carry_count,
                    },
                );
                e = e + 1;
            }
            page.carries = carries;
        }
        page.queue_after = queue.clone();
        match assign_paint_ordinals(page.frames.len(), &mut page.placements, &mut page.body_fragments) {
            Ok(()) => {},
            Err(e) => return Err(e),
        }
        let terminal_blank_page = (pages.len() == 0 || page_required_by_break) && cursor == terminal && queue.len()
            == 0 && page.body_fragments.len() == 0;
        if cursor == page_entry_cursor && page.placements.len() == 0 && page.carries.len() == 0
            && !terminal_blank_page {
            return Err(StagingFloatPaginationError::ProgressContradiction);
        }
        let done = cursor == terminal && queue.len() == 0 && !forced_page_boundary;
        let ghost before_pages = pages@;
        pages.push(page);
        assert(pages@.drop_last() =~= before_pages);
        if done {
            break;
        }
        page_required_by_break = forced_page_boundary;
    }
    assert(layout.body_items@.take(layout.body_items@.len() as int) =~= layout.body_items@);
    assert(placement_ids(pages@) + queue_ids(queue@) =~= placement_ids(pages@)) by {
        assert(queue_ids(queue@) =~= Seq::<u32>::empty());
    }
    let receipt = StagingFloatSelectedLayoutReceipt::issue(
        layout.profile_receipt_sha256,
        layout.flow_registry_sha256,
        pages.as_slice(),
    );
    let selected = StagingFloatSelectedLayout::from_parts(pages, receipt);
    match selected.verify_receipt() {
        Ok(()) => {},
        Err(e) => return Err(e),
    }
    Ok(selected)
}

} // verus!
