//! Page placement of atomic vector blocks: where each whole Figure or math
//! block and each of its captions lands in the body frame, when a block moves
//! to a fresh page (forced break, page-name change, keep-with-next group,
//! overflow), how spacing is suppressed at a page top, how many blocks and
//! captions each page holds, and the order in which blocks, equation numbers
//! and captions are painted.
use vstd::prelude::*;
use crate::atomic_vector::{
    StagingAtomicVectorBlockLayoutError, StagingAtomicVectorBlockPaginationInput, StagingAtomicVectorKeepSuccessorInput,
    StagingFigureCaptionBlockInput, StagingPrecomposedVectorBlockLayout, StagingPreparedVectorBlock,
    StagingVectorBlockSibling,
};
use crate::digest::fingerprint_eq;
use crate::page_geometry::PaginationLimits;
use crate::body_errors::NodeId;

verus! {

/// What page placement reads of one prepared atomic vector block: its
/// extents, its spacing, its page policy, its place in its parent flow and
/// the flow item that follows it there, and its measured captions, in order.
#[derive(Clone, Debug)]
pub struct StagingAtomicVectorBlockPlan {
    pub owner: NodeId,
    pub content_height: i64,
    pub space_before: i64,
    pub space_after: i64,
    pub forced_page_break_before: bool,
    pub page_name: Option<u32>,
    pub vector_figure: bool,
    pub keep_caption: bool,
    pub keep_with_next: bool,
    pub has_equation_number: bool,
    pub parent_flow_id: u32,
    pub parent_position: u32,
    pub following_sibling: Option<StagingVectorBlockSibling>,
    pub captions: Vec<StagingFigureCaptionBlockInput>,
}

/// The lengths of a plan are lengths: none is negative, and each caption
/// has a positive extent.
pub open spec fn plan_valid(b: StagingAtomicVectorBlockPlan) -> bool {
    &&& b.content_height >= 0
    &&& b.space_before >= 0
    &&& b.space_after >= 0
    &&& forall|j: int| 0 <= j < b.captions@.len() ==> #[trigger] b.captions@[j].block_size > 0
}

pub open spec fn plans_valid(blocks: Seq<StagingAtomicVectorBlockPlan>) -> bool {
    forall|i: int| 0 <= i < blocks.len() ==> #[trigger] plan_valid(blocks[i])
}

/// One page of the selected layout and how many blocks and captions it holds.
#[derive(Clone, Copy, Debug, PartialEq, Eq, Structural)]
pub struct StagingAtomicVectorPage {
    pub page_index: u32,
    pub block_count: u32,
    pub caption_count: u32,
}

impl StagingAtomicVectorPage {
    pub fn page_index(&self) -> (v: u32)
        ensures
            v == self.page_index,
    {
        self.page_index
    }

    pub fn block_count(&self) -> (v: u32)
        ensures
            v == self.block_count,
    {
        self.block_count
    }

    pub fn caption_count(&self) -> (v: u32)
        ensures
            v == self.caption_count,
    {
        self.caption_count
    }
}

/// Where one block landed: its page, its ordinal among the page's blocks,
/// the offset of its top below the body top, the spacing that was applied
/// before it and is pending after it, whether it moved to a fresh page, and
/// the paint ordinals of the block and of its equation number.
#[derive(Clone, Copy, Debug, PartialEq, Eq, Structural)]
pub struct StagingAtomicVectorBlockSpot {
    pub page_index: u32,
    pub page_block_ordinal: u32,
    pub top: i64,
    pub effective_space_before: i64,
    pub effective_space_after: i64,
    pub moved_to_fresh_page: bool,
    pub paint_ordinal: u32,
    pub equation_number_paint_ordinal: Option<u32>,
}

/// Where one caption landed: the block it belongs to, its owner, its page,
/// the offset of its top below the body top, and its paint ordinal.
#[derive(Clone, Copy, Debug, PartialEq, Eq, Structural)]
pub struct StagingAtomicVectorCaptionSpot {
    pub block_index: usize,
    pub owner: NodeId,
    pub page_index: u32,
    pub top: i64,
    pub paint_ordinal: u32,
}

/// The placement of all blocks: the pages, then one spot per block and one
/// per caption, in source order.
#[derive(Clone, Debug)]
pub struct StagingAtomicVectorPlacement {
    pub pages: Vec<StagingAtomicVectorPage>,
    pub blocks: Vec<StagingAtomicVectorBlockSpot>,
    pub captions: Vec<StagingAtomicVectorCaptionSpot>,
}

/// The state of placement between two blocks: the pages so far, the extent
/// used on the last page, the spacing pending after the last block, the
/// page name in force, the spots so far and the next paint ordinal.
pub struct AtomicRun {
    pub pages: Seq<StagingAtomicVectorPage>,
    pub used: int,
    pub pending: int,
    pub active: Option<u32>,
    pub blocks: Seq<StagingAtomicVectorBlockSpot>,
    pub captions: Seq<StagingAtomicVectorCaptionSpot>,
    pub paint: int,
}

pub open spec fn empty_page(index: int) -> StagingAtomicVectorPage {
    StagingAtomicVectorPage { page_index: index as u32, block_count: 0, caption_count: 0 }
}

/// A fresh page is appended unless the page limit is reached.
pub open spec fn fresh_page(
    pages: Seq<StagingAtomicVectorPage>,
    max_pages: u32,
) -> Result<Seq<StagingAtomicVectorPage>, StagingAtomicVectorBlockLayoutError> {
    if pages.len() >= max_pages {
        Err(StagingAtomicVectorBlockLayoutError::PageLimit)
    } else {
        Ok(pages.push(empty_page(pages.len() as int)))
    }
}

pub open spec fn caption_sum(caps: Seq<StagingFigureCaptionBlockInput>) -> int
    decreases caps.len(),
{
    if caps.len() == 0 {
        0
    } else {
        caption_sum(caps.drop_last()) + caps.last().block_size
    }
}

/// The block that follows `b` in its parent flow as the sibling `sib`: the
/// first block with the sibling's owner, in `b`'s parent flow, at the
/// sibling's position, searched from the `k`-th on.
pub open spec fn next_in_flow(
    blocks: Seq<StagingAtomicVectorBlockPlan>,
    b: StagingAtomicVectorBlockPlan,
    sib: StagingVectorBlockSibling,
    k: int,
) -> Option<int>
    decreases blocks.len() - k,
{
    if k < 0 || k >= blocks.len() {
        None
    } else if blocks[k].owner == sib.owner && blocks[k].parent_flow_id == b.parent_flow_id
        && blocks[k].parent_position == sib.parent_position {
        Some(k)
    } else {
        next_in_flow(blocks, b, sib, k + 1)
    }
}

/// The first supplied keep successor of `owner`, from the `k`-th on.
pub open spec fn keep_successor_of_owner(
    ks: Seq<StagingAtomicVectorKeepSuccessorInput>,
    owner: NodeId,
    k: int,
) -> Option<StagingAtomicVectorKeepSuccessorInput>
    decreases ks.len() - k,
{
    if k < 0 || k >= ks.len() {
        None
    } else if ks[k].spec_owner() == owner {
        Some(ks[k])
    } else {
        keep_successor_of_owner(ks, owner, k + 1)
    }
}

/// The captions a keep group carries along with a Figure: those it keeps,
/// and those between it and a successor it is kept with.
pub open spec fn kept_caption_extent(b: StagingAtomicVectorBlockPlan) -> int {
    if b.vector_figure && (b.keep_caption || b.keep_with_next) {
        caption_sum(b.captions@)
    } else {
        0
    }
}

/// The extent of the keep-with-next group from block `current` on, after
/// `extent` so far, with the owners `visited` already in the group: each
/// block adds its content and kept captions; a block kept with a following
/// vector block on the same page policy adds the spacing between them and
/// continues there; a block kept with a successor outside the vector layout
/// adds the supplied extent after it and ends the group. An owner met twice
/// is a cycle. `fuel` bounds the walk by the number of blocks and one more.
pub open spec fn keep_group_from(
    blocks: Seq<StagingAtomicVectorBlockPlan>,
    ks: Seq<StagingAtomicVectorKeepSuccessorInput>,
    current: int,
    visited: Seq<NodeId>,
    extent: int,
    fuel: nat,
) -> Result<int, StagingAtomicVectorBlockLayoutError>
    decreases fuel,
{
    if !(0 <= current < blocks.len()) {
        Err(StagingAtomicVectorBlockLayoutError::LayoutMismatch)
    } else if fuel == 0 || visited.contains(blocks[current].owner) {
        Err(StagingAtomicVectorBlockLayoutError::FlowMismatch)
    } else {
        let b = blocks[current];
        if caption_sum(b.captions@) > i64::MAX || extent + b.content_height > i64::MAX || extent
            + b.content_height + kept_caption_extent(b) > i64::MAX {
            Err(StagingAtomicVectorBlockLayoutError::ArithmeticOverflow)
        } else {
            let e1 = extent + b.content_height + kept_caption_extent(b);
            if !b.keep_with_next {
                Ok(e1)
            } else {
                match b.following_sibling {
                    None => Ok(e1),
                    Some(sib) => if sib.page_break {
                        Ok(e1)
                    } else {
                        match next_in_flow(blocks, b, sib, 0) {
                            Some(n) => {
                                let f = blocks[n];
                                if f.forced_page_break_before || f.page_name != b.page_name {
                                    Ok(e1)
                                } else if e1 + b.space_after > i64::MAX || e1 + b.space_after + f.space_before
                                    > i64::MAX {
                                    Err(StagingAtomicVectorBlockLayoutError::ArithmeticOverflow)
                                } else {
                                    keep_group_from(
                                        blocks,
                                        ks,
                                        n,
                                        visited.push(b.owner),
                                        e1 + b.space_after + f.space_before,
                                        (fuel - 1) as nat,
                                    )
                                }
                            },
                            None => match keep_successor_of_owner(ks, b.owner, 0) {
                                None => Err(StagingAtomicVectorBlockLayoutError::MissingKeepSuccessor(b.owner)),
                                Some(k) => if k.spec_successor_owner() != sib.owner {
                                    Err(StagingAtomicVectorBlockLayoutError::WrongKeepSuccessor(b.owner))
                                } else if e1 + k.spec_required_extent_after_vector() > i64::MAX {
                                    Err(StagingAtomicVectorBlockLayoutError::ArithmeticOverflow)
                                } else {
                                    Ok(e1 + k.spec_required_extent_after_vector())
                                },
                            },
                        }
                    },
                }
            }
        }
    }
}

/// The extent of the keep-with-next group that starts at block `start`.
pub open spec fn keep_group_extent(
    blocks: Seq<StagingAtomicVectorBlockPlan>,
    ks: Seq<StagingAtomicVectorKeepSuccessorInput>,
    start: int,
) -> Result<int, StagingAtomicVectorBlockLayoutError> {
    keep_group_from(blocks, ks, start, Seq::empty(), 0, (blocks.len() + 1) as nat)
}

/// An extent that must fit below `used`, after the spacing `before`: when it
/// does not, it moves to a fresh page, where the spacing is suppressed; on a
/// page with nothing on it the extent is too tall. The result is the pages,
/// the extent used, the spacing and whether the block moved.
pub open spec fn fit_extent(
    owner: NodeId,
    extent: int,
    pages: Seq<StagingAtomicVectorPage>,
    used: int,
    before: int,
    moved: bool,
    body_height: int,
    max_pages: u32,
) -> Result<(Seq<StagingAtomicVectorPage>, int, int, bool), StagingAtomicVectorBlockLayoutError> {
    if before + extent > i64::MAX {
        Err(StagingAtomicVectorBlockLayoutError::ArithmeticOverflow)
    } else if before + extent > body_height - used {
        if used == 0 {
            Err(StagingAtomicVectorBlockLayoutError::Oversize(owner))
        } else {
            match fresh_page(pages, max_pages) {
                Err(e) => Err(e),
                Ok(p) => Ok((p, 0, 0, true)),
            }
        }
    } else {
        Ok((pages, used, before, moved))
    }
}

/// The keep-with-next group that starts at a block must fit as a whole.
pub open spec fn fit_keep_group(
    b: StagingAtomicVectorBlockPlan,
    group: Result<int, StagingAtomicVectorBlockLayoutError>,
    pages: Seq<StagingAtomicVectorPage>,
    used: int,
    before: int,
    moved: bool,
    body_height: int,
    max_pages: u32,
) -> Result<(Seq<StagingAtomicVectorPage>, int, int, bool), StagingAtomicVectorBlockLayoutError> {
    if !b.keep_with_next {
        Ok((pages, used, before, moved))
    } else {
        match group {
            Err(e) => Err(e),
            Ok(height) => if height > body_height {
                Err(StagingAtomicVectorBlockLayoutError::Oversize(b.owner))
            } else {
                fit_extent(b.owner, height, pages, used, before, moved, body_height, max_pages)
            },
        }
    }
}

pub open spec fn bump_blocks(p: StagingAtomicVectorPage) -> StagingAtomicVectorPage {
    StagingAtomicVectorPage {
        page_index: p.page_index,
        block_count: (p.block_count + 1) as u32,
        caption_count: p.caption_count,
    }
}

pub open spec fn bump_captions(p: StagingAtomicVectorPage) -> StagingAtomicVectorPage {
    StagingAtomicVectorPage {
        page_index: p.page_index,
        block_count: p.block_count,
        caption_count: (p.caption_count + 1) as u32,
    }
}

/// The captions of block `block` from the `j`-th on, each on the current
/// page if it fits below what is used and else at the top of a fresh page.
pub open spec fn place_captions(
    caps: Seq<StagingFigureCaptionBlockInput>,
    j: int,
    block: int,
    run: AtomicRun,
    body_height: int,
    max_pages: u32,
) -> Result<AtomicRun, StagingAtomicVectorBlockLayoutError>
    decreases caps.len() - j,
{
    if j < 0 || j >= caps.len() {
        Ok(run)
    } else {
        let h = caps[j].block_size as int;
        let spill = h > body_height - run.used;
        if h > body_height {
            Err(StagingAtomicVectorBlockLayoutError::Oversize(caps[j].owner))
        } else {
            match (if spill { fresh_page(run.pages, max_pages) } else { Ok(run.pages) }) {
                Err(e) => Err(e),
                Ok(p1) => {
                    let u1 = if spill { 0 } else { run.used };
                    let k = p1.len() - 1;
                    if p1[k].caption_count == u32::MAX || run.paint >= u32::MAX {
                        Err(StagingAtomicVectorBlockLayoutError::ArithmeticOverflow)
                    } else {
                        let spot = StagingAtomicVectorCaptionSpot {
                            block_index: block as usize,
                            owner: caps[j].owner,
                            page_index: p1[k].page_index,
                            top: u1 as i64,
                            paint_ordinal: run.paint as u32,
                        };
                        place_captions(
                            caps,
                            j + 1,
                            block,
                            AtomicRun {
                                pages: p1.update(k, bump_captions(p1[k])),
                                used: u1 + h,
                                pending: run.pending,
                                active: run.active,
                                blocks: run.blocks,
                                captions: run.captions.push(spot),
                                paint: run.paint + 1,
                            },
                            body_height,
                            max_pages,
                        )
                    }
                },
            }
        }
    }
}

/// How many paints a block adds besides its own: one for its equation
/// number.
pub open spec fn equation_paints(b: StagingAtomicVectorBlockPlan) -> int {
    if b.has_equation_number {
        1
    } else {
        0
    }
}

/// The extent a block needs on one page: its content, and its captions too
/// when it is a Figure that keeps them.
pub open spec fn atomic_extent(b: StagingAtomicVectorBlockPlan) -> int {
    if b.vector_figure && b.keep_caption {
        b.content_height + caption_sum(b.captions@)
    } else {
        b.content_height as int
    }
}

/// The spacing before a block: none at a page top, else the spacing pending
/// after the previous block and the block's own.
pub open spec fn spacing_before(b: StagingAtomicVectorBlockPlan, used: int, pending: int) -> int {
    if used == 0 {
        0
    } else {
        pending + b.space_before
    }
}

/// One block, the `block`-th: a forced break or a change of page name ends a
/// page that holds anything; then its keep group and then the block itself
/// must fit, else it moves to a fresh page; then its captions follow.
pub open spec fn place_block(
    blocks: Seq<StagingAtomicVectorBlockPlan>,
    ks: Seq<StagingAtomicVectorKeepSuccessorInput>,
    block: int,
    run: AtomicRun,
    body_height: int,
    max_pages: u32,
) -> Result<AtomicRun, StagingAtomicVectorBlockLayoutError> {
    let b = blocks[block];
    let brk = (b.forced_page_break_before || b.page_name != run.active) && run.used != 0;
    if caption_sum(b.captions@) > i64::MAX {
        Err(StagingAtomicVectorBlockLayoutError::ArithmeticOverflow)
    } else {
        match (if brk { fresh_page(run.pages, max_pages) } else { Ok(run.pages) }) {
            Err(e) => Err(e),
            Ok(p1) => {
                let u1 = if brk { 0 } else { run.used };
                let pend = if brk { 0 } else { run.pending };
                let atomic = atomic_extent(b);
                let eb0 = spacing_before(b, u1, pend);
                if atomic > i64::MAX {
                    Err(StagingAtomicVectorBlockLayoutError::ArithmeticOverflow)
                } else if atomic > body_height {
                    Err(StagingAtomicVectorBlockLayoutError::Oversize(b.owner))
                } else if eb0 > i64::MAX {
                    Err(StagingAtomicVectorBlockLayoutError::ArithmeticOverflow)
                } else {
                    match fit_keep_group(b, keep_group_extent(blocks, ks, block), p1, u1, eb0, brk, body_height, max_pages) {
                        Err(e) => Err(e),
                        Ok((p2, u2, eb1, m2)) => match fit_extent(
                            b.owner,
                            atomic,
                            p2,
                            u2,
                            eb1,
                            m2,
                            body_height,
                            max_pages,
                        ) {
                            Err(e) => Err(e),
                            Ok((p3, u3, eb2, m3)) => {
                                let k = p3.len() - 1;
                                if p3[k].block_count == u32::MAX || run.paint + 1 + equation_paints(b)
                                    > u32::MAX {
                                    Err(StagingAtomicVectorBlockLayoutError::ArithmeticOverflow)
                                } else {
                                    let after = if b.following_sibling is Some { b.space_after } else { 0 };
                                    let spot = StagingAtomicVectorBlockSpot {
                                        page_index: p3[k].page_index,
                                        page_block_ordinal: p3[k].block_count,
                                        top: (u3 + eb2) as i64,
                                        effective_space_before: eb2 as i64,
                                        effective_space_after: after,
                                        moved_to_fresh_page: m3,
                                        paint_ordinal: run.paint as u32,
                                        equation_number_paint_ordinal: if b.has_equation_number {
                                            Some((run.paint + 1) as u32)
                                        } else {
                                            None
                                        },
                                    };
                                    let r1 = AtomicRun {
                                        pages: p3.update(k, bump_blocks(p3[k])),
                                        used: u3 + eb2 + b.content_height,
                                        pending: run.pending,
                                        active: b.page_name,
                                        blocks: run.blocks,
                                        captions: run.captions,
                                        paint: run.paint + 1 + equation_paints(b),
                                    };
                                    match place_captions(b.captions@, 0, block, r1, body_height, max_pages) {
                                        Err(e) => Err(e),
                                        Ok(r2) => Ok(
                                            AtomicRun {
                                                pages: r2.pages,
                                                used: r2.used,
                                                pending: after as int,
                                                active: r2.active,
                                                blocks: r2.blocks.push(spot),
                                                captions: r2.captions,
                                                paint: r2.paint,
                                            },
                                        ),
                                    }
                                }
                            },
                        },
                    }
                }
            },
        }
    }
}

/// The blocks from the `i`-th on, in order.
pub open spec fn place_blocks(
    blocks: Seq<StagingAtomicVectorBlockPlan>,
    ks: Seq<StagingAtomicVectorKeepSuccessorInput>,
    i: int,
    run: AtomicRun,
    body_height: int,
    max_pages: u32,
) -> Result<AtomicRun, StagingAtomicVectorBlockLayoutError>
    decreases blocks.len() - i,
{
    if i < 0 || i >= blocks.len() {
        Ok(run)
    } else {
        match place_block(blocks, ks, i, run, body_height, max_pages) {
            Err(e) => Err(e),
            Ok(r) => place_blocks(blocks, ks, i + 1, r, body_height, max_pages),
        }
    }
}

pub open spec fn initial_run(initial_consumed: int) -> AtomicRun {
    AtomicRun {
        pages: seq![empty_page(0)],
        used: initial_consumed,
        pending: 0,
        active: None,
        blocks: Seq::empty(),
        captions: Seq::empty(),
        paint: 0,
    }
}

/// Placement of all blocks: content already on the first page may not
/// exceed the body, the fragments charged so far and one per block must stay
/// within the limit, at least one page must be allowed; then the blocks are
/// placed from the first page on.
pub open spec fn atomic_placement_outcome(
    blocks: Seq<StagingAtomicVectorBlockPlan>,
    ks: Seq<StagingAtomicVectorKeepSuccessorInput>,
    body_height: int,
    initial_consumed: int,
    prior_fragment_charge: int,
    max_fragments: int,
    max_pages: u32,
) -> Result<AtomicRun, StagingAtomicVectorBlockLayoutError> {
    if initial_consumed > body_height {
        Err(StagingAtomicVectorBlockLayoutError::LayoutMismatch)
    } else if prior_fragment_charge + blocks.len() > u64::MAX || prior_fragment_charge + blocks.len()
        > max_fragments {
        Err(StagingAtomicVectorBlockLayoutError::FragmentLimit)
    } else if max_pages == 0 {
        Err(StagingAtomicVectorBlockLayoutError::PageLimit)
    } else {
        place_blocks(blocks, ks, 0, initial_run(initial_consumed), body_height, max_pages)
    }
}

proof fn lemma_caption_sum_prefix(caps: Seq<StagingFigureCaptionBlockInput>, j: int, n: int)
    requires
        0 <= j <= n <= caps.len(),
        forall|i: int| 0 <= i < caps.len() ==> #[trigger] caps[i].block_size > 0,
    ensures
        caption_sum(caps.take(j)) <= caption_sum(caps.take(n)),
    decreases n - j,
{
    if j < n {
        assert(caps.take(n).drop_last() =~= caps.take(n - 1));
        lemma_caption_sum_prefix(caps, j, n - 1);
    }
}

/// The total extent of a block's captions, or `None` where it overflows.
fn caption_total(caps: &Vec<StagingFigureCaptionBlockInput>) -> (r: Option<i64>)
    requires
        forall|i: int| 0 <= i < caps@.len() ==> #[trigger] caps@[i].block_size > 0,
    ensures
        match r {
            Some(v) => caption_sum(caps@) <= i64::MAX && v == caption_sum(caps@),
            None => caption_sum(caps@) > i64::MAX,
        },
{
    let mut total: i64 = 0;
    let n = caps.len();
    let mut j: usize = 0;
    assert(caps@.take(0) =~= Seq::<StagingFigureCaptionBlockInput>::empty());
    while j < n
        invariant
            n == caps@.len(),
            0 <= j <= n,
            total == caption_sum(caps@.take(j as int)),
            forall|i: int| 0 <= i < caps@.len() ==> #[trigger] caps@[i].block_size > 0,
        decreases n - j,
    {
        assert(caps@.take(j as int + 1).drop_last() =~= caps@.take(j as int));
        match total.checked_add(caps[j].block_size) {
            Some(v) => {
                total = v;
            },
            None => {
                proof {
                    lemma_caption_sum_prefix(caps@, j as int + 1, n as int);
                    assert(caps@.take(n as int) =~= caps@);
                }
                return None;
            },
        }
        j = j + 1;
    }
    assert(caps@.take(n as int) =~= caps@);
    Some(total)
}

fn same_name(a: Option<u32>, b: Option<u32>) -> (r: bool)
    ensures
        r == (a == b),
{
    match (a, b) {
        (Some(x), Some(y)) => x == y,
        (None, None) => true,
        _ => false,
    }
}

fn fresh_page_exec(pages: &mut Vec<StagingAtomicVectorPage>, max_pages: u32) -> (r: Result<
    (),
    StagingAtomicVectorBlockLayoutError,
>)
    ensures
        match fresh_page(old(pages)@, max_pages) {
            Ok(p) => r is Ok && final(pages)@ == p,
            Err(e) => r == Err::<(), StagingAtomicVectorBlockLayoutError>(e),
        },
{
    if pages.len() >= max_pages as usize {
        return Err(StagingAtomicVectorBlockLayoutError::PageLimit);
    }
    let index = pages.len() as u32;
    pages.push(StagingAtomicVectorPage { page_index: index, block_count: 0, caption_count: 0 });
    Ok(())
}

fn fit_extent_exec(
    owner: NodeId,
    extent: i64,
    pages: &mut Vec<StagingAtomicVectorPage>,
    used: i64,
    before: i64,
    moved: bool,
    body_height: i64,
    max_pages: u32,
) -> (r: Result<(i64, i64, bool), StagingAtomicVectorBlockLayoutError>)
    requires
        0 <= used <= body_height,
        before >= 0,
    ensures
        match fit_extent(
            owner,
            extent as int,
            old(pages)@,
            used as int,
            before as int,
            moved,
            body_height as int,
            max_pages,
        ) {
            Ok(t) => r matches Ok(v) && final(pages)@ == t.0 && v.0 == t.1 && v.1 == t.2 && v.2 == t.3,
            Err(e) => r == Err::<(i64, i64, bool), StagingAtomicVectorBlockLayoutError>(e),
        },
{
    let requested = match before.checked_add(extent) {
        Some(v) => v,
        None => {
            return Err(StagingAtomicVectorBlockLayoutError::ArithmeticOverflow);
        },
    };
    if requested > body_height - used {
        if used == 0 {
            return Err(StagingAtomicVectorBlockLayoutError::Oversize(owner));
        }
        match fresh_page_exec(pages, max_pages) {
            Err(e) => {
                return Err(e);
            },
            Ok(()) => {},
        }
        return Ok((0, 0, true));
    }
    Ok((used, before, moved))
}

/// The working state of placement, whose view is an `AtomicRun`.
struct AtomicCursor {
    pages: Vec<StagingAtomicVectorPage>,
    used: i64,
    pending: i64,
    active: Option<u32>,
    blocks: Vec<StagingAtomicVectorBlockSpot>,
    captions: Vec<StagingAtomicVectorCaptionSpot>,
    paint: u32,
}

impl AtomicCursor {
    spec fn run(&self) -> AtomicRun {
        AtomicRun {
            pages: self.pages@,
            used: self.used as int,
            pending: self.pending as int,
            active: self.active,
            blocks: self.blocks@,
            captions: self.captions@,
            paint: self.paint as int,
        }
    }

    spec fn fits(&self, body_height: int) -> bool {
        &&& self.pages@.len() >= 1
        &&& 0 <= self.used <= body_height
        &&& self.pending >= 0
    }
}

fn place_captions_exec(
    caps: &Vec<StagingFigureCaptionBlockInput>,
    block: usize,
    st: &mut AtomicCursor,
    body_height: i64,
    max_pages: u32,
) -> (r: Result<(), StagingAtomicVectorBlockLayoutError>)
    requires
        old(st).fits(body_height as int),
        forall|i: int| 0 <= i < caps@.len() ==> #[trigger] caps@[i].block_size > 0,
    ensures
        match place_captions(caps@, 0, block as int, old(st).run(), body_height as int, max_pages) {
            Ok(run) => r is Ok && final(st).run() == run && final(st).fits(body_height as int),
            Err(e) => r == Err::<(), StagingAtomicVectorBlockLayoutError>(e),
        },
{
    let ghost outcome = place_captions(caps@, 0, block as int, st.run(), body_height as int, max_pages);
    let n = caps.len();
    let mut j: usize = 0;
    while j < n
        invariant
            n == caps@.len(),
            0 <= j <= n,
            st.fits(body_height as int),
            outcome == place_captions(caps@, 0, block as int, old(st).run(), body_height as int, max_pages),
            outcome == place_captions(caps@, j as int, block as int, st.run(), body_height as int, max_pages),
            forall|i: int| 0 <= i < caps@.len() ==> #[trigger] caps@[i].block_size > 0,
        decreases n - j,
    {
        let h = caps[j].block_size;
        if h > body_height {
            return Err(StagingAtomicVectorBlockLayoutError::Oversize(caps[j].owner));
        }
        let spill = h > body_height - st.used;
        if spill {
            match fresh_page_exec(&mut st.pages, max_pages) {
                Err(e) => {
                    return Err(e);
                },
                Ok(()) => {},
            }
            st.used = 0;
        }
        let k = st.pages.len() - 1;
        let page = st.pages[k];
        if page.caption_count == u32::MAX || st.paint == u32::MAX {
            return Err(StagingAtomicVectorBlockLayoutError::ArithmeticOverflow);
        }
        st.captions.push(
            StagingAtomicVectorCaptionSpot {
                block_index: block as usize,
                owner: caps[j].owner,
                page_index: page.page_index,
                top: st.used,
                paint_ordinal: st.paint,
            },
        );
        st.paint = st.paint + 1;
        st.pages.set(
            k,
            StagingAtomicVectorPage {
                page_index: page.page_index,
                block_count: page.block_count,
                caption_count: page.caption_count + 1,
            },
        );
        st.used = st.used + h;
        j = j + 1;
    }
    Ok(())
}

fn place_block_exec(
    blocks: &Vec<StagingAtomicVectorBlockPlan>,
    ks: &[StagingAtomicVectorKeepSuccessorInput],
    block: usize,
    st: &mut AtomicCursor,
    body_height: i64,
    max_pages: u32,
) -> (r: Result<(), StagingAtomicVectorBlockLayoutError>)
    requires
        old(st).fits(body_height as int),
        plans_valid(blocks@),
        block < blocks@.len(),
    ensures
        match place_block(blocks@, ks@, block as int, old(st).run(), body_height as int, max_pages) {
            Ok(run) => r is Ok && final(st).run() == run && final(st).fits(body_height as int),
            Err(e) => r == Err::<(), StagingAtomicVectorBlockLayoutError>(e),
        },
{
    let b = &blocks[block];
    assert(plan_valid(blocks@[block as int]));
    let ghost run0 = st.run();
    let captions_extent = match caption_total(&b.captions) {
        Some(v) => {
            proof {
                lemma_caption_sum_prefix(b.captions@, 0, b.captions@.len() as int);
                assert(b.captions@.take(0) =~= Seq::<StagingFigureCaptionBlockInput>::empty());
                assert(b.captions@.take(b.captions@.len() as int) =~= b.captions@);
            }
            v
        },
        None => {
            return Err(StagingAtomicVectorBlockLayoutError::ArithmeticOverflow);
        },
    };
    let brk = (b.forced_page_break_before || !same_name(b.page_name, st.active)) && st.used != 0;
    if brk {
        match fresh_page_exec(&mut st.pages, max_pages) {
            Err(e) => {
                return Err(e);
            },
            Ok(()) => {},
        }
    }
    let ghost p1 = st.pages@;
    let u1: i64 = if brk { 0 } else { st.used };
    let pend: i64 = if brk { 0 } else { st.pending };
    let atomic: i64 = if b.vector_figure && b.keep_caption {
        match b.content_height.checked_add(captions_extent) {
            Some(v) => v,
            None => {
                return Err(StagingAtomicVectorBlockLayoutError::ArithmeticOverflow);
            },
        }
    } else {
        b.content_height
    };
    if atomic > body_height {
        return Err(StagingAtomicVectorBlockLayoutError::Oversize(b.owner));
    }
    let eb0: i64 = if u1 == 0 {
        0
    } else {
        match pend.checked_add(b.space_before) {
            Some(v) => v,
            None => {
                return Err(StagingAtomicVectorBlockLayoutError::ArithmeticOverflow);
            },
        }
    };
    let mut u2 = u1;
    let mut eb1 = eb0;
    let mut m2 = brk;
    if b.keep_with_next {
        let group = match keep_group_height(blocks, ks, block) {
            Ok(v) => v,
            Err(e) => {
                return Err(e);
            },
        };
        if group > body_height {
            return Err(StagingAtomicVectorBlockLayoutError::Oversize(b.owner));
        }
        match fit_extent_exec(b.owner, group, &mut st.pages, u1, eb0, brk, body_height, max_pages) {
            Err(e) => {
                return Err(e);
            },
            Ok((u, e, m)) => {
                u2 = u;
                eb1 = e;
                m2 = m;
            },
        }
    }
    assert(fit_keep_group(*b, keep_group_extent(blocks@, ks@, block as int), p1, u1 as int, eb0 as int, brk, body_height as int, max_pages)
        == Ok::<(Seq<StagingAtomicVectorPage>, int, int, bool), StagingAtomicVectorBlockLayoutError>(
        (st.pages@, u2 as int, eb1 as int, m2),
    ));
    let ghost p2 = st.pages@;
    let (u3, eb2, m3) = match fit_extent_exec(b.owner, atomic, &mut st.pages, u2, eb1, m2, body_height, max_pages) {
        Err(e) => {
            return Err(e);
        },
        Ok(t) => t,
    };
    let k = st.pages.len() - 1;
    let page = st.pages[k];
    let equation: u32 = if b.has_equation_number { 1 } else { 0 };
    if page.block_count == u32::MAX || st.paint > u32::MAX - 1 - equation {
        return Err(StagingAtomicVectorBlockLayoutError::ArithmeticOverflow);
    }
    let after: i64 = if b.following_sibling.is_some() { b.space_after } else { 0 };
    let spot = StagingAtomicVectorBlockSpot {
        page_index: page.page_index,
        page_block_ordinal: page.block_count,
        top: u3 + eb2,
        effective_space_before: eb2,
        effective_space_after: after,
        moved_to_fresh_page: m3,
        paint_ordinal: st.paint,
        equation_number_paint_ordinal: if b.has_equation_number {
            Some(st.paint + 1)
        } else {
            None
        },
    };
    st.pages.set(
        k,
        StagingAtomicVectorPage {
            page_index: page.page_index,
            block_count: page.block_count + 1,
            caption_count: page.caption_count,
        },
    );
    st.used = u3 + eb2 + b.content_height;
    st.active = b.page_name;
    st.paint = st.paint + 1 + equation;
    match place_captions_exec(&b.captions, block, st, body_height, max_pages) {
        Err(e) => {
            return Err(e);
        },
        Ok(()) => {},
    }
    st.pending = after;
    st.blocks.push(spot);
    Ok(())
}

/// Places atomic vector blocks on pages: each block whole, with its kept
/// captions, moving to a fresh page where a forced break or a new page name
/// asks for one or where the block or its keep-with-next group does not fit
/// below what is used; spacing is suppressed at a page top, and the spacing
/// after a block is pending only where it has a following sibling.
/// `initial_consumed` is the extent already used on the first page.
pub fn place_staging_atomic_vector_blocks(
    blocks: &Vec<StagingAtomicVectorBlockPlan>,
    keep_successors: &[StagingAtomicVectorKeepSuccessorInput],
    body_height: i64,
    initial_consumed: i64,
    prior_fragment_charge: u64,
    max_fragments: u64,
    max_pages: u32,
) -> (r: Result<StagingAtomicVectorPlacement, StagingAtomicVectorBlockLayoutError>)
    requires
        plans_valid(blocks@),
        body_height >= 0,
        initial_consumed >= 0,
    ensures
        match atomic_placement_outcome(
            blocks@,
            keep_successors@,
            body_height as int,
            initial_consumed as int,
            prior_fragment_charge as int,
            max_fragments as int,
            max_pages,
        ) {
            Ok(run) => r matches Ok(p) && p.pages@ == run.pages && p.blocks@ == run.blocks
                && p.captions@ == run.captions,
            Err(e) => r matches Err(x) && x == e,
        },
{
    if initial_consumed > body_height {
        return Err(StagingAtomicVectorBlockLayoutError::LayoutMismatch);
    }
    let n = blocks.len();
    let cumulative = match prior_fragment_charge.checked_add(n as u64) {
        Some(v) => v,
        None => {
            return Err(StagingAtomicVectorBlockLayoutError::FragmentLimit);
        },
    };
    if cumulative > max_fragments {
        return Err(StagingAtomicVectorBlockLayoutError::FragmentLimit);
    }
    if max_pages == 0 {
        return Err(StagingAtomicVectorBlockLayoutError::PageLimit);
    }
    let mut pages: Vec<StagingAtomicVectorPage> = Vec::new();
    pages.push(StagingAtomicVectorPage { page_index: 0, block_count: 0, caption_count: 0 });
    let mut st = AtomicCursor {
        pages,
        used: initial_consumed,
        pending: 0,
        active: None,
        blocks: Vec::new(),
        captions: Vec::new(),
        paint: 0,
    };
    assert(st.run() == initial_run(initial_consumed as int)) by {
        assert(st.pages@ =~= seq![empty_page(0)]);
        assert(st.blocks@ =~= Seq::<StagingAtomicVectorBlockSpot>::empty());
        assert(st.captions@ =~= Seq::<StagingAtomicVectorCaptionSpot>::empty());
    }
    let ghost outcome = place_blocks(blocks@, keep_successors@, 0, st.run(), body_height as int, max_pages);
    let mut i: usize = 0;
    while i < n
        invariant
            n == blocks@.len(),
            0 <= i <= n,
            plans_valid(blocks@),
            st.fits(body_height as int),
            outcome == atomic_placement_outcome(
                blocks@,
                keep_successors@,
                body_height as int,
                initial_consumed as int,
                prior_fragment_charge as int,
                max_fragments as int,
                max_pages,
            ),
            outcome == place_blocks(blocks@, keep_successors@, i as int, st.run(), body_height as int, max_pages),
        decreases n - i,
    {
        match place_block_exec(blocks, keep_successors, i, &mut st, body_height, max_pages) {
            Err(e) => {
                return Err(e);
            },
            Ok(()) => {},
        }
        i = i + 1;
    }
    Ok(StagingAtomicVectorPlacement { pages: st.pages, blocks: st.blocks, captions: st.captions })
}

/// The pages are numbered by their position, there is at least one and at
/// most `max_pages`.
pub open spec fn pages_indexed(pages: Seq<StagingAtomicVectorPage>, max_pages: u32) -> bool {
    &&& 1 <= pages.len() <= max_pages
    &&& forall|k: int| 0 <= k < pages.len() ==> #[trigger] pages[k].page_index == k
}

/// A block spot lies on an existing page, inside the body, and a block that
/// moved to a fresh page starts at its top with no spacing before it.
pub open spec fn spot_closed(
    s: StagingAtomicVectorBlockSpot,
    b: StagingAtomicVectorBlockPlan,
    page_count: int,
    body_height: int,
) -> bool {
    &&& s.page_index < page_count
    &&& 0 <= s.top
    &&& s.top + b.content_height <= body_height
    &&& s.moved_to_fresh_page ==> s.top == 0 && s.effective_space_before == 0
}

/// A caption spot lies on an existing page and starts inside the body.
pub open spec fn caption_closed(c: StagingAtomicVectorCaptionSpot, page_count: int, body_height: int) -> bool {
    &&& c.page_index < page_count
    &&& 0 <= c.top <= body_height
}

pub open spec fn run_closed(
    blocks: Seq<StagingAtomicVectorBlockPlan>,
    i: int,
    run: AtomicRun,
    body_height: int,
    max_pages: u32,
) -> bool {
    &&& pages_indexed(run.pages, max_pages)
    &&& 0 <= run.used <= body_height
    &&& run.pending >= 0
    &&& run.blocks.len() == i
    &&& forall|k: int| 0 <= k < i ==> #[trigger] spot_closed(run.blocks[k], blocks[k], run.pages.len() as int, body_height)
    &&& forall|c: int| 0 <= c < run.captions.len() ==> #[trigger] caption_closed(run.captions[c], run.pages.len() as int, body_height)
}

proof fn lemma_fresh_page(pages: Seq<StagingAtomicVectorPage>, max_pages: u32)
    requires
        pages_indexed(pages, max_pages),
        fresh_page(pages, max_pages) is Ok,
    ensures
        pages_indexed(fresh_page(pages, max_pages)->Ok_0, max_pages),
        fresh_page(pages, max_pages)->Ok_0.len() == pages.len() + 1,
{
    let p = fresh_page(pages, max_pages)->Ok_0;
    assert forall|k: int| 0 <= k < p.len() implies #[trigger] p[k].page_index == k by {
        if k == pages.len() {
        } else {
            assert(p[k] == pages[k]);
        }
    }
}

proof fn lemma_fit_extent(
    owner: NodeId,
    extent: int,
    pages: Seq<StagingAtomicVectorPage>,
    used: int,
    before: int,
    moved: bool,
    body_height: int,
    max_pages: u32,
)
    requires
        pages_indexed(pages, max_pages),
        0 <= used <= body_height,
        before >= 0,
        moved ==> used == 0 && before == 0,
        fit_extent(owner, extent, pages, used, before, moved, body_height, max_pages) is Ok,
    ensures
        ({
            let t = fit_extent(owner, extent, pages, used, before, moved, body_height, max_pages)->Ok_0;
            &&& pages_indexed(t.0, max_pages)
            &&& t.0.len() >= pages.len()
            &&& 0 <= t.1 <= body_height
            &&& t.2 >= 0
            &&& t.3 ==> t.1 == 0 && t.2 == 0
            &&& extent <= body_height ==> t.1 + t.2 + extent <= body_height
        }),
{
    if before + extent > body_height - used {
        lemma_fresh_page(pages, max_pages);
    }
}

proof fn lemma_captions_closed(
    caps: Seq<StagingFigureCaptionBlockInput>,
    j: int,
    block: int,
    run: AtomicRun,
    body_height: int,
    max_pages: u32,
)
    requires
        0 <= j <= caps.len(),
        pages_indexed(run.pages, max_pages),
        0 <= run.used <= body_height <= i64::MAX,
        forall|c: int| 0 <= c < run.captions.len() ==> #[trigger] caption_closed(run.captions[c], run.pages.len() as int, body_height),
        forall|i: int| 0 <= i < caps.len() ==> #[trigger] caps[i].block_size > 0,
        place_captions(caps, j, block, run, body_height, max_pages) is Ok,
    ensures
        ({
            let r = place_captions(caps, j, block, run, body_height, max_pages)->Ok_0;
            &&& pages_indexed(r.pages, max_pages)
            &&& r.pages.len() >= run.pages.len()
            &&& 0 <= r.used <= body_height
            &&& r.pending == run.pending
            &&& r.active == run.active
            &&& r.blocks == run.blocks
            &&& forall|c: int| 0 <= c < r.captions.len() ==> #[trigger] caption_closed(r.captions[c], r.pages.len() as int, body_height)
        }),
    decreases caps.len() - j,
{
    if j < caps.len() {
        let h = caps[j].block_size as int;
        let spill = h > body_height - run.used;
        let p1 = if spill { fresh_page(run.pages, max_pages)->Ok_0 } else { run.pages };
        if spill {
            lemma_fresh_page(run.pages, max_pages);
        }
        let u1 = if spill { 0 } else { run.used };
        let k = p1.len() - 1;
        let spot = StagingAtomicVectorCaptionSpot {
            block_index: block as usize,
            owner: caps[j].owner,
            page_index: p1[k].page_index,
            top: u1 as i64,
            paint_ordinal: run.paint as u32,
        };
        let next = AtomicRun {
            pages: p1.update(k, bump_captions(p1[k])),
            used: u1 + h,
            pending: run.pending,
            active: run.active,
            blocks: run.blocks,
            captions: run.captions.push(spot),
            paint: run.paint + 1,
        };
        assert forall|q: int| 0 <= q < next.pages.len() implies #[trigger] next.pages[q].page_index == q by {
            if q != k {
                assert(next.pages[q] == p1[q]);
            }
        }
        assert forall|c: int| 0 <= c < next.captions.len() implies #[trigger] caption_closed(
            next.captions[c],
            next.pages.len() as int,
            body_height,
        ) by {
            if c < run.captions.len() {
                assert(next.captions[c] == run.captions[c]);
                assert(caption_closed(run.captions[c], run.pages.len() as int, body_height));
            }
        }
        lemma_captions_closed(caps, j + 1, block, next, body_height, max_pages);
    }
}

proof fn lemma_block_closed(
    blocks: Seq<StagingAtomicVectorBlockPlan>,
    ks: Seq<StagingAtomicVectorKeepSuccessorInput>,
    i: int,
    run: AtomicRun,
    body_height: int,
    max_pages: u32,
)
    requires
        0 <= i < blocks.len(),
        plans_valid(blocks),
        body_height <= i64::MAX,
        run_closed(blocks, i, run, body_height, max_pages),
        place_block(blocks, ks, i, run, body_height, max_pages) is Ok,
    ensures
        run_closed(blocks, i + 1, place_block(blocks, ks, i, run, body_height, max_pages)->Ok_0, body_height, max_pages),
{
    let b = blocks[i];
    assert(plan_valid(b));
    lemma_caption_sum_prefix(b.captions@, 0, b.captions@.len() as int);
    assert(b.captions@.take(0) =~= Seq::<StagingFigureCaptionBlockInput>::empty());
    assert(b.captions@.take(b.captions@.len() as int) =~= b.captions@);
    let brk = (b.forced_page_break_before || b.page_name != run.active) && run.used != 0;
    if brk {
        lemma_fresh_page(run.pages, max_pages);
    }
    let p1 = if brk { fresh_page(run.pages, max_pages)->Ok_0 } else { run.pages };
    let u1 = if brk { 0 } else { run.used };
    let pend = if brk { 0 } else { run.pending };
    let atomic = atomic_extent(b);
    let eb0 = spacing_before(b, u1, pend);
    let group = keep_group_extent(blocks, ks, i);
    if b.keep_with_next && group is Ok {
        lemma_fit_extent(b.owner, group->Ok_0, p1, u1, eb0, brk, body_height, max_pages);
    }
    let t2 = fit_keep_group(b, group, p1, u1, eb0, brk, body_height, max_pages)->Ok_0;
    lemma_fit_extent(b.owner, atomic, t2.0, t2.1, t2.2, t2.3, body_height, max_pages);
    let t3 = fit_extent(b.owner, atomic, t2.0, t2.1, t2.2, t2.3, body_height, max_pages)->Ok_0;
    let p3 = t3.0;
    let k = p3.len() - 1;
    let after = if b.following_sibling is Some { b.space_after } else { 0 };
    let spot = StagingAtomicVectorBlockSpot {
        page_index: p3[k].page_index,
        page_block_ordinal: p3[k].block_count,
        top: (t3.1 + t3.2) as i64,
        effective_space_before: t3.2 as i64,
        effective_space_after: after,
        moved_to_fresh_page: t3.3,
        paint_ordinal: run.paint as u32,
        equation_number_paint_ordinal: if b.has_equation_number {
            Some((run.paint + 1) as u32)
        } else {
            None
        },
    };
    let r1 = AtomicRun {
        pages: p3.update(k, bump_blocks(p3[k])),
        used: t3.1 + t3.2 + b.content_height,
        pending: run.pending,
        active: b.page_name,
        blocks: run.blocks,
        captions: run.captions,
        paint: run.paint + 1 + equation_paints(b),
    };
    assert forall|q: int| 0 <= q < r1.pages.len() implies #[trigger] r1.pages[q].page_index == q by {
        if q != k {
            assert(r1.pages[q] == p3[q]);
        }
    }
    assert forall|c: int| 0 <= c < r1.captions.len() implies #[trigger] caption_closed(
        r1.captions[c],
        r1.pages.len() as int,
        body_height,
    ) by {
        assert(caption_closed(run.captions[c], run.pages.len() as int, body_height));
    }
    lemma_captions_closed(b.captions@, 0, i, r1, body_height, max_pages);
    let r2 = place_captions(b.captions@, 0, i, r1, body_height, max_pages)->Ok_0;
    let fin = place_block(blocks, ks, i, run, body_height, max_pages)->Ok_0;
    assert(fin.blocks == run.blocks.push(spot));
    assert forall|q: int| 0 <= q < i + 1 implies #[trigger] spot_closed(
        fin.blocks[q],
        blocks[q],
        fin.pages.len() as int,
        body_height,
    ) by {
        if q < i {
            assert(fin.blocks[q] == run.blocks[q]);
            assert(spot_closed(run.blocks[q], blocks[q], run.pages.len() as int, body_height));
        }
    }
}

proof fn lemma_blocks_closed(
    blocks: Seq<StagingAtomicVectorBlockPlan>,
    ks: Seq<StagingAtomicVectorKeepSuccessorInput>,
    i: int,
    run: AtomicRun,
    body_height: int,
    max_pages: u32,
)
    requires
        0 <= i <= blocks.len(),
        plans_valid(blocks),
        body_height <= i64::MAX,
        run_closed(blocks, i, run, body_height, max_pages),
        place_blocks(blocks, ks, i, run, body_height, max_pages) is Ok,
    ensures
        run_closed(
            blocks,
            blocks.len() as int,
            place_blocks(blocks, ks, i, run, body_height, max_pages)->Ok_0,
            body_height,
            max_pages,
        ),
    decreases blocks.len() - i,
{
    if i < blocks.len() {
        lemma_block_closed(blocks, ks, i, run, body_height, max_pages);
        let r = place_block(blocks, ks, i, run, body_height, max_pages)->Ok_0;
        lemma_blocks_closed(blocks, ks, i + 1, r, body_height, max_pages);
    }
}

/// A successful placement is closed: one spot per block, in order; the pages
/// are numbered by position, at least one and within the page limit; every
/// block and caption lies on one of those pages; every block lies inside the
/// body; and a block that moved to a fresh page starts at its top with no
/// spacing before it.
pub proof fn lemma_atomic_placement_closed(
    blocks: Seq<StagingAtomicVectorBlockPlan>,
    keep_successors: Seq<StagingAtomicVectorKeepSuccessorInput>,
    body_height: i64,
    initial_consumed: i64,
    prior_fragment_charge: u64,
    max_fragments: u64,
    max_pages: u32,
)
    requires
        plans_valid(blocks),
        body_height >= 0,
        initial_consumed >= 0,
        atomic_placement_outcome(
            blocks,
            keep_successors,
            body_height as int,
            initial_consumed as int,
            prior_fragment_charge as int,
            max_fragments as int,
            max_pages,
        ) is Ok,
    ensures
        ({
            let run = atomic_placement_outcome(
                blocks,
                keep_successors,
                body_height as int,
                initial_consumed as int,
                prior_fragment_charge as int,
                max_fragments as int,
                max_pages,
            )->Ok_0;
            &&& run.blocks.len() == blocks.len()
            &&& 1 <= run.pages.len() <= max_pages
            &&& forall|k: int| 0 <= k < run.pages.len() ==> #[trigger] run.pages[k].page_index == k
            &&& forall|k: int| 0 <= k < blocks.len() ==> #[trigger] spot_closed(
                run.blocks[k],
                blocks[k],
                run.pages.len() as int,
                body_height as int,
            )
            &&& forall|c: int| 0 <= c < run.captions.len() ==> #[trigger] caption_closed(
                run.captions[c],
                run.pages.len() as int,
                body_height as int,
            )
        }),
{
    let init = initial_run(initial_consumed as int);
    assert(pages_indexed(init.pages, max_pages));
    lemma_blocks_closed(blocks, keep_successors, 0, init, body_height as int, max_pages);
}

fn find_next_in_flow(blocks: &Vec<StagingAtomicVectorBlockPlan>, b: usize, sib: StagingVectorBlockSibling) -> (r:
    Option<usize>)
    requires
        b < blocks@.len(),
    ensures
        match next_in_flow(blocks@, blocks@[b as int], sib, 0) {
            Some(n) => r == Some(n as usize) && 0 <= n < blocks@.len(),
            None => r is None,
        },
{
    let mut k: usize = 0;
    while k < blocks.len()
        invariant
            b < blocks@.len(),
            k <= blocks@.len(),
            next_in_flow(blocks@, blocks@[b as int], sib, 0) == next_in_flow(blocks@, blocks@[b as int], sib, k as int),
        decreases blocks.len() - k,
    {
        if blocks[k].owner == sib.owner && blocks[k].parent_flow_id == blocks[b].parent_flow_id
            && blocks[k].parent_position == sib.parent_position {
            return Some(k);
        }
        k = k + 1;
    }
    None
}

fn find_keep_successor(ks: &[StagingAtomicVectorKeepSuccessorInput], owner: NodeId) -> (r: Option<
    StagingAtomicVectorKeepSuccessorInput,
>)
    ensures
        r == keep_successor_of_owner(ks@, owner, 0),
{
    let mut k: usize = 0;
    while k < ks.len()
        invariant
            k <= ks@.len(),
            keep_successor_of_owner(ks@, owner, 0) == keep_successor_of_owner(ks@, owner, k as int),
        decreases ks.len() - k,
    {
        if ks[k].owner() == owner {
            return Some(ks[k]);
        }
        k = k + 1;
    }
    None
}

fn contains_owner(visited: &Vec<NodeId>, owner: NodeId) -> (r: bool)
    ensures
        r == visited@.contains(owner),
{
    let mut k: usize = 0;
    while k < visited.len()
        invariant
            k <= visited@.len(),
            forall|j: int| 0 <= j < k ==> visited@[j] != owner,
        decreases visited.len() - k,
    {
        if visited[k] == owner {
            return true;
        }
        k = k + 1;
    }
    false
}

/// The extent of the keep-with-next group that starts at block `start`.
fn keep_group_height(
    blocks: &Vec<StagingAtomicVectorBlockPlan>,
    ks: &[StagingAtomicVectorKeepSuccessorInput],
    start: usize,
) -> (r: Result<i64, StagingAtomicVectorBlockLayoutError>)
    requires
        plans_valid(blocks@),
        start < blocks@.len(),
    ensures
        match r {
            Ok(v) => keep_group_extent(blocks@, ks@, start as int) == Ok::<int, StagingAtomicVectorBlockLayoutError>(
                v as int,
            ),
            Err(e) => keep_group_extent(blocks@, ks@, start as int) == Err::<int, StagingAtomicVectorBlockLayoutError>(
                e,
            ),
        },
{
    let ghost outcome = keep_group_extent(blocks@, ks@, start as int);
    let len = blocks.len();
    let mut visited: Vec<NodeId> = Vec::new();
    let mut current = start;
    let mut extent: i64 = 0;
    let mut steps: u128 = 0;
    assert(visited@ =~= Seq::<NodeId>::empty());
    loop
        invariant
            len == blocks@.len(),
            plans_valid(blocks@),
            current < len,
            extent >= 0,
            steps <= len as int + 1,
            outcome == keep_group_extent(blocks@, ks@, start as int),
            outcome == keep_group_from(blocks@, ks@, current as int, visited@, extent as int, (len + 1 - steps) as nat),
        decreases len + 1 - steps,
    {
        if steps > len as u128 {
            return Err(StagingAtomicVectorBlockLayoutError::FlowMismatch);
        }
        let b = &blocks[current];
        assert(plan_valid(blocks@[current as int]));
        if contains_owner(&visited, b.owner) {
            return Err(StagingAtomicVectorBlockLayoutError::FlowMismatch);
        }
        let captions_extent = match caption_total(&b.captions) {
            Some(v) => {
                proof {
                    lemma_caption_sum_prefix(b.captions@, 0, b.captions@.len() as int);
                    assert(b.captions@.take(0) =~= Seq::<StagingFigureCaptionBlockInput>::empty());
                    assert(b.captions@.take(b.captions@.len() as int) =~= b.captions@);
                }
                v
            },
            None => {
                return Err(StagingAtomicVectorBlockLayoutError::ArithmeticOverflow);
            },
        };
        let e0 = match extent.checked_add(b.content_height) {
            Some(v) => v,
            None => {
                return Err(StagingAtomicVectorBlockLayoutError::ArithmeticOverflow);
            },
        };
        let kept: i64 = if b.vector_figure && (b.keep_caption || b.keep_with_next) { captions_extent } else { 0 };
        let e1 = match e0.checked_add(kept) {
            Some(v) => v,
            None => {
                return Err(StagingAtomicVectorBlockLayoutError::ArithmeticOverflow);
            },
        };
        if !b.keep_with_next {
            return Ok(e1);
        }
        let sib = match b.following_sibling {
            None => {
                return Ok(e1);
            },
            Some(v) => v,
        };
        if sib.page_break {
            return Ok(e1);
        }
        match find_next_in_flow(blocks, current, sib) {
            Some(n) => {
                let f = &blocks[n];
                assert(plan_valid(blocks@[n as int]));
                if f.forced_page_break_before || !same_name(f.page_name, b.page_name) {
                    return Ok(e1);
                }
                let e2 = match e1.checked_add(b.space_after) {
                    Some(v) => v,
                    None => {
                        return Err(StagingAtomicVectorBlockLayoutError::ArithmeticOverflow);
                    },
                };
                let e3 = match e2.checked_add(f.space_before) {
                    Some(v) => v,
                    None => {
                        return Err(StagingAtomicVectorBlockLayoutError::ArithmeticOverflow);
                    },
                };
                visited.push(b.owner);
                extent = e3;
                current = n;
                steps = steps + 1;
            },
            None => {
                let k = match find_keep_successor(ks, b.owner) {
                    None => {
                        return Err(StagingAtomicVectorBlockLayoutError::MissingKeepSuccessor(b.owner));
                    },
                    Some(k) => k,
                };
                if k.successor_owner() != sib.owner {
                    return Err(StagingAtomicVectorBlockLayoutError::WrongKeepSuccessor(b.owner));
                }
                return match e1.checked_add(k.required_extent_after_vector()) {
                    Some(v) => Ok(v),
                    None => Err(StagingAtomicVectorBlockLayoutError::ArithmeticOverflow),
                };
            },
        }
    }
}

/// How many block spots lie on page `k`.
pub open spec fn blocks_on(spots: Seq<StagingAtomicVectorBlockSpot>, k: int) -> int
    decreases spots.len(),
{
    if spots.len() == 0 {
        0
    } else {
        blocks_on(spots.drop_last(), k) + if spots.last().page_index == k {
            1int
        } else {
            0int
        }
    }
}

/// How many caption spots lie on page `k`.
pub open spec fn captions_on(spots: Seq<StagingAtomicVectorCaptionSpot>, k: int) -> int
    decreases spots.len(),
{
    if spots.len() == 0 {
        0
    } else {
        captions_on(spots.drop_last(), k) + if spots.last().page_index == k {
            1int
        } else {
            0int
        }
    }
}

/// Each page counts the blocks and captions that lie on it, and each block's
/// ordinal on its page is the number of blocks placed on that page before it.
pub open spec fn run_counted(run: AtomicRun) -> bool {
    &&& forall|q: int| 0 <= q < run.pages.len() ==> #[trigger] run.pages[q].block_count == blocks_on(run.blocks, q)
    &&& forall|q: int| 0 <= q < run.pages.len() ==> #[trigger] run.pages[q].caption_count == captions_on(run.captions, q)
    &&& forall|i: int| 0 <= i < run.blocks.len() ==> #[trigger] run.blocks[i].page_block_ordinal == blocks_on(
        run.blocks.take(i),
        run.blocks[i].page_index as int,
    )
}

/// `new` keeps the pages of `old` and appends only pages that hold nothing.
pub open spec fn extends(old: Seq<StagingAtomicVectorPage>, new: Seq<StagingAtomicVectorPage>) -> bool {
    &&& new.len() >= old.len()
    &&& forall|q: int| 0 <= q < old.len() ==> #[trigger] new[q] == old[q]
    &&& forall|q: int| old.len() <= q < new.len() ==> #[trigger] new[q].block_count == 0 && new[q].caption_count == 0
}

proof fn lemma_blocks_on_push(spots: Seq<StagingAtomicVectorBlockSpot>, x: StagingAtomicVectorBlockSpot, k: int)
    ensures
        blocks_on(spots.push(x), k) == blocks_on(spots, k) + if x.page_index == k {
            1int
        } else {
            0int
        },
{
    assert(spots.push(x).drop_last() =~= spots);
}

proof fn lemma_captions_on_push(
    spots: Seq<StagingAtomicVectorCaptionSpot>,
    x: StagingAtomicVectorCaptionSpot,
    k: int,
)
    ensures
        captions_on(spots.push(x), k) == captions_on(spots, k) + if x.page_index == k {
            1int
        } else {
            0int
        },
{
    assert(spots.push(x).drop_last() =~= spots);
}

proof fn lemma_blocks_on_beyond(spots: Seq<StagingAtomicVectorBlockSpot>, n: int, k: int)
    requires
        n <= k,
        forall|i: int| 0 <= i < spots.len() ==> #[trigger] spots[i].page_index < n,
    ensures
        blocks_on(spots, k) == 0,
    decreases spots.len(),
{
    if spots.len() > 0 {
        let rest = spots.drop_last();
        assert forall|i: int| 0 <= i < rest.len() implies #[trigger] rest[i].page_index < n by {
            assert(rest[i] == spots[i]);
        }
        lemma_blocks_on_beyond(rest, n, k);
        assert(spots.last() == spots[spots.len() - 1]);
    }
}

proof fn lemma_captions_on_beyond(spots: Seq<StagingAtomicVectorCaptionSpot>, n: int, k: int)
    requires
        n <= k,
        forall|i: int| 0 <= i < spots.len() ==> #[trigger] spots[i].page_index < n,
    ensures
        captions_on(spots, k) == 0,
    decreases spots.len(),
{
    if spots.len() > 0 {
        let rest = spots.drop_last();
        assert forall|i: int| 0 <= i < rest.len() implies #[trigger] rest[i].page_index < n by {
            assert(rest[i] == spots[i]);
        }
        lemma_captions_on_beyond(rest, n, k);
        assert(spots.last() == spots[spots.len() - 1]);
    }
}

proof fn lemma_fit_extends(
    owner: NodeId,
    extent: int,
    pages: Seq<StagingAtomicVectorPage>,
    used: int,
    before: int,
    moved: bool,
    body_height: int,
    max_pages: u32,
)
    requires
        fit_extent(owner, extent, pages, used, before, moved, body_height, max_pages) is Ok,
    ensures
        extends(pages, fit_extent(owner, extent, pages, used, before, moved, body_height, max_pages)->Ok_0.0),
{
}

proof fn lemma_captions_counted(
    caps: Seq<StagingFigureCaptionBlockInput>,
    j: int,
    block: int,
    run: AtomicRun,
    body_height: int,
    max_pages: u32,
)
    requires
        0 <= j <= caps.len(),
        pages_indexed(run.pages, max_pages),
        forall|c: int| 0 <= c < run.captions.len() ==> #[trigger] run.captions[c].page_index < run.pages.len(),
        forall|q: int| 0 <= q < run.pages.len() ==> #[trigger] run.pages[q].caption_count == captions_on(run.captions, q),
        place_captions(caps, j, block, run, body_height, max_pages) is Ok,
    ensures
        ({
            let r = place_captions(caps, j, block, run, body_height, max_pages)->Ok_0;
            &&& r.pages.len() >= run.pages.len()
            &&& r.blocks == run.blocks
            &&& forall|q: int| 0 <= q < run.pages.len() ==> #[trigger] r.pages[q].block_count == run.pages[q].block_count
            &&& forall|q: int| run.pages.len() <= q < r.pages.len() ==> #[trigger] r.pages[q].block_count == 0
            &&& forall|q: int| 0 <= q < r.pages.len() ==> #[trigger] r.pages[q].caption_count == captions_on(r.captions, q)
        }),
    decreases caps.len() - j,
{
    if j < caps.len() {
        let h = caps[j].block_size as int;
        let spill = h > body_height - run.used;
        let p1 = if spill { fresh_page(run.pages, max_pages)->Ok_0 } else { run.pages };
        if spill {
            lemma_fresh_page(run.pages, max_pages);
        }
        let u1 = if spill { 0 } else { run.used };
        let k = p1.len() - 1;
        let spot = StagingAtomicVectorCaptionSpot {
            block_index: block as usize,
            owner: caps[j].owner,
            page_index: p1[k].page_index,
            top: u1 as i64,
            paint_ordinal: run.paint as u32,
        };
        let next = AtomicRun {
            pages: p1.update(k, bump_captions(p1[k])),
            used: u1 + h,
            pending: run.pending,
            active: run.active,
            blocks: run.blocks,
            captions: run.captions.push(spot),
            paint: run.paint + 1,
        };
        assert forall|q: int| 0 <= q < next.pages.len() implies #[trigger] next.pages[q].page_index == q by {
            if q != k {
                assert(next.pages[q] == p1[q]);
            }
        }
        assert forall|c: int| 0 <= c < next.captions.len() implies #[trigger] next.captions[c].page_index
            < next.pages.len() by {
            if c < run.captions.len() {
                assert(next.captions[c] == run.captions[c]);
            }
        }
        assert forall|q: int| 0 <= q < next.pages.len() implies #[trigger] next.pages[q].caption_count
            == captions_on(next.captions, q) by {
            lemma_captions_on_push(run.captions, spot, q);
            if q < run.pages.len() {
                assert(p1[q] == run.pages[q]);
            } else {
                lemma_captions_on_beyond(run.captions, run.pages.len() as int, q);
            }
        }
        lemma_captions_counted(caps, j + 1, block, next, body_height, max_pages);
    }
}

proof fn lemma_block_counted(
    blocks: Seq<StagingAtomicVectorBlockPlan>,
    ks: Seq<StagingAtomicVectorKeepSuccessorInput>,
    i: int,
    run: AtomicRun,
    body_height: int,
    max_pages: u32,
)
    requires
        0 <= i < blocks.len(),
        plans_valid(blocks),
        body_height <= i64::MAX,
        run_closed(blocks, i, run, body_height, max_pages),
        run_counted(run),
        place_block(blocks, ks, i, run, body_height, max_pages) is Ok,
    ensures
        run_counted(place_block(blocks, ks, i, run, body_height, max_pages)->Ok_0),
{
    let b = blocks[i];
    assert(plan_valid(b));
    lemma_caption_sum_prefix(b.captions@, 0, b.captions@.len() as int);
    assert(b.captions@.take(0) =~= Seq::<StagingFigureCaptionBlockInput>::empty());
    assert(b.captions@.take(b.captions@.len() as int) =~= b.captions@);
    let brk = (b.forced_page_break_before || b.page_name != run.active) && run.used != 0;
    if brk {
        lemma_fresh_page(run.pages, max_pages);
    }
    let p1 = if brk { fresh_page(run.pages, max_pages)->Ok_0 } else { run.pages };
    let u1 = if brk { 0 } else { run.used };
    let pend = if brk { 0 } else { run.pending };
    let atomic = atomic_extent(b);
    let eb0 = spacing_before(b, u1, pend);
    let group = keep_group_extent(blocks, ks, i);
    if b.keep_with_next && group is Ok {
        lemma_fit_extent(b.owner, group->Ok_0, p1, u1, eb0, brk, body_height, max_pages);
        lemma_fit_extends(b.owner, group->Ok_0, p1, u1, eb0, brk, body_height, max_pages);
    }
    let t2 = fit_keep_group(b, group, p1, u1, eb0, brk, body_height, max_pages)->Ok_0;
    assert(extends(p1, t2.0));
    lemma_fit_extent(b.owner, atomic, t2.0, t2.1, t2.2, t2.3, body_height, max_pages);
    lemma_fit_extends(b.owner, atomic, t2.0, t2.1, t2.2, t2.3, body_height, max_pages);
    let t3 = fit_extent(b.owner, atomic, t2.0, t2.1, t2.2, t2.3, body_height, max_pages)->Ok_0;
    let p3 = t3.0;
    assert(extends(run.pages, p3)) by {
        assert(extends(run.pages, p1));
    }
    let k = p3.len() - 1;
    assert(p3[k].page_index == k);
    let after = if b.following_sibling is Some { b.space_after } else { 0 };
    let spot = StagingAtomicVectorBlockSpot {
        page_index: p3[k].page_index,
        page_block_ordinal: p3[k].block_count,
        top: (t3.1 + t3.2) as i64,
        effective_space_before: t3.2 as i64,
        effective_space_after: after,
        moved_to_fresh_page: t3.3,
        paint_ordinal: run.paint as u32,
        equation_number_paint_ordinal: if b.has_equation_number {
            Some((run.paint + 1) as u32)
        } else {
            None
        },
    };
    let r1 = AtomicRun {
        pages: p3.update(k, bump_blocks(p3[k])),
        used: t3.1 + t3.2 + b.content_height,
        pending: run.pending,
        active: b.page_name,
        blocks: run.blocks,
        captions: run.captions,
        paint: run.paint + 1 + equation_paints(b),
    };
    assert forall|q: int| 0 <= q < p3.len() implies #[trigger] p3[q].block_count == blocks_on(run.blocks, q)
        && p3[q].caption_count == captions_on(run.captions, q) by {
        if q >= run.pages.len() {
            assert forall|c: int| 0 <= c < run.blocks.len() implies #[trigger] run.blocks[c].page_index
                < run.pages.len() by {
                assert(spot_closed(run.blocks[c], blocks[c], run.pages.len() as int, body_height));
            }
            assert forall|c: int| 0 <= c < run.captions.len() implies #[trigger] run.captions[c].page_index
                < run.pages.len() by {
                assert(caption_closed(run.captions[c], run.pages.len() as int, body_height));
            }
            lemma_blocks_on_beyond(run.blocks, run.pages.len() as int, q);
            lemma_captions_on_beyond(run.captions, run.pages.len() as int, q);
        }
    }
    assert forall|q: int| 0 <= q < r1.pages.len() implies #[trigger] r1.pages[q].page_index == q by {
        if q != k {
            assert(r1.pages[q] == p3[q]);
        }
    }
    assert forall|c: int| 0 <= c < r1.captions.len() implies #[trigger] r1.captions[c].page_index
        < r1.pages.len() by {
        assert(caption_closed(run.captions[c], run.pages.len() as int, body_height));
    }
    assert forall|q: int| 0 <= q < r1.pages.len() implies #[trigger] r1.pages[q].caption_count == captions_on(
        r1.captions,
        q,
    ) by {
        if q != k {
            assert(r1.pages[q] == p3[q]);
        }
    }
    lemma_captions_counted(b.captions@, 0, i, r1, body_height, max_pages);
    let r2 = place_captions(b.captions@, 0, i, r1, body_height, max_pages)->Ok_0;
    let fin = place_block(blocks, ks, i, run, body_height, max_pages)->Ok_0;
    assert(fin.blocks == run.blocks.push(spot));
    assert forall|q: int| 0 <= q < fin.pages.len() implies #[trigger] fin.pages[q].block_count == blocks_on(
        fin.blocks,
        q,
    ) by {
        lemma_blocks_on_push(run.blocks, spot, q);
        if q < r1.pages.len() {
            if q != k {
                assert(r1.pages[q] == p3[q]);
            }
        } else {
            assert forall|c: int| 0 <= c < run.blocks.len() implies #[trigger] run.blocks[c].page_index
                < run.pages.len() by {
                assert(spot_closed(run.blocks[c], blocks[c], run.pages.len() as int, body_height));
            }
            lemma_blocks_on_beyond(run.blocks, run.pages.len() as int, q);
        }
    }
    assert forall|q: int| 0 <= q < fin.pages.len() implies #[trigger] fin.pages[q].caption_count == captions_on(
        fin.captions,
        q,
    ) by {
    }
    assert forall|j: int| 0 <= j < fin.blocks.len() implies #[trigger] fin.blocks[j].page_block_ordinal
        == blocks_on(fin.blocks.take(j), fin.blocks[j].page_index as int) by {
        if j < i {
            assert(fin.blocks.take(j) =~= run.blocks.take(j));
            assert(fin.blocks[j] == run.blocks[j]);
        } else {
            assert(fin.blocks.take(j) =~= run.blocks);
        }
    }
}

proof fn lemma_blocks_counted(
    blocks: Seq<StagingAtomicVectorBlockPlan>,
    ks: Seq<StagingAtomicVectorKeepSuccessorInput>,
    i: int,
    run: AtomicRun,
    body_height: int,
    max_pages: u32,
)
    requires
        0 <= i <= blocks.len(),
        plans_valid(blocks),
        body_height <= i64::MAX,
        run_closed(blocks, i, run, body_height, max_pages),
        run_counted(run),
        place_blocks(blocks, ks, i, run, body_height, max_pages) is Ok,
    ensures
        run_counted(place_blocks(blocks, ks, i, run, body_height, max_pages)->Ok_0),
    decreases blocks.len() - i,
{
    if i < blocks.len() {
        lemma_block_closed(blocks, ks, i, run, body_height, max_pages);
        lemma_block_counted(blocks, ks, i, run, body_height, max_pages);
        let r = place_block(blocks, ks, i, run, body_height, max_pages)->Ok_0;
        lemma_blocks_counted(blocks, ks, i + 1, r, body_height, max_pages);
    }
}

/// A successful placement counts its pages exactly: each page's block and
/// caption counts are the numbers of block and caption spots on it, and each
/// block's ordinal on its page is the number of blocks placed on that page
/// before it.
pub proof fn lemma_atomic_placement_counted(
    blocks: Seq<StagingAtomicVectorBlockPlan>,
    keep_successors: Seq<StagingAtomicVectorKeepSuccessorInput>,
    body_height: i64,
    initial_consumed: i64,
    prior_fragment_charge: u64,
    max_fragments: u64,
    max_pages: u32,
)
    requires
        plans_valid(blocks),
        body_height >= 0,
        initial_consumed >= 0,
        atomic_placement_outcome(
            blocks,
            keep_successors,
            body_height as int,
            initial_consumed as int,
            prior_fragment_charge as int,
            max_fragments as int,
            max_pages,
        ) is Ok,
    ensures
        run_counted(
            atomic_placement_outcome(
                blocks,
                keep_successors,
                body_height as int,
                initial_consumed as int,
                prior_fragment_charge as int,
                max_fragments as int,
                max_pages,
            )->Ok_0,
        ),
{
    let init = initial_run(initial_consumed as int);
    assert(pages_indexed(init.pages, max_pages));
    lemma_blocks_counted(blocks, keep_successors, 0, init, body_height as int, max_pages);
}

proof fn lemma_captions_stay(
    caps: Seq<StagingFigureCaptionBlockInput>,
    j: int,
    block: int,
    run: AtomicRun,
    body_height: int,
    max_pages: u32,
)
    requires
        0 <= j <= caps.len(),
        run.pages.len() >= 1,
        forall|i: int| 0 <= i < caps.len() ==> #[trigger] caps[i].block_size > 0,
        run.used + caption_sum(caps) - caption_sum(caps.take(j)) <= body_height,
        place_captions(caps, j, block, run, body_height, max_pages) is Ok,
    ensures
        ({
            let r = place_captions(caps, j, block, run, body_height, max_pages)->Ok_0;
            &&& r.pages.len() == run.pages.len()
            &&& r.captions.len() >= run.captions.len()
            &&& forall|c: int| 0 <= c < run.captions.len() ==> #[trigger] r.captions[c] == run.captions[c]
            &&& forall|c: int| run.captions.len() <= c < r.captions.len() ==> #[trigger] r.captions[c].page_index
                == run.pages[run.pages.len() - 1].page_index && r.captions[c].block_index == block as usize
        }),
    decreases caps.len() - j,
{
    if j < caps.len() {
        let h = caps[j].block_size as int;
        assert(caps.take(j + 1).drop_last() =~= caps.take(j));
        lemma_caption_sum_prefix(caps, j + 1, caps.len() as int);
        assert(caps.take(caps.len() as int) =~= caps);
        let k = run.pages.len() - 1;
        let spot = StagingAtomicVectorCaptionSpot {
            block_index: block as usize,
            owner: caps[j].owner,
            page_index: run.pages[k].page_index,
            top: run.used as i64,
            paint_ordinal: run.paint as u32,
        };
        let next = AtomicRun {
            pages: run.pages.update(k, bump_captions(run.pages[k])),
            used: run.used + h,
            pending: run.pending,
            active: run.active,
            blocks: run.blocks,
            captions: run.captions.push(spot),
            paint: run.paint + 1,
        };
        lemma_captions_stay(caps, j + 1, block, next, body_height, max_pages);
    }
}

/// Every caption belongs to a placed block, and a caption that its Figure
/// keeps lies on the Figure's page.
pub open spec fn run_kept(blocks: Seq<StagingAtomicVectorBlockPlan>, run: AtomicRun) -> bool {
    forall|c: int| 0 <= c < run.captions.len() ==> {
        let bi = (#[trigger] run.captions[c]).block_index as int;
        &&& bi < run.blocks.len()
        &&& blocks[bi].vector_figure && blocks[bi].keep_caption ==> run.captions[c].page_index
            == run.blocks[bi].page_index
    }
}

proof fn lemma_block_kept(
    blocks: Seq<StagingAtomicVectorBlockPlan>,
    ks: Seq<StagingAtomicVectorKeepSuccessorInput>,
    i: int,
    run: AtomicRun,
    body_height: int,
    max_pages: u32,
)
    requires
        0 <= i < blocks.len(),
        plans_valid(blocks),
        body_height <= i64::MAX,
        run_closed(blocks, i, run, body_height, max_pages),
        run_kept(blocks, run),
        blocks.len() <= usize::MAX,
        place_block(blocks, ks, i, run, body_height, max_pages) is Ok,
    ensures
        run_kept(blocks, place_block(blocks, ks, i, run, body_height, max_pages)->Ok_0),
{
    let b = blocks[i];
    assert(plan_valid(b));
    lemma_caption_sum_prefix(b.captions@, 0, b.captions@.len() as int);
    assert(b.captions@.take(0) =~= Seq::<StagingFigureCaptionBlockInput>::empty());
    assert(b.captions@.take(b.captions@.len() as int) =~= b.captions@);
    let brk = (b.forced_page_break_before || b.page_name != run.active) && run.used != 0;
    if brk {
        lemma_fresh_page(run.pages, max_pages);
    }
    let p1 = if brk { fresh_page(run.pages, max_pages)->Ok_0 } else { run.pages };
    let u1 = if brk { 0 } else { run.used };
    let pend = if brk { 0 } else { run.pending };
    let atomic = atomic_extent(b);
    let eb0 = spacing_before(b, u1, pend);
    let group = keep_group_extent(blocks, ks, i);
    if b.keep_with_next && group is Ok {
        lemma_fit_extent(b.owner, group->Ok_0, p1, u1, eb0, brk, body_height, max_pages);
    }
    let t2 = fit_keep_group(b, group, p1, u1, eb0, brk, body_height, max_pages)->Ok_0;
    lemma_fit_extent(b.owner, atomic, t2.0, t2.1, t2.2, t2.3, body_height, max_pages);
    let t3 = fit_extent(b.owner, atomic, t2.0, t2.1, t2.2, t2.3, body_height, max_pages)->Ok_0;
    let p3 = t3.0;
    let k = p3.len() - 1;
    let after = if b.following_sibling is Some { b.space_after } else { 0 };
    let spot = StagingAtomicVectorBlockSpot {
        page_index: p3[k].page_index,
        page_block_ordinal: p3[k].block_count,
        top: (t3.1 + t3.2) as i64,
        effective_space_before: t3.2 as i64,
        effective_space_after: after,
        moved_to_fresh_page: t3.3,
        paint_ordinal: run.paint as u32,
        equation_number_paint_ordinal: if b.has_equation_number {
            Some((run.paint + 1) as u32)
        } else {
            None
        },
    };
    let r1 = AtomicRun {
        pages: p3.update(k, bump_blocks(p3[k])),
        used: t3.1 + t3.2 + b.content_height,
        pending: run.pending,
        active: b.page_name,
        blocks: run.blocks,
        captions: run.captions,
        paint: run.paint + 1 + equation_paints(b),
    };
    let fin = place_block(blocks, ks, i, run, body_height, max_pages)->Ok_0;
    let r2 = place_captions(b.captions@, 0, i, r1, body_height, max_pages)->Ok_0;
    let kept = b.vector_figure && b.keep_caption;
    if kept {
        lemma_captions_stay(b.captions@, 0, i, r1, body_height, max_pages);
        assert(r1.pages[k].page_index == p3[k].page_index);
    }
    lemma_captions_closed_blocks(b.captions@, 0, i, r1, body_height, max_pages);
    assert(fin.blocks == run.blocks.push(spot));
    assert forall|c: int| 0 <= c < fin.captions.len() implies {
        let bi = (#[trigger] fin.captions[c]).block_index as int;
        &&& bi < fin.blocks.len()
        &&& blocks[bi].vector_figure && blocks[bi].keep_caption ==> fin.captions[c].page_index
            == fin.blocks[bi].page_index
    } by {
        if c < run.captions.len() {
            assert(fin.captions[c] == run.captions[c]);
            let bi = run.captions[c].block_index as int;
            assert(fin.blocks[bi] == run.blocks[bi]);
        } else {
            assert(fin.captions[c].block_index == i as usize);
            assert(fin.blocks[i] == spot);
        }
    }
}

/// What placing captions keeps of the run, whatever the captions fit.
proof fn lemma_captions_closed_blocks(
    caps: Seq<StagingFigureCaptionBlockInput>,
    j: int,
    block: int,
    run: AtomicRun,
    body_height: int,
    max_pages: u32,
)
    requires
        0 <= j <= caps.len(),
        place_captions(caps, j, block, run, body_height, max_pages) is Ok,
    ensures
        ({
            let r = place_captions(caps, j, block, run, body_height, max_pages)->Ok_0;
            &&& r.blocks == run.blocks
            &&& r.captions.len() >= run.captions.len()
            &&& forall|c: int| 0 <= c < run.captions.len() ==> #[trigger] r.captions[c] == run.captions[c]
            &&& forall|c: int| run.captions.len() <= c < r.captions.len() ==> #[trigger] r.captions[c].block_index
                == block as usize
        }),
    decreases caps.len() - j,
{
    if j < caps.len() {
        let h = caps[j].block_size as int;
        let spill = h > body_height - run.used;
        let p1 = if spill { fresh_page(run.pages, max_pages)->Ok_0 } else { run.pages };
        let u1 = if spill { 0 } else { run.used };
        let k = p1.len() - 1;
        let spot = StagingAtomicVectorCaptionSpot {
            block_index: block as usize,
            owner: caps[j].owner,
            page_index: p1[k].page_index,
            top: u1 as i64,
            paint_ordinal: run.paint as u32,
        };
        let next = AtomicRun {
            pages: p1.update(k, bump_captions(p1[k])),
            used: u1 + h,
            pending: run.pending,
            active: run.active,
            blocks: run.blocks,
            captions: run.captions.push(spot),
            paint: run.paint + 1,
        };
        lemma_captions_closed_blocks(caps, j + 1, block, next, body_height, max_pages);
    }
}

proof fn lemma_blocks_kept(
    blocks: Seq<StagingAtomicVectorBlockPlan>,
    ks: Seq<StagingAtomicVectorKeepSuccessorInput>,
    i: int,
    run: AtomicRun,
    body_height: int,
    max_pages: u32,
)
    requires
        0 <= i <= blocks.len(),
        blocks.len() <= usize::MAX,
        plans_valid(blocks),
        body_height <= i64::MAX,
        run_closed(blocks, i, run, body_height, max_pages),
        run_kept(blocks, run),
        place_blocks(blocks, ks, i, run, body_height, max_pages) is Ok,
    ensures
        run_kept(blocks, place_blocks(blocks, ks, i, run, body_height, max_pages)->Ok_0),
    decreases blocks.len() - i,
{
    if i < blocks.len() {
        lemma_block_closed(blocks, ks, i, run, body_height, max_pages);
        lemma_block_kept(blocks, ks, i, run, body_height, max_pages);
        let r = place_block(blocks, ks, i, run, body_height, max_pages)->Ok_0;
        lemma_blocks_kept(blocks, ks, i + 1, r, body_height, max_pages);
    }
}

/// A Figure that keeps its captions is never separated from them: in a
/// successful placement every caption belongs to a placed block, and each
/// caption of a Figure that keeps its captions lies on that Figure's page.
pub proof fn lemma_atomic_placement_keeps_captions(
    blocks: Seq<StagingAtomicVectorBlockPlan>,
    keep_successors: Seq<StagingAtomicVectorKeepSuccessorInput>,
    body_height: i64,
    initial_consumed: i64,
    prior_fragment_charge: u64,
    max_fragments: u64,
    max_pages: u32,
)
    requires
        plans_valid(blocks),
        blocks.len() <= usize::MAX,
        body_height >= 0,
        initial_consumed >= 0,
        atomic_placement_outcome(
            blocks,
            keep_successors,
            body_height as int,
            initial_consumed as int,
            prior_fragment_charge as int,
            max_fragments as int,
            max_pages,
        ) is Ok,
    ensures
        run_kept(
            blocks,
            atomic_placement_outcome(
                blocks,
                keep_successors,
                body_height as int,
                initial_consumed as int,
                prior_fragment_charge as int,
                max_fragments as int,
                max_pages,
            )->Ok_0,
        ),
{
    let init = initial_run(initial_consumed as int);
    assert(pages_indexed(init.pages, max_pages));
    lemma_blocks_kept(blocks, keep_successors, 0, init, body_height as int, max_pages);
}

/// The first supplied caption measurement of `owner`, from the `k`-th on.
pub open spec fn caption_of_owner(
    cs: Seq<StagingFigureCaptionBlockInput>,
    owner: NodeId,
    k: int,
) -> Option<StagingFigureCaptionBlockInput>
    decreases cs.len() - k,
{
    if k < 0 || k >= cs.len() {
        None
    } else if cs[k].owner == owner {
        Some(cs[k])
    } else {
        caption_of_owner(cs, owner, k + 1)
    }
}

/// The measurements of a block's captions, in the block's order, from the
/// `j`-th owner on after `acc`; the first owner without one is missing.
pub open spec fn captions_resolved(
    owners: Seq<NodeId>,
    cs: Seq<StagingFigureCaptionBlockInput>,
    j: int,
    acc: Seq<StagingFigureCaptionBlockInput>,
) -> Result<Seq<StagingFigureCaptionBlockInput>, StagingAtomicVectorBlockLayoutError>
    decreases owners.len() - j,
{
    if j < 0 || j >= owners.len() {
        Ok(acc)
    } else {
        match caption_of_owner(cs, owners[j], 0) {
            None => Err(StagingAtomicVectorBlockLayoutError::MissingCaption(owners[j])),
            Some(c) => captions_resolved(owners, cs, j + 1, acc.push(c)),
        }
    }
}

fn find_caption(captions: &Vec<StagingFigureCaptionBlockInput>, owner: NodeId) -> (r: Option<
    StagingFigureCaptionBlockInput,
>)
    ensures
        r == caption_of_owner(captions@, owner, 0),
{
    let mut k: usize = 0;
    while k < captions.len()
        invariant
            k <= captions@.len(),
            caption_of_owner(captions@, owner, 0) == caption_of_owner(captions@, owner, k as int),
        decreases captions.len() - k,
    {
        if captions[k].owner == owner {
            return Some(captions[k]);
        }
        k = k + 1;
    }
    None
}

/// The caption measurements of a block, looked up by owner in the supplied
/// measurements, in the block's caption order.
pub fn captions_for(owners: &Vec<NodeId>, captions: &Vec<StagingFigureCaptionBlockInput>) -> (r: Result<
    Vec<StagingFigureCaptionBlockInput>,
    StagingAtomicVectorBlockLayoutError,
>)
    ensures
        match captions_resolved(owners@, captions@, 0, Seq::empty()) {
            Ok(v) => r matches Ok(x) && x@ == v,
            Err(e) => r matches Err(x) && x == e,
        },
{
    let ghost outcome = captions_resolved(owners@, captions@, 0, Seq::empty());
    let mut out: Vec<StagingFigureCaptionBlockInput> = Vec::new();
    let mut j: usize = 0;
    assert(out@ =~= Seq::<StagingFigureCaptionBlockInput>::empty());
    while j < owners.len()
        invariant
            j <= owners@.len(),
            outcome == captions_resolved(owners@, captions@, 0, Seq::empty()),
            outcome == captions_resolved(owners@, captions@, j as int, out@),
        decreases owners.len() - j,
    {
        let owner = owners[j];
        let found = find_caption(captions, owner);
        match found {
            None => {
                return Err(StagingAtomicVectorBlockLayoutError::MissingCaption(owner));
            },
            Some(c) => {
                out.push(c);
            },
        }
        j = j + 1;
    }
    Ok(out)
}

/// How many of the first `n` blocks carry an equation number.
pub open spec fn equation_count(blocks: Seq<StagingAtomicVectorBlockPlan>, n: int) -> int
    decreases n,
{
    if n <= 0 {
        0
    } else {
        equation_count(blocks, n - 1) + equation_paints(blocks[n - 1])
    }
}

proof fn lemma_equation_count_nonneg(blocks: Seq<StagingAtomicVectorBlockPlan>, n: int)
    ensures
        equation_count(blocks, n) >= 0,
    decreases n,
{
    if n > 0 {
        lemma_equation_count_nonneg(blocks, n - 1);
    }
}

/// Paint ordinals follow source order without gaps: each block is painted
/// first, then its equation number, then its captions, and the next block
/// after them; the ordinals handed out so far are exactly as many as the
/// blocks, equation numbers and captions placed.
pub open spec fn run_painted(blocks: Seq<StagingAtomicVectorBlockPlan>, run: AtomicRun) -> bool {
    let n = run.blocks.len() as int;
    &&& run.paint == n + equation_count(blocks, n) + run.captions.len()
    &&& forall|k: int| 0 <= k < n ==> (#[trigger] run.blocks[k]).paint_ordinal + equation_paints(blocks[k]) < run.paint
    &&& forall|k: int| 0 <= k < n ==> (#[trigger] run.blocks[k]).equation_number_paint_ordinal == if blocks[k].has_equation_number {
        Some((run.blocks[k].paint_ordinal + 1) as u32)
    } else {
        None
    }
    &&& forall|k1: int, k2: int| 0 <= k1 < k2 < n ==> #[trigger] run.blocks[k1].paint_ordinal < #[trigger] run.blocks[k2].paint_ordinal
    &&& forall|c: int| 0 <= c < run.captions.len() ==> (#[trigger] run.captions[c]).paint_ordinal < run.paint
    &&& forall|c1: int, c2: int| 0 <= c1 < c2 < run.captions.len() ==> #[trigger] run.captions[c1].paint_ordinal
        < #[trigger] run.captions[c2].paint_ordinal
    &&& forall|c: int| 0 <= c < run.captions.len() ==> {
        let bi = (#[trigger] run.captions[c]).block_index as int;
        &&& 0 <= bi < n
        &&& run.blocks[bi].paint_ordinal + equation_paints(blocks[bi]) < run.captions[c].paint_ordinal
        &&& bi + 1 < n ==> run.captions[c].paint_ordinal < run.blocks[bi + 1].paint_ordinal
    }
}

proof fn lemma_captions_painted(
    caps: Seq<StagingFigureCaptionBlockInput>,
    j: int,
    block: int,
    run: AtomicRun,
    body_height: int,
    max_pages: u32,
)
    requires
        0 <= j <= caps.len(),
        run.paint >= 0,
        place_captions(caps, j, block, run, body_height, max_pages) is Ok,
    ensures
        ({
            let r = place_captions(caps, j, block, run, body_height, max_pages)->Ok_0;
            &&& r.blocks == run.blocks
            &&& r.captions.len() >= run.captions.len()
            &&& r.paint == run.paint + (r.captions.len() - run.captions.len())
            &&& forall|c: int| 0 <= c < run.captions.len() ==> #[trigger] r.captions[c] == run.captions[c]
            &&& forall|c: int| run.captions.len() <= c < r.captions.len() ==> (#[trigger] r.captions[c]).paint_ordinal
                == run.paint + (c - run.captions.len()) && r.captions[c].block_index == block as usize
        }),
    decreases caps.len() - j,
{
    if j < caps.len() {
        let h = caps[j].block_size as int;
        let spill = h > body_height - run.used;
        let p1 = if spill { fresh_page(run.pages, max_pages)->Ok_0 } else { run.pages };
        let u1 = if spill { 0 } else { run.used };
        let k = p1.len() - 1;
        let spot = StagingAtomicVectorCaptionSpot {
            block_index: block as usize,
            owner: caps[j].owner,
            page_index: p1[k].page_index,
            top: u1 as i64,
            paint_ordinal: run.paint as u32,
        };
        let next = AtomicRun {
            pages: p1.update(k, bump_captions(p1[k])),
            used: u1 + h,
            pending: run.pending,
            active: run.active,
            blocks: run.blocks,
            captions: run.captions.push(spot),
            paint: run.paint + 1,
        };
        lemma_captions_painted(caps, j + 1, block, next, body_height, max_pages);
    }
}

proof fn lemma_block_painted(
    blocks: Seq<StagingAtomicVectorBlockPlan>,
    ks: Seq<StagingAtomicVectorKeepSuccessorInput>,
    i: int,
    run: AtomicRun,
    body_height: int,
    max_pages: u32,
)
    requires
        0 <= i < blocks.len(),
        blocks.len() <= usize::MAX,
        run.blocks.len() == i,
        run_painted(blocks, run),
        place_block(blocks, ks, i, run, body_height, max_pages) is Ok,
    ensures
        run_painted(blocks, place_block(blocks, ks, i, run, body_height, max_pages)->Ok_0),
{
    let b = blocks[i];
    let brk = (b.forced_page_break_before || b.page_name != run.active) && run.used != 0;
    let p1 = if brk { fresh_page(run.pages, max_pages)->Ok_0 } else { run.pages };
    let u1 = if brk { 0 } else { run.used };
    let pend = if brk { 0 } else { run.pending };
    let atomic = atomic_extent(b);
    let eb0 = spacing_before(b, u1, pend);
    let group = keep_group_extent(blocks, ks, i);
    let t2 = fit_keep_group(b, group, p1, u1, eb0, brk, body_height, max_pages)->Ok_0;
    let t3 = fit_extent(b.owner, atomic, t2.0, t2.1, t2.2, t2.3, body_height, max_pages)->Ok_0;
    let p3 = t3.0;
    let k = p3.len() - 1;
    let after = if b.following_sibling is Some { b.space_after } else { 0 };
    let eq = equation_paints(b);
    let spot = StagingAtomicVectorBlockSpot {
        page_index: p3[k].page_index,
        page_block_ordinal: p3[k].block_count,
        top: (t3.1 + t3.2) as i64,
        effective_space_before: t3.2 as i64,
        effective_space_after: after,
        moved_to_fresh_page: t3.3,
        paint_ordinal: run.paint as u32,
        equation_number_paint_ordinal: if b.has_equation_number {
            Some((run.paint + 1) as u32)
        } else {
            None
        },
    };
    let r1 = AtomicRun {
        pages: p3.update(k, bump_blocks(p3[k])),
        used: t3.1 + t3.2 + b.content_height,
        pending: run.pending,
        active: b.page_name,
        blocks: run.blocks,
        captions: run.captions,
        paint: run.paint + 1 + eq,
    };
    lemma_equation_count_nonneg(blocks, i);
    assert(run.paint >= 0);
    lemma_captions_painted(b.captions@, 0, i, r1, body_height, max_pages);
    let r2 = place_captions(b.captions@, 0, i, r1, body_height, max_pages)->Ok_0;
    let fin = place_block(blocks, ks, i, run, body_height, max_pages)->Ok_0;
    assert(fin.blocks == run.blocks.push(spot));
    assert(spot.paint_ordinal == run.paint);
    let n = i + 1;
    assert(equation_count(blocks, n) == equation_count(blocks, i) + eq);
    assert forall|q: int| 0 <= q < n implies (#[trigger] fin.blocks[q]).paint_ordinal + equation_paints(blocks[q])
        < fin.paint by {
        if q < i {
            assert(fin.blocks[q] == run.blocks[q]);
        }
    }
    assert forall|q: int| 0 <= q < n implies (#[trigger] fin.blocks[q]).equation_number_paint_ordinal == if blocks[q].has_equation_number {
        Some((fin.blocks[q].paint_ordinal + 1) as u32)
    } else {
        None
    } by {
        if q < i {
            assert(fin.blocks[q] == run.blocks[q]);
        }
    }
    assert forall|q1: int, q2: int| 0 <= q1 < q2 < n implies #[trigger] fin.blocks[q1].paint_ordinal
        < #[trigger] fin.blocks[q2].paint_ordinal by {
        assert(fin.blocks[q1] == run.blocks[q1]);
        if q2 < i {
            assert(fin.blocks[q2] == run.blocks[q2]);
        }
    }
    assert forall|c: int| 0 <= c < fin.captions.len() implies (#[trigger] fin.captions[c]).paint_ordinal
        < fin.paint by {
        if c < run.captions.len() {
            assert(fin.captions[c] == run.captions[c]);
        }
    }
    assert forall|c1: int, c2: int| 0 <= c1 < c2 < fin.captions.len() implies #[trigger] fin.captions[c1].paint_ordinal
        < #[trigger] fin.captions[c2].paint_ordinal by {
        if c2 < run.captions.len() {
            assert(fin.captions[c1] == run.captions[c1]);
            assert(fin.captions[c2] == run.captions[c2]);
        } else if c1 < run.captions.len() {
            assert(fin.captions[c1] == run.captions[c1]);
        }
    }
    assert forall|c: int| 0 <= c < fin.captions.len() implies {
        let bi = (#[trigger] fin.captions[c]).block_index as int;
        &&& 0 <= bi < n
        &&& fin.blocks[bi].paint_ordinal + equation_paints(blocks[bi]) < fin.captions[c].paint_ordinal
        &&& bi + 1 < n ==> fin.captions[c].paint_ordinal < fin.blocks[bi + 1].paint_ordinal
    } by {
        if c < run.captions.len() {
            assert(fin.captions[c] == run.captions[c]);
            let bi = run.captions[c].block_index as int;
            assert(fin.blocks[bi] == run.blocks[bi]);
            if bi + 1 < i {
                assert(fin.blocks[bi + 1] == run.blocks[bi + 1]);
            }
        } else {
            assert(fin.blocks[i] == spot);
        }
    }
}

proof fn lemma_blocks_painted(
    blocks: Seq<StagingAtomicVectorBlockPlan>,
    ks: Seq<StagingAtomicVectorKeepSuccessorInput>,
    i: int,
    run: AtomicRun,
    body_height: int,
    max_pages: u32,
)
    requires
        0 <= i <= blocks.len(),
        blocks.len() <= usize::MAX,
        plans_valid(blocks),
        body_height <= i64::MAX,
        run_closed(blocks, i, run, body_height, max_pages),
        run_painted(blocks, run),
        place_blocks(blocks, ks, i, run, body_height, max_pages) is Ok,
    ensures
        run_painted(blocks, place_blocks(blocks, ks, i, run, body_height, max_pages)->Ok_0),
    decreases blocks.len() - i,
{
    if i < blocks.len() {
        lemma_block_closed(blocks, ks, i, run, body_height, max_pages);
        lemma_block_painted(blocks, ks, i, run, body_height, max_pages);
        let r = place_block(blocks, ks, i, run, body_height, max_pages)->Ok_0;
        lemma_blocks_painted(blocks, ks, i + 1, r, body_height, max_pages);
    }
}

/// Paint ordinals are dense and follow source order: in a successful
/// placement each block is painted before its equation number, which comes
/// before the block's captions, which come before the next block; block and
/// caption ordinals increase in source order; and exactly as many ordinals
/// are handed out as there are blocks, equation numbers and captions, every
/// one below that count.
pub proof fn lemma_atomic_placement_paint_ordinals(
    blocks: Seq<StagingAtomicVectorBlockPlan>,
    keep_successors: Seq<StagingAtomicVectorKeepSuccessorInput>,
    body_height: i64,
    initial_consumed: i64,
    prior_fragment_charge: u64,
    max_fragments: u64,
    max_pages: u32,
)
    requires
        plans_valid(blocks),
        blocks.len() <= usize::MAX,
        body_height >= 0,
        initial_consumed >= 0,
        atomic_placement_outcome(
            blocks,
            keep_successors,
            body_height as int,
            initial_consumed as int,
            prior_fragment_charge as int,
            max_fragments as int,
            max_pages,
        ) is Ok,
    ensures
        run_painted(
            blocks,
            atomic_placement_outcome(
                blocks,
                keep_successors,
                body_height as int,
                initial_consumed as int,
                prior_fragment_charge as int,
                max_fragments as int,
                max_pages,
            )->Ok_0,
        ),
{
    let init = initial_run(initial_consumed as int);
    assert(pages_indexed(init.pages, max_pages));
    assert(equation_count(blocks, 0) == 0);
    lemma_blocks_painted(blocks, keep_successors, 0, init, body_height as int, max_pages);
}

/// A plan describes a prepared block: the same owner, in the same parent
/// flow at the same position, with the same keep-with-next policy.
pub open spec fn plan_describes(plan: StagingAtomicVectorBlockPlan, block: StagingPreparedVectorBlock) -> bool {
    &&& plan.owner == block.owner
    &&& plan.parent_flow_id == block.parent_flow_id
    &&& plan.parent_position == block.parent_position
    &&& plan.keep_with_next == block.keep_with_next
}

pub open spec fn plans_describe(
    plans: Seq<StagingAtomicVectorBlockPlan>,
    blocks: Seq<StagingPreparedVectorBlock>,
) -> bool {
    &&& plans.len() == blocks.len()
    &&& forall|i: int| 0 <= i < plans.len() ==> #[trigger] plan_describes(plans[i], blocks[i])
}

/// Atomic vector block pagination: the layout must still match its receipt,
/// the input must be bound to this layout and the plans must describe its
/// blocks in order; then the blocks are placed from the input's initial
/// content, fragment charge and keep successors under the limits.
pub open spec fn atomic_vector_outcome(
    layout: StagingPrecomposedVectorBlockLayout,
    input: StagingAtomicVectorBlockPaginationInput,
    plans: Seq<StagingAtomicVectorBlockPlan>,
    limits: PaginationLimits,
) -> Result<AtomicRun, StagingAtomicVectorBlockLayoutError> {
    if !layout.integrity_matches || input.spec_preparation_fingerprint() != layout.fingerprint@ || !plans_describe(
        plans,
        layout.blocks@,
    ) {
        Err(StagingAtomicVectorBlockLayoutError::LayoutMismatch)
    } else {
        atomic_placement_outcome(
            plans,
            input.spec_keep_successors(),
            layout.body_height as int,
            input.spec_initial_consumed_block_size() as int,
            input.spec_prior_fragment_charge() as int,
            limits.max_fragments as int,
            limits.max_pages,
        )
    }
}

fn plans_match(plans: &Vec<StagingAtomicVectorBlockPlan>, blocks: &Vec<StagingPreparedVectorBlock>) -> (r: bool)
    ensures
        r == plans_describe(plans@, blocks@),
{
    if plans.len() != blocks.len() {
        return false;
    }
    let mut i: usize = 0;
    while i < plans.len()
        invariant
            plans@.len() == blocks@.len(),
            i <= plans@.len(),
            forall|j: int| 0 <= j < i ==> #[trigger] plan_describes(plans@[j], blocks@[j]),
        decreases plans.len() - i,
    {
        let p = &plans[i];
        let b = &blocks[i];
        if !(p.owner == b.owner && p.parent_flow_id == b.parent_flow_id && p.parent_position == b.parent_position
            && p.keep_with_next == b.keep_with_next) {
            assert(!plan_describes(plans@[i as int], blocks@[i as int]));
            return false;
        }
        i = i + 1;
    }
    true
}

/// Paginates the atomic vector blocks of a prepared layout with a pagination
/// input bound to it, placing each block whole with its kept captions and
/// keep-with-next group, under the page and fragment limits.
pub fn paginate_staging_atomic_vector_blocks(
    layout: &StagingPrecomposedVectorBlockLayout,
    input: &StagingAtomicVectorBlockPaginationInput,
    plans: &Vec<StagingAtomicVectorBlockPlan>,
    limits: &PaginationLimits,
) -> (r: Result<StagingAtomicVectorPlacement, StagingAtomicVectorBlockLayoutError>)
    requires
        plans_valid(plans@),
        layout.body_height >= 0,
        input.spec_initial_consumed_block_size() >= 0,
    ensures
        match atomic_vector_outcome(*layout, *input, plans@, *limits) {
            Ok(run) => r matches Ok(p) && p.pages@ == run.pages && p.blocks@ == run.blocks
                && p.captions@ == run.captions,
            Err(e) => r matches Err(x) && x == e,
        },
{
    let prepared = input.preparation_fingerprint();
    if !layout.integrity_matches || !fingerprint_eq(&prepared, &layout.fingerprint) || !plans_match(
        plans,
        &layout.blocks,
    ) {
        return Err(StagingAtomicVectorBlockLayoutError::LayoutMismatch);
    }
    place_staging_atomic_vector_blocks(
        plans,
        input.keep_successors(),
        layout.body_height,
        input.initial_consumed_block_size(),
        input.prior_fragment_charge(),
        limits.max_fragments,
        limits.max_pages,
    )
}

/// In a successful pagination each page's block count is the number of
/// placed blocks whose page is that page, its caption count the number of
/// captions on it, and the blocks of a page are numbered from zero in
/// order.
pub proof fn lemma_atomic_pagination_counted(
    layout: StagingPrecomposedVectorBlockLayout,
    input: StagingAtomicVectorBlockPaginationInput,
    plans: Seq<StagingAtomicVectorBlockPlan>,
    limits: PaginationLimits,
)
    requires
        plans_valid(plans),
        layout.body_height >= 0,
        input.spec_initial_consumed_block_size() >= 0,
        atomic_vector_outcome(layout, input, plans, limits) is Ok,
    ensures
        run_counted(atomic_vector_outcome(layout, input, plans, limits)->Ok_0),
{
    lemma_atomic_placement_counted(
        plans,
        input.spec_keep_successors(),
        layout.body_height,
        input.spec_initial_consumed_block_size(),
        input.spec_prior_fragment_charge(),
        limits.max_fragments,
        limits.max_pages,
    );
}

/// The last page holds a block or a caption.
pub open spec fn last_page_used(pages: Seq<StagingAtomicVectorPage>) -> bool {
    pages.len() > 0 && (pages.last().block_count > 0 || pages.last().caption_count > 0)
}

proof fn lemma_captions_tail(
    caps: Seq<StagingFigureCaptionBlockInput>,
    j: int,
    block: int,
    run: AtomicRun,
    body_height: int,
    max_pages: u32,
)
    requires
        0 <= j <= caps.len(),
        run.pages.len() >= 1,
        place_captions(caps, j, block, run, body_height, max_pages) is Ok,
    ensures
        ({
            let r = place_captions(caps, j, block, run, body_height, max_pages)->Ok_0;
            &&& r.pages.len() >= run.pages.len()
            &&& r.pages.len() > run.pages.len() ==> r.pages.last().caption_count > 0
            &&& forall|q: int| 0 <= q < run.pages.len() ==> #[trigger] r.pages[q].block_count == run.pages[q].block_count
                && r.pages[q].caption_count >= run.pages[q].caption_count
        }),
    decreases caps.len() - j,
{
    if j < caps.len() {
        let h = caps[j].block_size as int;
        let spill = h > body_height - run.used;
        let p1 = if spill { fresh_page(run.pages, max_pages)->Ok_0 } else { run.pages };
        let u1 = if spill { 0 } else { run.used };
        let k = p1.len() - 1;
        let spot = StagingAtomicVectorCaptionSpot {
            block_index: block as usize,
            owner: caps[j].owner,
            page_index: p1[k].page_index,
            top: u1 as i64,
            paint_ordinal: run.paint as u32,
        };
        let next = AtomicRun {
            pages: p1.update(k, bump_captions(p1[k])),
            used: u1 + h,
            pending: run.pending,
            active: run.active,
            blocks: run.blocks,
            captions: run.captions.push(spot),
            paint: run.paint + 1,
        };
        lemma_captions_tail(caps, j + 1, block, next, body_height, max_pages);
        let r = place_captions(caps, j + 1, block, next, body_height, max_pages)->Ok_0;
        assert(place_captions(caps, j, block, run, body_height, max_pages)->Ok_0 == r);
        if spill && r.pages.len() == next.pages.len() {
            assert(r.pages[k].block_count == next.pages[k].block_count);
            assert(r.pages[k].caption_count >= next.pages[k].caption_count);
            assert(r.pages.last() == r.pages[k]);
        }
        assert forall|q: int| 0 <= q < run.pages.len() implies #[trigger] next.pages[q].block_count
            == run.pages[q].block_count && next.pages[q].caption_count >= run.pages[q].caption_count by {
            if q != k {
                assert(next.pages[q] == p1[q]);
            }
        }
    }
}

proof fn lemma_block_tail(
    blocks: Seq<StagingAtomicVectorBlockPlan>,
    ks: Seq<StagingAtomicVectorKeepSuccessorInput>,
    i: int,
    run: AtomicRun,
    body_height: int,
    max_pages: u32,
)
    requires
        0 <= i < blocks.len(),
        plans_valid(blocks),
        body_height <= i64::MAX,
        run_closed(blocks, i, run, body_height, max_pages),
        place_block(blocks, ks, i, run, body_height, max_pages) is Ok,
    ensures
        last_page_used(place_block(blocks, ks, i, run, body_height, max_pages)->Ok_0.pages),
{
    let b = blocks[i];
    assert(plan_valid(b));
    lemma_caption_sum_prefix(b.captions@, 0, b.captions@.len() as int);
    assert(b.captions@.take(0) =~= Seq::<StagingFigureCaptionBlockInput>::empty());
    assert(b.captions@.take(b.captions@.len() as int) =~= b.captions@);
    let brk = (b.forced_page_break_before || b.page_name != run.active) && run.used != 0;
    if brk {
        lemma_fresh_page(run.pages, max_pages);
    }
    let p1 = if brk { fresh_page(run.pages, max_pages)->Ok_0 } else { run.pages };
    let u1 = if brk { 0 } else { run.used };
    let pend = if brk { 0 } else { run.pending };
    let atomic = atomic_extent(b);
    let eb0 = spacing_before(b, u1, pend);
    let group = keep_group_extent(blocks, ks, i);
    if b.keep_with_next && group is Ok {
        lemma_fit_extent(b.owner, group->Ok_0, p1, u1, eb0, brk, body_height, max_pages);
    }
    let t2 = fit_keep_group(b, group, p1, u1, eb0, brk, body_height, max_pages)->Ok_0;
    lemma_fit_extent(b.owner, atomic, t2.0, t2.1, t2.2, t2.3, body_height, max_pages);
    let t3 = fit_extent(b.owner, atomic, t2.0, t2.1, t2.2, t2.3, body_height, max_pages)->Ok_0;
    let p3 = t3.0;
    let k = p3.len() - 1;
    let r1 = AtomicRun {
        pages: p3.update(k, bump_blocks(p3[k])),
        used: t3.1 + t3.2 + b.content_height,
        pending: run.pending,
        active: b.page_name,
        blocks: run.blocks,
        captions: run.captions,
        paint: run.paint + 1 + equation_paints(b),
    };
    lemma_captions_tail(b.captions@, 0, i, r1, body_height, max_pages);
    let r2 = place_captions(b.captions@, 0, i, r1, body_height, max_pages)->Ok_0;
    if r2.pages.len() == r1.pages.len() {
        assert(r2.pages[k].block_count == r1.pages[k].block_count);
    }
}

proof fn lemma_blocks_tail(
    blocks: Seq<StagingAtomicVectorBlockPlan>,
    ks: Seq<StagingAtomicVectorKeepSuccessorInput>,
    i: int,
    run: AtomicRun,
    body_height: int,
    max_pages: u32,
)
    requires
        0 <= i <= blocks.len(),
        plans_valid(blocks),
        body_height <= i64::MAX,
        run_closed(blocks, i, run, body_height, max_pages),
        i > 0 ==> last_page_used(run.pages),
        place_blocks(blocks, ks, i, run, body_height, max_pages) is Ok,
    ensures
        blocks.len() > 0 ==> last_page_used(place_blocks(blocks, ks, i, run, body_height, max_pages)->Ok_0.pages),
    decreases blocks.len() - i,
{
    if i < blocks.len() {
        lemma_block_closed(blocks, ks, i, run, body_height, max_pages);
        lemma_block_tail(blocks, ks, i, run, body_height, max_pages);
        let r = place_block(blocks, ks, i, run, body_height, max_pages)->Ok_0;
        lemma_blocks_tail(blocks, ks, i + 1, r, body_height, max_pages);
    }
}

/// A successful placement of at least one block ends on a page that holds a
/// block or a caption: no page is opened that nothing lands on.
pub proof fn lemma_atomic_placement_last_page_used(
    blocks: Seq<StagingAtomicVectorBlockPlan>,
    keep_successors: Seq<StagingAtomicVectorKeepSuccessorInput>,
    body_height: i64,
    initial_consumed: i64,
    prior_fragment_charge: u64,
    max_fragments: u64,
    max_pages: u32,
)
    requires
        plans_valid(blocks),
        blocks.len() > 0,
        body_height >= 0,
        initial_consumed >= 0,
        atomic_placement_outcome(
            blocks,
            keep_successors,
            body_height as int,
            initial_consumed as int,
            prior_fragment_charge as int,
            max_fragments as int,
            max_pages,
        ) is Ok,
    ensures
        last_page_used(
            atomic_placement_outcome(
                blocks,
                keep_successors,
                body_height as int,
                initial_consumed as int,
                prior_fragment_charge as int,
                max_fragments as int,
                max_pages,
            )->Ok_0.pages,
        ),
{
    let init = initial_run(initial_consumed as int);
    assert(pages_indexed(init.pages, max_pages));
    lemma_blocks_tail(blocks, keep_successors, 0, init, body_height as int, max_pages);
}

} // verus!
