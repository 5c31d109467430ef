use typaxis::atomic_placement::{
    captions_for, paginate_staging_atomic_vector_blocks, place_staging_atomic_vector_blocks, StagingAtomicVectorBlockPlan,
};
use typaxis::page_geometry::PaginationLimits;
use typaxis::atomic_vector::{
    StagingAtomicVectorBlockLayoutError, StagingAtomicVectorBlockPaginationInput, StagingAtomicVectorKeepSuccessorInput,
    StagingFigureCaptionBlockInput, StagingPrecomposedVectorBlockLayout, StagingPreparedVectorBlock,
    StagingVectorBlockSibling,
};
use typaxis::body_errors::NodeId;

const PT: i64 = 65_536;

fn plan(owner: u32, content: i64) -> StagingAtomicVectorBlockPlan {
    StagingAtomicVectorBlockPlan {
        owner: NodeId::new(owner),
        content_height: content,
        space_before: 0,
        space_after: 0,
        forced_page_break_before: false,
        page_name: None,
        vector_figure: false,
        keep_caption: false,
        keep_with_next: false,
        has_equation_number: false,
        parent_flow_id: 0,
        parent_position: owner,
        following_sibling: None,
        captions: Vec::new(),
    }
}

fn followed_by(block: &mut StagingAtomicVectorBlockPlan, owner: u32) {
    block.following_sibling =
        Some(StagingVectorBlockSibling { page_break: false, owner: NodeId::new(owner), parent_position: owner });
}

fn place(
    blocks: &Vec<StagingAtomicVectorBlockPlan>,
    initial: i64,
    prior: u64,
    max_fragments: u64,
    max_pages: u32,
) -> Result<typaxis::atomic_placement::StagingAtomicVectorPlacement, StagingAtomicVectorBlockLayoutError> {
    place_staging_atomic_vector_blocks(blocks, &Vec::new(), 100 * PT, initial, prior, max_fragments, max_pages)
}

fn caption(owner: u32, size: i64) -> StagingFigureCaptionBlockInput {
    StagingFigureCaptionBlockInput { owner: NodeId::new(owner), block_size: size }
}

#[test]
fn atomic_vector_block_suppresses_page_top_space_and_consumes_pending_glue() {
    let mut figure = plan(1, 10 * PT);
    figure.vector_figure = true;
    figure.space_before = 4 * PT;
    figure.space_after = 196_608;
    followed_by(&mut figure, 2);
    let mut math = plan(2, 10 * PT);
    math.space_before = 131_072;
    math.space_after = 5 * PT;
    let placed = place(&vec![figure, math], 0, 0, 100, 10).unwrap();
    assert_eq!(placed.blocks[0].effective_space_before, 0);
    assert_eq!(placed.blocks[0].effective_space_after, 196_608);
    assert_eq!(placed.blocks[0].top, 0);
    assert_eq!(placed.blocks[1].effective_space_before, 327_680);
    assert_eq!(placed.blocks[1].effective_space_after, 0);
    assert_eq!(placed.blocks[1].top, 10 * PT + 327_680);
    assert_eq!(placed.blocks[1].page_block_ordinal, 1);
    assert_eq!(placed.pages.len(), 1);
    assert_eq!(placed.pages[0].block_count(), 2);
}

#[test]
fn atomic_vector_block_keeps_figure_caption_on_the_same_fresh_page() {
    let mut figure = plan(5, 20 * PT);
    figure.vector_figure = true;
    figure.keep_caption = true;
    figure.captions = vec![caption(6, 20 * PT)];
    let placed = place(&vec![figure], 75 * PT, 0, 100, 10).unwrap();
    assert_eq!(placed.blocks[0].page_index, 1);
    assert!(placed.blocks[0].moved_to_fresh_page);
    assert_eq!(placed.blocks[0].top, 0);
    assert_eq!(placed.captions.len(), 1);
    assert_eq!(placed.captions[0].owner, NodeId::new(6));
    assert_eq!(placed.captions[0].page_index, 1);
    assert_eq!(placed.captions[0].top, 20 * PT);
    assert_eq!(placed.pages[1].caption_count(), 1);
    assert_eq!(placed.pages[0].block_count(), 0);
}

#[test]
fn atomic_vector_block_allows_an_unkept_caption_on_the_next_page() {
    let mut figure = plan(5, 20 * PT);
    figure.vector_figure = true;
    figure.captions = vec![caption(6, 20 * PT)];
    let placed = place(&vec![figure], 80 * PT, 0, 100, 10).unwrap();
    assert_eq!(placed.blocks[0].page_index, 0);
    assert!(!placed.blocks[0].moved_to_fresh_page);
    assert_eq!(placed.blocks[0].top, 80 * PT);
    assert_eq!(placed.captions[0].page_index, 1);
    assert_eq!(placed.captions[0].top, 0);
    assert_eq!(placed.pages.len(), 2);
    assert_eq!(placed.pages[1].page_index(), 1);
}

#[test]
fn atomic_vector_block_keep_with_next_moves_the_whole_group() {
    let mut first = plan(1, 10 * PT);
    first.keep_with_next = true;
    followed_by(&mut first, 2);
    let second = plan(2, 20 * PT);
    let placed =
        place(&vec![first, second], 75 * PT, 0, 100, 10).unwrap();
    assert_eq!(placed.blocks[0].page_index, 1);
    assert_eq!(placed.blocks[1].page_index, 1);
    assert!(placed.blocks[0].moved_to_fresh_page);
    assert!(!placed.blocks[1].moved_to_fresh_page);
    assert_eq!(placed.blocks[1].top, 10 * PT);
}

#[test]
fn atomic_vector_block_honors_forced_and_named_page_boundaries() {
    for named in [false, true] {
        let first = plan(1, 10 * PT);
        let mut second = plan(2, 10 * PT);
        if named {
            second.page_name = Some(7);
        } else {
            second.forced_page_break_before = true;
        }
        let placed =
            place(&vec![first, second], 0, 0, 100, 10).unwrap();
        assert_eq!(placed.blocks[1].page_index, 1);
        assert!(placed.blocks[1].moved_to_fresh_page);
        assert_eq!(placed.blocks[1].page_block_ordinal, 0);
    }
}

#[test]
fn atomic_placement_forced_break_on_an_empty_page_adds_no_page() {
    let mut first = plan(1, 10 * PT);
    first.forced_page_break_before = true;
    let placed = place(&vec![first], 0, 0, 100, 10).unwrap();
    assert_eq!(placed.pages.len(), 1);
    assert!(!placed.blocks[0].moved_to_fresh_page);
}

#[test]
fn atomic_placement_rejects_a_block_taller_than_the_body() {
    let tall = plan(3, 101 * PT);
    let refused = place(&vec![tall], 0, 0, 100, 10);
    assert_eq!(refused.unwrap_err(), StagingAtomicVectorBlockLayoutError::Oversize(NodeId::new(3)));
    let mut figure = plan(4, 90 * PT);
    figure.captions = vec![caption(9, 101 * PT)];
    let refused = place(&vec![figure], 0, 0, 100, 10);
    assert_eq!(refused.unwrap_err(), StagingAtomicVectorBlockLayoutError::Oversize(NodeId::new(9)));
}

#[test]
fn atomic_placement_refuses_by_limits_and_initial_content() {
    let blocks = vec![plan(1, 60 * PT), plan(2, 60 * PT)];
    assert_eq!(
        place(&blocks, 0, 0, 100, 1).unwrap_err(),
        StagingAtomicVectorBlockLayoutError::PageLimit
    );
    assert_eq!(
        place(&blocks, 0, 0, 100, 0).unwrap_err(),
        StagingAtomicVectorBlockLayoutError::PageLimit
    );
    assert_eq!(
        place(&blocks, 0, 99, 100, 10).unwrap_err(),
        StagingAtomicVectorBlockLayoutError::FragmentLimit
    );
    assert_eq!(
        place(&blocks, 0, u64::MAX, u64::MAX, 10).unwrap_err(),
        StagingAtomicVectorBlockLayoutError::FragmentLimit
    );
    assert_eq!(
        place(&blocks, 101 * PT, 0, 100, 10).unwrap_err(),
        StagingAtomicVectorBlockLayoutError::LayoutMismatch
    );
    let placed = place(&blocks, 0, 98, 100, 2).unwrap();
    assert_eq!(placed.pages.len(), 2);
    assert_eq!(placed.blocks[1].page_index, 1);
}

#[test]
fn atomic_placement_keep_group_counts_spacing_and_kept_captions() {
    let mut first = plan(1, 10 * PT);
    first.vector_figure = true;
    first.keep_with_next = true;
    first.space_after = 2 * PT;
    first.captions = vec![caption(9, 5 * PT)];
    followed_by(&mut first, 2);
    let mut second = plan(2, 20 * PT);
    second.space_before = 3 * PT;
    // 10 + 5 (caption between the kept pair) + 2 + 3 + 20 = 40 > 100 - 65
    let placed = place(&vec![first.clone(), second.clone()], 65 * PT, 0, 100, 10).unwrap();
    assert!(placed.blocks[0].moved_to_fresh_page);
    assert_eq!(placed.blocks[0].page_index, 1);
    let placed = place(&vec![first, second], 60 * PT, 0, 100, 10).unwrap();
    assert!(!placed.blocks[0].moved_to_fresh_page);
    assert_eq!(placed.blocks[0].page_index, 0);
}

#[test]
fn atomic_placement_keep_with_an_outside_successor_uses_its_supplied_extent() {
    let mut first = plan(1, 10 * PT);
    first.keep_with_next = true;
    followed_by(&mut first, 7);
    let blocks = vec![first];
    let missing = place_staging_atomic_vector_blocks(&blocks, &Vec::new(), 100 * PT, 0, 0, 100, 10);
    assert_eq!(missing.unwrap_err(), StagingAtomicVectorBlockLayoutError::MissingKeepSuccessor(NodeId::new(1)));
    let wrong = vec![StagingAtomicVectorKeepSuccessorInput::new(NodeId::new(1), NodeId::new(8), 5 * PT)];
    let refused = place_staging_atomic_vector_blocks(&blocks, &wrong, 100 * PT, 0, 0, 100, 10);
    assert_eq!(refused.unwrap_err(), StagingAtomicVectorBlockLayoutError::WrongKeepSuccessor(NodeId::new(1)));
    let supplied = vec![StagingAtomicVectorKeepSuccessorInput::new(NodeId::new(1), NodeId::new(7), 20 * PT)];
    let moved = place_staging_atomic_vector_blocks(&blocks, &supplied, 100 * PT, 75 * PT, 0, 100, 10).unwrap();
    assert!(moved.blocks[0].moved_to_fresh_page);
    let stays = place_staging_atomic_vector_blocks(&blocks, &supplied, 100 * PT, 70 * PT, 0, 100, 10).unwrap();
    assert!(!stays.blocks[0].moved_to_fresh_page);
    assert_eq!(stays.blocks[0].top, 70 * PT);
}

#[test]
fn atomic_placement_refuses_a_keep_cycle() {
    let mut first = plan(1, 10 * PT);
    first.keep_with_next = true;
    followed_by(&mut first, 2);
    let mut second = plan(2, 10 * PT);
    second.keep_with_next = true;
    followed_by(&mut second, 1);
    let refused = place(&vec![first, second], 0, 0, 100, 10);
    assert_eq!(refused.unwrap_err(), StagingAtomicVectorBlockLayoutError::FlowMismatch);
}

#[test]
fn atomic_placement_keep_group_stops_at_a_page_policy_change() {
    let mut first = plan(1, 10 * PT);
    first.keep_with_next = true;
    followed_by(&mut first, 2);
    let mut second = plan(2, 80 * PT);
    second.forced_page_break_before = true;
    let placed = place(&vec![first, second], 85 * PT, 0, 100, 10).unwrap();
    assert!(!placed.blocks[0].moved_to_fresh_page);
    assert_eq!(placed.blocks[0].page_index, 0);
    assert_eq!(placed.blocks[1].page_index, 1);
}

#[test]
fn atomic_placement_counts_blocks_and_captions_per_page() {
    let mut first = plan(1, 50 * PT);
    first.vector_figure = true;
    first.keep_caption = true;
    first.captions = vec![caption(11, 10 * PT), caption(12, 10 * PT)];
    let second = plan(2, 40 * PT);
    let mut third = plan(3, 30 * PT);
    third.vector_figure = true;
    third.captions = vec![caption(13, 20 * PT)];
    let placed = place(&vec![first, second, third], 0, 0, 100, 10).unwrap();
    assert_eq!(placed.pages.len(), 2);
    assert_eq!(placed.pages[0].block_count(), 1);
    assert_eq!(placed.pages[0].caption_count(), 2);
    assert_eq!(placed.pages[1].block_count(), 2);
    assert_eq!(placed.pages[1].caption_count(), 1);
    assert_eq!(placed.blocks[1].page_block_ordinal, 0);
    assert_eq!(placed.blocks[2].page_block_ordinal, 1);
    assert_eq!(placed.blocks[2].top, 40 * PT);
    assert_eq!(placed.captions[0].page_index, placed.blocks[0].page_index);
    assert_eq!(placed.captions[1].page_index, placed.blocks[0].page_index);
    assert_eq!(placed.captions[1].top, 60 * PT);
    assert_eq!(placed.captions[2].block_index, 2);
    assert_eq!(placed.captions[2].top, 70 * PT);
}

#[test]
fn atomic_placement_looks_captions_up_by_owner_in_block_order() {
    let supplied = vec![caption(3, 7 * PT), caption(5, 9 * PT)];
    let found = captions_for(&vec![NodeId::new(5), NodeId::new(3)], &supplied).unwrap();
    assert_eq!(found.len(), 2);
    assert_eq!(found[0].owner, NodeId::new(5));
    assert_eq!(found[0].block_size, 9 * PT);
    assert_eq!(found[1].block_size, 7 * PT);
    let missing = captions_for(&vec![NodeId::new(3), NodeId::new(4)], &supplied);
    assert_eq!(missing.unwrap_err(), StagingAtomicVectorBlockLayoutError::MissingCaption(NodeId::new(4)));
    assert!(captions_for(&Vec::new(), &supplied).unwrap().is_empty());
}

#[test]
fn atomic_placement_numbers_paints_densely_in_source_order() {
    let mut figure = plan(1, 10 * PT);
    figure.vector_figure = true;
    figure.captions = vec![caption(11, 5 * PT), caption(12, 5 * PT)];
    let mut math = plan(2, 10 * PT);
    math.has_equation_number = true;
    let last = plan(3, 10 * PT);
    let placed = place(&vec![figure, math, last], 0, 0, 100, 10).unwrap();
    assert_eq!(placed.blocks[0].paint_ordinal, 0);
    assert_eq!(placed.blocks[0].equation_number_paint_ordinal, None);
    assert_eq!(placed.captions[0].paint_ordinal, 1);
    assert_eq!(placed.captions[1].paint_ordinal, 2);
    assert_eq!(placed.blocks[1].paint_ordinal, 3);
    assert_eq!(placed.blocks[1].equation_number_paint_ordinal, Some(4));
    assert_eq!(placed.blocks[2].paint_ordinal, 5);
}

#[test]
fn atomic_vector_block_rejects_svg_height_on_an_empty_page() {
    let figure = plan(5, 120 * PT);
    let error = place(&vec![figure], 0, 0, 100, 10).unwrap_err();
    assert!(matches!(error, StagingAtomicVectorBlockLayoutError::Oversize(owner) if owner == NodeId::new(5)));
}

#[test]
fn atomic_vector_block_fragment_charge_is_not_reset() {
    let blocks = vec![plan(5, 10 * PT), plan(6, 10 * PT)];
    let max_fragments: u64 = 4_096;
    let exact_prior = max_fragments.checked_sub(2).unwrap();
    assert!(place(&blocks, 0, exact_prior, max_fragments, 10).is_ok());
    assert_eq!(
        place(&blocks, 0, exact_prior + 1, max_fragments, 10).unwrap_err(),
        StagingAtomicVectorBlockLayoutError::FragmentLimit
    );
}

fn prepared(owner: u32, keep_with_next: bool, sibling: Option<u32>, captions: &[u32]) -> StagingPreparedVectorBlock {
    StagingPreparedVectorBlock {
        owner: NodeId::new(owner),
        parent_flow_id: 0,
        parent_position: owner,
        keep_with_next,
        caption_owners: captions.iter().map(|c| NodeId::new(*c)).collect(),
        following_sibling: sibling.map(|s| StagingVectorBlockSibling {
            page_break: false,
            owner: NodeId::new(s),
            parent_position: s,
        }),
    }
}

fn limits() -> PaginationLimits {
    PaginationLimits {
        max_pages: 10,
        max_fragments: 100,
        max_column_balance_candidates: 16,
        max_float_queue: 16,
        max_float_carry_pages: 4,
    }
}

/// A Figure (node 5) with caption 6, kept with an outside paragraph (node 9)
/// whose extent is supplied, and a formula (node 7).
fn vector_layout(fingerprint: u8) -> StagingPrecomposedVectorBlockLayout {
    StagingPrecomposedVectorBlockLayout {
        integrity_matches: true,
        body_height: 100 * PT,
        blocks: vec![prepared(5, true, Some(9), &[6]), prepared(7, false, None, &[])],
        fingerprint: [fingerprint; 32],
    }
}

fn vector_plans() -> Vec<StagingAtomicVectorBlockPlan> {
    let mut figure = plan(5, 20 * PT);
    figure.vector_figure = true;
    figure.keep_with_next = true;
    followed_by(&mut figure, 9);
    figure.captions = vec![caption(6, 10 * PT)];
    vec![figure, plan(7, 10 * PT)]
}

#[test]
fn atomic_vector_block_rejects_input_from_another_preparation() {
    let layout = vector_layout(7);
    let other = vector_layout(8);
    let captions = vec![caption(6, 10 * PT)];
    let keeps = vec![StagingAtomicVectorKeepSuccessorInput::new(NodeId::new(5), NodeId::new(9), 5 * PT)];
    let foreign = StagingAtomicVectorBlockPaginationInput::new(&other, 0, 0, captions.clone(), keeps.clone()).unwrap();
    assert_eq!(
        paginate_staging_atomic_vector_blocks(&layout, &foreign, &vector_plans(), &limits()).unwrap_err(),
        StagingAtomicVectorBlockLayoutError::LayoutMismatch
    );
    let input = StagingAtomicVectorBlockPaginationInput::new(&layout, 0, 0, captions, keeps).unwrap();
    let placed = paginate_staging_atomic_vector_blocks(&layout, &input, &vector_plans(), &limits()).unwrap();
    assert_eq!(placed.blocks.len(), 2);
    assert_eq!(placed.captions[0].owner, NodeId::new(6));
    assert_eq!(placed.captions[0].top, 20 * PT);
    assert_eq!(placed.blocks[1].top, 30 * PT);
    let mut reordered = vector_plans();
    reordered.swap(0, 1);
    assert_eq!(
        paginate_staging_atomic_vector_blocks(&layout, &input, &reordered, &limits()).unwrap_err(),
        StagingAtomicVectorBlockLayoutError::LayoutMismatch
    );
}

#[test]
fn atomic_vector_block_pagination_takes_the_initial_content_and_keep_extent_from_its_input() {
    let layout = vector_layout(7);
    let captions = vec![caption(6, 10 * PT)];
    let keeps = vec![StagingAtomicVectorKeepSuccessorInput::new(NodeId::new(5), NodeId::new(9), 5 * PT)];
    // The group is 20 (figure) + 10 (caption kept with the successor) + 5 = 35.
    let fits = StagingAtomicVectorBlockPaginationInput::new(&layout, 65 * PT, 0, captions.clone(), keeps.clone()).unwrap();
    let placed = paginate_staging_atomic_vector_blocks(&layout, &fits, &vector_plans(), &limits()).unwrap();
    assert!(!placed.blocks[0].moved_to_fresh_page);
    assert_eq!(placed.blocks[0].top, 65 * PT);
    let moves = StagingAtomicVectorBlockPaginationInput::new(&layout, 66 * PT, 0, captions, keeps).unwrap();
    let placed = paginate_staging_atomic_vector_blocks(&layout, &moves, &vector_plans(), &limits()).unwrap();
    assert!(placed.blocks[0].moved_to_fresh_page);
    assert_eq!(placed.blocks[0].page_index, 1);
}
