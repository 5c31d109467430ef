use typaxis::body_errors::NodeId;
use typaxis::columns::StagingColumnLayout;
use typaxis::float_layout::{
    FloatClearance, FloatPlacementClass, StagingFloatPaginationError, StagingFloatSelectedPage, FLOAT_QUEUE_ALGORITHM,
};
use typaxis::float_pagination::StagingFloatSelectedLayout;
use typaxis::float_queue::{
    paginate_staging_float, StagingFloatBodyItem, StagingFloatBodyItemKind, StagingFloatLayout,
};
use typaxis::page_geometry::{PaginationLimits, Rect, StagingAdvancedFlowPosition};

fn block(index: u32, extent: i64) -> StagingFloatBodyItem {
    StagingFloatBodyItem {
        kind: StagingFloatBodyItemKind::Block,
        node_id: NodeId::new(10 + index),
        before_position: index,
        after_position: index + 1,
        block_extent: extent,
        forced_page_break: false,
        keep_with_next: false,
        float_flow_id: None,
        caption_flow_id: None,
        image_width: None,
        float_extent: None,
    }
}

fn page_break(index: u32) -> StagingFloatBodyItem {
    StagingFloatBodyItem { forced_page_break: true, ..block(index, 0) }
}

fn anchor(index: u32, float_flow_id: u32, extent: i64, node: u32) -> StagingFloatBodyItem {
    StagingFloatBodyItem {
        kind: StagingFloatBodyItemKind::FloatAnchor,
        node_id: NodeId::new(node),
        before_position: index,
        after_position: index + 1,
        block_extent: 0,
        forced_page_break: false,
        keep_with_next: false,
        float_flow_id: Some(float_flow_id),
        caption_flow_id: Some(float_flow_id + 1000),
        image_width: Some(8),
        float_extent: Some(extent),
    }
}

/// Two columns 10 wide and 10 high, side by side on a 40 by 30 page.
fn layout_with(body_items: Vec<StagingFloatBodyItem>) -> StagingFloatLayout {
    StagingFloatLayout {
        columns: vec![
            StagingColumnLayout { column_index: 0, rect: Rect { x: 5, y: 10, width: 10, height: 10 }, frame_flow_id: 7 },
            StagingColumnLayout { column_index: 1, rect: Rect { x: 17, y: 10, width: 10, height: 10 }, frame_flow_id: 8 },
        ],
        body_items,
        master_id: "body".to_string(),
        page_width: 40,
        page_height: 30,
        body: Rect { x: 5, y: 10, width: 22, height: 10 },
        trim: Rect { x: 0, y: 0, width: 40, height: 30 },
        profile_receipt_sha256: [1; 32],
        flow_registry_sha256: [2; 32],
    }
}

/// A block of 4 and a float of 3 that fits here, a block of 3, then four
/// floats of 6 that queue up: one goes to the top of the second column,
/// the rest are carried, and the last is carried twice.
fn float_fixture() -> StagingFloatLayout {
    layout_with(vec![
        block(0, 4),
        anchor(1, 101, 3, 11),
        block(2, 3),
        anchor(3, 102, 6, 13),
        anchor(4, 103, 6, 14),
        anchor(5, 104, 6, 15),
        anchor(6, 105, 6, 17),
        block(7, 5),
        block(8, 5),
    ])
}

fn default_limits() -> PaginationLimits {
    PaginationLimits {
        max_pages: 100,
        max_fragments: 1000,
        max_column_balance_candidates: 16,
        max_float_queue: 16,
        max_float_carry_pages: 4,
    }
}

fn fixture_selected() -> StagingFloatSelectedLayout {
    paginate_staging_float(&float_fixture(), &default_limits()).unwrap()
}

#[test]
fn floats_queue_identity_and_candidate_order_are_typed() {
    assert_eq!(FLOAT_QUEUE_ALGORITHM, "typaxis.float-queue/1");
    assert_eq!(
        [
            FloatPlacementClass::Here,
            FloatPlacementClass::Top,
            FloatPlacementClass::Bottom,
            FloatPlacementClass::NextPage
        ]
        .map(FloatPlacementClass::as_str),
        ["here", "top", "bottom", "next_page"]
    );
}

#[test]
fn floats_fifo_place_here_then_top_and_carry_across_columns_and_pages() {
    let selected = fixture_selected();
    assert_eq!(selected.pages().len(), 3);
    assert_eq!(
        selected
            .pages()
            .iter()
            .flat_map(|page| page.placements.iter())
            .map(|placement| placement.class)
            .collect::<Vec<_>>(),
        [
            FloatPlacementClass::Here,
            FloatPlacementClass::Top,
            FloatPlacementClass::Top,
            FloatPlacementClass::Top,
            FloatPlacementClass::Top,
        ]
    );
    assert_eq!(
        selected.pages().iter().map(|page| page.queue_after.len()).collect::<Vec<_>>(),
        [3, 1, 0]
    );
    assert_eq!(
        selected
            .pages()
            .iter()
            .flat_map(|page| page.carries.iter())
            .map(|carry| carry.carry_count)
            .collect::<Vec<_>>(),
        [1, 1, 1, 2]
    );
    for page in selected.pages() {
        let mut evaluated = Vec::new();
        for candidate in &page.candidates {
            let key = (candidate.float_flow_id, candidate.page_index, candidate.column_index, candidate.class);
            assert!(!evaluated.contains(&key));
            evaluated.push(key);
        }
    }
    selected.verify_receipt().unwrap();
}

#[test]
fn floats_are_placed_once_each_in_anchor_order() {
    let selected = fixture_selected();
    assert_eq!(
        selected
            .pages()
            .iter()
            .flat_map(|page| page.placements.iter())
            .map(|placement| placement.float_flow_id)
            .collect::<Vec<_>>(),
        [101, 102, 103, 104, 105]
    );
}

#[test]
fn floats_fixture_paint_order_and_geometry() {
    let selected = fixture_selected();
    let first = &selected.pages()[0];
    // The float placed here sits between the two blocks of column 0.
    assert_eq!(first.body_fragments[0].frame_paint_ordinal, 0);
    assert_eq!(first.placements[0].frame_paint_ordinal, 1);
    assert_eq!(first.body_fragments[1].frame_paint_ordinal, 2);
    assert_eq!(first.placements[0].bounds, Rect { x: 5, y: 14, width: 10, height: 3 });
    assert_eq!(first.placements[1].bounds, Rect { x: 17, y: 10, width: 10, height: 6 });
    assert_eq!(first.frames[0].after_position.ordinal, 7);
    assert_eq!(first.frames[1].before_position.ordinal, 7);
    let last = &selected.pages()[2];
    assert!(last.frames[1].terminal);
    assert_eq!(last.body_fragments.len(), 2);
    let carry = &selected.pages()[1].carries[0];
    assert_eq!((carry.float_flow_id, carry.source_page_index, carry.target_page_index), (105, 1, 2));
    assert_eq!(selected.receipt().profile_receipt_sha256(), [1; 32]);
    assert_eq!(selected.receipt().flow_registry_sha256(), [2; 32]);
    assert!(selected.receipt().canonical_jcs().starts_with(
        "{\"algorithm\":\"typaxis.advanced-pagination-selected-layout/1\",\"float_queue_algorithm\":\"typaxis.float-queue/1\""
    ));
}

#[test]
fn floats_forced_page_boundary_does_not_open_later_columns() {
    let layout = layout_with(vec![block(0, 8), anchor(1, 201, 6, 11), page_break(2)]);
    let selected = paginate_staging_float(&layout, &default_limits()).unwrap();
    let first = &selected.pages()[0];
    assert!(first.placements.iter().all(|placement| placement.column_index == 0));
    assert_eq!(first.carries.len(), 1);
    assert_eq!(first.queue_after.len(), 1);
    assert_eq!(
        first
            .candidates
            .iter()
            .find(|candidate| candidate.class == FloatPlacementClass::NextPage)
            .map(|candidate| candidate.column_index),
        Some(0)
    );
    assert_eq!(first.frames[1].before_position, first.frames[1].after_position);
    assert_eq!(selected.pages()[1].placements[0].class, FloatPlacementClass::Top);
}

#[test]
fn floats_trailing_forced_break_materializes_the_post_break_blank_page() {
    let layout = layout_with(vec![page_break(0)]);
    let selected = paginate_staging_float(&layout, &default_limits()).unwrap();
    assert_eq!(selected.pages().len(), 2);
    assert!(selected.pages().iter().all(|page: &StagingFloatSelectedPage| {
        page.body_fragments.is_empty() && page.placements.is_empty() && page.carries.is_empty()
    }));
    assert_eq!(selected.pages()[1].frames[0].before_position.ordinal, 1);
    assert!(selected.pages()[1].frames.iter().all(|frame| frame.terminal));
}

#[test]
fn floats_queue_and_carry_maxima_are_inclusive_and_refuse_max_plus_one() {
    let layout = float_fixture();
    let exact = PaginationLimits {
        max_pages: 3,
        max_fragments: 19,
        max_column_balance_candidates: 16,
        max_float_queue: 4,
        max_float_carry_pages: 2,
    };
    paginate_staging_float(&layout, &exact).unwrap();

    let pages_over = PaginationLimits { max_pages: 2, ..default_limits() };
    assert!(matches!(
        paginate_staging_float(&layout, &pages_over),
        Err(StagingFloatPaginationError::PageLimit)
    ));
    let fragments_over = PaginationLimits { max_fragments: 18, ..default_limits() };
    assert!(matches!(
        paginate_staging_float(&layout, &fragments_over),
        Err(StagingFloatPaginationError::FragmentLimit)
    ));
    let queue_over = PaginationLimits { max_float_queue: 3, ..default_limits() };
    assert!(matches!(
        paginate_staging_float(&layout, &queue_over),
        Err(StagingFloatPaginationError::QueueLimit(node)) if node == NodeId::new(17)
    ));
    let carry_over = PaginationLimits { max_float_carry_pages: 1, ..default_limits() };
    assert!(matches!(
        paginate_staging_float(&layout, &carry_over),
        Err(StagingFloatPaginationError::CarryLimit(node)) if node == NodeId::new(17)
    ));
}

#[test]
fn floats_reject_queue_reorder_carry_replay_wrong_anchor_and_oversize() {
    let (mut pages, receipt) = fixture_selected().into_parts();
    pages[0].queue_after.swap(0, 1);
    let reordered = StagingFloatSelectedLayout::from_parts(pages, receipt);
    assert!(matches!(reordered.verify_receipt(), Err(StagingFloatPaginationError::SelectedReceiptMismatch)));

    let (mut pages, receipt) = fixture_selected().into_parts();
    pages[1].carries[0].carry_count = 1;
    let replay = StagingFloatSelectedLayout::from_parts(pages, receipt);
    assert!(matches!(replay.verify_receipt(), Err(StagingFloatPaginationError::SelectedReceiptMismatch)));

    let (mut pages, receipt) = fixture_selected().into_parts();
    pages[0].queue_after[0].anchor_position = StagingAdvancedFlowPosition { flow_id: 0, ordinal: 5 };
    let wrong_anchor = StagingFloatSelectedLayout::from_parts(pages, receipt);
    assert!(matches!(wrong_anchor.verify_receipt(), Err(StagingFloatPaginationError::SelectedReceiptMismatch)));

    let mut wide = anchor(2, 301, 4, 3);
    wide.image_width = Some(11);
    let oversize = layout_with(vec![block(0, 1), block(1, 1), wide]);
    assert!(matches!(
        paginate_staging_float(&oversize, &default_limits()),
        Err(StagingFloatPaginationError::Oversize(node)) if node == NodeId::new(3)
    ));
}

#[test]
fn floats_receipt_rejects_a_float_placed_twice_and_a_tampered_canonical_text() {
    let (mut pages, receipt) = fixture_selected().into_parts();
    let again = pages[0].placements[0];
    pages[2].placements.push(again);
    let twice = StagingFloatSelectedLayout::from_parts(pages, receipt);
    assert!(matches!(twice.verify_receipt(), Err(StagingFloatPaginationError::SelectedReceiptMismatch)));

    let (mut pages, receipt) = fixture_selected().into_parts();
    pages[2].master_id = "other".to_string();
    let renamed = StagingFloatSelectedLayout::from_parts(pages, receipt);
    assert!(matches!(renamed.verify_receipt(), Err(StagingFloatPaginationError::SelectedReceiptMismatch)));
}

#[test]
fn floats_empty_columns_and_bad_geometry_are_refused() {
    let mut layout = float_fixture();
    layout.columns.clear();
    assert!(matches!(
        paginate_staging_float(&layout, &default_limits()),
        Err(StagingFloatPaginationError::EmptyColumns)
    ));
    let mut layout = float_fixture();
    layout.trim = Rect { x: 1, y: 0, width: 40, height: 30 };
    assert!(matches!(
        paginate_staging_float(&layout, &default_limits()),
        Err(StagingFloatPaginationError::Geometry)
    ));
    let mut layout = float_fixture();
    layout.body = Rect { x: 5, y: 10, width: 40, height: 10 };
    assert!(matches!(
        paginate_staging_float(&layout, &default_limits()),
        Err(StagingFloatPaginationError::Geometry)
    ));
}

#[test]
fn floats_candidates_record_each_position_tried_for_the_head() {
    let selected = fixture_selected();
    let first = &selected.pages()[0];
    let tried = first
        .candidates
        .iter()
        .map(|c| (c.float_flow_id, c.class, c.column_index, c.applicable, c.accepted))
        .collect::<Vec<_>>();
    assert_eq!(
        tried,
        [
            (101, FloatPlacementClass::Here, 0, true, true),
            (102, FloatPlacementClass::Here, 0, true, false),
            (102, FloatPlacementClass::Top, 0, false, false),
            (102, FloatPlacementClass::Bottom, 0, true, false),
            (102, FloatPlacementClass::Top, 1, true, true),
            (103, FloatPlacementClass::Here, 1, false, false),
            (103, FloatPlacementClass::Top, 1, true, false),
            (103, FloatPlacementClass::Bottom, 1, true, false),
            (103, FloatPlacementClass::NextPage, 1, true, true),
        ]
    );
    assert!(first.candidates.iter().all(|c| c.page_index == 0));
}

#[test]
fn floats_receipt_rejects_a_placement_that_asks_clearance() {
    let (pages, _) = fixture_selected().into_parts();
    assert!(pages.iter().all(|page| page.placements.iter().all(|p| p.clearance == FloatClearance::Zero)));
    let (mut pages, receipt) = fixture_selected().into_parts();
    pages[0].placements[0].clearance = FloatClearance::Other;
    let cleared = StagingFloatSelectedLayout::from_parts(pages, receipt);
    assert!(matches!(cleared.verify_receipt(), Err(StagingFloatPaginationError::SelectedReceiptMismatch)));
}
