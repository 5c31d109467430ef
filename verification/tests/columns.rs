use typaxis::body_errors::NodeId;
use typaxis::columns::{
    paginate_staging_columns, record_rejection_state, StagingColumnRejectionReceipt, StagingColumnBlockLayout, StagingColumnLayout, StagingColumnsLayout,
    StagingColumnsPaginationError, StagingColumnsSelectedLayout,
};
use typaxis::page_geometry::{PaginationLimits, Rect, StagingAdvancedFlowPosition, DOCUMENT_BODY_FLOW};

fn block(index: u32, extent: i64) -> StagingColumnBlockLayout {
    StagingColumnBlockLayout {
        node_id: NodeId::new(index + 1),
        before_position: index,
        after_position: index + 1,
        block_extent: extent,
        forced_page_break: false,
        keep_with_next: false,
    }
}

/// Two columns of widths 5 and 6 on a body 10 high; four blocks of 5 fill
/// the first page, a block of 4 lands on the balanced last page.
fn fixture_with(extents: &[i64]) -> StagingColumnsLayout {
    let blocks = extents
        .iter()
        .enumerate()
        .map(|(i, e)| block(i as u32, *e))
        .collect();
    StagingColumnsLayout {
        columns: vec![
            StagingColumnLayout {
                column_index: 0,
                rect: Rect { x: 10, y: 20, width: 5, height: 10 },
                frame_flow_id: 7,
            },
            StagingColumnLayout {
                column_index: 1,
                rect: Rect { x: 16, y: 20, width: 6, height: 10 },
                frame_flow_id: 8,
            },
        ],
        blocks,
        master_id: "body".to_string(),
        page_width: 40,
        page_height: 50,
        body: Rect { x: 10, y: 20, width: 12, height: 10 },
        trim: Rect { x: 0, y: 0, width: 40, height: 50 },
        balance_last_page: true,
        profile_receipt_sha256: [1; 32],
        flow_registry_sha256: [2; 32],
        package_sha256: [3; 32],
    }
}

fn fixture() -> StagingColumnsLayout {
    fixture_with(&[5, 5, 5, 5, 4])
}

fn limits() -> PaginationLimits {
    PaginationLimits {
        max_pages: 100,
        max_fragments: 1000,
        max_column_balance_candidates: 16,
        max_float_queue: 16,
        max_float_carry_pages: 4,
    }
}

#[test]
fn columns_partition_sequential_fill_and_final_balance_are_canonical() {
    let layout = fixture();
    let selected = paginate_staging_columns(&layout, &limits()).unwrap();
    let repeated = paginate_staging_columns(&layout, &limits()).unwrap();
    assert_eq!(selected.pages().len(), 2);
    assert_eq!(
        selected.pages()[0].frames.iter().map(|frame| frame.rect.width).collect::<Vec<_>>(),
        [5, 6]
    );
    assert_eq!(
        selected.pages()[0]
            .frames
            .iter()
            .map(|frame| (frame.before_position.ordinal, frame.after_position.ordinal))
            .collect::<Vec<_>>(),
        [(0, 2), (2, 4)]
    );
    let balance = selected.pages()[1].balance.as_ref().expect("the final nonempty page is balanced");
    assert_eq!(balance.candidate_count(), 2);
    assert_eq!(balance.selected_target_height(), 4);
    assert_eq!(selected.pages()[1].frames[0].rect.height, 4);
    assert_eq!(selected.pages()[1].frames[1].rect.height, 4);
    selected.verify_receipt().unwrap();
    assert_eq!(selected.receipt().canonical_jcs(), repeated.receipt().canonical_jcs());
    assert!(selected.pages()[0].balance.is_none());
}

#[test]
fn columns_balance_page_and_selected_record_limits_are_inclusive() {
    let layout = fixture();
    // page 0: 2 frames + 4 fragments; page 1: 2 frames + 1 fragment
    let exact = PaginationLimits { max_pages: 2, max_fragments: 9, max_column_balance_candidates: 2, ..limits() };
    paginate_staging_columns(&layout, &exact).unwrap();
    let candidate_over = PaginationLimits { max_column_balance_candidates: 1, ..limits() };
    assert_eq!(
        paginate_staging_columns(&layout, &candidate_over).unwrap_err(),
        StagingColumnsPaginationError::BalanceLimit
    );
    let page_over = PaginationLimits { max_pages: 1, ..limits() };
    assert_eq!(
        paginate_staging_columns(&layout, &page_over).unwrap_err(),
        StagingColumnsPaginationError::PageLimit
    );
    let fragment_over = PaginationLimits { max_fragments: 8, ..limits() };
    assert_eq!(
        paginate_staging_columns(&layout, &fragment_over).unwrap_err(),
        StagingColumnsPaginationError::FragmentLimit
    );
}

#[test]
fn columns_empty_and_oversize_inputs_have_typed_terminal_results() {
    let empty = fixture_with(&[]);
    let selected = paginate_staging_columns(&empty, &limits()).unwrap();
    assert_eq!(selected.pages().len(), 1);
    assert!(selected.pages()[0].fragments.is_empty());
    assert!(selected.pages()[0].balance.is_none());
    assert!(selected.pages()[0].frames.iter().all(|frame| frame.terminal()));

    let oversize = fixture_with(&[11]);
    assert_eq!(
        paginate_staging_columns(&oversize, &limits()).unwrap_err(),
        StagingColumnsPaginationError::Oversize(NodeId::new(1))
    );
}

#[test]
fn columns_without_templates_are_refused() {
    let mut layout = fixture();
    layout.columns.clear();
    assert_eq!(
        paginate_staging_columns(&layout, &limits()).unwrap_err(),
        StagingColumnsPaginationError::EmptyColumns
    );
}

#[test]
fn columns_trim_must_be_the_page() {
    let mut layout = fixture();
    layout.trim = Rect { x: 1, y: 0, width: 39, height: 50 };
    assert_eq!(
        paginate_staging_columns(&layout, &limits()).unwrap_err(),
        StagingColumnsPaginationError::Geometry
    );
}

#[test]
fn columns_keep_with_next_groups_move_together() {
    let mut layout = fixture_with(&[4, 4, 4]);
    layout.balance_last_page = false;
    // blocks 1 and 2 are kept together: 8 does not fit after 4 in column 0
    layout.blocks[1].keep_with_next = true;
    let selected = paginate_staging_columns(&layout, &limits()).unwrap();
    assert_eq!(selected.pages().len(), 1);
    let page = &selected.pages()[0];
    assert_eq!(
        page.frames.iter().map(|f| (f.before_position.ordinal, f.after_position.ordinal)).collect::<Vec<_>>(),
        [(0, 1), (1, 3)]
    );
    assert_eq!(page.fragments.len(), 3);
    assert_eq!(page.fragments[1].bounds, Rect { x: 16, y: 20, width: 6, height: 4 });
    assert_eq!(page.fragments[2].bounds, Rect { x: 16, y: 24, width: 6, height: 4 });
    assert_eq!(page.margins.top(), 20);
    assert_eq!(page.margins.right(), 18);
    assert_eq!(page.margins.bottom(), 20);
    assert_eq!(page.margins.left(), 10);
    assert_eq!(page.boxes.media_box().values(), [0, 0, 40, 50]);
}

#[test]
fn forced_page_breaks_end_the_page() {
    let mut layout = fixture_with(&[2, 0, 2]);
    layout.balance_last_page = false;
    layout.blocks[1].forced_page_break = true;
    let selected = paginate_staging_columns(&layout, &limits()).unwrap();
    assert_eq!(selected.pages().len(), 2);
    assert_eq!(selected.pages()[0].frames[0].after_position.ordinal, 2);
    assert_eq!(selected.pages()[0].frames[1].before_position.ordinal, 2);
    assert_eq!(selected.pages()[0].frames[1].after_position.ordinal, 2);
    assert_eq!(selected.pages()[1].frames[0].before_position.ordinal, 2);
    assert!(selected.pages()[1].frames[1].terminal);
}

#[test]
fn columns_balance_whose_final_target_still_rejects_a_group_is_a_contradiction() {
    // The last page holds 1, 3 and 2: at target 3 both columns reject, at
    // target 4 the page ends but column 0 still rejected the block of 2, so
    // the balance receipt cannot close.
    let layout = fixture_with(&[5, 5, 5, 5, 1, 3, 2]);
    assert_eq!(
        paginate_staging_columns(&layout, &limits()).unwrap_err(),
        StagingColumnsPaginationError::ProgressContradiction
    );
    let mut unbalanced = layout.clone();
    unbalanced.balance_last_page = false;
    let selected = paginate_staging_columns(&unbalanced, &limits()).unwrap();
    assert_eq!(selected.pages().len(), 2);
    assert!(selected.pages()[1].balance.is_none());
}

#[test]
fn columns_wrong_balance_target_is_rejected_by_selected_closure() {
    let selected = paginate_staging_columns(&fixture(), &limits()).unwrap();
    let other = paginate_staging_columns(&fixture_with(&[5, 5, 5, 5, 5]), &limits()).unwrap();
    let (other_pages, _) = other.into_parts();
    let wrong = other_pages[1].balance.clone().expect("the other layout balances its last page");
    assert_eq!(wrong.selected_target_height(), 5);
    let (mut pages, receipt) = selected.into_parts();
    pages[1].balance = Some(wrong);
    let tampered = StagingColumnsSelectedLayout::from_parts(pages, receipt);
    assert_eq!(tampered.verify_receipt().unwrap_err(), StagingColumnsPaginationError::SelectedReceiptMismatch);
}

fn unbalanced(extents: &[i64]) -> StagingColumnsLayout {
    let mut layout = fixture_with(extents);
    layout.balance_last_page = false;
    layout
}

#[test]
fn each_column_takes_whole_groups_while_they_fit() {
    let selected = paginate_staging_columns(&unbalanced(&[4, 4, 3, 5, 2]), &limits()).unwrap();
    let pages = selected.pages();
    assert_eq!(pages.len(), 1);
    let frames = &pages[0].frames;
    assert_eq!(frames[0].before_position.ordinal, 0);
    assert_eq!(frames[0].after_position.ordinal, 2);
    assert_eq!(frames[1].before_position.ordinal, 2);
    assert_eq!(frames[1].after_position.ordinal, 5);
    let second = paginate_staging_columns(&unbalanced(&[4, 4, 3, 5, 2, 9]), &limits()).unwrap();
    assert_eq!(second.pages().len(), 2);
    assert_eq!(second.pages()[1].frames[0].before_position.ordinal, 5);
}

#[test]
fn unbalanced_columns_stop_at_the_page_and_fragment_limits() {
    let layout = unbalanced(&[5, 5, 5, 5, 4]);
    let mut tight = limits();
    tight.max_pages = 1;
    assert!(matches!(paginate_staging_columns(&layout, &tight), Err(StagingColumnsPaginationError::PageLimit)));
    tight.max_pages = 2;
    assert!(paginate_staging_columns(&layout, &tight).is_ok());
    let mut few = limits();
    few.max_fragments = 2 + 4 + 2;
    assert!(matches!(paginate_staging_columns(&layout, &few), Err(StagingColumnsPaginationError::FragmentLimit)));
    few.max_fragments = 2 + 4 + 2 + 1;
    assert!(paginate_staging_columns(&layout, &few).is_ok());
}

#[test]
fn columns_repeated_rejection_state_stops_as_oscillation() {
    let rejection = StagingColumnRejectionReceipt {
        column_index: 0,
        position: StagingAdvancedFlowPosition::new(DOCUMENT_BODY_FLOW, 2),
        blocked_node_id: NodeId::new(3),
        deficit: 1,
    };
    let mut history = Vec::new();
    record_rejection_state(&mut history, std::slice::from_ref(&rejection)).unwrap();
    assert!(matches!(
        record_rejection_state(&mut history, &[rejection]),
        Err(StagingColumnsPaginationError::BalanceOscillation)
    ));
}
