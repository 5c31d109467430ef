use typaxis::body_errors::NodeId;
use typaxis::header_footer::{
    derive_staging_header_footer_body_pages, paginate_staging_header_footer, validate_body_pages,
    StagingHeaderFooterBodyPage, StagingHeaderFooterLayout, StagingHeaderFooterPaginationError,
    StagingHeaderFooterSelectedLayout,
    StagingPageMaster, StagingPageRegionKind, StagingPageRegionLayout, StagingRegionBlock,
};
use typaxis::page_geometry::{PaginationLimits, Rect, StagingAdvancedPageFrameKind};

fn limits() -> PaginationLimits {
    PaginationLimits {
        max_pages: 100,
        max_fragments: 1000,
        max_column_balance_candidates: 16,
        max_float_queue: 16,
        max_float_carry_pages: 4,
    }
}

fn master(id: &str, header: bool, footer: bool) -> StagingPageMaster {
    StagingPageMaster {
        master_id: id.to_string(),
        width: 100,
        height: 200,
        body: Rect { x: 10, y: 30, width: 80, height: 140 },
        header: if header { Some(Rect { x: 10, y: 10, width: 80, height: 15 }) } else { None },
        footer: if footer { Some(Rect { x: 10, y: 175, width: 80, height: 15 }) } else { None },
        trim: Rect { x: 5, y: 5, width: 90, height: 190 },
    }
}

fn region(master: usize, kind: StagingPageRegionKind, flow_id: u32) -> StagingPageRegionLayout {
    StagingPageRegionLayout {
        master,
        kind,
        flow_id,
        source_node_id: NodeId::new(100 + flow_id),
        terminal: 1,
        total_extent: 10,
        blocks: vec![StagingRegionBlock {
            node_id: NodeId::new(200 + flow_id),
            y_offset: 2,
            block_extent: 10,
            before_position: 0,
            after_position: 1,
        }],
    }
}

fn layout(body_terminal: u32) -> StagingHeaderFooterLayout {
    StagingHeaderFooterLayout {
        masters: vec![master("first", false, true), master("right", true, true)],
        regions: vec![
            region(0, StagingPageRegionKind::Footer, 1),
            region(1, StagingPageRegionKind::Header, 2),
            region(1, StagingPageRegionKind::Footer, 3),
        ],
        profile_receipt_sha256: [4; 32],
        flow_registry_sha256: [5; 32],
        body_terminal,
    }
}

#[test]
fn body_pages_split_at_authored_page_breaks() {
    let pages = derive_staging_header_footer_body_pages(&[false, true, false, false, true], 10).unwrap();
    assert_eq!(
        pages,
        vec![
            StagingHeaderFooterBodyPage { page_index: 0, before_position: 0, after_position: 2, terminal: false },
            StagingHeaderFooterBodyPage { page_index: 1, before_position: 2, after_position: 5, terminal: false },
            StagingHeaderFooterBodyPage { page_index: 2, before_position: 5, after_position: 5, terminal: true },
        ]
    );
    validate_body_pages(&pages, 5).unwrap();
    let empty = derive_staging_header_footer_body_pages(&[], 1).unwrap();
    assert_eq!(empty.len(), 1);
    assert!(empty[0].terminal());
    assert_eq!(
        derive_staging_header_footer_body_pages(&[true], 1).unwrap_err(),
        StagingHeaderFooterPaginationError::PageLimit
    );
    derive_staging_header_footer_body_pages(&[true], 2).unwrap();
}

#[test]
fn body_pages_must_tile_the_body_flow() {
    let good = derive_staging_header_footer_body_pages(&[false, true, false], 10).unwrap();
    validate_body_pages(&good, 3).unwrap();
    assert_eq!(validate_body_pages(&[], 3).unwrap_err(), StagingHeaderFooterPaginationError::EmptyBodyPages);
    assert_eq!(
        validate_body_pages(&good, 4).unwrap_err(),
        StagingHeaderFooterPaginationError::NonCanonicalBodyPage
    );
    let mut gap = good.clone();
    gap[1].before_position = 3;
    assert_eq!(
        validate_body_pages(&gap, 3).unwrap_err(),
        StagingHeaderFooterPaginationError::NonCanonicalBodyPage
    );
}

#[test]
fn page_masters_give_boxes_margins_frames_and_repetitions() {
    let body = derive_staging_header_footer_body_pages(&[true, true], 10).unwrap();
    assert_eq!(body.len(), 3);
    let layout = layout(2);
    let selected = paginate_staging_header_footer(&layout, &body, &[0, 1, 1], &limits()).unwrap();
    selected.verify_receipt().unwrap();
    let pages = selected.pages();
    assert_eq!(pages.len(), 3);
    assert_eq!(pages[0].master_id, "first");
    assert_eq!(pages[0].frames.len(), 2);
    assert_eq!(pages[0].frames[0].kind(), StagingAdvancedPageFrameKind::Body);
    assert_eq!(pages[0].frames[1].kind(), StagingAdvancedPageFrameKind::Footer);
    assert_eq!(pages[1].frames.len(), 3);
    assert_eq!(pages[1].frames[0].repetition_index(), Some(0));
    assert_eq!(pages[2].frames[0].repetition_index(), Some(1));
    assert_eq!(pages[2].frames[2].repetition_index(), Some(1));
    assert_eq!(pages[0].frames[1].repetition_index(), Some(0));
    assert_eq!(pages[0].boxes.media_box().values(), [0, 0, 100, 200]);
    assert_eq!(pages[0].boxes.crop_box().values(), [0, 0, 100, 200]);
    assert_eq!(pages[0].boxes.trim_box().values(), [5, 5, 95, 195]);
    assert_eq!(
        (pages[0].margins.top(), pages[0].margins.right(), pages[0].margins.bottom(), pages[0].margins.left()),
        (25, 5, 25, 5)
    );
    assert_eq!(pages[1].region_fragments.len(), 2);
    assert_eq!(pages[1].region_fragments[0].bounds, Rect { x: 10, y: 12, width: 80, height: 10 });
    assert_eq!(selected.receipt().profile_receipt_sha256(), [4; 32]);
    assert_eq!(selected.receipt().flow_registry_sha256(), [5; 32]);
    assert!(selected.receipt().canonical_jcs().starts_with(
        "{\"algorithm\":\"typaxis.advanced-pagination-selected-layout/1\""
    ));
}

#[test]
fn page_master_limits_and_mismatches_are_refused() {
    let body = derive_staging_header_footer_body_pages(&[true], 10).unwrap();
    let layout = layout(1);
    let two_pages = PaginationLimits { max_pages: 1, ..limits() };
    assert_eq!(
        paginate_staging_header_footer(&layout, &body, &[0, 1], &two_pages).unwrap_err(),
        StagingHeaderFooterPaginationError::PageLimit
    );
    // page 0 (master 0): 1 body + 1 footer frame, 1 repetition, 1 fragment = 4;
    // page 1 (master 1): 3 frames, 2 repetitions, 2 fragments = 7.
    let exact = PaginationLimits { max_fragments: 11, ..limits() };
    paginate_staging_header_footer(&layout, &body, &[0, 1], &exact).unwrap();
    let over = PaginationLimits { max_fragments: 10, ..limits() };
    assert_eq!(
        paginate_staging_header_footer(&layout, &body, &[0, 1], &over).unwrap_err(),
        StagingHeaderFooterPaginationError::FragmentLimit
    );
    assert_eq!(
        paginate_staging_header_footer(&layout, &body, &[0, 7], &limits()).unwrap_err(),
        StagingHeaderFooterPaginationError::MasterSelection
    );
    let mut missing = layout.clone();
    missing.regions.remove(0);
    assert_eq!(
        paginate_staging_header_footer(&missing, &body, &[0, 1], &limits()).unwrap_err(),
        StagingHeaderFooterPaginationError::MasterReceiptMismatch
    );
    let mut tall = layout.clone();
    tall.regions[1].total_extent = 16;
    assert_eq!(
        paginate_staging_header_footer(&tall, &body, &[0, 1], &limits()).unwrap_err(),
        StagingHeaderFooterPaginationError::RegionOversize {
            master_id: "right".to_string(),
            kind: StagingPageRegionKind::Header
        }
    );
    let mut bad_trim = layout.clone();
    bad_trim.masters[0].trim = Rect { x: 20, y: 5, width: 70, height: 190 };
    assert_eq!(
        paginate_staging_header_footer(&bad_trim, &body, &[0, 1], &limits()).unwrap_err(),
        StagingHeaderFooterPaginationError::Geometry
    );
    assert_eq!(StagingPageRegionKind::Header.as_str(), "header");
    assert_eq!(StagingAdvancedPageFrameKind::Footer.as_str(), "footer");
}

fn framed_master(id: &str) -> StagingPageMaster {
    StagingPageMaster {
        master_id: id.to_string(),
        width: 40_000_000,
        height: 50_000_000,
        body: Rect { x: 4_000_000, y: 8_000_000, width: 32_000_000, height: 34_000_000 },
        header: Some(Rect { x: 4_000_000, y: 2_000_000, width: 32_000_000, height: 4_000_000 }),
        footer: Some(Rect { x: 4_000_000, y: 44_000_000, width: 32_000_000, height: 4_000_000 }),
        trim: Rect { x: 1_000_000, y: 1_000_000, width: 38_000_000, height: 48_000_000 },
    }
}

/// Masters "first", "left" and "right", each with a header and a footer
/// flow of one block; the body flow ends at position 7.
fn framed_layout() -> StagingHeaderFooterLayout {
    let mut regions = Vec::new();
    for master in 0..3usize {
        regions.push(region(master, StagingPageRegionKind::Header, 10 + 2 * master as u32));
        regions.push(region(master, StagingPageRegionKind::Footer, 11 + 2 * master as u32));
    }
    StagingHeaderFooterLayout {
        masters: vec![framed_master("first"), framed_master("left"), framed_master("right")],
        regions,
        profile_receipt_sha256: [4; 32],
        flow_registry_sha256: [5; 32],
        body_terminal: 7,
    }
}

fn body_page(page_index: u32, before_position: u32, after_position: u32, terminal: bool) -> StagingHeaderFooterBodyPage {
    StagingHeaderFooterBodyPage { page_index, before_position, after_position, terminal }
}

#[test]
fn page_master_selection_boxes_repetitions_and_subflow_progress_are_canonical() {
    let layout = framed_layout();
    let body_pages = vec![
        body_page(0, 0, 1, false),
        body_page(1, 1, 2, false),
        body_page(2, 2, 3, false),
        body_page(3, 3, 4, false),
        body_page(4, 4, 7, true),
    ];
    let selected = paginate_staging_header_footer(&layout, &body_pages, &[0, 1, 2, 1, 2], &limits()).unwrap();
    assert_eq!(
        selected.pages().iter().map(|page| page.master_id.as_str()).collect::<Vec<_>>(),
        ["first", "left", "right", "left", "right"]
    );
    for (page_index, page) in selected.pages().iter().enumerate() {
        assert_eq!(page.page_index, page_index as u32);
        assert_eq!(page.boxes.media_box().values(), [0, 0, 40_000_000, 50_000_000]);
        assert_eq!(page.boxes.trim_box().values(), [1_000_000, 1_000_000, 39_000_000, 49_000_000]);
        assert_eq!(
            page.frames.iter().map(|frame| frame.kind()).collect::<Vec<_>>(),
            [StagingAdvancedPageFrameKind::Header, StagingAdvancedPageFrameKind::Body, StagingAdvancedPageFrameKind::Footer]
        );
        let body = &page.frames[1];
        assert_eq!(body.before_position.ordinal, body_pages[page_index].before_position());
        assert_eq!(body.after_position.ordinal, body_pages[page_index].after_position());
        for region in [&page.frames[0], &page.frames[2]] {
            assert_eq!(region.before_position.ordinal, 0);
            assert!(region.terminal());
            assert_ne!(region.source_flow_id, 0);
        }
    }
    assert_eq!(selected.pages()[1].frames[0].repetition_index(), Some(0));
    assert_eq!(selected.pages()[3].frames[0].repetition_index(), Some(1));
    assert_eq!(selected.pages()[2].frames[2].repetition_index(), Some(0));
    assert_eq!(selected.pages()[4].frames[2].repetition_index(), Some(1));
}

#[test]
fn page_master_selected_record_limit_is_inclusive_and_body_tamper_is_rejected() {
    let layout = framed_layout();
    let pages = vec![body_page(0, 0, 4, false), body_page(1, 4, 6, false), body_page(2, 6, 7, true)];
    // each page: 3 frames, 2 repetitions and 2 region fragments
    let exact = PaginationLimits { max_fragments: 21, ..limits() };
    assert!(paginate_staging_header_footer(&layout, &pages, &[0, 1, 2], &exact).is_ok());
    let over = PaginationLimits { max_fragments: 20, ..limits() };
    assert_eq!(
        paginate_staging_header_footer(&layout, &pages, &[0, 1, 2], &over).unwrap_err(),
        StagingHeaderFooterPaginationError::FragmentLimit
    );

    let mut zero_progress = pages.clone();
    zero_progress[1].after_position = zero_progress[1].before_position;
    zero_progress[2].before_position = zero_progress[1].after_position;
    assert_eq!(
        paginate_staging_header_footer(&layout, &zero_progress, &[0, 1, 2], &limits()).unwrap_err(),
        StagingHeaderFooterPaginationError::NonCanonicalBodyPage
    );

    let mut tampered = pages;
    tampered[1].before_position = 0;
    assert_eq!(
        paginate_staging_header_footer(&layout, &tampered, &[0, 1, 2], &limits()).unwrap_err(),
        StagingHeaderFooterPaginationError::NonCanonicalBodyPage
    );
}

#[test]
fn page_master_receipt_and_page_limit_reject_before_extra_state() {
    let layout = framed_layout();
    assert_eq!(
        derive_staging_header_footer_body_pages(&[false, false, false, false, false, false, true], 1).unwrap_err(),
        StagingHeaderFooterPaginationError::PageLimit
    );
    let pages = derive_staging_header_footer_body_pages(&[false; 7], 1).unwrap();
    assert_eq!(pages.len(), 1);
    let selected = paginate_staging_header_footer(&layout, &pages, &[0], &limits()).unwrap();
    selected.verify_receipt().unwrap();
    let (mut pages, receipt) = selected.into_parts();
    pages[0].master_id = "tampered".to_string();
    let tampered = StagingHeaderFooterSelectedLayout::from_parts(pages, receipt);
    assert_eq!(tampered.verify_receipt().unwrap_err(), StagingHeaderFooterPaginationError::SelectedReceiptMismatch);
}

#[test]
fn a_trim_outside_the_page_is_a_geometry_refusal() {
    let mut layout = framed_layout();
    layout.masters[1].trim = Rect { x: 1_000_000, y: 1_000_000, width: 40_000_000, height: 48_000_000 };
    let body_pages = vec![body_page(0, 0, 3, false), body_page(1, 3, 7, true)];
    let first = paginate_staging_header_footer(&layout, &body_pages, &[0, 0], &limits());
    assert!(first.is_ok());
    let second = paginate_staging_header_footer(&layout, &body_pages, &[0, 1], &limits());
    assert!(matches!(second, Err(StagingHeaderFooterPaginationError::Geometry)));
}

#[test]
fn an_unselected_page_is_a_master_selection_refusal() {
    let layout = framed_layout();
    let body_pages = vec![body_page(0, 0, 3, false), body_page(1, 3, 7, true)];
    let short = paginate_staging_header_footer(&layout, &body_pages, &[0], &limits());
    assert!(matches!(short, Err(StagingHeaderFooterPaginationError::MasterSelection)));
    let unknown = paginate_staging_header_footer(&layout, &body_pages, &[0, 3], &limits());
    assert!(matches!(unknown, Err(StagingHeaderFooterPaginationError::MasterSelection)));
}

#[test]
fn empty_and_non_canonical_body_pages_are_refused_by_name() {
    let layout = framed_layout();
    let empty = paginate_staging_header_footer(&layout, &[], &[], &limits());
    assert!(matches!(empty, Err(StagingHeaderFooterPaginationError::EmptyBodyPages)));
    let gap = vec![body_page(0, 0, 3, false), body_page(1, 4, 7, true)];
    let refused = paginate_staging_header_footer(&layout, &gap, &[0, 0], &limits());
    assert!(matches!(refused, Err(StagingHeaderFooterPaginationError::NonCanonicalBodyPage)));
}
