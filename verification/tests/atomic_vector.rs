use typaxis::atomic_vector::{
    StagingAtomicVectorBlockLayoutError, StagingAtomicVectorBlockPaginationInput,
    StagingAtomicVectorKeepSuccessorInput, StagingAtomicVectorStructureRole, StagingFigureCaptionBlockInput,
    StagingPrecomposedVectorBlockLayout, StagingPreparedVectorBlock, StagingVectorBlockSibling,
    PRECOMPOSED_VECTOR_SELECTED_LAYOUT_ALGORITHM,
};
use typaxis::body_errors::NodeId;

fn node(value: u32) -> NodeId {
    NodeId::new(value)
}

fn block(owner: u32, position: u32, captions: &[u32]) -> StagingPreparedVectorBlock {
    StagingPreparedVectorBlock {
        owner: node(owner),
        parent_flow_id: 0,
        parent_position: position,
        keep_with_next: false,
        caption_owners: captions.iter().map(|c| node(*c)).collect(),
        following_sibling: None,
    }
}

/// Three vector blocks: a Figure (node 4) with caption 5, a formula
/// (node 8) kept with an external paragraph (node 9), and a Figure (node 2)
/// with caption 3.
fn layout() -> StagingPrecomposedVectorBlockLayout {
    let mut kept = block(8, 1, &[]);
    kept.keep_with_next = true;
    kept.following_sibling = Some(StagingVectorBlockSibling { page_break: false, owner: node(9), parent_position: 2 });
    StagingPrecomposedVectorBlockLayout {
        integrity_matches: true,
        body_height: 100,
        blocks: vec![block(4, 0, &[5]), kept, block(2, 3, &[3])],
        fingerprint: [7; 32],
    }
}

fn caption(owner: u32, size: i64) -> StagingFigureCaptionBlockInput {
    StagingFigureCaptionBlockInput { owner: node(owner), block_size: size }
}

fn keep(owner: u32, successor: u32, extent: i64) -> StagingAtomicVectorKeepSuccessorInput {
    StagingAtomicVectorKeepSuccessorInput::new(node(owner), node(successor), extent)
}

fn build(
    layout: &StagingPrecomposedVectorBlockLayout,
    initial: i64,
    captions: Vec<StagingFigureCaptionBlockInput>,
    keeps: Vec<StagingAtomicVectorKeepSuccessorInput>,
) -> Result<StagingAtomicVectorBlockPaginationInput, StagingAtomicVectorBlockLayoutError> {
    StagingAtomicVectorBlockPaginationInput::new(layout, initial, 11, captions, keeps)
}

#[test]
fn atomic_vector_roles_and_algorithm_are_named() {
    assert_eq!(PRECOMPOSED_VECTOR_SELECTED_LAYOUT_ALGORITHM, "typaxis.precomposed-vector-layout/1");
    assert_eq!(
        [
            StagingAtomicVectorStructureRole::Figure,
            StagingAtomicVectorStructureRole::Formula,
            StagingAtomicVectorStructureRole::EquationNumber,
            StagingAtomicVectorStructureRole::Caption,
        ]
        .map(StagingAtomicVectorStructureRole::as_str),
        ["figure", "formula", "equation_number", "caption"]
    );
}

#[test]
fn atomic_vector_input_orders_captions_and_keeps_and_fingerprints_them() {
    let input = build(&layout(), 6, vec![caption(5, 30), caption(3, 20)], vec![keep(8, 9, 40)]).unwrap();
    assert_eq!(input.captions().iter().map(|c| c.owner().get()).collect::<Vec<_>>(), [3, 5]);
    assert_eq!(input.keep_successors()[0].successor_owner(), node(9));
    assert_eq!(input.keep_successors()[0].required_extent_after_vector(), 40);
    assert_eq!(input.initial_consumed_block_size(), 6);
    assert_eq!(input.prior_fragment_charge(), 11);
    assert_eq!(input.preparation_fingerprint(), [7; 32]);
    let hex = "07".repeat(32);
    assert_eq!(
        input.canonical_jcs(),
        format!(
            "{{\"captions\":[{{\"block_size\":20,\"owner\":3}},{{\"block_size\":30,\"owner\":5}}],\"initial_consumed_block_size\":6,\"keep_successors\":[{{\"owner\":8,\"required_extent_after_vector\":40,\"successor_owner\":9}}],\"preparation_fingerprint\":\"{hex}\",\"prior_fragment_charge\":11}}"
        )
    );
    let again = build(&layout(), 6, vec![caption(3, 20), caption(5, 30)], vec![keep(8, 9, 40)]).unwrap();
    assert_eq!(input.fingerprint(), again.fingerprint());
    let other = build(&layout(), 7, vec![caption(3, 20), caption(5, 30)], vec![keep(8, 9, 40)]).unwrap();
    assert_ne!(input.fingerprint(), other.fingerprint());
}

#[test]
fn atomic_vector_input_rejects_a_stale_layout_and_too_much_initial_content() {
    let mut stale = layout();
    stale.integrity_matches = false;
    assert_eq!(
        build(&stale, 0, vec![caption(5, 1), caption(3, 1)], vec![keep(8, 9, 1)]),
        Err(StagingAtomicVectorBlockLayoutError::LayoutMismatch)
    );
    assert!(build(&layout(), 100, vec![caption(5, 1), caption(3, 1)], vec![keep(8, 9, 1)]).is_ok());
    assert_eq!(
        build(&layout(), 101, vec![caption(5, 1), caption(3, 1)], vec![keep(8, 9, 1)]),
        Err(StagingAtomicVectorBlockLayoutError::InitialContentExceedsFrame)
    );
}

#[test]
fn atomic_vector_input_names_the_least_duplicate_missing_and_extra_caption() {
    assert_eq!(
        build(&layout(), 0, vec![caption(5, 1), caption(9, 1), caption(9, 2), caption(5, 3)], vec![]),
        Err(StagingAtomicVectorBlockLayoutError::DuplicateCaption(node(5)))
    );
    assert_eq!(
        build(&layout(), 0, vec![], vec![keep(8, 9, 1)]),
        Err(StagingAtomicVectorBlockLayoutError::MissingCaption(node(3)))
    );
    assert_eq!(
        build(&layout(), 0, vec![caption(5, 1), caption(3, 1), caption(12, 1), caption(6, 1)], vec![]),
        Err(StagingAtomicVectorBlockLayoutError::ExtraCaption(node(6)))
    );
}

#[test]
fn atomic_vector_input_checks_keep_successors() {
    let captions = || vec![caption(5, 1), caption(3, 1)];
    assert_eq!(
        build(&layout(), 0, captions(), vec![keep(8, 9, 1), keep(8, 9, 2)]),
        Err(StagingAtomicVectorBlockLayoutError::DuplicateKeepSuccessor(node(8)))
    );
    assert_eq!(
        build(&layout(), 0, captions(), vec![]),
        Err(StagingAtomicVectorBlockLayoutError::MissingKeepSuccessor(node(8)))
    );
    assert_eq!(
        build(&layout(), 0, captions(), vec![keep(8, 10, 1)]),
        Err(StagingAtomicVectorBlockLayoutError::WrongKeepSuccessor(node(8)))
    );
    assert_eq!(
        build(&layout(), 0, captions(), vec![keep(8, 9, 1), keep(4, 5, 1)]),
        Err(StagingAtomicVectorBlockLayoutError::ExtraKeepSuccessor(node(4)))
    );
}

#[test]
fn atomic_vector_keep_successor_inside_the_layout_needs_no_extent() {
    // The formula keeps with the Figure at position 2 of the same flow,
    // which is itself a vector block: no external extent is expected.
    let mut inner = layout();
    inner.blocks[2].parent_position = 2;
    inner.blocks[1].following_sibling =
        Some(StagingVectorBlockSibling { page_break: false, owner: node(2), parent_position: 2 });
    assert!(build(&inner, 0, vec![caption(5, 1), caption(3, 1)], vec![]).is_ok());
    assert_eq!(
        build(&inner, 0, vec![caption(5, 1), caption(3, 1)], vec![keep(8, 2, 1)]),
        Err(StagingAtomicVectorBlockLayoutError::ExtraKeepSuccessor(node(8)))
    );
    // A page break after the block ends the keep.
    let mut broken = layout();
    broken.blocks[1].following_sibling =
        Some(StagingVectorBlockSibling { page_break: true, owner: node(9), parent_position: 2 });
    assert!(build(&broken, 0, vec![caption(5, 1), caption(3, 1)], vec![]).is_ok());
}
