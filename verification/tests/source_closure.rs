use std::ops::Range;
use typaxis::body_errors::{
    error, NodeId, ProductionBodyPaginationError, ProductionBodyPaginationErrorKind as E,
    StepBudget,
};
use typaxis::source_closure::{
    covered_lines, roles_with_repetition, ProductionTablePlacedCellRole, SourceGroup, SourceVisit,
};

fn covered(
    ranges: &[Range<u32>],
    target: Range<u32>,
) -> Result<Range<usize>, ProductionBodyPaginationError> {
    let lines: Vec<Option<Range<u32>>> = ranges.iter().cloned().map(Some).collect();
    let mut budget = StepBudget::new(u64::MAX);
    covered_lines(&lines, target, NodeId::new(1), &mut budget)
}

#[test]
fn repeated_units_cover_different_original_line_partitions() {
    assert_eq!(covered(&[0..3, 3..6, 6..9], 1..8).unwrap(), 0..3);
    assert_eq!(covered(&[0..9], 3..6).unwrap(), 0..1);
    assert_eq!(covered(&[0..3, 3..6], 0..3).unwrap(), 0..1);
    assert_eq!(covered(&[0..3, 3..6], 3..6).unwrap(), 1..2);
}

#[test]
fn repeated_units_reject_missing_and_outside_source() {
    for (ranges, target) in [
        (vec![0..3, 4..7], 2..6),
        (vec![0..5, 4..8], 3..7),
        (vec![0..3], 2..4),
        (vec![2..5], 0..3),
        (vec![0..3], 3..2),
    ] {
        assert!(covered(&ranges, target).is_err());
    }
}

#[test]
fn repeated_empty_units_require_an_original_empty_line() {
    assert_eq!(covered(&[0..0], 0..0).unwrap(), 0..1);
    assert!(covered(&[0..3, 3..6], 3..3).is_err());
    assert!(covered(&[], 0..0).is_err());
}

#[test]
fn repeated_unit_lookup_and_walk_share_the_work_limit() {
    let ranges = [Some(0..3), Some(3..6), Some(6..9)];
    let mut budget = StepBudget::new(u64::MAX);
    covered_lines(&ranges, 1..8, NodeId::new(1), &mut budget).unwrap();
    let used = budget.used;
    for limit in [used, used - 1] {
        let mut budget = StepBudget::new(limit);
        let result = covered_lines(&ranges, 1..8, NodeId::new(1), &mut budget);
        assert_eq!(result.is_ok(), limit == used);
        if limit != used {
            assert_eq!(result, Err(error(NodeId::new(1), E::FootnoteSearchLimit)));
        }
    }
}

#[test]
fn covered_lines_counts_bisection_and_walk_steps() {
    let ranges = [Some(0..3), Some(3..6), Some(6..9)];
    let mut budget = StepBudget::new(100);
    assert_eq!(covered_lines(&ranges, 1..8, NodeId::new(1), &mut budget), Ok(0..3));
    // two bisection steps, then three examined records
    assert_eq!(budget.used, 5);
}

#[test]
fn covered_lines_refuses_a_missing_record() {
    let ranges = [Some(0..3), None, Some(6..9)];
    let mut budget = StepBudget::new(100);
    assert_eq!(
        covered_lines(&ranges, 1..8, NodeId::new(4), &mut budget),
        Err(error(NodeId::new(4), E::ReceiptMismatch))
    );
}

#[test]
fn detached_caption_repetition_preserves_absent_cell_owners() {
    let cell = ProductionTablePlacedCellRole {
        owner: NodeId::new(9),
        repeated_header: false,
    };
    let header = ProductionTablePlacedCellRole {
        repeated_header: true,
        ..cell
    };
    let cells = [None, Some(cell), None, Some(header), None];
    let actual = roles_with_repetition(&cells, &[0, 2]);
    assert_eq!(
        actual,
        vec![
            (None, true),
            (Some(cell), false),
            (None, true),
            (Some(header), true),
            (None, false)
        ]
    );
    assert_eq!(
        roles_with_repetition(&cells, &[])
            .into_iter()
            .map(|(_, r)| r)
            .collect::<Vec<_>>(),
        vec![false, false, false, true, false]
    );
}

#[test]
fn unsorted_caption_positions_are_consumed_in_order() {
    let cells = [None, None, None];
    let flags: Vec<bool> = roles_with_repetition(&cells, &[2, 1])
        .into_iter()
        .map(|(_, r)| r)
        .collect();
    // the first listed position 2 is never reached before 1 is passed
    assert_eq!(flags, vec![false, false, true]);
}

#[test]
fn source_visits_reject_duplicates_missing_originals_and_unselected_copies() {
    let owner = NodeId::new(7);
    let mut visit = SourceVisit::default();
    assert!(visit.finish(true, owner).is_err());
    visit.consume(true, owner).unwrap();
    assert!(visit.finish(true, owner).is_err());
    assert!(visit.finish(false, owner).is_err());
    visit.consume(false, owner).unwrap();
    visit.consume(true, owner).unwrap();
    visit.finish(true, owner).unwrap();
    assert!(visit.consume(false, owner).is_err());
    assert!(visit.finish(false, owner).is_err());
    SourceVisit::default().finish(false, owner).unwrap();
}

#[test]
fn source_groups_order_paragraphs_before_single_items() {
    let paragraph = SourceGroup { owner: NodeId::new(5), items: 0..2, paragraph: Some(3) };
    let single = SourceGroup { owner: NodeId::new(2), items: 2..3, paragraph: None };
    assert_eq!(paragraph.key(), (0, 3));
    assert_eq!(single.key(), (1, 2));
    assert!(paragraph.key() < single.key());
}
