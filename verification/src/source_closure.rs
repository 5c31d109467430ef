//! Source coverage of placed pages: each original paintable leaf is visited
//! exactly once semantically, repeated copies are explicit, and repeated
//! header units map back onto the original line records they cover.
use vstd::prelude::*;
use std::ops::Range;
use crate::body_errors::{
    NodeId, ProductionBodyPaginationError, ProductionBodyPaginationErrorKind, StepBudget, error,
};

verus! {

/// How often one source leaf was visited on the placed pages.
#[derive(Clone, Copy, Debug, PartialEq, Eq, Structural)]
pub struct SourceVisit {
    pub semantic: bool,
    pub repeated: bool,
}

pub open spec fn mismatch(owner: NodeId) -> ProductionBodyPaginationError {
    ProductionBodyPaginationError { node: owner, kind: ProductionBodyPaginationErrorKind::ReceiptMismatch }
}

impl SourceVisit {
    pub fn new() -> (visit: Self)
        ensures
            !visit.semantic && !visit.repeated,
    {
        SourceVisit { semantic: false, repeated: false }
    }

    /// Record a visit: repeated copies may recur; a second semantic visit is
    /// refused.
    pub fn consume(&mut self, repeated: bool, owner: NodeId) -> (r: Result<(), ProductionBodyPaginationError>)
        ensures
            repeated ==> r is Ok && *final(self) == (SourceVisit { semantic: old(self).semantic, repeated: true }),
            !repeated && old(self).semantic ==> r == Err::<(), ProductionBodyPaginationError>(mismatch(owner))
                && *final(self) == *old(self),
            !repeated && !old(self).semantic ==> r is Ok && *final(self) == (SourceVisit {
                semantic: true,
                repeated: old(self).repeated,
            }),
    {
        if repeated {
            self.repeated = true;
        } else if self.semantic {
            return Err(error(owner, ProductionBodyPaginationErrorKind::ReceiptMismatch));
        } else {
            self.semantic = true;
        }
        Ok(())
    }

    /// A leaf that must be painted needs exactly one semantic visit; a leaf
    /// that must not be painted may have no visit at all, repeated or not.
    pub fn finish(self, expected: bool, owner: NodeId) -> (r: Result<(), ProductionBodyPaginationError>)
        ensures
            r is Ok <==> (self.semantic == expected && !(self.repeated && !expected)),
            r matches Err(e) ==> e == mismatch(owner),
    {
        if self.semantic != expected || (self.repeated && !expected) {
            return Err(error(owner, ProductionBodyPaginationErrorKind::ReceiptMismatch));
        }
        Ok(())
    }
}

impl Default for SourceVisit {
    fn default() -> (visit: Self)
        ensures
            !visit.semantic && !visit.repeated,
    {
        SourceVisit::new()
    }
}

/// Ownership of one placed table cell, and whether it is a repeated header.
#[derive(Clone, Copy, Debug, PartialEq, Eq, Structural)]
pub struct ProductionTablePlacedCellRole {
    pub owner: NodeId,
    pub repeated_header: bool,
}

impl ProductionTablePlacedCellRole {
    pub fn new(owner: NodeId, repeated_header: bool) -> (role: Self)
        ensures
            role == (ProductionTablePlacedCellRole { owner, repeated_header }),
    {
        ProductionTablePlacedCellRole { owner, repeated_header }
    }

    pub fn owner(&self) -> (owner: NodeId)
        ensures
            owner == self.owner,
    {
        self.owner
    }

    pub fn repeated_header(&self) -> (repeated: bool)
        ensures
            repeated == self.repeated_header,
    {
        self.repeated_header
    }
}

/// Repetition flags by a single forward pass over the caption positions: the
/// next caption position is consumed when the fragment index reaches it.
pub open spec fn repetition_from(
    cells: Seq<Option<ProductionTablePlacedCellRole>>,
    captions: Seq<usize>,
    i: int,
    k: int,
) -> Seq<(Option<ProductionTablePlacedCellRole>, bool)>
    decreases cells.len() - i,
{
    if i < 0 || i >= cells.len() {
        Seq::empty()
    } else {
        let copy = 0 <= k < captions.len() && captions[k] == i;
        let header = match cells[i] {
            Some(c) => c.repeated_header,
            None => false,
        };
        seq![(cells[i], copy || header)] + repetition_from(
            cells,
            captions,
            i + 1,
            if copy {
                k + 1
            } else {
                k
            },
        )
    }
}

/// Fragment index `j` is listed among the caption positions.
pub open spec fn listed(captions: Seq<usize>, j: int) -> bool {
    exists|a: int| 0 <= a < captions.len() && captions[a] == j
}

/// Captions listed strictly increasing.
pub open spec fn strictly_increasing(captions: Seq<usize>) -> bool {
    forall|a: int, b: int| 0 <= a < b < captions.len() ==> captions[a] < captions[b]
}

proof fn lemma_repetition_sorted(
    cells: Seq<Option<ProductionTablePlacedCellRole>>,
    captions: Seq<usize>,
    i: int,
    k: int,
)
    requires
        strictly_increasing(captions),
        0 <= i <= cells.len(),
        0 <= k <= captions.len(),
        forall|a: int| 0 <= a < k ==> captions[a] < i,
        forall|a: int| k <= a < captions.len() ==> captions[a] >= i,
    ensures
        repetition_from(cells, captions, i, k).len() == cells.len() - i,
        forall|j: int|
            i <= j < cells.len() ==> #[trigger] repetition_from(cells, captions, i, k)[j - i] == (
            cells[j],
            listed(captions, j) || match cells[j] {
                Some(c) => c.repeated_header,
                None => false,
            },
        ),
    decreases cells.len() - i,
{
    if i < cells.len() {
        let copy = 0 <= k < captions.len() && captions[k] == i;
        let k2 = if copy {
            k + 1
        } else {
            k
        };
        assert forall|a: int| k2 <= a < captions.len() implies captions[a] >= i + 1 by {
            if copy {
                assert(captions[k] < captions[a]);
            } else {
                assert(captions[a] >= i);
                if a > k {
                    assert(captions[k] < captions[a]);
                }
            }
        }
        lemma_repetition_sorted(cells, captions, i + 1, k2);
        assert(listed(captions, i) == copy) by {
            if listed(captions, i) {
                let a = choose|a: int| 0 <= a < captions.len() && captions[a] == i;
                if a > k {
                    assert(captions[k] < captions[a]);
                }
            }
        }
        let rest = repetition_from(cells, captions, i + 1, k2);
        assert forall|j: int| i <= j < cells.len() implies #[trigger] repetition_from(cells, captions, i, k)[j - i] == (
            cells[j],
            listed(captions, j) || match cells[j] {
                Some(c) => c.repeated_header,
                None => false,
            },
        ) by {
            if j > i {
                assert(repetition_from(cells, captions, i, k)[j - i] == rest[j - (i + 1)]);
            }
        }
    }
}

/// Sparse caption copies keep absent cell owners: each fragment keeps its
/// cell role and is repeated when it is the next caption copy or a repeated
/// header cell. With strictly increasing caption positions, a fragment is a
/// caption copy exactly when its index is listed.
pub fn roles_with_repetition(
    cells: &[Option<ProductionTablePlacedCellRole>],
    captions: &[usize],
) -> (roles: Vec<(Option<ProductionTablePlacedCellRole>, bool)>)
    ensures
        roles@ == repetition_from(cells@, captions@, 0, 0),
        strictly_increasing(captions@) ==> forall|j: int|
            0 <= j < cells@.len() ==> #[trigger] roles@[j] == (
            cells@[j],
            listed(captions@, j) || match cells@[j] {
                Some(c) => c.repeated_header,
                None => false,
            },
        ),
{
    let mut roles: Vec<(Option<ProductionTablePlacedCellRole>, bool)> = Vec::new();
    let mut next: usize = 0;
    let mut index: usize = 0;
    while index < cells.len()
        invariant
            0 <= index <= cells@.len(),
            0 <= next <= captions@.len(),
            roles@ + repetition_from(cells@, captions@, index as int, next as int)
                == repetition_from(cells@, captions@, 0, 0),
        decreases cells.len() - index,
    {
        let cell = cells[index];
        let caption_copy = next < captions.len() && captions[next] == index;
        if caption_copy {
            next = next + 1;
        }
        let header = match cell {
            Some(c) => c.repeated_header,
            None => false,
        };
        let ghost before = roles@;
        roles.push((cell, caption_copy || header));
        assert(roles@ + repetition_from(cells@, captions@, index as int + 1, next as int) =~= before
            + repetition_from(cells@, captions@, index as int, if caption_copy {
            next - 1
        } else {
            next as int
        }));
        index = index + 1;
    }
    assert(roles@ =~= roles@ + repetition_from(cells@, captions@, index as int, next as int));
    proof {
        if strictly_increasing(captions@) {
            lemma_repetition_sorted(cells@, captions@, 0, 0);
            assert forall|j: int| 0 <= j < cells@.len() implies #[trigger] roles@[j] == (
                cells@[j],
                listed(captions@, j) || match cells@[j] {
                    Some(c) => c.repeated_header,
                    None => false,
                },
            ) by {
                assert(roles@[j] == repetition_from(cells@, captions@, 0, 0)[j - 0]);
            }
        }
    }
    roles
}

/// Sort key of a source group: paragraph groups first by paragraph index,
/// then single-item groups by owner.
pub open spec fn group_key(paragraph: Option<u32>, owner: NodeId) -> (u8, u32) {
    match paragraph {
        Some(p) => (0u8, p),
        None => (1u8, owner.spec_get()),
    }
}

/// One group of collected items with the same owner and paragraph.
pub struct SourceGroup {
    pub owner: NodeId,
    pub items: Range<usize>,
    pub paragraph: Option<u32>,
}

impl SourceGroup {
    pub fn key(&self) -> (key: (u8, u32))
        ensures
            key == group_key(self.paragraph, self.owner),
    {
        match self.paragraph {
            Some(p) => (0, p),
            None => (1, self.owner.get()),
        }
    }
}

} // verus!

verus! {

/// A line record lies wholly before the target interval (touching counts as
/// before unless the target is empty).
pub open spec fn line_before(range: Range<u32>, target: Range<u32>) -> bool {
    if target.start >= target.end {
        range.end < target.start
    } else {
        range.end <= target.start
    }
}

/// Bisection for the first line that does not lie before the target, with
/// the number of steps charged; a missing record refuses.
pub open spec fn bisect_lines(
    ranges: Seq<Option<Range<u32>>>,
    target: Range<u32>,
    low: int,
    high: int,
) -> (Option<int>, nat)
    decreases high - low,
{
    if 0 <= low < high <= ranges.len() {
        let mid = low + (high - low) / 2;
        match ranges[mid] {
            None => (None, 1),
            Some(r) => {
                let next = if line_before(r, target) {
                    bisect_lines(ranges, target, mid + 1, high)
                } else {
                    bisect_lines(ranges, target, low, mid)
                };
                (next.0, next.1 + 1)
            },
        }
    } else {
        (Some(low), 0)
    }
}

/// An empty target needs an original empty line equal to it.
pub open spec fn walk_empty_line(ranges: Seq<Option<Range<u32>>>, target: Range<u32>, index: int) -> (
    Option<(int, int)>,
    nat,
)
    decreases ranges.len() - index,
{
    if 0 <= index < ranges.len() {
        match ranges[index] {
            None => (None, 1),
            Some(r) => if r == target {
                (Some((index, index + 1)), 1)
            } else if r.start > target.start {
                (None, 1)
            } else {
                let next = walk_empty_line(ranges, target, index + 1);
                (next.0, next.1 + 1)
            },
        }
    } else {
        (None, 0)
    }
}

pub open spec fn min_u32(a: u32, b: u32) -> u32 {
    if a <= b {
        a
    } else {
        b
    }
}

/// A nonempty target must be covered by consecutive, abutting line records.
pub open spec fn walk_cover(
    ranges: Seq<Option<Range<u32>>>,
    target: Range<u32>,
    first: int,
    index: int,
    at: u32,
) -> (Option<(int, int)>, nat)
    decreases ranges.len() - index,
{
    if 0 <= index < ranges.len() {
        match ranges[index] {
            None => (None, 1),
            Some(r) => if r.start > at || r.end <= at || (index != first && r.start != at) {
                (None, 1)
            } else {
                let next_at = min_u32(r.end, target.end);
                if next_at == target.end {
                    (Some((first, index + 1)), 1)
                } else {
                    let next = walk_cover(ranges, target, first, index + 1, next_at);
                    (next.0, next.1 + 1)
                }
            },
        }
    } else {
        (None, 0)
    }
}

/// The original line records covered by a repeated unit interval, and the
/// steps charged for the lookup and the walk.
pub open spec fn covered_spec(ranges: Seq<Option<Range<u32>>>, target: Range<u32>) -> (
    Option<(int, int)>,
    nat,
) {
    let found = bisect_lines(ranges, target, 0, ranges.len() as int);
    match found.0 {
        None => (None, found.1),
        Some(first) => {
            let walk = if target.start == target.end {
                walk_empty_line(ranges, target, first)
            } else {
                walk_cover(ranges, target, first, first, target.start)
            };
            (walk.0, found.1 + walk.1)
        },
    }
}

/// Lines `first..end` cover the target: for an empty target, one line equal
/// to it; otherwise the first line contains the target's start, each next
/// line starts where the previous ended, and the last reaches the target's end.
pub open spec fn covers(ranges: Seq<Option<Range<u32>>>, target: Range<u32>, first: int, end: int) -> bool {
    &&& 0 <= first < end <= ranges.len()
    &&& forall|i: int| first <= i < end ==> #[trigger] ranges[i] is Some
    &&& if target.start == target.end {
        end == first + 1 && ranges[first] == Some(target)
    } else {
        &&& ranges[first]->0.start <= target.start < ranges[first]->0.end
        &&& forall|i: int| first < i < end ==> #[trigger] ranges[i]->0.start == ranges[i - 1]->0.end
        &&& ranges[end - 1]->0.end >= target.end
    }
}

proof fn lemma_walk_empty_sound(ranges: Seq<Option<Range<u32>>>, target: Range<u32>, index: int)
    requires
        target.start == target.end,
        0 <= index,
    ensures
        walk_empty_line(ranges, target, index).0 matches Some((a, b)) ==> covers(ranges, target, a, b),
    decreases ranges.len() - index,
{
    if 0 <= index < ranges.len() {
        if let Some(r) = ranges[index] {
            if r != target && r.start <= target.start {
                lemma_walk_empty_sound(ranges, target, index + 1);
            }
        }
    }
}

/// The lines `first..index` abut and reach exactly `at`, starting at the
/// line that contains `start`.
pub open spec fn chain_to(ranges: Seq<Option<Range<u32>>>, start: u32, first: int, index: int, at: u32) -> bool {
    &&& 0 <= first < index <= ranges.len()
    &&& forall|i: int| first <= i < index ==> #[trigger] ranges[i] is Some
    &&& ranges[first]->0.start <= start < ranges[first]->0.end
    &&& forall|i: int| first < i < index ==> #[trigger] ranges[i]->0.start == ranges[i - 1]->0.end
    &&& ranges[index - 1]->0.end == at
}

proof fn lemma_walk_cover_sound(
    ranges: Seq<Option<Range<u32>>>,
    target: Range<u32>,
    first: int,
    index: int,
    at: u32,
)
    requires
        target.start < target.end,
        0 <= first <= index,
        at < target.end,
        index == first ==> at == target.start,
        index > first ==> chain_to(ranges, target.start, first, index, at),
    ensures
        walk_cover(ranges, target, first, index, at).0 matches Some((a, b)) ==> covers(ranges, target, a, b),
    decreases ranges.len() - index,
{
    if 0 <= index < ranges.len() {
        if let Some(r) = ranges[index] {
            if !(r.start > at || r.end <= at || (index != first && r.start != at)) {
                let next_at = min_u32(r.end, target.end);
                assert(chain_to(ranges, target.start, first, index + 1, r.end)) by {
                    assert forall|i: int| first <= i < index + 1 implies #[trigger] ranges[i] is Some by {
                        if i < index {
                            assert(chain_to(ranges, target.start, first, index, at));
                        }
                    }
                    assert forall|i: int| first < i < index + 1 implies #[trigger] ranges[i]->0.start
                        == ranges[i - 1]->0.end by {
                        if i < index {
                            assert(chain_to(ranges, target.start, first, index, at));
                        }
                    }
                }
                if next_at != target.end {
                    lemma_walk_cover_sound(ranges, target, first, index + 1, next_at);
                } else {
                    assert(covers(ranges, target, first, index + 1));
                }
            }
        }
    }
}

proof fn lemma_bisect_bounds(ranges: Seq<Option<Range<u32>>>, target: Range<u32>, low: int, high: int)
    requires
        0 <= low <= high <= ranges.len(),
    ensures
        bisect_lines(ranges, target, low, high).0 matches Some(i) ==> low <= i <= high,
    decreases high - low,
{
    if low < high {
        let mid = low + (high - low) / 2;
        if let Some(r) = ranges[mid] {
            if line_before(r, target) {
                lemma_bisect_bounds(ranges, target, mid + 1, high);
            } else {
                lemma_bisect_bounds(ranges, target, low, mid);
            }
        }
    }
}

/// Whatever the lookup finds, an accepted result covers the target.
pub proof fn lemma_covered_sound(ranges: Seq<Option<Range<u32>>>, target: Range<u32>)
    requires
        target.start <= target.end,
    ensures
        covered_spec(ranges, target).0 matches Some((a, b)) ==> covers(ranges, target, a, b),
{
    lemma_bisect_bounds(ranges, target, 0, ranges.len() as int);
    if let Some(first) = bisect_lines(ranges, target, 0, ranges.len() as int).0 {
        if target.start == target.end {
            lemma_walk_empty_sound(ranges, target, first);
        } else {
            lemma_walk_cover_sound(ranges, target, first, first, target.start);
        }
    }
}

pub open spec fn search_limit(owner: NodeId) -> ProductionBodyPaginationError {
    ProductionBodyPaginationError { node: owner, kind: ProductionBodyPaginationErrorKind::FootnoteSearchLimit }
}

/// Charging `steps` steps from `old_used` runs past `limit`: some step is
/// charged when the budget is already spent.
pub open spec fn exhausts(old_used: u64, limit: u64, steps: nat) -> bool {
    steps > 0 && old_used + steps > limit
}

/// The budget outcome of a charged lookup whose spec result is `outcome`
/// after `steps` steps: within budget the found index with the steps
/// counted, beyond it the search limit.
pub open spec fn charged_index(
    old_used: u64,
    limit: u64,
    used: u64,
    outcome: Option<int>,
    steps: nat,
    r: Result<usize, ProductionBodyPaginationError>,
    owner: NodeId,
) -> bool {
    &&& !exhausts(old_used, limit, steps) ==> used == old_used + steps && match outcome {
        Some(v) => r matches Ok(x) && x == v,
        None => r == Err::<usize, ProductionBodyPaginationError>(mismatch(owner)),
    }
    &&& exhausts(old_used, limit, steps) ==> r == Err::<usize, ProductionBodyPaginationError>(search_limit(owner))
}

/// The budget outcome of a charged walk whose spec result is `outcome`
/// after `steps` steps: within budget the covering records with the steps
/// counted, beyond it the search limit.
pub open spec fn charged_lines(
    old_used: u64,
    limit: u64,
    used: u64,
    outcome: Option<(int, int)>,
    steps: nat,
    r: Result<Range<usize>, ProductionBodyPaginationError>,
    owner: NodeId,
) -> bool {
    &&& !exhausts(old_used, limit, steps) ==> used == old_used + steps && match outcome {
        Some((a, b)) => r matches Ok(x) && x.start == a && x.end == b,
        None => r == Err::<Range<usize>, ProductionBodyPaginationError>(mismatch(owner)),
    }
    &&& exhausts(old_used, limit, steps) ==> r == Err::<Range<usize>, ProductionBodyPaginationError>(
        search_limit(owner),
    )
}

fn bisect_first(
    ranges: &[Option<Range<u32>>],
    target: &Range<u32>,
    owner: NodeId,
    budget: &mut StepBudget,
) -> (r: Result<usize, ProductionBodyPaginationError>)
    ensures
        final(budget).limit == old(budget).limit,
        charged_index(
            old(budget).used,
            old(budget).limit,
            final(budget).used,
            bisect_lines(ranges@, *target, 0, ranges@.len() as int).0,
            bisect_lines(ranges@, *target, 0, ranges@.len() as int).1,
            r,
            owner,
        ),
        r matches Ok(i) ==> i <= ranges@.len(),
{
    proof {
        lemma_bisect_bounds(ranges@, *target, 0, ranges@.len() as int);
    }
    let ghost found = bisect_lines(ranges@, *target, 0, ranges@.len() as int);
    let mut low: usize = 0;
    let mut high: usize = ranges.len();
    let ghost mut spent: nat = 0;
    while low < high
        invariant
            0 <= low <= high <= ranges@.len(),
            budget.limit == old(budget).limit,
            budget.used == old(budget).used + spent,
            spent > 0 ==> budget.used <= budget.limit,
            found == bisect_lines(ranges@, *target, 0, ranges@.len() as int),
            found.0 == bisect_lines(ranges@, *target, low as int, high as int).0,
            found.1 == spent + bisect_lines(ranges@, *target, low as int, high as int).1,
        decreases high - low,
    {
        let ghost cont = bisect_lines(ranges@, *target, low as int, high as int);
        assert(cont.1 >= 1);
        match budget.step(owner) {
            Err(e) => return Err(e),
            Ok(()) => {},
        }
        proof {
            spent = spent + 1;
        }
        let mid = low + (high - low) / 2;
        let range = match &ranges[mid] {
            None => {
                assert(cont == (None::<int>, 1nat));
                return Err(error(owner, ProductionBodyPaginationErrorKind::ReceiptMismatch));
            },
            Some(range) => range,
        };
        let before = if target.start >= target.end {
            range.end < target.start
        } else {
            range.end <= target.start
        };
        if before {
            low = mid + 1;
        } else {
            high = mid;
        }
    }
    Ok(low)
}

fn walk_empty(
    ranges: &[Option<Range<u32>>],
    target: &Range<u32>,
    first: usize,
    owner: NodeId,
    budget: &mut StepBudget,
) -> (r: Result<Range<usize>, ProductionBodyPaginationError>)
    requires
        first <= ranges@.len(),
        target.start == target.end,
    ensures
        final(budget).limit == old(budget).limit,
        charged_lines(
            old(budget).used,
            old(budget).limit,
            final(budget).used,
            walk_empty_line(ranges@, *target, first as int).0,
            walk_empty_line(ranges@, *target, first as int).1,
            r,
            owner,
        ),
{
    let ghost total = walk_empty_line(ranges@, *target, first as int);
    let ghost mut spent: nat = 0;
    let mut index = first;
    while index < ranges.len()
        invariant
            first <= index <= ranges@.len(),
            budget.limit == old(budget).limit,
            budget.used == old(budget).used + spent,
            spent > 0 ==> budget.used <= budget.limit,
            total == walk_empty_line(ranges@, *target, first as int),
            total.0 == walk_empty_line(ranges@, *target, index as int).0,
            total.1 == spent + walk_empty_line(ranges@, *target, index as int).1,
        decreases ranges.len() - index,
    {
        let ghost cont = walk_empty_line(ranges@, *target, index as int);
        assert(cont.1 >= 1);
        match budget.step(owner) {
            Err(e) => return Err(e),
            Ok(()) => {},
        }
        proof {
            spent = spent + 1;
        }
        let range = match &ranges[index] {
            None => {
                assert(cont == (None::<(int, int)>, 1nat));
                return Err(error(owner, ProductionBodyPaginationErrorKind::ReceiptMismatch));
            },
            Some(range) => range,
        };
        if range.start == target.start && range.end == target.end {
            assert(*range == *target);
            return Ok(index..index + 1);
        }
        if range.start > target.start {
            assert(cont == (None::<(int, int)>, 1nat));
            return Err(error(owner, ProductionBodyPaginationErrorKind::ReceiptMismatch));
        }
        index = index + 1;
    }
    assert(walk_empty_line(ranges@, *target, index as int) == (None::<(int, int)>, 0nat));
    Err(error(owner, ProductionBodyPaginationErrorKind::ReceiptMismatch))
}

fn walk_covering(
    ranges: &[Option<Range<u32>>],
    target: &Range<u32>,
    first: usize,
    owner: NodeId,
    budget: &mut StepBudget,
) -> (r: Result<Range<usize>, ProductionBodyPaginationError>)
    requires
        first <= ranges@.len(),
        target.start < target.end,
    ensures
        final(budget).limit == old(budget).limit,
        charged_lines(
            old(budget).used,
            old(budget).limit,
            final(budget).used,
            walk_cover(ranges@, *target, first as int, first as int, target.start).0,
            walk_cover(ranges@, *target, first as int, first as int, target.start).1,
            r,
            owner,
        ),
{
    let ghost total = walk_cover(ranges@, *target, first as int, first as int, target.start);
    let ghost mut spent: nat = 0;
    let mut index = first;
    let mut at = target.start;
    while index < ranges.len()
        invariant
            first <= index <= ranges@.len(),
            budget.limit == old(budget).limit,
            budget.used == old(budget).used + spent,
            spent > 0 ==> budget.used <= budget.limit,
            total == walk_cover(ranges@, *target, first as int, first as int, target.start),
            total.0 == walk_cover(ranges@, *target, first as int, index as int, at).0,
            total.1 == spent + walk_cover(ranges@, *target, first as int, index as int, at).1,
        decreases ranges.len() - index,
    {
        let ghost cont = walk_cover(ranges@, *target, first as int, index as int, at);
        assert(cont.1 >= 1);
        match budget.step(owner) {
            Err(e) => return Err(e),
            Ok(()) => {},
        }
        proof {
            spent = spent + 1;
        }
        let range = match &ranges[index] {
            None => {
                assert(cont == (None::<(int, int)>, 1nat));
                return Err(error(owner, ProductionBodyPaginationErrorKind::ReceiptMismatch));
            },
            Some(range) => range,
        };
        if range.start > at || range.end <= at || (index != first && range.start != at) {
            return Err(error(owner, ProductionBodyPaginationErrorKind::ReceiptMismatch));
        }
        at = if range.end <= target.end {
            range.end
        } else {
            target.end
        };
        if at == target.end {
            return Ok(first..index + 1);
        }
        index = index + 1;
    }
    assert(walk_cover(ranges@, *target, first as int, index as int, at) == (None::<(int, int)>, 0nat));
    Err(error(owner, ProductionBodyPaginationErrorKind::ReceiptMismatch))
}

/// Locate all original line records intersecting one repeated unit interval.
/// The bisection step and every examined record are charged before
/// inspection; a step beyond the budget refuses with a search limit.
pub fn covered_lines(
    ranges: &[Option<Range<u32>>],
    target: Range<u32>,
    owner: NodeId,
    budget: &mut StepBudget,
) -> (r: Result<Range<usize>, ProductionBodyPaginationError>)
    ensures
        final(budget).limit == old(budget).limit,
        target.start > target.end ==> r == Err::<Range<usize>, ProductionBodyPaginationError>(
            mismatch(owner),
        ),
        target.start <= target.end ==> charged_lines(
            old(budget).used,
            old(budget).limit,
            final(budget).used,
            covered_spec(ranges@, target).0,
            covered_spec(ranges@, target).1,
            r,
            owner,
        ),
        r matches Ok(range) ==> covers(ranges@, target, range.start as int, range.end as int),
{
    if target.start > target.end {
        return Err(error(owner, ProductionBodyPaginationErrorKind::ReceiptMismatch));
    }
    proof {
        lemma_covered_sound(ranges@, target);
        lemma_bisect_bounds(ranges@, target, 0, ranges@.len() as int);
    }
    let first = match bisect_first(ranges, &target, owner, budget) {
        Err(e) => return Err(e),
        Ok(first) => first,
    };
    let ghost mid_used = budget.used;
    if target.start == target.end {
        walk_empty(ranges, &target, first, owner, budget)
    } else {
        walk_covering(ranges, &target, first, owner, budget)
    }
}

} // verus!
