//! Atomic vector blocks: the pagination input that binds Figure caption
//! measurements and external keep-with-next successors to a prepared vector
//! block layout, with its canonical JSON and fingerprint, and the structure
//! roles of selected vector content.
use vstd::prelude::*;
use crate::body_errors::NodeId;
use crate::math_receipt::{fingerprint_text, text_fingerprint};
use crate::text::{
    decimal, joined, lemma_joined_step, push_char, push_hash, push_i64, push_u64, quoted_hex, signed_decimal,
};

verus! {

pub const PRECOMPOSED_VECTOR_SELECTED_LAYOUT_ALGORITHM: &'static str = "typaxis.precomposed-vector-layout/1";

/// The structure role of selected vector content.
#[derive(Clone, Copy, Debug, PartialEq, Eq, Structural, Hash, PartialOrd, Ord)]
pub enum StagingAtomicVectorStructureRole {
    Figure,
    Formula,
    EquationNumber,
    Caption,
}

pub open spec fn role_name(role: StagingAtomicVectorStructureRole) -> Seq<char> {
    match role {
        StagingAtomicVectorStructureRole::Figure => "figure"@,
        StagingAtomicVectorStructureRole::Formula => "formula"@,
        StagingAtomicVectorStructureRole::EquationNumber => "equation_number"@,
        StagingAtomicVectorStructureRole::Caption => "caption"@,
    }
}

impl StagingAtomicVectorStructureRole {
    pub fn as_str(self) -> (name: &'static str)
        ensures
            name@ == role_name(self),
    {
        match self {
            StagingAtomicVectorStructureRole::Figure => "figure",
            StagingAtomicVectorStructureRole::Formula => "formula",
            StagingAtomicVectorStructureRole::EquationNumber => "equation_number",
            StagingAtomicVectorStructureRole::Caption => "caption",
        }
    }
}

/// The measured block size of the caption of a vector Figure.
#[derive(Clone, Copy, Debug, PartialEq, Eq, Structural)]
pub struct StagingFigureCaptionBlockInput {
    pub owner: NodeId,
    pub block_size: i64,
}

impl StagingFigureCaptionBlockInput {
    pub fn owner(&self) -> (v: NodeId)
        ensures
            v == self.owner,
    {
        self.owner
    }

    pub fn block_size(&self) -> (v: i64)
        ensures
            v == self.block_size,
    {
        self.block_size
    }
}

/// The extent that must follow a vector block kept with a successor that
/// lies outside the vector layout.
#[derive(Clone, Copy, Debug, PartialEq, Eq, Structural)]
pub struct StagingAtomicVectorKeepSuccessorInput {
    owner: NodeId,
    successor_owner: NodeId,
    required_extent_after_vector: i64,
}

impl StagingAtomicVectorKeepSuccessorInput {
    pub closed spec fn spec_owner(self) -> NodeId {
        self.owner
    }

    pub closed spec fn spec_successor_owner(self) -> NodeId {
        self.successor_owner
    }

    pub closed spec fn spec_required_extent_after_vector(self) -> i64 {
        self.required_extent_after_vector
    }

    /// `required_extent_after_vector` is the full kept extent after `owner`,
    /// including the boundary spacing and the successor's own extent.
    pub fn new(owner: NodeId, successor_owner: NodeId, required_extent_after_vector: i64) -> (k: Self)
        ensures
            k.spec_owner() == owner,
            k.spec_successor_owner() == successor_owner,
            k.spec_required_extent_after_vector() == required_extent_after_vector,
    {
        StagingAtomicVectorKeepSuccessorInput { owner, successor_owner, required_extent_after_vector }
    }

    pub fn owner(&self) -> (v: NodeId)
        ensures
            v == self.spec_owner(),
    {
        self.owner
    }

    pub fn successor_owner(&self) -> (v: NodeId)
        ensures
            v == self.spec_successor_owner(),
    {
        self.successor_owner
    }

    pub fn required_extent_after_vector(&self) -> (v: i64)
        ensures
            v == self.spec_required_extent_after_vector(),
    {
        self.required_extent_after_vector
    }
}

/// The flow item that follows a prepared vector block in its parent flow.
#[derive(Clone, Copy, Debug, PartialEq, Eq, Structural)]
pub struct StagingVectorBlockSibling {
    pub page_break: bool,
    pub owner: NodeId,
    pub parent_position: u32,
}

/// What the pagination input reads of one prepared vector block.
#[derive(Clone, Debug, PartialEq, Eq)]
pub struct StagingPreparedVectorBlock {
    pub owner: NodeId,
    pub parent_flow_id: u32,
    pub parent_position: u32,
    pub keep_with_next: bool,
    pub caption_owners: Vec<NodeId>,
    pub following_sibling: Option<StagingVectorBlockSibling>,
}

/// What the pagination input reads of a precomposed vector block layout:
/// whether its own receipt still matches its content, the height of the
/// body frame, its blocks, and its receipt's fingerprint.
#[derive(Clone, Debug, PartialEq, Eq)]
pub struct StagingPrecomposedVectorBlockLayout {
    pub integrity_matches: bool,
    pub body_height: i64,
    pub blocks: Vec<StagingPreparedVectorBlock>,
    pub fingerprint: [u8; 32],
}

/// Why atomic vector block layout was refused.
#[derive(Clone, Copy, Debug, PartialEq, Eq, Structural)]
pub enum StagingAtomicVectorBlockLayoutError {
    LayoutMismatch,
    FlowMismatch,
    InitialContentExceedsFrame,
    MissingCaption(NodeId),
    ExtraCaption(NodeId),
    DuplicateCaption(NodeId),
    MissingKeepSuccessor(NodeId),
    ExtraKeepSuccessor(NodeId),
    DuplicateKeepSuccessor(NodeId),
    WrongKeepSuccessor(NodeId),
    Oversize(NodeId),
    FragmentLimit,
    PageLimit,
    ArithmeticOverflow,
    AllocationFailure,
    ReceiptMismatch,
}

/// Two captions measure the same owner `o`.
pub open spec fn caption_dup(cs: Seq<StagingFigureCaptionBlockInput>, o: u32) -> bool {
    exists|i: int, j: int|
        0 <= i < j < cs.len() && #[trigger] cs[i].owner.spec_get() == o && #[trigger] cs[j].owner.spec_get() == o
}

/// A caption measures owner `o`.
pub open spec fn caption_supplied(cs: Seq<StagingFigureCaptionBlockInput>, o: u32) -> bool {
    exists|i: int| 0 <= i < cs.len() && #[trigger] cs[i].owner.spec_get() == o
}

/// Some block of the layout has a caption owned by `o`.
pub open spec fn caption_expected(layout: StagingPrecomposedVectorBlockLayout, o: u32) -> bool {
    exists|b: int, t: int|
        0 <= b < layout.blocks@.len() && 0 <= t < layout.blocks@[b].caption_owners@.len()
            && #[trigger] layout.blocks@[b].caption_owners@[t].spec_get() == o
}

pub open spec fn caption_missing(
    layout: StagingPrecomposedVectorBlockLayout,
    cs: Seq<StagingFigureCaptionBlockInput>,
    o: u32,
) -> bool {
    caption_expected(layout, o) && !caption_supplied(cs, o)
}

pub open spec fn caption_extra(
    layout: StagingPrecomposedVectorBlockLayout,
    cs: Seq<StagingFigureCaptionBlockInput>,
    o: u32,
) -> bool {
    caption_supplied(cs, o) && !caption_expected(layout, o)
}

/// Two keep successor inputs for the same owner `o`.
pub open spec fn keep_dup(ks: Seq<StagingAtomicVectorKeepSuccessorInput>, o: u32) -> bool {
    exists|i: int, j: int|
        0 <= i < j < ks.len() && #[trigger] ks[i].spec_owner().spec_get() == o
            && #[trigger] ks[j].spec_owner().spec_get() == o
}

/// The number of captions the layout's blocks declare.
pub open spec fn declared_caption_count(blocks: Seq<StagingPreparedVectorBlock>) -> nat
    decreases blocks.len(),
{
    if blocks.len() == 0 {
        0
    } else {
        declared_caption_count(blocks.drop_last()) + blocks.last().caption_owners@.len()
    }
}

/// Whether block `b` keeps with a following sibling that is not itself a
/// block of the layout (same owner, parent flow and position), and if so,
/// the owners of the block and of that successor.
pub open spec fn external_keep(layout: StagingPrecomposedVectorBlockLayout, b: int) -> Option<(u32, u32)> {
    let block = layout.blocks@[b];
    if !block.keep_with_next {
        None
    } else {
        match block.following_sibling {
            None => None,
            Some(sibling) => if sibling.page_break || exists|c: int|
                0 <= c < layout.blocks@.len() && #[trigger] layout.blocks@[c].owner == sibling.owner
                    && layout.blocks@[c].parent_flow_id == block.parent_flow_id && layout.blocks@[c].parent_position
                    == sibling.parent_position {
                None
            } else {
                Some((block.owner.spec_get(), sibling.owner.spec_get()))
            },
        }
    }
}

/// The keep successor input supplied for owner `o`, if any (the first).
pub open spec fn keep_supplied(ks: Seq<StagingAtomicVectorKeepSuccessorInput>, o: u32) -> bool {
    exists|i: int| 0 <= i < ks.len() && #[trigger] ks[i].spec_owner().spec_get() == o
}

pub open spec fn keep_successor_of(ks: Seq<StagingAtomicVectorKeepSuccessorInput>, o: u32) -> u32 {
    let i = choose|i: int| 0 <= i < ks.len() && #[trigger] ks[i].spec_owner().spec_get() == o;
    ks[i].spec_successor_owner().spec_get()
}

/// The first block, from block `from` on, whose external keep successor is
/// not supplied (`true`) or supplied with another successor (`false`),
/// with its owner.
pub open spec fn first_keep_failure(
    layout: StagingPrecomposedVectorBlockLayout,
    ks: Seq<StagingAtomicVectorKeepSuccessorInput>,
    from: int,
) -> Option<(bool, u32)>
    decreases layout.blocks@.len() - from,
{
    if from < 0 || from >= layout.blocks@.len() {
        None
    } else {
        match external_keep(layout, from) {
            Some((owner, successor)) => if !keep_supplied(ks, owner) {
                Some((true, owner))
            } else if keep_successor_of(ks, owner) != successor {
                Some((false, owner))
            } else {
                first_keep_failure(layout, ks, from + 1)
            },
            None => first_keep_failure(layout, ks, from + 1),
        }
    }
}

/// A supplied keep successor input for owner `o` that no block expects.
pub open spec fn keep_extra(
    layout: StagingPrecomposedVectorBlockLayout,
    ks: Seq<StagingAtomicVectorKeepSuccessorInput>,
    o: u32,
) -> bool {
    exists|i: int|
        0 <= i < ks.len() && #[trigger] ks[i].spec_owner().spec_get() == o && !exists|b: int|
            0 <= b < layout.blocks@.len() && #[trigger] external_keep(layout, b) == Some(
                (o, ks[i].spec_successor_owner().spec_get()),
            )
}

/// `o` is the least owner measured twice.
pub open spec fn least_caption_dup(cs: Seq<StagingFigureCaptionBlockInput>, o: u32) -> bool {
    caption_dup(cs, o) && forall|x: u32| x < o ==> !#[trigger] caption_dup(cs, x)
}

/// `o` is the least declared caption owner without a measurement.
pub open spec fn least_caption_missing(
    layout: StagingPrecomposedVectorBlockLayout,
    cs: Seq<StagingFigureCaptionBlockInput>,
    o: u32,
) -> bool {
    caption_missing(layout, cs, o) && forall|x: u32| x < o ==> !#[trigger] caption_missing(layout, cs, x)
}

/// `o` is the least measured caption owner that no block declares.
pub open spec fn least_caption_extra(
    layout: StagingPrecomposedVectorBlockLayout,
    cs: Seq<StagingFigureCaptionBlockInput>,
    o: u32,
) -> bool {
    caption_extra(layout, cs, o) && forall|x: u32| x < o ==> !#[trigger] caption_extra(layout, cs, x)
}

/// `o` is the least owner with two keep successor inputs.
pub open spec fn least_keep_dup(ks: Seq<StagingAtomicVectorKeepSuccessorInput>, o: u32) -> bool {
    keep_dup(ks, o) && forall|x: u32| x < o ==> !#[trigger] keep_dup(ks, x)
}

/// `o` is the least owner of a keep successor input that no block expects.
pub open spec fn least_keep_extra(
    layout: StagingPrecomposedVectorBlockLayout,
    ks: Seq<StagingAtomicVectorKeepSuccessorInput>,
    o: u32,
) -> bool {
    keep_extra(layout, ks, o) && forall|x: u32| x < o ==> !#[trigger] keep_extra(layout, ks, x)
}

/// The refusal the pagination input owes, in the order the checks run:
/// layout integrity, the initial content against the body, duplicate,
/// missing and extra captions (each by least owner), then duplicate keep
/// successors (least owner), missing or wrong ones (first block), and extra
/// ones (least owner).
pub open spec fn pagination_input_refusal(
    layout: StagingPrecomposedVectorBlockLayout,
    initial_consumed_block_size: i64,
    captions: Seq<StagingFigureCaptionBlockInput>,
    keep_successors: Seq<StagingAtomicVectorKeepSuccessorInput>,
) -> Option<StagingAtomicVectorBlockLayoutError> {
    if !layout.integrity_matches {
        Some(StagingAtomicVectorBlockLayoutError::LayoutMismatch)
    } else if initial_consumed_block_size > layout.body_height {
        Some(StagingAtomicVectorBlockLayoutError::InitialContentExceedsFrame)
    } else if exists|o: u32| caption_dup(captions, o) {
        Some(
            StagingAtomicVectorBlockLayoutError::DuplicateCaption(
                choose|n: NodeId| least_caption_dup(captions, n.spec_get()),
            ),
        )
    } else if declared_caption_count(layout.blocks@) > usize::MAX {
        Some(StagingAtomicVectorBlockLayoutError::AllocationFailure)
    } else if exists|o: u32| caption_missing(layout, captions, o) {
        Some(
            StagingAtomicVectorBlockLayoutError::MissingCaption(
                choose|n: NodeId| least_caption_missing(layout, captions, n.spec_get()),
            ),
        )
    } else if exists|o: u32| caption_extra(layout, captions, o) {
        Some(
            StagingAtomicVectorBlockLayoutError::ExtraCaption(
                choose|n: NodeId| least_caption_extra(layout, captions, n.spec_get()),
            ),
        )
    } else if exists|o: u32| keep_dup(keep_successors, o) {
        Some(
            StagingAtomicVectorBlockLayoutError::DuplicateKeepSuccessor(
                choose|n: NodeId| least_keep_dup(keep_successors, n.spec_get()),
            ),
        )
    } else {
        match first_keep_failure(layout, keep_successors, 0) {
            Some((true, owner)) => Some(
                StagingAtomicVectorBlockLayoutError::MissingKeepSuccessor(
                    choose|n: NodeId| n.spec_get() == owner,
                ),
            ),
            Some((false, owner)) => Some(
                StagingAtomicVectorBlockLayoutError::WrongKeepSuccessor(choose|n: NodeId| n.spec_get() == owner),
            ),
            None => if exists|o: u32| keep_extra(layout, keep_successors, o) {
                Some(
                    StagingAtomicVectorBlockLayoutError::ExtraKeepSuccessor(
                        choose|n: NodeId| least_keep_extra(layout, keep_successors, n.spec_get()),
                    ),
                )
            } else {
                None
            },
        }
    }
}

/// The least owner measured by two captions, if any.
fn find_caption_dup(cs: &Vec<StagingFigureCaptionBlockInput>) -> (r: Option<NodeId>)
    ensures
        r is None <==> !exists|o: u32| caption_dup(cs@, o),
        r matches Some(n) ==> least_caption_dup(cs@, n.spec_get()),
{
    let mut best: Option<NodeId> = None;
    let mut i: usize = 0;
    while i < cs.len()
        invariant
            0 <= i <= cs@.len(),
            best matches Some(n) ==> caption_dup(cs@, n.spec_get()),
            forall|a: int, b: int|
                0 <= a < b < cs@.len() && a < i && #[trigger] cs@[a].owner.spec_get() == #[trigger] cs@[b].owner.spec_get()
                    ==> (best matches Some(n) && n.spec_get() <= cs@[a].owner.spec_get()),
        decreases cs.len() - i,
    {
        let mut j: usize = i + 1;
        while j < cs.len()
            invariant
                i < cs@.len(),
                i + 1 <= j <= cs@.len(),
                best matches Some(n) ==> caption_dup(cs@, n.spec_get()),
                forall|a: int, b: int|
                    0 <= a < b < cs@.len() && (a < i || (a == i && b < j)) && #[trigger] cs@[a].owner.spec_get()
                        == #[trigger] cs@[b].owner.spec_get() ==> (best matches Some(n) && n.spec_get()
                        <= cs@[a].owner.spec_get()),
            decreases cs.len() - j,
        {
            let o = cs[i].owner.get();
            if o == cs[j].owner.get() {
                assert(caption_dup(cs@, o)) by {
                    assert(cs@[i as int].owner.spec_get() == o && cs@[j as int].owner.spec_get() == o);
                }
                let better = match best {
                    Some(n) => o < n.get(),
                    None => true,
                };
                if better {
                    best = Some(cs[i].owner);
                }
            }
            j = j + 1;
        }
        i = i + 1;
    }
    proof {
        match best {
            Some(n) => {
                assert forall|x: u32| x < n.spec_get() implies !#[trigger] caption_dup(cs@, x) by {
                    if caption_dup(cs@, x) {
                        let (a, b) = choose|a: int, b: int|
                            0 <= a < b < cs@.len() && #[trigger] cs@[a].owner.spec_get() == x
                                && #[trigger] cs@[b].owner.spec_get() == x;
                        assert(cs@[a].owner.spec_get() == cs@[b].owner.spec_get());
                    }
                }
            },
            None => {
                assert forall|x: u32| !caption_dup(cs@, x) by {
                    if caption_dup(cs@, x) {
                        let (a, b) = choose|a: int, b: int|
                            0 <= a < b < cs@.len() && #[trigger] cs@[a].owner.spec_get() == x
                                && #[trigger] cs@[b].owner.spec_get() == x;
                        assert(cs@[a].owner.spec_get() == cs@[b].owner.spec_get());
                    }
                }
            },
        }
    }
    best
}

/// The least owner with two keep successor inputs, if any.
fn find_keep_dup(ks: &Vec<StagingAtomicVectorKeepSuccessorInput>) -> (r: Option<NodeId>)
    ensures
        r is None <==> !exists|o: u32| keep_dup(ks@, o),
        r matches Some(n) ==> least_keep_dup(ks@, n.spec_get()),
{
    let mut best: Option<NodeId> = None;
    let mut i: usize = 0;
    while i < ks.len()
        invariant
            0 <= i <= ks@.len(),
            best matches Some(n) ==> keep_dup(ks@, n.spec_get()),
            forall|a: int, b: int|
                0 <= a < b < ks@.len() && a < i && #[trigger] ks@[a].spec_owner().spec_get()
                    == #[trigger] ks@[b].spec_owner().spec_get() ==> (best matches Some(n) && n.spec_get()
                    <= ks@[a].spec_owner().spec_get()),
        decreases ks.len() - i,
    {
        let mut j: usize = i + 1;
        while j < ks.len()
            invariant
                i < ks@.len(),
                i + 1 <= j <= ks@.len(),
                best matches Some(n) ==> keep_dup(ks@, n.spec_get()),
                forall|a: int, b: int|
                    0 <= a < b < ks@.len() && (a < i || (a == i && b < j)) && #[trigger] ks@[a].spec_owner().spec_get()
                        == #[trigger] ks@[b].spec_owner().spec_get() ==> (best matches Some(n) && n.spec_get()
                        <= ks@[a].spec_owner().spec_get()),
            decreases ks.len() - j,
        {
            let o = ks[i].owner().get();
            if o == ks[j].owner().get() {
                assert(keep_dup(ks@, o)) by {
                    assert(ks@[i as int].spec_owner().spec_get() == o && ks@[j as int].spec_owner().spec_get() == o);
                }
                let better = match best {
                    Some(n) => o < n.get(),
                    None => true,
                };
                if better {
                    best = Some(ks[i].owner());
                }
            }
            j = j + 1;
        }
        i = i + 1;
    }
    proof {
        match best {
            Some(n) => {
                assert forall|x: u32| x < n.spec_get() implies !#[trigger] keep_dup(ks@, x) by {
                    if keep_dup(ks@, x) {
                        let (a, b) = choose|a: int, b: int|
                            0 <= a < b < ks@.len() && #[trigger] ks@[a].spec_owner().spec_get() == x
                                && #[trigger] ks@[b].spec_owner().spec_get() == x;
                        assert(ks@[a].spec_owner().spec_get() == ks@[b].spec_owner().spec_get());
                    }
                }
            },
            None => {
                assert forall|x: u32| !keep_dup(ks@, x) by {
                    if keep_dup(ks@, x) {
                        let (a, b) = choose|a: int, b: int|
                            0 <= a < b < ks@.len() && #[trigger] ks@[a].spec_owner().spec_get() == x
                                && #[trigger] ks@[b].spec_owner().spec_get() == x;
                        assert(ks@[a].spec_owner().spec_get() == ks@[b].spec_owner().spec_get());
                    }
                }
            },
        }
    }
    best
}

fn is_caption_supplied(cs: &Vec<StagingFigureCaptionBlockInput>, o: u32) -> (r: bool)
    ensures
        r == caption_supplied(cs@, o),
{
    let mut i: usize = 0;
    while i < cs.len()
        invariant
            0 <= i <= cs@.len(),
            forall|t: int| 0 <= t < i ==> #[trigger] cs@[t].owner.spec_get() != o,
        decreases cs.len() - i,
    {
        if cs[i].owner.get() == o {
            return true;
        }
        i = i + 1;
    }
    false
}

fn is_caption_expected(layout: &StagingPrecomposedVectorBlockLayout, o: u32) -> (r: bool)
    ensures
        r == caption_expected(*layout, o),
{
    let mut b: usize = 0;
    while b < layout.blocks.len()
        invariant
            0 <= b <= layout.blocks@.len(),
            forall|b2: int, t: int|
                0 <= b2 < b && 0 <= t < layout.blocks@[b2].caption_owners@.len()
                    ==> #[trigger] layout.blocks@[b2].caption_owners@[t].spec_get() != o,
        decreases layout.blocks.len() - b,
    {
        let owners = &layout.blocks[b].caption_owners;
        let mut t: usize = 0;
        while t < owners.len()
            invariant
                b < layout.blocks@.len(),
                *owners == layout.blocks@[b as int].caption_owners,
                0 <= t <= owners@.len(),
                forall|t2: int| 0 <= t2 < t ==> #[trigger] owners@[t2].spec_get() != o,
            decreases owners.len() - t,
        {
            if owners[t].get() == o {
                assert(layout.blocks@[b as int].caption_owners@[t as int].spec_get() == o);
                return true;
            }
            t = t + 1;
        }
        b = b + 1;
    }
    false
}

/// The number of declared captions, or `None` when it does not fit a
/// `usize`.
fn count_declared_captions(layout: &StagingPrecomposedVectorBlockLayout) -> (r: Option<usize>)
    ensures
        r matches Some(n) ==> n == declared_caption_count(layout.blocks@),
        r is None ==> declared_caption_count(layout.blocks@) > usize::MAX,
{
    let mut count: usize = 0;
    let mut b: usize = 0;
    while b < layout.blocks.len()
        invariant
            0 <= b <= layout.blocks@.len(),
            count == declared_caption_count(layout.blocks@.take(b as int)),
        decreases layout.blocks.len() - b,
    {
        assert(layout.blocks@.take(b + 1).drop_last() =~= layout.blocks@.take(b as int));
        count = match count.checked_add(layout.blocks[b].caption_owners.len()) {
            Some(v) => v,
            None => {
                proof {
                    lemma_declared_count_prefix(layout.blocks@, b + 1);
                }
                return None;
            },
        };
        b = b + 1;
    }
    assert(layout.blocks@.take(layout.blocks@.len() as int) =~= layout.blocks@);
    Some(count)
}

/// Counting a prefix of the blocks counts no more than all of them.
proof fn lemma_declared_count_prefix(blocks: Seq<StagingPreparedVectorBlock>, m: int)
    requires
        0 <= m <= blocks.len(),
    ensures
        declared_caption_count(blocks.take(m)) <= declared_caption_count(blocks),
    decreases blocks.len(),
{
    if m == blocks.len() {
        assert(blocks.take(m) =~= blocks);
    } else {
        assert(blocks.drop_last().take(m) =~= blocks.take(m));
        lemma_declared_count_prefix(blocks.drop_last(), m);
    }
}

/// The least declared caption owner without a measurement, if any.
fn find_caption_missing(layout: &StagingPrecomposedVectorBlockLayout, cs: &Vec<StagingFigureCaptionBlockInput>) -> (r:
    Option<NodeId>)
    ensures
        r is None <==> !exists|o: u32| caption_missing(*layout, cs@, o),
        r matches Some(n) ==> least_caption_missing(*layout, cs@, n.spec_get()),
{
    let mut best: Option<NodeId> = None;
    let mut b: usize = 0;
    while b < layout.blocks.len()
        invariant
            0 <= b <= layout.blocks@.len(),
            best matches Some(n) ==> caption_missing(*layout, cs@, n.spec_get()),
            forall|b2: int, t: int|
                0 <= b2 < b && 0 <= t < layout.blocks@[b2].caption_owners@.len() && !caption_supplied(
                    cs@,
                    #[trigger] layout.blocks@[b2].caption_owners@[t].spec_get(),
                ) ==> (best matches Some(n) && n.spec_get() <= layout.blocks@[b2].caption_owners@[t].spec_get()),
        decreases layout.blocks.len() - b,
    {
        let owners = &layout.blocks[b].caption_owners;
        let mut t: usize = 0;
        while t < owners.len()
            invariant
                b < layout.blocks@.len(),
                *owners == layout.blocks@[b as int].caption_owners,
                0 <= t <= owners@.len(),
                best matches Some(n) ==> caption_missing(*layout, cs@, n.spec_get()),
                forall|b2: int, t2: int|
                    0 <= b2 < b && 0 <= t2 < layout.blocks@[b2].caption_owners@.len() && !caption_supplied(
                        cs@,
                        #[trigger] layout.blocks@[b2].caption_owners@[t2].spec_get(),
                    ) ==> (best matches Some(n) && n.spec_get() <= layout.blocks@[b2].caption_owners@[t2].spec_get()),
                forall|t2: int|
                    0 <= t2 < t && !caption_supplied(cs@, #[trigger] owners@[t2].spec_get()) ==> (best matches Some(n)
                        && n.spec_get() <= owners@[t2].spec_get()),
            decreases owners.len() - t,
        {
            let o = owners[t].get();
            if !is_caption_supplied(cs, o) {
                assert(caption_expected(*layout, o)) by {
                    assert(layout.blocks@[b as int].caption_owners@[t as int].spec_get() == o);
                }
                let better = match best {
                    Some(n) => o < n.get(),
                    None => true,
                };
                if better {
                    best = Some(owners[t]);
                }
            }
            t = t + 1;
        }
        b = b + 1;
    }
    proof {
        assert forall|x: u32| caption_missing(*layout, cs@, x) implies (best matches Some(n) && n.spec_get() <= x) by {
            let (b2, t2) = choose|b2: int, t2: int|
                0 <= b2 < layout.blocks@.len() && 0 <= t2 < layout.blocks@[b2].caption_owners@.len()
                    && #[trigger] layout.blocks@[b2].caption_owners@[t2].spec_get() == x;
            assert(!caption_supplied(cs@, layout.blocks@[b2].caption_owners@[t2].spec_get()));
        }
    }
    best
}

/// The least measured caption owner that no block declares, if any.
fn find_caption_extra(layout: &StagingPrecomposedVectorBlockLayout, cs: &Vec<StagingFigureCaptionBlockInput>) -> (r:
    Option<NodeId>)
    ensures
        r is None <==> !exists|o: u32| caption_extra(*layout, cs@, o),
        r matches Some(n) ==> least_caption_extra(*layout, cs@, n.spec_get()),
{
    let mut best: Option<NodeId> = None;
    let mut i: usize = 0;
    while i < cs.len()
        invariant
            0 <= i <= cs@.len(),
            best matches Some(n) ==> caption_extra(*layout, cs@, n.spec_get()),
            forall|t: int|
                0 <= t < i && !caption_expected(*layout, #[trigger] cs@[t].owner.spec_get()) ==> (best matches Some(n)
                    && n.spec_get() <= cs@[t].owner.spec_get()),
        decreases cs.len() - i,
    {
        let o = cs[i].owner.get();
        if !is_caption_expected(layout, o) {
            assert(caption_supplied(cs@, o)) by {
                assert(cs@[i as int].owner.spec_get() == o);
            }
            let better = match best {
                Some(n) => o < n.get(),
                None => true,
            };
            if better {
                best = Some(cs[i].owner);
            }
        }
        i = i + 1;
    }
    proof {
        assert forall|x: u32| caption_extra(*layout, cs@, x) implies (best matches Some(n) && n.spec_get() <= x) by {
            let t = choose|t: int| 0 <= t < cs@.len() && #[trigger] cs@[t].owner.spec_get() == x;
            assert(!caption_expected(*layout, cs@[t].owner.spec_get()));
        }
    }
    best
}

/// Block `b`'s keep-with-next successor outside the vector layout.
fn external_keep_successor(layout: &StagingPrecomposedVectorBlockLayout, b: usize) -> (r: Option<(NodeId, NodeId)>)
    requires
        b < layout.blocks@.len(),
    ensures
        r matches Some((o, s)) ==> external_keep(*layout, b as int) == Some((o.spec_get(), s.spec_get())),
        r is None ==> external_keep(*layout, b as int) is None,
{
    let block = &layout.blocks[b];
    if !block.keep_with_next {
        return None;
    }
    let sibling = match block.following_sibling {
        Some(s) => s,
        None => return None,
    };
    if sibling.page_break {
        return None;
    }
    let mut c: usize = 0;
    while c < layout.blocks.len()
        invariant
            b < layout.blocks@.len(),
            *block == layout.blocks@[b as int],
            block.following_sibling == Some(sibling),
            0 <= c <= layout.blocks@.len(),
            forall|c2: int|
                0 <= c2 < c ==> !(#[trigger] layout.blocks@[c2].owner == sibling.owner && layout.blocks@[c2].parent_flow_id
                    == block.parent_flow_id && layout.blocks@[c2].parent_position == sibling.parent_position),
        decreases layout.blocks.len() - c,
    {
        let candidate = &layout.blocks[c];
        if candidate.owner == sibling.owner && candidate.parent_flow_id == block.parent_flow_id
            && candidate.parent_position == sibling.parent_position {
            return None;
        }
        c = c + 1;
    }
    Some((block.owner, sibling.owner))
}

/// The index of the keep successor input for owner `o`, if any.
fn find_keep(ks: &Vec<StagingAtomicVectorKeepSuccessorInput>, o: u32) -> (r: Option<usize>)
    ensures
        r is None <==> !keep_supplied(ks@, o),
        r matches Some(i) ==> i < ks@.len() && ks@[i as int].spec_owner().spec_get() == o,
{
    let mut i: usize = 0;
    while i < ks.len()
        invariant
            0 <= i <= ks@.len(),
            forall|t: int| 0 <= t < i ==> #[trigger] ks@[t].spec_owner().spec_get() != o,
        decreases ks.len() - i,
    {
        if ks[i].owner().get() == o {
            return Some(i);
        }
        i = i + 1;
    }
    None
}

/// The first block whose external keep successor is missing or wrong.
fn find_keep_failure(layout: &StagingPrecomposedVectorBlockLayout, ks: &Vec<StagingAtomicVectorKeepSuccessorInput>) -> (r:
    Option<(bool, NodeId)>)
    requires
        !exists|o: u32| keep_dup(ks@, o),
    ensures
        r is None <==> first_keep_failure(*layout, ks@, 0) is None,
        r matches Some((missing, n)) ==> first_keep_failure(*layout, ks@, 0) == Some((missing, n.spec_get())),
{
    let mut b: usize = 0;
    while b < layout.blocks.len()
        invariant
            0 <= b <= layout.blocks@.len(),
            !exists|o: u32| keep_dup(ks@, o),
            first_keep_failure(*layout, ks@, 0) == first_keep_failure(*layout, ks@, b as int),
        decreases layout.blocks.len() - b,
    {
        match external_keep_successor(layout, b) {
            Some((owner, successor)) => {
                match find_keep(ks, owner.get()) {
                    None => {
                        return Some((true, owner));
                    },
                    Some(i) => {
                        proof {
                            let j = choose|j: int|
                                0 <= j < ks@.len() && #[trigger] ks@[j].spec_owner().spec_get() == owner.spec_get();
                            if j != i {
                                let (lo, hi) = if j < i {
                                    (j, i as int)
                                } else {
                                    (i as int, j)
                                };
                                assert(ks@[lo].spec_owner().spec_get() == owner.spec_get());
                                assert(ks@[hi].spec_owner().spec_get() == owner.spec_get());
                                assert(keep_dup(ks@, owner.spec_get()));
                            }
                            assert(keep_successor_of(ks@, owner.spec_get()) == ks@[i as int].spec_successor_owner().spec_get());
                        }
                        if ks[i].successor_owner().get() != successor.get() {
                            return Some((false, owner));
                        }
                    },
                }
            },
            None => {},
        }
        b = b + 1;
    }
    None
}

/// Whether some block expects the keep successor `(o, s)`.
fn keep_expected(layout: &StagingPrecomposedVectorBlockLayout, o: u32, s: u32) -> (r: bool)
    ensures
        r == exists|b: int| 0 <= b < layout.blocks@.len() && #[trigger] external_keep(*layout, b) == Some((o, s)),
{
    let mut b: usize = 0;
    while b < layout.blocks.len()
        invariant
            0 <= b <= layout.blocks@.len(),
            forall|b2: int| 0 <= b2 < b ==> #[trigger] external_keep(*layout, b2) != Some((o, s)),
        decreases layout.blocks.len() - b,
    {
        match external_keep_successor(layout, b) {
            Some((owner, successor)) => {
                if owner.get() == o && successor.get() == s {
                    return true;
                }
            },
            None => {},
        }
        b = b + 1;
    }
    false
}

/// The least owner of a keep successor input that no block expects.
fn find_keep_extra(layout: &StagingPrecomposedVectorBlockLayout, ks: &Vec<StagingAtomicVectorKeepSuccessorInput>) -> (r:
    Option<NodeId>)
    ensures
        r is None <==> !exists|o: u32| keep_extra(*layout, ks@, o),
        r matches Some(n) ==> least_keep_extra(*layout, ks@, n.spec_get()),
{
    let mut best: Option<NodeId> = None;
    let mut i: usize = 0;
    while i < ks.len()
        invariant
            0 <= i <= ks@.len(),
            best matches Some(n) ==> keep_extra(*layout, ks@, n.spec_get()),
            forall|t: int|
                0 <= t < i && !(exists|b: int|
                    0 <= b < layout.blocks@.len() && #[trigger] external_keep(*layout, b) == Some(
                        (#[trigger] ks@[t].spec_owner().spec_get(), ks@[t].spec_successor_owner().spec_get()),
                    )) ==> (best matches Some(n) && n.spec_get() <= ks@[t].spec_owner().spec_get()),
        decreases ks.len() - i,
    {
        let o = ks[i].owner().get();
        let s = ks[i].successor_owner().get();
        if !keep_expected(layout, o, s) {
            assert(keep_extra(*layout, ks@, o)) by {
                assert(ks@[i as int].spec_owner().spec_get() == o);
            }
            let better = match best {
                Some(n) => o < n.get(),
                None => true,
            };
            if better {
                best = Some(ks[i].owner());
            }
        }
        i = i + 1;
    }
    proof {
        assert forall|x: u32| keep_extra(*layout, ks@, x) implies (best matches Some(n) && n.spec_get() <= x) by {
            let t = choose|t: int|
                0 <= t < ks@.len() && #[trigger] ks@[t].spec_owner().spec_get() == x && !exists|b: int|
                    0 <= b < layout.blocks@.len() && #[trigger] external_keep(*layout, b) == Some(
                        (x, ks@[t].spec_successor_owner().spec_get()),
                    );
            assert(ks@[t].spec_owner().spec_get() == x);
        }
    }
    best
}

/// Captions in strictly increasing owner order.
pub open spec fn captions_sorted(cs: Seq<StagingFigureCaptionBlockInput>) -> bool {
    forall|i: int, j: int| 0 <= i < j < cs.len() ==> cs[i].owner.spec_get() < cs[j].owner.spec_get()
}

/// Keep successor inputs in strictly increasing owner order.
pub open spec fn keeps_sorted(ks: Seq<StagingAtomicVectorKeepSuccessorInput>) -> bool {
    forall|i: int, j: int|
        0 <= i < j < ks.len() ==> ks[i].spec_owner().spec_get() < ks[j].spec_owner().spec_get()
}

/// `out` holds exactly the elements of `input`, in any order.
pub open spec fn same_elements<A>(out: Seq<A>, input: Seq<A>) -> bool {
    &&& out.len() == input.len()
    &&& forall|i: int| 0 <= i < input.len() ==> out.contains(#[trigger] input[i])
    &&& forall|j: int| 0 <= j < out.len() ==> input.contains(#[trigger] out[j])
}

/// The captions ordered by owner.
fn sort_captions(cs: &Vec<StagingFigureCaptionBlockInput>) -> (out: Vec<StagingFigureCaptionBlockInput>)
    requires
        !exists|o: u32| caption_dup(cs@, o),
    ensures
        captions_sorted(out@),
        same_elements(out@, cs@),
{
    let mut out: Vec<StagingFigureCaptionBlockInput> = Vec::new();
    let mut i: usize = 0;
    while i < cs.len()
        invariant
            0 <= i <= cs@.len(),
            !exists|o: u32| caption_dup(cs@, o),
            out@.len() == i,
            captions_sorted(out@),
            forall|t: int| 0 <= t < i ==> out@.contains(#[trigger] cs@[t]),
            forall|j: int| #![trigger out@[j]] 0 <= j < out@.len() ==> exists|t: int| 0 <= t < i && #[trigger] cs@[t] == out@[j],
        decreases cs.len() - i,
    {
        let c = cs[i];
        let mut p: usize = 0;
        while p < out.len() && out[p].owner.get() < c.owner.get()
            invariant
                0 <= p <= out@.len(),
                forall|k: int| 0 <= k < p ==> out@[k].owner.spec_get() < c.owner.spec_get(),
            decreases out.len() - p,
        {
            p = p + 1;
        }
        proof {
            assert forall|k: int| 0 <= k < out@.len() implies out@[k].owner.spec_get() != c.owner.spec_get() by {
                let t = choose|t: int| 0 <= t < i && #[trigger] cs@[t] == out@[k];
                if out@[k].owner.spec_get() == c.owner.spec_get() {
                    assert(cs@[t].owner.spec_get() == c.owner.spec_get() && cs@[i as int].owner.spec_get()
                        == c.owner.spec_get());
                    assert(caption_dup(cs@, c.owner.spec_get()));
                }
            }
        }
        let ghost before = out@;
        out.insert(p, c);
        proof {
            assert forall|a: int, b: int| 0 <= a < b < out@.len() implies out@[a].owner.spec_get()
                < out@[b].owner.spec_get() by {
                if b < p {
                } else if a < p && b == p {
                } else if a < p {
                    assert(out@[b] == before[b - 1]);
                    if p < before.len() {
                        assert(before[p as int].owner.spec_get() >= c.owner.spec_get());
                    }
                } else if a == p {
                    assert(out@[b] == before[b - 1]);
                    assert(before[p as int].owner.spec_get() >= c.owner.spec_get());
                    assert(before[p as int].owner.spec_get() <= before[b - 1].owner.spec_get());
                } else {
                    assert(out@[a] == before[a - 1] && out@[b] == before[b - 1]);
                }
            }
            assert forall|t: int| 0 <= t < i + 1 implies out@.contains(#[trigger] cs@[t]) by {
                if t == i {
                    assert(out@[p as int] == c);
                } else {
                    let k = choose|k: int| 0 <= k < before.len() && before[k] == cs@[t];
                    if k < p {
                        assert(out@[k] == cs@[t]);
                    } else {
                        assert(out@[k + 1] == cs@[t]);
                    }
                }
            }
            assert forall|j: int| #![trigger out@[j]] 0 <= j < out@.len() implies exists|t: int|
                0 <= t < i + 1 && #[trigger] cs@[t] == out@[j] by {
                if j == p {
                    assert(cs@[i as int] == out@[j]);
                } else if j < p {
                    assert(out@[j] == before[j]);
                    let t = choose|t: int| 0 <= t < i && #[trigger] cs@[t] == before[j];
                    assert(cs@[t] == out@[j]);
                } else {
                    assert(out@[j] == before[j - 1]);
                    let t = choose|t: int| 0 <= t < i && #[trigger] cs@[t] == before[j - 1];
                    assert(cs@[t] == out@[j]);
                }
            }
        }
        i = i + 1;
    }
    proof {
        assert forall|j: int| 0 <= j < out@.len() implies cs@.contains(#[trigger] out@[j]) by {
            let t = choose|t: int| 0 <= t < i && #[trigger] cs@[t] == out@[j];
        }
    }
    out
}

/// The keep successor inputs ordered by owner.
fn sort_keeps(cs: &Vec<StagingAtomicVectorKeepSuccessorInput>) -> (out: Vec<StagingAtomicVectorKeepSuccessorInput>)
    requires
        !exists|o: u32| keep_dup(cs@, o),
    ensures
        keeps_sorted(out@),
        same_elements(out@, cs@),
{
    let mut out: Vec<StagingAtomicVectorKeepSuccessorInput> = Vec::new();
    let mut i: usize = 0;
    while i < cs.len()
        invariant
            0 <= i <= cs@.len(),
            !exists|o: u32| keep_dup(cs@, o),
            out@.len() == i,
            keeps_sorted(out@),
            forall|t: int| 0 <= t < i ==> out@.contains(#[trigger] cs@[t]),
            forall|j: int| #![trigger out@[j]] 0 <= j < out@.len() ==> exists|t: int| 0 <= t < i && #[trigger] cs@[t] == out@[j],
        decreases cs.len() - i,
    {
        let c = cs[i];
        let mut p: usize = 0;
        while p < out.len() && out[p].owner().get() < c.owner().get()
            invariant
                0 <= p <= out@.len(),
                forall|k: int| 0 <= k < p ==> out@[k].spec_owner().spec_get() < c.spec_owner().spec_get(),
            decreases out.len() - p,
        {
            p = p + 1;
        }
        proof {
            assert forall|k: int| 0 <= k < out@.len() implies out@[k].spec_owner().spec_get() != c.spec_owner().spec_get() by {
                let t = choose|t: int| 0 <= t < i && #[trigger] cs@[t] == out@[k];
                if out@[k].spec_owner().spec_get() == c.spec_owner().spec_get() {
                    assert(cs@[t].spec_owner().spec_get() == c.spec_owner().spec_get() && cs@[i as int].spec_owner().spec_get()
                        == c.spec_owner().spec_get());
                    assert(keep_dup(cs@, c.spec_owner().spec_get()));
                }
            }
        }
        let ghost before = out@;
        out.insert(p, c);
        proof {
            assert forall|a: int, b: int| 0 <= a < b < out@.len() implies out@[a].spec_owner().spec_get()
                < out@[b].spec_owner().spec_get() by {
                if b < p {
                } else if a < p && b == p {
                } else if a < p {
                    assert(out@[b] == before[b - 1]);
                    if p < before.len() {
                        assert(before[p as int].spec_owner().spec_get() >= c.spec_owner().spec_get());
                    }
                } else if a == p {
                    assert(out@[b] == before[b - 1]);
                    assert(before[p as int].spec_owner().spec_get() >= c.spec_owner().spec_get());
                    assert(before[p as int].spec_owner().spec_get() <= before[b - 1].spec_owner().spec_get());
                } else {
                    assert(out@[a] == before[a - 1] && out@[b] == before[b - 1]);
                }
            }
            assert forall|t: int| 0 <= t < i + 1 implies out@.contains(#[trigger] cs@[t]) by {
                if t == i {
                    assert(out@[p as int] == c);
                } else {
                    let k = choose|k: int| 0 <= k < before.len() && before[k] == cs@[t];
                    if k < p {
                        assert(out@[k] == cs@[t]);
                    } else {
                        assert(out@[k + 1] == cs@[t]);
                    }
                }
            }
            assert forall|j: int| #![trigger out@[j]] 0 <= j < out@.len() implies exists|t: int|
                0 <= t < i + 1 && #[trigger] cs@[t] == out@[j] by {
                if j == p {
                    assert(cs@[i as int] == out@[j]);
                } else if j < p {
                    assert(out@[j] == before[j]);
                    let t = choose|t: int| 0 <= t < i && #[trigger] cs@[t] == before[j];
                    assert(cs@[t] == out@[j]);
                } else {
                    assert(out@[j] == before[j - 1]);
                    let t = choose|t: int| 0 <= t < i && #[trigger] cs@[t] == before[j - 1];
                    assert(cs@[t] == out@[j]);
                }
            }
        }
        i = i + 1;
    }
    proof {
        assert forall|j: int| 0 <= j < out@.len() implies cs@.contains(#[trigger] out@[j]) by {
            let t = choose|t: int| 0 <= t < i && #[trigger] cs@[t] == out@[j];
        }
    }
    out
}

/// Canonical JSON of one caption measurement.
pub open spec fn encoded_caption_input(c: StagingFigureCaptionBlockInput) -> Seq<char> {
    "{\"block_size\":"@ + signed_decimal(c.block_size as int) + ",\"owner\":"@ + decimal(c.owner.spec_get() as nat)
        + "}"@
}

pub open spec fn caption_input_encoder() -> spec_fn(StagingFigureCaptionBlockInput) -> Seq<char> {
    |c: StagingFigureCaptionBlockInput| encoded_caption_input(c)
}

/// Canonical JSON of one keep successor input.
pub open spec fn encoded_keep_input(k: StagingAtomicVectorKeepSuccessorInput) -> Seq<char> {
    "{\"owner\":"@ + decimal(k.spec_owner().spec_get() as nat) + ",\"required_extent_after_vector\":"@
        + signed_decimal(k.spec_required_extent_after_vector() as int) + ",\"successor_owner\":"@ + decimal(
        k.spec_successor_owner().spec_get() as nat,
    ) + "}"@
}

pub open spec fn keep_input_encoder() -> spec_fn(StagingAtomicVectorKeepSuccessorInput) -> Seq<char> {
    |k: StagingAtomicVectorKeepSuccessorInput| encoded_keep_input(k)
}

/// Canonical JSON of a pagination input.
pub open spec fn encoded_pagination_input(
    initial_consumed_block_size: i64,
    prior_fragment_charge: u64,
    captions: Seq<StagingFigureCaptionBlockInput>,
    keep_successors: Seq<StagingAtomicVectorKeepSuccessorInput>,
    preparation_fingerprint: Seq<u8>,
) -> Seq<char> {
    "{\"captions\":["@ + joined(captions, caption_input_encoder()) + "],\"initial_consumed_block_size\":"@
        + signed_decimal(initial_consumed_block_size as int) + ",\"keep_successors\":["@ + joined(
        keep_successors,
        keep_input_encoder(),
    ) + "],\"preparation_fingerprint\":"@ + quoted_hex(preparation_fingerprint) + ",\"prior_fragment_charge\":"@
        + decimal(prior_fragment_charge as nat) + "}"@
}

fn push_caption_input(output: &mut String, c: &StagingFigureCaptionBlockInput)
    ensures
        final(output)@ == old(output)@ + encoded_caption_input(*c),
{
    output.append("{\"block_size\":");
    push_i64(output, c.block_size);
    output.append(",\"owner\":");
    push_u64(output, c.owner.get() as u64);
    output.append("}");
    assert(output@ =~= old(output)@ + encoded_caption_input(*c));
}

fn push_keep_input(output: &mut String, k: &StagingAtomicVectorKeepSuccessorInput)
    ensures
        final(output)@ == old(output)@ + encoded_keep_input(*k),
{
    output.append("{\"owner\":");
    push_u64(output, k.owner().get() as u64);
    output.append(",\"required_extent_after_vector\":");
    push_i64(output, k.required_extent_after_vector());
    output.append(",\"successor_owner\":");
    push_u64(output, k.successor_owner().get() as u64);
    output.append("}");
    assert(output@ =~= old(output)@ + encoded_keep_input(*k));
}

fn encode_pagination_input(
    initial_consumed_block_size: i64,
    prior_fragment_charge: u64,
    captions: &Vec<StagingFigureCaptionBlockInput>,
    keep_successors: &Vec<StagingAtomicVectorKeepSuccessorInput>,
    preparation_fingerprint: &[u8; 32],
) -> (text: String)
    ensures
        text@ == encoded_pagination_input(
            initial_consumed_block_size,
            prior_fragment_charge,
            captions@,
            keep_successors@,
            preparation_fingerprint@,
        ),
{
    let mut output = String::new();
    output.append("{\"captions\":[");
    let ghost head = output@;
    let ghost cenc = caption_input_encoder();
    let mut i: usize = 0;
    assert(captions@.take(0) =~= Seq::<StagingFigureCaptionBlockInput>::empty());
    while i < captions.len()
        invariant
            0 <= i <= captions@.len(),
            cenc == caption_input_encoder(),
            output@ == head + joined(captions@.take(i as int), cenc),
        decreases captions.len() - i,
    {
        proof {
            lemma_joined_step(captions@, cenc, i as int);
        }
        if i > 0 {
            push_char(&mut output, ',');
        }
        push_caption_input(&mut output, &captions[i]);
        assert(cenc(captions@[i as int]) == encoded_caption_input(captions@[i as int]));
        assert(output@ =~= head + joined(captions@.take(i as int + 1), cenc));
        i = i + 1;
    }
    assert(captions@.take(captions@.len() as int) =~= captions@);
    output.append("],\"initial_consumed_block_size\":");
    push_i64(&mut output, initial_consumed_block_size);
    output.append(",\"keep_successors\":[");
    let ghost middle = output@;
    let ghost kenc = keep_input_encoder();
    let mut j: usize = 0;
    assert(keep_successors@.take(0) =~= Seq::<StagingAtomicVectorKeepSuccessorInput>::empty());
    while j < keep_successors.len()
        invariant
            0 <= j <= keep_successors@.len(),
            kenc == keep_input_encoder(),
            output@ == middle + joined(keep_successors@.take(j as int), kenc),
        decreases keep_successors.len() - j,
    {
        proof {
            lemma_joined_step(keep_successors@, kenc, j as int);
        }
        if j > 0 {
            push_char(&mut output, ',');
        }
        push_keep_input(&mut output, &keep_successors[j]);
        assert(kenc(keep_successors@[j as int]) == encoded_keep_input(keep_successors@[j as int]));
        assert(output@ =~= middle + joined(keep_successors@.take(j as int + 1), kenc));
        j = j + 1;
    }
    assert(keep_successors@.take(keep_successors@.len() as int) =~= keep_successors@);
    output.append("],\"preparation_fingerprint\":");
    push_hash(&mut output, preparation_fingerprint);
    output.append(",\"prior_fragment_charge\":");
    push_u64(&mut output, prior_fragment_charge);
    output.append("}");
    assert(output@ =~= encoded_pagination_input(
        initial_consumed_block_size,
        prior_fragment_charge,
        captions@,
        keep_successors@,
        preparation_fingerprint@,
    ));
    output
}

/// The pagination input of an atomic vector block layout: the content
/// already on the first page, the fragments charged before, the Figure
/// caption measurements and external keep successor extents (each ordered
/// by owner), bound to the layout's receipt by fingerprint.
#[derive(Clone, Debug, PartialEq, Eq)]
pub struct StagingAtomicVectorBlockPaginationInput {
    initial_consumed_block_size: i64,
    prior_fragment_charge: u64,
    captions: Vec<StagingFigureCaptionBlockInput>,
    keep_successors: Vec<StagingAtomicVectorKeepSuccessorInput>,
    preparation_fingerprint: [u8; 32],
    canonical_jcs: String,
    fingerprint: [u8; 32],
}

impl StagingAtomicVectorBlockPaginationInput {
    pub closed spec fn spec_initial_consumed_block_size(&self) -> i64 {
        self.initial_consumed_block_size
    }

    pub closed spec fn spec_prior_fragment_charge(&self) -> u64 {
        self.prior_fragment_charge
    }

    pub closed spec fn spec_captions(&self) -> Seq<StagingFigureCaptionBlockInput> {
        self.captions@
    }

    pub closed spec fn spec_keep_successors(&self) -> Seq<StagingAtomicVectorKeepSuccessorInput> {
        self.keep_successors@
    }

    pub closed spec fn spec_preparation_fingerprint(&self) -> Seq<u8> {
        self.preparation_fingerprint@
    }

    pub closed spec fn spec_canonical_jcs(&self) -> Seq<char> {
        self.canonical_jcs@
    }

    pub closed spec fn spec_fingerprint(&self) -> Seq<u8> {
        self.fingerprint@
    }

    /// This input is the one built from `layout` and the given values: the
    /// captions and keep successors ordered by owner, bound to the layout's
    /// fingerprint, with their canonical JSON and its fingerprint.
    pub open spec fn built_from(
        &self,
        layout: StagingPrecomposedVectorBlockLayout,
        initial_consumed_block_size: i64,
        prior_fragment_charge: u64,
        captions: Seq<StagingFigureCaptionBlockInput>,
        keep_successors: Seq<StagingAtomicVectorKeepSuccessorInput>,
    ) -> bool {
        &&& self.spec_initial_consumed_block_size() == initial_consumed_block_size
        &&& self.spec_prior_fragment_charge() == prior_fragment_charge
        &&& captions_sorted(self.spec_captions())
        &&& same_elements(self.spec_captions(), captions)
        &&& keeps_sorted(self.spec_keep_successors())
        &&& same_elements(self.spec_keep_successors(), keep_successors)
        &&& self.spec_preparation_fingerprint() == layout.fingerprint@
        &&& self.spec_canonical_jcs() == encoded_pagination_input(
            initial_consumed_block_size,
            prior_fragment_charge,
            self.spec_captions(),
            self.spec_keep_successors(),
            layout.fingerprint@,
        )
        &&& self.spec_fingerprint() == text_fingerprint(self.spec_canonical_jcs())
    }

    /// Bind caption measurements and keep successor extents to `layout`.
    /// The layout must still match its receipt, the initial content must fit
    /// the body, every declared caption must be measured exactly once and no
    /// other, and every block kept with a successor outside the layout must
    /// have exactly one extent for that successor and no other; each refusal
    /// names the owner that these checks, in this order, find first.
    pub fn new(
        layout: &StagingPrecomposedVectorBlockLayout,
        initial_consumed_block_size: i64,
        prior_fragment_charge: u64,
        captions: Vec<StagingFigureCaptionBlockInput>,
        keep_successors: Vec<StagingAtomicVectorKeepSuccessorInput>,
    ) -> (r: Result<Self, StagingAtomicVectorBlockLayoutError>)
        ensures
            r is Err <==> pagination_input_refusal(*layout, initial_consumed_block_size, captions@, keep_successors@) is Some,
            r matches Err(e) ==> pagination_input_refusal(
                *layout,
                initial_consumed_block_size,
                captions@,
                keep_successors@,
            ) == Some(e),
            r matches Ok(input) ==> input.built_from(
                *layout,
                initial_consumed_block_size,
                prior_fragment_charge,
                captions@,
                keep_successors@,
            ),
    {
        if !layout.integrity_matches {
            return Err(StagingAtomicVectorBlockLayoutError::LayoutMismatch);
        }
        if initial_consumed_block_size > layout.body_height {
            return Err(StagingAtomicVectorBlockLayoutError::InitialContentExceedsFrame);
        }
        match find_caption_dup(&captions) {
            Some(n) => {
                proof {
                    let m = choose|m: NodeId| least_caption_dup(captions@, m.spec_get());
                    assert(least_caption_dup(captions@, m.spec_get()));
                    NodeId::lemma_same_node(n, m);
                }
                return Err(StagingAtomicVectorBlockLayoutError::DuplicateCaption(n));
            },
            None => {},
        }
        match count_declared_captions(layout) {
            Some(_) => {},
            None => return Err(StagingAtomicVectorBlockLayoutError::AllocationFailure),
        }
        match find_caption_missing(layout, &captions) {
            Some(n) => {
                proof {
                    let m = choose|m: NodeId| least_caption_missing(*layout, captions@, m.spec_get());
                    assert(least_caption_missing(*layout, captions@, m.spec_get()));
                    NodeId::lemma_same_node(n, m);
                }
                return Err(StagingAtomicVectorBlockLayoutError::MissingCaption(n));
            },
            None => {},
        }
        match find_caption_extra(layout, &captions) {
            Some(n) => {
                proof {
                    let m = choose|m: NodeId| least_caption_extra(*layout, captions@, m.spec_get());
                    assert(least_caption_extra(*layout, captions@, m.spec_get()));
                    NodeId::lemma_same_node(n, m);
                }
                return Err(StagingAtomicVectorBlockLayoutError::ExtraCaption(n));
            },
            None => {},
        }
        match find_keep_dup(&keep_successors) {
            Some(n) => {
                proof {
                    let m = choose|m: NodeId| least_keep_dup(keep_successors@, m.spec_get());
                    assert(least_keep_dup(keep_successors@, m.spec_get()));
                    NodeId::lemma_same_node(n, m);
                }
                return Err(StagingAtomicVectorBlockLayoutError::DuplicateKeepSuccessor(n));
            },
            None => {},
        }
        match find_keep_failure(layout, &keep_successors) {
            Some((missing, n)) => {
                proof {
                    let m = choose|m: NodeId| m.spec_get() == n.spec_get();
                    assert(m.spec_get() == n.spec_get());
                    NodeId::lemma_same_node(n, m);
                }
                if missing {
                    return Err(StagingAtomicVectorBlockLayoutError::MissingKeepSuccessor(n));
                } else {
                    return Err(StagingAtomicVectorBlockLayoutError::WrongKeepSuccessor(n));
                }
            },
            None => {},
        }
        match find_keep_extra(layout, &keep_successors) {
            Some(n) => {
                proof {
                    let m = choose|m: NodeId| least_keep_extra(*layout, keep_successors@, m.spec_get());
                    assert(least_keep_extra(*layout, keep_successors@, m.spec_get()));
                    NodeId::lemma_same_node(n, m);
                }
                return Err(StagingAtomicVectorBlockLayoutError::ExtraKeepSuccessor(n));
            },
            None => {},
        }
        let sorted_captions = sort_captions(&captions);
        let sorted_keeps = sort_keeps(&keep_successors);
        let canonical_jcs = encode_pagination_input(
            initial_consumed_block_size,
            prior_fragment_charge,
            &sorted_captions,
            &sorted_keeps,
            &layout.fingerprint,
        );
        let fingerprint = fingerprint_text(&canonical_jcs);
        Ok(
            StagingAtomicVectorBlockPaginationInput {
                initial_consumed_block_size,
                prior_fragment_charge,
                captions: sorted_captions,
                keep_successors: sorted_keeps,
                preparation_fingerprint: layout.fingerprint,
                canonical_jcs,
                fingerprint,
            },
        )
    }

    pub fn initial_consumed_block_size(&self) -> (v: i64)
        ensures
            v == self.spec_initial_consumed_block_size(),
    {
        self.initial_consumed_block_size
    }

    pub fn prior_fragment_charge(&self) -> (v: u64)
        ensures
            v == self.spec_prior_fragment_charge(),
    {
        self.prior_fragment_charge
    }

    pub fn captions(&self) -> (v: &[StagingFigureCaptionBlockInput])
        ensures
            v@ == self.spec_captions(),
    {
        self.captions.as_slice()
    }

    pub fn keep_successors(&self) -> (v: &[StagingAtomicVectorKeepSuccessorInput])
        ensures
            v@ == self.spec_keep_successors(),
    {
        self.keep_successors.as_slice()
    }

    pub fn preparation_fingerprint(&self) -> (v: [u8; 32])
        ensures
            v@ == self.spec_preparation_fingerprint(),
    {
        self.preparation_fingerprint
    }

    pub fn canonical_jcs(&self) -> (v: &str)
        ensures
            v@ == self.spec_canonical_jcs(),
    {
        self.canonical_jcs.as_str()
    }

    pub fn fingerprint(&self) -> (v: [u8; 32])
        ensures
            v@ == self.spec_fingerprint(),
    {
        self.fingerprint
    }
}

/// Two owner-sorted arrangements of the same captions are the same.
proof fn lemma_sorted_captions_unique(x: Seq<StagingFigureCaptionBlockInput>, y: Seq<StagingFigureCaptionBlockInput>)
    requires
        captions_sorted(x),
        captions_sorted(y),
        x.len() == y.len(),
        forall|i: int| 0 <= i < x.len() ==> y.contains(#[trigger] x[i]),
        forall|i: int| 0 <= i < y.len() ==> x.contains(#[trigger] y[i]),
    ensures
        x == y,
{
    assert forall|k: int| 0 <= k < x.len() implies x[k] == y[k] by {
        lemma_sorted_rank(x, y, k);
        lemma_sorted_rank(y, x, k);
    }
    assert(x =~= y);
}

/// In two owner-sorted arrangements of the same captions, the element at
/// position `k` of the first has an owner no greater than the one at `k` in
/// the second, and equal owners mean equal elements.
proof fn lemma_sorted_rank(x: Seq<StagingFigureCaptionBlockInput>, y: Seq<StagingFigureCaptionBlockInput>, k: int)
    requires
        captions_sorted(x),
        captions_sorted(y),
        x.len() == y.len(),
        forall|i: int| 0 <= i < x.len() ==> y.contains(#[trigger] x[i]),
        forall|i: int| 0 <= i < y.len() ==> x.contains(#[trigger] y[i]),
        0 <= k < x.len(),
    ensures
        x[k].owner.spec_get() <= y[k].owner.spec_get(),
        x[k].owner.spec_get() == y[k].owner.spec_get() ==> x[k] == y[k],
{
    if x[k].owner.spec_get() > y[k].owner.spec_get() {
        // y[0..=k] all have owners below x[k], so they lie among x[0..k]:
        // k + 1 elements in k places.
        let f = |t: int| choose|u: int| 0 <= u < x.len() && x[u] == y[t];
        assert forall|t: int| 0 <= t < k + 1 implies 0 <= #[trigger] f(t) < k by {
            assert(x.contains(y[t]));
            let u = f(t);
            assert(0 <= u < x.len() && x[u] == y[t]);
            if t < k {
                assert(y[t].owner.spec_get() < y[k].owner.spec_get());
            }
            if u >= k {
                if u > k {
                    assert(x[u].owner.spec_get() > x[k].owner.spec_get());
                }
            }
        }
        lemma_pigeonhole(f, k + 1, k);
        let (a, b) = choose|a: int, b: int| 0 <= a < b < k + 1 && #[trigger] f(a) == #[trigger] f(b);
        assert(x.contains(y[a]) && x.contains(y[b]));
        assert(y[a] == x[f(a)] && y[b] == x[f(b)]);
        assert(y[a].owner.spec_get() < y[b].owner.spec_get());
    }
    if x[k].owner.spec_get() == y[k].owner.spec_get() {
        assert(y.contains(x[k]));
        let j = choose|j: int| 0 <= j < y.len() && y[j] == x[k];
        if j != k {
            if j < k {
                assert(y[j].owner.spec_get() < y[k].owner.spec_get());
            } else {
                assert(y[j].owner.spec_get() > y[k].owner.spec_get());
            }
        }
    }
}

/// Two owner-sorted arrangements of the same keep successor inputs are the same.
proof fn lemma_sorted_keeps_unique(x: Seq<StagingAtomicVectorKeepSuccessorInput>, y: Seq<StagingAtomicVectorKeepSuccessorInput>)
    requires
        keeps_sorted(x),
        keeps_sorted(y),
        x.len() == y.len(),
        forall|i: int| 0 <= i < x.len() ==> y.contains(#[trigger] x[i]),
        forall|i: int| 0 <= i < y.len() ==> x.contains(#[trigger] y[i]),
    ensures
        x == y,
{
    assert forall|k: int| 0 <= k < x.len() implies x[k] == y[k] by {
        lemma_sorted_keep_rank(x, y, k);
        lemma_sorted_keep_rank(y, x, k);
    }
    assert(x =~= y);
}

/// In two owner-sorted arrangements of the same keep successor inputs, the element at
/// position `k` of the first has an owner no greater than the one at `k` in
/// the second, and equal owners mean equal elements.
proof fn lemma_sorted_keep_rank(x: Seq<StagingAtomicVectorKeepSuccessorInput>, y: Seq<StagingAtomicVectorKeepSuccessorInput>, k: int)
    requires
        keeps_sorted(x),
        keeps_sorted(y),
        x.len() == y.len(),
        forall|i: int| 0 <= i < x.len() ==> y.contains(#[trigger] x[i]),
        forall|i: int| 0 <= i < y.len() ==> x.contains(#[trigger] y[i]),
        0 <= k < x.len(),
    ensures
        x[k].spec_owner().spec_get() <= y[k].spec_owner().spec_get(),
        x[k].spec_owner().spec_get() == y[k].spec_owner().spec_get() ==> x[k] == y[k],
{
    if x[k].spec_owner().spec_get() > y[k].spec_owner().spec_get() {
        // y[0..=k] all have owners below x[k], so they lie among x[0..k]:
        // k + 1 elements in k places.
        let f = |t: int| choose|u: int| 0 <= u < x.len() && x[u] == y[t];
        assert forall|t: int| 0 <= t < k + 1 implies 0 <= #[trigger] f(t) < k by {
            assert(x.contains(y[t]));
            let u = f(t);
            assert(0 <= u < x.len() && x[u] == y[t]);
            if t < k {
                assert(y[t].spec_owner().spec_get() < y[k].spec_owner().spec_get());
            }
            if u >= k {
                if u > k {
                    assert(x[u].spec_owner().spec_get() > x[k].spec_owner().spec_get());
                }
            }
        }
        lemma_pigeonhole(f, k + 1, k);
        let (a, b) = choose|a: int, b: int| 0 <= a < b < k + 1 && #[trigger] f(a) == #[trigger] f(b);
        assert(x.contains(y[a]) && x.contains(y[b]));
        assert(y[a] == x[f(a)] && y[b] == x[f(b)]);
        assert(y[a].spec_owner().spec_get() < y[b].spec_owner().spec_get());
    }
    if x[k].spec_owner().spec_get() == y[k].spec_owner().spec_get() {
        assert(y.contains(x[k]));
        let j = choose|j: int| 0 <= j < y.len() && y[j] == x[k];
        if j != k {
            if j < k {
                assert(y[j].spec_owner().spec_get() < y[k].spec_owner().spec_get());
            } else {
                assert(y[j].spec_owner().spec_get() > y[k].spec_owner().spec_get());
            }
        }
    }
}

/// `n` points mapped into `m < n` slots: two of them share a slot.
proof fn lemma_pigeonhole(f: spec_fn(int) -> int, n: int, m: int)
    requires
        0 <= m < n,
        forall|t: int| 0 <= t < n ==> 0 <= #[trigger] f(t) < m,
    ensures
        exists|a: int, b: int| 0 <= a < b < n && #[trigger] f(a) == #[trigger] f(b),
    decreases m,
{
    if m == 0 {
        assert(0 <= f(0) < m);
    } else if exists|a: int, b: int| 0 <= a < b < n && #[trigger] f(a) == #[trigger] f(b) {
    } else if exists|t: int| 0 <= t < n && #[trigger] f(t) == m - 1 {
        let w = choose|t: int| 0 <= t < n && #[trigger] f(t) == m - 1;
        let g = |t: int| if t < w { f(t) } else { f(t + 1) };
        assert forall|t: int| 0 <= t < n - 1 implies 0 <= #[trigger] g(t) < m - 1 by {
            if t < w {
                assert(f(t) != f(w));
            } else {
                assert(f(t + 1) != f(w));
            }
        }
        lemma_pigeonhole(g, n - 1, m - 1);
        let (a, b) = choose|a: int, b: int| 0 <= a < b < n - 1 && #[trigger] g(a) == #[trigger] g(b);
        if a < w && b < w {
            assert(f(a) == f(b));
        } else if a < w {
            assert(f(a) == f(b + 1));
        } else {
            assert(f(a + 1) == f(b + 1));
        }
    } else {
        assert forall|t: int| 0 <= t < n - 1 implies 0 <= #[trigger] f(t) < m - 1 by {
            assert(f(t) != m - 1);
        }
        lemma_pigeonhole(f, n - 1, m - 1);
    }
}

/// The canonical pagination input does not depend on the order in which
/// the caption measurements and keep successor extents are supplied: two
/// inputs built for the same layout and values from the same captions and
/// the same keep successors, each given in any order, are the same, with the
/// same canonical JSON and fingerprint.
pub proof fn lemma_pagination_input_order_free(
    layout: StagingPrecomposedVectorBlockLayout,
    initial_consumed_block_size: i64,
    prior_fragment_charge: u64,
    captions_a: Seq<StagingFigureCaptionBlockInput>,
    captions_b: Seq<StagingFigureCaptionBlockInput>,
    keeps_a: Seq<StagingAtomicVectorKeepSuccessorInput>,
    keeps_b: Seq<StagingAtomicVectorKeepSuccessorInput>,
    a: StagingAtomicVectorBlockPaginationInput,
    b: StagingAtomicVectorBlockPaginationInput,
)
    requires
        same_elements(captions_a, captions_b),
        same_elements(keeps_a, keeps_b),
        a.built_from(layout, initial_consumed_block_size, prior_fragment_charge, captions_a, keeps_a),
        b.built_from(layout, initial_consumed_block_size, prior_fragment_charge, captions_b, keeps_b),
    ensures
        a.spec_captions() == b.spec_captions(),
        a.spec_keep_successors() == b.spec_keep_successors(),
        a.spec_canonical_jcs() == b.spec_canonical_jcs(),
        a.spec_fingerprint() == b.spec_fingerprint(),
{
    let (xa, xb) = (a.spec_captions(), b.spec_captions());
    assert forall|i: int| 0 <= i < xa.len() implies xb.contains(#[trigger] xa[i]) by {
        assert(captions_a.contains(xa[i]));
        let t = choose|t: int| 0 <= t < captions_a.len() && captions_a[t] == xa[i];
        assert(captions_b.contains(captions_a[t]));
        let u = choose|u: int| 0 <= u < captions_b.len() && captions_b[u] == captions_a[t];
        assert(xb.contains(captions_b[u]));
    }
    assert forall|i: int| 0 <= i < xb.len() implies xa.contains(#[trigger] xb[i]) by {
        assert(captions_b.contains(xb[i]));
        let t = choose|t: int| 0 <= t < captions_b.len() && captions_b[t] == xb[i];
        assert(captions_a.contains(captions_b[t]));
        let u = choose|u: int| 0 <= u < captions_a.len() && captions_a[u] == captions_b[t];
        assert(xa.contains(captions_a[u]));
    }
    lemma_sorted_captions_unique(xa, xb);
    let (ya, yb) = (a.spec_keep_successors(), b.spec_keep_successors());
    assert forall|i: int| 0 <= i < ya.len() implies yb.contains(#[trigger] ya[i]) by {
        assert(keeps_a.contains(ya[i]));
        let t = choose|t: int| 0 <= t < keeps_a.len() && keeps_a[t] == ya[i];
        assert(keeps_b.contains(keeps_a[t]));
        let u = choose|u: int| 0 <= u < keeps_b.len() && keeps_b[u] == keeps_a[t];
        assert(yb.contains(keeps_b[u]));
    }
    assert forall|i: int| 0 <= i < yb.len() implies ya.contains(#[trigger] yb[i]) by {
        assert(keeps_b.contains(yb[i]));
        let t = choose|t: int| 0 <= t < keeps_b.len() && keeps_b[t] == yb[i];
        assert(keeps_a.contains(keeps_b[t]));
        let u = choose|u: int| 0 <= u < keeps_a.len() && keeps_a[u] == keeps_b[t];
        assert(ya.contains(keeps_a[u]));
    }
    lemma_sorted_keeps_unique(ya, yb);
}

} // verus!
