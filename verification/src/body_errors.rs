//! Node identities and the typed refusals of body pagination.
use vstd::prelude::*;

verus! {

/// Identity of a document node.
#[derive(Clone, Copy, Debug, PartialEq, Eq, Structural, Hash)]
pub struct NodeId {
    value: u32,
}

impl NodeId {
    pub closed spec fn spec_get(self) -> u32 {
        self.value
    }

    pub fn new(value: u32) -> (id: Self)
        ensures
            id.spec_get() == value,
    {
        NodeId { value }
    }

    pub fn get(self) -> (value: u32)
        ensures
            value == self.spec_get(),
    {
        self.value
    }

    /// A node identity is its number.
    pub proof fn lemma_same_node(a: NodeId, b: NodeId)
        requires
            a.spec_get() == b.spec_get(),
        ensures
            a == b,
    {
    }
}

/// Reason of a body pagination refusal.
#[derive(Clone, Copy, Debug, PartialEq, Eq, Structural)]
pub enum ProductionBodyPaginationErrorKind {
    ReceiptMismatch,
    FootnoteSearchLimit,
    FragmentLimit,
    ArithmeticOverflow,
    AllocationFailure,
}

/// A refusal attributed to a node.
#[derive(Clone, Copy, Debug, PartialEq, Eq, Structural)]
pub struct ProductionBodyPaginationError {
    pub node: NodeId,
    pub kind: ProductionBodyPaginationErrorKind,
}

pub fn error(node: NodeId, kind: ProductionBodyPaginationErrorKind) -> (e: ProductionBodyPaginationError)
    ensures
        e == (ProductionBodyPaginationError { node, kind }),
{
    ProductionBodyPaginationError { node, kind }
}

/// A work budget: every charged step counts, and a step beyond the limit is
/// refused as a search limit.
pub struct StepBudget {
    pub used: u64,
    pub limit: u64,
}

impl StepBudget {
    pub fn new(limit: u64) -> (budget: Self)
        ensures
            budget.used == 0,
            budget.limit == limit,
    {
        StepBudget { used: 0, limit }
    }

    /// Charge one step.
    pub fn step(&mut self, owner: NodeId) -> (r: Result<(), ProductionBodyPaginationError>)
        ensures
            final(self).limit == old(self).limit,
            old(self).used < old(self).limit ==> r is Ok && final(self).used == old(self).used + 1,
            old(self).used >= old(self).limit ==> r == Err::<(), ProductionBodyPaginationError>(
                ProductionBodyPaginationError {
                    node: owner,
                    kind: ProductionBodyPaginationErrorKind::FootnoteSearchLimit,
                },
            ),
    {
        if self.used >= self.limit {
            return Err(error(owner, ProductionBodyPaginationErrorKind::FootnoteSearchLimit));
        }
        self.used = self.used + 1;
        Ok(())
    }
}

} // verus!
