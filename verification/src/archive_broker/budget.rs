//! The bytes that requests may hold at one time.
use vstd::prelude::*;

verus! {

/// The sum of two numbers, at most the largest number.
pub open spec fn bounded_sum(left: u64, right: u64) -> u64 {
    if left + right > u64::MAX {
        u64::MAX
    } else {
        (left + right) as u64
    }
}

/// The bytes that are in use, out of a limit.
#[derive(Debug)]
pub struct ByteBudget {
    used: u64,
    limit: u64,
}

/// The part of a budget that a request holds.
#[derive(Debug)]
pub struct BudgetPermit {
    bytes: u64,
}

impl BudgetPermit {
    /// The bytes that the request holds.
    pub closed spec fn held(&self) -> u64 {
        self.bytes
    }
}

impl ByteBudget {
    /// The bytes that are in use.
    pub closed spec fn in_use(&self) -> u64 {
        self.used
    }

    /// The bytes that may be in use.
    pub closed spec fn maximum(&self) -> u64 {
        self.limit
    }

    /// No more is in use than may be.
    pub open spec fn well_formed(&self) -> bool {
        self.in_use() <= self.maximum()
    }

    /// A budget of which nothing is in use.
    pub fn new(limit: u64) -> (budget: Self)
        ensures
            budget.in_use() == 0,
            budget.maximum() == limit,
            budget.well_formed(),
    {
        ByteBudget { used: 0, limit }
    }

    /// Whether some bytes are free now.
    pub fn has_room(&self, bytes: u64) -> (room: bool)
        ensures
            room == (bounded_sum(self.in_use(), bytes) <= self.maximum()),
    {
        self.used.saturating_add(bytes) <= self.limit
    }

    /// Take some bytes, if they are free now.
    ///
    /// # Errors
    ///
    /// Returns an error when they are not: a caller that has waited until its deadline reports it.
    pub fn acquire(&mut self, bytes: u64) -> (result: Result<BudgetPermit, String>)
        requires
            old(self).well_formed(),
        ensures
            final(self).well_formed(),
            final(self).maximum() == old(self).maximum(),
            if bounded_sum(old(self).in_use(), bytes) <= old(self).maximum() {
                result matches Ok(permit) && permit.held() == bytes && final(self).in_use()
                    == bounded_sum(old(self).in_use(), bytes)
            } else {
                result matches Err(error) && error@
                    == "archive broker byte budget deadline expired"@ && final(self).in_use()
                    == old(self).in_use()
            },
    {
        if !self.has_room(bytes) {
            return Err("archive broker byte budget deadline expired".to_owned());
        }
        self.used = self.used.saturating_add(bytes);
        Ok(BudgetPermit { bytes })
    }

    /// Give back what a request held.
    pub fn release(&mut self, permit: BudgetPermit)
        requires
            old(self).well_formed(),
        ensures
            final(self).well_formed(),
            final(self).maximum() == old(self).maximum(),
            final(self).in_use() == if old(self).in_use() >= permit.held() {
                old(self).in_use() - permit.held()
            } else {
                0
            },
    {
        self.used = self.used.saturating_sub(permit.bytes);
    }
}

/// What a request gives back is free again: after it finished, as much is in use as before it came.
pub proof fn lemma_release_restores(before: u64, bytes: u64, maximum: u64)
    requires
        before <= maximum < u64::MAX,
        bounded_sum(before, bytes) <= maximum,
    ensures
        bounded_sum(before, bytes) >= bytes,
        bounded_sum(before, bytes) - bytes == before,
{
}

} // verus!
