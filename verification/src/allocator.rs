//! Surrogate keys, handed out in ascending order and never twice.

use vstd::prelude::*;

verus! {

/// One more than the largest identifier: the count of identifiers that a
/// table can ever hand out.
pub const ID_LIMIT: u64 = 0x1_0000_0000;

/// `next` continues the identifiers `ids`: it is zero where there are none,
/// and else one more than the largest of them.
pub open spec fn continues(ids: Seq<u32>, next: nat) -> bool {
    &&& ids.len() == 0 ==> next == 0
    &&& ids.len() > 0 ==> exists|i: int| 0 <= i < ids.len() && next == ids[i] + 1
    &&& forall|i: int| 0 <= i < ids.len() ==> ids[i] < next
}

/// What continues some identifiers is one more than the largest of them.
pub proof fn lemma_continues_largest(ids: Seq<u32>, next: nat, largest: u32)
    requires
        continues(ids, next),
        exists|i: int| 0 <= i < ids.len() && ids[i] == largest,
        forall|i: int| 0 <= i < ids.len() ==> ids[i] <= largest,
    ensures
        next == largest + 1,
{
    let w = choose|i: int| 0 <= i < ids.len() && ids[i] == largest;
    let v = choose|i: int| 0 <= i < ids.len() && next == ids[i] + 1;
    assert(ids[w] < next);
    assert(ids[v] <= largest);
}

/// The counter of one table.
#[derive(Clone, Copy, Debug)]
pub struct IdAllocator {
    next: u64,
}

impl IdAllocator {
    /// The identifier that the next allocation returns. It equals
    /// [`ID_LIMIT`] once none is left.
    pub closed spec fn next(&self) -> nat {
        self.next as nat
    }

    /// The counter never passes [`ID_LIMIT`].
    pub closed spec fn wf(&self) -> bool {
        self.next <= ID_LIMIT
    }

    /// The counter never passes the limit.
    pub proof fn lemma_wf(&self)
        requires
            self.wf(),
        ensures
            self.next() <= ID_LIMIT,
    {
    }

    /// The allocator of an empty table.
    pub fn new() -> (allocator: Self)
        ensures
            allocator.wf(),
            allocator.next() == 0,
    {
        IdAllocator { next: 0 }
    }

    /// The allocator of a table that already holds the identifiers `ids`.
    pub fn recover(ids: &Vec<u32>) -> (allocator: Self)
        ensures
            allocator.wf(),
            continues(ids@, allocator.next()),
    {
        let mut next: u64 = 0;
        let mut i: usize = 0;
        while i < ids.len()
            invariant
                i <= ids.len(),
                next <= ID_LIMIT,
                continues(ids@.take(i as int), next as nat),
            decreases ids.len() - i,
        {
            let after: u64 = ids[i] as u64 + 1;
            let ghost before = ids@.take(i as int);
            let ghost now = ids@.take(i + 1);
            proof {
                assert(forall|j: int| 0 <= j < i ==> now[j] == before[j]);
                assert(now[i as int] == ids[i as int]);
                if after <= next && i > 0 {
                    let w = choose|w: int| 0 <= w < before.len() && next == before[w] + 1;
                    assert(now[w] == before[w]);
                }
            }
            if after > next {
                next = after;
            }
            i = i + 1;
        }
        proof {
            assert(ids@.take(ids.len() as int) =~= ids@);
        }
        IdAllocator { next }
    }

    /// How many identifiers are left.
    pub fn remaining(&self) -> (left: u64)
        requires
            self.wf(),
        ensures
            left == ID_LIMIT - self.next(),
    {
        ID_LIMIT - self.next
    }

    /// Hands out the next identifier, or `None` once all have been handed
    /// out; the allocator is then left as it was.
    pub fn allocate(&mut self) -> (id: Option<u32>)
        requires
            old(self).wf(),
        ensures
            final(self).wf(),
            match id {
                Some(given) => {
                    &&& given == old(self).next()
                    &&& final(self).next() == old(self).next() + 1
                },
                None => {
                    &&& old(self).next() == ID_LIMIT
                    &&& final(self).next() == old(self).next()
                },
            },
    {
        if self.next < ID_LIMIT {
            let given: u32 = self.next as u32;
            self.next = self.next + 1;
            Some(given)
        } else {
            None
        }
    }
}

} // verus!
