use vstd::prelude::*;

verus! {

/// The sum of a sequence of sizes.
pub open spec fn total(sizes: Seq<nat>) -> nat
    decreases sizes.len(),
{
    if sizes.len() == 0 {
        0
    } else {
        total(sizes.drop_last()) + sizes.last()
    }
}

/// The smaller of two sizes.
pub open spec fn min_nat(a: nat, b: nat) -> nat {
    if a <= b {
        a
    } else {
        b
    }
}

/// The sizes of the blocks that cut an input of `len` items, when the blocks are
/// requested with the sizes `requests`, in order: each block takes its request, or
/// all that is left of the input when less than the request is left.
pub open spec fn plan(len: nat, requests: Seq<nat>) -> Seq<nat>
    decreases requests.len(),
{
    if requests.len() == 0 {
        Seq::empty()
    } else {
        let before = plan(len, requests.drop_last());
        before.push(min_nat((len - total(before)) as nat, requests.last()))
    }
}

/// What a block schedule has done: the length of its input and the sizes requested so far.
pub struct BlockScheduleView {
    pub len: nat,
    pub requests: Seq<nat>,
}

impl BlockScheduleView {
    /// The sizes of the blocks cut so far.
    pub open spec fn blocks(self) -> Seq<nat> {
        plan(self.len, self.requests)
    }

    /// The number of items handed out in blocks so far.
    pub open spec fn processed(self) -> nat {
        total(self.blocks())
    }

    /// The number of items not handed out yet.
    pub open spec fn remaining(self) -> int {
        self.len - self.processed()
    }
}

/// Law: the blocks of a plan add up to the requested total, capped by the input's length,
/// and there is one block per request.
pub proof fn lemma_plan_total(len: nat, requests: Seq<nat>)
    ensures
        total(plan(len, requests)) == min_nat(len, total(requests)),
        plan(len, requests).len() == requests.len(),
    decreases requests.len(),
{
    if requests.len() > 0 {
        let before = plan(len, requests.drop_last());
        lemma_plan_total(len, requests.drop_last());
        let block = min_nat((len - total(before)) as nat, requests.last());
        assert(before.push(block).drop_last() =~= before);
    }
}

/// Law: each block is at most its request, and it is exactly its request as long as the
/// requests up to and including it fit in the input.
pub proof fn lemma_plan_follows_requests(len: nat, requests: Seq<nat>, i: int)
    requires
        0 <= i < requests.len(),
    ensures
        plan(len, requests)[i] <= requests[i],
        total(requests.take(i + 1)) <= len ==> plan(len, requests)[i] == requests[i],
    decreases requests.len(),
{
    lemma_plan_total(len, requests);
    let before = requests.drop_last();
    lemma_plan_total(len, before);
    if i < requests.len() - 1 {
        lemma_plan_follows_requests(len, before, i);
        assert(before.take(i + 1) =~= requests.take(i + 1));
    } else {
        assert(requests.take(i + 1) =~= requests);
        assert(requests.drop_last() =~= before);
    }
}

/// Cuts an input of known length into consecutive blocks of requested sizes.
pub struct BlockSchedule {
    len: usize,
    remaining: usize,
    requests: Ghost<Seq<nat>>,
}

impl View for BlockSchedule {
    type V = BlockScheduleView;

    closed spec fn view(&self) -> BlockScheduleView {
        BlockScheduleView { len: self.len as nat, requests: self.requests@ }
    }
}

impl BlockSchedule {
    #[verifier::type_invariant]
    spec fn inv(self) -> bool {
        &&& total(plan(self.len as nat, self.requests@)) <= self.len
        &&& self.remaining == self.len - total(plan(self.len as nat, self.requests@))
    }

    /// A schedule over `len` items that has cut no block yet.
    pub fn new(len: usize) -> (s: Self)
        ensures
            s@.len == len,
            s@.requests == Seq::<nat>::empty(),
            s@.remaining() == len,
    {
        BlockSchedule { len, remaining: len, requests: Ghost(Seq::empty()) }
    }

    /// The number of items in the input.
    pub fn len(&self) -> (r: usize)
        ensures
            r == self@.len,
    {
        self.len
    }

    /// The number of items not handed out in a block yet.
    pub fn remaining(&self) -> (r: usize)
        ensures
            r == self@.remaining(),
    {
        proof {
            use_type_invariant(self);
        }
        self.remaining
    }

    /// Cuts the next block, of the requested size or of all that is left if that is less,
    /// and returns its size.
    pub fn take(&mut self, requested: usize) -> (block: usize)
        ensures
            final(self)@.len == old(self)@.len,
            final(self)@.requests == old(self)@.requests.push(requested as nat),
            block == final(self)@.blocks().last(),
            block as int == min_nat(old(self)@.remaining() as nat, requested as nat),
            final(self)@.remaining() == old(self)@.remaining() - block,
            block <= requested && block <= old(self)@.remaining(),
            block == requested || block == old(self)@.remaining(),
    {
        proof {
            use_type_invariant(&*self);
        }
        let block = if self.remaining < requested {
            self.remaining
        } else {
            requested
        };
        let ghost reqs = self.requests@.push(requested as nat);
        proof {
            assert(reqs.drop_last() =~= self.requests@);
            let before = plan(self.len as nat, self.requests@);
            assert(before.push(block as nat).drop_last() =~= before);
        }
        *self = BlockSchedule { len: self.len, remaining: self.remaining - block, requests: Ghost(reqs) };
        block
    }
}

impl BlockSchedule {
    /// Whether another block is cut: items are left and the consumer of the results is not full.
    pub fn goes_on(&self, consumer_full: bool) -> (r: bool)
        ensures
            r == (self@.remaining() > 0 && !consumer_full),
    {
        proof {
            use_type_invariant(self);
        }
        self.remaining > 0 && !consumer_full
    }

    /// Cuts the next block with the next size of a stream of sizes; once the stream has
    /// run out (`None`), the block takes all that is left.
    pub fn take_next(&mut self, size: Option<usize>) -> (block: usize)
        ensures
            final(self)@.len == old(self)@.len,
            final(self)@.requests == old(self)@.requests.push(requested_size(size)),
            block == final(self)@.blocks().last(),
            block as int == min_nat(old(self)@.remaining() as nat, requested_size(size)),
            final(self)@.remaining() == old(self)@.remaining() - block,
            size is None ==> final(self)@.remaining() == 0,
            size is None ==> block as int == old(self)@.remaining(),
            size matches Some(s) ==> block <= s && block <= old(self)@.remaining() && (block == s
                || block == old(self)@.remaining()),
            size matches Some(s) ==> (s <= old(self)@.remaining() ==> block == s),
    {
        proof {
            use_type_invariant(&*self);
        }
        let requested = match size {
            Some(s) => s,
            None => usize::MAX,
        };
        self.take(requested)
    }

    /// Cuts the next block with the requested `size`, unless no item is left or the consumer
    /// of the results is full, in which case no block is cut (`None`).
    pub fn take_scanned(&mut self, size: usize, consumer_full: bool) -> (block: Option<usize>)
        ensures
            (old(self)@.remaining() == 0 || consumer_full) ==> block is None && final(self)@ == old(
                self,
            )@,
            (old(self)@.remaining() > 0 && !consumer_full) ==> {
                &&& final(self)@.len == old(self)@.len
                &&& final(self)@.requests == old(self)@.requests.push(size as nat)
                &&& block == Some(final(self)@.blocks().last() as usize)
                &&& final(self)@.blocks().last() == min_nat(
                    old(self)@.remaining() as nat,
                    size as nat,
                )
                &&& final(self)@.remaining() == old(self)@.remaining() - final(self)@.blocks().last()
                &&& block matches Some(b) && b <= size && b <= old(self)@.remaining() && (b == size
                    || b == old(self)@.remaining())
            },
    {
        proof {
            use_type_invariant(&*self);
        }
        if self.remaining == 0 || consumer_full {
            None
        } else {
            Some(self.take(size))
        }
    }
}

/// Law: the smaller of two sizes is at most each of them and is one of them.
pub proof fn lemma_min_nat(a: nat, b: nat)
    ensures
        min_nat(a, b) <= a,
        min_nat(a, b) <= b,
        min_nat(a, b) == a || min_nat(a, b) == b,
{
}

/// Law: a stream of sizes that yields `s` requests a block of exactly `s` items, and one
/// that has run out requests more items than any input holds.
pub proof fn lemma_requested_size(s: usize, len: usize)
    ensures
        requested_size(Some(s)) == s,
        requested_size(None) >= len,
{
}

/// Law: cutting the next block of a stream that yields `s` from an input with `remaining`
/// items left takes `s` items when that many are left, and all that is left otherwise.
pub proof fn lemma_next_block_of_stream(remaining: nat, s: usize)
    ensures
        s <= remaining ==> min_nat(remaining, requested_size(Some(s))) == s,
        s > remaining ==> min_nat(remaining, requested_size(Some(s))) == remaining,
        min_nat(remaining, requested_size(None)) == (if remaining <= usize::MAX {
            remaining
        } else {
            usize::MAX as nat
        }),
{
}

/// The size that a stream of sizes requests: its next size, or the whole address space
/// once it has run out.
pub open spec fn requested_size(size: Option<usize>) -> nat {
    match size {
        Some(s) => s as nat,
        None => usize::MAX as nat,
    }
}

} // verus!
