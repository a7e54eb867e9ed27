use vstd::prelude::*;
use crate::schedule::min_nat;

verus! {

/// A block that ran in at most this many nanoseconds (5 ms) doubles the size of the next block.
pub const FAST_BLOCK_NANOS: u128 = 5_000_000;

/// The greatest number of blocks into which a deadline schedule cuts its input: every
/// block but the last holds at least twice the initial block size, more than a
/// five-hundredth of the input.
pub const MAX_BLOCKS: usize = 500;

/// The block size a schedule over `len` items starts from.
pub open spec fn initial_block_size(len: nat) -> nat {
    len / 1000 + 1
}

/// The size of the next block, before it is capped by what is left: the block size,
/// doubled for the first block (no block ran before it, `processed == 0`) and after a
/// fast block (one that ran in at most 5 ms), kept after a slow one.
pub open spec fn grown_block_size(block_size: nat, processed: nat, previous_block_nanos: nat) -> nat {
    if processed > 0 && previous_block_nanos > FAST_BLOCK_NANOS {
        block_size
    } else {
        block_size * 2
    }
}

/// Law: the initial block size is the least size of which a thousand blocks hold more
/// than the whole input: a thousand blocks one item smaller would not.
pub proof fn lemma_initial_block_size(len: nat)
    ensures
        initial_block_size(len) >= 1,
        1000 * (initial_block_size(len) - 1) <= len < 1000 * initial_block_size(len),
{
}

/// Law: the first block of a schedule over `len` items holds `2 * (len / 1000 + 1)`
/// items, or the whole input when that is less, whatever time was recorded before it.
pub proof fn lemma_first_block(len: nat, previous_block_nanos: nat)
    ensures
        grown_block_size(initial_block_size(len), 0, previous_block_nanos) == 2 * (len / 1000 + 1),
        min_nat(len, grown_block_size(initial_block_size(len), 0, previous_block_nanos)) == (if len
            <= 2 * (len / 1000 + 1) {
            len
        } else {
            2 * (len / 1000 + 1)
        }),
{
}

/// Law: after the first block, the block size doubles after a block that ran in at most
/// 5 ms and stays after a slower one.
pub proof fn lemma_block_growth(block_size: nat, processed: nat, previous_block_nanos: nat)
    requires
        processed > 0,
    ensures
        previous_block_nanos <= 5_000_000 ==> grown_block_size(
            block_size,
            processed,
            previous_block_nanos,
        ) == 2 * block_size,
        previous_block_nanos > 5_000_000 ==> grown_block_size(
            block_size,
            processed,
            previous_block_nanos,
        ) == block_size,
{
}

/// Whether a block runs in parallel: the first block always does; a later one does when
/// the time measured so far, extrapolated from the `processed` items to all `len` items,
/// exceeds the deadline (all in whole microseconds, the extrapolation rounded down).
pub open spec fn runs_in_parallel(
    len: nat,
    processed: nat,
    elapsed_micros: nat,
    deadline_micros: nat,
) -> bool {
    processed == 0 || elapsed_micros * len / processed > deadline_micros
}

/// The powers of two that a block size can be a multiple of its initial size by.
spec fn is_block_multiplier(m: nat) -> bool {
    m == 1 || m == 2 || m == 4 || m == 8 || m == 16 || m == 32 || m == 64 || m == 128 || m == 256
        || m == 512
}

/// Before a block, the multiplier of the block size has not reached 512, so that
/// doubling the block size stays within `usize`, and fewer than 500 blocks have run.
proof fn lemma_room_before_block(len: nat, processed: nat, m: nat, issued: nat)
    requires
        processed < len,
        len <= usize::MAX,
        is_block_multiplier(m),
        processed >= initial_block_size(len) * (2 * m - 2),
        processed >= 2 * initial_block_size(len) * issued,
    ensures
        m <= 256,
        initial_block_size(len) * (2 * m) <= usize::MAX,
        issued < MAX_BLOCKS,
{
    let c = initial_block_size(len);
    assert(1000 * c > len);
    assert(c * 1022 >= 1000 * c) by (nonlinear_arith)
        requires
            c >= 1,
    ;
    if m == 512 {
        assert(c * (2 * m - 2) == c * 1022);
    }
    assert(512 * c <= usize::MAX);
    assert(c * (2 * m) <= 512 * c) by (nonlinear_arith)
        requires
            m <= 256,
    ;
    assert(issued < 500) by (nonlinear_arith)
        requires
            2 * c * issued < 1000 * c,
            c >= 1,
    ;
}

/// After a block of `size == c * m2` items ran on top of `processed`, the bounds that
/// keep the block size and the number of blocks small still hold.
proof fn lemma_bounds_after_block(c: nat, m: nat, m2: nat, processed: nat, issued: nat)
    requires
        c >= 1,
        m2 == m || m2 == 2 * m,
        m >= 1,
        m2 >= 2,
        processed >= c * (2 * m - 2),
        processed >= 2 * c * issued,
    ensures
        processed + c * m2 >= c * (2 * m2 - 2),
        processed + c * m2 >= 2 * c * (issued + 1),
        c * m2 >= 1,
{
    assert(processed + c * m2 >= c * (2 * m2 - 2)) by (nonlinear_arith)
        requires
            m2 == m || m2 == 2 * m,
            m >= 1,
            processed >= c * (2 * m - 2),
    ;
    assert(processed + c * m2 >= 2 * c * (issued + 1)) by (nonlinear_arith)
        requires
            processed >= 2 * c * issued,
            m2 >= 2,
    ;
    assert(c * m2 >= 1) by (nonlinear_arith)
        requires
            c >= 1,
            m2 >= 1,
    ;
}

/// What a deadline schedule holds.
pub struct DeadlineScheduleView {
    pub len: nat,
    pub deadline_micros: nat,
    pub remaining: nat,
    pub processed: nat,
    pub block_size: nat,
    pub previous_block_nanos: nat,
    pub blocks_issued: nat,
}

/// The next block of a deadline schedule: its size, and whether it runs in parallel.
pub struct DeadlineBlock {
    pub size: usize,
    pub parallel: bool,
}

/// Cuts an input of known length into blocks whose size doubles while blocks run fast,
/// and decides for each block whether it runs in parallel or sequentially, so as to
/// finish the whole input within a deadline.
pub struct DeadlineSchedule {
    len: usize,
    deadline_micros: u128,
    remaining: usize,
    processed: usize,
    block_size: usize,
    previous_block_nanos: u128,
    multiplier: Ghost<nat>,
    blocks_issued: Ghost<nat>,
}

impl View for DeadlineSchedule {
    type V = DeadlineScheduleView;

    closed spec fn view(&self) -> DeadlineScheduleView {
        DeadlineScheduleView {
            len: self.len as nat,
            deadline_micros: self.deadline_micros as nat,
            remaining: self.remaining as nat,
            processed: self.processed as nat,
            block_size: self.block_size as nat,
            previous_block_nanos: self.previous_block_nanos as nat,
            blocks_issued: self.blocks_issued@,
        }
    }
}

impl DeadlineSchedule {
    #[verifier::type_invariant]
    spec fn inv(self) -> bool {
        let c = initial_block_size(self.len as nat);
        let m = self.multiplier@;
        &&& self.processed + self.remaining == self.len
        &&& is_block_multiplier(m)
        &&& self.block_size == c * m
        &&& self.remaining > 0 ==> self.processed >= c * (2 * m - 2)
        &&& self.remaining > 0 ==> self.processed >= 2 * c * self.blocks_issued@
        &&& self.blocks_issued@ == 0 ==> m == 1 && self.processed == 0
        &&& self.blocks_issued@ > 0 ==> m >= 2
        &&& self.blocks_issued@ <= MAX_BLOCKS
    }

    /// A schedule over `len` items that must be done within `deadline_micros`
    /// microseconds; no block has run yet.
    pub fn new(len: usize, deadline_micros: u128) -> (s: Self)
        ensures
            s@ == (DeadlineScheduleView {
                len: len as nat,
                deadline_micros: deadline_micros as nat,
                remaining: len as nat,
                processed: 0,
                block_size: initial_block_size(len as nat),
                previous_block_nanos: 0,
                blocks_issued: 0,
            }),
            s@.block_size == len / 1000 + 1,
            1000 * (s@.block_size - 1) <= len < 1000 * s@.block_size,
    {
        let c = len / 1000 + 1;
        proof {
            assert(c * 1 == c && c * 0 == 0) by (nonlinear_arith);
        }
        let s = DeadlineSchedule {
            len,
            deadline_micros,
            remaining: len,
            processed: 0,
            block_size: c,
            previous_block_nanos: 0,
            multiplier: Ghost(1),
            blocks_issued: Ghost(0),
        };
        s
    }

    /// Whether another block runs: items are left and the consumer of the results is not full.
    pub fn goes_on(&self, consumer_full: bool) -> (r: bool)
        ensures
            r == (self@.remaining > 0 && !consumer_full),
    {
        self.remaining > 0 && !consumer_full
    }

    /// The number of items in the input.
    pub fn len(&self) -> (r: usize)
        ensures
            r == self@.len,
    {
        self.len
    }

    /// The number of items already handed out in blocks.
    pub fn processed(&self) -> (r: usize)
        ensures
            r == self@.processed,
    {
        self.processed
    }

    /// Decides the next block: its size (the block size, doubled for the first block and
    /// after a fast block, capped by what is left) and whether it runs in parallel, given the time in
    /// whole microseconds since the schedule's first block started.
    pub fn next_block(&mut self, elapsed_micros: u128) -> (b: DeadlineBlock)
        requires
            old(self)@.remaining > 0,
            old(self)@.processed > 0 ==> elapsed_micros * old(self)@.len <= u128::MAX,
        ensures
            b.size as nat == min_nat(
                old(self)@.remaining,
                grown_block_size(
                    old(self)@.block_size,
                    old(self)@.processed,
                    old(self)@.previous_block_nanos,
                ),
            ),
            b.size >= 1,
            b.parallel == runs_in_parallel(
                old(self)@.len,
                old(self)@.processed,
                elapsed_micros as nat,
                old(self)@.deadline_micros,
            ),
            final(self)@ == (DeadlineScheduleView {
                remaining: (old(self)@.remaining - b.size) as nat,
                processed: old(self)@.processed + b.size as nat,
                block_size: grown_block_size(
                    old(self)@.block_size,
                    old(self)@.processed,
                    old(self)@.previous_block_nanos,
                ),
                blocks_issued: old(self)@.blocks_issued + 1,
                ..old(self)@
            }),
            final(self)@.blocks_issued <= MAX_BLOCKS,
            final(self)@.processed + final(self)@.remaining == final(self)@.len,
            b.size <= old(self)@.remaining,
            b.size == old(self)@.remaining || b.size == final(self)@.block_size,
            (old(self)@.processed == 0 || old(self)@.previous_block_nanos <= 5_000_000)
                ==> final(self)@.block_size == 2 * old(self)@.block_size,
            (old(self)@.processed > 0 && old(self)@.previous_block_nanos > 5_000_000)
                ==> final(self)@.block_size == old(self)@.block_size,
            old(self)@.processed == 0 ==> b.parallel,
            old(self)@.processed > 0 ==> (b.parallel <==> (elapsed_micros as nat)
                * old(self)@.len / old(self)@.processed > old(self)@.deadline_micros),
    {
        proof {
            use_type_invariant(&*self);
            lemma_room_before_block(
                self.len as nat,
                self.processed as nat,
                self.multiplier@,
                self.blocks_issued@,
            );
        }
        let ghost c = initial_block_size(self.len as nat);
        let ghost m = self.multiplier@;
        let fast = self.processed == 0 || !(self.previous_block_nanos > FAST_BLOCK_NANOS);
        let ghost m2 = if fast { 2 * m } else { m };
        let block_size = if fast {
            proof {
                assert(c * m * 2 == c * (2 * m)) by (nonlinear_arith);
            }
            self.block_size * 2
        } else {
            self.block_size
        };
        let size = if self.remaining < block_size {
            self.remaining
        } else {
            block_size
        };
        let parallel = if self.processed == 0 {
            true
        } else {
            let expected = elapsed_micros * (self.len as u128) / (self.processed as u128);
            expected > self.deadline_micros
        };
        proof {
            lemma_bounds_after_block(c, m, m2, self.processed as nat, self.blocks_issued@);
        }
        *self = DeadlineSchedule {
            remaining: self.remaining - size,
            processed: self.processed + size,
            block_size,
            multiplier: Ghost(m2),
            blocks_issued: Ghost(self.blocks_issued@ + 1),
            ..*self
        };
        DeadlineBlock { size, parallel }
    }

    /// Records how long the block that just ran took, in nanoseconds.
    pub fn record_block_time(&mut self, nanos: u128)
        ensures
            final(self)@ == (DeadlineScheduleView { previous_block_nanos: nanos as nat, ..old(self)@ }),
    {
        proof {
            use_type_invariant(&*self);
        }
        *self = DeadlineSchedule { previous_block_nanos: nanos, ..*self };
    }
}

} // verus!
