use vstd::prelude::*;

verus! {

/// A block of an indexed producer that is split by halving its declared length.
pub struct DownGradedProducer<P> {
    /// The number of items this block declares.
    pub len: usize,
    /// The underlying indexed producer.
    pub indexed_producer: P,
}

/// The length of the left half when a block of `len` items is split.
pub open spec fn left_half(len: nat) -> nat {
    len / 2
}

/// The length of the right half when a block of `len` items is split.
pub open spec fn right_half(len: nat) -> nat {
    (len - len / 2) as nat
}

/// Law: splitting a block of more than one item gives two non-empty halves that add up to
/// the block, each smaller than it, the right one holding at most one item more.
pub proof fn lemma_halves(len: nat)
    requires
        len > 1,
    ensures
        left_half(len) + right_half(len) == len,
        1 <= left_half(len) < len,
        1 <= right_half(len) < len,
        right_half(len) == left_half(len) || right_half(len) == left_half(len) + 1,
{
}

impl<P> DownGradedProducer<P> {
    /// Splits the block into two halves, the left one holding `len / 2` items,
    /// unless it holds at most one item, in which case it is returned whole.
    /// `split_at` cuts the underlying producer at a given index.
    pub fn split<F: FnOnce(P, usize) -> (P, P)>(self, split_at: F) -> (r: (Self, Option<Self>))
        requires
            self.len > 1 ==> call_requires(split_at, (self.indexed_producer, (self.len / 2) as usize)),
        ensures
            self.len <= 1 ==> r.0 == self && r.1 is None,
            self.len > 1 ==> {
                &&& r.0.len == left_half(self.len as nat)
                &&& r.1 matches Some(right) && right.len == right_half(self.len as nat)
                    && call_ensures(
                    split_at,
                    (self.indexed_producer, (self.len / 2) as usize),
                    (r.0.indexed_producer, right.indexed_producer),
                )
            },
    {
        if self.len <= 1 {
            (self, None)
        } else {
            let mid = self.len / 2;
            let (left, right) = split_at(self.indexed_producer, mid);
            (
                DownGradedProducer { len: mid, indexed_producer: left },
                Some(DownGradedProducer { len: self.len - mid, indexed_producer: right }),
            )
        }
    }
}

} // verus!
