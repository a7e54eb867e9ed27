use vstd::prelude::*;

verus! {

/// A consumer that collects the results of an inner consumer's pieces into a list, in order.
pub struct ListConsumer<C> {
    pub consumer: C,
}

impl<C> ListConsumer<C> {
    /// Splits the consumer at `index` by splitting the inner consumer with `split_inner`;
    /// the inner reducer is dropped, as lists are joined by concatenation.
    pub fn split_at<X, S: FnOnce(C, usize) -> (C, C, X)>(self, index: usize, split_inner: S) -> (r: (
        ListConsumer<C>,
        ListConsumer<C>,
        ListReducer,
    ))
        requires
            call_requires(split_inner, (self.consumer, index)),
        ensures
            exists|x: X|
                call_ensures(split_inner, (self.consumer, index), (r.0.consumer, r.1.consumer, x)),
    {
        let ghost inner = self.consumer;
        let parts = split_inner(self.consumer, index);
        proof {
            assert(call_ensures(split_inner, (inner, index), (parts.0, parts.1, parts.2)));
        }
        let (left, right, reducer) = parts;
        let r = (ListConsumer { consumer: left }, ListConsumer { consumer: right }, ListReducer);
        proof {
            assert(call_ensures(split_inner, (inner, index), (r.0.consumer, r.1.consumer, reducer)));
        }
        r
    }

    /// A folder that folds with the folder `into_inner` makes of the inner consumer.
    pub fn into_folder<F, I: FnOnce(C) -> F>(self, into_inner: I) -> (f: ListFolder<F>)
        requires
            call_requires(into_inner, (self.consumer,)),
        ensures
            call_ensures(into_inner, (self.consumer,), f.folder),
    {
        ListFolder { folder: into_inner(self.consumer) }
    }

    /// The reducer that joins the lists of two adjacent pieces.
    pub fn to_reducer(&self) -> (r: ListReducer) {
        ListReducer
    }
}

/// Folds the items of a piece with an inner folder, and completes into a list that holds
/// the inner folder's single result.
pub struct ListFolder<F> {
    pub folder: F,
}

/// Joins the lists of results of two adjacent pieces.
pub struct ListReducer;

impl<F> ListFolder<F> {
    /// Completes the inner folder with `complete_inner` and returns its result as a list of one.
    pub fn complete<R, C: FnOnce(F) -> R>(self, complete_inner: C) -> (r: Vec<R>)
        requires
            call_requires(complete_inner, (self.folder,)),
        ensures
            r@.len() == 1,
            call_ensures(complete_inner, (self.folder,), r@[0]),
    {
        let result = complete_inner(self.folder);
        let mut list = Vec::new();
        list.push(result);
        list
    }
}

impl ListReducer {
    /// The results of the left piece followed by those of the right piece.
    pub fn reduce<R>(self, left: Vec<R>, right: Vec<R>) -> (r: Vec<R>)
        ensures
            r@ == left@ + right@,
    {
        let mut left = left;
        let mut right = right;
        left.append(&mut right);
        left
    }
}

/// Law: joining lists of results is associative, so the order in which adjacent pieces are
/// joined does not change the final list.
pub proof fn lemma_reduce_associative<R>(a: Seq<R>, b: Seq<R>, c: Seq<R>)
    ensures
        (a + b) + c == a + (b + c),
{
    assert((a + b) + c =~= a + (b + c));
}

} // verus!
