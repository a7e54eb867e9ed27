use vstd::prelude::*;

verus! {

/// One step from a consumer to a piece of it: the left or the right piece of `split_at`,
/// or the piece made by `split_off_left`.
pub enum SplitStep {
    KeepLeft,
    KeepRight,
    SplitOffLeft,
}

/// Whether the piece reached by one step from a piece is the rightmost one: only the right
/// piece of a split is, and only when its parent was.
pub open spec fn step_rightmost(parent_rightmost: bool, step: SplitStep) -> bool {
    match step {
        SplitStep::KeepRight => parent_rightmost,
        SplitStep::KeepLeft => false,
        SplitStep::SplitOffLeft => false,
    }
}

/// Whether the piece reached from a piece by a sequence of steps is the rightmost one.
pub open spec fn rightmost_after(rightmost: bool, steps: Seq<SplitStep>) -> bool
    decreases steps.len(),
{
    if steps.len() == 0 {
        rightmost
    } else {
        step_rightmost(rightmost_after(rightmost, steps.drop_last()), steps.last())
    }
}

/// Law: after any sequence of `split_at` and `split_off_left` steps, a piece is the
/// rightmost one exactly when the consumer it came from was and every step kept the right
/// piece of a split.
pub proof fn lemma_rightmost_after(rightmost: bool, steps: Seq<SplitStep>)
    ensures
        rightmost_after(rightmost, steps) == (rightmost && forall|i: int|
            0 <= i < steps.len() ==> #[trigger] steps[i] == SplitStep::KeepRight),
    decreases steps.len(),
{
    if steps.len() > 0 {
        let before = steps.drop_last();
        lemma_rightmost_after(rightmost, before);
        assert(forall|i: int| 0 <= i < before.len() ==> before[i] == steps[i]);
    }
}

/// Law: of all the pieces reached from one consumer by the same number of steps, at most
/// one is the rightmost one, so at most one piece of a split tree reduces with the
/// rightmost reduction.
pub proof fn lemma_one_rightmost_piece(rightmost: bool, a: Seq<SplitStep>, b: Seq<SplitStep>)
    requires
        a.len() == b.len(),
        rightmost_after(rightmost, a),
        rightmost_after(rightmost, b),
    ensures
        a == b,
{
    lemma_rightmost_after(rightmost, a);
    lemma_rightmost_after(rightmost, b);
    assert forall|i: int| 0 <= i < a.len() implies a[i] == b[i] by {
        assert(a[i] == SplitStep::KeepRight);
        assert(b[i] == SplitStep::KeepRight);
    }
    assert(a =~= b);
}

/// `states` are the successive states of folding `items` from `init` with `reduce`:
/// `states[0]` is `init` and each next state is a possible outcome of `reduce` applied to
/// the previous state and the next item.
pub open spec fn is_fold_trace<Item, R: Fn(Item, Item) -> Item>(
    reduce: R,
    init: Item,
    items: Seq<Item>,
    states: Seq<Item>,
) -> bool {
    &&& states.len() == items.len() + 1
    &&& states[0] == init
    &&& forall|i: int|
        0 <= i < items.len() ==> call_ensures(reduce, (states[i], items[i]), #[trigger] states[i + 1])
}

/// `result` is a possible outcome of the left fold of `items` from `init` with `reduce`,
/// `reduce(...reduce(reduce(init, items[0]), items[1])..., items[n-1])`, which is just `init`
/// when there is no item.
pub open spec fn is_left_fold<Item, R: Fn(Item, Item) -> Item>(
    reduce: R,
    init: Item,
    items: Seq<Item>,
    result: Item,
) -> bool {
    exists|states: Seq<Item>| #[trigger]
        is_fold_trace(reduce, init, items, states) && states.last() == result
}

/// Law: the left fold of no item is the starting value.
pub proof fn lemma_left_fold_empty<Item, R: Fn(Item, Item) -> Item>(
    reduce: R,
    init: Item,
    result: Item,
)
    ensures
        is_left_fold(reduce, init, Seq::empty(), result) <==> result == init,
{
    if result == init {
        let states = seq![init];
        assert(is_fold_trace(reduce, init, Seq::empty(), states));
    }
}

/// Law: folding one more item reduces the fold of the items before it with that item.
pub proof fn lemma_left_fold_push<Item, R: Fn(Item, Item) -> Item>(
    reduce: R,
    init: Item,
    items: Seq<Item>,
    item: Item,
    result: Item,
)
    ensures
        is_left_fold(reduce, init, items.push(item), result) <==> exists|mid: Item|
            #[trigger] is_left_fold(reduce, init, items, mid) && call_ensures(
                reduce,
                (mid, item),
                result,
            ),
{
    let n = items.len() as int;
    let longer = items.push(item);
    if is_left_fold(reduce, init, longer, result) {
        let states = choose|states: Seq<Item>|
            #[trigger] is_fold_trace(reduce, init, longer, states) && states.last() == result;
        let shorter = states.drop_last();
        assert forall|i: int| 0 <= i < items.len() implies call_ensures(
            reduce,
            (shorter[i], items[i]),
            #[trigger] shorter[i + 1],
        ) by {
            assert(longer[i] == items[i]);
            assert(call_ensures(reduce, (states[i], longer[i]), states[i + 1]));
        }
        assert(is_fold_trace(reduce, init, items, shorter));
        assert(call_ensures(reduce, (states[n], longer[n]), states[n + 1]));
        assert(is_left_fold(reduce, init, items, states[n]));
    }
    if exists|mid: Item|
        #[trigger] is_left_fold(reduce, init, items, mid) && call_ensures(reduce, (mid, item), result) {
        let mid = choose|mid: Item|
            #[trigger] is_left_fold(reduce, init, items, mid) && call_ensures(reduce, (mid, item), result);
        let states = choose|states: Seq<Item>|
            #[trigger] is_fold_trace(reduce, init, items, states) && states.last() == mid;
        let extended = states.push(result);
        assert forall|i: int| 0 <= i < longer.len() implies call_ensures(
            reduce,
            (extended[i], longer[i]),
            #[trigger] extended[i + 1],
        ) by {
            if i < n {
                assert(extended[i] == states[i] && extended[i + 1] == states[i + 1]);
                assert(call_ensures(reduce, (states[i], items[i]), states[i + 1]));
            }
        }
        assert(is_fold_trace(reduce, init, longer, extended));
    }
}

/// Law: a folder made by `into_folder` and fed `items` with `consume`, one after the
/// other, completes with a left fold of the items by the left reduction, from the
/// identity's result. `states[0]` is the folder's state after `into_folder` (the identity's
/// result), `states[i + 1]` its state after consuming `items[i]`.
pub proof fn lemma_folder_folds_left<Item, ID: Fn() -> Item, R: Fn(Item, Item) -> Item>(
    identity: ID,
    reduce: R,
    items: Seq<Item>,
    states: Seq<Item>,
)
    requires
        states.len() == items.len() + 1,
        call_ensures(identity, (), states[0]),
        forall|i: int|
            0 <= i < items.len() ==> call_ensures(reduce, (states[i], items[i]), #[trigger] states[i
                + 1]),
    ensures
        is_left_fold(reduce, states[0], items, states.last()),
{
    assert(is_fold_trace(reduce, states[0], items, states));
}

/// A consumer that reduces with one function everywhere but on the rightmost pieces of
/// the input, which are reduced with another.
pub struct TwoLevelsConsumer<'a, ID, R1, R2> {
    pub rightmost: bool,
    pub identity: &'a ID,
    pub rightmost_reduce: &'a R1,
    pub left_reduce: &'a R2,
}

/// Folds the items of a piece with the left reduction, from a starting state.
pub struct TwoLevelsFolder<'a, Item, R2> {
    pub state: Item,
    pub reduce: &'a R2,
}

/// Combines the results of two adjacent pieces.
pub struct TwoLevelsReducer<'a, R1, R2> {
    pub rightmost: bool,
    pub rightmost_reduce: &'a R1,
    pub left_reduce: &'a R2,
}

impl<'a, ID, R1, R2> TwoLevelsConsumer<'a, ID, R1, R2> {
    /// Such a consumer never stops early.
    pub fn full(&self) -> (r: bool)
        ensures
            !r,
    {
        false
    }

    /// Splits the consumer at `index`: the left piece is not rightmost, the right piece is
    /// when this one is, and the reducer that joins them reduces as this one would.
    pub fn split_at(self, index: usize) -> (r: (Self, Self, TwoLevelsReducer<'a, R1, R2>))
        ensures
            r.0 == (TwoLevelsConsumer { rightmost: step_rightmost(self.rightmost, SplitStep::KeepLeft), ..self }),
            r.1 == (TwoLevelsConsumer { rightmost: step_rightmost(self.rightmost, SplitStep::KeepRight), ..self }),
            r.2 == self.to_reducer_spec(),
    {
        (
            TwoLevelsConsumer {
                identity: self.identity,
                rightmost: false,
                rightmost_reduce: self.rightmost_reduce,
                left_reduce: self.left_reduce,
            },
            TwoLevelsConsumer {
                identity: self.identity,
                rightmost: self.rightmost,
                rightmost_reduce: self.rightmost_reduce,
                left_reduce: self.left_reduce,
            },
            TwoLevelsReducer {
                rightmost: self.rightmost,
                rightmost_reduce: self.rightmost_reduce,
                left_reduce: self.left_reduce,
            },
        )
    }

    /// The reducer of this consumer.
    pub open spec fn to_reducer_spec(self) -> TwoLevelsReducer<'a, R1, R2> {
        TwoLevelsReducer {
            rightmost: self.rightmost,
            rightmost_reduce: self.rightmost_reduce,
            left_reduce: self.left_reduce,
        }
    }

    /// The reducer that joins results of this consumer's pieces.
    pub fn to_reducer(&self) -> (r: TwoLevelsReducer<'a, R1, R2>)
        ensures
            r == self.to_reducer_spec(),
    {
        TwoLevelsReducer {
            rightmost: self.rightmost,
            rightmost_reduce: self.rightmost_reduce,
            left_reduce: self.left_reduce,
        }
    }

    /// A consumer for a piece split off on the left, which is never rightmost.
    pub fn split_off_left(&self) -> (r: Self)
        ensures
            r == (TwoLevelsConsumer { rightmost: step_rightmost(self.rightmost, SplitStep::SplitOffLeft), ..*self }),
    {
        TwoLevelsConsumer {
            identity: self.identity,
            rightmost: false,
            rightmost_reduce: self.rightmost_reduce,
            left_reduce: self.left_reduce,
        }
    }

    /// A folder that starts from the identity and folds with the left reduction.
    pub fn into_folder<Item>(self) -> (f: TwoLevelsFolder<'a, Item, R2>) where ID: Fn() -> Item
        requires
            call_requires(*self.identity, ()),
        ensures
            call_ensures(*self.identity, (), f.state),
            f.reduce == self.left_reduce,
    {
        TwoLevelsFolder { state: (self.identity)(), reduce: self.left_reduce }
    }
}

impl<'a, Item, R2> TwoLevelsFolder<'a, Item, R2> {
    /// Such a folder never stops early.
    pub fn full(&self) -> (r: bool)
        ensures
            !r,
    {
        false
    }

    /// The folded result.
    pub fn complete(self) -> (r: Item)
        ensures
            r == self.state,
    {
        self.state
    }

    /// Folds one more item into the state with the left reduction.
    pub fn consume(self, item: Item) -> (f: Self) where R2: Fn(Item, Item) -> Item
        requires
            call_requires(*self.reduce, (self.state, item)),
        ensures
            call_ensures(*self.reduce, (self.state, item), f.state),
            f.reduce == self.reduce,
    {
        let reduce = self.reduce;
        let state = reduce(self.state, item);
        TwoLevelsFolder { state, reduce }
    }
}

impl<'a, R1, R2> TwoLevelsReducer<'a, R1, R2> {
    /// Joins the results of two adjacent pieces: with the rightmost reduction when the
    /// pieces are rightmost, with the left reduction otherwise.
    pub fn reduce<T>(self, left: T, right: T) -> (r: T) where
        R1: Fn(T, T) -> T,
        R2: Fn(T, T) -> T,

        requires
            self.rightmost ==> call_requires(*self.rightmost_reduce, (left, right)),
            !self.rightmost ==> call_requires(*self.left_reduce, (left, right)),
        ensures
            self.rightmost ==> call_ensures(*self.rightmost_reduce, (left, right), r),
            !self.rightmost ==> call_ensures(*self.left_reduce, (left, right), r),
    {
        if self.rightmost {
            (self.rightmost_reduce)(left, right)
        } else {
            (self.left_reduce)(left, right)
        }
    }
}

} // verus!
