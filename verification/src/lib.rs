//! Core of a fan-out combinator for pull-based item sequences: one upstream
//! source and a classifier produce two derived branches that together
//! partition every source item, without duplicating or dropping any.
//!
//! The split engines in this crate are pure state machines.  Each poll of a
//! branch is split into two verified steps: [`Step`] says what a branch can do
//! before the upstream source is consulted, and a `resolve` call folds the
//! source's answer (a [`SourceEvent`]) into the engine, yielding a
//! [`PollOutcome`].  The surrounding runtime owns the source, the wake
//! handles and the exclusive-access primitive; every routing and buffering
//! decision is made here, under contract.

use vstd::prelude::*;

pub mod partition;
pub mod partition_map;
pub mod ring_buf;
pub mod split_by;
pub mod split_by_buffered;
pub mod split_by_map;
pub mod split_by_map_buffered;

pub use partition::{FalsePartition, Partition, TruePartition};
pub use partition_map::{
    FalsePartitionMap, PartitionBool, PartitionClassifier, PartitionMap, TruePartitionMap,
};
pub use ring_buf::RingBuf;
pub use split_by::{FalseSplitBy, SplitBy, TrueSplitBy};
pub use split_by_buffered::{FalseSplitByBuffered, SplitByBuffered, TrueSplitByBuffered};
pub use split_by_map::{LeftSplitByMap, RightSplitByMap, SplitByMap};
pub use split_by_map_buffered::{
    LeftSplitByMapBuffered, RightSplitByMapBuffered, SplitByMapBuffered,
};

verus! {

/// One answer of the upstream source to a single pull.
#[derive(Debug, PartialEq)]
pub enum SourceEvent<I> {
    /// The source yielded one item.
    Item(I),
    /// The source reported completion.  A well-behaved source keeps
    /// reporting completion on every later pull; the engines require this.
    End,
    /// The source has no item yet; the pulling consumer will be woken later.
    Pending,
}

/// What a branch poll decides before any upstream interaction.
#[derive(Debug, PartialEq)]
pub enum Step<I> {
    /// An item buffered for this branch: deliver it, touch nothing else.
    Item(I),
    /// The sibling's buffer is saturated, so this branch must not pull the
    /// source.  The caller wakes the sibling's consumer, if one is
    /// registered, and reports "no item yet".
    Saturated,
    /// This branch may pull: the caller drives the source exactly once and
    /// hands the answer to the matching `resolve` call under the same
    /// exclusive access.
    Upstream,
}

/// The finished result of one branch poll that consulted the source.
#[derive(Debug, PartialEq)]
pub enum PollOutcome<I> {
    /// The freshly pulled item was classified to this branch.
    Item(I),
    /// The source is exhausted; this branch is finished.  When
    /// `wake_sibling` is set the caller wakes the sibling's consumer, whose
    /// own next poll must also observe completion.
    End { wake_sibling: bool },
    /// No item for this branch yet.  When `wake_sibling` is set the pulled
    /// item was parked in the sibling's buffer and the sibling's consumer is
    /// woken.
    Pending { wake_sibling: bool },
}

/// A two-way tagged union, the verdict of a value-consuming classifier.
#[derive(Debug, PartialEq)]
pub enum Either<L, R> {
    Left(L),
    Right(R),
}

/// The contract a boolean classifier satisfies: a pure test of one borrowed
/// item.  `verdict` is the mathematical function, `classify` the code that
/// computes it.
pub trait Classifier<I> {
    spec fn verdict(&self, item: I) -> bool;

    fn classify(&self, item: &I) -> (v: bool)
        ensures
            v == self.verdict(*item),
    ;
}

/// The contract of a value-consuming classifier: a pure function that
/// destructures one owned item into a two-way tagged union.
pub trait MapClassifier<I, L, R> {
    spec fn verdict(&self, item: I) -> Either<L, R>;

    fn classify(&self, item: I) -> (v: Either<L, R>)
        ensures
            v == self.verdict(item),
    ;
}

/// The contents of a single-slot buffer, as a sequence: empty or one item.
pub open spec fn opt_seq<T>(slot: Option<T>) -> Seq<T> {
    match slot {
        Some(item) => seq![item],
        None => Seq::empty(),
    }
}

/// The items of `history`, in order, whose verdict under `c` is true.
pub open spec fn routed_true<I, C: Classifier<I>>(c: C, history: Seq<I>) -> Seq<I> {
    history.filter(verdict_holds(c))
}

/// The items of `history`, in order, whose verdict under `c` is false.
pub open spec fn routed_false<I, C: Classifier<I>>(c: C, history: Seq<I>) -> Seq<I> {
    history.filter(verdict_fails(c))
}

/// The predicate "the verdict of `c` holds of the item", as one value, so
/// that every use names the same function.
pub open spec fn verdict_holds<I, C: Classifier<I>>(c: C) -> spec_fn(I) -> bool {
    |i: I| c.verdict(i)
}

/// The predicate "the verdict of `c` fails of the item", as one value.
pub open spec fn verdict_fails<I, C: Classifier<I>>(c: C) -> spec_fn(I) -> bool {
    |i: I| !c.verdict(i)
}

/// The left payloads of `history`, in order, under the verdict of `c`.
pub open spec fn routed_left<I, L, R, C: MapClassifier<I, L, R>>(c: C, history: Seq<I>) -> Seq<L>
    decreases history.len(),
{
    if history.len() == 0 {
        Seq::empty()
    } else {
        let prefix = routed_left(c, history.drop_last());
        match c.verdict(history.last()) {
            Either::Left(l) => prefix.push(l),
            Either::Right(_) => prefix,
        }
    }
}

/// The right payloads of `history`, in order, under the verdict of `c`.
pub open spec fn routed_right<I, L, R, C: MapClassifier<I, L, R>>(c: C, history: Seq<I>) -> Seq<R>
    decreases history.len(),
{
    if history.len() == 0 {
        Seq::empty()
    } else {
        let prefix = routed_right(c, history.drop_last());
        match c.verdict(history.last()) {
            Either::Left(_) => prefix,
            Either::Right(r) => prefix.push(r),
        }
    }
}

/// Nothing is routed out of an empty history.
pub proof fn lemma_routed_empty<I, C: Classifier<I>>(c: C)
    ensures
        routed_true(c, Seq::<I>::empty()) == Seq::<I>::empty(),
        routed_false(c, Seq::<I>::empty()) == Seq::<I>::empty(),
{
    reveal(Seq::filter);
}

/// Appending one item to the history appends it to exactly one of the two
/// routed sequences, the one its verdict selects.
pub proof fn lemma_routed_push<I, C: Classifier<I>>(c: C, history: Seq<I>, item: I)
    ensures
        c.verdict(item) ==> routed_true(c, history.push(item)) == routed_true(c, history).push(
            item,
        ),
        c.verdict(item) ==> routed_false(c, history.push(item)) == routed_false(c, history),
        !c.verdict(item) ==> routed_true(c, history.push(item)) == routed_true(c, history),
        !c.verdict(item) ==> routed_false(c, history.push(item)) == routed_false(c, history).push(
            item,
        ),
{
    history.lemma_filter_push(item, verdict_holds(c));
    history.lemma_filter_push(item, verdict_fails(c));
}

/// Appending one item to the history appends its payload to exactly one of
/// the two routed sequences, the one its verdict selects.
pub proof fn lemma_routed_map_push<I, L, R, C: MapClassifier<I, L, R>>(
    c: C,
    history: Seq<I>,
    item: I,
)
    ensures
        match c.verdict(item) {
            Either::Left(l) => routed_left(c, history.push(item)) == routed_left(c, history).push(
                l,
            ) && routed_right(c, history.push(item)) == routed_right(c, history),
            Either::Right(r) => routed_left(c, history.push(item)) == routed_left(c, history)
                && routed_right(c, history.push(item)) == routed_right(c, history).push(r),
        },
{
    assert(history.push(item).drop_last() =~= history);
}

/// Routing by a boolean classifier loses nothing and invents nothing: the
/// two routed sequences together hold exactly the items of the history,
/// each exactly as often as it occurred.
pub proof fn lemma_routed_partition<I, C: Classifier<I>>(c: C, history: Seq<I>)
    ensures
        (routed_true(c, history) + routed_false(c, history)).to_multiset()
            == history.to_multiset(),
    decreases history.len(),
{
    if history.len() == 0 {
        lemma_routed_empty::<I, C>(c);
        assert(routed_true(c, history) + routed_false(c, history) =~= Seq::<I>::empty());
        assert(history =~= Seq::<I>::empty());
    } else {
        let prefix = history.drop_last();
        let item = history.last();
        lemma_routed_partition(c, prefix);
        assert(history =~= prefix.push(item));
        lemma_routed_push(c, prefix, item);
        let t0 = routed_true(c, prefix);
        let f0 = routed_false(c, prefix);
        vstd::seq_lib::lemma_multiset_commutative(t0, f0);
        vstd::seq_lib::lemma_multiset_commutative(
            routed_true(c, history),
            routed_false(c, history),
        );
        broadcast use vstd::seq_lib::group_to_multiset_ensures;

        if c.verdict(item) {
            assert(routed_true(c, history) =~= t0.push(item));
            assert(t0.push(item).to_multiset() == t0.to_multiset().insert(item));
            assert((t0.push(item)).to_multiset().add(f0.to_multiset()) =~= (t0.to_multiset().add(
                f0.to_multiset(),
            )).insert(item));
        } else {
            assert(routed_false(c, history) =~= f0.push(item));
            assert(f0.push(item).to_multiset() == f0.to_multiset().insert(item));
            assert(t0.to_multiset().add(f0.push(item).to_multiset()) =~= (t0.to_multiset().add(
                f0.to_multiset(),
            )).insert(item));
        }
        assert(history.to_multiset() == prefix.to_multiset().insert(item));
    }
}

/// Routing by a value-consuming classifier loses nothing and invents
/// nothing: the two routed sequences together are exactly as long as the
/// history, one payload per source item.
pub proof fn lemma_routed_map_partition<I, L, R, C: MapClassifier<I, L, R>>(c: C, history: Seq<I>)
    ensures
        routed_left(c, history).len() + routed_right(c, history).len() == history.len(),
    decreases history.len(),
{
    if history.len() > 0 {
        lemma_routed_map_partition(c, history.drop_last());
    }
}

} // verus!
