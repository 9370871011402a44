//! Split engine with single-slot per-branch storage and a value-consuming
//! classifier that destructures each source item into a [`PartitionBool`]:
//! the two branches carry the two payload types.  The partition names are
//! an alternative surface over the same protocol as
//! [`crate::split_by_map`].
//!
//! One poll of a branch is `poll_next_true` / `poll_next_false` (the
//! decisions that need no source interaction) followed, only when that step
//! says [`Step::Upstream`], by `resolve_true` / `resolve_false` with the
//! source's answer, under the same exclusive access.

use core::marker::PhantomData;
use vstd::prelude::*;

use crate::{opt_seq, PollOutcome, SourceEvent, Step};

verus! {

/// A two-way tagged union: the verdict of a classifier that consumes the
/// item and keeps only the payload for the branch it selects.
#[derive(Debug, PartialEq)]
pub enum PartitionBool<T, F> {
    True(T),
    False(F),
}

/// The contract of a value-consuming classifier for [`PartitionMap`]: a
/// pure function that destructures one owned item into a [`PartitionBool`].
pub trait PartitionClassifier<I, T, F> {
    spec fn verdict(&self, item: I) -> PartitionBool<T, F>;

    fn classify(&self, item: I) -> (v: PartitionBool<T, F>)
        ensures
            v == self.verdict(item),
    ;
}

/// The true payloads of `history`, in order, under the verdict of `c`.
pub open spec fn routed_map_true<I, T, F, C: PartitionClassifier<I, T, F>>(
    c: C,
    history: Seq<I>,
) -> Seq<T>
    decreases history.len(),
{
    if history.len() == 0 {
        Seq::empty()
    } else {
        let prefix = routed_map_true(c, history.drop_last());
        match c.verdict(history.last()) {
            PartitionBool::True(t) => prefix.push(t),
            PartitionBool::False(_) => prefix,
        }
    }
}

/// The false payloads of `history`, in order, under the verdict of `c`.
pub open spec fn routed_map_false<I, T, F, C: PartitionClassifier<I, T, F>>(
    c: C,
    history: Seq<I>,
) -> Seq<F>
    decreases history.len(),
{
    if history.len() == 0 {
        Seq::empty()
    } else {
        let prefix = routed_map_false(c, history.drop_last());
        match c.verdict(history.last()) {
            PartitionBool::True(_) => prefix,
            PartitionBool::False(f) => prefix.push(f),
        }
    }
}

/// Appending one item to the history appends its payload to exactly one of
/// the two routed sequences, the one its verdict selects.
pub proof fn lemma_routed_map_bool_push<I, T, F, C: PartitionClassifier<I, T, F>>(
    c: C,
    history: Seq<I>,
    item: I,
)
    ensures
        match c.verdict(item) {
            PartitionBool::True(t) => routed_map_true(c, history.push(item)) == routed_map_true(
                c,
                history,
            ).push(t) && routed_map_false(c, history.push(item)) == routed_map_false(c, history),
            PartitionBool::False(f) => routed_map_true(c, history.push(item)) == routed_map_true(
                c,
                history,
            ) && routed_map_false(c, history.push(item)) == routed_map_false(c, history).push(f),
        },
{
    assert(history.push(item).drop_last() =~= history);
}

/// One payload per source item: the two routed sequences together are
/// exactly as long as the history.
pub proof fn lemma_routed_map_bool_partition<I, T, F, C: PartitionClassifier<I, T, F>>(
    c: C,
    history: Seq<I>,
)
    ensures
        routed_map_true(c, history).len() + routed_map_false(c, history).len() == history.len(),
    decreases history.len(),
{
    if history.len() > 0 {
        lemma_routed_map_bool_partition(c, history.drop_last());
    }
}

/// The shared engine state: one pending payload slot and one delivered-
/// payloads ghost history per branch, plus the classifier and a ghost
/// record of what the source has produced.
pub struct PartitionMap<I, T, F, C> {
    buf_true: Option<T>,
    buf_false: Option<F>,
    predicate: C,
    hist: Ghost<Seq<I>>,
    sent_true: Ghost<Seq<T>>,
    sent_false: Ghost<Seq<F>>,
    done: Ghost<bool>,
    done_true: Ghost<bool>,
    done_false: Ghost<bool>,
}

impl<I, T, F, C: PartitionClassifier<I, T, F>> PartitionMap<I, T, F, C> {
    /// The classifier every item is routed by.
    pub closed spec fn classifier(&self) -> C {
        self.predicate
    }

    /// Every item the source has yielded, in order.
    pub closed spec fn source_history(&self) -> Seq<I> {
        self.hist@
    }

    /// Every payload delivered on the true branch, in order.
    pub closed spec fn out_true(&self) -> Seq<T> {
        self.sent_true@
    }

    /// Every payload delivered on the false branch, in order.
    pub closed spec fn out_false(&self) -> Seq<F> {
        self.sent_false@
    }

    /// The payloads parked for the true branch (at most one).
    pub closed spec fn pending_true(&self) -> Seq<T> {
        opt_seq(self.buf_true)
    }

    /// The payloads parked for the false branch (at most one).
    pub closed spec fn pending_false(&self) -> Seq<F> {
        opt_seq(self.buf_false)
    }

    /// Whether the source has reported completion.
    pub closed spec fn exhausted(&self) -> bool {
        self.done@
    }

    /// Whether the true branch has observed completion.
    pub closed spec fn end_seen_true(&self) -> bool {
        self.done_true@
    }

    /// Whether the false branch has observed completion.
    pub closed spec fn end_seen_false(&self) -> bool {
        self.done_false@
    }

    /// The engine invariant: what each branch has delivered, followed by
    /// what is parked for it, is exactly the payload sequence its verdicts
    /// select from the source history; and a branch that has observed
    /// completion has nothing parked and will find the source exhausted.
    pub open spec fn wf(&self) -> bool {
        &&& self.out_true() + self.pending_true() == routed_map_true(
            self.classifier(),
            self.source_history(),
        )
        &&& self.out_false() + self.pending_false() == routed_map_false(
            self.classifier(),
            self.source_history(),
        )
        &&& self.pending_true().len() <= 1
        &&& self.pending_false().len() <= 1
        &&& (self.end_seen_true() ==> self.exhausted() && self.pending_true() == Seq::<
            T,
        >::empty())
        &&& (self.end_seen_false() ==> self.exhausted() && self.pending_false() == Seq::<
            F,
        >::empty())
    }

    /// What one pre-upstream step of the true branch may do: deliver the
    /// parked payload, refuse to pull while the sibling's slot is occupied,
    /// or ask for one pull of the source.  Nothing else moves.
    pub open spec fn poll_step_true(pre: Self, post: Self, step: Step<T>) -> bool {
        &&& post.classifier() == pre.classifier()
        &&& post.source_history() == pre.source_history()
        &&& post.exhausted() == pre.exhausted()
        &&& post.out_false() == pre.out_false()
        &&& post.pending_false() == pre.pending_false()
        &&& post.end_seen_true() == pre.end_seen_true()
        &&& post.end_seen_false() == pre.end_seen_false()
        &&& match step {
            Step::Item(payload) => {
                &&& pre.pending_true().len() > 0
                &&& payload == pre.pending_true()[0]
                &&& post.pending_true() == pre.pending_true().drop_first()
                &&& post.out_true() == pre.out_true().push(payload)
            },
            Step::Saturated => {
                &&& pre.pending_true().len() == 0
                &&& pre.pending_false().len() > 0
                &&& post.pending_true() == pre.pending_true()
                &&& post.out_true() == pre.out_true()
            },
            Step::Upstream => {
                &&& pre.pending_true().len() == 0
                &&& pre.pending_false().len() == 0
                &&& post.pending_true() == pre.pending_true()
                &&& post.out_true() == pre.out_true()
            },
        }
    }

    /// The mirror image of [`Self::poll_step_true`] for the false branch.
    pub open spec fn poll_step_false(pre: Self, post: Self, step: Step<F>) -> bool {
        &&& post.classifier() == pre.classifier()
        &&& post.source_history() == pre.source_history()
        &&& post.exhausted() == pre.exhausted()
        &&& post.out_true() == pre.out_true()
        &&& post.pending_true() == pre.pending_true()
        &&& post.end_seen_true() == pre.end_seen_true()
        &&& post.end_seen_false() == pre.end_seen_false()
        &&& match step {
            Step::Item(payload) => {
                &&& pre.pending_false().len() > 0
                &&& payload == pre.pending_false()[0]
                &&& post.pending_false() == pre.pending_false().drop_first()
                &&& post.out_false() == pre.out_false().push(payload)
            },
            Step::Saturated => {
                &&& pre.pending_false().len() == 0
                &&& pre.pending_true().len() > 0
                &&& post.pending_false() == pre.pending_false()
                &&& post.out_false() == pre.out_false()
            },
            Step::Upstream => {
                &&& pre.pending_false().len() == 0
                &&& pre.pending_true().len() == 0
                &&& post.pending_false() == pre.pending_false()
                &&& post.out_false() == pre.out_false()
            },
        }
    }

    /// What folding one source answer into the true branch's poll does: a
    /// payload is delivered or parked for the sibling by its verdict,
    /// completion is recorded and reported, a pending source changes
    /// nothing.
    pub open spec fn resolve_step_true(
        pre: Self,
        post: Self,
        event: SourceEvent<I>,
        out: PollOutcome<T>,
    ) -> bool {
        &&& post.classifier() == pre.classifier()
        &&& post.out_false() == pre.out_false()
        &&& post.pending_true() == pre.pending_true()
        &&& post.end_seen_false() == pre.end_seen_false()
        &&& match event {
            SourceEvent::Item(item) => {
                &&& post.source_history() == pre.source_history().push(item)
                &&& post.exhausted() == pre.exhausted()
                &&& post.end_seen_true() == pre.end_seen_true()
                &&& match pre.classifier().verdict(item) {
                    PartitionBool::True(payload) => {
                        &&& out == PollOutcome::Item(payload)
                        &&& post.out_true() == pre.out_true().push(payload)
                        &&& post.pending_false() == pre.pending_false()
                    },
                    PartitionBool::False(payload) => {
                        &&& out == (PollOutcome::<T>::Pending { wake_sibling: true })
                        &&& post.out_true() == pre.out_true()
                        &&& post.pending_false() == pre.pending_false().push(payload)
                    },
                }
            },
            SourceEvent::End => {
                &&& out == (PollOutcome::<T>::End { wake_sibling: true })
                &&& post.source_history() == pre.source_history()
                &&& post.exhausted()
                &&& post.end_seen_true()
                &&& post.out_true() == pre.out_true()
                &&& post.pending_false() == pre.pending_false()
            },
            SourceEvent::Pending => {
                &&& out == (PollOutcome::<T>::Pending { wake_sibling: false })
                &&& post == pre
            },
        }
    }

    /// The mirror image of [`Self::resolve_step_true`] for the false branch.
    pub open spec fn resolve_step_false(
        pre: Self,
        post: Self,
        event: SourceEvent<I>,
        out: PollOutcome<F>,
    ) -> bool {
        &&& post.classifier() == pre.classifier()
        &&& post.out_true() == pre.out_true()
        &&& post.pending_false() == pre.pending_false()
        &&& post.end_seen_true() == pre.end_seen_true()
        &&& match event {
            SourceEvent::Item(item) => {
                &&& post.source_history() == pre.source_history().push(item)
                &&& post.exhausted() == pre.exhausted()
                &&& post.end_seen_false() == pre.end_seen_false()
                &&& match pre.classifier().verdict(item) {
                    PartitionBool::True(payload) => {
                        &&& out == (PollOutcome::<F>::Pending { wake_sibling: true })
                        &&& post.out_false() == pre.out_false()
                        &&& post.pending_true() == pre.pending_true().push(payload)
                    },
                    PartitionBool::False(payload) => {
                        &&& out == PollOutcome::Item(payload)
                        &&& post.out_false() == pre.out_false().push(payload)
                        &&& post.pending_true() == pre.pending_true()
                    },
                }
            },
            SourceEvent::End => {
                &&& out == (PollOutcome::<F>::End { wake_sibling: true })
                &&& post.source_history() == pre.source_history()
                &&& post.exhausted()
                &&& post.end_seen_false()
                &&& post.out_false() == pre.out_false()
                &&& post.pending_true() == pre.pending_true()
            },
            SourceEvent::Pending => {
                &&& out == (PollOutcome::<F>::Pending { wake_sibling: false })
                &&& post == pre
            },
        }
    }

    /// A fresh engine: nothing pulled, nothing parked, nothing delivered.
    pub fn new(predicate: C) -> (r: Self)
        ensures
            r.wf(),
            r.classifier() == predicate,
            r.source_history() == Seq::<I>::empty(),
            r.out_true() == Seq::<T>::empty(),
            r.out_false() == Seq::<F>::empty(),
            r.pending_true() == Seq::<T>::empty(),
            r.pending_false() == Seq::<F>::empty(),
            !r.exhausted(),
            !r.end_seen_true(),
            !r.end_seen_false(),
    {
        let r = PartitionMap {
            buf_true: None,
            buf_false: None,
            predicate,
            hist: Ghost(Seq::empty()),
            sent_true: Ghost(Seq::empty()),
            sent_false: Ghost(Seq::empty()),
            done: Ghost(false),
            done_true: Ghost(false),
            done_false: Ghost(false),
        };
        proof {
            assert(r.out_true() + r.pending_true() =~= Seq::<T>::empty());
            assert(r.out_false() + r.pending_false() =~= Seq::<F>::empty());
        }
        r
    }

    /// One pre-upstream poll step of the true branch: deliver the parked
    /// payload if there is one; otherwise, if the sibling's slot is
    /// occupied, refuse to pull (the caller wakes the sibling); otherwise
    /// ask the caller to drive the source once.
    pub fn poll_next_true(&mut self) -> (step: Step<T>)
        requires
            old(self).wf(),
        ensures
            final(self).wf(),
            Self::poll_step_true(*old(self), *final(self), step),
    {
        match self.buf_true.take() {
            Some(payload) => {
                self.sent_true = Ghost(self.sent_true@.push(payload));
                proof {
                    assert(old(self).pending_true() =~= seq![payload]);
                    assert(self.pending_true() =~= old(self).pending_true().drop_first());
                    assert(self.out_true() + self.pending_true() =~= (old(self).out_true() + old(
                        self,
                    ).pending_true()));
                }
                Step::Item(payload)
            },
            None => {
                if self.buf_false.is_some() {
                    Step::Saturated
                } else {
                    Step::Upstream
                }
            },
        }
    }

    /// One pre-upstream poll step of the false branch; see
    /// [`Self::poll_next_true`].
    pub fn poll_next_false(&mut self) -> (step: Step<F>)
        requires
            old(self).wf(),
        ensures
            final(self).wf(),
            Self::poll_step_false(*old(self), *final(self), step),
    {
        match self.buf_false.take() {
            Some(payload) => {
                self.sent_false = Ghost(self.sent_false@.push(payload));
                proof {
                    assert(old(self).pending_false() =~= seq![payload]);
                    assert(self.pending_false() =~= old(self).pending_false().drop_first());
                    assert(self.out_false() + self.pending_false() =~= (old(self).out_false()
                        + old(self).pending_false()));
                }
                Step::Item(payload)
            },
            None => {
                if self.buf_true.is_some() {
                    Step::Saturated
                } else {
                    Step::Upstream
                }
            },
        }
    }

    /// Fold one source answer into a poll of the true branch.  Only called
    /// right after [`Self::poll_next_true`] answered [`Step::Upstream`],
    /// under the same exclusive access, and only with a source that keeps
    /// reporting completion once it has reported it.
    pub fn resolve_true(&mut self, event: SourceEvent<I>) -> (out: PollOutcome<T>)
        requires
            old(self).wf(),
            old(self).pending_true().len() == 0,
            old(self).pending_false().len() == 0,
            old(self).exhausted() ==> event is End,
        ensures
            final(self).wf(),
            Self::resolve_step_true(*old(self), *final(self), event, out),
    {
        match event {
            SourceEvent::Item(item) => {
                proof {
                    lemma_routed_map_bool_push(self.predicate, self.hist@, item);
                }
                let snapshot: Ghost<I> = Ghost(item);
                let verdict = self.predicate.classify(item);
                self.hist = Ghost(self.hist@.push(snapshot@));
                match verdict {
                    PartitionBool::True(payload) => {
                        self.sent_true = Ghost(self.sent_true@.push(payload));
                        proof {
                            assert(self.out_true() + self.pending_true() =~= (old(
                                self,
                            ).out_true() + old(self).pending_true()).push(payload));
                        }
                        PollOutcome::Item(payload)
                    },
                    PartitionBool::False(payload) => {
                        let parked: Ghost<F> = Ghost(payload);
                        self.buf_false = Some(payload);
                        proof {
                            assert(self.out_false() + self.pending_false() =~= (old(
                                self,
                            ).out_false() + old(self).pending_false()).push(parked@));
                            assert(self.pending_false() =~= old(self).pending_false().push(
                                parked@,
                            ));
                        }
                        PollOutcome::Pending { wake_sibling: true }
                    },
                }
            },
            SourceEvent::End => {
                self.done = Ghost(true);
                self.done_true = Ghost(true);
                PollOutcome::End { wake_sibling: true }
            },
            SourceEvent::Pending => PollOutcome::Pending { wake_sibling: false },
        }
    }

    /// Fold one source answer into a poll of the false branch; see
    /// [`Self::resolve_true`].
    pub fn resolve_false(&mut self, event: SourceEvent<I>) -> (out: PollOutcome<F>)
        requires
            old(self).wf(),
            old(self).pending_true().len() == 0,
            old(self).pending_false().len() == 0,
            old(self).exhausted() ==> event is End,
        ensures
            final(self).wf(),
            Self::resolve_step_false(*old(self), *final(self), event, out),
    {
        match event {
            SourceEvent::Item(item) => {
                proof {
                    lemma_routed_map_bool_push(self.predicate, self.hist@, item);
                }
                let snapshot: Ghost<I> = Ghost(item);
                let verdict = self.predicate.classify(item);
                self.hist = Ghost(self.hist@.push(snapshot@));
                match verdict {
                    PartitionBool::True(payload) => {
                        let parked: Ghost<T> = Ghost(payload);
                        self.buf_true = Some(payload);
                        proof {
                            assert(self.out_true() + self.pending_true() =~= (old(
                                self,
                            ).out_true() + old(self).pending_true()).push(parked@));
                            assert(self.pending_true() =~= old(self).pending_true().push(
                                parked@,
                            ));
                        }
                        PollOutcome::Pending { wake_sibling: true }
                    },
                    PartitionBool::False(payload) => {
                        self.sent_false = Ghost(self.sent_false@.push(payload));
                        proof {
                            assert(self.out_false() + self.pending_false() =~= (old(
                                self,
                            ).out_false() + old(self).pending_false()).push(payload));
                        }
                        PollOutcome::Item(payload)
                    },
                }
            },
            SourceEvent::End => {
                self.done = Ghost(true);
                self.done_false = Ghost(true);
                PollOutcome::End { wake_sibling: true }
            },
            SourceEvent::Pending => PollOutcome::Pending { wake_sibling: false },
        }
    }

    /// One payload per source item, none lost and none invented: the two
    /// branches' delivered and parked payloads together count exactly the
    /// items the source has produced.
    pub proof fn lemma_no_item_lost(&self)
        requires
            self.wf(),
        ensures
            (self.out_true() + self.pending_true()).len() + (self.out_false()
                + self.pending_false()).len() == self.source_history().len(),
    {
        lemma_routed_map_bool_partition(self.classifier(), self.source_history());
    }

    /// Per-branch order is preserved: each branch has delivered a prefix of
    /// the payload sequence its verdicts select from the source history,
    /// in source order.
    pub proof fn lemma_branch_order(&self)
        requires
            self.wf(),
        ensures
            self.out_true() == routed_map_true(self.classifier(), self.source_history()).take(
                self.out_true().len() as int,
            ),
            self.out_false() == routed_map_false(self.classifier(), self.source_history()).take(
                self.out_false().len() as int,
            ),
    {
        assert(self.out_true() =~= routed_map_true(self.classifier(), self.source_history()).take(
            self.out_true().len() as int,
        ));
        assert(self.out_false() =~= routed_map_false(
            self.classifier(),
            self.source_history(),
        ).take(self.out_false().len() as int));
    }

    /// Completion is final: a branch that has observed the end of the
    /// source has already delivered every payload routed to it, holds
    /// nothing, and the exhausted source can never route it another.
    pub proof fn lemma_end_is_final(&self)
        requires
            self.wf(),
        ensures
            self.end_seen_true() ==> self.exhausted() && self.pending_true() == Seq::<T>::empty()
                && self.out_true() == routed_map_true(self.classifier(), self.source_history()),
            self.end_seen_false() ==> self.exhausted() && self.pending_false() == Seq::<
                F,
            >::empty() && self.out_false() == routed_map_false(
                self.classifier(),
                self.source_history(),
            ),
    {
        if self.end_seen_true() {
            assert(self.out_true() =~= self.out_true() + self.pending_true());
        }
        if self.end_seen_false() {
            assert(self.out_false() =~= self.out_false() + self.pending_false());
        }
    }

    /// No item follows completion: once a branch
    /// has seen the end of the source, no later poll step of that branch
    /// ever delivers a payload, and completion stands.  A poll that reaches
    /// the source again finds it exhausted, and resolving its completion
    /// answer reports the end again.
    pub proof fn lemma_no_item_after_end(
        pre: Self,
        post: Self,
        step_true: Step<T>,
        step_false: Step<F>,
    )
        requires
            pre.wf(),
        ensures
            pre.end_seen_true() && Self::poll_step_true(pre, post, step_true) ==> !(step_true
                is Item) && post.end_seen_true() && post.exhausted(),
            pre.end_seen_false() && Self::poll_step_false(pre, post, step_false) ==> !(step_false
                is Item) && post.end_seen_false() && post.exhausted(),
    {
    }
}

/// The true branch's front end: a role tag delegating to the engine's
/// true-branch protocol under the caller's exclusive access.
pub struct TruePartitionMap<I, T, F, C> {
    role: PhantomData<(I, T, F, C)>,
}

impl<I, T, F, C: PartitionClassifier<I, T, F>> TruePartitionMap<I, T, F, C> {
    /// A handle for the true branch.
    pub fn new() -> (r: Self) {
        TruePartitionMap { role: PhantomData }
    }

    /// The pre-upstream poll step for this handle's branch.
    pub fn poll_next(&self, engine: &mut PartitionMap<I, T, F, C>) -> (step: Step<T>)
        requires
            old(engine).wf(),
        ensures
            final(engine).wf(),
            PartitionMap::poll_step_true(*old(engine), *final(engine), step),
    {
        engine.poll_next_true()
    }

    /// Folds the source's answer into a poll of this handle's branch.
    pub fn resolve(&self, engine: &mut PartitionMap<I, T, F, C>, event: SourceEvent<I>) -> (out:
        PollOutcome<T>)
        requires
            old(engine).wf(),
            old(engine).pending_true().len() == 0,
            old(engine).pending_false().len() == 0,
            old(engine).exhausted() ==> event is End,
        ensures
            final(engine).wf(),
            PartitionMap::resolve_step_true(*old(engine), *final(engine), event, out),
    {
        engine.resolve_true(event)
    }
}

/// The false branch's front end; see [`TruePartitionMap`].
pub struct FalsePartitionMap<I, T, F, C> {
    role: PhantomData<(I, T, F, C)>,
}

impl<I, T, F, C: PartitionClassifier<I, T, F>> FalsePartitionMap<I, T, F, C> {
    /// A handle for the false branch.
    pub fn new() -> (r: Self) {
        FalsePartitionMap { role: PhantomData }
    }

    /// The pre-upstream poll step for this handle's branch.
    pub fn poll_next(&self, engine: &mut PartitionMap<I, T, F, C>) -> (step: Step<F>)
        requires
            old(engine).wf(),
        ensures
            final(engine).wf(),
            PartitionMap::poll_step_false(*old(engine), *final(engine), step),
    {
        engine.poll_next_false()
    }

    /// Folds the source's answer into a poll of this handle's branch.
    pub fn resolve(&self, engine: &mut PartitionMap<I, T, F, C>, event: SourceEvent<I>) -> (out:
        PollOutcome<F>)
        requires
            old(engine).wf(),
            old(engine).pending_true().len() == 0,
            old(engine).pending_false().len() == 0,
            old(engine).exhausted() ==> event is End,
        ensures
            final(engine).wf(),
            PartitionMap::resolve_step_false(*old(engine), *final(engine), event, out),
    {
        engine.resolve_false(event)
    }
}

} // verus!
