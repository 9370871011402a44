//! Split engine with a fixed-capacity circular buffer per branch and a
//! boolean classifier: the bounded-backpressure form of the predicate
//! split.  Up to `N` items may be parked for each branch; a branch whose
//! sibling's buffer is full is refused the source until the sibling drains.
//!
//! One poll of a branch is `poll_next_true` / `poll_next_false` (the
//! decisions that need no source interaction) followed, only when that step
//! says [`Step::Upstream`], by `resolve_true` / `resolve_false` with the
//! source's answer, under the same exclusive access.

use core::marker::PhantomData;
use vstd::prelude::*;

use crate::ring_buf::RingBuf;
use crate::{
    lemma_routed_empty, lemma_routed_push, routed_false, routed_true, Classifier, PollOutcome,
    SourceEvent, Step,
};

verus! {

/// The shared engine state: one bounded ring per branch and a delivered-
/// items ghost history per branch, plus the classifier and a ghost record
/// of what the source has produced.
pub struct SplitByBuffered<I, C, const N: usize> {
    buf_true: RingBuf<I, N>,
    buf_false: RingBuf<I, N>,
    predicate: C,
    hist: Ghost<Seq<I>>,
    sent_true: Ghost<Seq<I>>,
    sent_false: Ghost<Seq<I>>,
    done: Ghost<bool>,
    done_true: Ghost<bool>,
    done_false: Ghost<bool>,
}

impl<I, C: Classifier<I>, const N: usize> SplitByBuffered<I, C, N> {
    /// The classifier every item is routed by.
    pub closed spec fn classifier(&self) -> C {
        self.predicate
    }

    /// Every item the source has yielded, in order.
    pub closed spec fn source_history(&self) -> Seq<I> {
        self.hist@
    }

    /// Every item delivered on the true branch, in order.
    pub closed spec fn out_true(&self) -> Seq<I> {
        self.sent_true@
    }

    /// Every item delivered on the false branch, in order.
    pub closed spec fn out_false(&self) -> Seq<I> {
        self.sent_false@
    }

    /// The items parked for the true branch, oldest first (at most `N`).
    pub closed spec fn pending_true(&self) -> Seq<I> {
        self.buf_true@
    }

    /// The items parked for the false branch, oldest first (at most `N`).
    pub closed spec fn pending_false(&self) -> Seq<I> {
        self.buf_false@
    }

    /// Whether the source has reported completion.
    pub closed spec fn exhausted(&self) -> bool {
        self.done@
    }

    /// Whether the true branch has observed completion.
    pub closed spec fn end_seen_true(&self) -> bool {
        self.done_true@
    }

    /// Whether the false branch has observed completion.
    pub closed spec fn end_seen_false(&self) -> bool {
        self.done_false@
    }

    /// Both per-branch rings are well formed.
    pub closed spec fn buffers_wf(&self) -> bool {
        &&& self.buf_true.wf()
        &&& self.buf_false.wf()
    }

    /// The engine invariant: both rings are well formed and within
    /// capacity; what each branch has delivered, followed by what is parked
    /// for it, is exactly the verdict-selected subsequence of the source
    /// history; and a branch that has observed completion has nothing
    /// parked and will find the source exhausted.
    pub open spec fn wf(&self) -> bool {
        &&& self.buffers_wf()
        &&& self.pending_true().len() <= N
        &&& self.pending_false().len() <= N
        &&& self.out_true() + self.pending_true() == routed_true(
            self.classifier(),
            self.source_history(),
        )
        &&& self.out_false() + self.pending_false() == routed_false(
            self.classifier(),
            self.source_history(),
        )
        &&& (self.end_seen_true() ==> self.exhausted() && self.pending_true().len() == 0)
        &&& (self.end_seen_false() ==> self.exhausted() && self.pending_false().len() == 0)
    }

    /// What one pre-upstream step of the true branch may do: deliver the
    /// oldest parked item, refuse to pull while the sibling's buffer is
    /// full, or ask for one pull of the source.  Nothing else moves.
    pub open spec fn poll_step_true(pre: Self, post: Self, step: Step<I>) -> bool {
        &&& post.classifier() == pre.classifier()
        &&& post.source_history() == pre.source_history()
        &&& post.exhausted() == pre.exhausted()
        &&& post.out_false() == pre.out_false()
        &&& post.pending_false() == pre.pending_false()
        &&& post.end_seen_true() == pre.end_seen_true()
        &&& post.end_seen_false() == pre.end_seen_false()
        &&& match step {
            Step::Item(item) => {
                &&& pre.pending_true().len() > 0
                &&& item == pre.pending_true()[0]
                &&& post.pending_true() == pre.pending_true().drop_first()
                &&& post.out_true() == pre.out_true().push(item)
            },
            Step::Saturated => {
                &&& pre.pending_true().len() == 0
                &&& pre.pending_false().len() == N
                &&& post.pending_true() == pre.pending_true()
                &&& post.out_true() == pre.out_true()
            },
            Step::Upstream => {
                &&& pre.pending_true().len() == 0
                &&& pre.pending_false().len() < N
                &&& post.pending_true() == pre.pending_true()
                &&& post.out_true() == pre.out_true()
            },
        }
    }

    /// The mirror image of [`Self::poll_step_true`] for the false branch.
    pub open spec fn poll_step_false(pre: Self, post: Self, step: Step<I>) -> bool {
        &&& post.classifier() == pre.classifier()
        &&& post.source_history() == pre.source_history()
        &&& post.exhausted() == pre.exhausted()
        &&& post.out_true() == pre.out_true()
        &&& post.pending_true() == pre.pending_true()
        &&& post.end_seen_true() == pre.end_seen_true()
        &&& post.end_seen_false() == pre.end_seen_false()
        &&& match step {
            Step::Item(item) => {
                &&& pre.pending_false().len() > 0
                &&& item == pre.pending_false()[0]
                &&& post.pending_false() == pre.pending_false().drop_first()
                &&& post.out_false() == pre.out_false().push(item)
            },
            Step::Saturated => {
                &&& pre.pending_false().len() == 0
                &&& pre.pending_true().len() == N
                &&& post.pending_false() == pre.pending_false()
                &&& post.out_false() == pre.out_false()
            },
            Step::Upstream => {
                &&& pre.pending_false().len() == 0
                &&& pre.pending_true().len() < N
                &&& post.pending_false() == pre.pending_false()
                &&& post.out_false() == pre.out_false()
            },
        }
    }

    /// What folding one source answer into the true branch's poll does: an
    /// item is delivered or parked for the sibling by its verdict,
    /// completion is recorded and reported, a pending source changes
    /// nothing.
    pub open spec fn resolve_step_true(
        pre: Self,
        post: Self,
        event: SourceEvent<I>,
        out: PollOutcome<I>,
    ) -> bool {
        &&& post.classifier() == pre.classifier()
        &&& post.out_false() == pre.out_false()
        &&& post.pending_true() == pre.pending_true()
        &&& post.end_seen_false() == pre.end_seen_false()
        &&& match event {
            SourceEvent::Item(item) => {
                &&& post.source_history() == pre.source_history().push(item)
                &&& post.exhausted() == pre.exhausted()
                &&& post.end_seen_true() == pre.end_seen_true()
                &&& if pre.classifier().verdict(item) {
                    &&& out == PollOutcome::Item(item)
                    &&& post.out_true() == pre.out_true().push(item)
                    &&& post.pending_false() == pre.pending_false()
                } else {
                    &&& out == (PollOutcome::<I>::Pending { wake_sibling: true })
                    &&& post.out_true() == pre.out_true()
                    &&& post.pending_false() == pre.pending_false().push(item)
                }
            },
            SourceEvent::End => {
                &&& out == (PollOutcome::<I>::End { wake_sibling: true })
                &&& post.source_history() == pre.source_history()
                &&& post.exhausted()
                &&& post.end_seen_true()
                &&& post.out_true() == pre.out_true()
                &&& post.pending_false() == pre.pending_false()
            },
            SourceEvent::Pending => {
                &&& out == (PollOutcome::<I>::Pending { wake_sibling: false })
                &&& post == pre
            },
        }
    }

    /// The mirror image of [`Self::resolve_step_true`] for the false branch.
    pub open spec fn resolve_step_false(
        pre: Self,
        post: Self,
        event: SourceEvent<I>,
        out: PollOutcome<I>,
    ) -> bool {
        &&& post.classifier() == pre.classifier()
        &&& post.out_true() == pre.out_true()
        &&& post.pending_false() == pre.pending_false()
        &&& post.end_seen_true() == pre.end_seen_true()
        &&& match event {
            SourceEvent::Item(item) => {
                &&& post.source_history() == pre.source_history().push(item)
                &&& post.exhausted() == pre.exhausted()
                &&& post.end_seen_false() == pre.end_seen_false()
                &&& if pre.classifier().verdict(item) {
                    &&& out == (PollOutcome::<I>::Pending { wake_sibling: true })
                    &&& post.out_false() == pre.out_false()
                    &&& post.pending_true() == pre.pending_true().push(item)
                } else {
                    &&& out == PollOutcome::Item(item)
                    &&& post.out_false() == pre.out_false().push(item)
                    &&& post.pending_true() == pre.pending_true()
                }
            },
            SourceEvent::End => {
                &&& out == (PollOutcome::<I>::End { wake_sibling: true })
                &&& post.source_history() == pre.source_history()
                &&& post.exhausted()
                &&& post.end_seen_false()
                &&& post.out_false() == pre.out_false()
                &&& post.pending_true() == pre.pending_true()
            },
            SourceEvent::Pending => {
                &&& out == (PollOutcome::<I>::Pending { wake_sibling: false })
                &&& post == pre
            },
        }
    }

    /// A fresh engine: nothing pulled, nothing parked, nothing delivered,
    /// both rings empty with all `N` cells free.
    pub fn new(predicate: C) -> (r: Self)
        ensures
            r.wf(),
            r.classifier() == predicate,
            r.source_history() == Seq::<I>::empty(),
            r.out_true() == Seq::<I>::empty(),
            r.out_false() == Seq::<I>::empty(),
            r.pending_true() == Seq::<I>::empty(),
            r.pending_false() == Seq::<I>::empty(),
            !r.exhausted(),
            !r.end_seen_true(),
            !r.end_seen_false(),
    {
        let r = SplitByBuffered {
            buf_true: RingBuf::new(),
            buf_false: RingBuf::new(),
            predicate,
            hist: Ghost(Seq::empty()),
            sent_true: Ghost(Seq::empty()),
            sent_false: Ghost(Seq::empty()),
            done: Ghost(false),
            done_true: Ghost(false),
            done_false: Ghost(false),
        };
        proof {
            lemma_routed_empty::<I, C>(r.predicate);
            assert(r.out_true() + r.pending_true() =~= Seq::<I>::empty());
            assert(r.out_false() + r.pending_false() =~= Seq::<I>::empty());
        }
        r
    }

    /// One pre-upstream poll step of the true branch: deliver the oldest
    /// parked item if there is one; otherwise, if the sibling's buffer is
    /// full, refuse to pull (the caller wakes the sibling); otherwise ask
    /// the caller to drive the source once.
    pub fn poll_next_true(&mut self) -> (step: Step<I>)
        requires
            old(self).wf(),
        ensures
            final(self).wf(),
            Self::poll_step_true(*old(self), *final(self), step),
    {
        match self.buf_true.pop_front() {
            Some(item) => {
                self.sent_true = Ghost(self.sent_true@.push(item));
                proof {
                    assert(self.out_true() + self.pending_true() =~= (old(self).out_true() + old(
                        self,
                    ).pending_true()));
                }
                Step::Item(item)
            },
            None => {
                if self.buf_false.remaining() == 0 {
                    Step::Saturated
                } else {
                    Step::Upstream
                }
            },
        }
    }

    /// One pre-upstream poll step of the false branch; see
    /// [`Self::poll_next_true`].
    pub fn poll_next_false(&mut self) -> (step: Step<I>)
        requires
            old(self).wf(),
        ensures
            final(self).wf(),
            Self::poll_step_false(*old(self), *final(self), step),
    {
        match self.buf_false.pop_front() {
            Some(item) => {
                self.sent_false = Ghost(self.sent_false@.push(item));
                proof {
                    assert(self.out_false() + self.pending_false() =~= (old(self).out_false()
                        + old(self).pending_false()));
                }
                Step::Item(item)
            },
            None => {
                if self.buf_true.remaining() == 0 {
                    Step::Saturated
                } else {
                    Step::Upstream
                }
            },
        }
    }

    /// Fold one source answer into a poll of the true branch.  Only called
    /// right after [`Self::poll_next_true`] answered [`Step::Upstream`],
    /// under the same exclusive access, and only with a source that keeps
    /// reporting completion once it has reported it.  The saturation check
    /// guarantees room, so parking for the sibling cannot overflow.
    pub fn resolve_true(&mut self, event: SourceEvent<I>) -> (out: PollOutcome<I>)
        requires
            old(self).wf(),
            old(self).pending_true().len() == 0,
            old(self).pending_false().len() < N,
            old(self).exhausted() ==> event is End,
        ensures
            final(self).wf(),
            Self::resolve_step_true(*old(self), *final(self), event, out),
    {
        match event {
            SourceEvent::Item(item) => {
                let verdict = self.predicate.classify(&item);
                proof {
                    lemma_routed_push(self.predicate, self.hist@, item);
                }
                self.hist = Ghost(self.hist@.push(item));
                if verdict {
                    self.sent_true = Ghost(self.sent_true@.push(item));
                    proof {
                        assert(self.out_true() + self.pending_true() =~= (old(self).out_true()
                            + old(self).pending_true()).push(item));
                    }
                    PollOutcome::Item(item)
                } else {
                    let rejected = self.buf_false.push_back(item);
                    proof {
                        assert(rejected is None);
                        assert(self.out_false() + self.pending_false() =~= (old(self).out_false()
                            + old(self).pending_false()).push(item));
                    }
                    PollOutcome::Pending { wake_sibling: true }
                }
            },
            SourceEvent::End => {
                self.done = Ghost(true);
                self.done_true = Ghost(true);
                PollOutcome::End { wake_sibling: true }
            },
            SourceEvent::Pending => PollOutcome::Pending { wake_sibling: false },
        }
    }

    /// Fold one source answer into a poll of the false branch; see
    /// [`Self::resolve_true`].
    pub fn resolve_false(&mut self, event: SourceEvent<I>) -> (out: PollOutcome<I>)
        requires
            old(self).wf(),
            old(self).pending_false().len() == 0,
            old(self).pending_true().len() < N,
            old(self).exhausted() ==> event is End,
        ensures
            final(self).wf(),
            Self::resolve_step_false(*old(self), *final(self), event, out),
    {
        match event {
            SourceEvent::Item(item) => {
                let verdict = self.predicate.classify(&item);
                proof {
                    lemma_routed_push(self.predicate, self.hist@, item);
                }
                self.hist = Ghost(self.hist@.push(item));
                if verdict {
                    let rejected = self.buf_true.push_back(item);
                    proof {
                        assert(rejected is None);
                        assert(self.out_true() + self.pending_true() =~= (old(self).out_true()
                            + old(self).pending_true()).push(item));
                    }
                    PollOutcome::Pending { wake_sibling: true }
                } else {
                    self.sent_false = Ghost(self.sent_false@.push(item));
                    proof {
                        assert(self.out_false() + self.pending_false() =~= (old(self).out_false()
                            + old(self).pending_false()).push(item));
                    }
                    PollOutcome::Item(item)
                }
            },
            SourceEvent::End => {
                self.done = Ghost(true);
                self.done_false = Ghost(true);
                PollOutcome::End { wake_sibling: true }
            },
            SourceEvent::Pending => PollOutcome::Pending { wake_sibling: false },
        }
    }

    /// No item is lost and none is duplicated: what the two branches have
    /// delivered, together with what is still parked for them, is exactly
    /// the multiset of items the source has produced.
    pub proof fn lemma_no_item_lost(&self)
        requires
            self.wf(),
        ensures
            ((self.out_true() + self.pending_true()) + (self.out_false()
                + self.pending_false())).to_multiset() == self.source_history().to_multiset(),
    {
        crate::lemma_routed_partition(self.classifier(), self.source_history());
    }

    /// Per-branch order is preserved: each branch has delivered a prefix of
    /// the verdict-selected subsequence of the source history, in source
    /// order.
    pub proof fn lemma_branch_order(&self)
        requires
            self.wf(),
        ensures
            self.out_true() == routed_true(self.classifier(), self.source_history()).take(
                self.out_true().len() as int,
            ),
            self.out_false() == routed_false(self.classifier(), self.source_history()).take(
                self.out_false().len() as int,
            ),
    {
        assert(self.out_true() =~= routed_true(self.classifier(), self.source_history()).take(
            self.out_true().len() as int,
        ));
        assert(self.out_false() =~= routed_false(self.classifier(), self.source_history()).take(
            self.out_false().len() as int,
        ));
    }

    /// Completion is final: a branch that has observed the end of the
    /// source has already delivered every item routed to it, holds nothing,
    /// and the exhausted source can never route it another.
    pub proof fn lemma_end_is_final(&self)
        requires
            self.wf(),
        ensures
            self.end_seen_true() ==> self.exhausted() && self.pending_true().len() == 0
                && self.out_true() == routed_true(self.classifier(), self.source_history()),
            self.end_seen_false() ==> self.exhausted() && self.pending_false().len() == 0
                && self.out_false() == routed_false(self.classifier(), self.source_history()),
    {
        if self.end_seen_true() {
            assert(self.out_true() =~= self.out_true() + self.pending_true());
        }
        if self.end_seen_false() {
            assert(self.out_false() =~= self.out_false() + self.pending_false());
        }
    }


    /// No item follows completion: once a branch
    /// has seen the end of the source, no later poll step of that branch
    /// ever delivers an item, and completion stands.  A poll that reaches
    /// the source again finds it exhausted, and resolving its completion
    /// answer reports the end again.
    pub proof fn lemma_no_item_after_end(pre: Self, post: Self, step: Step<I>)
        requires
            pre.wf(),
        ensures
            pre.end_seen_true() && Self::poll_step_true(pre, post, step) ==> !(step is Item)
                && post.end_seen_true() && post.exhausted(),
            pre.end_seen_false() && Self::poll_step_false(pre, post, step) ==> !(step is Item)
                && post.end_seen_false() && post.exhausted(),
    {
    }

    /// Backpressure never overflows: neither branch's buffer ever holds
    /// more than `N` items, and by [`Self::poll_step_true`] a branch facing
    /// a full sibling buffer is told [`Step::Saturated`] instead of being
    /// allowed to pull the source.
    pub proof fn lemma_bounded(&self)
        requires
            self.wf(),
        ensures
            self.pending_true().len() <= N,
            self.pending_false().len() <= N,
    {
    }
}

/// The true branch's front end: a role tag delegating to the engine's
/// true-branch protocol under the caller's exclusive access.
pub struct TrueSplitByBuffered<I, C, const N: usize> {
    role: PhantomData<(I, C)>,
}

impl<I, C: Classifier<I>, const N: usize> TrueSplitByBuffered<I, C, N> {
    /// A handle for the true branch.
    pub fn new() -> (r: Self) {
        TrueSplitByBuffered { role: PhantomData }
    }

    /// The pre-upstream poll step for this handle's branch.
    pub fn poll_next(&self, engine: &mut SplitByBuffered<I, C, N>) -> (step: Step<I>)
        requires
            old(engine).wf(),
        ensures
            final(engine).wf(),
            SplitByBuffered::poll_step_true(*old(engine), *final(engine), step),
    {
        engine.poll_next_true()
    }

    /// Folds the source's answer into a poll of this handle's branch.
    pub fn resolve(&self, engine: &mut SplitByBuffered<I, C, N>, event: SourceEvent<I>) -> (out:
        PollOutcome<I>)
        requires
            old(engine).wf(),
            old(engine).pending_true().len() == 0,
            old(engine).pending_false().len() < N,
            old(engine).exhausted() ==> event is End,
        ensures
            final(engine).wf(),
            SplitByBuffered::resolve_step_true(*old(engine), *final(engine), event, out),
    {
        engine.resolve_true(event)
    }
}

/// The false branch's front end; see [`TrueSplitByBuffered`].
pub struct FalseSplitByBuffered<I, C, const N: usize> {
    role: PhantomData<(I, C)>,
}

impl<I, C: Classifier<I>, const N: usize> FalseSplitByBuffered<I, C, N> {
    /// A handle for the false branch.
    pub fn new() -> (r: Self) {
        FalseSplitByBuffered { role: PhantomData }
    }

    /// The pre-upstream poll step for this handle's branch.
    pub fn poll_next(&self, engine: &mut SplitByBuffered<I, C, N>) -> (step: Step<I>)
        requires
            old(engine).wf(),
        ensures
            final(engine).wf(),
            SplitByBuffered::poll_step_false(*old(engine), *final(engine), step),
    {
        engine.poll_next_false()
    }

    /// Folds the source's answer into a poll of this handle's branch.
    pub fn resolve(&self, engine: &mut SplitByBuffered<I, C, N>, event: SourceEvent<I>) -> (out:
        PollOutcome<I>)
        requires
            old(engine).wf(),
            old(engine).pending_false().len() == 0,
            old(engine).pending_true().len() < N,
            old(engine).exhausted() ==> event is End,
        ensures
            final(engine).wf(),
            SplitByBuffered::resolve_step_false(*old(engine), *final(engine), event, out),
    {
        engine.resolve_false(event)
    }
}

} // verus!
