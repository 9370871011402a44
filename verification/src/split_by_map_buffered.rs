//! Split engine with a fixed-capacity circular buffer per branch and a
//! value-consuming classifier that destructures each source item into an
//! [`Either`]: the bounded-backpressure form of the mapping split.  Up to
//! `N` payloads may be parked for each branch; a branch whose sibling's
//! buffer is full is refused the source until the sibling drains.
//!
//! One poll of a branch is `poll_next_left` / `poll_next_right` (the
//! decisions that need no source interaction) followed, only when that step
//! says [`Step::Upstream`], by `resolve_left` / `resolve_right` with the
//! source's answer, under the same exclusive access.

use core::marker::PhantomData;
use vstd::prelude::*;

use crate::ring_buf::RingBuf;
use crate::{
    lemma_routed_map_partition, lemma_routed_map_push, routed_left, routed_right, Either,
    MapClassifier, PollOutcome, SourceEvent, Step,
};

verus! {

/// The shared engine state: one bounded ring of payloads per branch and a
/// delivered-payloads ghost history per branch, plus the classifier and a
/// ghost record of what the source has produced.
pub struct SplitByMapBuffered<I, L, R, C, const N: usize> {
    buf_left: RingBuf<L, N>,
    buf_right: RingBuf<R, N>,
    predicate: C,
    hist: Ghost<Seq<I>>,
    sent_left: Ghost<Seq<L>>,
    sent_right: Ghost<Seq<R>>,
    done: Ghost<bool>,
    done_left: Ghost<bool>,
    done_right: Ghost<bool>,
}

impl<I, L, R, C: MapClassifier<I, L, R>, const N: usize> SplitByMapBuffered<I, L, R, C, N> {
    /// The classifier every item is routed by.
    pub closed spec fn classifier(&self) -> C {
        self.predicate
    }

    /// Every item the source has yielded, in order.
    pub closed spec fn source_history(&self) -> Seq<I> {
        self.hist@
    }

    /// Every payload delivered on the left branch, in order.
    pub closed spec fn out_left(&self) -> Seq<L> {
        self.sent_left@
    }

    /// Every payload delivered on the right branch, in order.
    pub closed spec fn out_right(&self) -> Seq<R> {
        self.sent_right@
    }

    /// The payloads parked for the left branch, oldest first (at most `N`).
    pub closed spec fn pending_left(&self) -> Seq<L> {
        self.buf_left@
    }

    /// The payloads parked for the right branch, oldest first (at most `N`).
    pub closed spec fn pending_right(&self) -> Seq<R> {
        self.buf_right@
    }

    /// Whether the source has reported completion.
    pub closed spec fn exhausted(&self) -> bool {
        self.done@
    }

    /// Whether the left branch has observed completion.
    pub closed spec fn end_seen_left(&self) -> bool {
        self.done_left@
    }

    /// Whether the right branch has observed completion.
    pub closed spec fn end_seen_right(&self) -> bool {
        self.done_right@
    }

    /// Both per-branch rings are well formed.
    pub closed spec fn buffers_wf(&self) -> bool {
        &&& self.buf_left.wf()
        &&& self.buf_right.wf()
    }

    /// The engine invariant: both rings are well formed and within
    /// capacity; what each branch has delivered, followed by what is parked
    /// for it, is exactly the payload sequence its verdicts select from the
    /// source history; and a branch that has observed completion has
    /// nothing parked and will find the source exhausted.
    pub open spec fn wf(&self) -> bool {
        &&& self.buffers_wf()
        &&& self.pending_left().len() <= N
        &&& self.pending_right().len() <= N
        &&& self.out_left() + self.pending_left() == routed_left(
            self.classifier(),
            self.source_history(),
        )
        &&& self.out_right() + self.pending_right() == routed_right(
            self.classifier(),
            self.source_history(),
        )
        &&& (self.end_seen_left() ==> self.exhausted() && self.pending_left().len() == 0)
        &&& (self.end_seen_right() ==> self.exhausted() && self.pending_right().len() == 0)
    }

    /// What one pre-upstream step of the left branch may do: deliver the
    /// oldest parked payload, refuse to pull while the sibling's buffer is
    /// full, or ask for one pull of the source.  Nothing else moves.
    pub open spec fn poll_step_left(pre: Self, post: Self, step: Step<L>) -> bool {
        &&& post.classifier() == pre.classifier()
        &&& post.source_history() == pre.source_history()
        &&& post.exhausted() == pre.exhausted()
        &&& post.out_right() == pre.out_right()
        &&& post.pending_right() == pre.pending_right()
        &&& post.end_seen_left() == pre.end_seen_left()
        &&& post.end_seen_right() == pre.end_seen_right()
        &&& match step {
            Step::Item(payload) => {
                &&& pre.pending_left().len() > 0
                &&& payload == pre.pending_left()[0]
                &&& post.pending_left() == pre.pending_left().drop_first()
                &&& post.out_left() == pre.out_left().push(payload)
            },
            Step::Saturated => {
                &&& pre.pending_left().len() == 0
                &&& pre.pending_right().len() == N
                &&& post.pending_left() == pre.pending_left()
                &&& post.out_left() == pre.out_left()
            },
            Step::Upstream => {
                &&& pre.pending_left().len() == 0
                &&& pre.pending_right().len() < N
                &&& post.pending_left() == pre.pending_left()
                &&& post.out_left() == pre.out_left()
            },
        }
    }

    /// The mirror image of [`Self::poll_step_left`] for the right branch.
    pub open spec fn poll_step_right(pre: Self, post: Self, step: Step<R>) -> bool {
        &&& post.classifier() == pre.classifier()
        &&& post.source_history() == pre.source_history()
        &&& post.exhausted() == pre.exhausted()
        &&& post.out_left() == pre.out_left()
        &&& post.pending_left() == pre.pending_left()
        &&& post.end_seen_left() == pre.end_seen_left()
        &&& post.end_seen_right() == pre.end_seen_right()
        &&& match step {
            Step::Item(payload) => {
                &&& pre.pending_right().len() > 0
                &&& payload == pre.pending_right()[0]
                &&& post.pending_right() == pre.pending_right().drop_first()
                &&& post.out_right() == pre.out_right().push(payload)
            },
            Step::Saturated => {
                &&& pre.pending_right().len() == 0
                &&& pre.pending_left().len() == N
                &&& post.pending_right() == pre.pending_right()
                &&& post.out_right() == pre.out_right()
            },
            Step::Upstream => {
                &&& pre.pending_right().len() == 0
                &&& pre.pending_left().len() < N
                &&& post.pending_right() == pre.pending_right()
                &&& post.out_right() == pre.out_right()
            },
        }
    }

    /// What folding one source answer into the left branch's poll does: a
    /// payload is delivered or parked for the sibling by its verdict,
    /// completion is recorded and reported, a pending source changes
    /// nothing.
    pub open spec fn resolve_step_left(
        pre: Self,
        post: Self,
        event: SourceEvent<I>,
        out: PollOutcome<L>,
    ) -> bool {
        &&& post.classifier() == pre.classifier()
        &&& post.out_right() == pre.out_right()
        &&& post.pending_left() == pre.pending_left()
        &&& post.end_seen_right() == pre.end_seen_right()
        &&& match event {
            SourceEvent::Item(item) => {
                &&& post.source_history() == pre.source_history().push(item)
                &&& post.exhausted() == pre.exhausted()
                &&& post.end_seen_left() == pre.end_seen_left()
                &&& match pre.classifier().verdict(item) {
                    Either::Left(payload) => {
                        &&& out == PollOutcome::Item(payload)
                        &&& post.out_left() == pre.out_left().push(payload)
                        &&& post.pending_right() == pre.pending_right()
                    },
                    Either::Right(payload) => {
                        &&& out == (PollOutcome::<L>::Pending { wake_sibling: true })
                        &&& post.out_left() == pre.out_left()
                        &&& post.pending_right() == pre.pending_right().push(payload)
                    },
                }
            },
            SourceEvent::End => {
                &&& out == (PollOutcome::<L>::End { wake_sibling: true })
                &&& post.source_history() == pre.source_history()
                &&& post.exhausted()
                &&& post.end_seen_left()
                &&& post.out_left() == pre.out_left()
                &&& post.pending_right() == pre.pending_right()
            },
            SourceEvent::Pending => {
                &&& out == (PollOutcome::<L>::Pending { wake_sibling: false })
                &&& post == pre
            },
        }
    }

    /// The mirror image of [`Self::resolve_step_left`] for the right branch.
    pub open spec fn resolve_step_right(
        pre: Self,
        post: Self,
        event: SourceEvent<I>,
        out: PollOutcome<R>,
    ) -> bool {
        &&& post.classifier() == pre.classifier()
        &&& post.out_left() == pre.out_left()
        &&& post.pending_right() == pre.pending_right()
        &&& post.end_seen_left() == pre.end_seen_left()
        &&& match event {
            SourceEvent::Item(item) => {
                &&& post.source_history() == pre.source_history().push(item)
                &&& post.exhausted() == pre.exhausted()
                &&& post.end_seen_right() == pre.end_seen_right()
                &&& match pre.classifier().verdict(item) {
                    Either::Left(payload) => {
                        &&& out == (PollOutcome::<R>::Pending { wake_sibling: true })
                        &&& post.out_right() == pre.out_right()
                        &&& post.pending_left() == pre.pending_left().push(payload)
                    },
                    Either::Right(payload) => {
                        &&& out == PollOutcome::Item(payload)
                        &&& post.out_right() == pre.out_right().push(payload)
                        &&& post.pending_left() == pre.pending_left()
                    },
                }
            },
            SourceEvent::End => {
                &&& out == (PollOutcome::<R>::End { wake_sibling: true })
                &&& post.source_history() == pre.source_history()
                &&& post.exhausted()
                &&& post.end_seen_right()
                &&& post.out_right() == pre.out_right()
                &&& post.pending_left() == pre.pending_left()
            },
            SourceEvent::Pending => {
                &&& out == (PollOutcome::<R>::Pending { wake_sibling: false })
                &&& post == pre
            },
        }
    }

    /// A fresh engine: nothing pulled, nothing parked, nothing delivered,
    /// both rings empty with all `N` cells free.
    pub fn new(predicate: C) -> (r: Self)
        ensures
            r.wf(),
            r.classifier() == predicate,
            r.source_history() == Seq::<I>::empty(),
            r.out_left() == Seq::<L>::empty(),
            r.out_right() == Seq::<R>::empty(),
            r.pending_left() == Seq::<L>::empty(),
            r.pending_right() == Seq::<R>::empty(),
            !r.exhausted(),
            !r.end_seen_left(),
            !r.end_seen_right(),
    {
        let r = SplitByMapBuffered {
            buf_left: RingBuf::new(),
            buf_right: RingBuf::new(),
            predicate,
            hist: Ghost(Seq::empty()),
            sent_left: Ghost(Seq::empty()),
            sent_right: Ghost(Seq::empty()),
            done: Ghost(false),
            done_left: Ghost(false),
            done_right: Ghost(false),
        };
        proof {
            assert(r.out_left() + r.pending_left() =~= Seq::<L>::empty());
            assert(r.out_right() + r.pending_right() =~= Seq::<R>::empty());
        }
        r
    }

    /// One pre-upstream poll step of the left branch: deliver the oldest
    /// parked payload if there is one; otherwise, if the sibling's buffer
    /// is full, refuse to pull (the caller wakes the sibling); otherwise
    /// ask the caller to drive the source once.
    pub fn poll_next_left(&mut self) -> (step: Step<L>)
        requires
            old(self).wf(),
        ensures
            final(self).wf(),
            Self::poll_step_left(*old(self), *final(self), step),
    {
        match self.buf_left.pop_front() {
            Some(payload) => {
                self.sent_left = Ghost(self.sent_left@.push(payload));
                proof {
                    assert(self.out_left() + self.pending_left() =~= (old(self).out_left() + old(
                        self,
                    ).pending_left()));
                }
                Step::Item(payload)
            },
            None => {
                if self.buf_right.remaining() == 0 {
                    Step::Saturated
                } else {
                    Step::Upstream
                }
            },
        }
    }

    /// One pre-upstream poll step of the right branch; see
    /// [`Self::poll_next_left`].
    pub fn poll_next_right(&mut self) -> (step: Step<R>)
        requires
            old(self).wf(),
        ensures
            final(self).wf(),
            Self::poll_step_right(*old(self), *final(self), step),
    {
        match self.buf_right.pop_front() {
            Some(payload) => {
                self.sent_right = Ghost(self.sent_right@.push(payload));
                proof {
                    assert(self.out_right() + self.pending_right() =~= (old(self).out_right()
                        + old(self).pending_right()));
                }
                Step::Item(payload)
            },
            None => {
                if self.buf_left.remaining() == 0 {
                    Step::Saturated
                } else {
                    Step::Upstream
                }
            },
        }
    }

    /// Fold one source answer into a poll of the left branch.  Only called
    /// right after [`Self::poll_next_left`] answered [`Step::Upstream`],
    /// under the same exclusive access, and only with a source that keeps
    /// reporting completion once it has reported it.  The saturation check
    /// guarantees room, so parking for the sibling cannot overflow.
    pub fn resolve_left(&mut self, event: SourceEvent<I>) -> (out: PollOutcome<L>)
        requires
            old(self).wf(),
            old(self).pending_left().len() == 0,
            old(self).pending_right().len() < N,
            old(self).exhausted() ==> event is End,
        ensures
            final(self).wf(),
            Self::resolve_step_left(*old(self), *final(self), event, out),
    {
        match event {
            SourceEvent::Item(item) => {
                proof {
                    lemma_routed_map_push(self.predicate, self.hist@, item);
                }
                let snapshot: Ghost<I> = Ghost(item);
                let verdict = self.predicate.classify(item);
                self.hist = Ghost(self.hist@.push(snapshot@));
                match verdict {
                    Either::Left(payload) => {
                        self.sent_left = Ghost(self.sent_left@.push(payload));
                        proof {
                            assert(self.out_left() + self.pending_left() =~= (old(
                                self,
                            ).out_left() + old(self).pending_left()).push(payload));
                        }
                        PollOutcome::Item(payload)
                    },
                    Either::Right(payload) => {
                        let parked: Ghost<R> = Ghost(payload);
                        let rejected = self.buf_right.push_back(payload);
                        proof {
                            assert(rejected is None);
                            assert(self.out_right() + self.pending_right() =~= (old(
                                self,
                            ).out_right() + old(self).pending_right()).push(parked@));
                        }
                        PollOutcome::Pending { wake_sibling: true }
                    },
                }
            },
            SourceEvent::End => {
                self.done = Ghost(true);
                self.done_left = Ghost(true);
                PollOutcome::End { wake_sibling: true }
            },
            SourceEvent::Pending => PollOutcome::Pending { wake_sibling: false },
        }
    }

    /// Fold one source answer into a poll of the right branch; see
    /// [`Self::resolve_left`].
    pub fn resolve_right(&mut self, event: SourceEvent<I>) -> (out: PollOutcome<R>)
        requires
            old(self).wf(),
            old(self).pending_right().len() == 0,
            old(self).pending_left().len() < N,
            old(self).exhausted() ==> event is End,
        ensures
            final(self).wf(),
            Self::resolve_step_right(*old(self), *final(self), event, out),
    {
        match event {
            SourceEvent::Item(item) => {
                proof {
                    lemma_routed_map_push(self.predicate, self.hist@, item);
                }
                let snapshot: Ghost<I> = Ghost(item);
                let verdict = self.predicate.classify(item);
                self.hist = Ghost(self.hist@.push(snapshot@));
                match verdict {
                    Either::Left(payload) => {
                        let parked: Ghost<L> = Ghost(payload);
                        let rejected = self.buf_left.push_back(payload);
                        proof {
                            assert(rejected is None);
                            assert(self.out_left() + self.pending_left() =~= (old(
                                self,
                            ).out_left() + old(self).pending_left()).push(parked@));
                        }
                        PollOutcome::Pending { wake_sibling: true }
                    },
                    Either::Right(payload) => {
                        self.sent_right = Ghost(self.sent_right@.push(payload));
                        proof {
                            assert(self.out_right() + self.pending_right() =~= (old(
                                self,
                            ).out_right() + old(self).pending_right()).push(payload));
                        }
                        PollOutcome::Item(payload)
                    },
                }
            },
            SourceEvent::End => {
                self.done = Ghost(true);
                self.done_right = Ghost(true);
                PollOutcome::End { wake_sibling: true }
            },
            SourceEvent::Pending => PollOutcome::Pending { wake_sibling: false },
        }
    }

    /// One payload per source item, none lost and none invented: the two
    /// branches' delivered and parked payloads together count exactly the
    /// items the source has produced.
    pub proof fn lemma_no_item_lost(&self)
        requires
            self.wf(),
        ensures
            (self.out_left() + self.pending_left()).len() + (self.out_right()
                + self.pending_right()).len() == self.source_history().len(),
    {
        lemma_routed_map_partition(self.classifier(), self.source_history());
    }

    /// Per-branch order is preserved: each branch has delivered a prefix of
    /// the payload sequence its verdicts select from the source history,
    /// in source order.
    pub proof fn lemma_branch_order(&self)
        requires
            self.wf(),
        ensures
            self.out_left() == routed_left(self.classifier(), self.source_history()).take(
                self.out_left().len() as int,
            ),
            self.out_right() == routed_right(self.classifier(), self.source_history()).take(
                self.out_right().len() as int,
            ),
    {
        assert(self.out_left() =~= routed_left(self.classifier(), self.source_history()).take(
            self.out_left().len() as int,
        ));
        assert(self.out_right() =~= routed_right(self.classifier(), self.source_history()).take(
            self.out_right().len() as int,
        ));
    }

    /// Completion is final: a branch that has observed the end of the
    /// source has already delivered every payload routed to it, holds
    /// nothing, and the exhausted source can never route it another.
    pub proof fn lemma_end_is_final(&self)
        requires
            self.wf(),
        ensures
            self.end_seen_left() ==> self.exhausted() && self.pending_left().len() == 0
                && self.out_left() == routed_left(self.classifier(), self.source_history()),
            self.end_seen_right() ==> self.exhausted() && self.pending_right().len() == 0
                && self.out_right() == routed_right(self.classifier(), self.source_history()),
    {
        if self.end_seen_left() {
            assert(self.out_left() =~= self.out_left() + self.pending_left());
        }
        if self.end_seen_right() {
            assert(self.out_right() =~= self.out_right() + self.pending_right());
        }
    }


    /// No item follows completion: once a branch
    /// has seen the end of the source, no later poll step of that branch
    /// ever delivers a payload, and completion stands.  A poll that reaches
    /// the source again finds it exhausted, and resolving its completion
    /// answer reports the end again.
    pub proof fn lemma_no_item_after_end(
        pre: Self,
        post: Self,
        step_left: Step<L>,
        step_right: Step<R>,
    )
        requires
            pre.wf(),
        ensures
            pre.end_seen_left() && Self::poll_step_left(pre, post, step_left) ==> !(step_left
                is Item) && post.end_seen_left() && post.exhausted(),
            pre.end_seen_right() && Self::poll_step_right(pre, post, step_right) ==> !(step_right
                is Item) && post.end_seen_right() && post.exhausted(),
    {
    }

    /// Backpressure never overflows: neither branch's buffer ever holds
    /// more than `N` payloads, and by [`Self::poll_step_left`] a branch
    /// facing a full sibling buffer is told [`Step::Saturated`] instead of
    /// being allowed to pull the source.
    pub proof fn lemma_bounded(&self)
        requires
            self.wf(),
        ensures
            self.pending_left().len() <= N,
            self.pending_right().len() <= N,
    {
    }
}

/// The left branch's front end: a role tag delegating to the engine's
/// left-branch protocol under the caller's exclusive access.
pub struct LeftSplitByMapBuffered<I, L, R, C, const N: usize> {
    role: PhantomData<(I, L, R, C)>,
}

impl<I, L, R, C: MapClassifier<I, L, R>, const N: usize> LeftSplitByMapBuffered<I, L, R, C, N> {
    /// A handle for the left branch.
    pub fn new() -> (r: Self) {
        LeftSplitByMapBuffered { role: PhantomData }
    }

    /// The pre-upstream poll step for this handle's branch.
    pub fn poll_next(&self, engine: &mut SplitByMapBuffered<I, L, R, C, N>) -> (step: Step<L>)
        requires
            old(engine).wf(),
        ensures
            final(engine).wf(),
            SplitByMapBuffered::poll_step_left(*old(engine), *final(engine), step),
    {
        engine.poll_next_left()
    }

    /// Folds the source's answer into a poll of this handle's branch.
    pub fn resolve(
        &self,
        engine: &mut SplitByMapBuffered<I, L, R, C, N>,
        event: SourceEvent<I>,
    ) -> (out: PollOutcome<L>)
        requires
            old(engine).wf(),
            old(engine).pending_left().len() == 0,
            old(engine).pending_right().len() < N,
            old(engine).exhausted() ==> event is End,
        ensures
            final(engine).wf(),
            SplitByMapBuffered::resolve_step_left(*old(engine), *final(engine), event, out),
    {
        engine.resolve_left(event)
    }
}

/// The right branch's front end; see [`LeftSplitByMapBuffered`].
pub struct RightSplitByMapBuffered<I, L, R, C, const N: usize> {
    role: PhantomData<(I, L, R, C)>,
}

impl<I, L, R, C: MapClassifier<I, L, R>, const N: usize> RightSplitByMapBuffered<I, L, R, C, N> {
    /// A handle for the right branch.
    pub fn new() -> (r: Self) {
        RightSplitByMapBuffered { role: PhantomData }
    }

    /// The pre-upstream poll step for this handle's branch.
    pub fn poll_next(&self, engine: &mut SplitByMapBuffered<I, L, R, C, N>) -> (step: Step<R>)
        requires
            old(engine).wf(),
        ensures
            final(engine).wf(),
            SplitByMapBuffered::poll_step_right(*old(engine), *final(engine), step),
    {
        engine.poll_next_right()
    }

    /// Folds the source's answer into a poll of this handle's branch.
    pub fn resolve(
        &self,
        engine: &mut SplitByMapBuffered<I, L, R, C, N>,
        event: SourceEvent<I>,
    ) -> (out: PollOutcome<R>)
        requires
            old(engine).wf(),
            old(engine).pending_right().len() == 0,
            old(engine).pending_left().len() < N,
            old(engine).exhausted() ==> event is End,
        ensures
            final(engine).wf(),
            SplitByMapBuffered::resolve_step_right(*old(engine), *final(engine), event, out),
    {
        engine.resolve_right(event)
    }
}

} // verus!
