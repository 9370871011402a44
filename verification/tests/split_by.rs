use split_stream_by::{Classifier, PollOutcome, SourceEvent, SplitBy, Step};
use split_stream_by::{FalseSplitBy, TrueSplitBy};

struct Even;

impl Classifier<i32> for Even {
    fn verdict(&self, item: i32) -> bool {
        self.classify(&item)
    }

    fn classify(&self, item: &i32) -> bool {
        item % 2 == 0
    }
}

/// Drives both branches round-robin against an in-memory source until both
/// observe completion, returning what each branch delivered.
fn drive<C: Classifier<i32>>(source: &[i32], classifier: C) -> (Vec<i32>, Vec<i32>) {
    let mut engine = SplitBy::new(classifier);
    let mut next = 0usize;
    let mut out_true = Vec::new();
    let mut out_false = Vec::new();
    let mut done_true = false;
    let mut done_false = false;
    let mut fuel = 0;
    while !(done_true && done_false) {
        fuel += 1;
        assert!(fuel < 1000, "the driver made no progress");
        if !done_true {
            match engine.poll_next_true() {
                Step::Item(i) => out_true.push(i),
                Step::Saturated => {}
                Step::Upstream => {
                    let event = if next < source.len() {
                        next += 1;
                        SourceEvent::Item(source[next - 1])
                    } else {
                        SourceEvent::End
                    };
                    match engine.resolve_true(event) {
                        PollOutcome::Item(i) => out_true.push(i),
                        PollOutcome::End { .. } => done_true = true,
                        PollOutcome::Pending { .. } => {}
                    }
                }
            }
        }
        if !done_false {
            match engine.poll_next_false() {
                Step::Item(i) => out_false.push(i),
                Step::Saturated => {}
                Step::Upstream => {
                    let event = if next < source.len() {
                        next += 1;
                        SourceEvent::Item(source[next - 1])
                    } else {
                        SourceEvent::End
                    };
                    match engine.resolve_false(event) {
                        PollOutcome::Item(i) => out_false.push(i),
                        PollOutcome::End { .. } => done_false = true,
                        PollOutcome::Pending { .. } => {}
                    }
                }
            }
        }
    }
    (out_true, out_false)
}

#[test]
fn split_by_even_and_odd() {
    let (evens, odds) = drive(&[0, 1, 2, 3, 4, 5], Even);
    assert_eq!(evens, vec![0, 2, 4]);
    assert_eq!(odds, vec![1, 3, 5]);
}

#[test]
fn split_by_all_items_accounted_for() {
    let source = vec![7, 4, 4, 9, 2, 2, 2, 1];
    let (evens, odds) = drive(&source, Even);
    let mut merged = evens.clone();
    merged.extend(&odds);
    merged.sort();
    let mut expected = source.clone();
    expected.sort();
    assert_eq!(merged, expected);
    assert_eq!(evens, vec![4, 4, 2, 2, 2]);
    assert_eq!(odds, vec![7, 9, 1]);
}

#[test]
fn split_by_end_is_observed_again_after_completion() {
    let mut engine = SplitBy::new(Even);
    assert!(matches!(engine.poll_next_true(), Step::Upstream));
    // Discovering completion also asks for the sibling to be woken: its
    // next poll must observe completion itself.
    assert_eq!(
        engine.resolve_true(SourceEvent::End),
        PollOutcome::End { wake_sibling: true }
    );
    assert!(matches!(engine.poll_next_false(), Step::Upstream));
    assert!(matches!(
        engine.resolve_false(SourceEvent::End),
        PollOutcome::End { .. }
    ));
    // Polling after completion keeps observing completion, never an item.
    assert!(matches!(engine.poll_next_true(), Step::Upstream));
    assert!(matches!(
        engine.resolve_true(SourceEvent::End),
        PollOutcome::End { .. }
    ));
}

#[test]
fn split_by_one_branch_abandoned() {
    // The true-branch handle is dropped right away and never polled; the
    // false branch still drains a source none of whose items match, all the
    // way to completion.
    let mut engine = SplitBy::new(Even);
    let source = [1, 3, 5, 7, 9];
    let mut next = 0usize;
    let mut out = Vec::new();
    loop {
        match engine.poll_next_false() {
            Step::Item(i) => out.push(i),
            Step::Saturated => panic!("no item was ever routed to the abandoned branch"),
            Step::Upstream => {
                let event = if next < source.len() {
                    next += 1;
                    SourceEvent::Item(source[next - 1])
                } else {
                    SourceEvent::End
                };
                match engine.resolve_false(event) {
                    PollOutcome::Item(i) => out.push(i),
                    PollOutcome::End { .. } => break,
                    PollOutcome::Pending { .. } => {}
                }
            }
        }
    }
    assert_eq!(out, vec![1, 3, 5, 7, 9]);
}

#[test]
fn split_by_saturation_defers_to_sibling() {
    let mut engine = SplitBy::new(Even);
    // An odd item pulled by the true branch is parked for the false branch
    // and the true branch is told to wait.
    assert!(matches!(engine.poll_next_true(), Step::Upstream));
    assert_eq!(
        engine.resolve_true(SourceEvent::Item(3)),
        PollOutcome::Pending { wake_sibling: true }
    );
    // With the sibling's slot occupied the true branch must not pull again.
    assert!(matches!(engine.poll_next_true(), Step::Saturated));
    // The false branch finds its parked item without touching the source.
    assert_eq!(engine.poll_next_false(), Step::Item(3));
    // The slot is free again, so the true branch may pull.
    assert!(matches!(engine.poll_next_true(), Step::Upstream));
}

#[test]
fn split_by_handles_delegate_to_engine() {
    let mut engine = SplitBy::new(Even);
    let true_handle: TrueSplitBy<i32, Even> = TrueSplitBy::new();
    let false_handle: FalseSplitBy<i32, Even> = FalseSplitBy::new();
    assert!(matches!(true_handle.poll_next(&mut engine), Step::Upstream));
    assert_eq!(
        true_handle.resolve(&mut engine, SourceEvent::Item(8)),
        PollOutcome::Item(8)
    );
    assert!(matches!(false_handle.poll_next(&mut engine), Step::Upstream));
    assert_eq!(
        false_handle.resolve(&mut engine, SourceEvent::Item(8)),
        PollOutcome::Pending { wake_sibling: true }
    );
    assert_eq!(true_handle.poll_next(&mut engine), Step::Item(8));
}

#[test]
fn split_by_pending_source_changes_nothing() {
    let mut engine = SplitBy::new(Even);
    assert!(matches!(engine.poll_next_true(), Step::Upstream));
    assert_eq!(
        engine.resolve_true(SourceEvent::Pending),
        PollOutcome::Pending {
            wake_sibling: false
        }
    );
    assert!(matches!(engine.poll_next_true(), Step::Upstream));
    assert_eq!(
        engine.resolve_true(SourceEvent::Item(2)),
        PollOutcome::Item(2)
    );
}
