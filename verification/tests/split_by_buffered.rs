use split_stream_by::{Classifier, PollOutcome, SourceEvent, SplitByBuffered, Step};
use split_stream_by::{FalseSplitByBuffered, TrueSplitByBuffered};

struct Even;

impl Classifier<i32> for Even {
    fn verdict(&self, item: i32) -> bool {
        self.classify(&item)
    }

    fn classify(&self, item: &i32) -> bool {
        item % 2 == 0
    }
}

/// Drives both branches round-robin against an in-memory source until both
/// observe completion, returning what each branch delivered.
fn drive<const N: usize>(source: &[i32]) -> (Vec<i32>, Vec<i32>) {
    let mut engine = SplitByBuffered::<i32, Even, N>::new(Even);
    let mut next = 0usize;
    let mut out_true = Vec::new();
    let mut out_false = Vec::new();
    let mut done_true = false;
    let mut done_false = false;
    let mut fuel = 0;
    while !(done_true && done_false) {
        fuel += 1;
        assert!(fuel < 1000, "the driver made no progress");
        if !done_true {
            match engine.poll_next_true() {
                Step::Item(i) => out_true.push(i),
                Step::Saturated => {}
                Step::Upstream => {
                    let event = if next < source.len() {
                        next += 1;
                        SourceEvent::Item(source[next - 1])
                    } else {
                        SourceEvent::End
                    };
                    match engine.resolve_true(event) {
                        PollOutcome::Item(i) => out_true.push(i),
                        PollOutcome::End { .. } => done_true = true,
                        PollOutcome::Pending { .. } => {}
                    }
                }
            }
        }
        if !done_false {
            match engine.poll_next_false() {
                Step::Item(i) => out_false.push(i),
                Step::Saturated => {}
                Step::Upstream => {
                    let event = if next < source.len() {
                        next += 1;
                        SourceEvent::Item(source[next - 1])
                    } else {
                        SourceEvent::End
                    };
                    match engine.resolve_false(event) {
                        PollOutcome::Item(i) => out_false.push(i),
                        PollOutcome::End { .. } => done_false = true,
                        PollOutcome::Pending { .. } => {}
                    }
                }
            }
        }
    }
    (out_true, out_false)
}

#[test]
fn split_by_buffered_even_and_odd() {
    let (evens, odds) = drive::<3>(&[0, 1, 2, 3, 4, 5]);
    assert_eq!(evens, vec![0, 2, 4]);
    assert_eq!(odds, vec![1, 3, 5]);
}

#[test]
fn split_by_buffered_capacity_one_unpolled_branch() {
    // Capacity 1, five non-matching items, and the true branch is never
    // polled: the false branch still delivers everything, because the true
    // branch's buffer is only ever needed for items classified true, and
    // none occurs.
    let mut engine = SplitByBuffered::<i32, Even, 1>::new(Even);
    let source = [1, 3, 5, 7, 9];
    let mut next = 0usize;
    let mut out = Vec::new();
    loop {
        match engine.poll_next_false() {
            Step::Item(i) => out.push(i),
            Step::Saturated => panic!("the true branch's buffer never fills"),
            Step::Upstream => {
                let event = if next < source.len() {
                    next += 1;
                    SourceEvent::Item(source[next - 1])
                } else {
                    SourceEvent::End
                };
                match engine.resolve_false(event) {
                    PollOutcome::Item(i) => out.push(i),
                    PollOutcome::End { .. } => break,
                    PollOutcome::Pending { .. } => {}
                }
            }
        }
    }
    assert_eq!(out, vec![1, 3, 5, 7, 9]);
}

#[test]
fn split_by_buffered_saturation_at_capacity() {
    // Capacity 2: the true branch parks two odd items for its sibling,
    // then must be refused the source until the sibling drains one slot.
    let mut engine = SplitByBuffered::<i32, Even, 2>::new(Even);
    assert!(matches!(engine.poll_next_true(), Step::Upstream));
    assert_eq!(
        engine.resolve_true(SourceEvent::Item(1)),
        PollOutcome::Pending { wake_sibling: true }
    );
    assert!(matches!(engine.poll_next_true(), Step::Upstream));
    assert_eq!(
        engine.resolve_true(SourceEvent::Item(3)),
        PollOutcome::Pending { wake_sibling: true }
    );
    // Both cells of the sibling's buffer are now occupied.
    assert!(matches!(engine.poll_next_true(), Step::Saturated));
    assert!(matches!(engine.poll_next_true(), Step::Saturated));
    // Draining one item frees a cell, and the true branch may pull again.
    assert_eq!(engine.poll_next_false(), Step::Item(1));
    assert!(matches!(engine.poll_next_true(), Step::Upstream));
    assert_eq!(
        engine.resolve_true(SourceEvent::Item(2)),
        PollOutcome::Item(2)
    );
    // The remaining parked item comes out in order.
    assert_eq!(engine.poll_next_false(), Step::Item(3));
}

#[test]
fn split_by_buffered_handles_delegate_to_engine() {
    let mut engine = SplitByBuffered::<i32, Even, 2>::new(Even);
    let true_handle: TrueSplitByBuffered<i32, Even, 2> = TrueSplitByBuffered::new();
    let false_handle: FalseSplitByBuffered<i32, Even, 2> = FalseSplitByBuffered::new();
    assert!(matches!(true_handle.poll_next(&mut engine), Step::Upstream));
    assert_eq!(
        true_handle.resolve(&mut engine, SourceEvent::Item(5)),
        PollOutcome::Pending { wake_sibling: true }
    );
    assert_eq!(false_handle.poll_next(&mut engine), Step::Item(5));
    assert!(matches!(false_handle.poll_next(&mut engine), Step::Upstream));
    assert!(matches!(
        false_handle.resolve(&mut engine, SourceEvent::End),
        PollOutcome::End { .. }
    ));
}
