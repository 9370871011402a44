use split_stream_by::{Classifier, FalsePartition, Partition, TruePartition};
use split_stream_by::{PollOutcome, SourceEvent, Step};

struct Positive;

impl Classifier<i64> for Positive {
    fn verdict(&self, item: i64) -> bool {
        self.classify(&item)
    }

    fn classify(&self, item: &i64) -> bool {
        *item > 0
    }
}

/// Drives both branches round-robin against an in-memory source until both
/// observe completion, returning what each branch delivered.
fn drive(source: &[i64]) -> (Vec<i64>, Vec<i64>) {
    let mut engine = Partition::new(Positive);
    let mut next = 0usize;
    let mut out_true = Vec::new();
    let mut out_false = Vec::new();
    let mut done_true = false;
    let mut done_false = false;
    let mut fuel = 0;
    while !(done_true && done_false) {
        fuel += 1;
        assert!(fuel < 1000, "the driver made no progress");
        if !done_true {
            match engine.poll_next_true() {
                Step::Item(i) => out_true.push(i),
                Step::Saturated => {}
                Step::Upstream => {
                    let event = if next < source.len() {
                        next += 1;
                        SourceEvent::Item(source[next - 1])
                    } else {
                        SourceEvent::End
                    };
                    match engine.resolve_true(event) {
                        PollOutcome::Item(i) => out_true.push(i),
                        PollOutcome::End { .. } => done_true = true,
                        PollOutcome::Pending { .. } => {}
                    }
                }
            }
        }
        if !done_false {
            match engine.poll_next_false() {
                Step::Item(i) => out_false.push(i),
                Step::Saturated => {}
                Step::Upstream => {
                    let event = if next < source.len() {
                        next += 1;
                        SourceEvent::Item(source[next - 1])
                    } else {
                        SourceEvent::End
                    };
                    match engine.resolve_false(event) {
                        PollOutcome::Item(i) => out_false.push(i),
                        PollOutcome::End { .. } => done_false = true,
                        PollOutcome::Pending { .. } => {}
                    }
                }
            }
        }
    }
    (out_true, out_false)
}

#[test]
fn partition_by_sign() {
    let (positive, rest) = drive(&[3, -1, 0, 8, -7, 2]);
    assert_eq!(positive, vec![3, 8, 2]);
    assert_eq!(rest, vec![-1, 0, -7]);
}

#[test]
fn partition_empty_source_completes_both_branches() {
    let (positive, rest) = drive(&[]);
    assert_eq!(positive, Vec::<i64>::new());
    assert_eq!(rest, Vec::<i64>::new());
}

#[test]
fn partition_handles_delegate_to_engine() {
    let mut engine = Partition::new(Positive);
    let true_handle: TruePartition<i64, Positive> = TruePartition::new();
    let false_handle: FalsePartition<i64, Positive> = FalsePartition::new();
    assert!(matches!(false_handle.poll_next(&mut engine), Step::Upstream));
    assert_eq!(
        false_handle.resolve(&mut engine, SourceEvent::Item(5)),
        PollOutcome::Pending { wake_sibling: true }
    );
    assert!(matches!(false_handle.poll_next(&mut engine), Step::Saturated));
    assert_eq!(true_handle.poll_next(&mut engine), Step::Item(5));
    assert!(matches!(true_handle.poll_next(&mut engine), Step::Upstream));
    assert!(matches!(
        true_handle.resolve(&mut engine, SourceEvent::End),
        PollOutcome::End { .. }
    ));
}
