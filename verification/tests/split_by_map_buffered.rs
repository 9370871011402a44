use split_stream_by::{Either, MapClassifier, SplitByMapBuffered};
use split_stream_by::{
    LeftSplitByMapBuffered, PollOutcome, RightSplitByMapBuffered, SourceEvent, Step,
};

/// Splits signed numbers into magnitudes: negatives to the left branch,
/// the rest to the right branch.
struct BySign;

impl MapClassifier<i64, u64, u64> for BySign {
    fn verdict(&self, item: i64) -> Either<u64, u64> {
        self.classify(item)
    }

    fn classify(&self, item: i64) -> Either<u64, u64> {
        if item < 0 {
            Either::Left(item.unsigned_abs())
        } else {
            Either::Right(item as u64)
        }
    }
}

/// Drives both branches round-robin against an in-memory source until both
/// observe completion, returning what each branch delivered.
fn drive<const N: usize>(source: &[i64]) -> (Vec<u64>, Vec<u64>) {
    let mut engine = SplitByMapBuffered::<i64, u64, u64, BySign, N>::new(BySign);
    let mut next = 0usize;
    let mut out_left = Vec::new();
    let mut out_right = Vec::new();
    let mut done_left = false;
    let mut done_right = false;
    let mut fuel = 0;
    while !(done_left && done_right) {
        fuel += 1;
        assert!(fuel < 1000, "the driver made no progress");
        if !done_left {
            match engine.poll_next_left() {
                Step::Item(m) => out_left.push(m),
                Step::Saturated => {}
                Step::Upstream => {
                    let event = if next < source.len() {
                        next += 1;
                        SourceEvent::Item(source[next - 1])
                    } else {
                        SourceEvent::End
                    };
                    match engine.resolve_left(event) {
                        PollOutcome::Item(m) => out_left.push(m),
                        PollOutcome::End { .. } => done_left = true,
                        PollOutcome::Pending { .. } => {}
                    }
                }
            }
        }
        if !done_right {
            match engine.poll_next_right() {
                Step::Item(m) => out_right.push(m),
                Step::Saturated => {}
                Step::Upstream => {
                    let event = if next < source.len() {
                        next += 1;
                        SourceEvent::Item(source[next - 1])
                    } else {
                        SourceEvent::End
                    };
                    match engine.resolve_right(event) {
                        PollOutcome::Item(m) => out_right.push(m),
                        PollOutcome::End { .. } => done_right = true,
                        PollOutcome::Pending { .. } => {}
                    }
                }
            }
        }
    }
    (out_left, out_right)
}

#[test]
fn split_by_map_buffered_routes_by_sign() {
    let (negatives, rest) = drive::<2>(&[-3, 5, 0, -8, 13, -21]);
    assert_eq!(negatives, vec![3, 8, 21]);
    assert_eq!(rest, vec![5, 0, 13]);
}

#[test]
fn split_by_map_buffered_saturation_at_capacity() {
    // Capacity 1: one parked payload for the sibling already saturates it.
    let mut engine = SplitByMapBuffered::<i64, u64, u64, BySign, 1>::new(BySign);
    assert!(matches!(engine.poll_next_left(), Step::Upstream));
    assert_eq!(
        engine.resolve_left(SourceEvent::Item(4)),
        PollOutcome::Pending { wake_sibling: true }
    );
    assert!(matches!(engine.poll_next_left(), Step::Saturated));
    assert_eq!(engine.poll_next_right(), Step::Item(4));
    assert!(matches!(engine.poll_next_left(), Step::Upstream));
    assert_eq!(
        engine.resolve_left(SourceEvent::Item(-6)),
        PollOutcome::Item(6)
    );
}

#[test]
fn split_by_map_buffered_handles_delegate_to_engine() {
    let mut engine = SplitByMapBuffered::<i64, u64, u64, BySign, 3>::new(BySign);
    let left: LeftSplitByMapBuffered<i64, u64, u64, BySign, 3> = LeftSplitByMapBuffered::new();
    let right: RightSplitByMapBuffered<i64, u64, u64, BySign, 3> = RightSplitByMapBuffered::new();
    assert!(matches!(right.poll_next(&mut engine), Step::Upstream));
    assert_eq!(
        right.resolve(&mut engine, SourceEvent::Item(-2)),
        PollOutcome::Pending { wake_sibling: true }
    );
    assert_eq!(left.poll_next(&mut engine), Step::Item(2));
    assert!(matches!(left.poll_next(&mut engine), Step::Upstream));
    assert!(matches!(
        left.resolve(&mut engine, SourceEvent::End),
        PollOutcome::End { .. }
    ));
    // The sibling's next poll reaches the exhausted source as well.
    assert!(matches!(right.poll_next(&mut engine), Step::Upstream));
    assert!(matches!(
        right.resolve(&mut engine, SourceEvent::End),
        PollOutcome::End { .. }
    ));
}
