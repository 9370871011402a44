use split_stream_by::{PartitionBool, PartitionClassifier, PartitionMap};
use split_stream_by::{FalsePartitionMap, PollOutcome, SourceEvent, Step, TruePartitionMap};

/// Splits each number into its half (for even input) or the number itself
/// (for odd input), so the two branches carry different types.
struct Halve;

impl PartitionClassifier<u32, u32, String> for Halve {
    fn verdict(&self, item: u32) -> PartitionBool<u32, String> {
        self.classify(item)
    }

    fn classify(&self, item: u32) -> PartitionBool<u32, String> {
        if item % 2 == 0 {
            PartitionBool::True(item / 2)
        } else {
            PartitionBool::False(format!("odd:{}", item))
        }
    }
}

/// Drives both branches round-robin against an in-memory source until both
/// observe completion, returning what each branch delivered.
fn drive(source: &[u32]) -> (Vec<u32>, Vec<String>) {
    let mut engine = PartitionMap::new(Halve);
    let mut next = 0usize;
    let mut out_true = Vec::new();
    let mut out_false = Vec::new();
    let mut done_true = false;
    let mut done_false = false;
    let mut fuel = 0;
    while !(done_true && done_false) {
        fuel += 1;
        assert!(fuel < 1000, "the driver made no progress");
        if !done_true {
            match engine.poll_next_true() {
                Step::Item(half) => out_true.push(half),
                Step::Saturated => {}
                Step::Upstream => {
                    let event = if next < source.len() {
                        next += 1;
                        SourceEvent::Item(source[next - 1])
                    } else {
                        SourceEvent::End
                    };
                    match engine.resolve_true(event) {
                        PollOutcome::Item(half) => out_true.push(half),
                        PollOutcome::End { .. } => done_true = true,
                        PollOutcome::Pending { .. } => {}
                    }
                }
            }
        }
        if !done_false {
            match engine.poll_next_false() {
                Step::Item(text) => out_false.push(text),
                Step::Saturated => {}
                Step::Upstream => {
                    let event = if next < source.len() {
                        next += 1;
                        SourceEvent::Item(source[next - 1])
                    } else {
                        SourceEvent::End
                    };
                    match engine.resolve_false(event) {
                        PollOutcome::Item(text) => out_false.push(text),
                        PollOutcome::End { .. } => done_false = true,
                        PollOutcome::Pending { .. } => {}
                    }
                }
            }
        }
    }
    (out_true, out_false)
}

#[test]
fn partition_map_splits_payload_types() {
    let (halves, texts) = drive(&[8, 3, 4, 7]);
    assert_eq!(halves, vec![4, 2]);
    assert_eq!(texts, vec!["odd:3".to_string(), "odd:7".to_string()]);
}

#[test]
fn partition_map_handles_delegate_to_engine() {
    let mut engine = PartitionMap::new(Halve);
    let true_handle: TruePartitionMap<u32, u32, String, Halve> = TruePartitionMap::new();
    let false_handle: FalsePartitionMap<u32, u32, String, Halve> = FalsePartitionMap::new();
    assert!(matches!(true_handle.poll_next(&mut engine), Step::Upstream));
    assert_eq!(
        true_handle.resolve(&mut engine, SourceEvent::Item(6)),
        PollOutcome::Item(3)
    );
    assert!(matches!(false_handle.poll_next(&mut engine), Step::Upstream));
    assert_eq!(
        false_handle.resolve(&mut engine, SourceEvent::Item(6)),
        PollOutcome::Pending { wake_sibling: true }
    );
    assert_eq!(true_handle.poll_next(&mut engine), Step::Item(3));
}
