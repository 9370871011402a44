use split_stream_by::{Either, MapClassifier, SplitByMap};
use split_stream_by::{LeftSplitByMap, PollOutcome, RightSplitByMap, SourceEvent, Step};

#[derive(Debug, PartialEq)]
struct Request(u32);

#[derive(Debug, PartialEq)]
struct Response(u32);

enum Message {
    Request(Request),
    Response(Response),
}

struct ByTag;

impl MapClassifier<Message, Request, Response> for ByTag {
    fn verdict(&self, item: Message) -> Either<Request, Response> {
        self.classify(item)
    }

    fn classify(&self, item: Message) -> Either<Request, Response> {
        match item {
            Message::Request(req) => Either::Left(req),
            Message::Response(res) => Either::Right(res),
        }
    }
}

/// Drives both branches round-robin against an in-memory source until both
/// observe completion, returning what each branch delivered.
fn drive(source: Vec<Message>) -> (Vec<Request>, Vec<Response>) {
    let mut engine = SplitByMap::new(ByTag);
    let mut source = source.into_iter();
    let mut out_left = Vec::new();
    let mut out_right = Vec::new();
    let mut done_left = false;
    let mut done_right = false;
    let mut fuel = 0;
    while !(done_left && done_right) {
        fuel += 1;
        assert!(fuel < 1000, "the driver made no progress");
        if !done_left {
            match engine.poll_next_left() {
                Step::Item(req) => out_left.push(req),
                Step::Saturated => {}
                Step::Upstream => {
                    let event = match source.next() {
                        Some(message) => SourceEvent::Item(message),
                        None => SourceEvent::End,
                    };
                    match engine.resolve_left(event) {
                        PollOutcome::Item(req) => out_left.push(req),
                        PollOutcome::End { .. } => done_left = true,
                        PollOutcome::Pending { .. } => {}
                    }
                }
            }
        }
        if !done_right {
            match engine.poll_next_right() {
                Step::Item(res) => out_right.push(res),
                Step::Saturated => {}
                Step::Upstream => {
                    let event = match source.next() {
                        Some(message) => SourceEvent::Item(message),
                        None => SourceEvent::End,
                    };
                    match engine.resolve_right(event) {
                        PollOutcome::Item(res) => out_right.push(res),
                        PollOutcome::End { .. } => done_right = true,
                        PollOutcome::Pending { .. } => {}
                    }
                }
            }
        }
    }
    (out_left, out_right)
}

#[test]
fn split_by_map_routes_by_tag() {
    let source = vec![
        Message::Request(Request(1)),
        Message::Response(Response(2)),
        Message::Response(Response(3)),
    ];
    let (requests, responses) = drive(source);
    assert_eq!(requests, vec![Request(1)]);
    assert_eq!(responses, vec![Response(2), Response(3)]);
}

#[test]
fn split_by_map_keeps_per_branch_order() {
    let source = vec![
        Message::Response(Response(10)),
        Message::Request(Request(11)),
        Message::Response(Response(12)),
        Message::Request(Request(13)),
        Message::Request(Request(14)),
    ];
    let (requests, responses) = drive(source);
    assert_eq!(requests, vec![Request(11), Request(13), Request(14)]);
    assert_eq!(responses, vec![Response(10), Response(12)]);
}

#[test]
fn split_by_map_handles_delegate_to_engine() {
    let mut engine = SplitByMap::new(ByTag);
    let left: LeftSplitByMap<Message, Request, Response, ByTag> = LeftSplitByMap::new();
    let right: RightSplitByMap<Message, Request, Response, ByTag> = RightSplitByMap::new();
    assert!(matches!(left.poll_next(&mut engine), Step::Upstream));
    assert_eq!(
        left.resolve(&mut engine, SourceEvent::Item(Message::Response(Response(9)))),
        PollOutcome::Pending { wake_sibling: true }
    );
    assert!(matches!(left.poll_next(&mut engine), Step::Saturated));
    assert_eq!(right.poll_next(&mut engine), Step::Item(Response(9)));
    assert!(matches!(right.poll_next(&mut engine), Step::Upstream));
    assert!(matches!(
        right.resolve(&mut engine, SourceEvent::End),
        PollOutcome::End { .. }
    ));
}
