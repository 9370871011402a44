use split_stream_by::RingBuf;

#[test]
fn test_buf_1() {
    let mut buf = RingBuf::<_, 1>::new();
    assert!(buf.push_back(1).is_none());
    assert!(buf.push_back(2).is_some());
    assert_eq!(buf.pop_front(), Some(1));
}

#[test]
fn test_buf_3() {
    let mut buf = RingBuf::<_, 3>::new();
    assert!(buf.push_back(1).is_none());
    assert!(buf.push_back(2).is_none());
    assert!(buf.push_back(3).is_none());
    assert!(buf.push_back(4).is_some());
    assert_eq!(buf.pop_front(), Some(1));
    assert_eq!(buf.pop_front(), Some(2));
    assert_eq!(buf.pop_front(), Some(3));
    assert_eq!(buf.pop_front(), None);
}

#[test]
fn test_buf_wraps_around() {
    let mut buf = RingBuf::<_, 2>::new();
    assert_eq!(buf.remaining(), 2);
    assert!(buf.push_back(1).is_none());
    assert!(buf.push_back(2).is_none());
    assert_eq!(buf.remaining(), 0);
    assert_eq!(buf.pop_front(), Some(1));
    assert_eq!(buf.remaining(), 1);
    assert!(buf.push_back(3).is_none());
    assert_eq!(buf.pop_front(), Some(2));
    assert_eq!(buf.pop_front(), Some(3));
    assert_eq!(buf.pop_front(), None);
    assert_eq!(buf.remaining(), 2);
}

#[test]
fn test_buf_zero_capacity_rejects() {
    let mut buf = RingBuf::<_, 0>::new();
    assert_eq!(buf.remaining(), 0);
    assert_eq!(buf.push_back(7), Some(7));
    assert_eq!(buf.pop_front(), None);
}

#[test]
fn test_buf_rejection_does_not_mutate() {
    let mut buf = RingBuf::<_, 1>::new();
    assert!(buf.push_back(10).is_none());
    assert_eq!(buf.push_back(11), Some(11));
    assert_eq!(buf.push_back(12), Some(12));
    assert_eq!(buf.pop_front(), Some(10));
    assert_eq!(buf.pop_front(), None);
}
