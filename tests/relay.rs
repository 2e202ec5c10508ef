use dstack_mesh::{relay_all, BodyBuffer, ProxyError, PullStep, StreamCursor};

#[test]
fn relay_reproduces_bytes_for_any_buffer() {
    let chunks: Vec<Vec<u8>> = vec![vec![1, 2, 3], vec![], vec![4], vec![5, 6, 7, 8, 9, 10], vec![]];
    let all: Vec<u8> = (1..=10).collect();
    for room in [1usize, 2, 3, 4, 7, 64] {
        assert_eq!(relay_all(chunks.clone(), room), all, "room {room}");
    }
    assert_eq!(relay_all(vec![], 5), Vec::<u8>::new());
}

#[test]
fn cursor_steps() {
    let mut c = StreamCursor::new();
    assert!(matches!(c.poll_read(4), PullStep::NeedChunk));
    c.accept_chunk(vec![1, 2, 3, 4, 5]);
    match c.poll_read(2) {
        PullStep::Filled(b) => assert_eq!(b, vec![1, 2]),
        _ => panic!("expected bytes"),
    }
    match c.poll_read(10) {
        PullStep::Filled(b) => assert_eq!(b, vec![3, 4, 5]),
        _ => panic!("expected bytes"),
    }
    assert!(matches!(c.poll_read(10), PullStep::NeedChunk));
}

#[test]
fn body_within_limit_is_kept() {
    let mut b = BodyBuffer::new(5);
    assert_eq!(b.absorb(&[1, 2]), Ok(()));
    assert_eq!(b.absorb(&[3, 4, 5]), Ok(()));
    assert_eq!(b.absorb(&[]), Ok(()));
    assert_eq!(b.into_bytes(), vec![1, 2, 3, 4, 5]);
}

#[test]
fn oversized_body_is_refused() {
    let mut b = BodyBuffer::new(5);
    assert_eq!(b.absorb(&[1, 2, 3]), Ok(()));
    assert_eq!(b.absorb(&[4, 5, 6]), Err(ProxyError::PayloadTooLarge));
    assert_eq!(b.into_bytes(), vec![1, 2, 3]);
    let mut b = BodyBuffer::new(0);
    assert_eq!(b.absorb(&[1]), Err(ProxyError::PayloadTooLarge));
}
