use macroquad::exec::{resume, FileLoadingFuture, FrameFuture, Poll};

#[test]
fn frame_future_is_ready_on_second_poll() {
    let mut f = FrameFuture::default();
    assert_eq!(f.poll(), Poll::Pending);
    assert_eq!(f.poll(), Poll::Ready(()));
    assert_eq!(f.poll(), Poll::Ready(()));
}

#[test]
fn resume_maps_poll_to_option() {
    assert_eq!(resume(Poll::Ready(5)), Some(5));
    assert_eq!(resume::<i32>(Poll::Pending), None);
}

#[test]
fn resume_frame_future() {
    let mut f = FrameFuture::default();
    assert_eq!(resume(f.poll()), None);
    assert_eq!(resume(f.poll()), Some(()));
}

#[test]
fn file_future_pending_until_complete() {
    let mut f = FileLoadingFuture::new();
    assert!(matches!(f.poll(), Poll::Pending));
    f.complete(Ok(vec![1, 2, 3]));
    match f.poll() {
        Poll::Ready(Ok(data)) => assert_eq!(data, vec![1, 2, 3]),
        _ => panic!("expected the loaded bytes"),
    }
    assert!(matches!(f.poll(), Poll::Pending));
}

#[test]
fn file_future_hands_back_errors() {
    let mut f = FileLoadingFuture::new();
    f.complete(Err(std::io::Error::new(std::io::ErrorKind::NotFound, "missing")));
    match resume(f.poll()) {
        Some(Err(e)) => assert_eq!(e.kind(), std::io::ErrorKind::NotFound),
        _ => panic!("expected the error"),
    }
}
