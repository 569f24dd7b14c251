use pathrs_renderer::pipeline::{
    pixel_index, prepare_buffer, receive_command, CmdDecision, CmdPoll, FrameSize, FrameState,
    RendererCmd,
};

fn drain(polls: &[CmdPoll]) -> CmdDecision {
    let mut pending = None;
    for &p in polls {
        match receive_command(pending, p) {
            CmdDecision::KeepPolling { pending: next } => pending = next,
            d => return d,
        }
    }
    CmdDecision::KeepPolling { pending }
}

fn resize(width: u32, height: u32) -> CmdPoll {
    CmdPoll::Received(RendererCmd::Resize { width, height })
}

#[test]
fn last_resize_wins() {
    let d = drain(&[resize(10, 10), resize(20, 30), resize(40, 50), CmdPoll::Empty]);
    assert_eq!(d, CmdDecision::Apply { resize: Some(FrameSize { width: 40, height: 50 }) });
}

#[test]
fn empty_queue_applies_nothing() {
    assert_eq!(drain(&[CmdPoll::Empty]), CmdDecision::Apply { resize: None });
}

#[test]
fn stop_ends_loop_even_after_resize() {
    let d = drain(&[resize(10, 10), CmdPoll::Received(RendererCmd::Stop), resize(3, 3), CmdPoll::Empty]);
    assert_eq!(d, CmdDecision::Stop);
}

#[test]
fn closed_channel_is_stop() {
    assert_eq!(drain(&[resize(1, 1), CmdPoll::Disconnected]), CmdDecision::Stop);
}

#[test]
fn resize_resets_samples() {
    let mut s = FrameState::new(4, 3);
    s.begin_pass();
    s.begin_pass();
    assert_eq!(s.samples, 2);
    assert!(s.apply_resize(8, 6));
    assert_eq!(s, FrameState { width: 8, height: 6, samples: 0 });
    assert_eq!(s.pixel_count(), Some(48));
}

#[test]
fn resize_twice_is_resize_once() {
    let mut once = FrameState::new(4, 3);
    once.begin_pass();
    let mut twice = once;
    once.apply_resize(7, 5);
    twice.apply_resize(7, 5);
    twice.apply_resize(7, 5);
    assert_eq!(once, twice);
}

#[test]
fn zero_resize_keeps_frame_then_recovers() {
    let mut s = FrameState::new(4, 3);
    assert_eq!(s.begin_pass(), 1);
    assert!(!s.apply_resize(0, 0));
    assert_eq!(s, FrameState { width: 4, height: 3, samples: 1 });
    assert!(s.apply_resize(5, 2));
    assert_eq!(s.begin_pass(), 1);
    let mut buf = vec![1.0f32; 12];
    prepare_buffer(&mut buf, s.pixel_count().unwrap(), 0.0, true);
    assert_eq!(buf, vec![0.0; 10]);
}

#[test]
fn prepare_buffer_keeps_matching_buffer() {
    let mut buf = vec![3u32, 4, 5];
    prepare_buffer(&mut buf, 3, 0, false);
    assert_eq!(buf, vec![3, 4, 5]);
    prepare_buffer(&mut buf, 2, 9, false);
    assert_eq!(buf, vec![9, 9]);
}

#[test]
fn pixel_index_is_row_major() {
    assert_eq!(pixel_index(0, 0, 3, 2), 0);
    assert_eq!(pixel_index(2, 0, 3, 2), 2);
    assert_eq!(pixel_index(1, 1, 3, 2), 4);
}

#[test]
fn pixel_count_overflow_is_none() {
    let s = FrameState::new(u32::MAX, u32::MAX);
    assert_eq!(s.pixel_count(), (u32::MAX as usize).checked_mul(u32::MAX as usize));
}
