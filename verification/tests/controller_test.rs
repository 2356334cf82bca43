//! Controller decisions, frame debug text and counting laws on concrete values.

use cscp_connector::ipc::controller::{controller_after_state, should_log, ControllerNext};
use cscp_connector::ipc::layout::{CscpShmHeader, DefaultShmLayout};
use cscp_connector::ipc::spsc_queue::{CscpFrame, SpscQueue};

#[test]
fn test_controller_decisions() {
    assert_eq!(controller_after_state(1, 0, 0), ControllerNext::Continue);
    assert_eq!(controller_after_state(1_000_000, 0, 0), ControllerNext::Continue);
    assert_eq!(controller_after_state(5, 10, 0), ControllerNext::Continue);
    assert_eq!(controller_after_state(10, 10, 0), ControllerNext::SignalShutdownAndStop);
    assert_eq!(controller_after_state(11, 10, 0), ControllerNext::SignalShutdownAndStop);
    assert_eq!(controller_after_state(10, 10, 1), ControllerNext::Stop);
    assert_eq!(controller_after_state(3, 0, 7), ControllerNext::Stop);
}

#[test]
fn test_should_log() {
    assert!(should_log(1));
    assert!(should_log(50));
    assert!(should_log(100));
    assert!(should_log(0));
    assert!(!should_log(2));
    assert!(!should_log(49));
    assert!(!should_log(51));
}

#[test]
fn test_frame_debug_text() {
    let mut f = CscpFrame::new();
    f.sequence = 42;
    assert_eq!(f.debug_text(), "CscpFrame { sequence: 42, terminated: 0, truncated: 0 }");
    f.sequence = u64::MAX;
    f.terminated = 1;
    f.truncated = 255;
    f.state[0] = 1.5f32.to_bits();
    assert_eq!(
        f.debug_text(),
        "CscpFrame { sequence: 18446744073709551615, terminated: 1, truncated: 255 }"
    );
}

#[test]
fn test_default_layout() {
    assert_eq!(DefaultShmLayout::region_size(), 4416);
    let l = DefaultShmLayout::new();
    assert_eq!(l.q_env_to_ctrl.capacity(), 16);
}

#[test]
fn test_len_counts_pushes_minus_pops() {
    let mut q = SpscQueue::<4>::new();
    q.init();
    let f = CscpFrame::new();
    let mut accepted = 0usize;
    let mut taken = 0usize;
    for step in 0..40u32 {
        if step % 3 == 2 {
            if q.try_pop().is_some() {
                taken += 1;
            }
        } else if q.try_push(&f) {
            accepted += 1;
        }
        assert_eq!(q.len(), accepted - taken);
        assert!(q.len() <= 4);
    }
}

#[test]
fn test_shutdown_stays_until_init() {
    let mut l = DefaultShmLayout::new();
    l.init();
    l.header.signal_shutdown();
    let f = CscpFrame::new();
    assert!(l.publish_state(&f, true).is_ok());
    assert!(l.recv_state().is_some());
    assert!(l.publish_command(&f, false).is_err());
    assert!(l.recv_command().is_none());
    l.header.signal_shutdown();
    assert!(l.header.is_shutdown());
    assert!(l.header.validate());
    l.init();
    assert!(!l.header.is_shutdown());
    let h = CscpShmHeader::default();
    assert!(!h.is_shutdown());
}
