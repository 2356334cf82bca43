//! Region header, layout and endpoint decision tests.

use cscp_connector::error::CscpError;
use cscp_connector::ipc::layout::{
    FRAME_ACTION_OFFSET, FRAME_PAYLOAD_BYTES, FRAME_REWARD_OFFSET, FRAME_RULE_MASK_OFFSET,
    FRAME_STATE_OFFSET, FRAME_TERMINATED_OFFSET, HEADER_SHUTDOWN_OFFSET,
};
use cscp_connector::ipc::layout::{plan_publish, CscpShmHeader, ShmLayout, SHM_ABI_VERSION, SHM_MAGIC};
use cscp_connector::ipc::shm_region::shm_object_name;
use cscp_connector::ipc::spsc_queue::CscpFrame;

fn frame(seq: u64) -> CscpFrame {
    let mut f = CscpFrame::new();
    f.sequence = seq;
    f
}

#[test]
fn test_header_constants() {
    assert_eq!(SHM_MAGIC, 0x43534350);
    assert_eq!(&SHM_MAGIC.to_be_bytes(), b"CSCP");
    assert_eq!(SHM_ABI_VERSION, 0x00030000);
}

#[test]
fn test_zeroed_header_does_not_validate() {
    let h = CscpShmHeader::default();
    assert!(!h.validate());
    assert!(!h.is_shutdown());
    assert_eq!(
        h.check_attach(),
        Err(CscpError::AbiVersionMismatch { expected: SHM_ABI_VERSION, actual: 0 })
    );
}

#[test]
fn test_init_then_validate() {
    let mut h = CscpShmHeader::default();
    h.shutdown = 1;
    h.init();
    assert_eq!(h.magic, SHM_MAGIC);
    assert_eq!(h.abi_version, SHM_ABI_VERSION);
    assert!(h.validate());
    assert!(!h.is_shutdown());
    assert_eq!(h.check_attach(), Ok(()));
}

#[test]
fn test_wrong_magic_or_version_rejected() {
    let mut h = CscpShmHeader::default();
    h.init();
    h.magic = 0xdeadbeef;
    assert!(!h.validate());
    assert_eq!(
        h.check_attach(),
        Err(CscpError::AbiVersionMismatch { expected: SHM_ABI_VERSION, actual: SHM_ABI_VERSION })
    );
    h.init();
    h.abi_version = 0x00020000;
    assert!(!h.validate());
    assert_eq!(
        h.check_attach(),
        Err(CscpError::AbiVersionMismatch { expected: SHM_ABI_VERSION, actual: 0x00020000 })
    );
}

#[test]
fn test_shutdown_signal() {
    let mut h = CscpShmHeader::default();
    h.init();
    assert!(!h.is_shutdown());
    h.signal_shutdown();
    assert!(h.is_shutdown());
    assert_eq!(h.shutdown, 1);
    assert!(h.validate());
}

#[test]
fn test_region_size() {
    assert_eq!(ShmLayout::<16>::region_size(), 4416);
    assert_eq!(ShmLayout::<1>::region_size(), 576);
    assert_eq!(ShmLayout::<4>::region_size(), 64 + 2 * (128 + 4 * 128));
}

#[test]
fn test_layout_init() {
    let mut l = ShmLayout::<4>::new();
    assert!(!l.header.validate());
    assert!(l.publish_state(&frame(1), true).is_ok());
    assert!(l.publish_command(&frame(2), true).is_ok());
    l.init();
    assert!(l.header.validate());
    assert!(l.q_env_to_ctrl.is_empty());
    assert!(l.q_ctrl_to_env.is_empty());
}

#[test]
fn test_state_and_command_exchange() {
    let mut l = ShmLayout::<16>::new();
    l.init();
    for seq in 1..=10u64 {
        assert_eq!(l.publish_state(&frame(seq), true), Ok(()));
    }
    assert!(l.recv_command().is_none());
    for seq in 1..=10u64 {
        let s = l.recv_state().expect("state frame");
        assert_eq!(s.sequence, seq);
        assert_eq!(l.publish_command(&frame(s.sequence + 1000), true), Ok(()));
    }
    assert!(l.recv_state().is_none());
    for seq in 1..=10u64 {
        assert_eq!(l.recv_command().unwrap().sequence, seq + 1000);
    }
}

#[test]
fn test_rate_limited_publish_leaves_queue() {
    let mut l = ShmLayout::<4>::new();
    l.init();
    assert_eq!(l.publish_state(&frame(1), false), Err(CscpError::RateLimited));
    assert_eq!(l.publish_command(&frame(2), false), Err(CscpError::RateLimited));
    assert!(l.q_env_to_ctrl.is_empty());
    assert!(l.q_ctrl_to_env.is_empty());
}

#[test]
fn test_full_state_queue() {
    let mut l = ShmLayout::<2>::new();
    l.init();
    assert_eq!(l.publish_state(&frame(1), true), Ok(()));
    assert_eq!(l.publish_state(&frame(2), true), Ok(()));
    assert_eq!(l.publish_state(&frame(3), true), Err(CscpError::QueueFull));
    assert_eq!(l.publish_state(&frame(3), false), Err(CscpError::RateLimited));
    assert_eq!(l.recv_state().unwrap().sequence, 1);
    assert_eq!(l.recv_state().unwrap().sequence, 2);
    assert!(l.recv_state().is_none());
}

#[test]
fn test_plan_publish() {
    assert_eq!(plan_publish(false, 0, 0, 4), Err(CscpError::RateLimited));
    assert_eq!(plan_publish(false, 0, 4, 4), Err(CscpError::RateLimited));
    assert_eq!(plan_publish(true, 0, 4, 4), Err(CscpError::QueueFull));
    assert_eq!(plan_publish(true, 1, 4, 4), Ok((0, 5)));
    assert_eq!(plan_publish(true, usize::MAX, usize::MAX, 16), Ok((15, 0)));
}

#[test]
fn test_object_name() {
    assert_eq!(shm_object_name("cscp_sim").unwrap(), b"/cscp_sim".to_vec());
    assert_eq!(shm_object_name("/cscp_sim").unwrap(), b"/cscp_sim".to_vec());
    assert_eq!(shm_object_name("").unwrap(), b"/".to_vec());
    assert_eq!(shm_object_name("//x").unwrap(), b"//x".to_vec());
    let again = String::from_utf8(shm_object_name("cscp_sim").unwrap()).unwrap();
    assert_eq!(shm_object_name(&again).unwrap(), again.as_bytes().to_vec());
}

#[test]
fn test_object_name_with_nul_is_refused() {
    assert_eq!(
        shm_object_name("bad\0name"),
        Err(CscpError::ShmOpenFailed("Invalid SHM name".to_string()))
    );
    assert!(shm_object_name("/\0").is_err());
}

#[test]
fn test_queue_offsets() {
    assert_eq!(ShmLayout::<16>::queue_offsets(), (64, 2240));
    assert_eq!(ShmLayout::<1>::queue_offsets(), (64, 320));
    let (_, second) = ShmLayout::<4>::queue_offsets();
    assert_eq!(second + 128 + 4 * 128, ShmLayout::<4>::region_size());
}

#[test]
fn test_memory_map_constants() {
    assert_eq!(HEADER_SHUTDOWN_OFFSET, 0x08);
    assert_eq!(FRAME_TERMINATED_OFFSET, 0x10);
    assert_eq!(FRAME_STATE_OFFSET, 0x18);
    assert_eq!(FRAME_ACTION_OFFSET, 0x58);
    assert_eq!(FRAME_REWARD_OFFSET, 0x68);
    assert_eq!(FRAME_RULE_MASK_OFFSET, 0x70);
    assert_eq!(FRAME_PAYLOAD_BYTES, 120);
}
