//! SPSC queue correctness tests: push/pop ordering, capacity limits and
//! wrap-around.

use cscp_connector::ipc::spsc_queue::{
    plan_pop, plan_push, queue_len, CscpFrame, PopPlan, PushPlan, SpscQueue,
};

fn make_queue<const N: usize>() -> SpscQueue<N> {
    let mut queue = SpscQueue::<N>::new();
    queue.init();
    queue
}

#[test]
fn test_push_pop_single() {
    let mut queue = make_queue::<4>();
    let mut frame = CscpFrame::new();
    frame.sequence = 42;
    frame.state[0] = 3.14f32.to_bits();

    assert!(queue.try_push(&frame));
    let popped = queue.try_pop().expect("should have one frame");
    assert_eq!(popped.sequence, 42);
    assert!((f32::from_bits(popped.state[0]) - 3.14).abs() < f32::EPSILON);
}

#[test]
fn test_empty_pop_returns_none() {
    let mut queue = make_queue::<4>();
    assert!(queue.try_pop().is_none());
    assert!(queue.is_empty());
}

#[test]
fn test_capacity_limit() {
    let mut queue = make_queue::<4>();

    for i in 0..4u64 {
        let mut f = CscpFrame::new();
        f.sequence = i;
        assert!(queue.try_push(&f), "push {} should succeed", i);
    }

    assert!(queue.is_full());
    assert_eq!(queue.len(), 4);

    let mut overflow = CscpFrame::new();
    overflow.sequence = 999;
    assert!(!queue.try_push(&overflow), "push beyond capacity should fail");
}

#[test]
fn test_fifo_ordering() {
    let mut queue = make_queue::<8>();

    for i in 0..5u64 {
        let mut f = CscpFrame::new();
        f.sequence = i * 10;
        assert!(queue.try_push(&f));
    }

    for i in 0..5u64 {
        let f = queue.try_pop().expect("should have frame");
        assert_eq!(f.sequence, i * 10);
    }

    assert!(queue.is_empty());
}

#[test]
fn test_wrap_around() {
    let mut queue = make_queue::<4>();

    for round in 0..10u64 {
        for i in 0..4u64 {
            let mut f = CscpFrame::new();
            f.sequence = round * 100 + i;
            assert!(queue.try_push(&f), "round {} push {} should succeed", round, i);
        }

        for i in 0..4u64 {
            let f = queue.try_pop().expect("should pop");
            assert_eq!(f.sequence, round * 100 + i);
        }

        assert!(queue.is_empty());
    }
}

#[test]
fn test_new_frame_is_zeroed() {
    let f = CscpFrame::new();
    assert_eq!(f.sequence, 0);
    assert_eq!(f.timestamp_us, 0);
    assert_eq!(f.terminated, 0);
    assert_eq!(f.truncated, 0);
    assert!(f.state.iter().all(|&b| f32::from_bits(b) == 0.0));
    assert!(f.action.iter().all(|&b| b == 0));
    assert!(f.reward.iter().all(|&b| b == 0));
    assert!(f.rule_mask.iter().all(|&b| b == 0));
}

#[test]
fn test_full_push_leaves_queue_unchanged() {
    let mut queue = make_queue::<2>();
    let mut a = CscpFrame::new();
    a.sequence = 1;
    let mut b = CscpFrame::new();
    b.sequence = 2;
    let mut c = CscpFrame::new();
    c.sequence = 3;
    assert!(queue.try_push(&a));
    assert!(queue.try_push(&b));
    assert!(!queue.try_push(&c));
    assert_eq!(queue.len(), 2);
    assert_eq!(queue.try_pop().unwrap().sequence, 1);
    assert_eq!(queue.try_pop().unwrap().sequence, 2);
    assert!(queue.try_pop().is_none());
}

#[test]
fn test_len_capacity_and_flags() {
    let mut queue = make_queue::<8>();
    assert_eq!(queue.capacity(), 8);
    assert_eq!(queue.len(), 0);
    assert!(queue.is_empty());
    assert!(!queue.is_full());
    let f = CscpFrame::new();
    assert!(queue.try_push(&f));
    assert!(queue.try_push(&f));
    assert_eq!(queue.len(), 2);
    assert!(!queue.is_empty());
    queue.try_pop();
    assert_eq!(queue.len(), 1);
}

#[test]
fn test_init_empties_queue() {
    let mut queue = make_queue::<4>();
    let f = CscpFrame::new();
    assert!(queue.try_push(&f));
    assert!(queue.try_push(&f));
    queue.init();
    assert!(queue.is_empty());
    assert!(queue.try_pop().is_none());
}

#[test]
fn test_single_slot_queue() {
    let mut queue = make_queue::<1>();
    let mut f = CscpFrame::new();
    for i in 0..5u64 {
        f.sequence = i;
        assert!(queue.try_push(&f));
        assert!(queue.is_full());
        assert!(!queue.try_push(&f));
        assert_eq!(queue.try_pop().unwrap().sequence, i);
    }
}

#[test]
fn test_plan_push_wraps_counter() {
    match plan_push(usize::MAX - 1, usize::MAX, 4) {
        PushPlan::Write { slot, next_tail } => {
            assert_eq!(slot, usize::MAX % 4);
            assert_eq!(slot, 3);
            assert_eq!(next_tail, 0);
        }
        PushPlan::Full => panic!("one frame queued in four slots"),
    }
    // The tail has wrapped past the head: four frames queued.
    assert!(matches!(plan_push(usize::MAX - 1, 2, 4), PushPlan::Full));
    assert!(matches!(plan_push(0, 0, 0), PushPlan::Full));
    match plan_push(3, 5, 8) {
        PushPlan::Write { slot, next_tail } => {
            assert_eq!(slot, 5);
            assert_eq!(next_tail, 6);
        }
        PushPlan::Full => panic!("two frames queued in eight slots"),
    }
}

#[test]
fn test_plan_pop_wraps_counter() {
    match plan_pop(usize::MAX, 1, 4) {
        PopPlan::Read { slot, next_head } => {
            assert_eq!(slot, 3);
            assert_eq!(next_head, 0);
        }
        PopPlan::Empty => panic!("two frames queued"),
    }
    assert!(matches!(plan_pop(7, 7, 4), PopPlan::Empty));
    assert!(matches!(plan_pop(5, 5, 0), PopPlan::Empty));
    match plan_pop(9, 12, 8) {
        PopPlan::Read { slot, next_head } => {
            assert_eq!(slot, 1);
            assert_eq!(next_head, 10);
        }
        PopPlan::Empty => panic!("three frames queued"),
    }
}

#[test]
fn test_queue_len_wraps() {
    assert_eq!(queue_len(usize::MAX, 1), 2);
    assert_eq!(queue_len(5, 5), 0);
    assert_eq!(queue_len(3, 10), 7);
    assert_eq!(queue_len(usize::MAX - 2, usize::MAX), 2);
}
