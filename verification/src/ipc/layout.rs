use crate::error::CscpError;
use crate::shm::{ACTION_DIM, REWARD_DIM, RULE_MASK_DIM, STATE_DIM};
use crate::ipc::spsc_queue::{
    is_power_of_two, plan_push, popped, pushed, ring_len, wrap_index, CscpFrame, PushPlan,
    SpscQueue,
};
use vstd::prelude::*;

verus! {

/// Magic signature of a CSCP region: ASCII "CSCP".
pub const SHM_MAGIC: u32 = 0x43534350;

/// ABI version of the region layout (v0.3.0).
pub const SHM_ABI_VERSION: u32 = 0x00030000;

/// Bytes taken by the region header (one cache line).
pub const HEADER_BYTES: usize = 64;

/// Bytes taken by one frame slot (a 120-byte frame aligned to 64 bytes).
pub const FRAME_BYTES: usize = 128;

/// Bytes taken by a queue's two counters, each on its own cache line.
pub const QUEUE_COUNTER_BYTES: usize = 128;

/// Offset of the signature in the header.
pub const HEADER_MAGIC_OFFSET: usize = 0x00;

/// Offset of the ABI version in the header.
pub const HEADER_ABI_VERSION_OFFSET: usize = 0x04;

/// Offset of the shutdown flag in the header.
pub const HEADER_SHUTDOWN_OFFSET: usize = 0x08;

/// Offset of the header's padding.
pub const HEADER_PAD_OFFSET: usize = 0x09;

/// Offset of the consumer's counter in a queue.
pub const QUEUE_HEAD_OFFSET: usize = 0;

/// Offset of the producer's counter in a queue (the next cache line).
pub const QUEUE_TAIL_OFFSET: usize = 64;

/// Offset of the first slot in a queue.
pub const QUEUE_SLOTS_OFFSET: usize = 128;

/// Offset of `sequence` in a frame slot.
pub const FRAME_SEQUENCE_OFFSET: usize = 0x00;

/// Offset of `timestamp_us` in a frame slot.
pub const FRAME_TIMESTAMP_OFFSET: usize = 0x08;

/// Offset of `terminated` in a frame slot.
pub const FRAME_TERMINATED_OFFSET: usize = 0x10;

/// Offset of `truncated` in a frame slot.
pub const FRAME_TRUNCATED_OFFSET: usize = 0x11;

/// Offset of the frame's padding.
pub const FRAME_PAD_OFFSET: usize = 0x12;

/// Offset of the observation vector (16 single-precision values).
pub const FRAME_STATE_OFFSET: usize = 0x18;

/// Offset of the action vector (4 single-precision values).
pub const FRAME_ACTION_OFFSET: usize = 0x58;

/// Offset of the reward vector (2 single-precision values).
pub const FRAME_REWARD_OFFSET: usize = 0x68;

/// Offset of the rule mask (8 bytes).
pub const FRAME_RULE_MASK_OFFSET: usize = 0x70;

/// Bytes of a frame before its slot is padded to the cache-line alignment.
pub const FRAME_PAYLOAD_BYTES: usize = 0x78;

/// The memory map is consistent: in the header and in a frame each field
/// starts where the one before it ends, the header fills one cache line, a
/// frame fits in its slot, and a queue's counters sit on separate cache lines
/// ahead of its slots.
pub proof fn lemma_memory_map_is_packed()
    ensures
        HEADER_ABI_VERSION_OFFSET == HEADER_MAGIC_OFFSET + 4,
        HEADER_SHUTDOWN_OFFSET == HEADER_ABI_VERSION_OFFSET + 4,
        HEADER_PAD_OFFSET == HEADER_SHUTDOWN_OFFSET + 1,
        HEADER_PAD_OFFSET + 55 == HEADER_BYTES,
        FRAME_TIMESTAMP_OFFSET == FRAME_SEQUENCE_OFFSET + 8,
        FRAME_TERMINATED_OFFSET == FRAME_TIMESTAMP_OFFSET + 8,
        FRAME_TRUNCATED_OFFSET == FRAME_TERMINATED_OFFSET + 1,
        FRAME_PAD_OFFSET == FRAME_TRUNCATED_OFFSET + 1,
        FRAME_STATE_OFFSET == FRAME_PAD_OFFSET + 6,
        FRAME_ACTION_OFFSET == FRAME_STATE_OFFSET + 4 * STATE_DIM,
        FRAME_REWARD_OFFSET == FRAME_ACTION_OFFSET + 4 * ACTION_DIM,
        FRAME_RULE_MASK_OFFSET == FRAME_REWARD_OFFSET + 4 * REWARD_DIM,
        FRAME_PAYLOAD_BYTES == FRAME_RULE_MASK_OFFSET + RULE_MASK_DIM,
        FRAME_PAYLOAD_BYTES <= FRAME_BYTES,
        FRAME_BYTES % 64 == 0,
        QUEUE_TAIL_OFFSET - QUEUE_HEAD_OFFSET == 64,
        QUEUE_SLOTS_OFFSET - QUEUE_TAIL_OFFSET == 64,
        QUEUE_SLOTS_OFFSET == QUEUE_COUNTER_BYTES,
{
}

/// Offset in the region of the simulator-to-controller queue.
pub open spec fn env_to_ctrl_offset() -> int {
    HEADER_BYTES as int
}

/// Offset in the region of the controller-to-simulator queue, for queues of
/// `n` slots: right after the first queue.
pub open spec fn ctrl_to_env_offset(n: int) -> int {
    HEADER_BYTES + QUEUE_COUNTER_BYTES + n * FRAME_BYTES
}

/// Global header at offset 0 of the shared region.
///
/// Written once by the owner when it creates the region and checked by the
/// process that attaches to it.
#[derive(Clone, Copy, Debug)]
pub struct CscpShmHeader {
    pub magic: u32,
    pub abi_version: u32,
    /// 0 = running, 1 = shutting down.
    pub shutdown: u8,
    pub _pad: [u8; 55],
}

/// The header carries the CSCP signature and this ABI version.
pub open spec fn header_valid(h: CscpShmHeader) -> bool {
    h.magic == SHM_MAGIC && h.abi_version == SHM_ABI_VERSION
}

/// Shutdown has been signalled in the header.
pub open spec fn header_shut_down(h: CscpShmHeader) -> bool {
    h.shutdown != 0
}

/// The header after the owner initialises it.
pub open spec fn initialized(h: CscpShmHeader) -> CscpShmHeader {
    CscpShmHeader { magic: SHM_MAGIC, abi_version: SHM_ABI_VERSION, shutdown: 0, ..h }
}

/// The header after either side signals shutdown.
pub open spec fn signalled(h: CscpShmHeader) -> CscpShmHeader {
    CscpShmHeader { shutdown: 1, ..h }
}

/// What attaching to a region with header `h` gives: success when the header
/// is valid, else an ABI mismatch that reports the expected and the found
/// version.
pub open spec fn attach_result(h: CscpShmHeader) -> Result<(), CscpError> {
    if header_valid(h) {
        Ok(())
    } else {
        Err(CscpError::AbiVersionMismatch { expected: SHM_ABI_VERSION, actual: h.abi_version })
    }
}

impl Default for CscpShmHeader {
    /// The header of a freshly mapped, zero-filled region.
    fn default() -> (h: Self)
        ensures
            h.magic == 0,
            h.abi_version == 0,
            h.shutdown == 0,
            forall|i: int| 0 <= i < 55 ==> h._pad[i] == 0,
    {
        CscpShmHeader { magic: 0, abi_version: 0, shutdown: 0, _pad: [0u8; 55] }
    }
}

impl CscpShmHeader {
    /// Writes the signature and ABI version and clears the shutdown flag.
    /// Called once by the owner of the region.
    pub fn init(&mut self)
        ensures
            *final(self) == initialized(*old(self)),
    {
        self.magic = SHM_MAGIC;
        self.abi_version = SHM_ABI_VERSION;
        self.shutdown = 0;
    }

    /// Returns `true` when the header carries the CSCP signature and this ABI
    /// version.
    pub fn validate(&self) -> (ok: bool)
        ensures
            ok == header_valid(*self),
    {
        self.magic == SHM_MAGIC && self.abi_version == SHM_ABI_VERSION
    }

    /// Signals shutdown to the other process.
    pub fn signal_shutdown(&mut self)
        ensures
            *final(self) == signalled(*old(self)),
    {
        self.shutdown = 1;
    }

    /// Returns `true` when shutdown has been signalled.
    pub fn is_shutdown(&self) -> (down: bool)
        ensures
            down == header_shut_down(*self),
    {
        self.shutdown != 0
    }

    /// The check made when attaching to an existing region: the header must
    /// validate, else the attach fails with the expected and the found ABI
    /// version.
    pub fn check_attach(&self) -> (r: Result<(), CscpError>)
        ensures
            r == attach_result(*self),
    {
        if self.validate() {
            Ok(())
        } else {
            Err(CscpError::AbiVersionMismatch { expected: SHM_ABI_VERSION, actual: self.abi_version })
        }
    }
}

/// Size in bytes of the region for queues of `n` slots: the header, then the
/// two queues, each its counters followed by its slots.
pub open spec fn region_bytes(n: int) -> int {
    HEADER_BYTES + 2 * (QUEUE_COUNTER_BYTES + n * FRAME_BYTES)
}

/// The producer's decision on a publish: a frame the flow control refused is
/// rate limited and touches no queue; an admitted frame goes to slot
/// `tail % capacity`, unless the queue is full.
pub fn plan_publish(admitted: bool, head: usize, tail: usize, capacity: usize) -> (r: Result<
    (usize, usize),
    CscpError,
>)
    ensures
        match r {
            Ok((slot, next_tail)) => {
                &&& admitted
                &&& ring_len(head, tail) < capacity
                &&& slot == tail % capacity
                &&& next_tail == wrap_index(tail + 1)
            },
            Err(e) => {
                ||| !admitted && e == CscpError::RateLimited
                ||| admitted && ring_len(head, tail) >= capacity && e == CscpError::QueueFull
            },
        },
{
    if !admitted {
        return Err(CscpError::RateLimited);
    }
    match plan_push(head, tail, capacity) {
        PushPlan::Full => Err(CscpError::QueueFull),
        PushPlan::Write { slot, next_tail } => Ok((slot, next_tail)),
    }
}

/// What publishing `frame` to a queue holding `q` gives: refused by flow
/// control, refused because the queue is full, or appended.
pub open spec fn publish_result(q: Seq<CscpFrame>, capacity: int, frame: CscpFrame, admitted: bool) -> (Result<(), CscpError>, Seq<CscpFrame>) {
    if !admitted {
        (Err(CscpError::RateLimited), q)
    } else if pushed(q, capacity, frame).0 {
        (Ok(()), pushed(q, capacity, frame).1)
    } else {
        (Err(CscpError::QueueFull), q)
    }
}

/// A header the owner has initialised validates, shows no shutdown, and lets
/// the other process attach.
pub proof fn lemma_initialized_header_attaches(h: CscpShmHeader)
    ensures
        header_valid(initialized(h)),
        !header_shut_down(initialized(h)),
        attach_result(initialized(h)) == Ok::<(), CscpError>(()),
{
}

/// A shutdown signalled by either side is seen by both, and signalling it
/// leaves the header's validity as it was.
pub proof fn lemma_shutdown_is_seen(h: CscpShmHeader)
    ensures
        header_shut_down(signalled(h)),
        header_valid(signalled(h)) == header_valid(h),
        signalled(signalled(h)) == signalled(h),
{
}

/// A frame the flow control refused is answered with `RateLimited` and
/// leaves the queue as it was; an admitted frame is offered to the queue and
/// the publish succeeds exactly when the queue takes it.
pub proof fn lemma_publish_is_rate_limited_push(
    q: Seq<CscpFrame>,
    capacity: int,
    frame: CscpFrame,
)
    ensures
        publish_result(q, capacity, frame, false) == (Err::<(), CscpError>(CscpError::RateLimited), q),
        publish_result(q, capacity, frame, true).1 == pushed(q, capacity, frame).1,
        (publish_result(q, capacity, frame, true).0 is Ok) == pushed(q, capacity, frame).0,
{
}

/// A state frame the simulator publishes into an empty state queue is the
/// frame the controller receives next; the same holds for a command frame
/// sent the other way.
pub proof fn lemma_published_frame_is_received(capacity: int, frame: CscpFrame)
    requires
        capacity >= 1,
    ensures
        publish_result(Seq::empty(), capacity, frame, true).0 == Ok::<(), CscpError>(()),
        popped(publish_result(Seq::empty(), capacity, frame, true).1) == (
        Some(frame),
        Seq::<CscpFrame>::empty(),
        ),
{
    crate::ipc::spsc_queue::lemma_push_then_pop_returns_frame(capacity, frame);
}

/// The region is the header followed by two queues of `n` slots each, and
/// the queues neither overlap nor leave a gap: the first starts right after
/// the header, the second right after the first queue's `n` slots, and the
/// region ends right after the second queue's `n` slots. Each slot more per
/// queue makes the region two frames larger.
pub proof fn lemma_region_holds_two_queues(n: int)
    requires
        n >= 0,
    ensures
        env_to_ctrl_offset() == HEADER_BYTES,
        ctrl_to_env_offset(n) == env_to_ctrl_offset() + QUEUE_SLOTS_OFFSET + n * FRAME_BYTES,
        region_bytes(n) == ctrl_to_env_offset(n) + QUEUE_SLOTS_OFFSET + n * FRAME_BYTES,
        region_bytes(n) == HEADER_BYTES + 2 * (QUEUE_COUNTER_BYTES + n * FRAME_BYTES),
        region_bytes(n + 1) == region_bytes(n) + 2 * FRAME_BYTES,
        region_bytes(0) == 320,
{
    assert((n + 1) * FRAME_BYTES == n * FRAME_BYTES + FRAME_BYTES) by (nonlinear_arith);
}

/// An admitted frame is refused with `QueueFull` exactly when the queue
/// already holds `capacity` frames, and then nothing changes; otherwise it is
/// appended and the publish succeeds. A refused frame is always
/// `RateLimited`, full queue or not.
pub proof fn lemma_publish_answers(q: Seq<CscpFrame>, capacity: int, frame: CscpFrame)
    ensures
        q.len() >= capacity ==> publish_result(q, capacity, frame, true) == (
        Err::<(), CscpError>(CscpError::QueueFull),
        q,
        ),
        q.len() < capacity ==> publish_result(q, capacity, frame, true) == (
        Ok::<(), CscpError>(()),
        q.push(frame),
        ),
        publish_result(q, capacity, frame, false) == (Err::<(), CscpError>(CscpError::RateLimited), q),
{
}

/// What happens to the region, as far as its header is concerned.
pub enum RegionEvent {
    /// The owner initialises the region.
    Init,
    /// Either side signals shutdown.
    SignalShutdown,
    /// A publish, a receive, or a read of the header: none writes the header.
    Other,
}

/// The header after the events, first to last.
pub open spec fn header_after(h: CscpShmHeader, events: Seq<RegionEvent>) -> CscpShmHeader
    decreases events.len(),
{
    if events.len() == 0 {
        h
    } else {
        let next = match events[0] {
            RegionEvent::Init => initialized(h),
            RegionEvent::SignalShutdown => signalled(h),
            RegionEvent::Other => h,
        };
        header_after(next, events.drop_first())
    }
}

/// Once shutdown has been signalled it stays signalled, for both sides, until
/// the region is initialised again; and nothing but `init` changes whether
/// the header validates.
pub proof fn lemma_shutdown_stays_until_init(h: CscpShmHeader, events: Seq<RegionEvent>)
    requires
        forall|i: int| 0 <= i < events.len() ==> !(events[i] is Init),
    ensures
        header_shut_down(h) ==> header_shut_down(header_after(h, events)),
        header_valid(header_after(h, events)) == header_valid(h),
    decreases events.len(),
{
    if events.len() > 0 {
        let next = match events[0] {
            RegionEvent::Init => initialized(h),
            RegionEvent::SignalShutdown => signalled(h),
            RegionEvent::Other => h,
        };
        assert(!(events[0] is Init));
        lemma_shutdown_stays_until_init(next, events.drop_first());
    }
}

/// The shared region: the header and the two queues.
///
/// - `q_env_to_ctrl` carries state frames from the simulator to the controller;
/// - `q_ctrl_to_env` carries command frames from the controller to the simulator.
pub struct ShmLayout<const N: usize> {
    pub header: CscpShmHeader,
    pub q_env_to_ctrl: SpscQueue<N>,
    pub q_ctrl_to_env: SpscQueue<N>,
}

/// The layout with the default capacity of 16 slots per queue.
pub type DefaultShmLayout = ShmLayout<16>;

impl<const N: usize> ShmLayout<N> {
    /// Both queues are well formed.
    pub open spec fn wf(&self) -> bool {
        self.q_env_to_ctrl.wf() && self.q_ctrl_to_env.wf()
    }

    /// A freshly mapped, zero-filled region: zero header, empty queues.
    pub fn new() -> (l: Self)
        requires
            is_power_of_two(N as int),
        ensures
            l.wf(),
            l.header.magic == 0,
            l.header.abi_version == 0,
            l.header.shutdown == 0,
            forall|i: int| 0 <= i < 55 ==> l.header._pad[i] == 0,
            l.q_env_to_ctrl@ == Seq::<CscpFrame>::empty(),
            l.q_ctrl_to_env@ == Seq::<CscpFrame>::empty(),
    {
        ShmLayout {
            header: CscpShmHeader::default(),
            q_env_to_ctrl: SpscQueue::new(),
            q_ctrl_to_env: SpscQueue::new(),
        }
    }

    /// Initialises the header and empties both queues. Called once by the
    /// owner after mapping the region.
    pub fn init(&mut self)
        requires
            old(self).wf(),
        ensures
            final(self).wf(),
            final(self).header == initialized(old(self).header),
            final(self).q_env_to_ctrl@ == Seq::<CscpFrame>::empty(),
            final(self).q_ctrl_to_env@ == Seq::<CscpFrame>::empty(),
            final(self).q_env_to_ctrl.storage() == old(self).q_env_to_ctrl.storage(),
            final(self).q_ctrl_to_env.storage() == old(self).q_ctrl_to_env.storage(),
    {
        self.header.init();
        self.q_env_to_ctrl.init();
        self.q_ctrl_to_env.init();
    }

    /// Total size in bytes of the region.
    pub fn region_size() -> (size: usize)
        requires
            region_bytes(N as int) <= usize::MAX,
        ensures
            size == region_bytes(N as int),
            size == HEADER_BYTES + 2 * (QUEUE_COUNTER_BYTES + N * FRAME_BYTES),
    {
        HEADER_BYTES + 2 * (QUEUE_COUNTER_BYTES + N * FRAME_BYTES)
    }

    /// Offsets in the region of the simulator-to-controller queue and of the
    /// controller-to-simulator queue; the second queue ends where the region
    /// ends.
    pub fn queue_offsets() -> (offsets: (usize, usize))
        requires
            region_bytes(N as int) <= usize::MAX,
        ensures
            offsets.0 == env_to_ctrl_offset(),
            offsets.1 == ctrl_to_env_offset(N as int),
            offsets.1 + QUEUE_COUNTER_BYTES + N * FRAME_BYTES == region_bytes(N as int),
            offsets.0 == HEADER_BYTES,
            offsets.1 == offsets.0 + QUEUE_COUNTER_BYTES + N * FRAME_BYTES,
    {
        (HEADER_BYTES, HEADER_BYTES + QUEUE_COUNTER_BYTES + N * FRAME_BYTES)
    }

    /// The simulator publishes a state frame; `admitted` is the answer of its
    /// flow control for this frame. A refused frame is rate limited, a frame
    /// that finds the state queue full is dropped with `QueueFull`.
    pub fn publish_state(&mut self, frame: &CscpFrame, admitted: bool) -> (r: Result<(), CscpError>)
        requires
            old(self).wf(),
        ensures
            final(self).wf(),
            (r, final(self).q_env_to_ctrl@) == publish_result(
                old(self).q_env_to_ctrl@,
                N as int,
                *frame,
                admitted,
            ),
            !admitted ==> r == Err::<(), CscpError>(CscpError::RateLimited),
            admitted && old(self).q_env_to_ctrl@.len() >= N ==> r == Err::<(), CscpError>(
                CscpError::QueueFull,
            ),
            admitted && old(self).q_env_to_ctrl@.len() < N ==> r == Ok::<(), CscpError>(())
                && final(self).q_env_to_ctrl@ == old(self).q_env_to_ctrl@.push(*frame),
            final(self).q_ctrl_to_env@ == old(self).q_ctrl_to_env@,
            final(self).header == old(self).header,
    {
        if !admitted {
            return Err(CscpError::RateLimited);
        }
        if self.q_env_to_ctrl.try_push(frame) {
            Ok(())
        } else {
            Err(CscpError::QueueFull)
        }
    }

    /// The controller publishes a command frame; `admitted` is the answer of
    /// its flow control for this frame.
    pub fn publish_command(&mut self, frame: &CscpFrame, admitted: bool) -> (r: Result<(), CscpError>)
        requires
            old(self).wf(),
        ensures
            final(self).wf(),
            (r, final(self).q_ctrl_to_env@) == publish_result(
                old(self).q_ctrl_to_env@,
                N as int,
                *frame,
                admitted,
            ),
            !admitted ==> r == Err::<(), CscpError>(CscpError::RateLimited),
            admitted && old(self).q_ctrl_to_env@.len() >= N ==> r == Err::<(), CscpError>(
                CscpError::QueueFull,
            ),
            admitted && old(self).q_ctrl_to_env@.len() < N ==> r == Ok::<(), CscpError>(())
                && final(self).q_ctrl_to_env@ == old(self).q_ctrl_to_env@.push(*frame),
            final(self).q_env_to_ctrl@ == old(self).q_env_to_ctrl@,
            final(self).header == old(self).header,
    {
        if !admitted {
            return Err(CscpError::RateLimited);
        }
        if self.q_ctrl_to_env.try_push(frame) {
            Ok(())
        } else {
            Err(CscpError::QueueFull)
        }
    }

    /// The controller takes the oldest state frame, if any.
    pub fn recv_state(&mut self) -> (f: Option<CscpFrame>)
        requires
            old(self).wf(),
        ensures
            final(self).wf(),
            (f, final(self).q_env_to_ctrl@) == popped(old(self).q_env_to_ctrl@),
            final(self).q_ctrl_to_env@ == old(self).q_ctrl_to_env@,
            final(self).header == old(self).header,
    {
        self.q_env_to_ctrl.try_pop()
    }

    /// The simulator takes the oldest command frame, if any.
    pub fn recv_command(&mut self) -> (f: Option<CscpFrame>)
        requires
            old(self).wf(),
        ensures
            final(self).wf(),
            (f, final(self).q_ctrl_to_env@) == popped(old(self).q_ctrl_to_env@),
            final(self).q_env_to_ctrl@ == old(self).q_env_to_ctrl@,
            final(self).header == old(self).header,
    {
        self.q_ctrl_to_env.try_pop()
    }
}

} // verus!
