use crate::shm::{ACTION_DIM, REWARD_DIM, RULE_MASK_DIM, STATE_DIM};
use vstd::arithmetic::div_mod::{
    lemma_mod_equivalence, lemma_mod_multiples_basic, lemma_mod_multiples_vanish, lemma_small_mod,
};
use vstd::arithmetic::power2::{lemma_pow2_adds, lemma_pow2_strictly_increases, pow2};
use vstd::prelude::*;

verus! {

/// A single timestep exchanged between the simulator and the controller.
///
/// Each frame carries only the current timestep; a consumer that needs history
/// keeps its own window. The observation, action and reward values are IEEE-754
/// single-precision numbers, held here as their bit patterns (`f32::to_bits`),
/// which is exactly what the shared region stores.
///
/// Its debug form, which shows the sequence number and the two flags only, is
/// given by `debug_text`.
#[derive(Clone, Copy)]
pub struct CscpFrame {
    /// Monotonic frame counter.
    pub sequence: u64,
    /// Microsecond clock at capture.
    pub timestamp_us: u64,
    /// Terminal flag (non-zero when the episode ended).
    pub terminated: u8,
    /// Truncation flag (non-zero on timeout).
    pub truncated: u8,
    /// Alignment padding.
    pub _pad: [u8; 6],
    /// Observation vector, as `f32` bit patterns.
    pub state: [u32; STATE_DIM],
    /// Action vector, as `f32` bit patterns.
    pub action: [u32; ACTION_DIM],
    /// Multi-objective reward, as `f32` bit patterns.
    pub reward: [u32; REWARD_DIM],
    /// Safety constraint mask.
    pub rule_mask: [u8; RULE_MASK_DIM],
}

/// The all-zero frame: every counter, flag, value and mask byte is zero.
pub open spec fn is_zero_frame(f: CscpFrame) -> bool {
    &&& f.sequence == 0
    &&& f.timestamp_us == 0
    &&& f.terminated == 0
    &&& f.truncated == 0
    &&& forall|i: int| 0 <= i < 6 ==> f._pad[i] == 0
    &&& forall|i: int| 0 <= i < STATE_DIM ==> f.state[i] == 0
    &&& forall|i: int| 0 <= i < ACTION_DIM ==> f.action[i] == 0
    &&& forall|i: int| 0 <= i < REWARD_DIM ==> f.reward[i] == 0
    &&& forall|i: int| 0 <= i < RULE_MASK_DIM ==> f.rule_mask[i] == 0
}

impl Default for CscpFrame {
    fn default() -> (f: Self)
        ensures
            is_zero_frame(f),
    {
        CscpFrame {
            sequence: 0,
            timestamp_us: 0,
            terminated: 0,
            truncated: 0,
            _pad: [0u8; 6],
            state: [0u32; 16],
            action: [0u32; 4],
            reward: [0u32; 2],
            rule_mask: [0u8; 8],
        }
    }
}

impl CscpFrame {
    /// A zeroed frame.
    pub fn new() -> (f: Self)
        ensures
            is_zero_frame(f),
    {
        Self::default()
    }
}

/// The decimal digit `d` as a character.
pub open spec fn digit_char(d: nat) -> char {
    if d == 0 {
        '0'
    } else if d == 1 {
        '1'
    } else if d == 2 {
        '2'
    } else if d == 3 {
        '3'
    } else if d == 4 {
        '4'
    } else if d == 5 {
        '5'
    } else if d == 6 {
        '6'
    } else if d == 7 {
        '7'
    } else if d == 8 {
        '8'
    } else {
        '9'
    }
}

/// `n` written in decimal, without leading zeros.
pub open spec fn decimal(n: nat) -> Seq<char>
    decreases n,
{
    if n < 10 {
        seq![digit_char(n)]
    } else {
        decimal(n / 10) + seq![digit_char(n % 10)]
    }
}

/// The short debug form of a frame: its sequence number and its two flags,
/// and no payload.
pub open spec fn frame_debug_text(f: CscpFrame) -> Seq<char> {
    "CscpFrame { sequence: "@ + decimal(f.sequence as nat) + ", terminated: "@ + decimal(
        f.terminated as nat,
    ) + ", truncated: "@ + decimal(f.truncated as nat) + " }"@
}

/// The character is a decimal digit.
pub open spec fn is_digit_char(c: char) -> bool {
    48 <= (c as int) && (c as int) <= 57
}

/// The number a string of decimal digits denotes, most significant first.
pub open spec fn decimal_value(cs: Seq<char>) -> nat
    decreases cs.len(),
{
    if cs.len() == 0 {
        0
    } else {
        decimal_value(cs.drop_last()) * 10 + ((cs.last() as int) - 48) as nat
    }
}

/// `decimal(n)` is a non-empty string of digits that reads back as `n`.
pub proof fn lemma_decimal_reads_back(n: nat)
    ensures
        decimal(n).len() >= 1,
        forall|k: int| 0 <= k < decimal(n).len() ==> is_digit_char(#[trigger] decimal(n)[k]),
        decimal_value(decimal(n)) == n,
    decreases n,
{
    let d = n % 10;
    assert(digit_char(d) as int == 48 + d);
    if n >= 10 {
        lemma_decimal_reads_back(n / 10);
        let cs = decimal(n);
        assert(cs.drop_last() =~= decimal(n / 10));
        assert(forall|k: int| 0 <= k < cs.len() - 1 ==> cs[k] == decimal(n / 10)[k]);
        assert(cs.last() == digit_char(d));
        assert(((cs.last() as int) - 48) as nat == d);
        assert(decimal_value(cs) == decimal_value(cs.drop_last()) * 10 + d);
        assert(decimal_value(cs.drop_last()) == n / 10);
        assert((n / 10) * 10 + n % 10 == n) by (nonlinear_arith);
    } else {
        lemma_small_mod(n, 10);
        assert(decimal(n).drop_last() =~= Seq::<char>::empty());
        assert(decimal(n).last() == digit_char(n));
        assert(((decimal(n).last() as int) - 48) as nat == n);
        assert(decimal_value(decimal(n).drop_last()) == 0);
    }
}

/// Two digit strings, each followed by text that starts with a non-digit,
/// are told apart: equal concatenations have equal digits and equal rests.
proof fn lemma_digits_then_text(d1: Seq<char>, r1: Seq<char>, d2: Seq<char>, r2: Seq<char>)
    requires
        forall|k: int| 0 <= k < d1.len() ==> is_digit_char(#[trigger] d1[k]),
        forall|k: int| 0 <= k < d2.len() ==> is_digit_char(#[trigger] d2[k]),
        r1.len() > 0 && !is_digit_char(r1[0]),
        r2.len() > 0 && !is_digit_char(r2[0]),
        d1 + r1 == d2 + r2,
    ensures
        d1 == d2,
        r1 == r2,
{
    if d1.len() < d2.len() {
        assert((d1 + r1)[d1.len() as int] == r1[0]);
        assert((d2 + r2)[d1.len() as int] == d2[d1.len() as int]);
    } else if d2.len() < d1.len() {
        assert((d2 + r2)[d2.len() as int] == r2[0]);
        assert((d1 + r1)[d2.len() as int] == d1[d2.len() as int]);
    }
    assert(d1 =~= (d1 + r1).subrange(0, d1.len() as int));
    assert(d2 =~= (d2 + r2).subrange(0, d2.len() as int));
    assert(r1 =~= (d1 + r1).subrange(d1.len() as int, (d1 + r1).len() as int));
    assert(r2 =~= (d2 + r2).subrange(d2.len() as int, (d2 + r2).len() as int));
}

/// The debug text tells frames apart by sequence number and both flags:
/// two frames with the same text have the same sequence number, the same
/// `terminated` byte and the same `truncated` byte. The text ends with the
/// decimal of the `truncated` byte alone, followed by ` }`.
pub proof fn lemma_debug_text_shows_each_field(f: CscpFrame, g: CscpFrame)
    ensures
        frame_debug_text(f) == frame_debug_text(g) ==> f.sequence == g.sequence && f.terminated
            == g.terminated && f.truncated == g.truncated,
        frame_debug_text(f).subrange(
            frame_debug_text(f).len() - decimal(f.truncated as nat).len() - 2,
            frame_debug_text(f).len() as int,
        ) == decimal(f.truncated as nat) + " }"@,
{
    reveal_strlit("CscpFrame { sequence: ");
    reveal_strlit(", terminated: ");
    reveal_strlit(", truncated: ");
    reveal_strlit(" }");
    let l1 = "CscpFrame { sequence: "@;
    let l2 = ", terminated: "@;
    let l3 = ", truncated: "@;
    let l4 = " }"@;
    let (a1, a2, a3) = (decimal(f.sequence as nat), decimal(f.terminated as nat), decimal(f.truncated as nat));
    let (b1, b2, b3) = (decimal(g.sequence as nat), decimal(g.terminated as nat), decimal(g.truncated as nat));
    lemma_decimal_reads_back(f.sequence as nat);
    lemma_decimal_reads_back(f.terminated as nat);
    lemma_decimal_reads_back(f.truncated as nat);
    lemma_decimal_reads_back(g.sequence as nat);
    lemma_decimal_reads_back(g.terminated as nat);
    lemma_decimal_reads_back(g.truncated as nat);
    let tf = frame_debug_text(f);
    let tg = frame_debug_text(g);
    let xf = a1 + (l2 + (a2 + (l3 + (a3 + l4))));
    let xg = b1 + (l2 + (b2 + (l3 + (b3 + l4))));
    assert(tf =~= l1 + xf);
    assert(tg =~= l1 + xg);
    assert(tf.subrange(tf.len() - a3.len() - 2, tf.len() as int) =~= a3 + l4);
    if tf == tg {
        assert(xf =~= tf.subrange(l1.len() as int, tf.len() as int));
        assert(xg =~= tg.subrange(l1.len() as int, tg.len() as int));
        assert(!is_digit_char(l2[0]));
        assert(!is_digit_char(l3[0]));
        assert(!is_digit_char(l4[0]));
        assert((l2 + (a2 + (l3 + (a3 + l4))))[0] == l2[0]);
        assert((l2 + (b2 + (l3 + (b3 + l4))))[0] == l2[0]);
        lemma_digits_then_text(a1, l2 + (a2 + (l3 + (a3 + l4))), b1, l2 + (b2 + (l3 + (b3 + l4))));
        let yf = a2 + (l3 + (a3 + l4));
        let yg = b2 + (l3 + (b3 + l4));
        assert(yf =~= (l2 + yf).subrange(l2.len() as int, (l2 + yf).len() as int));
        assert(yg =~= (l2 + yg).subrange(l2.len() as int, (l2 + yg).len() as int));
        assert((l3 + (a3 + l4))[0] == l3[0]);
        assert((l3 + (b3 + l4))[0] == l3[0]);
        lemma_digits_then_text(a2, l3 + (a3 + l4), b2, l3 + (b3 + l4));
        let zf = a3 + l4;
        let zg = b3 + l4;
        assert(zf =~= (l3 + zf).subrange(l3.len() as int, (l3 + zf).len() as int));
        assert(zg =~= (l3 + zg).subrange(l3.len() as int, (l3 + zg).len() as int));
        lemma_digits_then_text(a3, l4, b3, l4);
    }
}

fn digit_str(d: u64) -> (s: &'static str)
    requires
        d < 10,
    ensures
        s@ == seq![digit_char(d as nat)],
{
    if d == 0 {
        proof {
            reveal_strlit("0");
        }
        "0"
    } else if d == 1 {
        proof {
            reveal_strlit("1");
        }
        "1"
    } else if d == 2 {
        proof {
            reveal_strlit("2");
        }
        "2"
    } else if d == 3 {
        proof {
            reveal_strlit("3");
        }
        "3"
    } else if d == 4 {
        proof {
            reveal_strlit("4");
        }
        "4"
    } else if d == 5 {
        proof {
            reveal_strlit("5");
        }
        "5"
    } else if d == 6 {
        proof {
            reveal_strlit("6");
        }
        "6"
    } else if d == 7 {
        proof {
            reveal_strlit("7");
        }
        "7"
    } else if d == 8 {
        proof {
            reveal_strlit("8");
        }
        "8"
    } else {
        proof {
            reveal_strlit("9");
        }
        "9"
    }
}

fn append_decimal(out: &mut String, n: u64)
    ensures
        final(out)@ == old(out)@ + decimal(n as nat),
    decreases n,
{
    if n >= 10 {
        append_decimal(out, n / 10);
    }
    out.append(digit_str(n % 10));
    proof {
        if n >= 10 {
            assert(old(out)@ + decimal(n as nat) =~= old(out)@ + decimal((n / 10) as nat) + seq![
                digit_char((n % 10) as nat),
            ]);
        }
    }
}

impl CscpFrame {
    /// The short debug form of the frame: the sequence number and the two
    /// flags, e.g. `CscpFrame { sequence: 42, terminated: 0, truncated: 0 }`.
    pub fn debug_text(&self) -> (s: String)
        ensures
            s@ == frame_debug_text(*self),
    {
        let mut s = String::from_str("CscpFrame { sequence: ");
        append_decimal(&mut s, self.sequence);
        s.append(", terminated: ");
        append_decimal(&mut s, self.terminated as u64);
        s.append(", truncated: ");
        append_decimal(&mut s, self.truncated as u64);
        s.append(" }");
        s
    }
}

/// Size of the index space in which the head and tail counters wrap around.
pub open spec fn ring_modulus() -> int {
    usize::MAX as int + 1
}

/// Brings an index in `[0, 2 * ring_modulus())` back into the counter range,
/// as `wrapping_add` does.
pub open spec fn wrap_index(x: int) -> int {
    if x < ring_modulus() {
        x
    } else {
        x - ring_modulus()
    }
}

/// Number of frames between the consumer's `head` and the producer's `tail`,
/// counted modulo the counter range (`tail.wrapping_sub(head)`).
pub open spec fn ring_len(head: usize, tail: usize) -> int {
    if tail >= head {
        tail - head
    } else {
        tail - head + ring_modulus()
    }
}

/// Slot of a ring of `capacity` slots that holds the `i`-th queued frame
/// when the consumer's counter is `head`.
pub open spec fn ring_slot(head: usize, i: int, capacity: int) -> int {
    wrap_index(head + i) % capacity
}

/// `n` is a power of two.
pub open spec fn is_power_of_two(n: int) -> bool {
    exists|k: nat| pow2(k) == n
}

/// A power of two that fits in a `usize` divides the counter range, so slot
/// numbers stay continuous when the counters wrap around.
pub proof fn lemma_power_of_two_divides_modulus(n: int)
    requires
        is_power_of_two(n),
        n <= usize::MAX,
    ensures
        n > 0,
        ring_modulus() % n == 0,
{
    let k = choose|k: nat| pow2(k) == n;
    vstd::layout::unsigned_int_max_values();
    let bits = usize::BITS as nat;
    assert(ring_modulus() == pow2(bits));
    if k >= bits {
        if k > bits {
            lemma_pow2_strictly_increases(bits, k);
        }
        assert(false);
    }
    let rest = (bits - k) as nat;
    lemma_pow2_adds(k, rest);
    assert(k + rest == bits);
    vstd::arithmetic::power2::lemma_pow2_pos(k);
    vstd::arithmetic::power2::lemma_pow2_pos(rest);
    assert(pow2(bits) == pow2(rest) * n) by (nonlinear_arith)
        requires
            pow2(bits) == pow2(k) * pow2(rest),
            pow2(k) == n,
    ;
    lemma_mod_multiples_basic(pow2(rest) as int, n);
}

/// Wrapping an index changes no slot number when the capacity divides the
/// counter range.
proof fn lemma_wrap_keeps_slot(x: int, capacity: int)
    requires
        0 <= x < 2 * ring_modulus(),
        capacity > 0,
        ring_modulus() % capacity == 0,
    ensures
        wrap_index(x) % capacity == x % capacity,
{
    if x >= ring_modulus() {
        let m = ring_modulus() / capacity;
        vstd::arithmetic::div_mod::lemma_fundamental_div_mod(ring_modulus(), capacity);
        assert(capacity * (-m) + x == x - ring_modulus()) by (nonlinear_arith)
            requires
                ring_modulus() == capacity * m + 0,
        ;
        lemma_mod_multiples_vanish(-m, x, capacity);
    }
}

/// Two indices closer than the capacity land in different slots.
proof fn lemma_distinct_slots(a: int, b: int, capacity: int)
    requires
        0 < b - a < capacity,
    ensures
        a % capacity != b % capacity,
{
    lemma_mod_equivalence(b, a, capacity);
    lemma_small_mod((b - a) as nat, capacity as nat);
}

/// What the producer does next, decided from the two counters.
pub enum PushPlan {
    /// The ring holds `capacity` frames: nothing is written.
    Full,
    /// Write the frame into `slot`, then publish `next_tail`.
    Write { slot: usize, next_tail: usize },
}

/// What the consumer does next, decided from the two counters.
pub enum PopPlan {
    /// No frame is queued.
    Empty,
    /// Read the frame in `slot`, then publish `next_head`.
    Read { slot: usize, next_head: usize },
}

/// Number of queued frames for the given counters: `tail.wrapping_sub(head)`.
pub fn queue_len(head: usize, tail: usize) -> (len: usize)
    ensures
        len == ring_len(head, tail),
{
    tail.wrapping_sub(head)
}

/// The producer's decision: a ring of `capacity` slots is full when the
/// counters are `capacity` or more apart; otherwise the frame goes into slot
/// `tail % capacity` and the tail advances by one, wrapping at the top of the
/// counter range.
pub fn plan_push(head: usize, tail: usize, capacity: usize) -> (plan: PushPlan)
    ensures
        match plan {
            PushPlan::Full => ring_len(head, tail) >= capacity,
            PushPlan::Write { slot, next_tail } => {
                &&& ring_len(head, tail) < capacity
                &&& slot == tail % capacity
                &&& next_tail == wrap_index(tail + 1)
            },
        },
{
    if queue_len(head, tail) >= capacity {
        PushPlan::Full
    } else {
        PushPlan::Write { slot: tail % capacity, next_tail: tail.wrapping_add(1) }
    }
}

/// The consumer's decision: the ring is empty when the counters are equal;
/// otherwise the frame in slot `head % capacity` is read and the head advances
/// by one, wrapping at the top of the counter range.
/// A ring of no slots can only be empty.
pub fn plan_pop(head: usize, tail: usize, capacity: usize) -> (plan: PopPlan)
    requires
        head != tail ==> capacity > 0,
    ensures
        match plan {
            PopPlan::Empty => head == tail,
            PopPlan::Read { slot, next_head } => {
                &&& head != tail
                &&& slot == head % capacity
                &&& next_head == wrap_index(head + 1)
            },
        },
{
    if head == tail {
        PopPlan::Empty
    } else {
        PopPlan::Read { slot: head % capacity, next_head: head.wrapping_add(1) }
    }
}

/// The outcome of offering `frame` to a ring of `capacity` slots that holds
/// the frames `q`, oldest first: accepted and appended at the back when there
/// is room, refused with the queue unchanged when it is full.
pub open spec fn pushed(q: Seq<CscpFrame>, capacity: int, frame: CscpFrame) -> (bool, Seq<
    CscpFrame,
>) {
    if q.len() < capacity {
        (true, q.push(frame))
    } else {
        (false, q)
    }
}

/// The outcome of taking a frame from a queue that holds the frames `q`,
/// oldest first: nothing from an empty queue, else the oldest frame, which
/// leaves the queue.
pub open spec fn popped(q: Seq<CscpFrame>) -> (Option<CscpFrame>, Seq<CscpFrame>) {
    if q.len() == 0 {
        (None, q)
    } else {
        (Some(q[0]), q.drop_first())
    }
}

/// The outcome of offering `frames`, first to last, to a ring of `capacity`
/// slots that holds `q`: whether every frame was accepted, and the queue after.
pub open spec fn push_all(q: Seq<CscpFrame>, capacity: int, frames: Seq<CscpFrame>) -> (bool, Seq<
    CscpFrame,
>)
    decreases frames.len(),
{
    if frames.len() == 0 {
        (true, q)
    } else {
        let first = pushed(q, capacity, frames[0]);
        let rest = push_all(first.1, capacity, frames.drop_first());
        (first.0 && rest.0, rest.1)
    }
}

/// The outcome of taking a frame `k` times from a queue that holds `q`: what
/// each take returned, and the queue after.
pub open spec fn drain(q: Seq<CscpFrame>, k: nat) -> (Seq<Option<CscpFrame>>, Seq<CscpFrame>)
    decreases k,
{
    if k == 0 {
        (Seq::empty(), q)
    } else {
        let first = popped(q);
        let rest = drain(first.1, (k - 1) as nat);
        (seq![first.0] + rest.0, rest.1)
    }
}

/// Every frame of `q`, each wrapped in `Some`.
pub open spec fn all_some(q: Seq<CscpFrame>) -> Seq<Option<CscpFrame>> {
    q.map_values(|f: CscpFrame| Some(f))
}

/// A frame pushed into an empty ring of at least one slot is the frame the
/// next pop returns, and the ring is empty again after it.
pub proof fn lemma_push_then_pop_returns_frame(capacity: int, frame: CscpFrame)
    requires
        capacity >= 1,
    ensures
        pushed(Seq::empty(), capacity, frame).0,
        popped(pushed(Seq::empty(), capacity, frame).1) == (
        Some(frame),
        Seq::<CscpFrame>::empty(),
        ),
{
    let q = pushed(Seq::empty(), capacity, frame).1;
    assert(q =~= seq![frame]);
    assert(q.drop_first() =~= Seq::<CscpFrame>::empty());
}

/// A full ring refuses a frame and stays as it was; a ring that holds at most
/// `capacity` frames still does after a push or a pop.
pub proof fn lemma_capacity_is_never_exceeded(q: Seq<CscpFrame>, capacity: int, frame: CscpFrame)
    requires
        q.len() <= capacity,
    ensures
        q.len() == capacity ==> pushed(q, capacity, frame) == (false, q),
        pushed(q, capacity, frame).1.len() <= capacity,
        popped(q).1.len() <= capacity,
{
}

/// Frames offered to a ring that has room for all of them are all accepted,
/// and queue up behind the frames already there, in the order offered.
pub proof fn lemma_push_all_appends(q: Seq<CscpFrame>, capacity: int, frames: Seq<CscpFrame>)
    requires
        q.len() + frames.len() <= capacity,
    ensures
        push_all(q, capacity, frames) == (true, q + frames),
    decreases frames.len(),
{
    if frames.len() > 0 {
        lemma_push_all_appends(q.push(frames[0]), capacity, frames.drop_first());
        assert(q.push(frames[0]) + frames.drop_first() =~= q + frames);
    } else {
        assert(q + frames =~= q);
    }
}

/// Taking as many frames as a queue holds returns them oldest first and
/// empties the queue.
pub proof fn lemma_drain_returns_in_order(q: Seq<CscpFrame>)
    ensures
        drain(q, q.len()) == (all_some(q), Seq::<CscpFrame>::empty()),
    decreases q.len(),
{
    if q.len() == 0 {
        assert(all_some(q) =~= Seq::<Option<CscpFrame>>::empty());
    } else {
        lemma_drain_returns_in_order(q.drop_first());
        assert(all_some(q) =~= seq![Some(q[0])] + all_some(q.drop_first()));
    }
}

/// Runs a history of calls on a ring of `capacity` slots that holds `q`:
/// `Some(frame)` is a push of `frame`, `None` a pop. Gives the number of
/// pushes that were accepted, the number of pops that returned a frame, and
/// the queue after.
pub open spec fn run_history(q: Seq<CscpFrame>, capacity: int, ops: Seq<Option<CscpFrame>>) -> (
    nat,
    nat,
    Seq<CscpFrame>,
)
    decreases ops.len(),
{
    if ops.len() == 0 {
        (0, 0, q)
    } else {
        match ops[0] {
            Some(frame) => {
                let step = pushed(q, capacity, frame);
                let rest = run_history(step.1, capacity, ops.drop_first());
                (rest.0 + (if step.0 { 1nat } else { 0nat }), rest.1, rest.2)
            },
            None => {
                let step = popped(q);
                let rest = run_history(step.1, capacity, ops.drop_first());
                (rest.0, rest.1 + (if step.0 is Some { 1nat } else { 0nat }), rest.2)
            },
        }
    }
}

/// Over any history of pushes and pops, the number of queued frames is the
/// number it started with, plus the accepted pushes, minus the pops that
/// returned a frame; and it never exceeds the capacity. From an empty queue
/// (as after `init`) the length is accepted pushes minus successful pops.
pub proof fn lemma_len_counts_history(q: Seq<CscpFrame>, capacity: int, ops: Seq<Option<CscpFrame>>)
    requires
        q.len() <= capacity,
    ensures
        run_history(q, capacity, ops).2.len() == q.len() + run_history(q, capacity, ops).0
            - run_history(q, capacity, ops).1,
        run_history(q, capacity, ops).2.len() <= capacity,
    decreases ops.len(),
{
    if ops.len() > 0 {
        match ops[0] {
            Some(frame) => {
                lemma_len_counts_history(pushed(q, capacity, frame).1, capacity, ops.drop_first());
            },
            None => {
                lemma_len_counts_history(popped(q).1, capacity, ops.drop_first());
            },
        }
    }
}

/// First in, first out: the frames pushed into an empty ring with room for
/// them all come out of it in the order they went in, and the ring is empty
/// afterwards.
pub proof fn lemma_fifo(capacity: int, frames: Seq<CscpFrame>)
    requires
        frames.len() <= capacity,
    ensures
        push_all(Seq::empty(), capacity, frames).0,
        drain(push_all(Seq::empty(), capacity, frames).1, frames.len()) == (
        all_some(frames),
        Seq::<CscpFrame>::empty(),
        ),
{
    lemma_push_all_appends(Seq::empty(), capacity, frames);
    assert(Seq::<CscpFrame>::empty() + frames =~= frames);
    lemma_drain_returns_in_order(frames);
}

/// When the capacity is a power of two, the slot of the `i`-th queued frame is
/// `(head + i) % capacity` however the counters wrap: the ring behaves as if
/// its counters never overflowed.
pub proof fn lemma_slots_continue_across_wrap(head: usize, i: int, capacity: int)
    requires
        is_power_of_two(capacity),
        capacity <= usize::MAX,
        0 <= i < ring_modulus(),
    ensures
        ring_slot(head, i, capacity) == (head + i) % capacity,
{
    lemma_power_of_two_divides_modulus(capacity);
    lemma_wrap_keeps_slot(head + i, capacity);
}

/// The producer never writes over a frame the consumer has yet to read: in a
/// ring whose capacity is a power of two and which is not full, the slot that
/// `plan_push` picks (`tail % capacity`) is the slot of no queued frame, and
/// it is where the next frame in line goes.
pub proof fn lemma_push_slot_is_free(head: usize, tail: usize, capacity: int, i: int)
    requires
        is_power_of_two(capacity),
        capacity <= usize::MAX,
        ring_len(head, tail) < capacity,
        0 <= i < ring_len(head, tail),
    ensures
        ring_slot(head, i, capacity) != (tail as int) % capacity,
        ring_slot(head, ring_len(head, tail), capacity) == (tail as int) % capacity,
{
    let l = ring_len(head, tail);
    lemma_power_of_two_divides_modulus(capacity);
    lemma_wrap_keeps_slot(head + i, capacity);
    lemma_wrap_keeps_slot(head + l, capacity);
    lemma_distinct_slots(head + i, head + l, capacity);
}

/// The consumer reads the oldest queued frame: the slot that `plan_pop`
/// picks (`head % capacity`) is the slot of the frame at the front.
pub proof fn lemma_pop_slot_is_oldest(head: usize, tail: usize, capacity: int)
    requires
        capacity > 0,
        ring_len(head, tail) > 0,
    ensures
        ring_slot(head, 0, capacity) == (head as int) % capacity,
{
}

/// Lock-free bounded single-producer/single-consumer ring of frames.
///
/// `N` is the number of slots and must be a power of two. `head` is the
/// consumer's read counter and `tail` the producer's write counter; both run
/// freely and wrap around at the top of the `usize` range, and the frame with
/// counter `c` lives in slot `c % N`.
pub struct SpscQueue<const N: usize> {
    head: usize,
    tail: usize,
    slots: Vec<CscpFrame>,
}

impl<const N: usize> View for SpscQueue<N> {
    type V = Seq<CscpFrame>;

    /// The queued frames, oldest first.
    closed spec fn view(&self) -> Seq<CscpFrame> {
        Seq::new(
            ring_len(self.head, self.tail) as nat,
            |i: int| self.slots@[ring_slot(self.head, i, N as int)],
        )
    }
}

impl<const N: usize> SpscQueue<N> {
    /// The ring has `N` slots, `N` divides the counter range, and the counters
    /// are at most `N` apart.
    pub closed spec fn wf(&self) -> bool {
        &&& N > 0
        &&& ring_modulus() % (N as int) == 0
        &&& self.slots@.len() == N
        &&& ring_len(self.head, self.tail) <= N
    }

    /// The slot storage, queued or not, in slot order.
    pub closed spec fn storage(&self) -> Seq<CscpFrame> {
        self.slots@
    }

    /// An empty ring whose slots hold zeroed frames, as in a freshly mapped
    /// region after `init`.
    pub fn new() -> (q: Self)
        requires
            is_power_of_two(N as int),
        ensures
            q.wf(),
            q@ == Seq::<CscpFrame>::empty(),
    {
        proof {
            lemma_power_of_two_divides_modulus(N as int);
        }
        let mut slots: Vec<CscpFrame> = Vec::new();
        let mut i: usize = 0;
        while i < N
            invariant
                i <= N,
                slots@.len() == i,
            decreases N - i,
        {
            slots.push(CscpFrame::new());
            i = i + 1;
        }
        let q = SpscQueue { head: 0, tail: 0, slots };
        assert(q@ =~= Seq::<CscpFrame>::empty());
        q
    }

    /// Resets both counters, which empties the queue. The slots are not
    /// written.
    pub fn init(&mut self)
        requires
            old(self).wf(),
        ensures
            final(self).wf(),
            final(self)@ == Seq::<CscpFrame>::empty(),
            final(self).storage() == old(self).storage(),
    {
        self.head = 0;
        self.tail = 0;
        assert(self@ =~= Seq::<CscpFrame>::empty());
    }

    /// Offers a frame to the producer end. Returns `true` and appends the frame
    /// when fewer than `N` frames are queued; returns `false` and changes
    /// nothing when the queue is full.
    pub fn try_push(&mut self, frame: &CscpFrame) -> (accepted: bool)
        requires
            old(self).wf(),
        ensures
            final(self).wf(),
            (accepted, final(self)@) == pushed(old(self)@, N as int, *frame),
            !accepted ==> final(self).storage() == old(self).storage(),
    {
        let ghost h = self.head;
        let ghost l = ring_len(self.head, self.tail);
        match plan_push(self.head, self.tail, N) {
            PushPlan::Full => false,
            PushPlan::Write { slot, next_tail } => {
                proof {
                    lemma_wrap_keeps_slot(h + l, N as int);
                    assert forall|i: int| 0 <= i < l implies #[trigger] ring_slot(h, i, N as int) != slot by {
                        lemma_wrap_keeps_slot(h + i, N as int);
                        lemma_distinct_slots(h + i, h + l, N as int);
                    }
                }
                self.slots.set(slot, *frame);
                self.tail = next_tail;
                assert(self@ =~= old(self)@.push(*frame));
                true
            },
        }
    }

    /// Takes the oldest frame from the consumer end, or `None` when the queue
    /// is empty (then nothing changes).
    pub fn try_pop(&mut self) -> (frame: Option<CscpFrame>)
        requires
            old(self).wf(),
        ensures
            final(self).wf(),
            (frame, final(self)@) == popped(old(self)@),
            final(self).storage() == old(self).storage(),
    {
        match plan_pop(self.head, self.tail, N) {
            PopPlan::Empty => None,
            PopPlan::Read { slot, next_head } => {
                let f = self.slots[slot];
                self.head = next_head;
                assert(self@ =~= old(self)@.drop_first());
                Some(f)
            },
        }
    }

    /// Number of queued frames; never more than `N` in a well-formed ring.
    pub fn len(&self) -> (n: usize)
        ensures
            n == self@.len(),
            self.wf() ==> n <= N,
    {
        queue_len(self.head, self.tail)
    }

    /// No frame is queued.
    pub fn is_empty(&self) -> (b: bool)
        ensures
            b == (self@.len() == 0),
    {
        self.len() == 0
    }

    /// `N` frames are queued.
    pub fn is_full(&self) -> (b: bool)
        ensures
            b == (self@.len() >= N),
            self.wf() ==> (b == (self@.len() == N)),
    {
        self.len() >= N
    }

    /// Number of slots.
    pub fn capacity(&self) -> (n: usize)
        ensures
            n == N,
    {
        N
    }
}

} // verus!
