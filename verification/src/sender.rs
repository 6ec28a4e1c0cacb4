//! The decisions of sending a batch of frames through the driver.
//!
//! A batch of `num_packets` frames of `packet_size` bytes each is laid out
//! back to back in the channel's write buffer. For each frame in turn the
//! caller's builder fills the frame's slice of the buffer, the frame is
//! checked against the largest Ethernet frame the driver carries, and the
//! frame is handed to the driver. The first refusal ends the batch.
//!
//! [`SendBatch`] holds those decisions as a state machine: the caller performs
//! each [`SendAction`] (running the builder, handing a frame to the driver)
//! and reports back with a [`SendEvent`].
use vstd::prelude::*;

verus! {

/// The largest frame, in bytes, that the driver carries (a standard Ethernet
/// frame without its checksum).
pub const MAX_FRAME_SIZE: usize = 1514;

/// Why a batch ended before all of its frames were sent.
#[derive(Clone, Copy, Debug, PartialEq, Eq, Structural)]
pub enum SendError {
    /// The frames are larger than [`MAX_FRAME_SIZE`].
    FrameTooLarge,
    /// The driver refused a frame.
    DriverRejected,
}

/// Where a batch stands.
#[derive(Clone, Copy, Debug, PartialEq, Eq, Structural)]
pub enum Phase {
    /// Nothing has happened yet.
    Ready,
    /// The builder is filling frame `i`.
    Building(usize),
    /// The driver is sending frame `i`.
    Transmitting(usize),
    /// The batch is over.
    Finished,
}

/// What the caller reports back.
#[derive(Clone, Copy, Debug, PartialEq, Eq, Structural)]
pub enum SendEvent {
    /// The caller wants the batch to start.
    Begin,
    /// The builder has filled the frame of the last `Build`.
    Built,
    /// The driver has taken (`true`) or refused (`false`) the frame of the
    /// last `Transmit`.
    Transmitted(bool),
}

/// What the caller does next.
#[derive(Clone, Copy, Debug, PartialEq, Eq)]
pub enum SendAction {
    /// Run the builder on `write_buffer[start..end]`.
    Build { start: usize, end: usize },
    /// Hand `write_buffer[start..end]` to the driver as one frame.
    Transmit { start: usize, end: usize },
    /// The batch is over, with this outcome.
    Done(Result<(), SendError>),
}

/// Whether a batch in `phase` waits for `event`.
pub open spec fn phase_accepts(phase: Phase, event: SendEvent) -> bool {
    match (phase, event) {
        (Phase::Ready, SendEvent::Begin) => true,
        (Phase::Building(_), SendEvent::Built) => true,
        (Phase::Transmitting(_), SendEvent::Transmitted(_)) => true,
        _ => false,
    }
}

/// The phase and the action that follow `event` in a batch of `n` frames of
/// `size` bytes that stands at `phase`.
pub open spec fn transition(n: nat, size: nat, phase: Phase, event: SendEvent) -> (
    Phase,
    SendAction,
) {
    match (phase, event) {
        (Phase::Ready, SendEvent::Begin) => if n == 0 {
            (Phase::Finished, SendAction::Done(Ok(())))
        } else {
            (Phase::Building(0), build_frame(size, 0))
        },
        (Phase::Building(i), SendEvent::Built) => if size > MAX_FRAME_SIZE {
            (Phase::Finished, SendAction::Done(Err(SendError::FrameTooLarge)))
        } else {
            (Phase::Transmitting(i), transmit_frame(size, i as nat))
        },
        (Phase::Transmitting(i), SendEvent::Transmitted(taken)) => if !taken {
            (Phase::Finished, SendAction::Done(Err(SendError::DriverRejected)))
        } else if i + 1 == n {
            (Phase::Finished, SendAction::Done(Ok(())))
        } else {
            (Phase::Building((i + 1) as usize), build_frame(size, (i + 1) as nat))
        },
        _ => (phase, SendAction::Done(Ok(()))),
    }
}

/// The actions with which a batch answers `events`, one for each.
pub open spec fn run(n: nat, size: nat, phase: Phase, events: Seq<SendEvent>) -> Seq<SendAction>
    decreases events.len(),
{
    if events.len() == 0 {
        Seq::empty()
    } else {
        let (next, action) = transition(n, size, phase, events[0]);
        seq![action] + run(n, size, next, events.drop_first())
    }
}

/// The events of `k` frames that are each built and then taken by the driver.
pub open spec fn all_taken(k: nat) -> Seq<SendEvent> {
    Seq::new(
        2 * k,
        |j: int|
            if j % 2 == 0 {
                SendEvent::Built
            } else {
                SendEvent::Transmitted(true)
            },
    )
}

/// The actions that answer `all_taken(n - i)` from frame `i` on: frame `i` is
/// sent, then each later frame is built and sent, and the batch ends well.
pub open spec fn sends_from(size: nat, i: nat, n: nat) -> Seq<SendAction> {
    Seq::new(
        (2 * (n - i)) as nat,
        |j: int|
            if j % 2 == 0 {
                transmit_frame(size, (i + j / 2) as nat)
            } else if i + j / 2 + 1 == n {
                SendAction::Done(Ok(()))
            } else {
                build_frame(size, (i + j / 2 + 1) as nat)
            },
    )
}

/// A batch of equally sized frames laid out back to back in a write buffer.
pub struct SendBatch {
    num_packets: usize,
    packet_size: usize,
    buffer_len: usize,
    phase: Phase,
}

/// The first byte of frame `i` of a batch of `packet_size`-byte frames.
pub open spec fn frame_start(packet_size: nat, i: nat) -> nat {
    i * packet_size
}

/// One past the last byte of frame `i`.
pub open spec fn frame_end(packet_size: nat, i: nat) -> nat {
    i * packet_size + packet_size
}

/// Frame `i` of the batch must be built.
pub open spec fn build_frame(packet_size: nat, i: nat) -> SendAction {
    SendAction::Build {
        start: frame_start(packet_size, i) as usize,
        end: frame_end(packet_size, i) as usize,
    }
}

/// Frame `i` of the batch must be sent.
pub open spec fn transmit_frame(packet_size: nat, i: nat) -> SendAction {
    SendAction::Transmit {
        start: frame_start(packet_size, i) as usize,
        end: frame_end(packet_size, i) as usize,
    }
}

proof fn lemma_frame_in_buffer(num_packets: nat, packet_size: nat, i: nat)
    requires
        i < num_packets,
    ensures
        0 <= frame_start(packet_size, i) <= frame_end(packet_size, i) <= num_packets
            * packet_size,
        frame_end(packet_size, i) == frame_start(packet_size, (i + 1) as nat),
{
    assert(i * packet_size + packet_size <= num_packets * packet_size) by (nonlinear_arith)
        requires
            i < num_packets,
    ;
    assert(i * packet_size + packet_size == (i + 1) * packet_size) by (nonlinear_arith);
    assert(0 <= i * packet_size) by (nonlinear_arith);
}

impl SendBatch {
    /// Number of frames in the batch.
    pub closed spec fn num_packets(&self) -> nat {
        self.num_packets as nat
    }

    /// Size of each frame.
    pub closed spec fn packet_size(&self) -> nat {
        self.packet_size as nat
    }

    /// Length of the write buffer that holds the frames.
    pub closed spec fn buffer_len(&self) -> nat {
        self.buffer_len as nat
    }

    /// Where the batch stands.
    pub closed spec fn phase(&self) -> Phase {
        self.phase
    }

    /// The frames fit in the write buffer; a frame under way is one of the
    /// batch's frames; and once the first frame has been built, the frames
    /// are known to be no larger than [`MAX_FRAME_SIZE`].
    pub open spec fn wf(&self) -> bool {
        &&& self.num_packets() * self.packet_size() <= self.buffer_len()
        &&& self.buffer_len() <= usize::MAX
        &&& match self.phase() {
            Phase::Ready => true,
            Phase::Building(i) => i < self.num_packets() && (i > 0 ==> self.packet_size()
                <= MAX_FRAME_SIZE),
            Phase::Transmitting(i) => i < self.num_packets() && self.packet_size()
                <= MAX_FRAME_SIZE,
            Phase::Finished => true,
        }
    }

    /// Whether the batch waits for `event`.
    pub open spec fn accepts(&self, event: SendEvent) -> bool {
        phase_accepts(self.phase(), event)
    }

    /// The phase and the action that follow `event`.
    pub open spec fn after(&self, event: SendEvent) -> (Phase, SendAction) {
        transition(self.num_packets(), self.packet_size(), self.phase(), event)
    }

    /// Lays out `num_packets` frames of `packet_size` bytes in a write buffer
    /// of `buffer_len` bytes; `None` when they do not fit in it.
    pub fn new(num_packets: usize, packet_size: usize, buffer_len: usize) -> (batch: Option<
        SendBatch,
    >)
        requires
            num_packets * packet_size <= usize::MAX,
        ensures
            batch is None <==> num_packets * packet_size > buffer_len,
            batch matches Some(b) ==> {
                &&& b.wf()
                &&& b.num_packets() == num_packets
                &&& b.packet_size() == packet_size
                &&& b.buffer_len() == buffer_len
                &&& b.phase() == Phase::Ready
            },
    {
        let total_len = num_packets * packet_size;
        if total_len > buffer_len {
            return None;
        }
        Some(SendBatch { num_packets, packet_size, buffer_len, phase: Phase::Ready })
    }

    /// Moves the batch on by `event` and says what to do next.
    pub fn step(&mut self, event: SendEvent) -> (action: SendAction)
        requires
            old(self).wf(),
            old(self).accepts(event),
        ensures
            final(self).wf(),
            (final(self).phase(), action) == old(self).after(event),
            old(self).phase() is Transmitting && event == SendEvent::Transmitted(false) ==> (
            final(self).phase() == Phase::Finished && action == SendAction::Done(
                Err(SendError::DriverRejected),
            )),
            action == SendAction::Done(Ok(())) ==> {
                ||| event == SendEvent::Begin && old(self).num_packets() == 0
                ||| event == SendEvent::Transmitted(true) && old(self).phase()
                    == Phase::Transmitting((old(self).num_packets() - 1) as usize)
            },
            final(self).num_packets() == old(self).num_packets(),
            final(self).packet_size() == old(self).packet_size(),
            final(self).buffer_len() == old(self).buffer_len(),
    {
        let n = self.num_packets;
        let size = self.packet_size;
        match (self.phase, event) {
            (Phase::Ready, SendEvent::Begin) => {
                if n == 0 {
                    self.phase = Phase::Finished;
                    SendAction::Done(Ok(()))
                } else {
                    proof {
                        lemma_frame_in_buffer(n as nat, size as nat, 0);
                    }
                    self.phase = Phase::Building(0);
                    SendAction::Build { start: 0, end: size }
                }
            },
            (Phase::Building(i), SendEvent::Built) => {
                if size > MAX_FRAME_SIZE {
                    self.phase = Phase::Finished;
                    SendAction::Done(Err(SendError::FrameTooLarge))
                } else {
                    proof {
                        lemma_frame_in_buffer(n as nat, size as nat, i as nat);
                    }
                    self.phase = Phase::Transmitting(i);
                    let start = i * size;
                    SendAction::Transmit { start, end: start + size }
                }
            },
            (Phase::Transmitting(i), SendEvent::Transmitted(taken)) => {
                if !taken {
                    self.phase = Phase::Finished;
                    SendAction::Done(Err(SendError::DriverRejected))
                } else if i + 1 == n {
                    self.phase = Phase::Finished;
                    SendAction::Done(Ok(()))
                } else {
                    let next = i + 1;
                    proof {
                        lemma_frame_in_buffer(n as nat, size as nat, next as nat);
                    }
                    self.phase = Phase::Building(next);
                    let start = next * size;
                    SendAction::Build { start, end: start + size }
                }
            },
            _ => SendAction::Done(Ok(())),
        }
    }
}

/// A frame that the driver refuses ends the batch with `DriverRejected`,
/// whichever frame it is, the last one included.
pub proof fn lemma_refusal_ends_batch(b: SendBatch, i: usize)
    requires
        b.wf(),
        b.phase() == Phase::Transmitting(i),
    ensures
        b.after(SendEvent::Transmitted(false)) == (
            Phase::Finished,
            SendAction::Done(Err(SendError::DriverRejected)),
        ),
{
}

/// A batch ends well only when there was nothing to send, or when the driver
/// has just taken its last frame: no refused frame is ever reported as sent.
pub proof fn lemma_success_only_when_all_taken(b: SendBatch, event: SendEvent)
    requires
        b.wf(),
        b.accepts(event),
        b.after(event).1 == SendAction::Done(Ok(())),
    ensures
        event == SendEvent::Begin ==> b.num_packets() == 0,
        event != SendEvent::Begin ==> event == SendEvent::Transmitted(true) && b.phase()
            == Phase::Transmitting((b.num_packets() - 1) as usize),
{
}

/// How many more events a batch can take before it is over: two for each
/// frame still to build and send, one more before the batch has begun.
pub open spec fn remaining_events(num_packets: nat, phase: Phase) -> nat {
    match phase {
        Phase::Ready => 2 * num_packets + 1,
        Phase::Building(i) => (2 * (num_packets - i)) as nat,
        Phase::Transmitting(i) => (2 * (num_packets - i) - 1) as nat,
        Phase::Finished => 0,
    }
}

/// Every frame that a batch has built or sent lies within the write buffer
/// and is exactly `packet_size` bytes long.
pub proof fn lemma_frames_within_buffer(b: SendBatch, event: SendEvent)
    requires
        b.wf(),
        b.accepts(event),
    ensures
        match b.after(event).1 {
            SendAction::Build { start, end } => start + b.packet_size() == end && end
                <= b.buffer_len(),
            SendAction::Transmit { start, end } => start + b.packet_size() == end && end
                <= b.buffer_len(),
            SendAction::Done(_) => true,
        },
{
    match (b.phase(), event) {
        (Phase::Ready, SendEvent::Begin) => {
            if b.num_packets() > 0 {
                lemma_frame_in_buffer(b.num_packets(), b.packet_size(), 0);
            }
        },
        (Phase::Building(i), SendEvent::Built) => {
            lemma_frame_in_buffer(b.num_packets(), b.packet_size(), i as nat);
        },
        (Phase::Transmitting(i), SendEvent::Transmitted(taken)) => {
            if taken && i + 1 != b.num_packets() {
                lemma_frame_in_buffer(b.num_packets(), b.packet_size(), (i + 1) as nat);
            }
        },
        _ => {},
    }
}

/// The frame handed to the driver is the frame the builder has just filled:
/// frame `i` of the batch, `write_buffer[i * packet_size..(i + 1) * packet_size]`.
pub proof fn lemma_transmit_what_was_built(b: SendBatch, i: usize)
    requires
        b.wf(),
        b.phase() == Phase::Building(i),
        b.packet_size() <= MAX_FRAME_SIZE,
    ensures
        b.after(SendEvent::Built) == (Phase::Transmitting(i), transmit_frame(
            b.packet_size(),
            i as nat,
        )),
        build_frame(b.packet_size(), i as nat) matches SendAction::Build { start, end }
            && transmit_frame(b.packet_size(), i as nat) == (SendAction::Transmit { start, end }),
{
}

/// Frames follow each other without gap or overlap: once frame `i` has been
/// sent, the next frame starts where frame `i` ends.
pub proof fn lemma_frames_consecutive(b: SendBatch, i: usize)
    requires
        b.wf(),
        b.phase() == Phase::Transmitting(i),
        i + 1 < b.num_packets(),
    ensures
        b.after(SendEvent::Transmitted(true)) == (Phase::Building((i + 1) as usize), build_frame(
            b.packet_size(),
            (i + 1) as nat,
        )),
        frame_start(b.packet_size(), (i + 1) as nat) == frame_end(b.packet_size(), i as nat),
{
    lemma_frame_in_buffer(b.num_packets(), b.packet_size(), i as nat);
}

/// No frame larger than [`MAX_FRAME_SIZE`] is ever handed to the driver, and
/// a batch of such frames ends with `FrameTooLarge` as soon as its first frame
/// has been built.
pub proof fn lemma_oversized_frames_never_sent(b: SendBatch, event: SendEvent)
    requires
        b.wf(),
        b.accepts(event),
    ensures
        b.after(event).1 is Transmit ==> b.packet_size() <= MAX_FRAME_SIZE,
        b.packet_size() > MAX_FRAME_SIZE && event == SendEvent::Built ==> b.after(event) == (
            Phase::Finished,
            SendAction::Done(Err(SendError::FrameTooLarge)),
        ),
{
}

/// Each event brings a batch closer to its end: a batch of `n` frames is over
/// after at most `2 * n + 1` events, and an ended batch takes no more events.
pub proof fn lemma_batch_ends(b: SendBatch, event: SendEvent)
    requires
        b.wf(),
        b.accepts(event),
    ensures
        remaining_events(b.num_packets(), b.phase()) > 0,
        remaining_events(b.num_packets(), b.after(event).0) < remaining_events(
            b.num_packets(),
            b.phase(),
        ),
        b.after(event).0 == Phase::Finished <==> b.after(event).1 is Done,
        !phase_accepts(Phase::Finished, event),
{
}

proof fn lemma_sends_from(n: nat, size: nat, i: nat)
    requires
        i < n,
        size <= MAX_FRAME_SIZE,
        i <= usize::MAX,
        n <= usize::MAX,
    ensures
        run(n, size, Phase::Building(i as usize), all_taken((n - i) as nat)) == sends_from(
            size,
            i,
            n,
        ),
    decreases n - i,
{
    let events = all_taken((n - i) as nat);
    let rest = events.drop_first();
    let after_sent = rest.drop_first();
    assert(events[0] == SendEvent::Built);
    assert(rest[0] == SendEvent::Transmitted(true));
    assert(after_sent =~= all_taken((n - i - 1) as nat));
    let tail = run(n, size, Phase::Transmitting(i as usize), rest);
    if i + 1 == n {
        assert(after_sent.len() == 0);
        assert(run(n, size, Phase::Finished, after_sent) =~= Seq::<SendAction>::empty());
        assert(tail =~= seq![SendAction::Done(Ok(()))]);
        assert(run(n, size, Phase::Building(i as usize), events) =~= sends_from(size, i, n));
    } else {
        lemma_sends_from(n, size, i + 1);
        assert(tail =~= seq![build_frame(size, i + 1)] + sends_from(size, i + 1, n));
        let whole = run(n, size, Phase::Building(i as usize), events);
        assert(whole =~= seq![transmit_frame(size, i)] + tail);
        let expected = sends_from(size, i, n);
        assert forall|j: int| 0 <= j < whole.len() implies whole[j] == expected[j] by {
            if j >= 2 {
                assert(whole[j] == sends_from(size, i + 1, n)[j - 2]);
                assert((j - 2) / 2 == j / 2 - 1);
                assert((j - 2) % 2 == j % 2);
            }
        }
        assert(whole =~= expected);
    }
}

/// When the driver takes every frame, a batch of `n` frames of at most
/// [`MAX_FRAME_SIZE`] bytes builds and sends frame 0, frame 1, ... frame
/// `n - 1` in that order, each from its own slice of the write buffer, and
/// then ends well; a batch of no frames ends well at once.
pub proof fn lemma_all_frames_sent_in_order(n: nat, size: nat)
    requires
        size <= MAX_FRAME_SIZE,
        n <= usize::MAX,
    ensures
        n == 0 ==> run(n, size, Phase::Ready, seq![SendEvent::Begin]) == seq![
            SendAction::Done(Ok(())),
        ],
        n > 0 ==> run(n, size, Phase::Ready, seq![SendEvent::Begin] + all_taken(n)) == seq![
            build_frame(size, 0),
        ] + sends_from(size, 0, n),
{
    if n == 0 {
        assert(seq![SendEvent::Begin].drop_first() =~= Seq::<SendEvent>::empty());
        assert(run(n, size, Phase::Finished, Seq::<SendEvent>::empty()) =~= Seq::<
            SendAction,
        >::empty());
        assert(run(n, size, Phase::Ready, seq![SendEvent::Begin]) =~= seq![
            SendAction::Done(Ok(())),
        ]);
    } else {
        let events = seq![SendEvent::Begin] + all_taken(n);
        assert(events.drop_first() =~= all_taken(n));
        lemma_sends_from(n, size, 0);
    }
}

} // verus!
