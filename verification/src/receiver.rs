//! The decisions of receiving frames from the driver.
//!
//! The driver signals an event when frames arrive. The receiver keeps the
//! frames it has read but not yet handed out in a first-in, first-out queue;
//! when asked for the next frame it hands out the oldest queued one, and only
//! when the queue is empty does it wait for the driver's event, then read
//! frames until the driver has none left.
//!
//! [`PacketQueue`] holds the queue and those decisions: the caller performs
//! each [`ReceiveAction`] (waiting for the event, reading a frame) and reports
//! what came of it.
use vstd::prelude::*;
use std::collections::VecDeque;

verus! {

/// What came of waiting for the driver's packet event.
#[derive(Clone, Copy, Debug, PartialEq, Eq, Structural)]
pub enum WaitOutcome {
    /// The event was signalled.
    Signaled,
    /// The wait timed out.
    TimedOut,
    /// The wait itself failed.
    Failed,
}

/// What the caller does next.
#[derive(Clone, Copy, Debug, PartialEq, Eq, Structural)]
pub enum ReceiveAction {
    /// Hand out the current frame ([`PacketQueue::packet`]).
    Deliver,
    /// Wait for the driver's packet event.
    Wait,
    /// Read one frame from the driver.
    Read,
    /// Report that waiting for the event failed.
    Fail,
}

/// The queue of a frame read from the driver: a frame with no bytes is not
/// queued.
pub open spec fn enqueue(queued: Seq<Seq<u8>>, frame: Seq<u8>) -> Seq<Seq<u8>> {
    if frame.len() > 0 {
        queued.push(frame)
    } else {
        queued
    }
}

/// Whether a frame has bytes.
pub open spec fn is_nonempty(frame: Seq<u8>) -> bool {
    frame.len() > 0
}

/// The frames among `frames` that have bytes, in their order.
pub open spec fn nonempty_frames(frames: Seq<Seq<u8>>) -> Seq<Seq<u8>> {
    frames.filter(|f: Seq<u8>| is_nonempty(f))
}

/// The frames read from the driver and not yet handed out, and the frame
/// handed out last.
pub struct PacketQueue {
    packets: VecDeque<Vec<u8>>,
    current: Vec<u8>,
    handed_out: Ghost<Seq<Seq<u8>>>,
    read: Ghost<Seq<Seq<u8>>>,
}

/// `after` is `before` once the oldest queued frame, if any, has been handed
/// out: it becomes the current frame and leaves the queue (`Deliver`); with
/// nothing queued, nothing changes (`Wait`).
pub open spec fn hands_out_oldest(
    before: PacketQueue,
    after: PacketQueue,
    action: ReceiveAction,
) -> bool {
    &&& after.read_frames() == before.read_frames()
    &&& action == ReceiveAction::Deliver ==> is_nonempty(after.current())
    &&& if before.queued().len() > 0 {
        &&& action == ReceiveAction::Deliver
        &&& after.current() == before.queued()[0]
        &&& after.queued() == before.queued().drop_first()
        &&& after.handed_out() == before.handed_out().push(before.queued()[0])
    } else {
        &&& action == ReceiveAction::Wait
        &&& after.current() == before.current()
        &&& after.queued() == before.queued()
        &&& after.handed_out() == before.handed_out()
    }
}

impl PacketQueue {
    /// The queued frames, oldest first.
    pub closed spec fn queued(&self) -> Seq<Seq<u8>> {
        self.packets@.map_values(|p: Vec<u8>| p@)
    }

    /// The frame handed out last.
    pub closed spec fn current(&self) -> Seq<u8> {
        self.current@
    }

    /// The frames handed out so far, in the order they were handed out.
    pub closed spec fn handed_out(&self) -> Seq<Seq<u8>> {
        self.handed_out@
    }

    /// The frames read from the driver so far, in read order, empty ones
    /// included.
    pub closed spec fn read_frames(&self) -> Seq<Seq<u8>> {
        self.read@
    }

    /// No queued frame is empty, and the frames handed out so far followed by
    /// the queued ones are the non-empty frames read so far, in read order.
    pub open spec fn wf(&self) -> bool {
        &&& forall|i: int|
            0 <= i < self.queued().len() ==> is_nonempty(#[trigger] self.queued()[i])
        &&& self.handed_out() + self.queued() == nonempty_frames(self.read_frames())
    }

    /// An empty queue whose current frame is `read_buffer_size` zero bytes,
    /// before any frame has been read or handed out.
    pub fn new(read_buffer_size: usize) -> (q: PacketQueue)
        ensures
            q.wf(),
            q.queued() == Seq::<Seq<u8>>::empty(),
            q.handed_out() == Seq::<Seq<u8>>::empty(),
            q.read_frames() == Seq::<Seq<u8>>::empty(),
            q.current() == Seq::new(read_buffer_size as nat, |i: int| 0u8),
    {
        let q = PacketQueue {
            packets: VecDeque::new(),
            current: vec![0u8; read_buffer_size],
            handed_out: Ghost(Seq::empty()),
            read: Ghost(Seq::empty()),
        };
        proof {
            reveal(Seq::filter);
        }
        assert(q.queued() =~= Seq::<Seq<u8>>::empty());
        assert(q.handed_out() + q.queued() =~= nonempty_frames(q.read_frames()));
        assert(q.current() =~= Seq::new(read_buffer_size as nat, |i: int| 0u8));
        q
    }

    /// Makes the oldest queued frame the current one, if there is one.
    fn take_oldest(&mut self) -> (action: ReceiveAction)
        requires
            old(self).wf(),
        ensures
            final(self).wf(),
            hands_out_oldest(*old(self), *final(self), action),
    {
        let ghost before = self.queued();
        let ghost given = self.handed_out();
        match self.packets.pop_front() {
            Some(packet) => {
                assert(is_nonempty(before[0]));
                self.current = packet;
                self.handed_out = Ghost(given.push(before[0]));
                assert(self.queued() =~= before.drop_first());
                assert(self.queued().len() == before.len() - 1);
                assert forall|i: int| 0 <= i < self.queued().len() implies is_nonempty(
                    #[trigger] self.queued()[i],
                ) by {
                    assert(self.queued()[i] == before[i + 1]);
                }
                assert(self.handed_out() + self.queued() =~= given + before);
                ReceiveAction::Deliver
            },
            None => ReceiveAction::Wait,
        }
    }

    /// The first decision when the next frame is asked for: hand out the
    /// oldest queued frame, else wait for the driver.
    pub fn begin(&mut self) -> (action: ReceiveAction)
        requires
            old(self).wf(),
        ensures
            final(self).wf(),
            hands_out_oldest(*old(self), *final(self), action),
    {
        self.take_oldest()
    }

    /// After waiting for the driver's event: read frames, unless the wait
    /// failed.
    pub fn on_wait(&self, outcome: WaitOutcome) -> (action: ReceiveAction)
        ensures
            action == if outcome == WaitOutcome::Failed {
                ReceiveAction::Fail
            } else {
                ReceiveAction::Read
            },
    {
        match outcome {
            WaitOutcome::Failed => ReceiveAction::Fail,
            _ => ReceiveAction::Read,
        }
    }

    /// After a read from the driver: a frame that was read (`Some`) joins the
    /// queue unless it is empty, and the next frame is read; when the driver
    /// had no frame (`None`), the oldest queued frame is handed out, or, if
    /// none is queued, the receiver waits again.
    pub fn on_read(&mut self, frame: Option<Vec<u8>>) -> (action: ReceiveAction)
        requires
            old(self).wf(),
        ensures
            final(self).wf(),
            match frame {
                Some(data) => {
                    &&& action == ReceiveAction::Read
                    &&& final(self).queued() == enqueue(old(self).queued(), data@)
                    &&& data@.len() > 0 ==> final(self).queued() == old(self).queued().push(data@)
                    &&& data@.len() == 0 ==> final(self).queued() == old(self).queued()
                    &&& final(self).read_frames() == old(self).read_frames().push(data@)
                    &&& final(self).handed_out() == old(self).handed_out()
                    &&& final(self).current() == old(self).current()
                },
                None => hands_out_oldest(*old(self), *final(self), action),
            },
    {
        match frame {
            Some(data) => {
                let ghost before = self.queued();
                let ghost bytes = data@;
                let ghost reads = self.read_frames();
                proof {
                    reads.lemma_filter_push(bytes, |f: Seq<u8>| is_nonempty(f));
                }
                self.read = Ghost(reads.push(bytes));
                if data.len() > 0 {
                    self.packets.push_back(data);
                    assert(self.queued() =~= before.push(bytes));
                    assert(self.handed_out() + self.queued() =~= (self.handed_out()
                        + before).push(bytes));
                } else {
                    assert(self.queued() =~= before);
                }
                ReceiveAction::Read
            },
            None => self.take_oldest(),
        }
    }

    /// The frame handed out last.
    pub fn packet(&self) -> (bytes: &[u8])
        ensures
            bytes@ == self.current(),
    {
        self.current.as_slice()
    }
}

/// No frame is lost, duplicated or reordered: in every queue that `new`
/// made and `begin` and `on_read` moved on, the frames handed out so far,
/// followed by those still queued, are exactly the frames read from the
/// driver so far that hold at least one byte, whatever their length, in read
/// order; and no frame handed out is empty.
pub proof fn lemma_no_frame_lost_or_reordered(q: PacketQueue)
    requires
        q.wf(),
    ensures
        q.handed_out() + q.queued() == q.read_frames().filter(|f: Seq<u8>| f.len() > 0),
        forall|i: int|
            0 <= i < q.handed_out().len() ==> #[trigger] q.handed_out()[i].len() > 0,
{
    let pred = |f: Seq<u8>| is_nonempty(f);
    let by_length = |f: Seq<u8>| f.len() > 0;
    assert(pred =~= by_length);
    assert forall|i: int| 0 <= i < q.handed_out().len() implies #[trigger] q.handed_out()[i].len()
        > 0 by {
        q.read_frames().lemma_filter_pred(pred, i);
        assert((q.handed_out() + q.queued())[i] == q.handed_out()[i]);
    }
}

/// A frame read with at least one byte, of any length, joins the back of
/// the queue, behind every frame already queued; a frame with no bytes
/// leaves the queue as it was. Together with `begin`, which hands out the
/// front of the queue, every such frame is handed out in read order.
pub proof fn lemma_read_frame_queued(before: Seq<Seq<u8>>, frame: Seq<u8>)
    ensures
        frame.len() > 0 ==> enqueue(before, frame) == before.push(frame),
        frame.len() > 0 ==> enqueue(before, frame).last() == frame,
        frame.len() == 0 ==> enqueue(before, frame) == before,
{
}

} // verus!
