use vstd::prelude::*;
use vstd::pervasive::unreached;
use crate::codec::frame_dec;
use crate::ipc::Receiver;
use crate::transport::{recv_any, Frame, FrameRx, PollStatus};
use crate::value::{abs, Value};

verus! {

/// One undecoded arrival: the payload bytes and handles of a single frame,
/// waiting for the caller to coerce them to a value.
pub struct OpaqueMessage {
    pub(crate) frame: Frame,
}

impl OpaqueMessage {
    /// The payload bytes the message carries.
    pub closed spec fn payload(&self) -> Seq<u8> {
        self.frame.bytes@
    }

    /// The handles the message carries.
    pub closed spec fn carried(&self) -> Seq<crate::transport::RawHandle> {
        self.frame.handles@
    }

    /// Decodes the message; any value returned is the exact decoding of
    /// the carried frame.
    pub fn to(self) -> (r: Option<Value>)
        ensures
            r matches Some(v) ==> frame_dec(self.payload(), self.carried()) == Some(abs(v)),
            r is None ==> frame_dec(self.payload(), self.carried()) is None,
    {
        crate::codec::decode_frame(self.frame)
    }
}

/// What one member of the set had ready.
pub enum SelectionResult {
    MessageReceived(u64, OpaqueMessage),
    ChannelClosed(u64),
}

/// An owned collection of receivers waited on together. Each member is
/// keyed by an id handed out at `add`; ids grow monotonically and are
/// never reused, and a member whose channel closes is retired so its id
/// cannot reappear.
pub struct ReceiverSet {
    rxs: Vec<FrameRx>,
    ids: Vec<u64>,
    next_id: u64,
}

impl ReceiverSet {
    /// The ids of the current members, in insertion order.
    pub closed spec fn ids_view(&self) -> Seq<u64> {
        self.ids@
    }

    pub closed spec fn next(&self) -> u64 {
        self.next_id
    }

    /// Well-formed: one raw receiver per id, every id below the counter,
    /// and no id twice.
    pub closed spec fn wf(&self) -> bool {
        &&& self.ids@.len() == self.rxs@.len()
        &&& forall|i: int| 0 <= i < self.ids@.len() ==> #[trigger] self.ids@[i] < self.next_id
        &&& forall|i: int, j: int| 0 <= i < j < self.ids@.len() ==> self.ids@[i] != self.ids@[j]
    }

    pub fn new() -> (r: ReceiverSet)
        ensures
            r.wf(),
            r.ids_view() == Seq::<u64>::empty(),
            r.next() == 0,
    {
        ReceiverSet { rxs: Vec::new(), ids: Vec::new(), next_id: 0 }
    }

    pub fn len(&self) -> (r: usize)
        ensures
            r == self.ids_view().len(),
    {
        self.ids.len()
    }

    /// Takes ownership of the receiver and hands back a set-local id that
    /// is fresh: strictly above every id given out before, so ids of
    /// removed members are never reused.
    pub fn add(&mut self, rx: Receiver) -> (id: u64)
        requires
            old(self).wf(),
            old(self).next() < u64::MAX,
        ensures
            final(self).wf(),
            final(self).ids_view() == old(self).ids_view().push(id),
            !old(self).ids_view().contains(id),
            forall|j: int|
                0 <= j < old(self).ids_view().len() ==> id > #[trigger] old(self).ids_view()[j],
            final(self).next() == id + 1,
    {
        let id = self.next_id;
        let op = rx.to_opaque();
        self.rxs.push(op.rx);
        self.ids.push(id);
        self.next_id = id + 1;
        proof {
            if old(self).ids@.contains(id) {
                let j = choose|j: int|
                    0 <= j < old(self).ids@.len() && old(self).ids@[j] == id;
                assert(old(self).ids@[j] < id);
            }
        }
        id
    }

    /// Blocks until at least one member is ready, then reports one event:
    /// either an undecoded message from a still-open member, or the closure
    /// of a member whose senders are all gone — that member is retired on
    /// the spot, exactly once. Every reported id belongs to a member of
    /// the set as it was at the call.
    pub fn select(&mut self) -> (r: Vec<SelectionResult>)
        requires
            old(self).wf(),
            old(self).ids_view().len() > 0,
        ensures
            final(self).wf(),
            final(self).next() == old(self).next(),
            r@.len() == 1,
            match r@[0] {
                SelectionResult::MessageReceived(id, _) => {
                    &&& final(self).ids_view() == old(self).ids_view()
                    &&& old(self).ids_view().contains(id)
                },
                SelectionResult::ChannelClosed(id) => exists|i: int|
                    {
                        &&& 0 <= i < old(self).ids_view().len()
                        &&& old(self).ids_view()[i] == id
                        &&& final(self).ids_view() == old(self).ids_view().remove(i)
                    },
            },
    {
        let (i, st) = recv_any(&self.rxs);
        match st {
            PollStatus::Got(f) => {
                let id = self.ids[i];
                vec![SelectionResult::MessageReceived(id, OpaqueMessage { frame: f })]
            },
            PollStatus::Closed => {
                let id = self.ids.remove(i);
                self.rxs.remove(i);
                proof {
                    assert forall|a: int, b: int|
                        0 <= a < b < self.ids@.len() implies self.ids@[a] != self.ids@[b] by {
                        assert(self.ids@[a] == if a < i {
                            old(self).ids@[a]
                        } else {
                            old(self).ids@[a + 1]
                        });
                        assert(self.ids@[b] == if b < i {
                            old(self).ids@[b]
                        } else {
                            old(self).ids@[b + 1]
                        });
                    }
                    assert forall|a: int|
                        0 <= a < self.ids@.len() implies #[trigger] self.ids@[a]
                        < self.next_id by {
                        assert(self.ids@[a] == if a < i {
                            old(self).ids@[a]
                        } else {
                            old(self).ids@[a + 1]
                        });
                    }
                }
                vec![SelectionResult::ChannelClosed(id)]
            },
            PollStatus::Empty => unreached(),
        }
    }
}

} // verus!
