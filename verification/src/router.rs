use vstd::prelude::*;
use vstd::pervasive::unreached;
use crate::ipc::{channel, OpaqueReceiver, OpaqueSender, Receiver};
use crate::transport::{recv_any, tx_send, FrameRx, FrameTx, PollStatus};

verus! {

/// What one pumping step did.
#[derive(PartialEq, Eq, Structural, Debug)]
pub enum RouteStep {
    Forwarded,
    Removed,
}

/// The routing core: a set of source receivers, each bound to a forwarding
/// sender that stands for the callback installed on it. A message arriving
/// on a source is forwarded whole on its sender; when a source's channel
/// closes — every sender for it dropped — its route is removed and the
/// forwarding sender is dropped with it, which is how a routed callback's
/// captured state is released.
///
/// The surrounding application decides when to pump: a background thread
/// calling `step` in a loop gives the process-wide router; a test can pump
/// by hand.
pub struct Router {
    rxs: Vec<FrameRx>,
    outs: Vec<FrameTx>,
}

impl Router {
    pub closed spec fn sources(&self) -> Seq<FrameRx> {
        self.rxs@
    }

    pub closed spec fn callbacks(&self) -> Seq<FrameTx> {
        self.outs@
    }

    /// Well-formed: one forwarding sender per source.
    pub closed spec fn wf(&self) -> bool {
        self.rxs@.len() == self.outs@.len()
    }

    pub fn new() -> (r: Router)
        ensures
            r.wf(),
            r.callbacks().len() == 0,
    {
        Router { rxs: Vec::new(), outs: Vec::new() }
    }

    pub fn route_count(&self) -> (r: usize)
        ensures
            r == self.callbacks().len(),
    {
        self.outs.len()
    }

    /// Installs a route: every arrival on `source` will be forwarded on
    /// `dest` until the source closes.
    pub fn add_route(&mut self, source: OpaqueReceiver, dest: OpaqueSender)
        requires
            old(self).wf(),
        ensures
            final(self).wf(),
            final(self).sources() == old(self).sources().push(source.rx),
            final(self).callbacks() == old(self).callbacks().push(dest.tx),
    {
        self.rxs.push(source.rx);
        self.outs.push(dest.tx);
    }

    /// Routes a receiver into a fresh in-process channel and returns that
    /// channel's receive half: each arrival on `source` reappears there.
    /// Exactly one route is installed, with `source` itself as its source
    /// and the fresh channel's sender as its forwarding sender; every
    /// existing route is untouched.
    pub fn route_receiver_to_new_receiver(&mut self, source: Receiver) -> (r: Receiver)
        requires
            old(self).wf(),
        ensures
            final(self).wf(),
            final(self).sources() == old(self).sources().push(source.raw()),
            exists|t: FrameTx| final(self).callbacks() == old(self).callbacks().push(t),
    {
        let op = source.to_opaque();
        let (tx, rx2) = channel();
        let out = tx.to_opaque();
        proof {
            op.lemma_raw();
            out.lemma_raw();
        }
        self.add_route(op, out);
        rx2
    }

    /// One dispatch step: blocks until some route's source is ready.
    /// A ready message is forwarded on that route's sender and the routes
    /// are left exactly as they were; a closed source has its route — and
    /// only its route — removed, dropping the forwarding sender, so the
    /// callback it stands for is released exactly once.
    pub fn step(&mut self) -> (r: RouteStep)
        requires
            old(self).wf(),
            old(self).callbacks().len() > 0,
        ensures
            final(self).wf(),
            r == RouteStep::Forwarded ==> final(self).sources() == old(self).sources()
                && final(self).callbacks() == old(self).callbacks(),
            r == RouteStep::Removed ==> exists|i: int|
                {
                    &&& 0 <= i < old(self).callbacks().len()
                    &&& final(self).sources() == old(self).sources().remove(i)
                    &&& final(self).callbacks() == old(self).callbacks().remove(i)
                },
    {
        let (i, st) = recv_any(&self.rxs);
        match st {
            PollStatus::Got(f) => {
                let _ = tx_send(&self.outs[i], f);
                RouteStep::Forwarded
            },
            PollStatus::Closed => {
                self.rxs.remove(i);
                self.outs.remove(i);
                RouteStep::Removed
            },
            PollStatus::Empty => unreached(),
        }
    }
}

} // verus!
