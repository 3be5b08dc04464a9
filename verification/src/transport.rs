use vstd::prelude::*;
use crate::shmem::SharedMemory;

verus! {

/// One message as it sits in a channel: a byte payload together with the
/// endpoint and memory handles that were diverted out of it during encoding,
/// in the order their indices appear in the payload.
pub struct Frame {
    pub bytes: Vec<u8>,
    pub handles: Vec<RawHandle>,
}

/// A type-erased handle riding in a frame's side channel.
pub enum RawHandle {
    Tx(FrameTx),
    Rx(FrameRx),
    Mem(SharedMemory),
}

/// The send half of the underlying frame transport. Its abstract value
/// stands for the identity of the channel it feeds, so two senders for the
/// same channel are equal as abstract values.
#[verifier::external_body]
pub struct FrameTx {
    inner: crossbeam_channel::Sender<Frame>,
}

/// The receive half of the underlying frame transport.
#[verifier::external_body]
pub struct FrameRx {
    inner: crossbeam_channel::Receiver<Frame>,
}

/// What a nonblocking poll of a receive half found.
pub enum PollStatus {
    Got(Frame),
    Empty,
    Closed,
}

/// Relies on crossbeam_channel::unbounded: a fresh channel whose receive
/// half yields the sent frames in send order, and reports disconnection
/// once every send half is dropped.
#[verifier::external_body]
pub(crate) fn frame_channel() -> (FrameTx, FrameRx) {
    let (tx, rx) = crossbeam_channel::unbounded();
    (FrameTx { inner: tx }, FrameRx { inner: rx })
}

/// Relies on crossbeam_channel::Sender::send: on disconnection the error
/// carries the rejected frame back unchanged; otherwise the frame is queued.
#[verifier::external_body]
pub(crate) fn tx_send(tx: &FrameTx, f: Frame) -> (r: Result<(), Frame>)
    ensures
        r matches Err(g) ==> g == f,
{
    tx.inner.send(f).map_err(|e| e.0)
}

/// Relies on crossbeam_channel::Sender::clone: the clone feeds the same
/// channel, and the channel disconnects only when every clone is dropped.
/// A sender's abstract value is the channel it feeds, so the clone is equal
/// to the original.
#[verifier::external_body]
pub(crate) fn tx_clone(tx: &FrameTx) -> (r: FrameTx)
    ensures
        r == *tx,
{
    FrameTx { inner: tx.inner.clone() }
}

/// Relies on crossbeam_channel::Receiver::recv: blocks for the next frame;
/// returns nothing only when the channel is empty and every sender is gone.
#[verifier::external_body]
pub(crate) fn rx_recv(rx: &FrameRx) -> (r: Option<Frame>) {
    rx.inner.recv().ok()
}

/// Relies on crossbeam_channel::Receiver::try_recv: never blocks; tells a
/// ready frame, an empty channel, and a disconnected one apart.
#[verifier::external_body]
pub(crate) fn rx_try_recv(rx: &FrameRx) -> (r: PollStatus) {
    match rx.inner.try_recv() {
        Ok(f) => PollStatus::Got(f),
        Err(crossbeam_channel::TryRecvError::Empty) => PollStatus::Empty,
        Err(crossbeam_channel::TryRecvError::Disconnected) => PollStatus::Closed,
    }
}

/// Relies on crossbeam_channel::Select (new, recv, ready) and
/// Receiver::try_recv: blocks until some member is ready, then reports that
/// member's index with the frame or the disconnection it found. A ready
/// signal can be spurious, so an empty poll goes back to waiting.
#[verifier::external_body]
pub(crate) fn recv_any(rxs: &Vec<FrameRx>) -> (r: (usize, PollStatus))
    requires
        rxs@.len() > 0,
    ensures
        r.0 < rxs@.len(),
        !(r.1 matches PollStatus::Empty),
{
    loop {
        let mut sel = crossbeam_channel::Select::new();
        for rx in rxs.iter() {
            sel.recv(&rx.inner);
        }
        let i = sel.ready();
        match rxs[i].inner.try_recv() {
            Ok(f) => return (i, PollStatus::Got(f)),
            Err(crossbeam_channel::TryRecvError::Disconnected) => return (i, PollStatus::Closed),
            Err(crossbeam_channel::TryRecvError::Empty) => {}
        }
    }
}

} // verus!
