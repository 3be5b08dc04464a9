use vstd::prelude::*;
use crate::codec::{bytes_frame, decode_frame, encode_value, frame_dec, frame_payload};
use crate::transport::{
    frame_channel, rx_recv, rx_try_recv, tx_clone, tx_send, FrameRx, FrameTx, PollStatus,
    RawHandle,
};
use crate::value::{abs, Value};

verus! {

/// A sender stripped of nothing but its role: it still carries exactly the
/// transport handle of the typed sender it came from.
pub struct OpaqueSender {
    pub tx: FrameTx,
}

/// A receiver in transportable, role-erased form.
pub struct OpaqueReceiver {
    pub rx: FrameRx,
}

/// The send half of a value channel.
pub struct Sender {
    pub(crate) tx: FrameTx,
}

/// The receive half of a value channel. It may be moved or transmitted,
/// never cloned: the receive capability has one owner.
pub struct Receiver {
    pub(crate) rx: FrameRx,
}

/// The send half of a raw byte channel: payloads travel without any
/// encoding header.
pub struct BytesSender {
    pub(crate) tx: FrameTx,
}

/// The receive half of a raw byte channel.
pub struct BytesReceiver {
    pub(crate) rx: FrameRx,
}

/// Why a send failed.
#[derive(PartialEq, Eq, Structural, Debug)]
pub enum SendError {
    Disconnected,
}

/// Why a blocking receive failed.
#[derive(PartialEq, Eq, Structural, Debug)]
pub enum RecvError {
    Disconnected,
    Malformed,
}

/// Why a nonblocking receive returned no value. Empty is a status, not a
/// failure: nothing was ready at the moment of the call.
#[derive(PartialEq, Eq, Structural, Debug)]
pub enum TryRecvError {
    Empty,
    Disconnected,
    Malformed,
}

/// Creates a connected sender/receiver pair over a fresh transport channel.
pub fn channel() -> (Sender, Receiver) {
    let (tx, rx) = frame_channel();
    (Sender { tx }, Receiver { rx })
}

/// Creates a connected pair carrying raw byte payloads.
pub fn bytes_channel() -> (BytesSender, BytesReceiver) {
    let (tx, rx) = frame_channel();
    (BytesSender { tx }, BytesReceiver { rx })
}

impl Sender {
    pub closed spec fn raw(&self) -> FrameTx {
        self.tx
    }

    pub(crate) fn from_raw(tx: FrameTx) -> (r: Sender)
        ensures
            r.raw() == tx,
    {
        Sender { tx }
    }

    /// Encodes the value into one frame and hands it to the transport: the
    /// frame is delivered whole or not at all. Fails only when the paired
    /// receiver is gone.
    pub fn send(&self, v: Value) -> (r: Result<(), SendError>)
        ensures
            r matches Err(e) ==> e == SendError::Disconnected,
    {
        let f = encode_value(v);
        match tx_send(&self.tx, f) {
            Ok(_) => Ok(()),
            Err(_) => Err(SendError::Disconnected),
        }
    }

    /// A second send handle on the same channel; the receiver observes
    /// disconnection only when every handle is dropped.
    pub fn duplicate(&self) -> (r: Sender)
        ensures
            r.raw() == self.raw(),
    {
        Sender { tx: tx_clone(&self.tx) }
    }

    /// Erases the type, keeping the same transport handle.
    pub fn to_opaque(self) -> (r: OpaqueSender)
        ensures
            r.raw() == self.raw(),
    {
        OpaqueSender { tx: self.tx }
    }
}

impl Receiver {
    pub closed spec fn raw(&self) -> FrameRx {
        self.rx
    }

    /// Blocks until a frame arrives, then decodes it. Every value returned
    /// is the exact decoding of some received frame; a frame that does not
    /// decode is reported as malformed, and a closed channel with nothing
    /// pending as disconnected.
    pub fn recv(&self) -> (r: Result<Value, RecvError>)
        ensures
            r matches Ok(v) ==> exists|b: Seq<u8>, hs: Seq<RawHandle>|
                frame_dec(b, hs) == Some(abs(v)),
    {
        match rx_recv(&self.rx) {
            Some(f) => {
                let ghost gb = f.bytes@;
                let ghost gh = f.handles@;
                match decode_frame(f) {
                    Some(v) => {
                        proof {
                            assert(frame_dec(gb, gh) == Some(abs(v)));
                        }
                        Ok(v)
                    },
                    None => Err(RecvError::Malformed),
                }
            },
            None => Err(RecvError::Disconnected),
        }
    }

    /// Like `recv`, but never blocks: when no frame is ready it returns the
    /// empty status and leaves the channel as it was.
    pub fn try_recv(&self) -> (r: Result<Value, TryRecvError>)
        ensures
            r matches Ok(v) ==> exists|b: Seq<u8>, hs: Seq<RawHandle>|
                frame_dec(b, hs) == Some(abs(v)),
    {
        match rx_try_recv(&self.rx) {
            PollStatus::Got(f) => {
                let ghost gb = f.bytes@;
                let ghost gh = f.handles@;
                match decode_frame(f) {
                    Some(v) => {
                        proof {
                            assert(frame_dec(gb, gh) == Some(abs(v)));
                        }
                        Ok(v)
                    },
                    None => Err(TryRecvError::Malformed),
                }
            },
            PollStatus::Empty => Err(TryRecvError::Empty),
            PollStatus::Closed => Err(TryRecvError::Disconnected),
        }
    }

    pub fn to_opaque(self) -> (r: OpaqueReceiver)
        ensures
            r.raw() == self.raw(),
    {
        OpaqueReceiver { rx: self.rx }
    }
}

impl BytesSender {
    pub closed spec fn raw(&self) -> FrameTx {
        self.tx
    }

    /// Hands the transport one frame whose payload is exactly the caller's
    /// bytes, with no encoding header and no handles, as `bytes_frame`
    /// states. Fails only when the paired receiver is gone.
    pub fn send(&self, data: &[u8]) -> (r: Result<(), SendError>)
        ensures
            r matches Err(e) ==> e == SendError::Disconnected,
    {
        let f = bytes_frame(data);
        match tx_send(&self.tx, f) {
            Ok(_) => Ok(()),
            Err(_) => Err(SendError::Disconnected),
        }
    }

    pub fn duplicate(&self) -> (r: BytesSender)
        ensures
            r.raw() == self.raw(),
    {
        BytesSender { tx: tx_clone(&self.tx) }
    }

    pub fn to_opaque(self) -> (r: OpaqueSender)
        ensures
            r.raw() == self.raw(),
    {
        OpaqueSender { tx: self.tx }
    }
}

impl BytesReceiver {
    pub closed spec fn raw(&self) -> FrameRx {
        self.rx
    }

    /// Blocks for the next frame and returns exactly its raw payload, as
    /// `frame_payload` states: the bytes come back unchanged, a frame
    /// carrying handles is malformed, and a closed channel with nothing
    /// pending is disconnected.
    pub fn recv(&self) -> (r: Result<Vec<u8>, RecvError>)
        ensures
            r matches Err(e) ==> (e == RecvError::Disconnected || e == RecvError::Malformed),
    {
        match rx_recv(&self.rx) {
            Some(f) => frame_payload(f),
            None => Err(RecvError::Disconnected),
        }
    }

    pub fn to_opaque(self) -> (r: OpaqueReceiver)
        ensures
            r.raw() == self.raw(),
    {
        OpaqueReceiver { rx: self.rx }
    }
}

impl OpaqueSender {
    pub closed spec fn raw(&self) -> FrameTx {
        self.tx
    }

    pub(crate) proof fn lemma_raw(&self)
        ensures
            self.raw() == self.tx,
    {
    }

    /// Re-types the endpoint. The wire carries no type tag, so choosing the
    /// right payload shape is the caller's responsibility.
    pub fn to(self) -> (r: Sender)
        ensures
            r.raw() == self.raw(),
    {
        Sender { tx: self.tx }
    }

    pub fn to_bytes_sender(self) -> (r: BytesSender)
        ensures
            r.raw() == self.raw(),
    {
        BytesSender { tx: self.tx }
    }
}

impl OpaqueReceiver {
    pub closed spec fn raw(&self) -> FrameRx {
        self.rx
    }

    pub(crate) proof fn lemma_raw(&self)
        ensures
            self.raw() == self.rx,
    {
    }

    pub fn to(self) -> (r: Receiver)
        ensures
            r.raw() == self.raw(),
    {
        Receiver { rx: self.rx }
    }

    pub fn to_bytes_receiver(self) -> (r: BytesReceiver)
        ensures
            r.raw() == self.raw(),
    {
        BytesReceiver { rx: self.rx }
    }
}

} // verus!
