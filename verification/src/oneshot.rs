use vstd::prelude::*;
use vstd::pervasive::unreached;
use vstd::utf8::{
    encode_utf8, encode_utf8_decode_utf8, encode_utf8_valid_utf8, is_ascii_chars,
    is_ascii_chars_encode_utf8,
};
use crate::codec::{decode_frame, frame_dec};
use crate::ipc::{RecvError, Receiver, Sender};
use crate::transport::{frame_channel, rx_recv, FrameRx, FrameTx, RawHandle};
use crate::value::{abs, Value};

verus! {

/// The rendezvous table a host offers: names under which a one-shot
/// server is waiting for its single connection. The surrounding
/// application owns one registry per naming domain and passes it to
/// `OneShotServer::new` and `Sender::connect`.
pub struct NameRegistry {
    names: Vec<u64>,
    txs: Vec<FrameTx>,
    next: u64,
}

/// A host-resolvable server name.
#[derive(Clone, Copy, PartialEq, Eq, Structural, Debug)]
pub struct ServerName {
    pub id: u64,
}

/// Why a connection attempt failed.
#[derive(PartialEq, Eq, Structural, Debug)]
pub enum ConnectError {
    NotFound,
}

/// The decimal digit character for `d`.
pub open spec fn digit_char(d: nat) -> char {
    ((d + 0x30) as u8) as char
}

/// The decimal digits of `n`, most significant first.
pub open spec fn decimal_digits(n: nat) -> Seq<char>
    decreases n,
{
    if n < 10 {
        seq![digit_char(n)]
    } else {
        decimal_digits(n / 10) + seq![digit_char((n % 10) as nat)]
    }
}

proof fn lemma_decimal_ascii(n: nat)
    ensures
        is_ascii_chars(decimal_digits(n)),
        decimal_digits(n).len() >= 1,
    decreases n,
{
    if n < 10 {
        assert(decimal_digits(n) == seq![digit_char(n)]);
    } else {
        lemma_decimal_ascii(n / 10);
        let prefix = decimal_digits((n / 10) as nat);
        let whole = decimal_digits(n);
        assert forall|i: int| 0 <= i < whole.len() implies '\0' <= #[trigger] whole[i]
            <= '\u{7f}' by {
            if i < prefix.len() {
                assert(whole[i] == prefix[i]);
            } else {
                assert(whole[i] == digit_char((n % 10) as nat));
            }
        }
    }
}

impl ServerName {
    /// The name as text: the decimal rendering of its number, the form in
    /// which a peer would be handed it.
    pub fn text(&self) -> (r: String)
        ensures
            r@ == decimal_digits(self.id as nat),
    {
        let ghost n0 = self.id as nat;
        let ghost cs = decimal_digits(n0);
        let mut bytes: Vec<u8> = Vec::new();
        let mut n: u64 = self.id;
        while n >= 10
            invariant
                decimal_digits(n0) == decimal_digits(n as nat) + Seq::new(
                    bytes@.len(),
                    |i: int| bytes@[i] as char,
                ),
                forall|i: int| 0 <= i < bytes@.len() ==> 0x30 <= #[trigger] bytes@[i] <= 0x39,
            decreases n,
        {
            let ghost m = n as nat;
            let ghost done = Seq::new(bytes@.len(), |i: int| bytes@[i] as char);
            let d = (n % 10) as u8 + 0x30;
            bytes.insert(0, d);
            n = n / 10;
            proof {
                assert(decimal_digits(m) == decimal_digits(m / 10) + seq![
                    digit_char((m % 10) as nat),
                ]);
                let done2 = Seq::new(bytes@.len(), |i: int| bytes@[i] as char);
                assert(done2 =~= seq![digit_char((m % 10) as nat)] + done);
                assert(decimal_digits(m / 10) + done2 =~= (decimal_digits(m / 10) + seq![
                    digit_char((m % 10) as nat),
                ]) + done);
            }
        }
        let ghost done = Seq::new(bytes@.len(), |i: int| bytes@[i] as char);
        let d = n as u8 + 0x30;
        bytes.insert(0, d);
        proof {
            let done2 = Seq::new(bytes@.len(), |i: int| bytes@[i] as char);
            assert(decimal_digits(n as nat) == seq![digit_char(n as nat)]);
            assert(done2 =~= seq![digit_char(n as nat)] + done);
            assert(done2 =~= cs);
            lemma_decimal_ascii(n0);
            is_ascii_chars_encode_utf8(cs);
            assert(bytes@ =~= encode_utf8(cs)) by {
                assert(forall|i: int|
                    0 <= i < cs.len() ==> #[trigger] encode_utf8(cs)[i] == cs[i] as u8);
                assert(forall|i: int| 0 <= i < cs.len() ==> cs[i] == bytes@[i] as char);
            }
            encode_utf8_valid_utf8(cs);
        }
        match crate::codec::bytes_to_string(bytes) {
            Some(s) => {
                proof {
                    encode_utf8_decode_utf8(s@);
                    encode_utf8_decode_utf8(cs);
                }
                s
            },
            None => unreached(),
        }
    }
}

impl NameRegistry {
    pub closed spec fn names_view(&self) -> Seq<u64> {
        self.names@
    }

    pub closed spec fn next(&self) -> u64 {
        self.next
    }

    pub open spec fn has_name(&self, id: u64) -> bool {
        self.names_view().contains(id)
    }

    /// Well-formed: one pending connection slot per name, names unique and
    /// below the counter.
    pub closed spec fn wf(&self) -> bool {
        &&& self.names@.len() == self.txs@.len()
        &&& forall|i: int| 0 <= i < self.names@.len() ==> #[trigger] self.names@[i] < self.next
        &&& forall|i: int, j: int|
            0 <= i < j < self.names@.len() ==> self.names@[i] != self.names@[j]
    }

    pub fn new() -> (r: NameRegistry)
        ensures
            r.wf(),
            r.names_view() == Seq::<u64>::empty(),
            r.next() == 0,
    {
        NameRegistry { names: Vec::new(), txs: Vec::new(), next: 0 }
    }
}

/// A named rendezvous that accepts exactly one connection: `new` registers
/// a fresh name, one `connect` against that name claims the slot, and
/// `accept` consumes the server, yielding the connection's receiver and
/// its first message.
pub struct OneShotServer {
    rx: FrameRx,
}

impl OneShotServer {
    /// Registers a fresh name and returns the waiting server with it. The
    /// name was never handed out before by this registry.
    pub fn new(reg: &mut NameRegistry) -> (r: (OneShotServer, ServerName))
        requires
            old(reg).wf(),
            old(reg).next() < u64::MAX,
        ensures
            final(reg).wf(),
            final(reg).names_view() == old(reg).names_view().push(r.1.id),
            !old(reg).has_name(r.1.id),
            final(reg).has_name(r.1.id),
            r.1.id == old(reg).next(),
            final(reg).next() == old(reg).next() + 1,
    {
        let id = reg.next;
        let (tx, rx) = frame_channel();
        reg.names.push(id);
        reg.txs.push(tx);
        reg.next = id + 1;
        proof {
            if old(reg).names@.contains(id) {
                let j = choose|j: int|
                    0 <= j < old(reg).names@.len() && old(reg).names@[j] == id;
                assert(old(reg).names@[j] < id);
            }
            assert(reg.names@ == old(reg).names@.push(id));
            assert(reg.names@[old(reg).names@.len() as int] == id);
        }
        (OneShotServer { rx }, ServerName { id })
    }

    /// Blocks for the single connection's first frame and decodes it,
    /// consuming the server: afterwards the connection is an ordinary
    /// receiver.
    pub fn accept(self) -> (r: Result<(Receiver, Value), RecvError>)
        ensures
            r matches Ok(p) ==> exists|b: Seq<u8>, hs: Seq<RawHandle>|
                frame_dec(b, hs) == Some(abs(p.1)),
    {
        match rx_recv(&self.rx) {
            Some(f) => {
                let ghost gb = f.bytes@;
                let ghost gh = f.handles@;
                match decode_frame(f) {
                    Some(v) => {
                        proof {
                            assert(frame_dec(gb, gh) == Some(abs(v)));
                        }
                        Ok((crate::ipc::OpaqueReceiver { rx: self.rx }.to(), v))
                    },
                    None => Err(RecvError::Malformed),
                }
            },
            None => Err(RecvError::Disconnected),
        }
    }
}

impl Sender {
    /// Claims the one connection slot registered under `name`: succeeds
    /// exactly when the name is registered and unclaimed, and claiming it
    /// removes the name, so a second connect to the same name fails.
    pub fn connect(reg: &mut NameRegistry, name: ServerName) -> (r: Result<Sender, ConnectError>)
        requires
            old(reg).wf(),
        ensures
            final(reg).wf(),
            r is Ok <==> old(reg).has_name(name.id),
            r is Ok ==> !final(reg).has_name(name.id) && exists|i: int|
                {
                    &&& 0 <= i < old(reg).names_view().len()
                    &&& old(reg).names_view()[i] == name.id
                    &&& final(reg).names_view() == old(reg).names_view().remove(i)
                },
            r is Err ==> *final(reg) == *old(reg),
            final(reg).next() == old(reg).next(),
    {
        let n = reg.names.len();
        let mut i: usize = 0;
        while i < n
            invariant
                i <= n,
                n == reg.names@.len(),
                *reg == *old(reg),
                old(reg).wf(),
                forall|j: int| 0 <= j < i ==> #[trigger] reg.names@[j] != name.id,
            decreases n - i,
        {
            if reg.names[i] == name.id {
                reg.names.remove(i);
                let tx = reg.txs.remove(i);
                proof {
                    assert forall|a: int, b: int|
                        0 <= a < b < reg.names@.len() implies reg.names@[a] != reg.names@[b] by {
                        assert(reg.names@[a] == if a < i {
                            old(reg).names@[a]
                        } else {
                            old(reg).names@[a + 1]
                        });
                        assert(reg.names@[b] == if b < i {
                            old(reg).names@[b]
                        } else {
                            old(reg).names@[b + 1]
                        });
                    }
                    assert forall|a: int|
                        0 <= a < reg.names@.len() implies #[trigger] reg.names@[a]
                        < reg.next by {
                        assert(reg.names@[a] == if a < i {
                            old(reg).names@[a]
                        } else {
                            old(reg).names@[a + 1]
                        });
                    }
                    assert(old(reg).names@[i as int] == name.id);
                    if reg.names@.contains(name.id) {
                        let j = choose|j: int|
                            0 <= j < reg.names@.len() && reg.names@[j] == name.id;
                        assert(reg.names@[j] == if j < i {
                            old(reg).names@[j]
                        } else {
                            old(reg).names@[j + 1]
                        });
                    }
                }
                return Ok(Sender::from_raw(tx));
            }
            i = i + 1;
        }
        proof {
            if old(reg).names@.contains(name.id) {
                let j = choose|j: int|
                    0 <= j < old(reg).names@.len() && old(reg).names@[j] == name.id;
                assert(reg.names@[j] != name.id);
            }
        }
        Err(ConnectError::NotFound)
    }
}

} // verus!
