use vstd::prelude::*;
use vstd::bytes::{
    lemma_auto_spec_u64_to_from_le_bytes, spec_u64_from_le_bytes, spec_u64_to_le_bytes,
    u64_from_le_bytes, u64_to_le_bytes,
};
use vstd::slice::{slice_subrange, slice_to_vec};
use vstd::string::StrSliceExecFns;
use vstd::utf8::{decode_utf8, encode_utf8, encode_utf8_decode_utf8, encode_utf8_valid_utf8, valid_utf8};
use crate::ipc::{OpaqueReceiver, OpaqueSender};
use crate::transport::{Frame, RawHandle};
use crate::value::{abs, abs_seq, lemma_abs_seq, lemma_size_elem, size_of, size_seq, AbsValue, Value};

verus! {

// Wire tags, one per value shape.
pub const TAG_UNIT: u8 = 0;
pub const TAG_U64: u8 = 1;
pub const TAG_STR: u8 = 2;
pub const TAG_BYTES: u8 = 3;
pub const TAG_LIST: u8 = 4;
pub const TAG_SENDER: u8 = 5;
pub const TAG_RECEIVER: u8 = 6;
pub const TAG_MEMORY: u8 = 7;

/// The canonical encoding of a value: the byte payload and, in index
/// order, the handles diverted into the side channel. `nh` is the number
/// of handles already diverted before this value, so each endpoint or
/// memory leaf is written as the index it will occupy in the full handle
/// vector.
pub open spec fn enc(a: AbsValue, nh: int) -> (Seq<u8>, Seq<RawHandle>)
    decreases a,
{
    match a {
        AbsValue::Unit => (seq![TAG_UNIT], Seq::empty()),
        AbsValue::U64(x) => (seq![TAG_U64] + spec_u64_to_le_bytes(x), Seq::empty()),
        AbsValue::Str(cs) => (
            seq![TAG_STR] + spec_u64_to_le_bytes(encode_utf8(cs).len() as u64) + encode_utf8(cs),
            Seq::empty(),
        ),
        AbsValue::Bytes(bs) => (
            seq![TAG_BYTES] + spec_u64_to_le_bytes(bs.len() as u64) + bs,
            Seq::empty(),
        ),
        AbsValue::List(cs) => (
            seq![TAG_LIST] + spec_u64_to_le_bytes(cs.len() as u64) + enc_seq(cs, nh).0,
            enc_seq(cs, nh).1,
        ),
        AbsValue::Sender(t) => (
            seq![TAG_SENDER] + spec_u64_to_le_bytes(nh as u64),
            seq![RawHandle::Tx(t)],
        ),
        AbsValue::Receiver(r) => (
            seq![TAG_RECEIVER] + spec_u64_to_le_bytes(nh as u64),
            seq![RawHandle::Rx(r)],
        ),
        AbsValue::Memory(m) => (
            seq![TAG_MEMORY] + spec_u64_to_le_bytes(nh as u64),
            seq![RawHandle::Mem(m)],
        ),
    }
}

pub open spec fn enc_seq(s: Seq<AbsValue>, nh: int) -> (Seq<u8>, Seq<RawHandle>)
    decreases s,
{
    if s.len() == 0 {
        (Seq::empty(), Seq::empty())
    } else {
        let head = enc(s[0], nh);
        let rest = enc_seq(s.drop_first(), nh + head.1.len());
        (head.0 + rest.0, head.1 + rest.1)
    }
}

/// Sizes small enough that every embedded length fits the wire's u64
/// fields. Every value built from in-memory vectors and strings satisfies
/// this.
pub open spec fn wf_abs(a: AbsValue) -> bool
    decreases a,
{
    match a {
        AbsValue::Str(cs) => encode_utf8(cs).len() <= u64::MAX,
        AbsValue::Bytes(bs) => bs.len() <= u64::MAX,
        AbsValue::List(cs) => cs.len() <= u64::MAX && wf_seq(cs),
        _ => true,
    }
}

pub open spec fn wf_seq(s: Seq<AbsValue>) -> bool
    decreases s,
{
    forall|i: int| 0 <= i < s.len() ==> wf_abs(#[trigger] s[i])
}

/// The wire decoder: reads one value at `pos`, consuming handles from the
/// front of `hs`; `nused` is the index the next handle must carry. Returns
/// the value, the position after it, the handles left, and the new handle
/// index — or nothing when the frame is malformed.
pub open spec fn dec(bytes: Seq<u8>, pos: int, hs: Seq<RawHandle>, nused: int) -> Option<
    (AbsValue, int, Seq<RawHandle>, int),
>
    decreases bytes.len() - pos, 0nat,
{
    if !(0 <= pos < bytes.len()) {
        None
    } else {
        let tag = bytes[pos];
        if tag == TAG_UNIT {
            Some((AbsValue::Unit, pos + 1, hs, nused))
        } else if tag == TAG_U64 {
            if pos + 9 <= bytes.len() {
                Some(
                    (
                        AbsValue::U64(spec_u64_from_le_bytes(bytes.subrange(pos + 1, pos + 9))),
                        pos + 9,
                        hs,
                        nused,
                    ),
                )
            } else {
                None
            }
        } else if (tag == TAG_STR || tag == TAG_BYTES) {
            if pos + 9 <= bytes.len() {
                let n = spec_u64_from_le_bytes(bytes.subrange(pos + 1, pos + 9)) as int;
                if pos + 9 + n <= bytes.len() {
                    let content = bytes.subrange(pos + 9, pos + 9 + n);
                    if tag == TAG_BYTES {
                        Some((AbsValue::Bytes(content), pos + 9 + n, hs, nused))
                    } else if valid_utf8(content) {
                        Some((AbsValue::Str(decode_utf8(content)), pos + 9 + n, hs, nused))
                    } else {
                        None
                    }
                } else {
                    None
                }
            } else {
                None
            }
        } else if tag == TAG_LIST {
            if pos + 9 <= bytes.len() {
                let n = spec_u64_from_le_bytes(bytes.subrange(pos + 1, pos + 9));
                match dec_list(bytes, pos + 9, hs, nused, n as nat) {
                    Some((cs, p2, hs2, nu2)) => Some((AbsValue::List(cs), p2, hs2, nu2)),
                    None => None,
                }
            } else {
                None
            }
        } else if (tag == TAG_SENDER || tag == TAG_RECEIVER || tag == TAG_MEMORY) {
            if pos + 9 <= bytes.len() {
                let idx = spec_u64_from_le_bytes(bytes.subrange(pos + 1, pos + 9)) as int;
                if idx == nused && hs.len() > 0 {
                    match (tag, hs[0]) {
                        (TAG_SENDER, RawHandle::Tx(t)) => Some(
                            (AbsValue::Sender(t), pos + 9, hs.drop_first(), nused + 1),
                        ),
                        (TAG_RECEIVER, RawHandle::Rx(r)) => Some(
                            (AbsValue::Receiver(r), pos + 9, hs.drop_first(), nused + 1),
                        ),
                        (TAG_MEMORY, RawHandle::Mem(m)) => Some(
                            (AbsValue::Memory(m), pos + 9, hs.drop_first(), nused + 1),
                        ),
                        _ => None,
                    }
                } else {
                    None
                }
            } else {
                None
            }
        } else {
            None
        }
    }
}

pub open spec fn dec_list(bytes: Seq<u8>, pos: int, hs: Seq<RawHandle>, nused: int, n: nat) -> Option<
    (Seq<AbsValue>, int, Seq<RawHandle>, int),
>
    decreases bytes.len() - pos, n,
{
    if n == 0 {
        Some((Seq::empty(), pos, hs, nused))
    } else {
        match dec(bytes, pos, hs, nused) {
            Some((a, p2, hs2, nu2)) => {
                if pos < p2 <= bytes.len() {
                    match dec_list(bytes, p2, hs2, nu2, (n - 1) as nat) {
                        Some((rest, p3, hs3, nu3)) => Some((seq![a] + rest, p3, hs3, nu3)),
                        None => None,
                    }
                } else {
                    None
                }
            },
            None => None,
        }
    }
}

/// Decoding a whole frame: one value that consumes every payload byte and
/// every handle, else the frame is malformed.
pub open spec fn frame_dec(bytes: Seq<u8>, hs: Seq<RawHandle>) -> Option<AbsValue> {
    match dec(bytes, 0, hs, 0) {
        Some((a, p, rest, _)) => {
            if p == bytes.len() && rest.len() == 0 {
                Some(a)
            } else {
                None
            }
        },
        None => None,
    }
}

/// The embedded handles of a value, in traversal order.
pub open spec fn handle_leaves(a: AbsValue) -> Seq<RawHandle>
    decreases a,
{
    match a {
        AbsValue::List(cs) => handle_leaves_seq(cs),
        AbsValue::Sender(t) => seq![RawHandle::Tx(t)],
        AbsValue::Receiver(r) => seq![RawHandle::Rx(r)],
        AbsValue::Memory(m) => seq![RawHandle::Mem(m)],
        _ => Seq::empty(),
    }
}

pub open spec fn handle_leaves_seq(s: Seq<AbsValue>) -> Seq<RawHandle>
    decreases s,
{
    if s.len() == 0 {
        Seq::empty()
    } else {
        handle_leaves(s[0]) + handle_leaves_seq(s.drop_first())
    }
}

/// Encoding never duplicates and never drops handle ownership: the side
/// channel holds exactly the embedded handles of the value, in traversal
/// order, each exactly once — wherever in the handle vector the encoding
/// starts.
pub proof fn lemma_handles_exact(a: AbsValue, nh: int)
    ensures
        enc(a, nh).1 == handle_leaves(a),
    decreases a,
{
    match a {
        AbsValue::List(cs) => {
            lemma_handles_exact_seq(cs, nh);
        },
        _ => {},
    }
}

pub proof fn lemma_handles_exact_seq(s: Seq<AbsValue>, nh: int)
    ensures
        enc_seq(s, nh).1 == handle_leaves_seq(s),
    decreases s,
{
    if s.len() == 0 {
    } else {
        lemma_handles_exact(s[0], nh);
        lemma_handles_exact_seq(s.drop_first(), nh + enc(s[0], nh).1.len());
    }
}

/// Splitting an encoded run of values at any point: the left part's bytes
/// and handles come first, and the right part continues at the handle
/// index the left part reached.
pub proof fn lemma_enc_seq_concat(s1: Seq<AbsValue>, s2: Seq<AbsValue>, nh: int)
    ensures
        enc_seq(s1 + s2, nh).0 == enc_seq(s1, nh).0 + enc_seq(s2, nh + enc_seq(s1, nh).1.len()).0,
        enc_seq(s1 + s2, nh).1 == enc_seq(s1, nh).1 + enc_seq(s2, nh + enc_seq(s1, nh).1.len()).1,
    decreases s1.len(),
{
    if s1.len() == 0 {
        assert(s1 + s2 =~= s2);
        assert(enc_seq(s1, nh).0 + enc_seq(s2, nh).0 =~= enc_seq(s2, nh).0);
        assert(enc_seq(s1, nh).1 + enc_seq(s2, nh).1 =~= enc_seq(s2, nh).1);
    } else {
        let head = enc(s1[0], nh);
        assert((s1 + s2)[0] == s1[0]);
        assert((s1 + s2).drop_first() =~= s1.drop_first() + s2);
        lemma_enc_seq_concat(s1.drop_first(), s2, nh + head.1.len());
        let nh2 = nh + head.1.len() + enc_seq(s1.drop_first(), nh + head.1.len()).1.len();
        assert(nh2 == nh + enc_seq(s1, nh).1.len());
        assert(enc_seq(s1 + s2, nh).0 =~= enc_seq(s1, nh).0 + enc_seq(s2, nh2).0);
        assert(enc_seq(s1 + s2, nh).1 =~= enc_seq(s1, nh).1 + enc_seq(s2, nh2).1);
    }
}

pub proof fn lemma_enc_seq_snoc(s: Seq<AbsValue>, a: AbsValue, nh: int)
    ensures
        enc_seq(s + seq![a], nh).0 == enc_seq(s, nh).0 + enc(a, nh + enc_seq(s, nh).1.len()).0,
        enc_seq(s + seq![a], nh).1 == enc_seq(s, nh).1 + enc(a, nh + enc_seq(s, nh).1.len()).1,
{
    let nh2 = nh + enc_seq(s, nh).1.len();
    lemma_enc_seq_concat(s, seq![a], nh);
    assert(seq![a].len() == 1 && seq![a][0] == a);
    let tail = seq![a].drop_first();
    assert(tail.len() == 0);
    let nh3 = nh2 + enc(a, nh2).1.len();
    assert(enc_seq(tail, nh3).0 =~= Seq::<u8>::empty());
    assert(enc_seq(tail, nh3).1 =~= Seq::<RawHandle>::empty());
    assert(enc_seq(seq![a], nh2).0 =~= enc(a, nh2).0 + enc_seq(tail, nh3).0);
    assert(enc_seq(seq![a], nh2).1 =~= enc(a, nh2).1 + enc_seq(tail, nh3).1);
    assert(enc_seq(seq![a], nh2).0 =~= enc(a, nh2).0);
    assert(enc_seq(seq![a], nh2).1 =~= enc(a, nh2).1);
}

/// Appends the encoding of `v` to `bytes` and its diverted handles to
/// `handles`, consuming the value; endpoint and memory leaves move into the
/// handle vector.
#[verifier::loop_isolation(false)]
pub(crate) fn encode_into(v: Value, bytes: &mut Vec<u8>, handles: &mut Vec<RawHandle>)
    ensures
        final(bytes)@ == old(bytes)@ + enc(abs(v), old(handles)@.len() as int).0,
        final(handles)@ == old(handles)@ + enc(abs(v), old(handles)@.len() as int).1,
        wf_abs(abs(v)),
    decreases size_of(v),
{
    let ghost gv = v;
    let ghost bytes0 = bytes@;
    let ghost handles0 = handles@;
    let ghost nh0 = handles@.len() as int;
    match v {
        Value::Unit => {
            bytes.push(TAG_UNIT);
            proof {
                assert(bytes@ =~= bytes0 + enc(abs(gv), nh0).0);
                assert(handles@ =~= handles0 + enc(abs(gv), nh0).1);
            }
        },
        Value::U64(x) => {
            bytes.push(TAG_U64);
            let mut lb = u64_to_le_bytes(x);
            bytes.append(&mut lb);
            proof {
                assert(bytes@ =~= bytes0 + enc(abs(gv), nh0).0);
                assert(handles@ =~= handles0 + enc(abs(gv), nh0).1);
            }
        },
        Value::Str(s) => {
            let content = s.as_str().as_bytes_vec();
            bytes.push(TAG_STR);
            let mut lb = u64_to_le_bytes(content.len() as u64);
            bytes.append(&mut lb);
            let ghost cseq = content@;
            let mut content = content;
            bytes.append(&mut content);
            proof {
                assert(cseq == encode_utf8(s@));
                assert(bytes@ =~= bytes0 + enc(abs(gv), nh0).0);
                assert(handles@ =~= handles0 + enc(abs(gv), nh0).1);
            }
        },
        Value::Bytes(bs) => {
            bytes.push(TAG_BYTES);
            let mut lb = u64_to_le_bytes(bs.len() as u64);
            bytes.append(&mut lb);
            let ghost cseq = bs@;
            let mut content = bs;
            bytes.append(&mut content);
            proof {
                assert(bytes@ =~= bytes0 + enc(abs(gv), nh0).0);
                assert(handles@ =~= handles0 + enc(abs(gv), nh0).1);
            }
        },
        Value::Sender(s) => {
            let idx = handles.len() as u64;
            bytes.push(TAG_SENDER);
            let mut lb = u64_to_le_bytes(idx);
            bytes.append(&mut lb);
            let OpaqueSender { tx } = s;
            handles.push(RawHandle::Tx(tx));
            proof {
                assert(bytes@ =~= bytes0 + enc(abs(gv), nh0).0);
                assert(handles@ =~= handles0 + enc(abs(gv), nh0).1);
            }
        },
        Value::Receiver(r) => {
            let idx = handles.len() as u64;
            bytes.push(TAG_RECEIVER);
            let mut lb = u64_to_le_bytes(idx);
            bytes.append(&mut lb);
            let OpaqueReceiver { rx } = r;
            handles.push(RawHandle::Rx(rx));
            proof {
                assert(bytes@ =~= bytes0 + enc(abs(gv), nh0).0);
                assert(handles@ =~= handles0 + enc(abs(gv), nh0).1);
            }
        },
        Value::Memory(m) => {
            let idx = handles.len() as u64;
            bytes.push(TAG_MEMORY);
            let mut lb = u64_to_le_bytes(idx);
            bytes.append(&mut lb);
            handles.push(RawHandle::Mem(m));
            proof {
                assert(bytes@ =~= bytes0 + enc(abs(gv), nh0).0);
                assert(handles@ =~= handles0 + enc(abs(gv), nh0).1);
            }
        },
        Value::List(cs) => {
            let ghost orig = cs@;
            let ghost aor = abs_seq(orig);
            proof {
                lemma_abs_seq(orig);
                assert(abs(gv) == AbsValue::List(aor));
                assert(size_of(gv) == 1 + size_seq(orig));
            }
            bytes.push(TAG_LIST);
            let mut lb = u64_to_le_bytes(cs.len() as u64);
            bytes.append(&mut lb);
            let ghost hdr = bytes@;
            let mut rest = cs;
            proof {
                assert(enc_seq(aor.take(0), nh0).0 =~= Seq::<u8>::empty());
                assert(enc_seq(aor.take(0), nh0).1 =~= Seq::<RawHandle>::empty());
                assert(bytes@ =~= hdr + enc_seq(aor.take(0), nh0).0);
                assert(handles@ =~= handles0 + enc_seq(aor.take(0), nh0).1);
                assert(rest@ =~= orig.skip(0));
            }
            while rest.len() > 0
                invariant
                    aor == abs_seq(orig),
                    aor.len() == orig.len(),
                    forall|i: int| 0 <= i < orig.len() ==> aor[i] == abs(orig[i]),
                    rest@.len() <= orig.len(),
                    rest@ == orig.skip(orig.len() - rest@.len()),
                    bytes@ == hdr + enc_seq(aor.take(orig.len() - rest@.len()), nh0).0,
                    handles@ == handles0 + enc_seq(aor.take(orig.len() - rest@.len()), nh0).1,
                    wf_seq(aor.take(orig.len() - rest@.len())),
                decreases rest@.len(),
            {
                let ghost k = orig.len() - rest@.len();
                let c = rest.remove(0);
                proof {
                    assert(c == orig.skip(k)[0]);
                    assert(orig.skip(k)[0] == orig[k]);
                    assert(rest@ =~= orig.skip(k + 1));
                    lemma_size_elem(orig, k);
                    assert(size_of(c) <= size_seq(orig));
                    assert(handles@.len() as int == handles0.len() + enc_seq(aor.take(k), nh0).1.len());
                }
                let ghost nh_here = handles@.len() as int;
                encode_into(c, bytes, handles);
                proof {
                    lemma_enc_seq_snoc(aor.take(k), abs(c), nh0);
                    assert(aor.take(k) + seq![abs(c)] =~= aor.take(k + 1));
                    assert(bytes@ =~= hdr + enc_seq(aor.take(k + 1), nh0).0);
                    assert(handles@ =~= handles0 + enc_seq(aor.take(k + 1), nh0).1);
                    assert forall|i: int| 0 <= i < k + 1 implies wf_abs(#[trigger] aor.take(k + 1)[i]) by {
                        if i < k {
                            assert(aor.take(k + 1)[i] == aor.take(k)[i]);
                            assert(wf_abs(aor.take(k)[i]));
                        } else {
                            assert(aor.take(k + 1)[i] == abs(c));
                        }
                    }
                    assert(wf_seq(aor.take(k + 1)));
                }
            }
            proof {
                assert(aor.take(orig.len() - rest@.len()) =~= aor);
                assert(bytes@ =~= bytes0 + enc(abs(gv), nh0).0);
                assert(handles@ =~= handles0 + enc(abs(gv), nh0).1);
                assert(wf_abs(abs(gv)));
            }
        },
    }
}

/// Encodes one value into a frame: the byte payload plus the handle side
/// channel, exactly as `enc` describes, starting at handle index zero.
pub fn encode_value(v: Value) -> (f: Frame)
    ensures
        f.bytes@ == enc(abs(v), 0).0,
        f.handles@ == enc(abs(v), 0).1,
        wf_abs(abs(v)),
        enc(abs(v), 0).1.len() <= u64::MAX,
{
    let mut bytes: Vec<u8> = Vec::new();
    let mut handles: Vec<RawHandle> = Vec::new();
    encode_into(v, &mut bytes, &mut handles);
    // the vector's exec length bounds its abstract one, so every handle
    // index fits the wire's u64 field
    let _handle_count = handles.len();
    proof {
        assert(bytes@ =~= enc(abs(v), 0).0);
        assert(handles@ =~= enc(abs(v), 0).1);
    }
    Frame { bytes, handles }
}

pub proof fn lemma_enc_len_pos(a: AbsValue, nh: int)
    ensures
        enc(a, nh).0.len() >= 1,
{
    match a {
        AbsValue::Unit => {},
        AbsValue::U64(_) => {},
        AbsValue::Str(_) => {},
        AbsValue::Bytes(_) => {},
        AbsValue::List(_) => {},
        AbsValue::Sender(_) => {},
        AbsValue::Receiver(_) => {},
        AbsValue::Memory(_) => {},
    }
}

/// Decoding reads back exactly what encoding wrote: wherever an encoded
/// value sits inside a larger payload, and whatever handles follow its own
/// in the handle vector, the decoder returns that value and stops exactly
/// at its end.
pub proof fn lemma_dec_enc(a: AbsValue, bytes: Seq<u8>, pos: int, hs: Seq<RawHandle>, nused: int)
    requires
        wf_abs(a),
        0 <= pos,
        0 <= nused,
        nused + enc(a, nused).1.len() <= u64::MAX,
        pos + enc(a, nused).0.len() <= bytes.len(),
        bytes.subrange(pos, pos + enc(a, nused).0.len() as int) == enc(a, nused).0,
        enc(a, nused).1.len() <= hs.len(),
        hs.take(enc(a, nused).1.len() as int) == enc(a, nused).1,
    ensures
        dec(bytes, pos, hs, nused) == Some(
            (
                a,
                pos + enc(a, nused).0.len(),
                hs.skip(enc(a, nused).1.len() as int),
                nused + enc(a, nused).1.len(),
            ),
        ),
    decreases a,
{
    lemma_auto_spec_u64_to_from_le_bytes();
    let eb = enc(a, nused).0;
    let eh = enc(a, nused).1;
    assert(forall|j: int| 0 <= j < eb.len() ==> #[trigger] eb[j] == bytes[pos + j]) by {
        assert(forall|j: int|
            0 <= j < eb.len() ==> #[trigger] bytes.subrange(pos, pos + eb.len() as int)[j]
                == bytes[pos + j]);
    }
    assert(bytes[pos] == eb[0]);
    match a {
        AbsValue::Unit => {
            assert(hs.skip(0) =~= hs);
        },
        AbsValue::U64(x) => {
            assert(bytes.subrange(pos + 1, pos + 9) =~= spec_u64_to_le_bytes(x)) by {
                assert(forall|k: int|
                    0 <= k < 8 ==> #[trigger] bytes.subrange(pos + 1, pos + 9)[k] == bytes[pos + 1
                        + k]);
                assert(forall|k: int|
                    0 <= k < 8 ==> #[trigger] spec_u64_to_le_bytes(x)[k] == eb[1 + k]);
            }
            assert(hs.skip(0) =~= hs);
        },
        AbsValue::Str(cs) => {
            let content = encode_utf8(cs);
            let l = content.len() as int;
            assert(eb =~= seq![TAG_STR] + spec_u64_to_le_bytes(l as u64) + content);
            assert(bytes.subrange(pos + 1, pos + 9) =~= spec_u64_to_le_bytes(l as u64)) by {
                assert(forall|k: int|
                    0 <= k < 8 ==> #[trigger] bytes.subrange(pos + 1, pos + 9)[k] == bytes[pos + 1
                        + k]);
                assert(forall|k: int|
                    0 <= k < 8 ==> #[trigger] spec_u64_to_le_bytes(l as u64)[k] == eb[1 + k]);
            }
            assert(spec_u64_from_le_bytes(bytes.subrange(pos + 1, pos + 9)) == l as u64);
            assert(bytes.subrange(pos + 9, pos + 9 + l) =~= content) by {
                assert(forall|k: int|
                    0 <= k < l ==> #[trigger] bytes.subrange(pos + 9, pos + 9 + l)[k] == bytes[pos
                        + 9 + k]);
                assert(forall|k: int| 0 <= k < l ==> #[trigger] content[k] == eb[9 + k]);
            }
            encode_utf8_valid_utf8(cs);
            encode_utf8_decode_utf8(cs);
            assert(hs.skip(0) =~= hs);
        },
        AbsValue::Bytes(bs) => {
            let l = bs.len() as int;
            assert(eb =~= seq![TAG_BYTES] + spec_u64_to_le_bytes(l as u64) + bs);
            assert(bytes.subrange(pos + 1, pos + 9) =~= spec_u64_to_le_bytes(l as u64)) by {
                assert(forall|k: int|
                    0 <= k < 8 ==> #[trigger] bytes.subrange(pos + 1, pos + 9)[k] == bytes[pos + 1
                        + k]);
                assert(forall|k: int|
                    0 <= k < 8 ==> #[trigger] spec_u64_to_le_bytes(l as u64)[k] == eb[1 + k]);
            }
            assert(spec_u64_from_le_bytes(bytes.subrange(pos + 1, pos + 9)) == l as u64);
            assert(bytes.subrange(pos + 9, pos + 9 + l) =~= bs) by {
                assert(forall|k: int|
                    0 <= k < l ==> #[trigger] bytes.subrange(pos + 9, pos + 9 + l)[k] == bytes[pos
                        + 9 + k]);
                assert(forall|k: int| 0 <= k < l ==> #[trigger] bs[k] == eb[9 + k]);
            }
            assert(hs.skip(0) =~= hs);
        },
        AbsValue::Sender(_) | AbsValue::Receiver(_) | AbsValue::Memory(_) => {
            assert(bytes.subrange(pos + 1, pos + 9) =~= spec_u64_to_le_bytes(nused as u64)) by {
                assert(forall|k: int|
                    0 <= k < 8 ==> #[trigger] bytes.subrange(pos + 1, pos + 9)[k] == bytes[pos + 1
                        + k]);
                assert(forall|k: int|
                    0 <= k < 8 ==> #[trigger] spec_u64_to_le_bytes(nused as u64)[k] == eb[1 + k]);
            }
            assert(spec_u64_from_le_bytes(bytes.subrange(pos + 1, pos + 9)) == nused as u64);
            assert(hs[0] == hs.take(1)[0]);
            assert(hs[0] == eh[0]);
            assert(hs.skip(1) =~= hs.drop_first());
        },
        AbsValue::List(cs) => {
            let inner = enc_seq(cs, nused);
            assert(eb =~= seq![TAG_LIST] + spec_u64_to_le_bytes(cs.len() as u64) + inner.0);
            assert(bytes.subrange(pos + 1, pos + 9) =~= spec_u64_to_le_bytes(cs.len() as u64)) by {
                assert(forall|k: int|
                    0 <= k < 8 ==> #[trigger] bytes.subrange(pos + 1, pos + 9)[k] == bytes[pos + 1
                        + k]);
                assert(forall|k: int|
                    0 <= k < 8 ==> #[trigger] spec_u64_to_le_bytes(
                        cs.len() as u64,
                    )[k] == eb[1 + k]);
            }
            assert(spec_u64_from_le_bytes(bytes.subrange(pos + 1, pos + 9)) == cs.len() as u64);
            assert(bytes.subrange(pos + 9, pos + 9 + inner.0.len() as int) =~= inner.0) by {
                assert(forall|k: int|
                    0 <= k < inner.0.len() ==> #[trigger] bytes.subrange(
                        pos + 9,
                        pos + 9 + inner.0.len() as int,
                    )[k] == bytes[pos + 9 + k]);
                assert(forall|k: int| 0 <= k < inner.0.len() ==> #[trigger] inner.0[k] == eb[9 + k]);
            }
            lemma_dec_enc_seq(cs, bytes, pos + 9, hs, nused);
        },
    }
}

pub proof fn lemma_dec_enc_seq(
    s: Seq<AbsValue>,
    bytes: Seq<u8>,
    pos: int,
    hs: Seq<RawHandle>,
    nused: int,
)
    requires
        wf_seq(s),
        0 <= pos,
        0 <= nused,
        nused + enc_seq(s, nused).1.len() <= u64::MAX,
        pos + enc_seq(s, nused).0.len() <= bytes.len(),
        bytes.subrange(pos, pos + enc_seq(s, nused).0.len() as int) == enc_seq(s, nused).0,
        enc_seq(s, nused).1.len() <= hs.len(),
        hs.take(enc_seq(s, nused).1.len() as int) == enc_seq(s, nused).1,
    ensures
        dec_list(bytes, pos, hs, nused, s.len()) == Some(
            (
                s,
                pos + enc_seq(s, nused).0.len(),
                hs.skip(enc_seq(s, nused).1.len() as int),
                nused + enc_seq(s, nused).1.len(),
            ),
        ),
    decreases s,
{
    if s.len() == 0 {
        assert(s =~= Seq::<AbsValue>::empty());
        assert(hs.skip(0) =~= hs);
    } else {
        let head = enc(s[0], nused);
        let h0 = head.0.len() as int;
        let h1 = head.1.len() as int;
        let nh2 = nused + h1;
        let rest = enc_seq(s.drop_first(), nh2);
        let total0 = enc_seq(s, nused).0.len() as int;
        let total1 = enc_seq(s, nused).1.len() as int;
        assert(enc_seq(s, nused).0 == head.0 + rest.0);
        assert(enc_seq(s, nused).1 == head.1 + rest.1);
        assert(forall|j: int|
            0 <= j < total0 ==> bytes.subrange(pos, pos + total0)[j] == #[trigger] bytes[pos + j]);
        assert(wf_abs(s[0]));
        assert(bytes.subrange(pos, pos + h0) =~= head.0);
        assert(hs.take(h1) =~= head.1) by {
            assert(forall|j: int| 0 <= j < total1 ==> #[trigger] hs[j] == enc_seq(s, nused).1[j]);
        }
        lemma_dec_enc(s[0], bytes, pos, hs, nused);
        lemma_enc_len_pos(s[0], nused);
        let p2 = pos + h0;
        let hs2 = hs.skip(h1);
        assert(wf_seq(s.drop_first())) by {
            assert(forall|i: int|
                0 <= i < s.drop_first().len() ==> #[trigger] s.drop_first()[i] == s[i + 1]);
        }
        assert(bytes.subrange(p2, p2 + rest.0.len() as int) =~= rest.0) by {
            assert(forall|j: int|
                0 <= j < rest.0.len() ==> (head.0 + rest.0)[h0 + j] == #[trigger] rest.0[j]);
        }
        assert(hs2.take(rest.1.len() as int) =~= rest.1) by {
            assert(forall|j: int| 0 <= j < total1 ==> #[trigger] hs[j] == enc_seq(s, nused).1[j]);
            assert(forall|j: int|
                0 <= j < rest.1.len() ==> (head.1 + rest.1)[h1 + j] == #[trigger] rest.1[j]);
        }
        lemma_dec_enc_seq(s.drop_first(), bytes, p2, hs2, nh2);
        assert(seq![s[0]] + s.drop_first() =~= s);
        assert(hs.skip(h1).skip(rest.1.len() as int) =~= hs.skip(total1));
        assert((s.len() - 1) as nat == s.drop_first().len());
    }
}

/// The round trip: any well-formed value, encoded and then decoded as a
/// whole frame, comes back as itself — plain data and embedded handles
/// alike.
pub proof fn lemma_round_trip(a: AbsValue)
    requires
        wf_abs(a),
        enc(a, 0).1.len() <= u64::MAX,
    ensures
        frame_dec(enc(a, 0).0, enc(a, 0).1) == Some(a),
{
    let eb = enc(a, 0).0;
    let eh = enc(a, 0).1;
    assert(eb.subrange(0, eb.len() as int) =~= eb);
    assert(eh.take(eh.len() as int) =~= eh);
    lemma_dec_enc(a, eb, 0, eh, 0);
    assert(eh.skip(eh.len() as int) =~= Seq::<RawHandle>::empty());
}

/// Embedded endpoints survive transmission: the handle side channel of an
/// encoded value is exactly its embedded handles in traversal order, each
/// diverted once, and decoding the frame binds every one back into its
/// original position — the decoded value carries the very same transport
/// handles, so each endpoint stays paired with its original peer.
pub proof fn lemma_embedded_endpoints_preserved(a: AbsValue)
    requires
        wf_abs(a),
        enc(a, 0).1.len() <= u64::MAX,
    ensures
        enc(a, 0).1 == handle_leaves(a),
        frame_dec(enc(a, 0).0, enc(a, 0).1) == Some(a),
{
    lemma_handles_exact(a, 0);
    lemma_round_trip(a);
}

/// Shared-memory content survives transmission: a region embedded in a
/// message comes out of the round trip as the same region, byte for byte,
/// whatever fill and length it was built with.
pub proof fn lemma_memory_round_trip(m: crate::shmem::SharedMemory)
    ensures
        frame_dec(enc(AbsValue::Memory(m), 0).0, enc(AbsValue::Memory(m), 0).1) == Some(
            AbsValue::Memory(m),
        ),
{
    lemma_round_trip(AbsValue::Memory(m));
}

fn read_u64_at(bytes: &Vec<u8>, p: usize) -> (x: u64)
    requires
        p + 8 <= bytes@.len(),
    ensures
        x == spec_u64_from_le_bytes(bytes@.subrange(p as int, p as int + 8)),
{
    let n = bytes.len();
    proof {
        assert(p + 8 <= n);
    }
    let s = slice_subrange(bytes.as_slice(), p, p + 8);
    u64_from_le_bytes(s)
}

/// Relies on String::from_utf8: it succeeds exactly on valid UTF-8 input,
/// and the returned string's byte encoding is the input unchanged.
#[verifier::external_body]
pub(crate) fn bytes_to_string(v: Vec<u8>) -> (r: Option<String>)
    ensures
        match r {
            Some(s) => encode_utf8(s@) == v@ && valid_utf8(v@),
            None => !valid_utf8(v@),
        },
{
    String::from_utf8(v).ok()
}

/// Reads one value at `pos`, taking its handles from the front of
/// `handles`; `nused` is the index the next handle must carry. Mirrors
/// `dec` exactly, failing precisely where the frame is malformed.
#[verifier::loop_isolation(false)]
pub(crate) fn decode_at(bytes: &Vec<u8>, pos: usize, handles: &mut Vec<RawHandle>, nused: u64) -> (r:
    Result<(Value, usize), ()>)
    requires
        old(handles)@.len() + nused <= u64::MAX,
    ensures
        match r {
            Ok((v, p2)) => {
                &&& dec(bytes@, pos as int, old(handles)@, nused as int) == Some(
                    (
                        abs(v),
                        p2 as int,
                        final(handles)@,
                        nused + old(handles)@.len() - final(handles)@.len(),
                    ),
                )
                &&& pos < p2 <= bytes@.len()
                &&& final(handles)@.len() <= old(handles)@.len()
            },
            Err(_) => dec(bytes@, pos as int, old(handles)@, nused as int) is None,
        },
    decreases bytes@.len() - pos,
{
    let ghost hs0 = handles@;
    let n = bytes.len();
    if pos >= n {
        return Err(());
    }
    let tag = bytes[pos];
    if tag == TAG_UNIT {
        return Ok((Value::Unit, pos + 1));
    }
    if n - pos < 9 {
        return Err(());
    }
    let x = read_u64_at(bytes, pos + 1);
    if tag == TAG_U64 {
        return Ok((Value::U64(x), pos + 9));
    }
    if tag == TAG_STR || tag == TAG_BYTES {
        let avail = n - (pos + 9);
        if x > avail as u64 {
            return Err(());
        }
        let m = x as usize;
        let content = slice_to_vec(slice_subrange(bytes.as_slice(), pos + 9, pos + 9 + m));
        if tag == TAG_BYTES {
            return Ok((Value::Bytes(content), pos + 9 + m));
        }
        match bytes_to_string(content) {
            Some(s) => {
                proof {
                    encode_utf8_decode_utf8(s@);
                }
                return Ok((Value::Str(s), pos + 9 + m));
            },
            None => {
                return Err(());
            },
        }
    }
    if tag == TAG_SENDER || tag == TAG_RECEIVER || tag == TAG_MEMORY {
        if x != nused {
            return Err(());
        }
        if handles.len() == 0 {
            return Err(());
        }
        let h = handles.remove(0);
        proof {
            assert(handles@ =~= hs0.drop_first());
        }
        match h {
            RawHandle::Tx(t) => {
                if tag == TAG_SENDER {
                    return Ok((Value::Sender(OpaqueSender { tx: t }), pos + 9));
                } else {
                    return Err(());
                }
            },
            RawHandle::Rx(rx) => {
                if tag == TAG_RECEIVER {
                    return Ok((Value::Receiver(OpaqueReceiver { rx }), pos + 9));
                } else {
                    return Err(());
                }
            },
            RawHandle::Mem(m) => {
                if tag == TAG_MEMORY {
                    return Ok((Value::Memory(m), pos + 9));
                } else {
                    return Err(());
                }
            },
        }
    }
    if tag == TAG_LIST {
        let cnt = x;
        let ghost p9 = pos + 9;
        let mut children: Vec<Value> = Vec::new();
        let mut cur: usize = pos + 9;
        let mut curn: u64 = nused;
        let mut k: u64 = 0;
        proof {
            match dec_list(bytes@, p9 as int, hs0, nused as int, cnt as nat) {
                Some((rest, p3, h3, nu3)) => {
                    assert(abs_seq(children@) + rest =~= rest);
                },
                None => {},
            }
        }
        while k < cnt
            invariant
                k <= cnt,
                pos < cur <= bytes@.len(),
                handles@.len() <= hs0.len(),
                curn as int == nused + hs0.len() - handles@.len(),
                (match dec_list(bytes@, cur as int, handles@, curn as int, (cnt - k) as nat) {
                    Some((rest, p3, h3, nu3)) => dec_list(
                        bytes@,
                        p9 as int,
                        hs0,
                        nused as int,
                        cnt as nat,
                    ) == Some((abs_seq(children@) + rest, p3, h3, nu3)),
                    None => dec_list(bytes@, p9 as int, hs0, nused as int, cnt as nat) is None,
                }),
            decreases cnt - k,
        {
            let ghost pre_children = children@;
            let ghost pre_handles = handles@;
            let ghost pre_cur = cur;
            let ghost pre_curn = curn;
            let ghost m = (cnt - k) as nat;
            let hl = handles.len();
            match decode_at(bytes, cur, handles, curn) {
                Err(_) => {
                    proof {
                        assert(dec_list(bytes@, pre_cur as int, pre_handles, pre_curn as int, m)
                            is None);
                    }
                    return Err(());
                },
                Ok((v, p2)) => {
                    let consumed = hl - handles.len();
                    proof {
                        crate::value::lemma_abs_seq_snoc(pre_children, v);
                    }
                    children.push(v);
                    cur = p2;
                    curn = curn + consumed as u64;
                    k = k + 1;
                    proof {
                        assert(children@ =~= pre_children + seq![v]);
                        assert(abs_seq(children@) =~= abs_seq(pre_children) + seq![abs(v)]);
                        assert(dec(bytes@, pre_cur as int, pre_handles, pre_curn as int) == Some(
                            (abs(v), p2 as int, handles@, pre_curn + consumed),
                        ));
                        match dec_list(bytes@, cur as int, handles@, curn as int, (cnt - k) as nat) {
                            Some((rest, p3, h3, nu3)) => {
                                assert(dec_list(
                                    bytes@,
                                    pre_cur as int,
                                    pre_handles,
                                    pre_curn as int,
                                    m,
                                ) == Some((seq![abs(v)] + rest, p3, h3, nu3)));
                                assert(abs_seq(pre_children) + (seq![abs(v)] + rest) =~= abs_seq(
                                    children@,
                                ) + rest);
                            },
                            None => {
                                assert(dec_list(
                                    bytes@,
                                    pre_cur as int,
                                    pre_handles,
                                    pre_curn as int,
                                    m,
                                ) is None);
                            },
                        }
                    }
                },
            }
        }
        proof {
            assert(dec_list(bytes@, cur as int, handles@, curn as int, 0nat) == Some(
                (Seq::<AbsValue>::empty(), cur as int, handles@, curn as int),
            ));
            assert(abs_seq(children@) + Seq::<AbsValue>::empty() =~= abs_seq(children@));
        }
        return Ok((Value::List(children), cur));
    }
    Err(())
}

/// Decodes a whole frame back into a value: the payload must parse as one
/// value that uses every byte and every handle, else the frame is
/// malformed and nothing is returned.
pub fn decode_frame(f: Frame) -> (r: Option<Value>)
    ensures
        match r {
            Some(v) => frame_dec(f.bytes@, f.handles@) == Some(abs(v)),
            None => frame_dec(f.bytes@, f.handles@) is None,
        },
{
    let Frame { bytes, handles } = f;
    let mut handles = handles;
    // the vector's exec length bounds its abstract one, as the decoder's
    // handle accounting requires
    let _handle_count = handles.len();
    match decode_at(&bytes, 0, &mut handles, 0) {
        Ok((v, p)) => {
            if p == bytes.len() && handles.len() == 0 {
                Some(v)
            } else {
                None
            }
        },
        Err(_) => None,
    }
}

/// The byte channel's whole encoding: the payload is the caller's bytes
/// unchanged, with no header and no handles.
pub fn bytes_frame(data: &[u8]) -> (f: Frame)
    ensures
        f.bytes@ == data@,
        f.handles@.len() == 0,
{
    Frame { bytes: slice_to_vec(data), handles: Vec::new() }
}

/// The byte channel's whole decoding: the payload comes back unchanged,
/// and a frame carrying handles does not belong on a byte channel and is
/// malformed.
pub fn frame_payload(f: Frame) -> (r: Result<Vec<u8>, crate::ipc::RecvError>)
    ensures
        f.handles@.len() == 0 ==> r == Ok::<Vec<u8>, crate::ipc::RecvError>(f.bytes),
        f.handles@.len() > 0 ==> r == Err::<Vec<u8>, crate::ipc::RecvError>(
            crate::ipc::RecvError::Malformed,
        ),
{
    if f.handles.len() == 0 {
        Ok(f.bytes)
    } else {
        Err(crate::ipc::RecvError::Malformed)
    }
}

} // verus!
