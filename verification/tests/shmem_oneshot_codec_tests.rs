use ipc_channel::codec::{bytes_frame, decode_frame, encode_value, frame_payload};
use ipc_channel::ipc::{channel, Sender};
use ipc_channel::oneshot::{ConnectError, NameRegistry, OneShotServer};
use ipc_channel::shmem::SharedMemory;
use ipc_channel::transport::Frame;
use ipc_channel::value::Value;

fn person() -> Value {
    Value::List(vec![Value::Str("Patrick Walton".to_string()), Value::U64(29)])
}

#[test]
fn shared_memory() {
    let p = person();
    let shmem = SharedMemory::from_byte(0xba, 1024 * 1024);
    let person_and_shared_memory =
        Value::List(vec![person(), Value::Memory(shmem.duplicate())]);
    let expected = Value::List(vec![person(), Value::Memory(shmem.duplicate())]);
    let (tx, rx) = channel();
    tx.send(person_and_shared_memory).unwrap();
    let received = rx.recv().unwrap();
    assert!(received.value_eq(&expected));
    let received_memory = match received {
        Value::List(mut items) => {
            assert!(items[0].value_eq(&p));
            match items.remove(1) {
                Value::Memory(m) => m,
                _ => panic!("expected a memory region"),
            }
        },
        _ => panic!("expected a list"),
    };
    assert!(shmem.bytes().iter().all(|byte| *byte == 0xba));
    assert!(received_memory.bytes().iter().all(|byte| *byte == 0xba));
}

#[test]
fn shared_memory_from_byte_fills_every_byte() {
    let m = SharedMemory::from_byte(7, 3);
    assert_eq!(m.len(), 3);
    assert_eq!(m.get(0), 7);
    assert_eq!(m.get(1), 7);
    assert_eq!(m.get(2), 7);
    let empty = SharedMemory::from_byte(9, 0);
    assert_eq!(empty.len(), 0);
}

#[test]
fn cross_process_embedded_senders() {
    let p = person();
    let mut reg = NameRegistry::new();
    let (server0, server0_name) = OneShotServer::new(&mut reg);
    let (server2, server2_name) = OneShotServer::new(&mut reg);

    // The connecting peer's side, run first so the accepts find their
    // frames waiting.
    let (tx1, rx1) = channel();
    let tx0 = Sender::connect(&mut reg, server0_name).unwrap();
    tx0.send(Value::Sender(tx1.to_opaque())).unwrap();

    let (_, first) = server0.accept().unwrap();
    let tx1_remote = match first {
        Value::Sender(op) => op.to(),
        _ => panic!("expected a sender"),
    };
    tx1_remote.send(person()).unwrap();
    let relayed = rx1.recv().unwrap();
    let tx2 = Sender::connect(&mut reg, server2_name).unwrap();
    tx2.send(relayed).unwrap();

    let (_, received_person) = server2.accept().unwrap();
    assert!(received_person.value_eq(&p));
}

#[test]
fn connect_to_unknown_name_fails() {
    let mut reg = NameRegistry::new();
    let (_server, name) = OneShotServer::new(&mut reg);
    let bogus = ipc_channel::oneshot::ServerName { id: name.id + 1 };
    assert!(matches!(Sender::connect(&mut reg, bogus), Err(ConnectError::NotFound)));
}

#[test]
fn one_shot_server_accepts_exactly_one_connection() {
    let mut reg = NameRegistry::new();
    let (server, name) = OneShotServer::new(&mut reg);
    let tx = Sender::connect(&mut reg, name).unwrap();
    assert!(matches!(Sender::connect(&mut reg, name), Err(ConnectError::NotFound)));
    tx.send(Value::U64(5)).unwrap();
    let (_rx, first) = server.accept().unwrap();
    assert!(first.value_eq(&Value::U64(5)));
}

#[test]
fn server_names_render_as_decimal_text() {
    let mut reg = NameRegistry::new();
    let (_s0, name0) = OneShotServer::new(&mut reg);
    let (_s1, name1) = OneShotServer::new(&mut reg);
    assert_eq!(name0.text(), "0");
    assert_eq!(name1.text(), "1");
    let big = ipc_channel::oneshot::ServerName { id: 90210 };
    assert_eq!(big.text(), "90210");
}

#[test]
fn codec_round_trip_nested_value() {
    let v = Value::List(vec![
        Value::Unit,
        Value::U64(123456789),
        Value::Str("grüße".to_string()),
        Value::Bytes(vec![0, 255, 7]),
        Value::List(vec![person(), Value::List(vec![])]),
    ]);
    let expected = Value::List(vec![
        Value::Unit,
        Value::U64(123456789),
        Value::Str("grüße".to_string()),
        Value::Bytes(vec![0, 255, 7]),
        Value::List(vec![person(), Value::List(vec![])]),
    ]);
    let frame = encode_value(v);
    let decoded = decode_frame(frame).unwrap();
    assert!(decoded.value_eq(&expected));
}

#[test]
fn codec_exact_bytes_for_u64() {
    let frame = encode_value(Value::U64(7));
    assert_eq!(frame.bytes, vec![1u8, 7, 0, 0, 0, 0, 0, 0, 0]);
    assert_eq!(frame.handles.len(), 0);
}

#[test]
fn codec_exact_bytes_for_unit_and_str() {
    let frame = encode_value(Value::Unit);
    assert_eq!(frame.bytes, vec![0u8]);
    let frame = encode_value(Value::Str("ab".to_string()));
    assert_eq!(frame.bytes, vec![2u8, 2, 0, 0, 0, 0, 0, 0, 0, 97, 98]);
}

#[test]
fn codec_diverts_each_handle_exactly_once() {
    let (tx_a, _rx_a) = channel();
    let (tx_b, _rx_b) = channel();
    let v = Value::List(vec![
        Value::Sender(tx_a.to_opaque()),
        Value::U64(1),
        Value::Sender(tx_b.to_opaque()),
    ]);
    let frame = encode_value(v);
    assert_eq!(frame.handles.len(), 2);
    let decoded = decode_frame(frame).unwrap();
    match decoded {
        Value::List(items) => {
            assert!(matches!(items[0], Value::Sender(_)));
            assert!(matches!(items[2], Value::Sender(_)));
        },
        _ => panic!("expected a list"),
    }
}

#[test]
fn bytes_frames_carry_payload_unchanged() {
    let f = bytes_frame(&[9, 8, 7]);
    assert_eq!(f.bytes, vec![9, 8, 7]);
    assert_eq!(f.handles.len(), 0);
    assert_eq!(frame_payload(f).unwrap(), vec![9, 8, 7]);
    let g = encode_value(Value::U64(1));
    assert_eq!(frame_payload(g).unwrap(), vec![1u8, 1, 0, 0, 0, 0, 0, 0, 0]);
}

#[test]
fn codec_rejects_malformed_frames() {
    // Unknown tag.
    assert!(decode_frame(Frame { bytes: vec![200], handles: vec![] }).is_none());
    // Truncated integer.
    assert!(decode_frame(Frame { bytes: vec![1, 7, 0], handles: vec![] }).is_none());
    // Trailing bytes after the value.
    assert!(decode_frame(Frame { bytes: vec![0, 0], handles: vec![] }).is_none());
    // A sender tag with no handle to bind.
    assert!(
        decode_frame(Frame { bytes: vec![5, 0, 0, 0, 0, 0, 0, 0, 0], handles: vec![] }).is_none()
    );
    // Empty frame.
    assert!(decode_frame(Frame { bytes: vec![], handles: vec![] }).is_none());
}

#[test]
fn value_eq_distinguishes_plain_data() {
    let p = person();
    let q = Value::List(vec![Value::Str("Patrick Walton".to_string()), Value::U64(30)]);
    assert!(!p.value_eq(&q));
    assert!(p.value_eq(&p));
    let (tx, _rx) = channel();
    let with_sender = Value::Sender(tx.to_opaque());
    assert!(!with_sender.value_eq(&with_sender));
}
