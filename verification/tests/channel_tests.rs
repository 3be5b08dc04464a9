use ipc_channel::ipc::{bytes_channel, channel, RecvError, SendError, TryRecvError};
use ipc_channel::value::Value;

fn person() -> Value {
    Value::List(vec![Value::Str("Patrick Walton".to_string()), Value::U64(29)])
}

#[test]
fn simple() {
    let p = person();
    let (tx, rx) = channel();
    tx.send(person()).unwrap();
    let received_person = rx.recv().unwrap();
    assert!(received_person.value_eq(&p));
}

#[test]
fn embedded_senders() {
    let p = person();
    let (sub_tx, sub_rx) = channel();
    let person_and_sender = Value::List(vec![person(), Value::Sender(sub_tx.to_opaque())]);
    let (super_tx, super_rx) = channel();
    super_tx.send(person_and_sender).unwrap();
    let received = super_rx.recv().unwrap();
    let mut items = match received {
        Value::List(items) => items,
        _ => panic!("expected a list"),
    };
    assert!(items[0].value_eq(&p));
    let sender = match items.remove(1) {
        Value::Sender(op) => op.to(),
        _ => panic!("expected a sender"),
    };
    sender.send(person()).unwrap();
    let received_person = sub_rx.recv().unwrap();
    assert!(received_person.value_eq(&p));
}

#[test]
fn embedded_receivers() {
    let p = person();
    let (sub_tx, sub_rx) = channel();
    let person_and_receiver = Value::List(vec![person(), Value::Receiver(sub_rx.to_opaque())]);
    let (super_tx, super_rx) = channel();
    super_tx.send(person_and_receiver).unwrap();
    let received = super_rx.recv().unwrap();
    let mut items = match received {
        Value::List(items) => items,
        _ => panic!("expected a list"),
    };
    assert!(items[0].value_eq(&p));
    let receiver = match items.remove(1) {
        Value::Receiver(op) => op.to(),
        _ => panic!("expected a receiver"),
    };
    sub_tx.send(person()).unwrap();
    let received_person = receiver.recv().unwrap();
    assert!(received_person.value_eq(&p));
}

#[test]
fn opaque_sender() {
    let p = person();
    let (tx, rx) = channel();
    let opaque_tx = tx.to_opaque();
    let tx = opaque_tx.to();
    tx.send(person()).unwrap();
    let received_person = rx.recv().unwrap();
    assert!(received_person.value_eq(&p));
}

#[test]
fn embedded_opaque_senders() {
    let p = person();
    let (sub_tx, sub_rx) = channel();
    let person_and_sender = Value::List(vec![person(), Value::Sender(sub_tx.to_opaque())]);
    let (super_tx, super_rx) = channel();
    super_tx.send(person_and_sender).unwrap();
    let received = super_rx.recv().unwrap();
    let mut items = match received {
        Value::List(items) => items,
        _ => panic!("expected a list"),
    };
    assert!(items[0].value_eq(&p));
    let sender = match items.remove(1) {
        Value::Sender(op) => op.to(),
        _ => panic!("expected a sender"),
    };
    sender.send(person()).unwrap();
    let received_person = sub_rx.recv().unwrap();
    assert!(received_person.value_eq(&p));
}

#[test]
fn try_recv() {
    let p = person();
    let (tx, rx) = channel();
    assert!(matches!(rx.try_recv(), Err(TryRecvError::Empty)));
    tx.send(person()).unwrap();
    let received_person = rx.try_recv().unwrap();
    assert!(received_person.value_eq(&p));
    assert!(matches!(rx.try_recv(), Err(TryRecvError::Empty)));
}

#[test]
fn multiple_paths_to_a_sender() {
    let p = person();
    let (sub_tx, sub_rx) = channel();
    let entry = |tx: ipc_channel::ipc::OpaqueSender| {
        Value::List(vec![person(), Value::Sender(tx)])
    };
    let send_data = Value::List(vec![
        entry(sub_tx.duplicate().to_opaque()),
        entry(sub_tx.duplicate().to_opaque()),
        entry(sub_tx.to_opaque()),
    ]);
    let (super_tx, super_rx) = channel();
    super_tx.send(send_data).unwrap();
    let received = super_rx.recv().unwrap();
    let mut entries = match received {
        Value::List(entries) => entries,
        _ => panic!("expected a list"),
    };
    assert_eq!(entries.len(), 3);
    for entry in entries.iter() {
        match entry {
            Value::List(fields) => assert!(fields[0].value_eq(&p)),
            _ => panic!("expected a list"),
        }
    }
    for _ in 0..2 {
        let sender = match entries.remove(0) {
            Value::List(mut fields) => match fields.remove(1) {
                Value::Sender(op) => op.to(),
                _ => panic!("expected a sender"),
            },
            _ => panic!("expected a list"),
        };
        sender.send(person()).unwrap();
        let received_person = sub_rx.recv().unwrap();
        assert!(received_person.value_eq(&p));
    }
}

#[test]
fn bytes() {
    let bytes = [1, 2, 3, 4, 5, 6, 7, 8];
    let (tx, rx) = bytes_channel();
    tx.send(&bytes[..]).unwrap();
    let received_bytes = rx.recv().unwrap();
    assert_eq!(&bytes, &received_bytes[..]);
}

#[test]
fn embedded_bytes_receivers() {
    let (sub_tx, sub_rx) = bytes_channel();
    let (super_tx, super_rx) = channel();
    super_tx.send(Value::Sender(sub_tx.to_opaque())).unwrap();
    let sub_tx = match super_rx.recv().unwrap() {
        Value::Sender(op) => op.to_bytes_sender(),
        _ => panic!("expected a sender"),
    };
    let bytes = [1, 2, 3, 4, 5, 6, 7, 8];
    sub_tx.send(&bytes[..]).unwrap();
    let received_bytes = sub_rx.recv().unwrap();
    assert_eq!(&bytes, &received_bytes[..]);
}

#[test]
fn test_so_linger() {
    let (sender, receiver) = channel();
    sender.send(Value::U64(42)).unwrap();
    drop(sender);
    let val = match receiver.recv() {
        Ok(Value::U64(val)) => val,
        other => panic!("err: `{:?}`", other.is_ok()),
    };
    assert_eq!(val, 42);
}

#[test]
fn send_after_receiver_dropped() {
    let (tx, rx) = channel();
    drop(rx);
    assert!(matches!(tx.send(person()), Err(SendError::Disconnected)));
}

#[test]
fn recv_after_all_senders_dropped() {
    let (tx, rx) = channel();
    let tx2 = tx.duplicate();
    let tx3 = tx2.duplicate();
    drop(tx);
    drop(tx2);
    assert!(matches!(rx.try_recv(), Err(TryRecvError::Empty)));
    drop(tx3);
    assert!(matches!(rx.try_recv(), Err(TryRecvError::Disconnected)));
    assert!(matches!(rx.recv(), Err(RecvError::Disconnected)));
}

#[test]
fn unparseable_frame_is_malformed() {
    let (tx, rx) = bytes_channel();
    tx.send(&[200u8][..]).unwrap();
    let value_rx = rx.to_opaque().to();
    assert!(matches!(value_rx.try_recv(), Err(TryRecvError::Malformed)));
}

#[test]
fn handles_on_bytes_channel_are_malformed() {
    let (tx, rx) = channel();
    let (sub_tx, _sub_rx) = channel();
    tx.send(Value::Sender(sub_tx.to_opaque())).unwrap();
    let bytes_rx = rx.to_opaque().to_bytes_receiver();
    assert!(matches!(bytes_rx.recv(), Err(RecvError::Malformed)));
}
