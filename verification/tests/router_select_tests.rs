use ipc_channel::ipc::{channel, RecvError};
use ipc_channel::receiver_set::{ReceiverSet, SelectionResult};
use ipc_channel::router::{RouteStep, Router};
use ipc_channel::value::Value;

fn person() -> Value {
    Value::List(vec![Value::Str("Patrick Walton".to_string()), Value::U64(29)])
}

#[test]
fn select() {
    let (tx0, rx0) = channel();
    let (tx1, rx1) = channel();
    let mut rx_set = ReceiverSet::new();
    let rx0_id = rx_set.add(rx0);
    let rx1_id = rx_set.add(rx1);

    let p = person();
    tx0.send(person()).unwrap();
    let (received_id, received_data) = match rx_set.select().into_iter().next().unwrap() {
        SelectionResult::MessageReceived(id, msg) => (id, msg),
        SelectionResult::ChannelClosed(_) => panic!("unexpected close"),
    };
    let received_person = received_data.to().unwrap();
    assert_eq!(received_id, rx0_id);
    assert!(received_person.value_eq(&p));

    tx1.send(person()).unwrap();
    let (received_id, received_data) = match rx_set.select().into_iter().next().unwrap() {
        SelectionResult::MessageReceived(id, msg) => (id, msg),
        SelectionResult::ChannelClosed(_) => panic!("unexpected close"),
    };
    let received_person = received_data.to().unwrap();
    assert_eq!(received_id, rx1_id);
    assert!(received_person.value_eq(&p));

    tx0.send(person()).unwrap();
    tx1.send(person()).unwrap();
    let (mut received0, mut received1) = (false, false);
    while !received0 || !received1 {
        for result in rx_set.select().into_iter() {
            let (received_id, received_data) = match result {
                SelectionResult::MessageReceived(id, msg) => (id, msg),
                SelectionResult::ChannelClosed(_) => panic!("unexpected close"),
            };
            let received_person = received_data.to().unwrap();
            assert!(received_person.value_eq(&p));
            assert!(received_id == rx0_id || received_id == rx1_id);
            if received_id == rx0_id {
                assert!(!received0);
                received0 = true;
            } else if received_id == rx1_id {
                assert!(!received1);
                received1 = true;
            }
        }
    }
}

#[test]
fn select_reports_closed_members() {
    let (tx0, rx0) = channel();
    let mut rx_set = ReceiverSet::new();
    let rx0_id = rx_set.add(rx0);
    drop(tx0);
    match rx_set.select().into_iter().next().unwrap() {
        SelectionResult::ChannelClosed(id) => assert_eq!(id, rx0_id),
        SelectionResult::MessageReceived(_, _) => panic!("unexpected message"),
    }
    assert_eq!(rx_set.len(), 0);
}

#[test]
fn receiver_set_ids_are_fresh() {
    let (tx0, rx0) = channel();
    let (_tx1, rx1) = channel();
    let (_tx2, rx2) = channel();
    let mut rx_set = ReceiverSet::new();
    let id0 = rx_set.add(rx0);
    let id1 = rx_set.add(rx1);
    assert!(id1 > id0);
    drop(tx0);
    match rx_set.select().into_iter().next().unwrap() {
        SelectionResult::ChannelClosed(id) => assert_eq!(id, id0),
        SelectionResult::MessageReceived(_, _) => panic!("unexpected message"),
    }
    let id2 = rx_set.add(rx2);
    assert!(id2 > id1);
}

#[test]
fn router_simple() {
    let p = person();
    let mut router = Router::new();
    let (tx, rx) = channel();
    tx.send(person()).unwrap();

    let (callback_fired_sender, callback_fired_receiver) = channel();
    router.add_route(rx.to_opaque(), callback_fired_sender.to_opaque());
    assert_eq!(router.step(), RouteStep::Forwarded);
    let received_person = callback_fired_receiver.recv().unwrap();
    assert!(received_person.value_eq(&p));
}

#[test]
fn router_routing_to_new_mpsc_receiver() {
    let p = person();
    let mut router = Router::new();
    let (tx, rx) = channel();
    tx.send(person()).unwrap();

    let mpsc_receiver = router.route_receiver_to_new_receiver(rx);
    assert_eq!(router.step(), RouteStep::Forwarded);
    let received_person = mpsc_receiver.recv().unwrap();
    assert!(received_person.value_eq(&p));
}

#[test]
fn router_multiplexing() {
    let p = person();
    let mut router = Router::new();
    let (tx0, rx0) = channel();
    tx0.send(person()).unwrap();
    let (tx1, rx1) = channel();
    tx1.send(person()).unwrap();

    let mpsc_rx_0 = router.route_receiver_to_new_receiver(rx0);
    let mpsc_rx_1 = router.route_receiver_to_new_receiver(rx1);
    assert_eq!(router.step(), RouteStep::Forwarded);
    assert_eq!(router.step(), RouteStep::Forwarded);
    let received_person_0 = mpsc_rx_0.recv().unwrap();
    let received_person_1 = mpsc_rx_1.recv().unwrap();
    assert!(received_person_0.value_eq(&p));
    assert!(received_person_1.value_eq(&p));
}

#[test]
fn router_drops_callbacks_on_sender_shutdown() {
    let mut router = Router::new();
    let (tx0, rx0) = channel();
    let (drop_tx, drop_rx) = channel();

    router.add_route(rx0.to_opaque(), drop_tx.to_opaque());
    drop(tx0);
    assert_eq!(router.step(), RouteStep::Removed);
    assert_eq!(router.route_count(), 0);
    assert!(matches!(drop_rx.recv(), Err(RecvError::Disconnected)));
}

#[test]
fn router_drops_callbacks_on_cloned_sender_shutdown() {
    let mut router = Router::new();
    let (tx0, rx0) = channel();
    let (drop_tx, drop_rx) = channel();

    router.add_route(rx0.to_opaque(), drop_tx.to_opaque());
    let txs = vec![tx0.duplicate(), tx0.duplicate(), tx0.duplicate()];
    drop(txs);
    assert!(matches!(drop_rx.try_recv(), Err(ipc_channel::ipc::TryRecvError::Empty)));
    drop(tx0);
    assert_eq!(router.step(), RouteStep::Removed);
    assert!(matches!(drop_rx.recv(), Err(RecvError::Disconnected)));
}

#[test]
fn router_big_data() {
    let mut people: Vec<Value> = Vec::new();
    for _ in 0..64 * 1024 {
        people.push(person());
    }
    let expected = Value::List(people);
    let mut router = Router::new();
    let (tx, rx) = channel();
    tx.send(duplicate_plain(&expected)).unwrap();

    let out_rx = router.route_receiver_to_new_receiver(rx);
    assert_eq!(router.step(), RouteStep::Forwarded);
    let received_people = out_rx.recv().unwrap();
    assert!(received_people.value_eq(&expected));
}

fn duplicate_plain(v: &Value) -> Value {
    match v {
        Value::Unit => Value::Unit,
        Value::U64(x) => Value::U64(*x),
        Value::Str(s) => Value::Str(s.clone()),
        Value::Bytes(b) => Value::Bytes(b.clone()),
        Value::List(items) => Value::List(items.iter().map(duplicate_plain).collect()),
        _ => panic!("not plain data"),
    }
}
