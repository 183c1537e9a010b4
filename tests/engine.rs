use mqtt_core::dispatch::{dispatch, InboundPacket};
use mqtt_core::codec::{write_packet, OutPacket, TxBuffer, WritePacketError};
use mqtt_core::receives::{QosPid, QueueFull, ReceiveState, ReceivedPublishQueue};
use mqtt_core::sub::{
    AutoSubscribe, RequestState, SubQueue, SubscribeReturnCode, MAX_CONCURRENT_REQUESTS,
};
use mqtt_core::types::{IdSource, MqttError, MqttEvent, MqttPublish, QoS, Topic, UniqueID};

fn topic(s: &str) -> Topic {
    Topic::new(s).unwrap()
}

#[test]
fn qos1_inbound_acknowledged_and_removed() {
    let mut q = ReceivedPublishQueue::new();
    let m = q
        .process_publish("a/b", b"x", QosPid::AtLeastOnce(7), false, false)
        .unwrap()
        .unwrap();
    assert_eq!(m, MqttPublish::new("a/b", b"x", QoS::AtLeastOnce, false));
    assert_eq!(q.len(), 1);
    let mut buf = TxBuffer::new(64);
    q.process(&mut buf, 0);
    assert_eq!(buf.bytes(), vec![0x40, 2, 0, 7]);
    assert_eq!(q.len(), 0);
}

#[test]
fn qos2_inbound_full_handshake() {
    let mut q = ReceivedPublishQueue::new();
    let m = q.process_publish("t", b"y", QosPid::ExactlyOnce(9), false, false).unwrap();
    assert_eq!(m, Some(MqttPublish::new("t", b"y", QoS::ExactlyOnce, false)));
    let mut buf = TxBuffer::new(64);
    q.process(&mut buf, 100);
    assert_eq!(buf.bytes(), vec![0x50, 2, 0, 9]);
    assert_eq!(q.publishes[0].state, ReceiveState::AwaitPubrel(100));
    buf.clear();
    q.process_pubrel(9);
    assert_eq!(q.publishes[0].state, ReceiveState::SendPubcomp);
    q.process(&mut buf, 200);
    assert_eq!(buf.bytes(), vec![0x70, 2, 0, 9]);
    assert_eq!(q.len(), 0);
    // a further tick writes nothing more
    buf.clear();
    q.process(&mut buf, 300);
    assert!(buf.bytes().is_empty());
}

#[test]
fn qos2_duplicate_before_pubrel_not_delivered() {
    let mut q = ReceivedPublishQueue::new();
    assert!(q.process_publish("t", b"y", QosPid::ExactlyOnce(9), false, false).unwrap().is_some());
    let mut buf = TxBuffer::new(64);
    q.process(&mut buf, 5);
    let again = q.process_publish("t", b"y", QosPid::ExactlyOnce(9), true, false);
    assert_eq!(again, Ok(None));
    assert_eq!(q.len(), 1);
    assert_eq!(q.publishes[0].state, ReceiveState::AwaitPubrel(5));
    q.process_pubrel(9);
    buf.clear();
    q.process(&mut buf, 6);
    assert_eq!(buf.bytes(), vec![0x70, 2, 0, 9]);
}

#[test]
fn qos0_inbound_delivered_without_record() {
    let mut q = ReceivedPublishQueue::new();
    let m = q.process_publish("a", b"hello", QosPid::AtMostOnce, false, true).unwrap();
    assert_eq!(m, Some(MqttPublish::new("a", b"hello", QoS::AtMostOnce, true)));
    assert_eq!(q.len(), 0);
}

#[test]
fn dup_for_unknown_pid_dropped() {
    let mut q = ReceivedPublishQueue::new();
    assert_eq!(q.process_publish("a", b"z", QosPid::AtLeastOnce(3), true, false), Ok(None));
    assert_eq!(q.len(), 0);
    assert!(!q.is_known_pid(3));
}

#[test]
fn inbound_topic_of_65_bytes_rejected() {
    let long = "a".repeat(65);
    assert_eq!(
        MqttPublish::try_from_parts(&long, b"p", QoS::AtLeastOnce, false),
        Err(MqttError::ReceivedMessageTooLong)
    );
    let mut q = ReceivedPublishQueue::new();
    assert_eq!(q.process_publish(&long, b"p", QosPid::AtLeastOnce(1), false, false), Ok(None));
    assert_eq!(q.len(), 0);
    assert!(Topic::new(&"b".repeat(64)).is_some());
    assert!(Topic::new(&long).is_none());
}

#[test]
fn inbound_payload_of_65_bytes_truncated() {
    let payload: Vec<u8> = (0..65u8).collect();
    let mut q = ReceivedPublishQueue::new();
    let m = q
        .process_publish("t", &payload, QosPid::AtLeastOnce(4), false, false)
        .unwrap()
        .unwrap();
    assert_eq!(m.payload, payload[..64].to_vec());
    assert_eq!(q.len(), 1);
}

#[test]
fn inbound_queue_full_asks_for_retry() {
    let mut q = ReceivedPublishQueue::new();
    for pid in 1..=8u16 {
        assert!(q.process_publish("t", b"", QosPid::AtLeastOnce(pid), false, false).unwrap().is_some());
    }
    assert_eq!(q.process_publish("t", b"", QosPid::AtLeastOnce(9), false, false), Err(QueueFull));
    assert_eq!(q.len(), 8);
    let mut buf = TxBuffer::new(256);
    q.process(&mut buf, 0);
    assert_eq!(buf.bytes().len(), 32);
    assert_eq!(q.len(), 0);
    assert!(q.process_publish("t", b"", QosPid::AtLeastOnce(9), false, false).unwrap().is_some());
}

#[test]
fn full_transmit_buffer_retried_next_tick() {
    let mut q = ReceivedPublishQueue::new();
    q.process_publish("t", b"", QosPid::AtLeastOnce(2), false, false).unwrap();
    let mut small = TxBuffer::new(3);
    q.process(&mut small, 0);
    assert!(small.bytes().is_empty());
    assert_eq!(q.publishes[0].state, ReceiveState::Initial);
    let mut buf = TxBuffer::new(4);
    q.process(&mut buf, 0);
    assert_eq!(buf.bytes(), vec![0x40, 2, 0, 2]);
    assert_eq!(buf.remaining_capacity(), 0);
    assert_eq!(q.len(), 0);
}

#[test]
fn write_packet_reports_not_enough_space() {
    let mut buf = TxBuffer::new(3);
    assert_eq!(write_packet(&mut buf, &OutPacket::Pubrec(0x1234)), Err(WritePacketError::NotEnoughSpace));
    assert!(buf.bytes().is_empty());
    let mut buf = TxBuffer::new(8);
    assert_eq!(write_packet(&mut buf, &OutPacket::Pubrec(0x1234)), Ok(()));
    assert_eq!(buf.bytes(), vec![0x50, 2, 0x12, 0x34]);
}

#[test]
fn subscribe_success() {
    let mut s = SubQueue::new();
    let mut ids = IdSource::new();
    let id1 = ids.next_id();
    assert_eq!(s.push_subscribe(topic("a"), 1, id1, QoS::AtLeastOnce), Ok(()));
    let mut buf = TxBuffer::new(64);
    assert_eq!(s.process(&mut buf, 1000), Ok(()));
    assert_eq!(buf.bytes(), vec![0x82, 6, 0, 1, 0, 1, b'a', 1]);
    assert_eq!(s.requests[0].state, RequestState::AwaitAck(1000));
    let events = s.process_suback(1, &vec![SubscribeReturnCode::Success(QoS::AtLeastOnce)]);
    assert_eq!(events, vec![MqttEvent::SubscribeResult(id1, Ok(QoS::AtLeastOnce))]);
    assert_eq!(s.len(), 0);
}

#[test]
fn subscribe_failure() {
    let mut s = SubQueue::new();
    let id1 = UniqueID::new(41);
    s.push_subscribe(topic("a"), 1, id1, QoS::AtLeastOnce).unwrap();
    let mut buf = TxBuffer::new(64);
    s.process(&mut buf, 0).unwrap();
    let events = s.process_suback(1, &vec![SubscribeReturnCode::Failure]);
    assert_eq!(events, vec![MqttEvent::SubscribeResult(id1, Err(MqttError::SubscribeOrUnsubscribeFailed))]);
    assert_eq!(s.len(), 0);
}

#[test]
fn suback_without_codes_is_failure() {
    let mut s = SubQueue::new();
    s.push_subscribe(topic("a"), 3, UniqueID::new(3), QoS::AtMostOnce).unwrap();
    let mut buf = TxBuffer::new(64);
    s.process(&mut buf, 0).unwrap();
    let events = s.process_suback(3, &vec![]);
    assert_eq!(events, vec![MqttEvent::SubscribeResult(UniqueID::new(3), Err(MqttError::SubscribeOrUnsubscribeFailed))]);
}

#[test]
fn illegal_acks_ignored() {
    let mut s = SubQueue::new();
    s.push_subscribe(topic("a"), 1, UniqueID::new(1), QoS::AtLeastOnce).unwrap();
    s.push_unsubscribe(topic("b"), 2, UniqueID::new(2)).unwrap();
    // not written yet: no ack is accepted
    assert!(s.process_suback(1, &vec![SubscribeReturnCode::Success(QoS::AtLeastOnce)]).is_empty());
    let mut buf = TxBuffer::new(64);
    s.process(&mut buf, 0).unwrap();
    // unknown pid, and acks of the wrong kind
    assert!(s.process_suback(7, &vec![SubscribeReturnCode::Success(QoS::AtLeastOnce)]).is_empty());
    assert!(s.process_suback(2, &vec![SubscribeReturnCode::Success(QoS::AtLeastOnce)]).is_empty());
    assert_eq!(s.process_unsuback(1), None);
    assert_eq!(s.len(), 2);
    assert_eq!(s.process_unsuback(2), Some(MqttEvent::UnsubscribeResult(UniqueID::new(2), Ok(()))));
    assert_eq!(s.len(), 1);
}

#[test]
fn unsubscribe_packet_bytes() {
    let mut s = SubQueue::new();
    s.push_unsubscribe(topic("ab"), 0x0102, UniqueID::new(5)).unwrap();
    let mut buf = TxBuffer::new(64);
    s.process(&mut buf, 0).unwrap();
    assert_eq!(buf.bytes(), vec![0xA2, 6, 1, 2, 0, 2, b'a', b'b']);
}

#[test]
fn fifth_concurrent_subscribe_must_wait() {
    let mut s = SubQueue::new();
    for pid in 1..=MAX_CONCURRENT_REQUESTS as u16 {
        assert_eq!(s.push_subscribe(topic("x"), pid, UniqueID::new(pid as u64), QoS::AtMostOnce), Ok(()));
    }
    assert_eq!(s.push_subscribe(topic("x"), 9, UniqueID::new(9), QoS::AtMostOnce), Err(QueueFull));
    assert_eq!(s.len(), 4);
    let mut buf = TxBuffer::new(256);
    s.process(&mut buf, 0).unwrap();
    s.process_suback(1, &vec![SubscribeReturnCode::Success(QoS::AtMostOnce)]);
    assert_eq!(s.push_subscribe(topic("x"), 9, UniqueID::new(9), QoS::AtMostOnce), Ok(()));
}

#[test]
fn resubscribe_after_timeout_keeps_first_time() {
    assert!(!RequestState::AwaitAck(1000).should_publish(6000));
    assert!(RequestState::AwaitAck(1000).should_publish(6001));
    assert!(RequestState::Initial.should_publish(0));
    assert!(!RequestState::Done.should_publish(u64::MAX));
    assert!(!RequestState::AwaitAck(10).should_publish(5));
    let mut s = SubQueue::new();
    s.push_subscribe(topic("a"), 1, UniqueID::new(1), QoS::AtLeastOnce).unwrap();
    let mut buf = TxBuffer::new(64);
    s.process(&mut buf, 1000).unwrap();
    buf.clear();
    s.process(&mut buf, 3000).unwrap();
    assert!(buf.bytes().is_empty());
    s.process(&mut buf, 7000).unwrap();
    assert_eq!(buf.bytes().len(), 8);
    assert_eq!(s.requests[0].state, RequestState::AwaitAck(1000));
}

#[test]
fn auto_subscribe_initial_done_aggregation() {
    let mut s = SubQueue::new();
    let mut ids = IdSource::new();
    let autos = vec![
        AutoSubscribe { topic: topic("one"), qos: QoS::AtLeastOnce },
        AutoSubscribe { topic: topic("two"), qos: QoS::AtLeastOnce },
    ];
    s.add_auto_subscribes(autos, &vec![1, 2], &mut ids);
    assert_eq!(s.len(), 2);
    assert!(s.requests.iter().all(|r| r.initial));
    let mut buf = TxBuffer::new(256);
    s.process(&mut buf, 0).unwrap();
    let first = s.process_suback(1, &vec![SubscribeReturnCode::Success(QoS::AtLeastOnce)]);
    assert_eq!(first, vec![MqttEvent::SubscribeResult(UniqueID::new(0), Ok(QoS::AtLeastOnce))]);
    let second = s.process_suback(2, &vec![SubscribeReturnCode::Success(QoS::AtLeastOnce)]);
    assert_eq!(
        second,
        vec![
            MqttEvent::InitialSubscribesDone,
            MqttEvent::SubscribeResult(UniqueID::new(1), Ok(QoS::AtLeastOnce)),
        ]
    );
    let id = ids.next_id();
    s.push_subscribe(topic("three"), 3, id, QoS::AtLeastOnce).unwrap();
    s.process(&mut buf, 0).unwrap();
    let third = s.process_suback(3, &vec![SubscribeReturnCode::Success(QoS::AtLeastOnce)]);
    assert_eq!(third, vec![MqttEvent::SubscribeResult(id, Ok(QoS::AtLeastOnce))]);
}

#[test]
fn auto_subscribe_evicts_oldest() {
    let mut s = SubQueue::new();
    for pid in 1..=4u16 {
        s.push_subscribe(topic("old"), pid, UniqueID::new(100 + pid as u64), QoS::AtMostOnce).unwrap();
    }
    let mut ids = IdSource::new();
    let autos = vec![
        AutoSubscribe { topic: topic("n1"), qos: QoS::ExactlyOnce },
        AutoSubscribe { topic: topic("n2"), qos: QoS::ExactlyOnce },
    ];
    s.add_auto_subscribes(autos, &vec![10, 11], &mut ids);
    let pids: Vec<u16> = s.requests.iter().map(|r| r.pid).collect();
    assert_eq!(pids, vec![3, 4, 10, 11]);
    assert_eq!(s.initial_subscriptions_pending, vec![(10, false), (11, false)]);
    assert_eq!(ids.next, 2);
}

#[test]
fn initial_suback_failure_does_not_finish() {
    let mut s = SubQueue::new();
    let mut ids = IdSource::new();
    s.add_auto_subscribes(vec![AutoSubscribe { topic: topic("a"), qos: QoS::AtLeastOnce }], &vec![1], &mut ids);
    let mut buf = TxBuffer::new(64);
    s.process(&mut buf, 0).unwrap();
    let ev = s.process_suback(1, &vec![SubscribeReturnCode::Failure]);
    assert_eq!(ev, vec![MqttEvent::SubscribeResult(UniqueID::new(0), Err(MqttError::SubscribeOrUnsubscribeFailed))]);
    assert_eq!(s.initial_subscriptions_pending, vec![(1, false)]);
}

#[test]
fn on_initial_suback_unknown_pid_changes_nothing() {
    let mut tracker = vec![(1u16, false)];
    let mut events = Vec::new();
    SubQueue::on_initial_suback(&mut tracker, 5, &mut events);
    assert!(events.is_empty());
    assert_eq!(tracker, vec![(1, false)]);
    SubQueue::on_initial_suback(&mut tracker, 1, &mut events);
    assert_eq!(events, vec![MqttEvent::InitialSubscribesDone]);
}

#[test]
fn dispatch_routes_each_packet_kind() {
    let mut q = ReceivedPublishQueue::new();
    let mut s = SubQueue::new();
    let publish = InboundPacket::Publish {
        topic: "t".to_string(),
        payload: b"y".to_vec(),
        qospid: QosPid::ExactlyOnce(9),
        dup: false,
        retain: false,
    };
    let d = dispatch(&publish, &mut q, &mut s);
    assert_eq!(d.delivered, Some(MqttPublish::new("t", b"y", QoS::ExactlyOnce, false)));
    assert!(!d.retry && d.events.is_empty());
    let mut buf = TxBuffer::new(64);
    q.process(&mut buf, 1);
    let d = dispatch(&InboundPacket::Pubrel(9), &mut q, &mut s);
    assert!(d.delivered.is_none() && d.events.is_empty());
    assert_eq!(q.publishes[0].state, ReceiveState::SendPubcomp);

    s.push_unsubscribe(topic("u"), 4, UniqueID::new(8)).unwrap();
    s.process(&mut buf, 1).unwrap();
    let d = dispatch(&InboundPacket::Unsuback(4), &mut q, &mut s);
    assert_eq!(d.events, vec![MqttEvent::UnsubscribeResult(UniqueID::new(8), Ok(()))]);
    let d = dispatch(&InboundPacket::Suback(4, vec![SubscribeReturnCode::Failure]), &mut q, &mut s);
    assert!(d.events.is_empty());
    let d = dispatch(&InboundPacket::Other, &mut q, &mut s);
    assert!(d.delivered.is_none() && d.events.is_empty() && !d.retry);
    assert_eq!(q.len(), 1);
}
