use mqtt_core::codec::{write_packet, OutPacket, TxBuffer};
use mqtt_core::types::{QoS, Topic};
use mqttrs::{decode_slice, Packet};

fn encode(p: &OutPacket) -> Vec<u8> {
    let mut buf = TxBuffer::new(128);
    write_packet(&mut buf, p).unwrap();
    buf.bytes()
}

#[test]
fn acknowledgements_decode_to_themselves() {
    let b = encode(&OutPacket::Puback(7));
    assert!(matches!(decode_slice(&b), Ok(Some(Packet::Puback(pid))) if pid.get() == 7));
    let b = encode(&OutPacket::Pubrec(300));
    assert!(matches!(decode_slice(&b), Ok(Some(Packet::Pubrec(pid))) if pid.get() == 300));
    let b = encode(&OutPacket::Pubcomp(65535));
    assert_eq!(b, vec![0x70, 2, 0xff, 0xff]);
    assert!(matches!(decode_slice(&b), Ok(Some(Packet::Pubcomp(pid))) if pid.get() == 65535));
}

#[test]
fn subscribe_decodes_to_itself() {
    let t = "sensors/+/temp";
    let b = encode(&OutPacket::Subscribe(42, Topic::new(t).unwrap(), QoS::ExactlyOnce));
    assert_eq!(b.len(), t.len() + 7);
    match decode_slice(&b) {
        Ok(Some(Packet::Subscribe(s))) => {
            assert_eq!(s.pid.get(), 42);
            assert_eq!(s.topics.len(), 1);
            assert_eq!(s.topics[0].topic_path.as_str(), t);
            assert_eq!(s.topics[0].qos, mqttrs::QoS::ExactlyOnce);
        }
        other => panic!("unexpected {:?}", other),
    }
}

#[test]
fn unsubscribe_decodes_to_itself() {
    let t = "a/b";
    let b = encode(&OutPacket::Unsubscribe(9, Topic::new(t).unwrap()));
    match decode_slice(&b) {
        Ok(Some(Packet::Unsubscribe(u))) => {
            assert_eq!(u.pid.get(), 9);
            assert_eq!(u.topics.len(), 1);
            assert_eq!(u.topics[0].as_str(), t);
        }
        other => panic!("unexpected {:?}", other),
    }
}

#[test]
fn longest_topic_still_fits_one_length_byte() {
    let t = "z".repeat(64);
    let b = encode(&OutPacket::Subscribe(1, Topic::new(&t).unwrap(), QoS::AtMostOnce));
    assert_eq!(b[1], 69);
    assert_eq!(b.len(), 71);
    assert!(matches!(decode_slice(&b), Ok(Some(Packet::Subscribe(_)))));
}
