//! Framing of the packets that the engines send, into a transmit buffer of
//! fixed capacity.

use vstd::prelude::*;
use crate::types::{QoS, Topic};

verus! {

/// A packet that the engines write.
#[derive(Clone, Debug, PartialEq, Eq)]
pub enum OutPacket {
    Puback(u16),
    Pubrec(u16),
    Pubcomp(u16),
    Subscribe(u16, Topic, QoS),
    Unsubscribe(u16, Topic),
}

impl OutPacket {
    pub open spec fn wf(&self) -> bool {
        match self {
            OutPacket::Puback(pid) => *pid != 0,
            OutPacket::Pubrec(pid) => *pid != 0,
            OutPacket::Pubcomp(pid) => *pid != 0,
            OutPacket::Subscribe(pid, t, _) => *pid != 0 && t.wf(),
            OutPacket::Unsubscribe(pid, t) => *pid != 0 && t.wf(),
        }
    }
}

/// A packet identifier in network byte order.
pub open spec fn pid_bytes(pid: u16) -> Seq<u8> {
    seq![(pid / 256) as u8, (pid % 256) as u8]
}

/// The four bytes of an acknowledgement that carries only a packet identifier.
pub open spec fn ack_bytes(header: u8, pid: u16) -> Seq<u8> {
    seq![header, 2u8] + pid_bytes(pid)
}

/// A topic with its two-byte length prefix.
pub open spec fn topic_field(t: Seq<u8>) -> Seq<u8> {
    seq![0u8, t.len() as u8] + t
}

/// The MQTT 3.1.1 encoding of a packet. A topic of at most 64 bytes keeps
/// the remaining length under 128, so it takes one byte.
pub open spec fn packet_bytes(p: OutPacket) -> Seq<u8> {
    match p {
        OutPacket::Puback(pid) => ack_bytes(0x40, pid),
        OutPacket::Pubrec(pid) => ack_bytes(0x50, pid),
        OutPacket::Pubcomp(pid) => ack_bytes(0x70, pid),
        OutPacket::Subscribe(pid, t, q) => seq![0x82u8, (t.bytes@.len() + 5) as u8] + pid_bytes(pid)
            + topic_field(t.bytes@) + seq![q.spec_level()],
        OutPacket::Unsubscribe(pid, t) => seq![0xA2u8, (t.bytes@.len() + 4) as u8] + pid_bytes(pid)
            + topic_field(t.bytes@),
    }
}

/// Why the encoder did not produce a packet.
#[derive(Clone, Copy, Debug, PartialEq, Eq, Structural)]
pub enum EncodeFailure {
    NoSpace,
    Codec,
}

/// Why a packet was not written.
#[derive(Clone, Copy, Debug, PartialEq, Eq, Structural)]
pub enum WritePacketError {
    NotEnoughSpace,
    CodecError,
}

/// The result of an encoder call on `at..` of a buffer whose first `at`
/// bytes stay as they were.
pub open spec fn encoded_into(
    p: OutPacket,
    before: Seq<u8>,
    after: Seq<u8>,
    at: usize,
    r: Result<usize, EncodeFailure>,
) -> bool {
    &&& after.len() == before.len()
    &&& after.subrange(0, at as int) == before.subrange(0, at as int)
    &&& (r is Ok <==> packet_bytes(p).len() <= before.len() - at)
    &&& (r matches Ok(n) ==> n == packet_bytes(p).len() && after.subrange(at as int, at + n)
        == packet_bytes(p))
    &&& (r matches Err(e) ==> e == EncodeFailure::NoSpace)
}

/// Relies on mqttrs::encode_slice for PUBACK, PUBREC and PUBCOMP: it writes
/// header, length 2 and the identifier, or fails with WriteZero when fewer
/// than four bytes are left.
#[verifier::external_body]
fn encode_ack(header: u8, pid: u16, buf: &mut Vec<u8>, at: usize) -> (r: Result<usize, EncodeFailure>)
    requires
        header == 0x40 || header == 0x50 || header == 0x70,
        pid != 0,
        at <= old(buf)@.len(),
    ensures
        encoded_into(
            if header == 0x40 {
                OutPacket::Puback(pid)
            } else if header == 0x50 {
                OutPacket::Pubrec(pid)
            } else {
                OutPacket::Pubcomp(pid)
            },
            old(buf)@,
            final(buf)@,
            at,
            r,
        ),
{
    let pid = mqttrs::Pid::try_from(pid).unwrap();
    let packet = match header {
        0x40 => mqttrs::Packet::Puback(pid),
        0x50 => mqttrs::Packet::Pubrec(pid),
        _ => mqttrs::Packet::Pubcomp(pid),
    };
    match mqttrs::encode_slice(&packet, &mut buf[at..]) {
        Ok(n) => Ok(n),
        Err(mqttrs::Error::WriteZero) => Err(EncodeFailure::NoSpace),
        Err(_) => Err(EncodeFailure::Codec),
    }
}

/// Relies on mqttrs::encode_slice for a SUBSCRIBE of one topic: header
/// 0x82, remaining length, identifier, length-prefixed topic and QoS byte,
/// or WriteZero when the packet does not fit.
#[verifier::external_body]
fn encode_subscribe(pid: u16, topic: &Topic, qos: QoS, buf: &mut Vec<u8>, at: usize) -> (r: Result<usize, EncodeFailure>)
    requires
        pid != 0,
        topic.wf(),
        at <= old(buf)@.len(),
    ensures
        encoded_into(OutPacket::Subscribe(pid, *topic, qos), old(buf)@, final(buf)@, at, r),
{
    let topic_path = heapless::String::from(core::str::from_utf8(&topic.bytes).unwrap());
    let qos = match qos {
        QoS::AtMostOnce => mqttrs::QoS::AtMostOnce,
        QoS::AtLeastOnce => mqttrs::QoS::AtLeastOnce,
        QoS::ExactlyOnce => mqttrs::QoS::ExactlyOnce,
    };
    let topics = heapless::Vec::from_slice(&[mqttrs::SubscribeTopic { topic_path, qos }]).unwrap();
    let packet = mqttrs::Packet::Subscribe(mqttrs::Subscribe::new(mqttrs::Pid::try_from(pid).unwrap(), topics));
    match mqttrs::encode_slice(&packet, &mut buf[at..]) {
        Ok(n) => Ok(n),
        Err(mqttrs::Error::WriteZero) => Err(EncodeFailure::NoSpace),
        Err(_) => Err(EncodeFailure::Codec),
    }
}

/// Relies on mqttrs::encode_slice for an UNSUBSCRIBE of one topic: header
/// 0xA2, remaining length, identifier and length-prefixed topic, or
/// WriteZero when the packet does not fit.
#[verifier::external_body]
fn encode_unsubscribe(pid: u16, topic: &Topic, buf: &mut Vec<u8>, at: usize) -> (r: Result<usize, EncodeFailure>)
    requires
        pid != 0,
        topic.wf(),
        at <= old(buf)@.len(),
    ensures
        encoded_into(OutPacket::Unsubscribe(pid, *topic), old(buf)@, final(buf)@, at, r),
{
    let topic_path = heapless::String::from(core::str::from_utf8(&topic.bytes).unwrap());
    let topics = heapless::Vec::from_slice(&[topic_path]).unwrap();
    let packet = mqttrs::Packet::Unsubscribe(mqttrs::Unsubscribe::new(mqttrs::Pid::try_from(pid).unwrap(), topics));
    match mqttrs::encode_slice(&packet, &mut buf[at..]) {
        Ok(n) => Ok(n),
        Err(mqttrs::Error::WriteZero) => Err(EncodeFailure::NoSpace),
        Err(_) => Err(EncodeFailure::Codec),
    }
}

/// Append-only transmit buffer of fixed capacity. The first `len` bytes of
/// `data` are the written packets.
#[derive(Debug)]
pub struct TxBuffer {
    pub data: Vec<u8>,
    pub len: usize,
}

impl TxBuffer {
    pub open spec fn wf(&self) -> bool {
        self.len <= self.data@.len()
    }

    /// The bytes written so far.
    pub open spec fn written(&self) -> Seq<u8> {
        self.data@.subrange(0, self.len as int)
    }

    pub open spec fn capacity(&self) -> nat {
        self.data@.len()
    }

    pub open spec fn room(&self) -> int {
        self.data@.len() - self.len
    }

    /// An empty buffer that holds up to `capacity` bytes.
    pub fn new(capacity: usize) -> (r: TxBuffer)
        ensures
            r.wf(),
            r.written() == Seq::<u8>::empty(),
            r.capacity() == capacity,
    {
        let mut data: Vec<u8> = Vec::new();
        let mut i: usize = 0;
        while i < capacity
            invariant
                i <= capacity,
                data@.len() == i,
            decreases capacity - i,
        {
            data.push(0u8);
            i = i + 1;
        }
        let r = TxBuffer { data, len: 0 };
        assert(r.written() =~= Seq::<u8>::empty());
        r
    }

    pub fn remaining_capacity(&self) -> (r: usize)
        requires
            self.wf(),
        ensures
            r == self.room(),
    {
        self.data.len() - self.len
    }

    /// A copy of the bytes written so far.
    pub fn bytes(&self) -> (r: Vec<u8>)
        requires
            self.wf(),
        ensures
            r@ == self.written(),
    {
        let mut r: Vec<u8> = Vec::new();
        let mut i: usize = 0;
        while i < self.len
            invariant
                self.wf(),
                i <= self.len,
                r@ == self.data@.subrange(0, i as int),
            decreases self.len - i,
        {
            r.push(self.data[i]);
            i = i + 1;
            assert(r@ =~= self.data@.subrange(0, i as int));
        }
        r
    }

    /// Forgets what was written, as after the bytes went out.
    pub fn clear(&mut self)
        ensures
            final(self).wf(),
            final(self).written() == Seq::<u8>::empty(),
            final(self).capacity() == old(self).capacity(),
    {
        self.len = 0;
        assert(self.written() =~= Seq::<u8>::empty());
    }
}

/// The buffer after writing `p`: the packet is appended where it fits, and
/// nothing changes where it does not.
pub open spec fn after_write(buf: Seq<u8>, room: int, p: OutPacket) -> Seq<u8> {
    if packet_bytes(p).len() <= room {
        buf + packet_bytes(p)
    } else {
        buf
    }
}

/// Writes `p` at the end of `buf`, or leaves `buf` as it was and reports
/// `NotEnoughSpace` where the packet does not fit.
pub fn write_packet(buf: &mut TxBuffer, p: &OutPacket) -> (r: Result<(), WritePacketError>)
    requires
        old(buf).wf(),
        p.wf(),
    ensures
        final(buf).wf(),
        final(buf).capacity() == old(buf).capacity(),
        r is Ok <==> packet_bytes(*p).len() <= old(buf).room(),
        r matches Err(e) ==> e == WritePacketError::NotEnoughSpace,
        final(buf).written() == after_write(old(buf).written(), old(buf).room(), *p),
{
    let at = buf.len;
    let ghost before = buf.data@;
    let res = match p {
        OutPacket::Puback(pid) => encode_ack(0x40, *pid, &mut buf.data, at),
        OutPacket::Pubrec(pid) => encode_ack(0x50, *pid, &mut buf.data, at),
        OutPacket::Pubcomp(pid) => encode_ack(0x70, *pid, &mut buf.data, at),
        OutPacket::Subscribe(pid, t, q) => encode_subscribe(*pid, t, *q, &mut buf.data, at),
        OutPacket::Unsubscribe(pid, t) => encode_unsubscribe(*pid, t, &mut buf.data, at),
    };
    match res {
        Ok(n) => {
            assert(encoded_into(*p, before, buf.data@, at, res));
            let total = buf.data.len();
            assert(n <= total - at);
            buf.len = at + n;
            assert(buf.written() =~= old(buf).written() + packet_bytes(*p)) by {
                assert(buf.data@.subrange(0, at as int) == old(buf).written());
            }
            Ok(())
        },
        Err(EncodeFailure::NoSpace) => {
            assert(buf.written() =~= old(buf).written());
            Err(WritePacketError::NotEnoughSpace)
        },
        Err(EncodeFailure::Codec) => Err(WritePacketError::CodecError),
    }
}

} // verus!
