//! Plain data shared by the engines: quality of service, identifiers,
//! topics, messages, errors and events.

use vstd::prelude::*;
use vstd::slice::slice_to_vec;
use vstd::string::StringSliceAdditionalSpecFns;
use vstd::utf8::valid_utf8;

verus! {

broadcast use vstd::utf8::encode_utf8_valid_utf8;

/// Largest topic, in bytes.
pub const MAX_TOPIC_SIZE: usize = 64;

/// Largest message payload, in bytes.
pub const MQTT_PAYLOAD_MAX_SIZE: usize = 64;

/// Delivery guarantee of a message.
#[derive(Clone, Copy, Debug, PartialEq, Eq, Structural)]
pub enum QoS {
    AtMostOnce,
    AtLeastOnce,
    ExactlyOnce,
}

impl QoS {
    /// The level as it is written on the wire.
    pub open spec fn spec_level(self) -> u8 {
        match self {
            QoS::AtMostOnce => 0,
            QoS::AtLeastOnce => 1,
            QoS::ExactlyOnce => 2,
        }
    }
}

/// Opaque handle that ties a request of the application to its result event.
#[derive(Clone, Copy, Debug, PartialEq, Eq, Structural)]
pub struct UniqueID(pub u64);

impl UniqueID {
    pub fn new(value: u64) -> (r: UniqueID)
        ensures
            r.0 == value,
    {
        UniqueID(value)
    }

    pub fn value(&self) -> (r: u64)
        ensures
            r == self.0,
    {
        self.0
    }
}

/// Hands out increasing identifiers, one per request.
#[derive(Debug)]
pub struct IdSource {
    pub next: u64,
}

impl IdSource {
    pub fn new() -> (r: IdSource)
        ensures
            r.next == 0,
    {
        IdSource { next: 0 }
    }

    pub fn next_id(&mut self) -> (r: UniqueID)
        requires
            old(self).next < u64::MAX,
        ensures
            r.0 == old(self).next,
            final(self).next == old(self).next + 1,
    {
        let r = UniqueID(self.next);
        self.next = self.next + 1;
        r
    }
}

#[derive(Clone, Copy, Debug, PartialEq, Eq, Structural)]
pub enum MqttError {
    ConnectionFailed,
    ConnackError,
    AuthenticationError,
    CodecError,
    ReceivedMessageTooLong,
    SubscribeOrUnsubscribeFailed,
    InternalError,
}

/// Login of the client at the broker.
#[derive(Debug)]
pub struct ClientCredentials {
    pub username: String,
    pub password: String,
}

/// What the client sends in CONNECT.
#[derive(Debug)]
pub struct ClientConfig {
    pub client_id: String,
    pub credentials: Option<ClientCredentials>,
}

/// What the engines report to the application.
#[derive(Clone, Copy, Debug, PartialEq, Eq)]
pub enum MqttEvent {
    Connected,
    InitialSubscribesDone,
    PublishResult(UniqueID, Result<(), MqttError>),
    SubscribeResult(UniqueID, Result<QoS, MqttError>),
    UnsubscribeResult(UniqueID, Result<(), MqttError>),
}

/// A topic: UTF-8 text of at most `MAX_TOPIC_SIZE` bytes.
#[derive(Clone, Debug, PartialEq, Eq)]
pub struct Topic {
    pub bytes: Vec<u8>,
}

impl Topic {
    pub open spec fn wf(&self) -> bool {
        &&& self.bytes@.len() <= MAX_TOPIC_SIZE
        &&& valid_utf8(self.bytes@)
    }

    /// The topic `s`, or `None` where it is longer than `MAX_TOPIC_SIZE` bytes.
    pub fn new(s: &str) -> (r: Option<Topic>)
        ensures
            r is None <==> s.spec_bytes().len() > MAX_TOPIC_SIZE,
            r matches Some(t) ==> t.wf() && t.bytes@ == s.spec_bytes(),
    {
        let b = s.as_bytes();
        if b.len() > MAX_TOPIC_SIZE {
            None
        } else {
            Some(Topic { bytes: slice_to_vec(b) })
        }
    }

    /// A second topic with the same bytes.
    pub fn copy(&self) -> (r: Topic)
        ensures
            r.bytes@ == self.bytes@,
    {
        Topic { bytes: slice_to_vec(self.bytes.as_slice()) }
    }

    pub fn len(&self) -> (r: usize)
        ensures
            r == self.bytes@.len(),
    {
        self.bytes.len()
    }
}

/// A message as the application sends or receives it.
#[derive(Clone, Debug, PartialEq, Eq)]
pub struct MqttPublish {
    pub topic: Topic,
    pub payload: Vec<u8>,
    pub qos: QoS,
    pub retain: bool,
}

/// The first `n` bytes of `b`, or all of `b` where it is shorter.
pub open spec fn truncated(b: Seq<u8>, n: nat) -> Seq<u8> {
    if b.len() <= n {
        b
    } else {
        b.subrange(0, n as int)
    }
}

fn copy_prefix(b: &[u8], n: usize) -> (r: Vec<u8>)
    ensures
        r@ == truncated(b@, n as nat),
{
    let end: usize = if b.len() <= n { b.len() } else { n };
    let mut r: Vec<u8> = Vec::new();
    let mut i: usize = 0;
    while i < end
        invariant
            end <= b.len(),
            end == b@.len() || end == n,
            end <= n,
            i <= end,
            r@ == b@.subrange(0, i as int),
        decreases end - i,
    {
        r.push(b[i]);
        i = i + 1;
        assert(r@ =~= b@.subrange(0, i as int));
    }
    assert(r@ =~= truncated(b@, n as nat));
    r
}

impl MqttPublish {
    pub open spec fn wf(&self) -> bool {
        &&& self.topic.wf()
        &&& self.payload@.len() <= MQTT_PAYLOAD_MAX_SIZE
    }

    /// A message to send; topic and payload must fit their bounds.
    pub fn new(topic: &str, payload: &[u8], qos: QoS, retain: bool) -> (r: MqttPublish)
        requires
            topic.spec_bytes().len() <= MAX_TOPIC_SIZE,
            payload@.len() <= MQTT_PAYLOAD_MAX_SIZE,
        ensures
            r.wf(),
            r.topic.bytes@ == topic.spec_bytes(),
            r.payload@ == payload@,
            r.qos == qos,
            r.retain == retain,
    {
        let t = Topic::new(topic);
        match t {
            Some(t) => MqttPublish { topic: t, payload: slice_to_vec(payload), qos, retain },
            None => {
                proof { assert(false); }
                MqttPublish { topic: Topic { bytes: Vec::new() }, payload: Vec::new(), qos, retain }
            },
        }
    }

    /// A message received from the broker: an overlong topic fails it, an
    /// overlong payload is cut to `MQTT_PAYLOAD_MAX_SIZE` bytes.
    pub fn try_from_parts(topic: &str, payload: &[u8], qos: QoS, retain: bool) -> (r: Result<
        MqttPublish,
        MqttError,
    >)
        ensures
            r is Err <==> topic.spec_bytes().len() > MAX_TOPIC_SIZE,
            r matches Err(e) ==> e == MqttError::ReceivedMessageTooLong,
            r matches Ok(p) ==> {
                &&& p.wf()
                &&& p.topic.bytes@ == topic.spec_bytes()
                &&& p.payload@ == truncated(payload@, MQTT_PAYLOAD_MAX_SIZE as nat)
                &&& p.qos == qos
                &&& p.retain == retain
            },
    {
        match Topic::new(topic) {
            None => Err(MqttError::ReceivedMessageTooLong),
            Some(t) => Ok(
                MqttPublish {
                    topic: t,
                    payload: copy_prefix(payload, MQTT_PAYLOAD_MAX_SIZE),
                    qos,
                    retain,
                },
            ),
        }
    }
}

} // verus!
