//! Routing of decoded inbound packets: PUBLISH and PUBREL go to the
//! received-publish engine, SUBACK and UNSUBACK to the subscription engine.

use vstd::prelude::*;
use vstd::utf8::encode_utf8;
use crate::receives::{QosPid, QueueFull, ReceivedPublishQueue, publish_outcome, pubrel_outcome};
use crate::sub::{SubQueue, SubscribeReturnCode, suback_outcome, unsuback_outcome};
use crate::types::{MqttEvent, MqttPublish};

verus! {

/// An inbound packet, decoded, as plain values.
#[derive(Debug)]
pub enum InboundPacket {
    Publish { topic: String, payload: Vec<u8>, qospid: QosPid, dup: bool, retain: bool },
    Pubrel(u16),
    Suback(u16, Vec<SubscribeReturnCode>),
    Unsuback(u16),
    /// Any packet the engines take no part in.
    Other,
}

impl InboundPacket {
    pub open spec fn wf(&self) -> bool {
        match self {
            InboundPacket::Publish { qospid, .. } => qospid.spec_pid() != Some(0u16),
            _ => true,
        }
    }
}

/// What one inbound packet produced.
#[derive(Debug)]
pub struct Dispatched {
    /// The message for the application, if one is delivered.
    pub delivered: Option<MqttPublish>,
    /// Result events for the application.
    pub events: Vec<MqttEvent>,
    /// The inbound queue was full: offer the same packet again after a tick.
    pub retry: bool,
}

/// Hands `packet` to the engine it concerns; the other engine is left as it
/// was.
pub fn dispatch(packet: &InboundPacket, publishes: &mut ReceivedPublishQueue, subs: &mut SubQueue) -> (r: Dispatched)
    requires
        packet.wf(),
        old(publishes).wf(),
        old(subs).wf(),
    ensures
        final(publishes).wf(),
        final(subs).wf(),
        match packet {
            InboundPacket::Publish { topic, payload, qospid, dup, retain } => {
                let res = if r.retry {
                    Err::<Option<MqttPublish>, QueueFull>(QueueFull)
                } else {
                    Ok(r.delivered)
                };
                &&& publish_outcome(old(publishes)@, final(publishes)@, encode_utf8(topic@), payload@, *qospid, *dup, *retain, res)
                &&& r.events@ == Seq::<MqttEvent>::empty()
                &&& final(subs)@ == old(subs)@ && final(subs).tracker() == old(subs).tracker()
            },
            InboundPacket::Pubrel(pid) => {
                &&& pubrel_outcome(old(publishes)@, final(publishes)@, *pid)
                &&& r.delivered is None && !r.retry && r.events@ == Seq::<MqttEvent>::empty()
                &&& final(subs)@ == old(subs)@ && final(subs).tracker() == old(subs).tracker()
            },
            InboundPacket::Suback(pid, codes) => {
                &&& suback_outcome(old(subs)@, old(subs).tracker(), final(subs)@, final(subs).tracker(), *pid, codes@, r.events@)
                &&& r.delivered is None && !r.retry
                &&& final(publishes)@ == old(publishes)@
            },
            InboundPacket::Unsuback(pid) => {
                &&& unsuback_outcome(old(subs)@, final(subs)@, *pid, if r.events@.len() == 1 { Some(r.events@[0]) } else { None })
                &&& r.events@.len() <= 1
                &&& r.delivered is None && !r.retry
                &&& final(publishes)@ == old(publishes)@ && final(subs).tracker() == old(subs).tracker()
            },
            InboundPacket::Other => {
                &&& r.delivered is None && !r.retry && r.events@ == Seq::<MqttEvent>::empty()
                &&& final(publishes)@ == old(publishes)@
                &&& final(subs)@ == old(subs)@ && final(subs).tracker() == old(subs).tracker()
            },
        },
{
    match packet {
        InboundPacket::Publish { topic, payload, qospid, dup, retain } => {
            let t = topic.as_str();
            match publishes.process_publish(t, payload.as_slice(), *qospid, *dup, *retain) {
                Ok(m) => Dispatched { delivered: m, events: Vec::new(), retry: false },
                Err(_) => Dispatched { delivered: None, events: Vec::new(), retry: true },
            }
        },
        InboundPacket::Pubrel(pid) => {
            publishes.process_pubrel(*pid);
            Dispatched { delivered: None, events: Vec::new(), retry: false }
        },
        InboundPacket::Suback(pid, codes) => {
            let events = subs.process_suback(*pid, codes);
            Dispatched { delivered: None, events, retry: false }
        },
        InboundPacket::Unsuback(pid) => {
            let mut events: Vec<MqttEvent> = Vec::new();
            match subs.process_unsuback(*pid) {
                Some(e) => events.push(e),
                None => {},
            }
            Dispatched { delivered: None, events, retry: false }
        },
        InboundPacket::Other => Dispatched { delivered: None, events: Vec::new(), retry: false },
    }
}

} // verus!
