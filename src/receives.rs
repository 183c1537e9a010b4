//! Receiver side of inbound PUBLISH exchanges: which acknowledgement each
//! message owes, and suppression of duplicate deliveries.

use vstd::prelude::*;
use vstd::string::StringSliceAdditionalSpecFns;
use crate::codec::{OutPacket, TxBuffer, WritePacketError, after_write, packet_bytes, write_packet};
use crate::types::{MAX_TOPIC_SIZE, MqttError, MqttPublish, QoS, truncated};

verus! {

/// Most inbound exchanges tracked at once.
pub const MAX_CONCURRENT_PUBLISHES: usize = 8;

/// QoS of an inbound message, with its packet identifier where it has one.
#[derive(Clone, Copy, Debug, PartialEq, Eq, Structural)]
pub enum QosPid {
    AtMostOnce,
    AtLeastOnce(u16),
    ExactlyOnce(u16),
}

impl QosPid {
    pub open spec fn spec_pid(self) -> Option<u16> {
        match self {
            QosPid::AtMostOnce => None,
            QosPid::AtLeastOnce(p) => Some(p),
            QosPid::ExactlyOnce(p) => Some(p),
        }
    }

    pub open spec fn spec_qos(self) -> QoS {
        match self {
            QosPid::AtMostOnce => QoS::AtMostOnce,
            QosPid::AtLeastOnce(_) => QoS::AtLeastOnce,
            QosPid::ExactlyOnce(_) => QoS::ExactlyOnce,
        }
    }

    pub fn pid(&self) -> (r: Option<u16>)
        ensures
            r == self.spec_pid(),
    {
        match self {
            QosPid::AtMostOnce => None,
            QosPid::AtLeastOnce(p) => Some(*p),
            QosPid::ExactlyOnce(p) => Some(*p),
        }
    }

    pub fn qos(&self) -> (r: QoS)
        ensures
            r == self.spec_qos(),
    {
        match self {
            QosPid::AtMostOnce => QoS::AtMostOnce,
            QosPid::AtLeastOnce(_) => QoS::AtLeastOnce,
            QosPid::ExactlyOnce(_) => QoS::ExactlyOnce,
        }
    }
}

/// Where an inbound exchange stands.
#[derive(Clone, Copy, Debug, PartialEq, Eq, Structural)]
pub enum ReceiveState {
    /// Nothing answered yet.
    Initial,
    /// PUBREC sent at the given time; waiting for PUBREL.
    AwaitPubrel(u64),
    /// PUBREL seen; PUBCOMP still to send.
    SendPubcomp,
    /// Finished; removed at the next sweep.
    Done,
}

/// One inbound exchange.
#[derive(Clone, Copy, Debug, PartialEq, Eq, Structural)]
pub struct ReceivedPublish {
    pub qospid: QosPid,
    pub state: ReceiveState,
}

/// The acknowledgement that a tick owes for `p`, if any.
pub open spec fn owed_packet(p: ReceivedPublish) -> Option<OutPacket> {
    match (p.state, p.qospid) {
        (ReceiveState::Initial, QosPid::AtLeastOnce(pid)) => Some(OutPacket::Puback(pid)),
        (ReceiveState::Initial, QosPid::ExactlyOnce(pid)) => Some(OutPacket::Pubrec(pid)),
        (ReceiveState::SendPubcomp, QosPid::ExactlyOnce(pid)) => Some(OutPacket::Pubcomp(pid)),
        _ => None,
    }
}

/// The state once the owed packet (if any) was written at time `now`.
pub open spec fn state_after_send(p: ReceivedPublish, now: u64) -> ReceiveState {
    match (p.state, p.qospid) {
        (ReceiveState::Initial, QosPid::ExactlyOnce(_)) => ReceiveState::AwaitPubrel(now),
        (ReceiveState::Initial, _) => ReceiveState::Done,
        (ReceiveState::SendPubcomp, _) => ReceiveState::Done,
        (s, _) => s,
    }
}

/// One tick on `p` against written bytes `out` with `room` bytes free: the
/// record afterwards and the bytes written afterwards. A packet that does
/// not fit leaves the state as it was, for the next tick to retry.
pub open spec fn tick_one(p: ReceivedPublish, now: u64, out: Seq<u8>, room: int) -> (ReceivedPublish, Seq<u8>) {
    match owed_packet(p) {
        None => (ReceivedPublish { state: state_after_send(p, now), ..p }, out),
        Some(pk) => if packet_bytes(pk).len() <= room {
            (ReceivedPublish { state: state_after_send(p, now), ..p }, out + packet_bytes(pk))
        } else {
            (p, out)
        },
    }
}

/// A tick over `s` in slot order, starting from written bytes `out` in a
/// buffer of `cap` bytes.
pub open spec fn tick_all(s: Seq<ReceivedPublish>, now: u64, out: Seq<u8>, cap: nat) -> (Seq<ReceivedPublish>, Seq<u8>)
    decreases s.len(),
{
    if s.len() == 0 {
        (s, out)
    } else {
        let (ps, o) = tick_all(s.drop_last(), now, out, cap);
        let (p, o2) = tick_one(s.last(), now, o, cap - o.len());
        (ps.push(p), o2)
    }
}

/// `s` without its finished records, in order.
pub open spec fn sweep(s: Seq<ReceivedPublish>) -> Seq<ReceivedPublish>
    decreases s.len(),
{
    if s.len() == 0 {
        s
    } else if s.last().state == ReceiveState::Done {
        sweep(s.drop_last())
    } else {
        sweep(s.drop_last()).push(s.last())
    }
}

impl ReceivedPublish {
    pub open spec fn wf(&self) -> bool {
        &&& (self.state is AwaitPubrel || self.state is SendPubcomp) ==> self.qospid is ExactlyOnce
        &&& self.qospid.spec_pid() != Some(0u16)
    }

    pub fn new(qospid: QosPid) -> (r: ReceivedPublish)
        ensures
            r.qospid == qospid,
            r.state == ReceiveState::Initial,
    {
        ReceivedPublish { qospid, state: ReceiveState::Initial }
    }

    /// Writes the acknowledgement this exchange owes, if it fits, and moves
    /// the state on.
    pub fn send_and_update(&mut self, send_buffer: &mut TxBuffer, now: u64)
        requires
            old(self).wf(),
            old(send_buffer).wf(),
        ensures
            final(self).wf(),
            final(send_buffer).wf(),
            final(send_buffer).capacity() == old(send_buffer).capacity(),
            (*final(self), final(send_buffer).written()) == tick_one(
                *old(self),
                now,
                old(send_buffer).written(),
                old(send_buffer).room(),
            ),
    {
        match self.state {
            ReceiveState::Initial => self.send_initial_state(send_buffer, now),
            ReceiveState::AwaitPubrel(_) => {},
            ReceiveState::SendPubcomp => {
                match self.qospid {
                    QosPid::ExactlyOnce(pid) => self.send_pubcomp(pid, send_buffer),
                    _ => {},
                }
            },
            ReceiveState::Done => {},
        }
    }

    fn send_pubcomp(&mut self, pid: u16, send_buffer: &mut TxBuffer)
        requires
            old(self).wf(),
            old(self).state == ReceiveState::SendPubcomp,
            old(self).qospid == QosPid::ExactlyOnce(pid),
            old(send_buffer).wf(),
        ensures
            final(self).wf(),
            final(send_buffer).wf(),
            final(send_buffer).capacity() == old(send_buffer).capacity(),
            (*final(self), final(send_buffer).written()) == tick_one(
                *old(self),
                0,
                old(send_buffer).written(),
                old(send_buffer).room(),
            ),
    {
        let result = write_packet(send_buffer, &OutPacket::Pubcomp(pid));
        match result {
            Ok(()) => {
                self.state = ReceiveState::Done;
            },
            Err(_) => {},
        }
    }

    fn send_initial_state(&mut self, send_buffer: &mut TxBuffer, now: u64)
        requires
            old(self).wf(),
            old(self).state == ReceiveState::Initial,
            old(send_buffer).wf(),
        ensures
            final(self).wf(),
            final(send_buffer).wf(),
            final(send_buffer).capacity() == old(send_buffer).capacity(),
            (*final(self), final(send_buffer).written()) == tick_one(
                *old(self),
                now,
                old(send_buffer).written(),
                old(send_buffer).room(),
            ),
    {
        match self.qospid {
            QosPid::AtMostOnce => {
                self.state = ReceiveState::Done;
            },
            QosPid::AtLeastOnce(pid) => self.send_puback(pid, send_buffer),
            QosPid::ExactlyOnce(pid) => self.send_pubrec(pid, send_buffer, now),
        }
    }

    fn send_puback(&mut self, pid: u16, send_buffer: &mut TxBuffer)
        requires
            old(self).wf(),
            old(self).state == ReceiveState::Initial,
            old(self).qospid == QosPid::AtLeastOnce(pid),
            old(send_buffer).wf(),
        ensures
            final(self).wf(),
            final(send_buffer).wf(),
            final(send_buffer).capacity() == old(send_buffer).capacity(),
            (*final(self), final(send_buffer).written()) == tick_one(
                *old(self),
                0,
                old(send_buffer).written(),
                old(send_buffer).room(),
            ),
    {
        let result = write_packet(send_buffer, &OutPacket::Puback(pid));
        match result {
            Ok(()) => {
                self.state = ReceiveState::Done;
            },
            Err(_) => {},
        }
    }

    fn send_pubrec(&mut self, pid: u16, send_buffer: &mut TxBuffer, now: u64)
        requires
            old(self).wf(),
            old(self).state == ReceiveState::Initial,
            old(self).qospid == QosPid::ExactlyOnce(pid),
            old(send_buffer).wf(),
        ensures
            final(self).wf(),
            final(send_buffer).wf(),
            final(send_buffer).capacity() == old(send_buffer).capacity(),
            (*final(self), final(send_buffer).written()) == tick_one(
                *old(self),
                now,
                old(send_buffer).written(),
                old(send_buffer).room(),
            ),
    {
        let result = write_packet(send_buffer, &OutPacket::Pubrec(pid));
        match result {
            Ok(()) => {
                self.state = ReceiveState::AwaitPubrel(now);
            },
            Err(_) => {},
        }
    }
}

/// The inbound queue is full; the message was not taken and can be offered
/// again once a tick has freed a slot.
#[derive(Clone, Copy, Debug, PartialEq, Eq, Structural)]
pub struct QueueFull;

/// `m` is the message received with these parts: topic as given, payload cut
/// to the payload bound.
pub open spec fn received_message(m: MqttPublish, topic: Seq<u8>, payload: Seq<u8>, qos: QoS, retain: bool) -> bool {
    &&& m.wf()
    &&& m.topic.bytes@ == topic
    &&& m.payload@ == truncated(payload, crate::types::MQTT_PAYLOAD_MAX_SIZE as nat)
    &&& m.qos == qos
    &&& m.retain == retain
}

/// Some record of `s` carries packet identifier `pid`.
pub open spec fn tracks_pid(s: Seq<ReceivedPublish>, pid: u16) -> bool {
    exists|i: int| 0 <= i < s.len() && #[trigger] s[i].qospid.spec_pid() == Some(pid)
}

/// No two records of `s` share a packet identifier.
pub open spec fn pids_unique(s: Seq<ReceivedPublish>) -> bool {
    forall|i: int, j: int|
        0 <= i < s.len() && 0 <= j < s.len() && i != j && (#[trigger] s[i]).qospid.spec_pid() is Some
            ==> s[i].qospid.spec_pid() != (#[trigger] s[j]).qospid.spec_pid()
}

/// The state of `p` once PUBREL for `pid` arrived.
pub open spec fn after_pubrel(p: ReceivedPublish, pid: u16) -> ReceivedPublish {
    if p.qospid.spec_pid() == Some(pid) && p.state is AwaitPubrel {
        ReceivedPublish { state: ReceiveState::SendPubcomp, ..p }
    } else {
        p
    }
}

/// What an inbound PUBLISH does to the records `before` (now `after`) and
/// what it returns. An overlong topic drops it. QoS 0 is delivered at once
/// and leaves no record. For QoS 1 and 2: a packet identifier that is already
/// tracked, or a retransmission (`dup`) of an unknown one, is a copy of a
/// message already delivered and is dropped without a change; otherwise a new
/// record starts and the message is delivered, or, with the queue full,
/// nothing happens and `QueueFull` asks for a retry.
pub open spec fn publish_outcome(
    before: Seq<ReceivedPublish>,
    after: Seq<ReceivedPublish>,
    topic: Seq<u8>,
    payload: Seq<u8>,
    qospid: QosPid,
    dup: bool,
    retain: bool,
    r: Result<Option<MqttPublish>, QueueFull>,
) -> bool {
    if topic.len() > MAX_TOPIC_SIZE {
        r == Ok::<Option<MqttPublish>, QueueFull>(None) && after == before
    } else {
        match qospid.spec_pid() {
            None => {
                &&& after == before
                &&& r matches Ok(Some(m))
                &&& received_message(m, topic, payload, qospid.spec_qos(), retain)
            },
            Some(pid) => if tracks_pid(before, pid) || dup {
                r == Ok::<Option<MqttPublish>, QueueFull>(None) && after == before
            } else if before.len() == MAX_CONCURRENT_PUBLISHES {
                r == Err::<Option<MqttPublish>, QueueFull>(QueueFull) && after == before
            } else {
                &&& after == before.push(ReceivedPublish { qospid, state: ReceiveState::Initial })
                &&& r matches Ok(Some(m))
                &&& received_message(m, topic, payload, qospid.spec_qos(), retain)
            },
        }
    }
}

/// PUBREL for `pid` moves the record that waits for it on, and no other.
pub open spec fn pubrel_outcome(before: Seq<ReceivedPublish>, after: Seq<ReceivedPublish>, pid: u16) -> bool {
    &&& after.len() == before.len()
    &&& forall|i: int| 0 <= i < before.len() ==> #[trigger] after[i] == after_pubrel(before[i], pid)
}

/// The inbound exchanges in progress, in arrival order.
#[derive(Debug)]
pub struct ReceivedPublishQueue {
    pub publishes: Vec<ReceivedPublish>,
}

impl ReceivedPublishQueue {
    pub open spec fn view(&self) -> Seq<ReceivedPublish> {
        self.publishes@
    }

    /// At most `MAX_CONCURRENT_PUBLISHES` records, each well formed and
    /// unfinished, with distinct packet identifiers.
    pub open spec fn wf(&self) -> bool {
        &&& self@.len() <= MAX_CONCURRENT_PUBLISHES
        &&& forall|i: int| 0 <= i < self@.len() ==> (#[trigger] self@[i]).wf() && self@[i].state != ReceiveState::Done
        &&& pids_unique(self@)
    }

    pub fn new() -> (r: ReceivedPublishQueue)
        ensures
            r.wf(),
            r@ == Seq::<ReceivedPublish>::empty(),
    {
        ReceivedPublishQueue { publishes: Vec::new() }
    }

    pub fn len(&self) -> (r: usize)
        ensures
            r == self@.len(),
    {
        self.publishes.len()
    }

    /// Answers every exchange that owes a packet, in slot order, then drops
    /// the finished ones.
    pub fn process(&mut self, send_buffer: &mut TxBuffer, now: u64)
        requires
            old(self).wf(),
            old(send_buffer).wf(),
        ensures
            final(self).wf(),
            final(send_buffer).wf(),
            final(send_buffer).capacity() == old(send_buffer).capacity(),
            ({
                let (t, o) = tick_all(old(self)@, now, old(send_buffer).written(), old(send_buffer).capacity());
                final(self)@ == sweep(t) && final(send_buffer).written() == o
            }),
    {
        let ghost orig = self.publishes@;
        let ghost cap = send_buffer.capacity();
        let n = self.publishes.len();
        let mut i: usize = 0;
        while i < n
            invariant
                n == orig.len(),
                n <= MAX_CONCURRENT_PUBLISHES,
                i <= n,
                self.publishes@.len() == n,
                send_buffer.wf(),
                send_buffer.capacity() == cap,
                cap == old(send_buffer).capacity(),
                orig == old(self)@,
                forall|k: int| 0 <= k < n ==> (#[trigger] orig[k]).wf() && orig[k].state != ReceiveState::Done,
                pids_unique(orig),
                forall|k: int| i <= k < n ==> self.publishes@[k] == orig[k],
                forall|k: int| 0 <= k < i ==> (#[trigger] self.publishes@[k]).wf() && self.publishes@[k].qospid == orig[k].qospid,
                ({
                    let (t, o) = tick_all(orig.subrange(0, i as int), now, old(send_buffer).written(), cap);
                    t == self.publishes@.subrange(0, i as int) && o == send_buffer.written()
                }),
            decreases n - i,
        {
            let mut p = self.publishes[i];
            proof {
                assert(orig.subrange(0, i + 1).drop_last() =~= orig.subrange(0, i as int));
                assert(send_buffer.written().len() == send_buffer.len);
            }
            p.send_and_update(send_buffer, now);
            self.publishes.set(i, p);
            i = i + 1;
            proof {
                let (t, o) = tick_all(orig.subrange(0, i - 1), now, old(send_buffer).written(), cap);
                assert(self.publishes@.subrange(0, i as int) =~= t.push(p));
            }
        }
        proof {
            assert(orig.subrange(0, n as int) =~= orig);
            assert(self.publishes@.subrange(0, n as int) =~= self.publishes@);
        }
        self.retain_live();
    }

    /// Drops the finished records, keeping the order of the others.
    fn retain_live(&mut self)
        requires
            old(self)@.len() <= MAX_CONCURRENT_PUBLISHES,
            forall|i: int| 0 <= i < old(self)@.len() ==> (#[trigger] old(self)@[i]).wf(),
            pids_unique(old(self)@),
        ensures
            final(self).wf(),
            final(self)@ == sweep(old(self)@),
    {
        let ghost cur = self.publishes@;
        let mut kept: Vec<ReceivedPublish> = Vec::new();
        let ghost mut idx: Seq<int> = Seq::empty();
        let n = self.publishes.len();
        let mut i: usize = 0;
        while i < n
            invariant
                n == cur.len(),
                cur == self.publishes@,
                n <= MAX_CONCURRENT_PUBLISHES,
                i <= n,
                forall|k: int| 0 <= k < n ==> (#[trigger] cur[k]).wf(),
                pids_unique(cur),
                kept@ == sweep(cur.subrange(0, i as int)),
                kept@.len() <= i,
                idx.len() == kept@.len(),
                forall|k: int| 0 <= k < kept@.len() ==> 0 <= #[trigger] idx[k] < i && kept@[k] == cur[idx[k]],
                forall|k: int, l: int| 0 <= k < l < kept@.len() ==> #[trigger] idx[k] < #[trigger] idx[l],
                forall|k: int| 0 <= k < kept@.len() ==> (#[trigger] kept@[k]).state != ReceiveState::Done,
            decreases n - i,
        {
            let p = self.publishes[i];
            proof {
                assert(cur.subrange(0, i + 1).drop_last() =~= cur.subrange(0, i as int));
                assert(cur.subrange(0, i + 1).last() == cur[i as int]);
            }
            if p.state != ReceiveState::Done {
                kept.push(p);
                proof {
                    idx = idx.push(i as int);
                }
            }
            i = i + 1;
        }
        proof {
            assert(cur.subrange(0, n as int) =~= cur);
            assert forall|a: int, b: int|
                0 <= a < kept@.len() && 0 <= b < kept@.len() && a != b && (#[trigger] kept@[a]).qospid.spec_pid() is Some
                implies kept@[a].qospid.spec_pid() != (#[trigger] kept@[b]).qospid.spec_pid() by {
                if a < b {
                    assert(idx[a] < idx[b]);
                } else {
                    assert(idx[b] < idx[a]);
                }
                assert(cur[idx[a]] == kept@[a]);
                assert(cur[idx[b]] == kept@[b]);
            }
            assert forall|k: int| 0 <= k < kept@.len() implies (#[trigger] kept@[k]).wf() by {
                assert(cur[idx[k]] == kept@[k]);
            }
        }
        self.publishes = kept;
    }

    /// Whether some exchange in progress carries `pid`.
    pub fn is_known_pid(&self, pid: u16) -> (r: bool)
        ensures
            r == tracks_pid(self@, pid),
    {
        let mut i: usize = 0;
        while i < self.publishes.len()
            invariant
                i <= self@.len(),
                forall|k: int| 0 <= k < i ==> (#[trigger] self@[k]).qospid.spec_pid() != Some(pid),
            decreases self@.len() - i,
        {
            if self.publishes[i].qospid.pid() == Some(pid) {
                return true;
            }
            i = i + 1;
        }
        false
    }

    /// PUBREL for `pid`: the exchange that waits for it now owes PUBCOMP.
    /// Any other record is left alone.
    pub fn process_pubrel(&mut self, pid: u16)
        requires
            old(self).wf(),
        ensures
            final(self).wf(),
            pubrel_outcome(old(self)@, final(self)@, pid),
    {
        let mut i: usize = 0;
        let n = self.publishes.len();
        while i < n
            invariant
                n == old(self)@.len(),
                i <= n,
                self.publishes@.len() == n,
                forall|k: int| i <= k < n ==> self.publishes@[k] == old(self)@[k],
                forall|k: int| 0 <= k < i ==> #[trigger] self.publishes@[k] == after_pubrel(old(self)@[k], pid),
            decreases n - i,
        {
            let p = self.publishes[i];
            if p.qospid.pid() == Some(pid) {
                match p.state {
                    ReceiveState::AwaitPubrel(_) => {
                        self.publishes.set(i, ReceivedPublish { state: ReceiveState::SendPubcomp, ..p });
                    },
                    _ => {},
                }
            }
            i = i + 1;
        }
        proof {
            assert forall|a: int, b: int|
                0 <= a < self@.len() && 0 <= b < self@.len() && a != b && (#[trigger] self@[a]).qospid.spec_pid() is Some
                implies self@[a].qospid.spec_pid() != (#[trigger] self@[b]).qospid.spec_pid() by {
                assert(self@[a].qospid == old(self)@[a].qospid);
                assert(self@[b].qospid == old(self)@[b].qospid);
            }
            assert forall|k: int| 0 <= k < self@.len() implies (#[trigger] self@[k]).wf() && self@[k].state != ReceiveState::Done by {
                assert(old(self)@[k].wf());
            }
        }
    }

    /// An inbound PUBLISH; see `publish_outcome`.
    pub fn process_publish(
        &mut self,
        topic: &str,
        payload: &[u8],
        qospid: QosPid,
        dup: bool,
        retain: bool,
    ) -> (r: Result<Option<MqttPublish>, QueueFull>)
        requires
            old(self).wf(),
            qospid.spec_pid() != Some(0u16),
        ensures
            final(self).wf(),
            publish_outcome(old(self)@, final(self)@, topic.spec_bytes(), payload@, qospid, dup, retain, r),
    {
        let p = match MqttPublish::try_from_parts(topic, payload, qospid.qos(), retain) {
            Ok(p) => p,
            Err(_) => {
                return Ok(None);
            },
        };
        match qospid.pid() {
            None => Ok(Some(p)),
            Some(pid) => {
                if self.is_known_pid(pid) || dup {
                    Ok(None)
                } else if self.publishes.len() == MAX_CONCURRENT_PUBLISHES {
                    Err(QueueFull)
                } else {
                    self.publishes.push(ReceivedPublish::new(qospid));
                    proof {
                        let s = self@;
                        assert forall|a: int, b: int|
                            0 <= a < s.len() && 0 <= b < s.len() && a != b && (#[trigger] s[a]).qospid.spec_pid() is Some
                            implies s[a].qospid.spec_pid() != (#[trigger] s[b]).qospid.spec_pid() by {
                            if a == s.len() - 1 {
                                assert(old(self)@[b] == s[b]);
                            } else if b == s.len() - 1 {
                                assert(old(self)@[a] == s[a]);
                            } else {
                                assert(old(self)@[a] == s[a]);
                                assert(old(self)@[b] == s[b]);
                            }
                        }
                    }
                    Ok(Some(p))
                }
            },
        }
    }
}

/// A sweep keeps only unfinished records, and never more than it was given.
pub proof fn sweep_drops_finished(s: Seq<ReceivedPublish>)
    ensures
        sweep(s).len() <= s.len(),
        forall|i: int| 0 <= i < sweep(s).len() ==> (#[trigger] sweep(s)[i]).state != ReceiveState::Done,
    decreases s.len(),
{
    if s.len() > 0 {
        sweep_drops_finished(s.drop_last());
    }
}

/// PUBCOMP is owed only by an exactly-once exchange that saw PUBREL, and
/// writing it finishes the exchange, so the sweep of the same tick removes
/// it: each accepted exchange writes PUBCOMP at most once.
pub proof fn pubcomp_finishes_exchange(p: ReceivedPublish, now: u64, out: Seq<u8>, room: int)
    requires
        p.wf(),
    ensures
        owed_packet(p) matches Some(OutPacket::Pubcomp(pid)) ==> p.state == ReceiveState::SendPubcomp
            && p.qospid == QosPid::ExactlyOnce(pid),
        owed_packet(p) matches Some(OutPacket::Pubcomp(_)) ==> tick_one(p, now, out, room).1 == out
            || tick_one(p, now, out, room).0.state == ReceiveState::Done,
        p.state is AwaitPubrel ==> tick_one(p, now, out, room) == (p, out),
{
}

} // verus!
