//! SUBSCRIBE and UNSUBSCRIBE requests: (re)transmission, correlation of
//! SUBACK and UNSUBACK, automatic subscriptions at connect and the event
//! that reports them all acknowledged.

use vstd::prelude::*;
use crate::codec::{OutPacket, TxBuffer, WritePacketError, packet_bytes, write_packet};
use crate::receives::QueueFull;
use crate::types::{IdSource, MqttError, MqttEvent, QoS, Topic, UniqueID};

verus! {

/// Most subscription requests in flight at once.
pub const MAX_CONCURRENT_REQUESTS: usize = 4;

/// How long a request waits for its acknowledgement before it is sent
/// again, in milliseconds.
pub const RESUBSCRIBE_DURATION_MS: u64 = 5000;

#[derive(Clone, Copy, Debug, PartialEq, Eq, Structural)]
pub enum RequestType {
    Subscribe(QoS),
    Unsubscribe,
}

impl RequestType {
    pub fn is_subscribe(&self) -> (r: bool)
        ensures
            r == (*self is Subscribe),
    {
        match self {
            RequestType::Subscribe(_) => true,
            RequestType::Unsubscribe => false,
        }
    }
}

#[derive(Clone, Copy, Debug, PartialEq, Eq, Structural)]
pub enum RequestState {
    /// Not written yet.
    Initial,
    /// Written at the given time (milliseconds); waiting for the broker.
    AwaitAck(u64),
    Done,
}

impl RequestState {
    /// Whether a tick at `now` writes the request: it never was, or its
    /// acknowledgement is overdue.
    pub open spec fn spec_should_publish(self, now: u64) -> bool {
        match self {
            RequestState::Initial => true,
            RequestState::AwaitAck(t) => now as int - t as int > RESUBSCRIBE_DURATION_MS as int,
            RequestState::Done => false,
        }
    }

    pub fn should_publish(&self, now: u64) -> (r: bool)
        ensures
            r == self.spec_should_publish(now),
    {
        match self {
            RequestState::Initial => true,
            RequestState::AwaitAck(t) => now > *t && now - *t > RESUBSCRIBE_DURATION_MS,
            RequestState::Done => false,
        }
    }

    pub fn is_await_ack(&self) -> (r: bool)
        ensures
            r == (*self is AwaitAck),
    {
        match self {
            RequestState::AwaitAck(_) => true,
            _ => false,
        }
    }
}

/// One subscription request.
#[derive(Debug)]
pub struct Request {
    pub request_type: RequestType,
    pub topic: Topic,
    pub pid: u16,
    pub external_id: UniqueID,
    pub state: RequestState,
    /// Seeded at connect from the automatic subscriptions.
    pub initial: bool,
}

/// The packet that carries `r`.
pub open spec fn request_packet(r: Request) -> OutPacket {
    match r.request_type {
        RequestType::Subscribe(q) => OutPacket::Subscribe(r.pid, r.topic, q),
        RequestType::Unsubscribe => OutPacket::Unsubscribe(r.pid, r.topic),
    }
}

/// One tick at `now` on `r`, with written bytes `out` and `room` bytes free.
/// A first successful write starts the wait; a rewrite keeps the time of
/// the first one; a packet that does not fit changes nothing.
pub open spec fn request_tick(r: Request, now: u64, out: Seq<u8>, room: int) -> (Request, Seq<u8>) {
    let b = packet_bytes(request_packet(r));
    if r.state.spec_should_publish(now) && b.len() <= room {
        let s = if r.state is Initial { RequestState::AwaitAck(now) } else { r.state };
        (Request { state: s, ..r }, out + b)
    } else {
        (r, out)
    }
}

/// A tick over `s` in slot order, from written bytes `out` in a buffer of
/// `cap` bytes.
pub open spec fn requests_tick(s: Seq<Request>, now: u64, out: Seq<u8>, cap: nat) -> (Seq<Request>, Seq<u8>)
    decreases s.len(),
{
    if s.len() == 0 {
        (s, out)
    } else {
        let (rs, o) = requests_tick(s.drop_last(), now, out, cap);
        let (r, o2) = request_tick(s.last(), now, o, cap - o.len());
        (rs.push(r), o2)
    }
}

impl Request {
    pub open spec fn wf(&self) -> bool {
        &&& self.pid != 0
        &&& self.topic.wf()
        &&& self.state != RequestState::Done
        &&& self.request_type is Unsubscribe ==> !self.initial
    }

    pub fn subscribe(topic: Topic, pid: u16, external_id: UniqueID, qos: QoS, initial: bool) -> (r: Request)
        ensures
            r == (Request {
                request_type: RequestType::Subscribe(qos),
                topic,
                pid,
                external_id,
                state: RequestState::Initial,
                initial,
            }),
    {
        Request {
            request_type: RequestType::Subscribe(qos),
            topic,
            pid,
            external_id,
            state: RequestState::Initial,
            initial,
        }
    }

    pub fn unsubscribe(topic: Topic, pid: u16, external_id: UniqueID) -> (r: Request)
        ensures
            r == (Request {
                request_type: RequestType::Unsubscribe,
                topic,
                pid,
                external_id,
                state: RequestState::Initial,
                initial: false,
            }),
    {
        Request {
            request_type: RequestType::Unsubscribe,
            topic,
            pid,
            external_id,
            state: RequestState::Initial,
            initial: false,
        }
    }

    fn on_send_success(&mut self, now: u64)
        ensures
            *final(self) == (Request {
                state: if old(self).state is Initial { RequestState::AwaitAck(now) } else { old(self).state },
                ..*old(self)
            }),
    {
        match self.state {
            RequestState::Initial => {
                self.state = RequestState::AwaitAck(now);
            },
            _ => {},
        }
    }

    /// Writes the request's packet; a full buffer leaves it for a later tick.
    fn send(&mut self, send_buffer: &mut TxBuffer, now: u64) -> (r: Result<(), MqttError>)
        requires
            old(self).wf(),
            old(self).state.spec_should_publish(now),
            old(send_buffer).wf(),
        ensures
            r is Ok,
            final(self).wf(),
            final(send_buffer).wf(),
            final(send_buffer).capacity() == old(send_buffer).capacity(),
            (*final(self), final(send_buffer).written()) == request_tick(
                *old(self),
                now,
                old(send_buffer).written(),
                old(send_buffer).room(),
            ),
    {
        let packet = match self.request_type {
            RequestType::Subscribe(qos) => OutPacket::Subscribe(self.pid, self.topic.copy(), qos),
            RequestType::Unsubscribe => OutPacket::Unsubscribe(self.pid, self.topic.copy()),
        };
        assert(packet_bytes(packet) == packet_bytes(request_packet(*self)));
        let result = write_packet(send_buffer, &packet);
        match result {
            Ok(()) => {
                self.on_send_success(now);
                Ok(())
            },
            Err(WritePacketError::NotEnoughSpace) => Ok(()),
            Err(WritePacketError::CodecError) => Err(MqttError::CodecError),
        }
    }
}

/// First return code of a SUBACK.
#[derive(Clone, Copy, Debug, PartialEq, Eq, Structural)]
pub enum SubscribeReturnCode {
    Success(QoS),
    Failure,
}

/// An automatic subscription, made at every connect.
#[derive(Debug)]
pub struct AutoSubscribe {
    pub topic: Topic,
    pub qos: QoS,
}

/// Some request of `s` carries `pid`.
pub open spec fn has_pid(s: Seq<Request>, pid: u16) -> bool {
    exists|i: int| 0 <= i < s.len() && #[trigger] s[i].pid == pid
}

/// The slot of the request that carries `pid`.
pub open spec fn pid_slot(s: Seq<Request>, pid: u16) -> int {
    choose|i: int| 0 <= i < s.len() && #[trigger] s[i].pid == pid
}

/// No two requests of `s` share a packet identifier.
pub open spec fn request_pids_unique(s: Seq<Request>) -> bool {
    forall|i: int, j: int| 0 <= i < s.len() && 0 <= j < s.len() && i != j ==> (#[trigger] s[i]).pid != (#[trigger] s[j]).pid
}

/// Some entry of the tracker `t` has key `pid`.
pub open spec fn tracks(t: Seq<(u16, bool)>, pid: u16) -> bool {
    exists|i: int| 0 <= i < t.len() && #[trigger] t[i].0 == pid
}

/// No two entries of the tracker share a key.
pub open spec fn keys_unique(t: Seq<(u16, bool)>) -> bool {
    forall|i: int, j: int| 0 <= i < t.len() && 0 <= j < t.len() && i != j ==> (#[trigger] t[i]).0 != (#[trigger] t[j]).0
}

/// The tracker once the entry for `pid` is acknowledged.
pub open spec fn mark_acked(t: Seq<(u16, bool)>, pid: u16) -> Seq<(u16, bool)> {
    Seq::new(t.len(), |i: int| if t[i].0 == pid { (pid, true) } else { t[i] })
}

/// Every initial subscription is acknowledged.
pub open spec fn all_acked(t: Seq<(u16, bool)>) -> bool {
    forall|i: int| 0 <= i < t.len() ==> (#[trigger] t[i]).1
}

/// The code that counts for a SUBACK: its first, or `Failure` if it has none.
pub open spec fn first_code(codes: Seq<SubscribeReturnCode>) -> SubscribeReturnCode {
    if codes.len() > 0 {
        codes[0]
    } else {
        SubscribeReturnCode::Failure
    }
}

/// The last `n` elements of `s`, or all of them where there are fewer.
pub open spec fn keep_last<T>(s: Seq<T>, n: nat) -> Seq<T> {
    if s.len() <= n {
        s
    } else {
        s.subrange(s.len() - n, s.len() as int)
    }
}

/// The requests that seeding creates: one initial subscription per entry,
/// with the given packet identifiers and consecutive ids from `first_id`.
pub open spec fn seeded(autos: Seq<AutoSubscribe>, pids: Seq<u16>, first_id: u64) -> Seq<Request> {
    Seq::new(
        autos.len(),
        |k: int|
            Request {
                request_type: RequestType::Subscribe(autos[k].qos),
                topic: autos[k].topic,
                pid: pids[k],
                external_id: UniqueID((first_id + k) as u64),
                state: RequestState::Initial,
                initial: true,
            },
    )
}

/// Removing one request keeps the others well formed and their packet
/// identifiers distinct.
proof fn lemma_remove_keeps_wf(s: Seq<Request>, i: int)
    requires
        0 <= i < s.len(),
        forall|k: int| 0 <= k < s.len() ==> (#[trigger] s[k]).wf(),
        request_pids_unique(s),
    ensures
        forall|k: int| 0 <= k < s.remove(i).len() ==> (#[trigger] s.remove(i)[k]).wf(),
        request_pids_unique(s.remove(i)),
{
    let t = s.remove(i);
    assert forall|k: int| 0 <= k < t.len() implies (#[trigger] t[k]).wf() by {
        if k < i {
            assert(t[k] == s[k]);
        } else {
            assert(t[k] == s[k + 1]);
        }
    }
    assert forall|a: int, b: int| 0 <= a < t.len() && 0 <= b < t.len() && a != b implies (#[trigger] t[a]).pid != (#[trigger] t[b]).pid by {
        let a2 = if a < i { a } else { a + 1 };
        let b2 = if b < i { b } else { b + 1 };
        assert(t[a] == s[a2]);
        assert(t[b] == s[b2]);
    }
}

/// What SUBACK for `pid` with return codes `codes` does to the requests `s`
/// and the tracker `t` (now `s2` and `t2`), and the events `r` it reports.
/// Only a subscription that waits for its acknowledgement takes it: it leaves
/// the queue and its result is reported, after `InitialSubscribesDone` where
/// it was the last pending initial one. Anything else reports nothing and
/// changes nothing.
pub open spec fn suback_outcome(
    s: Seq<Request>,
    t: Seq<(u16, bool)>,
    s2: Seq<Request>,
    t2: Seq<(u16, bool)>,
    pid: u16,
    codes: Seq<SubscribeReturnCode>,
    r: Seq<MqttEvent>,
) -> bool {
    let i = pid_slot(s, pid);
    let acked = has_pid(s, pid) && s[i].request_type is Subscribe && s[i].state is AwaitAck;
    &&& !acked ==> r == Seq::<MqttEvent>::empty() && s2 == s && t2 == t
    &&& acked ==> s2 == s.remove(i) && match first_code(codes) {
        SubscribeReturnCode::Success(q) => {
            let marks = s[i].initial && tracks(t, pid);
            let m = mark_acked(t, pid);
            &&& t2 == if marks { m } else { t }
            &&& r == (if marks && all_acked(m) {
                seq![MqttEvent::InitialSubscribesDone]
            } else {
                Seq::<MqttEvent>::empty()
            }) + seq![MqttEvent::SubscribeResult(s[i].external_id, Ok(q))]
        },
        SubscribeReturnCode::Failure => {
            &&& t2 == t
            &&& r == seq![MqttEvent::SubscribeResult(s[i].external_id, Err(MqttError::SubscribeOrUnsubscribeFailed))]
        },
    }
}

/// What UNSUBACK for `pid` does to the requests `s` (now `s2`) and what it
/// reports: an unsubscription that waits for it leaves the queue and its
/// result is reported; anything else changes nothing.
pub open spec fn unsuback_outcome(s: Seq<Request>, s2: Seq<Request>, pid: u16, r: Option<MqttEvent>) -> bool {
    let i = pid_slot(s, pid);
    let acked = has_pid(s, pid) && s[i].request_type is Unsubscribe && s[i].state is AwaitAck;
    &&& !acked ==> r is None && s2 == s
    &&& acked ==> s2 == s.remove(i) && r == Some(MqttEvent::UnsubscribeResult(s[i].external_id, Ok(())))
}

/// Outstanding subscription requests, with the tracker of the initial ones.
#[derive(Debug)]
pub struct SubQueue {
    pub requests: Vec<Request>,
    /// Packet identifier of each initial subscription, and whether it was
    /// acknowledged.
    pub initial_subscriptions_pending: Vec<(u16, bool)>,
}

impl SubQueue {
    pub open spec fn view(&self) -> Seq<Request> {
        self.requests@
    }

    pub open spec fn tracker(&self) -> Seq<(u16, bool)> {
        self.initial_subscriptions_pending@
    }

    /// At most `MAX_CONCURRENT_REQUESTS` unfinished, well formed requests
    /// with distinct packet identifiers; tracker keys distinct.
    pub open spec fn wf(&self) -> bool {
        &&& self@.len() <= MAX_CONCURRENT_REQUESTS
        &&& forall|i: int| 0 <= i < self@.len() ==> (#[trigger] self@[i]).wf()
        &&& request_pids_unique(self@)
        &&& keys_unique(self.tracker())
    }

    pub fn new() -> (r: SubQueue)
        ensures
            r.wf(),
            r@ == Seq::<Request>::empty(),
            r.tracker() == Seq::<(u16, bool)>::empty(),
    {
        SubQueue { requests: Vec::new(), initial_subscriptions_pending: Vec::new() }
    }

    pub fn len(&self) -> (r: usize)
        ensures
            r == self@.len(),
    {
        self.requests.len()
    }

    /// Whether some request carries `pid`.
    pub fn has_pid(&self, pid: u16) -> (r: bool)
        ensures
            r == has_pid(self@, pid),
    {
        let mut i: usize = 0;
        while i < self.requests.len()
            invariant
                i <= self@.len(),
                forall|k: int| 0 <= k < i ==> (#[trigger] self@[k]).pid != pid,
            decreases self@.len() - i,
        {
            if self.requests[i].pid == pid {
                return true;
            }
            i = i + 1;
        }
        false
    }

    fn find_pid(&self, pid: u16) -> (r: Option<usize>)
        requires
            request_pids_unique(self@),
        ensures
            r is None <==> !has_pid(self@, pid),
            r matches Some(i) ==> i < self@.len() && self@[i as int].pid == pid && pid_slot(self@, pid) == i,
    {
        let mut i: usize = 0;
        while i < self.requests.len()
            invariant
                i <= self@.len(),
                request_pids_unique(self@),
                forall|k: int| 0 <= k < i ==> (#[trigger] self@[k]).pid != pid,
            decreases self@.len() - i,
        {
            if self.requests[i].pid == pid {
                proof {
                    assert(has_pid(self@, pid));
                    let j = pid_slot(self@, pid);
                    assert(0 <= j < self@.len() && self@[j].pid == pid);
                    if j != i as int {
                        assert(self@[j].pid != self@[i as int].pid);
                    }
                }
                return Some(i);
            }
            i = i + 1;
        }
        None
    }

    fn push_request(&mut self, req: Request) -> (r: Result<(), QueueFull>)
        requires
            old(self).wf(),
            req.wf(),
            !has_pid(old(self)@, req.pid),
        ensures
            final(self).wf(),
            final(self).tracker() == old(self).tracker(),
            r is Ok <==> old(self)@.len() < MAX_CONCURRENT_REQUESTS,
            r is Ok ==> final(self)@ == old(self)@.push(req),
            r is Err ==> final(self)@ == old(self)@,
    {
        if self.requests.len() >= MAX_CONCURRENT_REQUESTS {
            return Err(QueueFull);
        }
        self.requests.push(req);
        proof {
            let s = self@;
            assert forall|i: int, j: int| 0 <= i < s.len() && 0 <= j < s.len() && i != j implies (#[trigger] s[i]).pid != (#[trigger] s[j]).pid by {
                if i < s.len() - 1 && j < s.len() - 1 {
                    assert(s[i] == old(self)@[i] && s[j] == old(self)@[j]);
                } else if i < s.len() - 1 {
                    assert(s[i] == old(self)@[i]);
                } else {
                    assert(s[j] == old(self)@[j]);
                }
            }
            assert forall|i: int| 0 <= i < s.len() implies (#[trigger] s[i]).wf() by {
                if i < s.len() - 1 {
                    assert(s[i] == old(self)@[i]);
                }
            }
        }
        Ok(())
    }

    /// Queues a subscription of `topic`. With the queue full nothing changes
    /// and `QueueFull` asks the caller to wait for a free slot.
    pub fn push_subscribe(&mut self, topic: Topic, pid: u16, external_id: UniqueID, qos: QoS) -> (r: Result<(), QueueFull>)
        requires
            old(self).wf(),
            topic.wf(),
            pid != 0,
            !has_pid(old(self)@, pid),
        ensures
            final(self).wf(),
            final(self).tracker() == old(self).tracker(),
            r is Ok <==> old(self)@.len() < MAX_CONCURRENT_REQUESTS,
            r is Ok ==> final(self)@ == old(self)@.push(
                Request {
                    request_type: RequestType::Subscribe(qos),
                    topic,
                    pid,
                    external_id,
                    state: RequestState::Initial,
                    initial: false,
                },
            ),
            r is Err ==> final(self)@ == old(self)@,
    {
        let req = Request::subscribe(topic, pid, external_id, qos, false);
        self.push_request(req)
    }

    /// Queues an unsubscription of `topic`; `QueueFull` as for subscribing.
    pub fn push_unsubscribe(&mut self, topic: Topic, pid: u16, external_id: UniqueID) -> (r: Result<(), QueueFull>)
        requires
            old(self).wf(),
            topic.wf(),
            pid != 0,
            !has_pid(old(self)@, pid),
        ensures
            final(self).wf(),
            final(self).tracker() == old(self).tracker(),
            r is Ok <==> old(self)@.len() < MAX_CONCURRENT_REQUESTS,
            r is Ok ==> final(self)@ == old(self)@.push(
                Request {
                    request_type: RequestType::Unsubscribe,
                    topic,
                    pid,
                    external_id,
                    state: RequestState::Initial,
                    initial: false,
                },
            ),
            r is Err ==> final(self)@ == old(self)@,
    {
        let req = Request::unsubscribe(topic, pid, external_id);
        self.push_request(req)
    }

    /// Writes every request that is due at `now`, in slot order. A request
    /// that does not fit is skipped and the tick goes on with the next one.
    pub fn process(&mut self, send_buffer: &mut TxBuffer, now: u64) -> (r: Result<(), MqttError>)
        requires
            old(self).wf(),
            old(send_buffer).wf(),
        ensures
            r is Ok,
            final(self).wf(),
            final(self).tracker() == old(self).tracker(),
            final(send_buffer).wf(),
            final(send_buffer).capacity() == old(send_buffer).capacity(),
            ({
                let (t, o) = requests_tick(old(self)@, now, old(send_buffer).written(), old(send_buffer).capacity());
                final(self)@ == t && final(send_buffer).written() == o
            }),
    {
        let ghost orig = self.requests@;
        let ghost cap = send_buffer.capacity();
        let n = self.requests.len();
        let mut i: usize = 0;
        while i < n
            invariant
                n == orig.len(),
                n <= MAX_CONCURRENT_REQUESTS,
                i <= n,
                self.requests@.len() == n,
                self.initial_subscriptions_pending@ == old(self).tracker(),
                send_buffer.wf(),
                send_buffer.capacity() == cap,
                cap == old(send_buffer).capacity(),
                orig == old(self)@,
                forall|k: int| 0 <= k < n ==> (#[trigger] orig[k]).wf(),
                request_pids_unique(orig),
                forall|k: int| i <= k < n ==> self.requests@[k] == orig[k],
                forall|k: int| 0 <= k < i ==> (#[trigger] self.requests@[k]).wf() && self.requests@[k].pid == orig[k].pid,
                ({
                    let (t, o) = requests_tick(orig.subrange(0, i as int), now, old(send_buffer).written(), cap);
                    t == self.requests@.subrange(0, i as int) && o == send_buffer.written()
                }),
            decreases n - i,
        {
            proof {
                assert(orig.subrange(0, i + 1).drop_last() =~= orig.subrange(0, i as int));
                assert(send_buffer.written().len() == send_buffer.len);
            }
            if self.requests[i].state.should_publish(now) {
                let mut req = self.requests.remove(i);
                let res = req.send(send_buffer, now);
                self.requests.insert(i, req);
                if res.is_err() {
                    return res;
                }
            }
            i = i + 1;
            proof {
                let (t, o) = requests_tick(orig.subrange(0, i - 1), now, old(send_buffer).written(), cap);
                assert(self.requests@.subrange(0, i as int) =~= t.push(self.requests@[i - 1]));
            }
        }
        proof {
            assert(orig.subrange(0, n as int) =~= orig);
            assert(self.requests@.subrange(0, n as int) =~= self.requests@);
            let s = self@;
            assert forall|a: int, b: int| 0 <= a < s.len() && 0 <= b < s.len() && a != b implies (#[trigger] s[a]).pid != (#[trigger] s[b]).pid by {
                assert(s[a].pid == orig[a].pid && s[b].pid == orig[b].pid);
            }
        }
        Ok(())
    }

    /// Marks the initial subscription `pid` acknowledged, and reports
    /// `InitialSubscribesDone` once none is left pending. A `pid` the tracker
    /// does not hold changes nothing.
    pub fn on_initial_suback(initial_subscriptions_pending: &mut Vec<(u16, bool)>, pid: u16, result: &mut Vec<MqttEvent>)
        requires
            keys_unique(old(initial_subscriptions_pending)@),
        ensures
            tracks(old(initial_subscriptions_pending)@, pid) ==> {
                let t = mark_acked(old(initial_subscriptions_pending)@, pid);
                &&& final(initial_subscriptions_pending)@ == t
                &&& final(result)@ == old(result)@ + if all_acked(t) {
                    seq![MqttEvent::InitialSubscribesDone]
                } else {
                    Seq::<MqttEvent>::empty()
                }
            },
            !tracks(old(initial_subscriptions_pending)@, pid) ==> final(initial_subscriptions_pending)@
                == old(initial_subscriptions_pending)@ && final(result)@ == old(result)@,
            keys_unique(final(initial_subscriptions_pending)@),
    {
        let ghost t0 = initial_subscriptions_pending@;
        let n = initial_subscriptions_pending.len();
        let mut i: usize = 0;
        while i < n && initial_subscriptions_pending[i].0 != pid
            invariant
                n == t0.len(),
                initial_subscriptions_pending@ == t0,
                i <= n,
                forall|k: int| 0 <= k < i ==> (#[trigger] t0[k]).0 != pid,
            decreases n - i,
        {
            i = i + 1;
        }
        if i == n {
            assert(!tracks(t0, pid));
            assert(result@ =~= old(result)@);
            return;
        }
        assert(t0[i as int].0 == pid);
        assert(tracks(t0, pid));
        initial_subscriptions_pending.set(i, (pid, true));
        proof {
            assert forall|k: int| 0 <= k < n implies #[trigger] initial_subscriptions_pending@[k] == mark_acked(t0, pid)[k] by {
                if k != i {
                    assert(t0[k].0 != t0[i as int].0);
                }
            }
            assert(initial_subscriptions_pending@ =~= mark_acked(t0, pid));
        }
        let mut all: bool = true;
        let mut k: usize = 0;
        while k < n
            invariant
                n == initial_subscriptions_pending@.len(),
                k <= n,
                all == (forall|m: int| 0 <= m < k ==> (#[trigger] initial_subscriptions_pending@[m]).1),
            decreases n - k,
        {
            if !initial_subscriptions_pending[k].1 {
                all = false;
            }
            k = k + 1;
        }
        if all {
            result.push(MqttEvent::InitialSubscribesDone);
        } else {
            assert(result@ =~= old(result)@ + Seq::<MqttEvent>::empty());
        }
        proof {
            let t = initial_subscriptions_pending@;
            assert forall|a: int, b: int| 0 <= a < t.len() && 0 <= b < t.len() && a != b implies (#[trigger] t[a]).0 != (#[trigger] t[b]).0 by {
                assert(t[a].0 == t0[a].0 && t[b].0 == t0[b].0);
            }
        }
    }

    /// SUBACK for `pid`; see `suback_outcome`.
    pub fn process_suback(&mut self, pid: u16, return_codes: &Vec<SubscribeReturnCode>) -> (r: Vec<MqttEvent>)
        requires
            old(self).wf(),
        ensures
            final(self).wf(),
            suback_outcome(old(self)@, old(self).tracker(), final(self)@, final(self).tracker(), pid, return_codes@, r@),
    {
        let mut result: Vec<MqttEvent> = Vec::new();
        let found = self.find_pid(pid);
        let i = match found {
            None => {
                return result;
            },
            Some(i) => i,
        };
        if !(self.requests[i].request_type.is_subscribe() && self.requests[i].state.is_await_ack()) {
            return result;
        }
        proof {
            lemma_remove_keeps_wf(self@, i as int);
        }
        let request = self.requests.remove(i);
        let code = if return_codes.len() > 0 {
            return_codes[0]
        } else {
            SubscribeReturnCode::Failure
        };
        match code {
            SubscribeReturnCode::Success(qos) => {
                if request.initial {
                    SubQueue::on_initial_suback(&mut self.initial_subscriptions_pending, request.pid, &mut result);
                }
                let ghost mid = result@;
                assert(mid =~= (if request.initial && tracks(old(self).tracker(), pid) && all_acked(
                    mark_acked(old(self).tracker(), pid),
                ) {
                    seq![MqttEvent::InitialSubscribesDone]
                } else {
                    Seq::<MqttEvent>::empty()
                }));
                result.push(MqttEvent::SubscribeResult(request.external_id, Ok(qos)));
                assert(result@ =~= mid + seq![MqttEvent::SubscribeResult(request.external_id, Ok(qos))]);
            },
            SubscribeReturnCode::Failure => {
                result.push(MqttEvent::SubscribeResult(request.external_id, Err(MqttError::SubscribeOrUnsubscribeFailed)));
            },
        }
        result
    }

    /// UNSUBACK for `pid`; see `unsuback_outcome`.
    pub fn process_unsuback(&mut self, pid: u16) -> (r: Option<MqttEvent>)
        requires
            old(self).wf(),
        ensures
            final(self).wf(),
            final(self).tracker() == old(self).tracker(),
            unsuback_outcome(old(self)@, final(self)@, pid, r),
    {
        let i = match self.find_pid(pid) {
            None => {
                return None;
            },
            Some(i) => i,
        };
        if !(self.requests[i].request_type == RequestType::Unsubscribe && self.requests[i].state.is_await_ack()) {
            return None;
        }
        proof {
            lemma_remove_keeps_wf(self@, i as int);
        }
        let request = self.requests.remove(i);
        Some(MqttEvent::UnsubscribeResult(request.external_id, Ok(())))
    }

    /// Seeds the automatic subscriptions of a new connection: each becomes
    /// an initial subscription with the next packet identifier of `pids` and
    /// the next id of `ids`; where the queue is full, the oldest request
    /// makes room. The tracker starts over with every seeded identifier
    /// pending.
    pub fn add_auto_subscribes(&mut self, auto_subscribes: Vec<AutoSubscribe>, pids: &Vec<u16>, ids: &mut IdSource)
        requires
            old(self).wf(),
            auto_subscribes@.len() <= MAX_CONCURRENT_REQUESTS,
            pids@.len() == auto_subscribes@.len(),
            forall|k: int| 0 <= k < auto_subscribes@.len() ==> (#[trigger] auto_subscribes@[k]).topic.wf(),
            forall|k: int| 0 <= k < pids@.len() ==> #[trigger] pids@[k] != 0 && !has_pid(old(self)@, pids@[k]),
            forall|a: int, b: int| 0 <= a < pids@.len() && 0 <= b < pids@.len() && a != b ==> #[trigger] pids@[a] != #[trigger] pids@[b],
            old(ids).next + auto_subscribes@.len() <= u64::MAX,
        ensures
            final(self).wf(),
            final(self)@ == keep_last(
                old(self)@ + seeded(auto_subscribes@, pids@, old(ids).next),
                MAX_CONCURRENT_REQUESTS as nat,
            ),
            final(self).tracker() == Seq::new(pids@.len(), |k: int| (pids@[k], false)),
            final(ids).next == old(ids).next + auto_subscribes@.len(),
    {
        let ghost orig = auto_subscribes@;
        let ghost first = ids.next;
        let ghost new_reqs = seeded(orig, pids@, first);
        let mut autos = auto_subscribes;
        self.initial_subscriptions_pending = Vec::new();
        let n = autos.len();
        let mut k: usize = 0;
        proof {
            assert(old(self)@ + new_reqs.subrange(0, 0) =~= old(self)@);
            assert(autos@.subrange(0, n as int) =~= autos@);
            assert(self.tracker() =~= Seq::new(0, |m: int| (pids@[m], false)));
        }
        while k < n
            invariant
                n == orig.len(),
                n == pids@.len(),
                n <= MAX_CONCURRENT_REQUESTS,
                k <= n,
                new_reqs == seeded(orig, pids@, first),
                autos@ == orig.subrange(k as int, n as int),
                forall|m: int| 0 <= m < n ==> (#[trigger] orig[m]).topic.wf(),
                forall|m: int| 0 <= m < n ==> #[trigger] pids@[m] != 0,
                forall|a: int, b: int| 0 <= a < n && 0 <= b < n && a != b ==> #[trigger] pids@[a] != #[trigger] pids@[b],
                first + n <= u64::MAX,
                ids.next == first + k,
                self@ == keep_last(old(self)@ + new_reqs.subrange(0, k as int), MAX_CONCURRENT_REQUESTS as nat),
                self@.len() <= MAX_CONCURRENT_REQUESTS,
                forall|j: int| 0 <= j < self@.len() ==> (#[trigger] self@[j]).wf(),
                request_pids_unique(self@),
                forall|j: int, m: int| 0 <= j < self@.len() && k <= m < n ==> (#[trigger] self@[j]).pid != #[trigger] pids@[m],
                self.tracker() == Seq::new(k as nat, |m: int| (pids@[m], false)),
            decreases n - k,
        {
            let ghost x = old(self)@ + new_reqs.subrange(0, k as int);
            let ghost before = self@;
            let a = autos.remove(0);
            assert(a == orig[k as int]);
            if self.requests.len() == MAX_CONCURRENT_REQUESTS {
                proof {
                    lemma_remove_keeps_wf(self@, 0);
                }
                self.requests.remove(0);
            }
            let ghost mid = self@;
            let pid = pids[k];
            let id = ids.next_id();
            let request = Request::subscribe(a.topic, pid, id, a.qos, true);
            assert(request == new_reqs[k as int]);
            self.requests.push(request);
            self.initial_subscriptions_pending.push((pid, false));
            proof {
                assert(new_reqs.subrange(0, k + 1) =~= new_reqs.subrange(0, k as int).push(request));
                assert(old(self)@ + new_reqs.subrange(0, k + 1) =~= x.push(request));
                if before.len() == MAX_CONCURRENT_REQUESTS {
                    assert(x.len() >= MAX_CONCURRENT_REQUESTS);
                    assert(self@ =~= keep_last(x.push(request), MAX_CONCURRENT_REQUESTS as nat));
                } else {
                    assert(x.len() < MAX_CONCURRENT_REQUESTS);
                    assert(self@ =~= keep_last(x.push(request), MAX_CONCURRENT_REQUESTS as nat));
                }
                let s = self@;
                assert forall|j: int| 0 <= j < s.len() implies (#[trigger] s[j]).wf() by {
                    if j < s.len() - 1 {
                        assert(s[j] == mid[j]);
                    }
                }
                assert forall|i: int, j: int| 0 <= i < s.len() && 0 <= j < s.len() && i != j implies (#[trigger] s[i]).pid != (#[trigger] s[j]).pid by {
                    if i < s.len() - 1 && j < s.len() - 1 {
                        assert(s[i] == mid[i] && s[j] == mid[j]);
                    } else if i < s.len() - 1 {
                        assert(s[i] == mid[i]);
                    } else {
                        assert(s[j] == mid[j]);
                    }
                }
                assert forall|j: int, m: int| 0 <= j < s.len() && k + 1 <= m < n implies (#[trigger] s[j]).pid != #[trigger] pids@[m] by {
                    if j < s.len() - 1 {
                        assert(s[j] == mid[j]);
                    }
                }
                assert(self.tracker() =~= Seq::new((k + 1) as nat, |m: int| (pids@[m], false)));
            }
            k = k + 1;
        }
        proof {
            assert(new_reqs.subrange(0, n as int) =~= new_reqs);
            let t = self.tracker();
            assert forall|a: int, b: int| 0 <= a < t.len() && 0 <= b < t.len() && a != b implies (#[trigger] t[a]).0 != (#[trigger] t[b]).0 by {
                assert(t[a].0 == pids@[a] && t[b].0 == pids@[b]);
            }
        }
    }
}

} // verus!
