//! The multiplexer: it routes the events of the gossip, request/response,
//! identify, liveness and discovery protocols to their handlers, keeps the
//! outward events in one first-in first-out queue, and says which calls the
//! driver is to make on the protocols.
use vstd::prelude::*;
use std::collections::VecDeque;
use crate::message::{decode_at, encodable, encoding, MessageView, PubsubMessage};

verus! {

/// The bytes that identify a peer.
pub type PeerId = Vec<u8>;

/// The bytes of a transport address.
pub type Multiaddr = Vec<u8>;

/// The name of a gossip topic.
pub type TopicHash = String;

/// At most this many of the addresses that a peer announces are kept.
pub const MAX_IDENTIFY_ADDRESSES: usize = 20;

/// A message delivered by the gossip protocol.
pub struct GossipsubMessage {
    pub source: PeerId,
    pub data: Vec<u8>,
    pub topics: Vec<TopicHash>,
}

/// An event of the gossip protocol.
pub enum GossipsubEvent {
    Message(GossipsubMessage),
    Subscribed { peer_id: PeerId, topic: TopicHash },
    Unsubscribed { peer_id: PeerId, topic: TopicHash },
}

/// An event of the request/response protocol; `R` is its exchange.
pub enum RPCMessage<R> {
    PeerDialed(PeerId),
    RPC(PeerId, R),
}

/// What a peer says of itself in the identify handshake.
pub struct IdentifyInfo {
    pub public_key: Vec<u8>,
    pub protocol_version: String,
    pub agent_version: String,
    pub listen_addrs: Vec<Multiaddr>,
    pub protocols: Vec<String>,
    pub observed_addr: Multiaddr,
}

/// An event of the identify protocol.
pub enum IdentifyEvent {
    Identified { peer_id: PeerId, info: IdentifyInfo },
    Error { peer_id: PeerId },
    SendBack { peer_id: PeerId },
}

/// An event of any of the protocols that the multiplexer holds.
pub enum InboundEvent<R> {
    Gossipsub(GossipsubEvent),
    Rpc(RPCMessage<R>),
    Identify(IdentifyEvent),
    Ping,
    Discovery,
}

/// The events that polling the multiplexer gives.
pub enum BehaviourEvent<R> {
    RPC(PeerId, R),
    PeerDialed(PeerId),
    Identified(PeerId, IdentifyInfo),
    GossipMessage { source: PeerId, topics: Vec<TopicHash>, message: PubsubMessage },
}

pub struct IdentifyInfoView {
    pub public_key: Seq<u8>,
    pub protocol_version: Seq<char>,
    pub agent_version: Seq<char>,
    pub listen_addrs: Seq<Seq<u8>>,
    pub protocols: Seq<Seq<char>>,
    pub observed_addr: Seq<u8>,
}

pub enum BehaviourEventView<R> {
    RPC(Seq<u8>, R),
    PeerDialed(Seq<u8>),
    Identified(Seq<u8>, IdentifyInfoView),
    GossipMessage { source: Seq<u8>, topics: Seq<Seq<char>>, message: MessageView },
}

pub open spec fn bytes_views(s: Seq<Vec<u8>>) -> Seq<Seq<u8>> {
    s.map_values(|v: Vec<u8>| v@)
}

pub open spec fn string_views(s: Seq<String>) -> Seq<Seq<char>> {
    s.map_values(|v: String| v@)
}

impl View for IdentifyInfo {
    type V = IdentifyInfoView;

    open spec fn view(&self) -> IdentifyInfoView {
        IdentifyInfoView {
            public_key: self.public_key@,
            protocol_version: self.protocol_version@,
            agent_version: self.agent_version@,
            listen_addrs: bytes_views(self.listen_addrs@),
            protocols: string_views(self.protocols@),
            observed_addr: self.observed_addr@,
        }
    }
}

impl<R> View for BehaviourEvent<R> {
    type V = BehaviourEventView<R>;

    open spec fn view(&self) -> BehaviourEventView<R> {
        match self {
            BehaviourEvent::RPC(p, r) => BehaviourEventView::RPC(p@, *r),
            BehaviourEvent::PeerDialed(p) => BehaviourEventView::PeerDialed(p@),
            BehaviourEvent::Identified(p, i) => BehaviourEventView::Identified(p@, i@),
            BehaviourEvent::GossipMessage { source, topics, message } =>
                BehaviourEventView::GossipMessage {
                source: source@,
                topics: string_views(topics@),
                message: message@,
            },
        }
    }
}

/// The announced addresses that are kept: the first `MAX_IDENTIFY_ADDRESSES`.
pub open spec fn kept_addrs(addrs: Seq<Seq<u8>>) -> Seq<Seq<u8>> {
    if addrs.len() > MAX_IDENTIFY_ADDRESSES {
        addrs.take(MAX_IDENTIFY_ADDRESSES as int)
    } else {
        addrs
    }
}

/// The identify information with only the kept addresses.
pub open spec fn kept_info(i: IdentifyInfoView) -> IdentifyInfoView {
    IdentifyInfoView { listen_addrs: kept_addrs(i.listen_addrs), ..i }
}

/// The outward events that an inbound event adds to the queue, in order.
pub open spec fn produced<R>(event: InboundEvent<R>) -> Seq<BehaviourEventView<R>> {
    match event {
        InboundEvent::Gossipsub(GossipsubEvent::Message(m)) => match decode_at(m.data@, 0) {
            Ok((msg, _)) => seq![
                BehaviourEventView::GossipMessage {
                    source: m.source@,
                    topics: string_views(m.topics@),
                    message: msg,
                },
            ],
            Err(_) => Seq::empty(),
        },
        InboundEvent::Rpc(RPCMessage::PeerDialed(p)) => seq![BehaviourEventView::PeerDialed(p@)],
        InboundEvent::Rpc(RPCMessage::RPC(p, r)) => seq![BehaviourEventView::RPC(p@, r)],
        InboundEvent::Identify(IdentifyEvent::Identified { peer_id, info }) => seq![
            BehaviourEventView::Identified(peer_id@, kept_info(info@)),
        ],
        _ => Seq::empty(),
    }
}

/// The addresses that an inbound event registers with discovery, each with
/// its peer, in order.
pub open spec fn registered<R>(event: InboundEvent<R>) -> Seq<(Seq<u8>, Seq<u8>)> {
    match event {
        InboundEvent::Identify(IdentifyEvent::Identified { peer_id, info }) => kept_addrs(
            bytes_views(info.listen_addrs@),
        ).map_values(|a: Seq<u8>| (peer_id@, a)),
        _ => Seq::empty(),
    }
}

pub open spec fn pair_views(s: Seq<(PeerId, Multiaddr)>) -> Seq<(Seq<u8>, Seq<u8>)> {
    s.map_values(|p: (PeerId, Multiaddr)| (p.0@, p.1@))
}

/// The queue after an inbound event.
pub open spec fn after_inject<R>(
    q: Seq<BehaviourEventView<R>>,
    event: InboundEvent<R>,
) -> Seq<BehaviourEventView<R>> {
    q + produced(event)
}

/// The queue after a sequence of inbound events, injected in order.
pub open spec fn after_injects<R>(
    q: Seq<BehaviourEventView<R>>,
    events: Seq<InboundEvent<R>>,
) -> Seq<BehaviourEventView<R>>
    decreases events.len(),
{
    if events.len() == 0 {
        q
    } else {
        after_injects(after_inject(q, events[0]), events.drop_first())
    }
}

/// The events that `n` polls of queue `q` give, in order, stopping when the
/// queue is empty.
pub open spec fn polled<R>(q: Seq<BehaviourEventView<R>>, n: nat) -> Seq<BehaviourEventView<R>>
    decreases n,
{
    if n == 0 || q.len() == 0 {
        Seq::empty()
    } else {
        seq![q[0]] + polled(q.drop_first(), (n - 1) as nat)
    }
}

/// Everything that a sequence of inbound events queues, in order.
pub open spec fn produced_all<R>(events: Seq<InboundEvent<R>>) -> Seq<BehaviourEventView<R>>
    decreases events.len(),
{
    if events.len() == 0 {
        Seq::empty()
    } else {
        produced(events[0]) + produced_all(events.drop_first())
    }
}

proof fn lemma_produced_all_concat<R>(a: Seq<InboundEvent<R>>, b: Seq<InboundEvent<R>>)
    ensures
        produced_all(a + b) == produced_all(a) + produced_all(b),
    decreases a.len(),
{
    if a.len() == 0 {
        assert(a + b =~= b);
        assert(produced_all(a) + produced_all(b) =~= produced_all(b));
    } else {
        assert((a + b).drop_first() =~= a.drop_first() + b);
        lemma_produced_all_concat(a.drop_first(), b);
        assert(produced_all(a + b) =~= produced_all(a) + produced_all(b));
    }
}

/// Injecting events one after another appends what each of them produces,
/// in the order of injection, behind what was queued already.
pub proof fn lemma_injects_in_order<R>(q: Seq<BehaviourEventView<R>>, events: Seq<InboundEvent<R>>)
    ensures
        after_injects(q, events) == q + produced_all(events),
    decreases events.len(),
{
    if events.len() == 0 {
        assert(q + produced_all(events) =~= q);
    } else {
        lemma_injects_in_order(after_inject(q, events[0]), events.drop_first());
        assert(q + produced(events[0]) + produced_all(events.drop_first()) =~= q + produced_all(
            events,
        ));
    }
}

/// Successive polls give the queued events in the order they were queued.
pub proof fn lemma_polls_in_order<R>(q: Seq<BehaviourEventView<R>>, n: nat)
    requires
        n <= q.len(),
    ensures
        polled(q, n) == q.take(n as int),
    decreases n,
{
    if n == 0 {
        assert(q.take(0) =~= Seq::<BehaviourEventView<R>>::empty());
    } else {
        lemma_polls_in_order(q.drop_first(), (n - 1) as nat);
        assert(seq![q[0]] + q.drop_first().take(n - 1) =~= q.take(n as int));
    }
}

/// Events injected into an empty multiplexer, from any mixture of protocols,
/// come out of successive polls in the order in which they were injected.
pub proof fn lemma_fifo<R>(events: Seq<InboundEvent<R>>, n: nat)
    requires
        n <= produced_all(events).len(),
    ensures
        polled(after_injects(Seq::empty(), events), n) == produced_all(events).take(n as int),
{
    lemma_injects_in_order(Seq::<BehaviourEventView<R>>::empty(), events);
    assert(Seq::<BehaviourEventView<R>>::empty() + produced_all(events) =~= produced_all(events));
    lemma_polls_in_order(produced_all(events), n);
}

/// A gossip message that does not decode queues nothing, and leaves the
/// queue that the events around it build exactly as it would be without it.
pub proof fn lemma_malformed_gossip_dropped<R>(
    q: Seq<BehaviourEventView<R>>,
    m: GossipsubMessage,
    before: Seq<InboundEvent<R>>,
    after: Seq<InboundEvent<R>>,
)
    requires
        decode_at(m.data@, 0) is Err,
    ensures
        produced(InboundEvent::<R>::Gossipsub(GossipsubEvent::Message(m))) == Seq::<
            BehaviourEventView<R>,
        >::empty(),
        after_injects(q, before + seq![InboundEvent::<R>::Gossipsub(GossipsubEvent::Message(m))] + after)
            == after_injects(q, before + after),
{
    let e = InboundEvent::<R>::Gossipsub(GossipsubEvent::Message(m));
    lemma_injects_in_order(q, before + seq![e] + after);
    lemma_injects_in_order(q, before + after);
    lemma_produced_all_concat(before + seq![e], after);
    lemma_produced_all_concat(before, seq![e]);
    lemma_produced_all_concat(before, after);
    assert(seq![e].drop_first() =~= Seq::<InboundEvent<R>>::empty());
    assert(seq![e][0] == e);
    assert(produced(e) =~= Seq::<BehaviourEventView<R>>::empty());
    assert(produced_all(Seq::<InboundEvent<R>>::empty()) =~= Seq::<BehaviourEventView<R>>::empty());
    assert(produced_all(seq![e]) =~= Seq::<BehaviourEventView<R>>::empty());
    assert(produced_all(before) + produced_all(seq![e]) =~= produced_all(before));
}

/// A copy of a byte vector.
fn copy_bytes(v: &Vec<u8>) -> (r: Vec<u8>)
    ensures
        r@ == v@,
{
    let mut r: Vec<u8> = Vec::new();
    let mut k: usize = 0;
    while k < v.len()
        invariant
            k <= v@.len(),
            r@ == v@.take(k as int),
        decreases v@.len() - k,
    {
        r.push(v[k]);
        k = k + 1;
        assert(r@ =~= v@.take(k as int));
    }
    assert(v@.take(v@.len() as int) =~= v@);
    r
}

/// The multiplexer's own state: the queue of outward events.
pub struct Behaviour<R> {
    events: VecDeque<BehaviourEvent<R>>,
}

impl<R> View for Behaviour<R> {
    type V = Seq<BehaviourEventView<R>>;

    closed spec fn view(&self) -> Seq<BehaviourEventView<R>> {
        self.events@.map_values(|e: BehaviourEvent<R>| e@)
    }
}

impl<R> Behaviour<R> {
    /// A multiplexer with an empty queue.
    pub fn new() -> (b: Self)
        ensures
            b@ == Seq::<BehaviourEventView<R>>::empty(),
    {
        let b = Behaviour { events: VecDeque::new() };
        assert(b@ =~= Seq::<BehaviourEventView<R>>::empty());
        b
    }

    fn enqueue(&mut self, e: BehaviourEvent<R>)
        ensures
            final(self)@ == old(self)@.push(e@),
    {
        self.events.push_back(e);
        assert(final(self)@ =~= old(self)@.push(e@));
    }

    /// Takes the oldest queued event, if there is one.
    pub fn poll(&mut self) -> (r: Option<BehaviourEvent<R>>)
        ensures
            match r {
                Some(e) => old(self)@.len() > 0 && e@ == old(self)@[0] && final(self)@ == old(
                    self,
                )@.drop_first(),
                None => old(self)@.len() == 0 && final(self)@ == old(self)@,
            },
    {
        let r = self.events.pop_front();
        assert(final(self)@ =~= old(self)@.subrange(1, old(self)@.len() as int)
            || old(self)@.len() == 0);
        r
    }

    /// Handles a gossip event: a message that decodes is queued, one that
    /// does not is dropped; subscription changes are not reported.
    pub fn inject_gossipsub_event(&mut self, event: GossipsubEvent)
        ensures
            final(self)@ == after_inject(old(self)@, InboundEvent::<R>::Gossipsub(event)),
    {
        let ghost ev = InboundEvent::<R>::Gossipsub(event);
        match event {
            GossipsubEvent::Message(gs_msg) => {
                match PubsubMessage::ssz_decode(gs_msg.data.as_slice(), 0) {
                    Ok((message, _index)) => {
                        self.enqueue(
                            BehaviourEvent::GossipMessage {
                                source: gs_msg.source,
                                topics: gs_msg.topics,
                                message,
                            },
                        );
                    },
                    Err(_) => {},
                }
            },
            GossipsubEvent::Subscribed { .. } | GossipsubEvent::Unsubscribed { .. } => {},
        }
        assert(final(self)@ =~= after_inject(old(self)@, ev));
    }

    /// Handles a request/response event: both kinds are queued as they are.
    pub fn inject_rpc_message(&mut self, event: RPCMessage<R>)
        ensures
            final(self)@ == after_inject(old(self)@, InboundEvent::Rpc(event)),
    {
        let ghost ev = InboundEvent::Rpc(event);
        match event {
            RPCMessage::PeerDialed(peer_id) => self.enqueue(BehaviourEvent::PeerDialed(peer_id)),
            RPCMessage::RPC(peer_id, rpc_event) => self.enqueue(
                BehaviourEvent::RPC(peer_id, rpc_event),
            ),
        }
        assert(final(self)@ =~= after_inject(old(self)@, ev));
    }

    /// Handles an identify event. For an identified peer it keeps the first
    /// `MAX_IDENTIFY_ADDRESSES` addresses, returns each kept address with the
    /// peer for discovery to register, and queues the identification.
    pub fn inject_identify_event(&mut self, event: IdentifyEvent) -> (registrations: Vec<
        (PeerId, Multiaddr),
    >)
        ensures
            final(self)@ == after_inject(old(self)@, InboundEvent::<R>::Identify(event)),
            pair_views(registrations@) == registered(InboundEvent::<R>::Identify(event)),
    {
        let ghost ev = InboundEvent::<R>::Identify(event);
        let mut registrations: Vec<(PeerId, Multiaddr)> = Vec::new();
        match event {
            IdentifyEvent::Identified { peer_id, mut info } => {
                let ghost addrs = bytes_views(info.listen_addrs@);
                if info.listen_addrs.len() > MAX_IDENTIFY_ADDRESSES {
                    info.listen_addrs.truncate(MAX_IDENTIFY_ADDRESSES);
                }
                assert(bytes_views(info.listen_addrs@) =~= kept_addrs(addrs));
                let ghost kept = kept_addrs(addrs);
                let mut k: usize = 0;
                while k < info.listen_addrs.len()
                    invariant
                        k <= info.listen_addrs@.len(),
                        kept == bytes_views(info.listen_addrs@),
                        pair_views(registrations@) == kept.take(k as int).map_values(
                            |a: Seq<u8>| (peer_id@, a),
                        ),
                    decreases info.listen_addrs@.len() - k,
                {
                    let p = copy_bytes(&peer_id);
                    let a = copy_bytes(&info.listen_addrs[k]);
                    assert(kept[k as int] == a@);
                    let ghost before = pair_views(registrations@);
                    registrations.push((p, a));
                    assert(pair_views(registrations@) =~= before.push((peer_id@, kept[k as int])));
                    k = k + 1;
                    assert(pair_views(registrations@) =~= kept.take(k as int).map_values(
                        |a: Seq<u8>| (peer_id@, a),
                    ));
                }
                assert(kept.take(k as int) =~= kept);
                self.enqueue(BehaviourEvent::Identified(peer_id, info));
            },
            IdentifyEvent::Error { .. } => {},
            IdentifyEvent::SendBack { .. } => {},
        }
        assert(final(self)@ =~= after_inject(old(self)@, ev));
        assert(pair_views(registrations@) =~= registered(ev));
        registrations
    }

    /// Routes an event of any protocol to its handler. The liveness and
    /// discovery protocols report nothing outward.
    pub fn inject_event(&mut self, event: InboundEvent<R>) -> (registrations: Vec<
        (PeerId, Multiaddr),
    >)
        ensures
            final(self)@ == after_inject(old(self)@, event),
            pair_views(registrations@) == registered(event),
    {
        let ghost ev = event;
        match event {
            InboundEvent::Gossipsub(e) => {
                self.inject_gossipsub_event(e);
                let none: Vec<(PeerId, Multiaddr)> = Vec::new();
                assert(pair_views(none@) =~= registered(ev));
                none
            },
            InboundEvent::Rpc(e) => {
                self.inject_rpc_message(e);
                let none: Vec<(PeerId, Multiaddr)> = Vec::new();
                assert(pair_views(none@) =~= registered(ev));
                none
            },
            InboundEvent::Identify(e) => self.inject_identify_event(e),
            InboundEvent::Ping | InboundEvent::Discovery => {
                assert(final(self)@ =~= after_inject(old(self)@, ev));
                let none: Vec<(PeerId, Multiaddr)> = Vec::new();
                assert(pair_views(none@) =~= registered(ev));
                none
            },
        }
    }

    /// The publications to make for `message` on `topics`: one per topic, in
    /// order, each with the same encoding, made once.
    pub fn publish(&self, topics: Vec<TopicHash>, message: &PubsubMessage) -> (sends: Vec<
        (TopicHash, Vec<u8>),
    >)
        requires
            encodable(message@),
        ensures
            sends@.len() == topics@.len(),
            forall|i: int|
                0 <= i < sends@.len() ==> #[trigger] sends@[i].0 == topics@[i] && sends@[i].1@
                    == encoding(message@),
    {
        let message_bytes = crate::message::ssz_encode(message);
        let mut sends: Vec<(TopicHash, Vec<u8>)> = Vec::new();
        let mut k: usize = 0;
        while k < topics.len()
            invariant
                k <= topics@.len(),
                message_bytes@ == encoding(message@),
                sends@.len() == k,
                forall|i: int|
                    0 <= i < k ==> #[trigger] sends@[i].0 == topics@[i] && sends@[i].1@
                        == encoding(message@),
            decreases topics@.len() - k,
        {
            sends.push((topics[k].clone(), copy_bytes(&message_bytes)));
            k = k + 1;
        }
        sends
    }
}

} // verus!
