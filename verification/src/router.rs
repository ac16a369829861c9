use std::collections::VecDeque;
use dashmap::DashMap;
use vstd::prelude::*;
use crate::messages::{
    classify, id_of, registered_with, registered_with_server_messages, MessageIdRegistry,
    Notification, Response,
};
use crate::protocol::packet::WitcherPacket;
use crate::protocol::packet_data::PacketValue;

verus! {

#[verifier::external_type_specification]
#[verifier::external_body]
#[verifier::reject_recursive_types(K)]
#[verifier::reject_recursive_types(V)]
#[verifier::reject_recursive_types(S)]
pub struct ExDashMap<K, V, S>(DashMap<K, V, S>);

/// The table of notification handlers: one handler for a slot.
pub type SubscriberTable = DashMap<u64, u64>;

/// The table of response handlers: a queue of handlers for a slot.
pub type WaiterTable = DashMap<u64, VecDeque<u64>>;

/// What a table of notification handlers holds: the handler of each slot that has one.
pub uninterp spec fn subscribers_in(table: DashMap<u64, u64>) -> Map<u64, u64>;

/// What a table of response handlers holds: the queue of handlers of each slot that
/// has one, the handler that waits longest first.
pub uninterp spec fn waiters_in(table: DashMap<u64, VecDeque<u64>>) -> Map<u64, Seq<u64>>;

/// `DashMap::new`: a table that holds nothing.
#[verifier::external_body]
fn new_subscribers() -> (table: SubscriberTable)
    ensures
        subscribers_in(table).dom() == Set::<u64>::empty(),
{
    DashMap::new()
}

/// `DashMap::insert`: the table holds `handler` for `slot`, whatever it held for it
/// before, and for every other slot what it held.
#[verifier::external_body]
fn put_subscriber(table: &mut DashMap<u64, u64>, slot: u64, handler: u64)
    ensures
        subscribers_in(*final(table)) == subscribers_in(*old(table)).insert(slot, handler),
{
    table.insert(slot, handler);
}

/// `DashMap::get`: the handler that the table holds for `slot`, if it holds one.
#[verifier::external_body]
fn subscriber_at(table: &DashMap<u64, u64>, slot: u64) -> (handler: Option<u64>)
    ensures
        handler == if subscribers_in(*table).contains_key(slot) {
            Some(subscribers_in(*table)[slot])
        } else {
            None
        },
{
    table.get(&slot).map(|entry| *entry)
}

/// `DashMap::new`: a table that holds nothing.
#[verifier::external_body]
fn new_waiters() -> (table: WaiterTable)
    ensures
        waiters_in(table).dom() == Set::<u64>::empty(),
{
    DashMap::new()
}

/// `DashMap::insert`: the table holds `queue` for `slot`, whatever it held for it
/// before, and for every other slot what it held.
#[verifier::external_body]
fn put_waiters(table: &mut DashMap<u64, VecDeque<u64>>, slot: u64, queue: VecDeque<u64>)
    ensures
        waiters_in(*final(table)) == waiters_in(*old(table)).insert(slot, queue@),
{
    table.insert(slot, queue);
}

/// `DashMap::remove`: takes out of the table the queue that it holds for `slot`, if it
/// holds one, and leaves what it holds for every other slot.
#[verifier::external_body]
fn take_waiters(table: &mut DashMap<u64, VecDeque<u64>>, slot: u64) -> (queue: Option<
    VecDeque<u64>,
>)
    ensures
        match queue {
            Some(queue) => waiters_in(*old(table)).contains_key(slot) && queue@ == waiters_in(
                *old(table),
            )[slot] && waiters_in(*final(table)) == waiters_in(*old(table)).remove(slot),
            None => !waiters_in(*old(table)).contains_key(slot) && waiters_in(*final(table))
                == waiters_in(*old(table)),
        },
{
    table.remove(&slot).map(|entry| entry.1)
}

/// To whom an inbound packet goes.
#[derive(Clone, Copy, Debug, PartialEq, Eq, Structural)]
pub enum Delivery {
    /// To nobody: the packet is dropped.
    Dropped,
    /// To the handler that subscribed to the packet's message.
    Notification(u64),
    /// To the handler that waited longest for a reply of the packet's message; it
    /// waits no longer.
    Response(u64),
}

/// What to do with an inbound packet: hand a copy to the raw handler, if there is one,
/// and then the packet itself to whom it goes.
#[derive(Clone, Copy, Debug, PartialEq, Eq, Structural)]
pub struct RouteDecision {
    pub raw: Option<u64>,
    pub delivery: Delivery,
}

/// What a router knows.
pub struct RouterView {
    /// The registered identifiers, each at its slot.
    pub registered: Seq<Seq<PacketValue>>,
    /// The handler of every inbound packet.
    pub raw: Option<u64>,
    /// The notification handler of each slot that has one.
    pub subscribers: Map<u64, u64>,
    /// The response handlers that wait at each slot, the one that waits longest first.
    pub waiters: Map<u64, Seq<u64>>,
}

/// The place of an identifier among the registered ones.
pub open spec fn slot_of(registered: Seq<Seq<PacketValue>>, id: Seq<PacketValue>) -> u64 {
    registered.index_of(id) as u64
}

impl RouterView {
    /// The slot of the message that a payload is classified as.
    pub open spec fn slot_for(self, payload: Seq<PacketValue>) -> Option<u64> {
        match classify(self.registered.to_set(), payload) {
            Some(id) => Some(slot_of(self.registered, id)),
            None => None,
        }
    }

    /// The handlers that wait at a slot, the one that waits longest first.
    pub open spec fn waiting_at(self, slot: u64) -> Seq<u64> {
        if self.waiters.contains_key(slot) {
            self.waiters[slot]
        } else {
            Seq::empty()
        }
    }

    /// To whom a payload goes: to the subscriber of its message if there is one, else
    /// to the handler that waits longest for its message, else to nobody.
    pub open spec fn delivery_of(self, payload: Seq<PacketValue>) -> Delivery {
        match self.slot_for(payload) {
            None => Delivery::Dropped,
            Some(slot) => if self.subscribers.contains_key(slot) {
                Delivery::Notification(self.subscribers[slot])
            } else if self.waiting_at(slot).len() > 0 {
                Delivery::Response(self.waiting_at(slot)[0])
            } else {
                Delivery::Dropped
            },
        }
    }

    /// What the router knows after a payload has been routed: the handler that got a
    /// response waits no longer, and all else is as before.
    pub open spec fn after_routing(self, payload: Seq<PacketValue>) -> RouterView {
        match self.delivery_of(payload) {
            Delivery::Response(_) => {
                let slot = self.slot_for(payload)->Some_0;
                RouterView {
                    waiters: self.waiters.insert(slot, self.waiting_at(slot).skip(1)),
                    ..self
                }
            },
            _ => self,
        }
    }

    /// What the router knows once a response handler has joined those that wait at a
    /// slot: it waits behind them.
    pub open spec fn with_waiter(self, slot: u64, handler: u64) -> RouterView {
        RouterView { waiters: self.waiters.insert(slot, self.waiting_at(slot).push(handler)), ..self }
    }

    /// To whom each of a run of payloads goes when they are routed one after the
    /// other.
    pub open spec fn deliveries(self, payloads: Seq<Seq<PacketValue>>) -> Seq<Delivery>
        decreases payloads.len(),
    {
        if payloads.len() == 0 {
            Seq::empty()
        } else {
            seq![self.delivery_of(payloads[0])] + self.after_routing(payloads[0]).deliveries(
                payloads.skip(1),
            )
        }
    }
}

/// First come, first served: where the payloads of a run are all of one message that
/// has no subscriber, and at least as many handlers wait for that message, the
/// payloads go to the handlers in the order in which these came to wait, one payload
/// to each.
pub proof fn lemma_responses_in_order(state: RouterView, slot: u64, payloads: Seq<Seq<PacketValue>>)
    requires
        forall|i: int| 0 <= i < payloads.len() ==> state.slot_for(#[trigger] payloads[i]) == Some(slot),
        !state.subscribers.contains_key(slot),
        payloads.len() <= state.waiting_at(slot).len(),
    ensures
        state.deliveries(payloads).len() == payloads.len(),
        forall|i: int|
            0 <= i < payloads.len() ==> #[trigger] state.deliveries(payloads)[i]
                == Delivery::Response(state.waiting_at(slot)[i]),
    decreases payloads.len(),
{
    if payloads.len() > 0 {
        let next = state.after_routing(payloads[0]);
        let rest = payloads.skip(1);
        assert(state.slot_for(payloads[0]) == Some(slot));
        assert(next.waiting_at(slot) == state.waiting_at(slot).skip(1));
        assert forall|i: int| 0 <= i < rest.len() implies next.slot_for(#[trigger] rest[i]) == Some(
            slot,
        ) by {
            assert(rest[i] == payloads[i + 1]);
        }
        lemma_responses_in_order(next, slot, rest);
        assert forall|i: int| 0 <= i < payloads.len() implies #[trigger] state.deliveries(
            payloads,
        )[i] == Delivery::Response(state.waiting_at(slot)[i]) by {
            if i > 0 {
                assert(state.deliveries(payloads)[i] == next.deliveries(rest)[i - 1]);
                assert(next.waiting_at(slot)[i - 1] == state.waiting_at(slot)[i]);
            }
        }
    }
}

/// Two requests, two replies: where no handler waits for a message that has no
/// subscriber, and then a first and a second handler come to wait for it, the first
/// payload of that message goes to the first handler and the second to the second.
pub proof fn lemma_fifo(
    state: RouterView,
    slot: u64,
    first: u64,
    second: u64,
    reply1: Seq<PacketValue>,
    reply2: Seq<PacketValue>,
)
    requires
        state.slot_for(reply1) == Some(slot),
        state.slot_for(reply2) == Some(slot),
        !state.subscribers.contains_key(slot),
        state.waiting_at(slot).len() == 0,
    ensures
        ({
            let waiting = state.with_waiter(slot, first).with_waiter(slot, second);
            &&& waiting.delivery_of(reply1) == Delivery::Response(first)
            &&& waiting.after_routing(reply1).delivery_of(reply2) == Delivery::Response(second)
            &&& waiting.after_routing(reply1).after_routing(reply2).waiting_at(slot).len() == 0
        }),
{
    let waiting = state.with_waiter(slot, first).with_waiter(slot, second);
    assert(waiting.waiting_at(slot) =~= seq![first, second]);
    let payloads = seq![reply1, reply2];
    assert(payloads[0] == reply1 && payloads[1] == reply2);
    let after1 = waiting.after_routing(reply1);
    assert(after1.waiting_at(slot) =~= seq![second]);
    let after2 = after1.after_routing(reply2);
    assert(after2.waiting_at(slot) =~= Seq::<u64>::empty());
}

/// The routing table of a client: who handles which inbound packet.
pub struct Router {
    id_registry: MessageIdRegistry,
    raw_packet_handler: Option<u64>,
    response_handlers: DashMap<u64, VecDeque<u64>>,
    notif_handlers: DashMap<u64, u64>,
}

impl View for Router {
    type V = RouterView;

    closed spec fn view(&self) -> RouterView {
        RouterView {
            registered: self.id_registry.registered(),
            raw: self.raw_packet_handler,
            subscribers: subscribers_in(self.notif_handlers),
            waiters: waiters_in(self.response_handlers),
        }
    }
}

/// How long the reader sleeps between two looks at the connection, in milliseconds,
/// unless told otherwise.
pub const DEFAULT_POLL_RATE_MILLIS: u64 = 500;

/// What the reader of a connection does next.
#[derive(Clone, Copy, Debug, PartialEq, Eq, Structural)]
pub enum ReaderAction {
    /// Leave the loop.
    Stop,
    /// Look whether a packet has arrived.
    Peek,
    /// Read the packet that has arrived, and route it.
    Receive,
    /// Wait for so many milliseconds.
    Sleep(u64),
}

/// What the reader does next, as a function of what it knows.
pub open spec fn reader_action(cancelled: bool, peeked: Option<bool>, poll_rate: Option<u64>) -> ReaderAction {
    if cancelled {
        ReaderAction::Stop
    } else {
        match peeked {
            None => ReaderAction::Peek,
            Some(true) => ReaderAction::Receive,
            Some(false) => ReaderAction::Sleep(
                match poll_rate {
                    Some(millis) => millis,
                    None => DEFAULT_POLL_RATE_MILLIS,
                },
            ),
        }
    }
}

impl Router {
    /// Whether the router's registry is in order.
    pub closed spec fn wf(&self) -> bool {
        self.id_registry.wf()
    }

    /// The identifiers that the router knows.
    pub closed spec fn ids(&self) -> Set<Seq<PacketValue>> {
        self.id_registry.ids()
    }

    /// The identifiers that the router knows are those that have a slot, and each has
    /// its own.
    pub proof fn lemma_slots(&self)
        requires
            self.wf(),
        ensures
            self.ids() == self@.registered.to_set(),
            self@.registered.len() <= usize::MAX,
            forall|id: Seq<PacketValue>| #[trigger]
                self@.registered.contains(id) ==> self@.registered[slot_of(self@.registered, id) as int] == id,
            forall|i: int|
                0 <= i < self@.registered.len() ==> slot_of(
                    self@.registered,
                    #[trigger] self@.registered[i],
                ) == i,
    {
        self.id_registry.lemma_slots();
        self.id_registry.lemma_slot_bound();
        assert(self.ids() =~= self@.registered.to_set());
        let registered = self@.registered;
        assert forall|i: int| 0 <= i < registered.len() implies slot_of(
            registered,
            #[trigger] registered[i],
        ) == i by {
            let j = registered.index_of(registered[i]);
            assert(registered.contains(registered[i]));
            if j != i {
                if j < i {
                    assert(registered[j] != registered[i]);
                } else {
                    assert(registered[i] != registered[j]);
                }
            }
        }
    }

    pub fn new() -> (router: Self)
        ensures
            router.wf(),
            router@.registered == Seq::<Seq<PacketValue>>::empty(),
            router@.raw is None,
            router@.subscribers == Map::<u64, u64>::empty(),
            router@.waiters == Map::<u64, Seq<u64>>::empty(),
    {
        let router = Self {
            id_registry: MessageIdRegistry::new(),
            raw_packet_handler: None,
            response_handlers: new_waiters(),
            notif_handlers: new_subscribers(),
        };
        assert(router@.subscribers =~= Map::<u64, u64>::empty());
        assert(router@.waiters =~= Map::<u64, Seq<u64>>::empty());
        router
    }

    /// Makes every message that the game sends known to the router.
    pub fn register_server_messages(&mut self)
        requires
            old(self).wf(),
        ensures
            final(self).wf(),
            final(self)@.raw == old(self)@.raw,
            final(self)@.subscribers == old(self)@.subscribers,
            final(self)@.waiters == old(self)@.waiters,
            final(self)@.registered == registered_with_server_messages(old(self)@.registered),
            final(self).ids() == old(self).ids().insert(
                id_of::<crate::messages::notifications::ScriptsReloadProgress>(),
            ).insert(id_of::<crate::messages::requests::ScriptsRootPathResponse>()).insert(
                id_of::<crate::messages::requests::ExecuteCommandResponse>(),
            ).insert(id_of::<crate::messages::requests::ScriptPackagesResponse>()).insert(
                id_of::<crate::messages::requests::OpcodesResponse>(),
            ).insert(id_of::<crate::messages::requests::ConfigVarsResponse>()),
    {
        self.id_registry.register_server_messages();
    }

    /// Lets `callback` wait for the next reply of the message `R` that no handler
    /// before it takes.
    pub fn add_response_callback<R>(&mut self, callback: u64) where R: Response
        requires
            old(self).wf(),
        ensures
            final(self).wf(),
            final(self).ids() == old(self).ids().insert(id_of::<R>()),
            final(self)@ == (RouterView {
                registered: final(self)@.registered,
                ..old(self)@.with_waiter(slot_of(final(self)@.registered, id_of::<R>()), callback)
            }),
            final(self)@.registered == registered_with(old(self)@.registered, id_of::<R>()),
    {
        let id = R::assemble_id();
        let slot = self.id_registry.register(&id) as u64;
        proof {
            self.lemma_slots();
        }
        let mut queue = match take_waiters(&mut self.response_handlers, slot) {
            Some(queue) => queue,
            None => VecDeque::new(),
        };
        queue.push_back(callback);
        put_waiters(&mut self.response_handlers, slot, queue);
        assert(self@.waiters =~= old(self)@.with_waiter(slot, callback).waiters);
    }

    /// Makes `callback` the handler of the notification `N`, in place of the handler
    /// that it had.
    pub fn set_notification_callback<N>(&mut self, callback: u64) where N: Notification
        requires
            old(self).wf(),
        ensures
            final(self).wf(),
            final(self).ids() == old(self).ids().insert(id_of::<N>()),
            final(self)@.raw == old(self)@.raw,
            final(self)@.waiters == old(self)@.waiters,
            final(self)@.subscribers == old(self)@.subscribers.insert(
                slot_of(final(self)@.registered, id_of::<N>()),
                callback,
            ),
            final(self)@.registered == registered_with(old(self)@.registered, id_of::<N>()),
    {
        let id = N::assemble_id();
        let slot = self.id_registry.register(&id) as u64;
        proof {
            self.lemma_slots();
        }
        put_subscriber(&mut self.notif_handlers, slot, callback);
    }

    /// Makes `callback` the handler of every inbound packet.
    pub fn set_raw_packet_callback(&mut self, callback: u64)
        ensures
            final(self).wf() == old(self).wf(),
            final(self).ids() == old(self).ids(),
            final(self)@ == (RouterView { raw: Some(callback), ..old(self)@ }),
    {
        self.raw_packet_handler = Some(callback);
    }

    /// Gives up every handler that waits for a response: none of them will get one.
    pub fn abandon_waiters(&mut self)
        ensures
            final(self).wf() == old(self).wf(),
            final(self).ids() == old(self).ids(),
            final(self)@ == (RouterView { waiters: Map::empty(), ..old(self)@ }),
    {
        self.response_handlers = new_waiters();
        assert(self@.waiters =~= Map::<u64, Seq<u64>>::empty());
    }

    /// Decides who handles an inbound packet, and lets the handler that gets a
    /// response wait no longer.
    pub fn route(&mut self, packet: &WitcherPacket) -> (decision: RouteDecision)
        requires
            old(self).wf(),
        ensures
            final(self).wf(),
            final(self).ids() == old(self).ids(),
            decision.raw == old(self)@.raw,
            decision.delivery == old(self)@.delivery_of(packet@),
            final(self)@ == old(self)@.after_routing(packet@),
    {
        let raw = self.raw_packet_handler;
        proof {
            self.lemma_slots();
        }
        let delivery = match self.id_registry.probe_slot(packet) {
            None => Delivery::Dropped,
            Some(slot) => {
                let slot = slot as u64;
                match subscriber_at(&self.notif_handlers, slot) {
                    Some(handler) => Delivery::Notification(handler),
                    None => match take_waiters(&mut self.response_handlers, slot) {
                        None => Delivery::Dropped,
                        Some(mut queue) => {
                            let ghost waiting = queue@;
                            let first = queue.pop_front();
                            put_waiters(&mut self.response_handlers, slot, queue);
                            match first {
                                Some(handler) => {
                                    assert(self@.waiters =~= old(self)@.waiters.insert(
                                        slot,
                                        waiting.skip(1),
                                    ));
                                    Delivery::Response(handler)
                                },
                                None => {
                                    assert(self@.waiters =~= old(self)@.waiters);
                                    Delivery::Dropped
                                },
                            }
                        },
                    },
                }
            },
        };
        RouteDecision { raw, delivery }
    }

    /// What the reader of the connection does next: it stops once it is cancelled;
    /// else it looks for a packet, reads the packet that is there, and sleeps for the
    /// poll rate where none is.
    pub fn event_loop_step(cancelled: bool, peeked: Option<bool>, poll_rate: Option<u64>) -> (action: ReaderAction)
        ensures
            action == reader_action(cancelled, peeked, poll_rate),
    {
        if cancelled {
            ReaderAction::Stop
        } else {
            match peeked {
                None => ReaderAction::Peek,
                Some(true) => ReaderAction::Receive,
                Some(false) => ReaderAction::Sleep(
                    match poll_rate {
                        Some(millis) => millis,
                        None => DEFAULT_POLL_RATE_MILLIS,
                    },
                ),
            }
        }
    }
}

} // verus!
