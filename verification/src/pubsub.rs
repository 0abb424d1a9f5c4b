//! The broker's routing state and its reaction to each event.

use std::collections::HashSet;

use uuid::Uuid;
use vstd::prelude::*;
use vstd::std_specs::hash::*;

use crate::connection_kind::ConnectionKind;
use crate::error::IoFailure;
use crate::event::{Event, EventView};
use crate::message::{Message, MessageView};
use crate::subscription_request::SubscriptionRequest;

verus! {

/// How often `topic` occurs in `topics`.
pub open spec fn occurrences(topics: Seq<Seq<char>>, topic: Seq<char>) -> nat
    decreases topics.len(),
{
    if topics.len() == 0 {
        0
    } else {
        occurrences(topics.drop_last(), topic) + if topics.last() == topic {
            1nat
        } else {
            0nat
        }
    }
}

/// A topic that is not named occurs no times.
pub proof fn lemma_occurrences_absent(topics: Seq<Seq<char>>, topic: Seq<char>)
    requires
        !topics.contains(topic),
    ensures
        occurrences(topics, topic) == 0,
    decreases topics.len(),
{
    if topics.len() > 0 {
        assert(topics[topics.len() - 1] != topic);
        assert forall|i: int| 0 <= i < topics.drop_last().len() implies topics.drop_last()[i]
            != topic by {
            assert(topics[i] != topic);
        }
        lemma_occurrences_absent(topics.drop_last(), topic);
    }
}

/// One message on its way to one subscriber, taken by its view.
pub struct DeliveryView {
    pub subscriber: u128,
    pub message: MessageView,
}

/// The subscriber `id`, `n` times over.
pub open spec fn repeated(id: u128, n: nat) -> Seq<u128> {
    Seq::new(n, |i: int| id)
}

/// The test whether a subscriber is in `registry`.
pub open spec fn live_in(registry: Set<u128>) -> spec_fn(u128) -> bool {
    |id: u128| registry.contains(id)
}

/// `n` copies of `message` for the subscriber `id`.
pub open spec fn copies(id: u128, message: MessageView, n: nat) -> Seq<DeliveryView> {
    Seq::new(n, |i: int| DeliveryView { subscriber: id, message })
}

/// The copy of `message` that each subscriber gets.
pub open spec fn copy_for(message: MessageView) -> spec_fn(u128) -> DeliveryView {
    |id: u128| DeliveryView { subscriber: id, message }
}

/// The state of the broker: which subscribers have a live handler, who
/// asked for which topic, in the order the requests arrived, and the two
/// ports it was made for.
pub struct PubSubView {
    pub registry: Set<u128>,
    pub routes: Map<Seq<char>, Seq<u128>>,
    pub publisher_port: u16,
    pub subscriber_port: u16,
}

impl PubSubView {
    /// The subscribers of `topic` in the order they asked for it; none for a
    /// topic that nobody asked for.
    pub open spec fn subscribers_of(self, topic: Seq<char>) -> Seq<u128> {
        if self.routes.dom().contains(topic) {
            self.routes[topic]
        } else {
            Seq::empty()
        }
    }

    /// The test whether a subscriber has a live handler.
    pub open spec fn is_live(self) -> spec_fn(u128) -> bool {
        live_in(self.registry)
    }

    /// The subscribers of `topic` that have a live handler.
    pub open spec fn recipients(self, topic: Seq<char>) -> Seq<u128> {
        self.subscribers_of(topic).filter(self.is_live())
    }

    /// One copy of `message` for each recipient of its topic, in order.
    pub open spec fn deliveries(self, message: MessageView) -> Seq<DeliveryView> {
        self.recipients(message.topic).map_values(copy_for(message))
    }

    /// The state once the subscriber `id` has a live handler.
    pub open spec fn register(self, id: u128) -> PubSubView {
        PubSubView { registry: self.registry.insert(id), ..self }
    }

    /// The state once `id` is added to the end of `topic`'s subscribers.
    pub open spec fn subscribe_one(self, id: u128, topic: Seq<char>) -> PubSubView {
        PubSubView {
            routes: self.routes.insert(topic, self.subscribers_of(topic).push(id)),
            ..self
        }
    }

    /// The state once `id` has asked for `topics`: each topic's subscribers
    /// grow at the end by `id`, once for each time the topic is named.
    pub open spec fn subscribe(self, id: u128, topics: Seq<Seq<char>>) -> PubSubView {
        PubSubView {
            routes: Map::new(
                |topic: Seq<char>| self.routes.dom().contains(topic) || topics.contains(topic),
                |topic: Seq<char>|
                    self.subscribers_of(topic) + repeated(id, occurrences(topics, topic)),
            ),
            ..self
        }
    }

    /// The state after `event` and what is to be done about it. `minted` is
    /// the identity that a new subscriber gets.
    pub open spec fn step(self, event: EventView, minted: u128) -> (PubSubView, ActionView) {
        match event {
            EventView::Connection(_, Err(failure)) => (
                self,
                ActionView::DiscardConnection(failure),
            ),
            EventView::Connection(ConnectionKind::Publisher, Ok(_)) => (
                self,
                ActionView::StartPublisher,
            ),
            EventView::Connection(ConnectionKind::Subscriber, Ok(_)) => (
                self.register(minted),
                ActionView::StartSubscriber(minted),
            ),
            EventView::Publish(message) => (self, ActionView::Deliver(self.deliveries(message))),
            EventView::SubscriptionRequest(id, topics) => (
                self.subscribe(id, topics),
                ActionView::Continue,
            ),
            EventView::Termination => (self, ActionView::Stop),
        }
    }

    /// The state after all of `events`, where `ids[i]` is the identity that
    /// a subscriber connecting at the event `i` gets.
    pub open spec fn after(self, events: Seq<EventView>, ids: Seq<u128>) -> PubSubView
        decreases events.len(),
    {
        if events.len() == 0 {
            self
        } else {
            self.after(events.drop_last(), ids).step(events.last(), ids[events.len() - 1]).0
        }
    }

    /// Whether taking `events` in order from this state gives `actions` and
    /// ends in `end`: the events are taken up to the first termination and
    /// no further, each gets its action from the state that the events
    /// before it left, and `end` is the state that the last one taken left.
    pub open spec fn runs(
        self,
        events: Seq<EventView>,
        actions: Seq<ActionView>,
        end: PubSubView,
    ) -> bool {
        let ids = minted_ids(actions);
        &&& actions.len() <= events.len()
        &&& forall|i: int|
            #![trigger events[i]]
            0 <= i < actions.len() - 1 ==> !(events[i] is Termination)
        &&& actions.len() < events.len() ==> actions.len() > 0 && events[actions.len() - 1]
            is Termination
        &&& forall|i: int| 0 <= i < actions.len() ==> #[trigger] self.follows(events, actions, i)
        &&& end == self.after(events.take(actions.len() as int), ids)
    }

    /// Whether the action at `i` is what the event at `i` brings in the
    /// state that the events before it left.
    pub open spec fn follows(
        self,
        events: Seq<EventView>,
        actions: Seq<ActionView>,
        i: int,
    ) -> bool {
        let ids = minted_ids(actions);
        actions[i] == self.after(events.take(i), ids).step(events[i], ids[i]).1
    }

    /// One more event taken: the actions so far stay what the events
    /// brought, the new action is what the new event brings, and the state
    /// is the one after the events taken.
    proof fn lemma_one_more(
        self,
        events: Seq<EventView>,
        before: Seq<ActionView>,
        action: ActionView,
        state: PubSubView,
        next: PubSubView,
    )
        requires
            before.len() < events.len(),
            forall|j: int| 0 <= j < before.len() ==> #[trigger] self.follows(events, before, j),
            state == self.after(events.take(before.len() as int), minted_ids(before)),
            (next, action) == state.step(events[before.len() as int], action.minted()),
        ensures
            forall|j: int|
                0 <= j <= before.len() ==> #[trigger] self.follows(events, before.push(action), j),
            next == self.after(
                events.take(before.len() as int + 1),
                minted_ids(before.push(action)),
            ),
    {
        let i = before.len() as int;
        let taken = before.push(action);
        let ids = minted_ids(taken);
        let old_ids = minted_ids(before);
        assert forall|j: int| 0 <= j <= i implies self.after(events.take(j), ids) == self.after(
            events.take(j),
            old_ids,
        ) by {
            self.lemma_after_ids(events.take(j), ids, old_ids);
        }
        assert forall|j: int| 0 <= j <= i implies #[trigger] self.follows(events, taken, j) by {
            if j < i {
                assert(self.follows(events, before, j));
                assert(taken[j] == before[j]);
                assert(ids[j] == old_ids[j]);
            }
        }
        assert(events.take(i + 1).drop_last() =~= events.take(i));
        assert(events.take(i + 1).last() == events[i]);
    }

    /// The state after some events depends on the identities minted at
    /// those events only.
    pub proof fn lemma_after_ids(self, events: Seq<EventView>, ids: Seq<u128>, other: Seq<u128>)
        requires
            forall|k: int| 0 <= k < events.len() ==> ids[k] == other[k],
        ensures
            self.after(events, ids) == self.after(events, other),
        decreases events.len(),
    {
        if events.len() > 0 {
            self.lemma_after_ids(events.drop_last(), ids, other);
        }
    }

    /// Asking for one more topic is asking for the topics so far and then
    /// for that one.
    pub proof fn lemma_subscribe_push(self, id: u128, topics: Seq<Seq<char>>, topic: Seq<char>)
        ensures
            self.subscribe(id, topics.push(topic)) == self.subscribe(id, topics).subscribe_one(
                id,
                topic,
            ),
    {
        let longer = topics.push(topic);
        let direct = self.subscribe(id, longer);
        let stepped = self.subscribe(id, topics).subscribe_one(id, topic);
        assert(longer.drop_last() =~= topics);
        assert forall|t: Seq<char>| direct.routes.dom().contains(t) == stepped.routes.dom().contains(
            t,
        ) by {
            if topics.contains(t) {
                let i = choose|i: int| 0 <= i < topics.len() && topics[i] == t;
                assert(longer[i] == t);
            }
            if longer.contains(t) && t != topic {
                let i = choose|i: int| 0 <= i < longer.len() && longer[i] == t;
                assert(topics[i] == t);
            }
            assert(longer[longer.len() - 1] == topic);
        }
        assert forall|t: Seq<char>| #[trigger]
            direct.routes.dom().contains(t) implies direct.routes[t] == stepped.routes[t] by {
            let before = self.subscribe(id, topics);
            if t == topic {
                assert(occurrences(longer, t) == occurrences(topics, t) + 1);
                if !before.routes.dom().contains(t) {
                    lemma_occurrences_absent(topics, t);
                }
            } else {
                assert(occurrences(longer, t) == occurrences(topics, t));
            }
            assert(direct.routes[t] =~= stepped.routes[t]);
        }
        assert(direct.routes =~= stepped.routes);
    }

    /// Asking for no topic changes nothing.
    pub proof fn lemma_subscribe_nothing(self, id: u128)
        ensures
            self.subscribe(id, Seq::empty()) == self,
    {
        let after = self.subscribe(id, Seq::empty());
        assert forall|t: Seq<char>| #[trigger]
            after.routes.dom().contains(t) implies after.routes[t] == self.routes[t] by {
            assert(after.routes[t] =~= self.routes[t]);
        }
        assert(after.routes =~= self.routes);
    }
}

/// One copy of a message for one subscriber.
#[derive(Debug, PartialEq, Eq)]
pub struct Delivery {
    pub subscriber: u128,
    pub message: Message,
}

impl View for Delivery {
    type V = DeliveryView;

    open spec fn view(&self) -> DeliveryView {
        DeliveryView { subscriber: self.subscriber, message: self.message@ }
    }
}

/// The deliveries of a list, each taken by its view.
pub open spec fn deliveries_view(deliveries: Seq<Delivery>) -> Seq<DeliveryView> {
    deliveries.map_values(|delivery: Delivery| delivery@)
}

/// What is to be done after an event, taken by its view.
pub enum ActionView {
    StartPublisher,
    StartSubscriber(u128),
    DiscardConnection(IoFailure),
    Deliver(Seq<DeliveryView>),
    Continue,
    Stop,
}

impl ActionView {
    /// The identity that the action hands to a new subscriber; zero for
    /// every other action.
    pub open spec fn minted(self) -> u128 {
        match self {
            ActionView::StartSubscriber(id) => id,
            _ => 0,
        }
    }
}

/// The identity that each action of a list hands out.
pub open spec fn minted_ids(actions: Seq<ActionView>) -> Seq<u128> {
    Seq::new(actions.len(), |i: int| actions[i].minted())
}

/// What the owner of the sockets and threads is to do after an event.
#[derive(Debug, PartialEq, Eq)]
pub enum Action {
    /// Hand the accepted connection to a new publisher handler and keep it.
    StartPublisher,
    /// Hand the accepted connection to a new subscriber handler under this
    /// identity.
    StartSubscriber(u128),
    /// The connection failed before it was established: nothing to keep.
    DiscardConnection(IoFailure),
    /// Enqueue each message to its subscriber, in this order.
    Deliver(Vec<Delivery>),
    /// Nothing to do but take the next event.
    Continue,
    /// Take no more events.
    Stop,
}

impl View for Action {
    type V = ActionView;

    open spec fn view(&self) -> ActionView {
        match self {
            Action::StartPublisher => ActionView::StartPublisher,
            Action::StartSubscriber(id) => ActionView::StartSubscriber(*id),
            Action::DiscardConnection(failure) => ActionView::DiscardConnection(*failure),
            Action::Deliver(deliveries) => ActionView::Deliver(deliveries_view(deliveries@)),
            Action::Continue => ActionView::Continue,
            Action::Stop => ActionView::Stop,
        }
    }
}

/// The actions of a list, each taken by its view.
pub open spec fn actions_view(actions: Seq<Action>) -> Seq<ActionView> {
    actions.map_values(|action: Action| action@)
}

/// The events of a list, each taken by its view.
pub open spec fn events_view(events: Seq<Event>) -> Seq<EventView> {
    events.map_values(|event: Event| event@)
}

/// The subscribers of one topic, in the order they asked for it.
struct Route {
    topic: String,
    subscribers: Vec<u128>,
}

/// Whether the route at `i` is the one of `topic`.
spec fn route_at(routes: Seq<Route>, topic: Seq<char>, i: int) -> bool {
    0 <= i < routes.len() && routes[i].topic@ == topic
}

/// Whether no two routes are for the same topic.
spec fn distinct_topics(routes: Seq<Route>) -> bool {
    forall|i: int, j: int|
        0 <= i < j < routes.len() ==> (#[trigger] routes[i]).topic@ != (#[trigger] routes[j]).topic@
}

/// Whether some route is for `topic`.
spec fn has_route(routes: Seq<Route>, topic: Seq<char>) -> bool {
    exists|i: int| route_at(routes, topic, i)
}

/// The place of the route of `topic`.
spec fn route_index(routes: Seq<Route>, topic: Seq<char>) -> int {
    choose|i: int| route_at(routes, topic, i)
}

/// The routing table that a list of routes stands for.
spec fn routes_view(routes: Seq<Route>) -> Map<Seq<char>, Seq<u128>> {
    Map::new(
        |topic: Seq<char>| has_route(routes, topic),
        |topic: Seq<char>| routes[route_index(routes, topic)].subscribers@,
    )
}

/// With distinct topics, the route of a topic is found at one place only.
proof fn lemma_route_index(routes: Seq<Route>, topic: Seq<char>, i: int)
    requires
        distinct_topics(routes),
        route_at(routes, topic, i),
    ensures
        has_route(routes, topic),
        route_index(routes, topic) == i,
{
    let j = route_index(routes, topic);
    assert(route_at(routes, topic, j));
    if i < j {
        assert(routes[i].topic@ != routes[j].topic@);
    } else if j < i {
        assert(routes[j].topic@ != routes[i].topic@);
    }
}

/// Where the route of `topic` is, if there is one.
fn find_route(routes: &Vec<Route>, topic: &String) -> (found: Option<usize>)
    ensures
        match found {
            Some(i) => route_at(routes@, topic@, i as int),
            None => !has_route(routes@, topic@),
        },
{
    let mut i: usize = 0;
    while i < routes.len()
        invariant
            i <= routes@.len(),
            forall|j: int| 0 <= j < i ==> !route_at(routes@, topic@, j),
        decreases routes@.len() - i,
    {
        if routes[i].topic == *topic {
            return Some(i);
        }
        i += 1;
    }
    None
}

/// The subscribers that a list of routes has for `topic`; none without a
/// route.
spec fn routed_to(routes: Seq<Route>, topic: Seq<char>) -> Seq<u128> {
    if has_route(routes, topic) {
        routes[route_index(routes, topic)].subscribers@
    } else {
        Seq::empty()
    }
}

/// Adds `id` to the end of the route of `topic`, with a new route for a
/// topic that had none.
fn append_subscriber(routes: &mut Vec<Route>, id: u128, topic: &String)
    requires
        distinct_topics(old(routes)@),
    ensures
        distinct_topics(final(routes)@),
        routes_view(final(routes)@) == routes_view(old(routes)@).insert(
            topic@,
            routed_to(old(routes)@, topic@).push(id),
        ),
{
    let ghost before = routes@;
    match find_route(routes, topic) {
        Some(i) => {
            routes[i].subscribers.push(id);
            proof {
                let after = routes@;
                assert(distinct_topics(after));
                lemma_route_index(before, topic@, i as int);
                assert forall|t: Seq<char>| has_route(after, t) == (has_route(before, t) || t
                    == topic@) by {
                    if has_route(before, t) {
                        assert(route_at(after, t, route_index(before, t)));
                    }
                    if has_route(after, t) {
                        assert(route_at(before, t, route_index(after, t)));
                    }
                }
                assert forall|t: Seq<char>| has_route(after, t) implies after[route_index(
                    after,
                    t,
                )].subscribers@ == if t == topic@ {
                    before[i as int].subscribers@.push(id)
                } else {
                    before[route_index(before, t)].subscribers@
                } by {
                    let k = route_index(after, t);
                    assert(route_at(before, t, k));
                    lemma_route_index(before, t, k);
                }
            }
        },
        None => {
            let mut subscribers: Vec<u128> = Vec::new();
            subscribers.push(id);
            routes.push(Route { topic: topic.clone(), subscribers });
            proof {
                let after = routes@;
                let last = after.len() - 1;
                assert(distinct_topics(after)) by {
                    assert forall|a: int, b: int| 0 <= a < b < after.len() implies (
                    #[trigger] after[a]).topic@ != (#[trigger] after[b]).topic@ by {
                        if b == last {
                            assert(!route_at(before, topic@, a));
                        } else {
                            assert(before[a].topic@ != before[b].topic@);
                        }
                    }
                }
                assert(route_at(after, topic@, last));
                lemma_route_index(after, topic@, last);
                assert forall|t: Seq<char>| has_route(after, t) == (has_route(before, t) || t
                    == topic@) by {
                    if has_route(before, t) {
                        assert(route_at(after, t, route_index(before, t)));
                    }
                    if has_route(after, t) && t != topic@ {
                        assert(route_at(before, t, route_index(after, t)));
                    }
                }
                assert forall|t: Seq<char>| has_route(after, t) implies after[route_index(
                    after,
                    t,
                )].subscribers@ == if t == topic@ {
                    Seq::<u128>::empty().push(id)
                } else {
                    before[route_index(before, t)].subscribers@
                } by {
                    let k = route_index(after, t);
                    if t != topic@ {
                        assert(route_at(before, t, k));
                        lemma_route_index(before, t, k);
                    }
                    assert(after[last].subscribers@ =~= Seq::<u128>::empty().push(id));
                }
            }
        },
    }
    assert(routes_view(routes@) =~= routes_view(before).insert(
        topic@,
        routed_to(before, topic@).push(id),
    ));
}

/// The broker's routing state. It is changed by events alone, one at a
/// time.
pub struct PubSub {
    subscribers: HashSet<u128>,
    routes: Vec<Route>,
    publisher_port: u16,
    subscriber_port: u16,
}

impl View for PubSub {
    type V = PubSubView;

    closed spec fn view(&self) -> PubSubView {
        PubSubView {
            registry: self.subscribers@,
            routes: routes_view(self.routes@),
            publisher_port: self.publisher_port,
            subscriber_port: self.subscriber_port,
        }
    }
}

/// Whether `id` bears the marks that every random identity has: the
/// version is 4 and the variant is the standard one.
pub open spec fn is_random_identity(id: u128) -> bool {
    (id >> 76) & 0xf == 4 && (id >> 62) & 0x3 == 2
}

/// A fresh identity from `uuid::Uuid::new_v4`, as the 128-bit number that
/// `Uuid::as_u128` gives for it. It is random: of its value only the
/// version and variant marks are promised, which `new_v4` sets on every
/// draw.
#[verifier::external_body]
fn mint_subscriber_id() -> (id: u128)
    ensures
        is_random_identity(id),
{
    Uuid::new_v4().as_u128()
}

impl PubSub {
    #[verifier::type_invariant]
    spec fn well_formed(self) -> bool {
        distinct_topics(self.routes@)
    }

    /// A broker for the two ports, with no subscriber and no route.
    pub fn new(publisher_port: u16, subscriber_port: u16) -> (broker: Self)
        ensures
            broker@ == (PubSubView {
                registry: Set::empty(),
                routes: Map::empty(),
                publisher_port,
                subscriber_port,
            }),
    {
        let broker = Self {
            subscribers: HashSet::new(),
            routes: Vec::new(),
            publisher_port,
            subscriber_port,
        };
        assert(broker@.routes =~= Map::<Seq<char>, Seq<u128>>::empty());
        broker
    }

    /// The port that publishers connect to.
    pub fn publisher_port(&self) -> (port: u16)
        ensures
            port == self@.publisher_port,
    {
        self.publisher_port
    }

    /// The port that subscribers connect to.
    pub fn subscriber_port(&self) -> (port: u16)
        ensures
            port == self@.subscriber_port,
    {
        self.subscriber_port
    }

    /// Whether the subscriber `id` has a live handler.
    pub fn is_registered(&self, id: u128) -> (found: bool)
        ensures
            found == self@.registry.contains(id),
    {
        broadcast use group_hash_axioms;

        self.subscribers.contains(&id)
    }

    /// Records that the subscriber `id` has a live handler. Whatever the
    /// identity, and whether or not it is registered already, the state
    /// afterwards holds it.
    pub fn register_subscriber(&mut self, id: u128)
        ensures
            final(self)@ == old(self)@.register(id),
    {
        broadcast use group_hash_axioms;

        proof {
            use_type_invariant(&*self);
        }
        let mut subscribers: HashSet<u128> = HashSet::new();
        core::mem::swap(&mut self.subscribers, &mut subscribers);
        subscribers.insert(id);
        core::mem::swap(&mut self.subscribers, &mut subscribers);
    }

    /// Adds `id` to the end of `topic`'s subscribers, with a new route for
    /// a topic that had none.
    fn subscribe_to(&mut self, id: u128, topic: &String)
        ensures
            final(self)@ == old(self)@.subscribe_one(id, topic@),
    {
        proof {
            use_type_invariant(&*self);
        }
        let mut routes: Vec<Route> = Vec::new();
        core::mem::swap(&mut self.routes, &mut routes);
        append_subscriber(&mut routes, id, topic);
        core::mem::swap(&mut self.routes, &mut routes);
    }

    /// Registers the subscriber `id` to every topic of `request`, in
    /// request order. A topic named twice gets the subscriber twice.
    pub fn handle_subscription_request(&mut self, id: u128, request: &SubscriptionRequest)
        ensures
            final(self)@ == old(self)@.subscribe(id, request@),
    {
        let topics = request.topics();
        let mut i: usize = 0;
        proof {
            old(self)@.lemma_subscribe_nothing(id);
            assert(request@.take(0) =~= Seq::<Seq<char>>::empty());
        }
        while i < topics.len()
            invariant
                i <= topics.len(),
                topics.deep_view() == request@,
                self@ == old(self)@.subscribe(id, request@.take(i as int)),
            decreases topics.len() - i,
        {
            self.subscribe_to(id, &topics[i]);
            proof {
                assert(request@.take(i + 1) =~= request@.take(i as int).push(topics[i as int]@));
                old(self)@.lemma_subscribe_push(id, request@.take(i as int), topics[i as int]@);
            }
            i += 1;
        }
        assert(request@.take(i as int) =~= request@);
    }

    /// The subscribers of `topic`, in the order they asked for it.
    pub fn subscribers_of(&self, topic: &String) -> (subscribers: Vec<u128>)
        ensures
            subscribers@ == self@.subscribers_of(topic@),
    {
        proof {
            use_type_invariant(self);
        }
        match find_route(&self.routes, topic) {
            Some(i) => {
                proof {
                    lemma_route_index(self.routes@, topic@, i as int);
                }
                self.routes[i].subscribers.clone()
            },
            None => Vec::new(),
        }
    }

    /// One copy of `message` for the subscriber `id`.
    pub fn publish_message_to_subscriber(&self, message: &Message, id: u128) -> (delivery: Delivery)
        ensures
            delivery@ == (DeliveryView { subscriber: id, message: message@ }),
    {
        Delivery { subscriber: id, message: message.clone() }
    }

    /// One copy of `message` for each of `subscribers` that has a live
    /// handler, in order. A subscriber without one is passed over.
    pub fn publish_message_to_subscribers(
        &self,
        message: &Message,
        subscribers: &Vec<u128>,
    ) -> (deliveries: Vec<Delivery>)
        ensures
            deliveries_view(deliveries@) == subscribers@.filter(self@.is_live()).map_values(
                copy_for(message@),
            ),
    {
        let ghost live = self@.is_live();
        let ghost copy = copy_for(message@);
        let mut deliveries: Vec<Delivery> = Vec::new();
        let mut i: usize = 0;
        proof {
            reveal(Seq::filter);
            assert(subscribers@.take(0) =~= Seq::<u128>::empty());
            assert(deliveries_view(deliveries@) =~= subscribers@.take(0).filter(live).map_values(
                copy,
            ));
        }
        while i < subscribers.len()
            invariant
                i <= subscribers@.len(),
                live == self@.is_live(),
                copy == copy_for(message@),
                deliveries_view(deliveries@) == subscribers@.take(i as int).filter(live).map_values(
                    copy,
                ),
            decreases subscribers@.len() - i,
        {
            let id = subscribers[i];
            let ghost before = deliveries@;
            let registered = self.is_registered(id);
            if registered {
                let delivery = self.publish_message_to_subscriber(message, id);
                deliveries.push(delivery);
            }
            proof {
                reveal(Seq::filter);
                let shorter = subscribers@.take(i as int);
                let longer = subscribers@.take(i + 1);
                assert(longer.drop_last() =~= shorter);
                assert(longer.last() == id);
                assert(live(id) == registered);
                assert(longer.filter(live) == if registered {
                    shorter.filter(live).push(id)
                } else {
                    shorter.filter(live)
                });
                assert(deliveries_view(before) == shorter.filter(live).map_values(copy));
                if registered {
                    assert(deliveries@ == before.push(deliveries@.last()));
                    assert(deliveries@.last()@ == copy(id));
                }
                let kept = longer.filter(live);
                assert(deliveries@.len() == kept.len()) by {
                    assert(deliveries_view(before).len() == before.len());
                }
                assert forall|k: int| 0 <= k < kept.len() implies deliveries@[k]@ == copy(
                    kept[k],
                ) by {
                    if k < before.len() {
                        assert(deliveries_view(before)[k] == before[k]@);
                        assert(shorter.filter(live).map_values(copy)[k] == copy(
                            shorter.filter(live)[k],
                        ));
                    }
                }
                assert(deliveries_view(deliveries@) =~= kept.map_values(copy));
            }
            i += 1;
        }
        assert(subscribers@.take(i as int) =~= subscribers@);
        deliveries
    }

    /// One copy of `message` for each subscriber of its topic that has a
    /// live handler, in the order they asked for the topic. A topic that
    /// nobody asked for gives none.
    pub fn handle_publish(&self, message: &Message) -> (deliveries: Vec<Delivery>)
        ensures
            deliveries_view(deliveries@) == self@.deliveries(message@),
    {
        proof {
            use_type_invariant(self);
        }
        match find_route(&self.routes, message.topic()) {
            Some(i) => {
                proof {
                    lemma_route_index(self.routes@, message@.topic, i as int);
                }
                self.publish_message_to_subscribers(message, &self.routes[i].subscribers)
            },
            None => {
                let deliveries: Vec<Delivery> = Vec::new();
                proof {
                    reveal(Seq::filter);
                    assert(deliveries_view(deliveries@) =~= self@.deliveries(message@));
                }
                deliveries
            },
        }
    }

    /// A publisher connection: accepted, it is to get a handler; failed, it
    /// is discarded. The state does not change.
    pub fn handle_publisher_connection(
        &mut self,
        accepted: Result<(), IoFailure>,
    ) -> (action: Action)
        ensures
            *final(self) == *old(self),
            action@ == match accepted {
                Ok(_) => ActionView::StartPublisher,
                Err(failure) => ActionView::DiscardConnection(failure),
            },
    {
        match accepted {
            Ok(_) => Action::StartPublisher,
            Err(failure) => Action::DiscardConnection(failure),
        }
    }

    /// A subscriber connection: accepted, it gets a fresh identity, is
    /// registered under it and is to get a handler; failed, it is
    /// discarded and the state does not change.
    pub fn handle_subscriber_connection(
        &mut self,
        accepted: Result<(), IoFailure>,
    ) -> (action: Action)
        ensures
            match accepted {
                Ok(_) => action@ is StartSubscriber && is_random_identity(action@.minted())
                    && final(self)@ == old(self)@.register(action@.minted()),
                Err(failure) => action@ == ActionView::DiscardConnection(failure) && *final(self)
                    == *old(self),
            },
    {
        match accepted {
            Ok(_) => {
                let id = mint_subscriber_id();
                self.register_subscriber(id);
                Action::StartSubscriber(id)
            },
            Err(failure) => Action::DiscardConnection(failure),
        }
    }

    /// A connection of either kind.
    pub fn handle_connection(
        &mut self,
        kind: ConnectionKind,
        accepted: Result<(), IoFailure>,
    ) -> (action: Action)
        ensures
            (final(self)@, action@) == old(self)@.step(
                EventView::Connection(kind, accepted),
                action@.minted(),
            ),
            action@ is StartSubscriber ==> is_random_identity(action@.minted()),
    {
        match kind {
            ConnectionKind::Publisher => self.handle_publisher_connection(accepted),
            ConnectionKind::Subscriber => self.handle_subscriber_connection(accepted),
        }
    }

    /// Reacts to one event: changes the routing state as the event asks and
    /// says what is to be done. Only a termination gives `Stop`. The ports
    /// stay as they were, and an identity handed to a new subscriber bears
    /// the marks of a random one.
    pub fn handle_event(&mut self, event: &Event) -> (action: Action)
        ensures
            (final(self)@, action@) == old(self)@.step(event@, action@.minted()),
            final(self)@.publisher_port == old(self)@.publisher_port,
            final(self)@.subscriber_port == old(self)@.subscriber_port,
            action@ is StartSubscriber ==> is_random_identity(action@.minted()),
    {
        match event {
            Event::Connection(kind, accepted) => self.handle_connection(*kind, *accepted),
            Event::Publish(message) => Action::Deliver(self.handle_publish(message)),
            Event::SubscriptionRequest(id, request) => {
                self.handle_subscription_request(*id, request);
                Action::Continue
            },
            Event::Termination => Action::Stop,
        }
    }

    /// Takes `events` in order, up to the first termination and no
    /// further, and gives the action of each event taken. The ports stay as
    /// they were, and each identity handed to a new subscriber bears the
    /// marks of a random one.
    pub fn process_events(&mut self, events: &Vec<Event>) -> (actions: Vec<Action>)
        ensures
            old(self)@.runs(events_view(events@), actions_view(actions@), final(self)@),
            final(self)@.publisher_port == old(self)@.publisher_port,
            final(self)@.subscriber_port == old(self)@.subscriber_port,
            forall|i: int|
                0 <= i < actions@.len() && (#[trigger] actions@[i])@ is StartSubscriber
                    ==> is_random_identity(actions@[i]@.minted()),
    {
        let ghost start = old(self)@;
        let ghost all = events_view(events@);
        let mut actions: Vec<Action> = Vec::new();
        let mut running = true;
        let mut i: usize = 0;
        assert(all.take(0) =~= Seq::<EventView>::empty());
        while running && i < events.len()
            invariant
                start == old(self)@,
                all == events_view(events@),
                i <= events@.len(),
                actions@.len() == i,
                self@.publisher_port == start.publisher_port,
                self@.subscriber_port == start.subscriber_port,
                forall|j: int|
                    0 <= j < i && (#[trigger] actions@[j])@ is StartSubscriber
                        ==> is_random_identity(actions@[j]@.minted()),
                forall|j: int| #![trigger all[j]] 0 <= j < i - 1 ==> !(all[j] is Termination),
                running ==> forall|j: int|
                    #![trigger all[j]]
                    0 <= j < i ==> !(all[j] is Termination),
                !running ==> i > 0 && all[i - 1] is Termination,
                forall|j: int|
                    0 <= j < i ==> #[trigger] start.follows(all, actions_view(actions@), j),
                self@ == start.after(all.take(i as int), minted_ids(actions_view(actions@))),
            decreases events@.len() - i,
        {
            let ghost before = actions_view(actions@);
            let ghost state = self@;
            let action = self.handle_event(&events[i]);
            running = match action {
                Action::Stop => false,
                _ => true,
            };
            actions.push(action);
            proof {
                assert(all[i as int] == events@[i as int]@);
                assert(actions_view(actions@) =~= before.push(action@));
                start.lemma_one_more(all, before, action@, state, self@);
            }
            i += 1;
        }
        actions
    }
}

} // verus!
