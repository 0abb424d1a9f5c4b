//! What holds of the broker's routing, whatever the state and the events.

use vstd::prelude::*;

use crate::event::EventView;
use crate::message::MessageView;
use crate::pubsub::{
    copies, lemma_occurrences_absent, live_in, minted_ids, occurrences, repeated, ActionView,
    DeliveryView, PubSubView,
};

verus! {

/// Of a subscriber repeated, the live ones are all of them or none.
proof fn lemma_filter_repeated(id: u128, n: nat, registry: Set<u128>)
    ensures
        repeated(id, n).filter(live_in(registry)) == if registry.contains(id) {
            repeated(id, n)
        } else {
            Seq::empty()
        },
    decreases n,
{
    reveal(Seq::filter);
    if n > 0 {
        let shorter = repeated(id, (n - 1) as nat);
        assert(repeated(id, n).drop_last() =~= shorter);
        lemma_filter_repeated(id, (n - 1) as nat, registry);
        if registry.contains(id) {
            assert(shorter.push(id) =~= repeated(id, n));
        }
    } else {
        assert(repeated(id, n) =~= Seq::<u128>::empty());
    }
}

/// A topic named once occurs once, and named twice, twice.
proof fn lemma_occurrences_pair(topic: Seq<char>)
    ensures
        occurrences(seq![topic], topic) == 1,
        occurrences(seq![topic, topic], topic) == 2,
{
    let once = seq![topic];
    let twice = seq![topic, topic];
    assert(once.drop_last() =~= Seq::<Seq<char>>::empty());
    assert(occurrences(once.drop_last(), topic) == 0);
    assert(once.last() == topic);
    assert(occurrences(once, topic) == 1);
    assert(twice.drop_last() =~= once);
    assert(twice.last() == topic);
    assert(occurrences(twice, topic) == occurrences(twice.drop_last(), topic) + 1);
}

/// A subscription adds copies and changes nothing else: after the
/// subscriber `id` has asked for `topics`, a message brings what it brought
/// before, followed by one copy to `id` for each time its topic was named,
/// if `id` has a live handler.
pub proof fn lemma_subscription_adds_copies(
    state: PubSubView,
    id: u128,
    topics: Seq<Seq<char>>,
    message: MessageView,
)
    ensures
        state.subscribe(id, topics).deliveries(message) == state.deliveries(message) + copies(
            id,
            message,
            if state.registry.contains(id) {
                occurrences(topics, message.topic)
            } else {
                0
            },
        ),
{
    let topic = message.topic;
    let n = occurrences(topics, topic);
    let after = state.subscribe(id, topics);
    let live = live_in(state.registry);
    let before = state.subscribers_of(topic);
    if !after.routes.dom().contains(topic) {
        lemma_occurrences_absent(topics, topic);
    }
    assert(after.subscribers_of(topic) =~= before + repeated(id, n));
    Seq::filter_distributes_over_add(before, repeated(id, n), live);
    lemma_filter_repeated(id, n, state.registry);
    assert(after.recipients(topic) == state.recipients(topic) + repeated(id, n).filter(live));
    assert(after.deliveries(message) =~= state.deliveries(message) + copies(
        id,
        message,
        if state.registry.contains(id) {
            n
        } else {
            0
        },
    ));
}

/// A subscriber gets nothing from topics it did not ask for: a
/// subscription that does not name a message's topic leaves what the
/// message brings as it was.
pub proof fn lemma_other_topics_unaffected(
    state: PubSubView,
    id: u128,
    topics: Seq<Seq<char>>,
    message: MessageView,
)
    requires
        !topics.contains(message.topic),
    ensures
        state.subscribe(id, topics).deliveries(message) == state.deliveries(message),
{
    lemma_subscription_adds_copies(state, id, topics, message);
    lemma_occurrences_absent(topics, message.topic);
    assert(state.deliveries(message) + copies(id, message, 0) =~= state.deliveries(message));
}

/// Fan-out: when two subscribers with live handlers ask for one topic, a
/// message on it brings each of them a copy, the first to ask served
/// first, after whatever it brought before.
pub proof fn lemma_fan_out(
    state: PubSubView,
    first: u128,
    second: u128,
    message: MessageView,
)
    requires
        state.registry.contains(first),
        state.registry.contains(second),
    ensures
        state.subscribe(first, seq![message.topic]).subscribe(
            second,
            seq![message.topic],
        ).deliveries(message) == state.deliveries(message) + seq![
            DeliveryView { subscriber: first, message },
            DeliveryView { subscriber: second, message },
        ],
{
    let topics = seq![message.topic];
    let middle = state.subscribe(first, topics);
    lemma_occurrences_pair(message.topic);
    lemma_subscription_adds_copies(state, first, topics, message);
    lemma_subscription_adds_copies(middle, second, topics, message);
    assert(state.deliveries(message) + copies(first, message, 1) + copies(second, message, 1)
        =~= state.deliveries(message) + seq![
        DeliveryView { subscriber: first, message },
        DeliveryView { subscriber: second, message },
    ]);
}

/// A message on a topic that nobody asked for is dropped: it is delivered
/// to no one and the state stays as it was.
pub proof fn lemma_no_subscribers(state: PubSubView, message: MessageView, minted: u128)
    requires
        !state.routes.dom().contains(message.topic),
    ensures
        state.step(EventView::Publish(message), minted) == (
            state,
            ActionView::Deliver(Seq::empty()),
        ),
{
    reveal(Seq::filter);
    assert(state.deliveries(message) =~= Seq::<DeliveryView>::empty());
}

/// A topic named twice in one request is delivered twice: the subscriber
/// gets two copies of each message on it.
pub proof fn lemma_duplicate_topic(state: PubSubView, id: u128, message: MessageView)
    requires
        state.registry.contains(id),
    ensures
        state.subscribe(id, seq![message.topic, message.topic]).deliveries(message)
            == state.deliveries(message) + seq![
            DeliveryView { subscriber: id, message },
            DeliveryView { subscriber: id, message },
        ],
{
    lemma_occurrences_pair(message.topic);
    lemma_subscription_adds_copies(state, id, seq![message.topic, message.topic], message);
    assert(copies(id, message, 2) =~= seq![
        DeliveryView { subscriber: id, message },
        DeliveryView { subscriber: id, message },
    ]);
}

/// A termination changes nothing and is the only event that stops the
/// broker.
pub proof fn lemma_only_termination_stops(state: PubSubView, event: EventView, minted: u128)
    ensures
        state.step(event, minted).1 is Stop <==> event is Termination,
        event is Termination ==> state.step(event, minted).0 == state,
{
}

/// The broker takes no event after a termination: of a batch with a
/// termination at `k`, at most the first `k + 1` events are taken, and if
/// that termination is the first of the batch they are taken exactly, the
/// last of the actions being the stop.
pub proof fn lemma_stops_at_termination(
    state: PubSubView,
    events: Seq<EventView>,
    actions: Seq<ActionView>,
    end: PubSubView,
    k: int,
)
    requires
        state.runs(events, actions, end),
        0 <= k < events.len(),
        events[k] is Termination,
    ensures
        actions.len() <= k + 1,
        (forall|i: int| 0 <= i < k ==> !(events[i] is Termination)) ==> actions.len() == k + 1
            && actions[k] is Stop,
{
    if actions.len() > k + 1 {
        assert(!(events[k] is Termination));
    }
    if forall|i: int| 0 <= i < k ==> !(events[i] is Termination) {
        if actions.len() < k + 1 {
            assert(events[actions.len() - 1] is Termination);
        }
        assert(state.follows(events, actions, k));
    }
}

/// Messages go out in the order they were published: in a batch, the
/// action at the place of a publish event delivers that very message, to
/// those who had asked for its topic by then.
pub proof fn lemma_publish_order(
    state: PubSubView,
    events: Seq<EventView>,
    actions: Seq<ActionView>,
    end: PubSubView,
    i: int,
    message: MessageView,
)
    requires
        state.runs(events, actions, end),
        0 <= i < actions.len(),
        events[i] == EventView::Publish(message),
    ensures
        actions[i] == ActionView::Deliver(
            state.after(events.take(i), minted_ids(actions)).deliveries(message),
        ),
{
    assert(state.follows(events, actions, i));
}

/// A batch without a termination is taken whole.
pub proof fn lemma_takes_all_without_termination(
    state: PubSubView,
    events: Seq<EventView>,
    actions: Seq<ActionView>,
    end: PubSubView,
)
    requires
        state.runs(events, actions, end),
        forall|i: int| 0 <= i < events.len() ==> !(events[i] is Termination),
    ensures
        actions.len() == events.len(),
{
    if actions.len() < events.len() {
        assert(events[actions.len() - 1] is Termination);
    }
}

/// No event takes anything away: a subscriber that has a live handler
/// keeps it, and the subscribers of a topic stay, in their order, in front
/// of those that come later.
pub proof fn lemma_state_only_grows(
    state: PubSubView,
    event: EventView,
    minted: u128,
    topic: Seq<char>,
)
    ensures
        state.registry.subset_of(state.step(event, minted).0.registry),
        state.subscribers_of(topic).is_prefix_of(state.step(event, minted).0.subscribers_of(topic)),
{
    let next = state.step(event, minted).0;
    if let EventView::SubscriptionRequest(id, topics) = event {
        if !next.routes.dom().contains(topic) {
            assert(!state.routes.dom().contains(topic));
        } else {
            assert(next.subscribers_of(topic) == state.subscribers_of(topic) + repeated(
                id,
                occurrences(topics, topic),
            ));
        }
    }
}

/// No event touches the ports: after any events they are the ones the
/// broker was made for.
pub proof fn lemma_ports_fixed(state: PubSubView, events: Seq<EventView>, ids: Seq<u128>)
    ensures
        state.after(events, ids).publisher_port == state.publisher_port,
        state.after(events, ids).subscriber_port == state.subscriber_port,
    decreases events.len(),
{
    if events.len() > 0 {
        lemma_ports_fixed(state, events.drop_last(), ids);
    }
}

} // verus!
