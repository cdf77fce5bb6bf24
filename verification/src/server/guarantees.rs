//! What holds of the session's rules, whatever the clients and the channels do.

use super::connection::ClientView;
use super::listener::{
    appended, chunk_effects, live_in, notify, output_delivery, subscribed_to, terminal_event,
    unsubscribe_notice, unsubscribed, BufferedOutputView, EffectView, OutputBufferView,
    ServerView, MAX_BUFFERED_OUTPUTS,
};
use crate::channel::{
    lemma_created_keeps_others, lemma_exited_keeps_others, lemma_killed_keeps_others,
    lemma_output_keeps_states, spawned, ChannelManagerEventView, ChannelState, LaunchPlanView,
    ManagerView, PtyChannelView,
};
use crate::protocol::ClientMessageView;
use crate::protocol::{ChannelEventView, ServerMessageView};
use crate::text::{lemma_with_names, lemma_without_names, newly_added, with_names, without_names};
use vstd::prelude::*;

verus! {

/// The names of the live channels are exactly the names of the channels
/// that are registered and have not reached a final state.
pub proof fn lemma_live_names(manager: ManagerView, name: Seq<char>)
    requires
        manager.wf(),
    ensures
        manager.live_names().contains(name) <==> manager.is_live(name),
{
    let alive = |c: PtyChannelView| c.state.alive();
    let live = manager.channels.filter(alive);
    let names = manager.live_names();
    if names.contains(name) {
        let k = choose|k: int| 0 <= k < names.len() && names[k] == name;
        let c = live[k];
        assert(c.name == name);
        assert(live.contains(c));
        manager.channels.lemma_filter_contains_rev(alive, c);
        manager.channels.lemma_filter_pred(alive, k);
        let q = choose|q: int| 0 <= q < manager.channels.len() && manager.channels[q] == c;
        assert(manager.channels[q].name == name);
        let p = manager.position(name);
        if q < p {
            assert(manager.channels[q].name != manager.channels[p].name);
        }
        if p < q {
            assert(manager.channels[p].name != manager.channels[q].name);
        }
    }
    if manager.is_live(name) {
        let p = manager.position(name);
        manager.channels.lemma_filter_contains(alive, p);
        let c = manager.channels[p];
        let k = choose|k: int| 0 <= k < live.len() && live[k] == c;
        assert(names[k] == name);
    }
}

/// A subscription request is for live channels only, and a request that
/// holds `*` is for every live channel.
pub proof fn lemma_subscribe_targets(state: ServerView, requested: Seq<Seq<char>>, name: Seq<char>)
    requires
        state.manager.wf(),
    ensures
        state.subscribe_targets(requested).contains(name) ==> state.manager.is_live(name),
        requested.contains("*"@) ==> (state.subscribe_targets(requested).contains(name)
            <==> state.manager.is_live(name)),
{
    lemma_live_names(state.manager, name);
    if !requested.contains("*"@) {
        let targets = requested.filter(live_in(state.manager));
        if targets.contains(name) {
            let k = choose|k: int| 0 <= k < targets.len() && targets[k] == name;
            requested.lemma_filter_pred(live_in(state.manager), k);
        }
    }
}

/// After a `Subscribe`, a client is subscribed to what it was subscribed to
/// before and to the channels that the request is for, which are live, and
/// to nothing else.
pub proof fn lemma_subscribed_channels(
    state: ServerView,
    client: u128,
    requested: Seq<Seq<char>>,
    name: Seq<char>,
)
    requires
        state.wf(),
        state.has_client(client),
    ensures
        state.subscribed(client, requested).client(client).subscriptions.contains(name) <==> (
        state.client(client).subscriptions.contains(name) || state.subscribe_targets(
            requested,
        ).contains(name)),
        state.subscribe_targets(requested).contains(name) ==> state.manager.is_live(name),
{
    let before = state.client(client);
    let targets = state.subscribe_targets(requested);
    let updated = ClientView { subscriptions: with_names(before.subscriptions, targets), ..before };
    lemma_with_names(before.subscriptions, targets);
    super::listener::lemma_with_client(state, client, updated);
    lemma_subscribe_targets(state, requested, name);
}

/// A `Subscribe` for channels that the client is subscribed to already
/// changes nothing and replays nothing: the client is only told its
/// subscription set, which is what it was.
pub proof fn lemma_subscribe_again(state: ServerView, client: u128, requested: Seq<Seq<char>>)
    requires
        state.wf(),
        state.has_client(client),
        forall|n: Seq<char>|
            state.subscribe_targets(requested).contains(n) ==> state.client(
                client,
            ).subscriptions.contains(n),
    ensures
        state.subscribed(client, requested) == state,
        state.subscribe_effects(client, requested) == seq![
            notify(
                client,
                ChannelEventView::SubscriptionChanged {
                    subscribed: state.client(client).subscriptions,
                },
            ),
        ],
{
    let before = state.client(client);
    let targets = state.subscribe_targets(requested);
    lemma_with_names(before.subscriptions, targets);
    assert(with_names(before.subscriptions, targets) == before.subscriptions);
    assert(newly_added(before.subscriptions, targets).len() == 0) by {
        let added = newly_added(before.subscriptions, targets);
        if added.len() > 0 {
            assert(added.contains(added[0]));
        }
    }
    assert(state.clients.update(state.client_position(client), before) =~= state.clients);
    assert(state.replay(client, newly_added(before.subscriptions, targets)) =~= Seq::empty());
    assert(state.subscribe_effects(client, requested) =~= seq![
        notify(
            client,
            ChannelEventView::SubscriptionChanged { subscribed: before.subscriptions },
        ),
    ]);
}

/// A `Subscribe` that names only channels that the client is subscribed
/// to, and not the wildcard, changes nothing and replays nothing.
pub proof fn lemma_subscribe_to_subscribed(
    state: ServerView,
    client: u128,
    requested: Seq<Seq<char>>,
)
    requires
        state.wf(),
        state.has_client(client),
        !requested.contains("*"@),
        forall|n: Seq<char>|
            requested.contains(n) ==> state.client(client).subscriptions.contains(n),
    ensures
        state.subscribed(client, requested) == state,
        state.subscribe_effects(client, requested) == seq![
            notify(
                client,
                ChannelEventView::SubscriptionChanged {
                    subscribed: state.client(client).subscriptions,
                },
            ),
        ],
{
    let targets = state.subscribe_targets(requested);
    assert forall|n: Seq<char>| targets.contains(n) implies state.client(
        client,
    ).subscriptions.contains(n) by {
        requested.lemma_filter_contains_rev(live_in(state.manager), n);
    }
    lemma_subscribe_again(state, client, requested);
}

/// The same `Subscribe` twice is the same as once.
pub proof fn lemma_subscribe_twice(state: ServerView, client: u128, requested: Seq<Seq<char>>)
    requires
        state.wf(),
        state.has_client(client),
    ensures
        state.subscribed(client, requested).subscribed(client, requested) == state.subscribed(
            client,
            requested,
        ),
{
    let before = state.client(client);
    let targets = state.subscribe_targets(requested);
    let updated = ClientView { subscriptions: with_names(before.subscriptions, targets), ..before };
    let once = state.subscribed(client, requested);
    lemma_with_names(before.subscriptions, targets);
    super::listener::lemma_with_client(state, client, updated);
    assert(once.subscribe_targets(requested) == targets);
    lemma_subscribe_again(once, client, requested);
}

/// The channel list that a client is given says of every channel whether
/// that client is subscribed to it.
pub proof fn lemma_list_shows_own_subscriptions(state: ServerView, client: u128, i: int)
    requires
        0 <= i < state.channel_list(client).len(),
    ensures
        state.channel_list(client)[i].is_subscribed == state.client(
            client,
        ).subscriptions.contains(state.channel_list(client)[i].name),
{
}

/// Once the event pump has handled the end of a channel, by exit or by
/// kill, no client is subscribed to that channel, and every other
/// subscription is as it was.
pub proof fn lemma_closed_channel_unsubscribed(
    state: ServerView,
    channel: Seq<char>,
    end: ChannelState,
    timestamp: i64,
    i: int,
    name: Seq<char>,
)
    requires
        !end.alive(),
        0 <= i < state.clients.len(),
    ensures
        ({
            let after = state.after_event(
                ChannelManagerEventView::StateChanged { channel_name: channel, state: end },
                timestamp,
            );
            &&& after.clients.len() == state.clients.len()
            &&& after.clients[i].id == state.clients[i].id
            &&& !after.clients[i].subscriptions.contains(channel)
            &&& name != channel ==> (after.clients[i].subscriptions.contains(name)
                <==> state.clients[i].subscriptions.contains(name))
        }),
{
    lemma_without_names(state.clients[i].subscriptions, seq![channel]);
    assert(seq![channel].contains(channel)) by {
        assert(seq![channel][0] == channel);
    }
    if name != channel {
        assert(!seq![channel].contains(name));
    }
}

/// An event with the time at which the event pump handles it.
pub struct Pumped {
    pub event: ChannelManagerEventView,
    pub timestamp: i64,
}

/// The state after the event pump handled the events, one after the other.
pub open spec fn after_events(state: ServerView, events: Seq<Pumped>) -> ServerView
    decreases events.len(),
{
    if events.len() == 0 {
        state
    } else {
        after_events(state, events.drop_last()).after_event(
            events.last().event,
            events.last().timestamp,
        )
    }
}

/// What the handling of the events, one after the other, leaves to be
/// carried out, in order.
pub open spec fn events_effects(state: ServerView, events: Seq<Pumped>) -> Seq<EffectView>
    decreases events.len(),
{
    if events.len() == 0 {
        Seq::empty()
    } else {
        events_effects(state, events.drop_last()) + after_events(
            state,
            events.drop_last(),
        ).event_effects(events.last().event, events.last().timestamp)
    }
}

/// The chunk of the channel's output that an effect delivers to the client, if any.
pub open spec fn delivers(effect: EffectView, client: u128, channel: Seq<char>) -> Option<Seq<u8>> {
    match effect {
        EffectView::Send {
            client: to,
            message: ServerMessageView::Output { channel: of, data, timestamp },
        } => if to == client && of == channel {
            Some(data)
        } else {
            None
        },
        _ => None,
    }
}

/// The chunks of the channel's output that the effects deliver to the client, in order.
pub open spec fn delivered(effects: Seq<EffectView>, client: u128, channel: Seq<char>) -> Seq<
    Seq<u8>,
>
    decreases effects.len(),
{
    if effects.len() == 0 {
        Seq::empty()
    } else {
        let before = delivered(effects.drop_last(), client, channel);
        match delivers(effects.last(), client, channel) {
            Some(data) => before.push(data),
            None => before,
        }
    }
}

/// The chunk of the channel's output that an event carries, if any.
pub open spec fn produces(event: ChannelManagerEventView, channel: Seq<char>) -> Option<Seq<u8>> {
    match event {
        ChannelManagerEventView::Output { channel_name, data } => if channel_name == channel {
            Some(data)
        } else {
            None
        },
        _ => None,
    }
}

/// The chunks of the channel's output that the events carry, in order.
pub open spec fn produced(events: Seq<Pumped>, channel: Seq<char>) -> Seq<Seq<u8>>
    decreases events.len(),
{
    if events.len() == 0 {
        Seq::empty()
    } else {
        let before = produced(events.drop_last(), channel);
        match produces(events.last().event, channel) {
            Some(data) => before.push(data),
            None => before,
        }
    }
}

/// Whether the event is the end of the channel, by exit or by kill.
pub open spec fn is_end_of(event: ChannelManagerEventView, channel: Seq<char>) -> bool {
    event matches ChannelManagerEventView::StateChanged { channel_name, state } && channel_name
        == channel && !state.alive()
}

/// Whether the end of the channel is among the events.
pub open spec fn ended(events: Seq<Pumped>, channel: Seq<char>) -> bool {
    exists|i: int| 0 <= i < events.len() && is_end_of((#[trigger] events[i]).event, channel)
}

/// Whether the client is connected and subscribed to the channel.
pub open spec fn receives(state: ServerView, client: u128, channel: Seq<char>) -> bool {
    state.has_client(client) && state.client(client).subscriptions.contains(channel)
}

/// No two clients have the same identifier.
spec fn distinct(clients: Seq<ClientView>) -> bool {
    forall|i: int, j: int|
        0 <= i < j < clients.len() ==> (#[trigger] clients[i]).id != (#[trigger] clients[j]).id
}

/// Whether some client of the sequence has the identifier and is subscribed to the channel.
spec fn listens(clients: Seq<ClientView>, client: u128, channel: Seq<char>) -> bool {
    exists|i: int|
        0 <= i < clients.len() && (#[trigger] clients[i]).id == client
            && clients[i].subscriptions.contains(channel)
}

proof fn lemma_receives(state: ServerView, client: u128, channel: Seq<char>)
    requires
        distinct(state.clients),
    ensures
        receives(state, client, channel) == listens(state.clients, client, channel),
{
    if listens(state.clients, client, channel) {
        let i = choose|i: int|
            0 <= i < state.clients.len() && (#[trigger] state.clients[i]).id == client
                && state.clients[i].subscriptions.contains(channel);
        let p = state.client_position(client);
        if i < p {
            assert(state.clients[i].id != state.clients[p].id);
        }
        if p < i {
            assert(state.clients[p].id != state.clients[i].id);
        }
    }
    if receives(state, client, channel) {
        let p = state.client_position(client);
        assert(state.clients[p].id == client);
    }
}

proof fn lemma_delivered_concat(
    a: Seq<EffectView>,
    b: Seq<EffectView>,
    client: u128,
    channel: Seq<char>,
)
    ensures
        delivered(a + b, client, channel) == delivered(a, client, channel) + delivered(
            b,
            client,
            channel,
        ),
    decreases b.len(),
{
    if b.len() == 0 {
        assert(a + b =~= a);
        assert(delivered(a, client, channel) + Seq::<Seq<u8>>::empty() =~= delivered(
            a,
            client,
            channel,
        ));
    } else {
        lemma_delivered_concat(a, b.drop_last(), client, channel);
        assert((a + b).drop_last() =~= a + b.drop_last());
        assert((a + b).last() == b.last());
        assert(delivered(a + b, client, channel) =~= delivered(a, client, channel) + delivered(
            b,
            client,
            channel,
        ));
    }
}

proof fn lemma_delivered_none(effects: Seq<EffectView>, client: u128, channel: Seq<char>)
    requires
        forall|i: int|
            0 <= i < effects.len() ==> delivers(#[trigger] effects[i], client, channel) is None,
    ensures
        delivered(effects, client, channel).len() == 0,
    decreases effects.len(),
{
    if effects.len() > 0 {
        lemma_delivered_none(effects.drop_last(), client, channel);
    }
}

proof fn lemma_output_fanout(
    clients: Seq<ClientView>,
    of: Seq<char>,
    data: Seq<u8>,
    timestamp: i64,
    client: u128,
    channel: Seq<char>,
)
    requires
        distinct(clients),
    ensures
        delivered(
            clients.filter(subscribed_to(of)).map_values(output_delivery(of, data, timestamp)),
            client,
            channel,
        ) == if of == channel && listens(clients, client, channel) {
            seq![data]
        } else {
            Seq::<Seq<u8>>::empty()
        },
    decreases clients.len(),
{
    reveal(Seq::filter);
    let wanted = subscribed_to(of);
    let delivery = output_delivery(of, data, timestamp);
    let effects = clients.filter(wanted).map_values(delivery);
    if clients.len() == 0 {
        assert(effects =~= Seq::empty());
    } else {
        let head = clients.drop_last();
        let last = clients.last();
        lemma_output_fanout(head, of, data, timestamp, client, channel);
        let head_effects = head.filter(wanted).map_values(delivery);
        assert(clients[clients.len() - 1] == last);
        assert forall|i: int| 0 <= i < head.len() implies (#[trigger] head[i]) == clients[i] by {}
        if listens(head, client, channel) {
            let i = choose|i: int|
                0 <= i < head.len() && (#[trigger] head[i]).id == client
                    && head[i].subscriptions.contains(channel);
            assert(clients[i].id == client && clients[i].subscriptions.contains(channel));
            assert(listens(clients, client, channel));
            assert(clients[i].id != clients[clients.len() - 1].id);
            assert(last.id != client);
        }
        if wanted(last) {
            assert(effects =~= head_effects.push(delivery(last)));
            assert(effects.drop_last() =~= head_effects);
            if last.id == client && of == channel {
                assert(listens(clients, client, channel));
                assert(!listens(head, client, channel));
                assert(delivered(effects, client, channel) =~= seq![data]);
            } else {
                if listens(clients, client, channel) && of == channel {
                    let i = choose|i: int|
                        0 <= i < clients.len() && (#[trigger] clients[i]).id == client
                            && clients[i].subscriptions.contains(channel);
                    assert(head[i].id == client);
                    assert(listens(head, client, channel));
                }
            }
        } else {
            assert(effects =~= head_effects);
            if listens(clients, client, channel) && of == channel {
                let i = choose|i: int|
                    0 <= i < clients.len() && (#[trigger] clients[i]).id == client
                        && clients[i].subscriptions.contains(channel);
                assert(i < head.len());
                assert(head[i].id == client);
                assert(listens(head, client, channel));
            }
        }
    }
}

/// What one step of the event pump does to the deliveries to a client and
/// to its subscription to a channel.
proof fn lemma_pump_step(
    state: ServerView,
    event: ChannelManagerEventView,
    timestamp: i64,
    client: u128,
    channel: Seq<char>,
)
    requires
        distinct(state.clients),
    ensures
        distinct(state.after_event(event, timestamp).clients),
        state.after_event(event, timestamp).has_client(client) == state.has_client(client),
        delivered(state.event_effects(event, timestamp), client, channel) == (match produces(
            event,
            channel,
        ) {
            Some(data) => if receives(state, client, channel) {
                seq![data]
            } else {
                Seq::<Seq<u8>>::empty()
            },
            None => Seq::<Seq<u8>>::empty(),
        }),
        receives(state.after_event(event, timestamp), client, channel) == (receives(
            state,
            client,
            channel,
        ) && !is_end_of(event, channel)),
{
    let after = state.after_event(event, timestamp);
    lemma_receives(state, client, channel);
    match event {
        ChannelManagerEventView::Output { channel_name, data } => {
            lemma_output_fanout(state.clients, channel_name, data, timestamp, client, channel);
            assert(after.clients == state.clients);
            lemma_receives(after, client, channel);
        },
        ChannelManagerEventView::StateChanged { channel_name, state: reached } => {
            match terminal_event(channel_name, reached) {
                Some(told) => {
                    let leave = unsubscribed(channel_name);
                    assert(after.clients == state.clients.map_values(leave));
                    assert forall|k: int| 0 <= k < state.clients.len() implies (
                    #[trigger] after.clients[k]).id == state.clients[k].id by {}
                    assert(distinct(after.clients)) by {
                        assert forall|i: int, j: int|
                            0 <= i < j < after.clients.len() implies (
                        #[trigger] after.clients[i]).id != (#[trigger] after.clients[j]).id by {
                            assert(state.clients[i].id != state.clients[j].id);
                        }
                    }
                    if state.has_client(client) {
                        let p = state.client_position(client);
                        assert(after.clients[p].id == client);
                    }
                    if after.has_client(client) {
                        let p = after.client_position(client);
                        assert(state.clients[p].id == client);
                    }
                    lemma_receives(after, client, channel);
                    assert(seq![channel_name].contains(channel_name)) by {
                        assert(seq![channel_name][0] == channel_name);
                    }
                    if listens(state.clients, client, channel) && channel_name != channel {
                        let i = choose|i: int|
                            0 <= i < state.clients.len() && (#[trigger] state.clients[i]).id
                                == client && state.clients[i].subscriptions.contains(channel);
                        lemma_without_names(state.clients[i].subscriptions, seq![channel_name]);
                        assert(!seq![channel_name].contains(channel));
                        assert(after.clients[i].id == client);
                        assert(after.clients[i].subscriptions.contains(channel));
                    }
                    if listens(after.clients, client, channel) {
                        let i = choose|i: int|
                            0 <= i < after.clients.len() && (#[trigger] after.clients[i]).id
                                == client && after.clients[i].subscriptions.contains(channel);
                        lemma_without_names(state.clients[i].subscriptions, seq![channel_name]);
                        assert(state.clients[i].id == client);
                        assert(state.clients[i].subscriptions.contains(channel));
                        assert(channel_name != channel);
                    }
                    let effects = state.closed_effects(channel_name, told);
                    let notices = state.clients.filter(subscribed_to(channel_name)).map_values(
                        unsubscribe_notice(channel_name),
                    );
                    let all = state.broadcast(ServerMessageView::Event(told));
                    assert forall|i: int| 0 <= i < effects.len() implies delivers(
                        #[trigger] effects[i],
                        client,
                        channel,
                    ) is None by {
                        if i < notices.len() {
                            assert(effects[i] == notices[i]);
                        } else {
                            assert(effects[i] == all[i - notices.len()]);
                        }
                    }
                    lemma_delivered_none(effects, client, channel);
                    assert(delivered(effects, client, channel) =~= Seq::<Seq<u8>>::empty());
                },
                None => {
                    lemma_receives(after, client, channel);
                },
            }
        },
    }
}

/// While the event pump handles events, a client is delivered the output of
/// a channel in the order in which the channel produced it, without gaps
/// and without repeats, up to the end of the channel: what is delivered is
/// a prefix of what the events carry, is all of it where the client stays
/// subscribed, and is nothing where the client was not subscribed. The end
/// of the channel ends the client's subscription to it.
pub proof fn lemma_outputs_in_order(
    state: ServerView,
    events: Seq<Pumped>,
    client: u128,
    channel: Seq<char>,
)
    requires
        state.wf(),
    ensures
        ({
            let got = delivered(events_effects(state, events), client, channel);
            let made = produced(events, channel);
            let after = after_events(state, events);
            &&& got.len() <= made.len()
            &&& got == made.take(got.len() as int)
            &&& receives(after, client, channel) ==> got == made
            &&& !receives(state, client, channel) ==> got.len() == 0
            &&& receives(after, client, channel) == (receives(state, client, channel) && !ended(
                events,
                channel,
            ))
        }),
    decreases events.len(),
{
    lemma_outputs_in_order_from(state, events, client, channel);
}

proof fn lemma_outputs_in_order_from(
    state: ServerView,
    events: Seq<Pumped>,
    client: u128,
    channel: Seq<char>,
)
    requires
        distinct(state.clients),
    ensures
        distinct(after_events(state, events).clients),
        ({
            let got = delivered(events_effects(state, events), client, channel);
            let made = produced(events, channel);
            let after = after_events(state, events);
            &&& got.len() <= made.len()
            &&& got == made.take(got.len() as int)
            &&& receives(after, client, channel) ==> got == made
            &&& !receives(state, client, channel) ==> got.len() == 0
            &&& receives(after, client, channel) == (receives(state, client, channel) && !ended(
                events,
                channel,
            ))
        }),
    decreases events.len(),
{
    if events.len() == 0 {
        assert(delivered(events_effects(state, events), client, channel) =~= produced(
            events,
            channel,
        ).take(0));
    } else {
        let head = events.drop_last();
        let last = events.last();
        lemma_outputs_in_order_from(state, head, client, channel);
        let middle = after_events(state, head);
        lemma_pump_step(middle, last.event, last.timestamp, client, channel);
        let got_head = delivered(events_effects(state, head), client, channel);
        let made_head = produced(head, channel);
        let step = middle.event_effects(last.event, last.timestamp);
        lemma_delivered_concat(events_effects(state, head), step, client, channel);
        let got = delivered(events_effects(state, events), client, channel);
        let made = produced(events, channel);
        assert(got == got_head + delivered(step, client, channel));
        assert(ended(events, channel) == (ended(head, channel) || is_end_of(last.event, channel)))
            by {
            if ended(head, channel) {
                let i = choose|i: int|
                    0 <= i < head.len() && is_end_of((#[trigger] head[i]).event, channel);
                assert(is_end_of(events[i].event, channel));
            }
            if is_end_of(last.event, channel) {
                assert(is_end_of(events[events.len() - 1].event, channel));
            }
            if ended(events, channel) {
                let i = choose|i: int|
                    0 <= i < events.len() && is_end_of((#[trigger] events[i]).event, channel);
                if i < head.len() {
                    assert(is_end_of(head[i].event, channel));
                }
            }
        }
        match produces(last.event, channel) {
            Some(data) => {
                assert(made == made_head.push(data));
                if receives(middle, client, channel) {
                    assert(got =~= made);
                    assert(got =~= made.take(got.len() as int));
                } else {
                    assert(got =~= got_head);
                    assert(got =~= made.take(got.len() as int));
                }
            },
            None => {
                assert(got =~= got_head);
                assert(made == made_head);
            },
        }
    }
}

/// Once the event pump has handled the end of a channel, no output of that
/// channel is delivered to any client, whatever events follow.
pub proof fn lemma_no_output_after_end(
    state: ServerView,
    before: Seq<Pumped>,
    later: Seq<Pumped>,
    client: u128,
    channel: Seq<char>,
)
    requires
        state.wf(),
        ended(before, channel),
    ensures
        delivered(events_effects(state, before + later), client, channel) == delivered(
            events_effects(state, before),
            client,
            channel,
        ),
{
    lemma_events_concat(state, before, later);
    lemma_outputs_in_order_from(state, before, client, channel);
    let middle = after_events(state, before);
    lemma_outputs_in_order_from(middle, later, client, channel);
    lemma_delivered_concat(
        events_effects(state, before),
        events_effects(middle, later),
        client,
        channel,
    );
    assert(delivered(events_effects(middle, later), client, channel) =~= Seq::<Seq<u8>>::empty());
    assert(delivered(events_effects(state, before), client, channel) + Seq::<Seq<u8>>::empty()
        =~= delivered(events_effects(state, before), client, channel));
}

proof fn lemma_events_concat(state: ServerView, a: Seq<Pumped>, b: Seq<Pumped>)
    ensures
        after_events(state, a + b) == after_events(after_events(state, a), b),
        events_effects(state, a + b) == events_effects(state, a) + events_effects(
            after_events(state, a),
            b,
        ),
    decreases b.len(),
{
    if b.len() == 0 {
        assert(a + b =~= a);
        assert(events_effects(state, a) + Seq::<EffectView>::empty() =~= events_effects(state, a));
    } else {
        lemma_events_concat(state, a, b.drop_last());
        assert((a + b).drop_last() =~= a + b.drop_last());
        assert((a + b).last() == b.last());
        assert(events_effects(state, a + b) =~= events_effects(state, a) + events_effects(
            after_events(state, a),
            b,
        ));
    }
}

/// A name is in a sequence with one more name at its end where it is in
/// the sequence or is that name.
proof fn lemma_push_contains(names: Seq<Seq<char>>, last: Seq<char>, name: Seq<char>)
    ensures
        names.push(last).contains(name) == (names.contains(name) || name == last),
{
    let all = names.push(last);
    if names.contains(name) {
        let i = choose|i: int| 0 <= i < names.len() && names[i] == name;
        assert(all[i] == name);
    }
    if name == last {
        assert(all[names.len() as int] == name);
    }
    if all.contains(name) {
        let i = choose|i: int| 0 <= i < all.len() && all[i] == name;
        if i < names.len() {
            assert(names[i] == name);
        }
    }
}

/// A client that just attached is subscribed to live channels only, and the
/// subscriptions of the other clients are as they were.
pub proof fn lemma_connect_keeps_subscriptions_live(state: ServerView, id: u128)
    requires
        state.wf(),
        state.subscriptions_live(),
    ensures
        state.connected(id).subscriptions_live(),
{
    let after = state.connected(id);
    if !state.has_client(id) {
        assert forall|i: int, name: Seq<char>|
            0 <= i < after.clients.len() && (#[trigger] after.clients[i].subscriptions.contains(
                name,
            )) implies after.manager.is_live(name) || after.closing.contains(name) by {
            if i < state.clients.len() {
                assert(after.clients[i] == state.clients[i]);
                assert(state.clients[i].subscriptions.contains(name));
            } else {
                let initial = state.initial_channels();
                let k = choose|k: int| 0 <= k < initial.len() && initial[k] == name;
                assert(initial[k] == name);
            }
        }
    }
}

/// The subscriptions of the clients that stay are as they were.
pub proof fn lemma_disconnect_keeps_subscriptions_live(state: ServerView, id: u128)
    requires
        state.subscriptions_live(),
    ensures
        state.disconnected(id).subscriptions_live(),
{
    let after = state.disconnected(id);
    let keep = super::listener::client_other_than(id);
    assert forall|i: int, name: Seq<char>|
        0 <= i < after.clients.len() && (#[trigger] after.clients[i].subscriptions.contains(
            name,
        )) implies after.manager.is_live(name) || after.closing.contains(name) by {
        assert(state.clients.filter(keep).contains(after.clients[i]));
        state.clients.lemma_filter_contains_rev(keep, after.clients[i]);
        let k = choose|k: int| 0 <= k < state.clients.len() && state.clients[k] == after.clients[i];
        assert(state.clients[k].subscriptions.contains(name));
    }
}

/// Replacing a client by one whose subscriptions are live keeps all
/// subscriptions live.
proof fn lemma_client_replaced(state: ServerView, id: u128, client: ClientView)
    requires
        state.wf(),
        state.has_client(id),
        state.subscriptions_live(),
        client.id == id,
        forall|name: Seq<char>|
            client.subscriptions.contains(name) ==> state.manager.is_live(name)
                || state.closing.contains(name),
    ensures
        state.with_client(id, client).subscriptions_live(),
{
    let after = state.with_client(id, client);
    let p = state.client_position(id);
    assert forall|i: int, name: Seq<char>|
        0 <= i < after.clients.len() && (#[trigger] after.clients[i].subscriptions.contains(
            name,
        )) implies after.manager.is_live(name) || after.closing.contains(name) by {
        if i != p {
            assert(after.clients[i] == state.clients[i]);
            assert(state.clients[i].subscriptions.contains(name));
        }
    }
}

/// Noting that a client sent something, decodable or not, changes no subscription.
pub proof fn lemma_noting_keeps_subscriptions_live(state: ServerView, client: u128)
    requires
        state.wf(),
        state.subscriptions_live(),
    ensures
        state.decoded(client).subscriptions_live(),
        state.undecodable(client).subscriptions_live(),
{
    if state.has_client(client) {
        let before = state.client(client);
        assert forall|name: Seq<char>| before.subscriptions.contains(name) implies state.manager.is_live(
            name,
        ) || state.closing.contains(name) by {
            let p = state.client_position(client);
            assert(state.clients[p].subscriptions.contains(name));
        }
        lemma_client_replaced(state, client, ClientView { decode_failed: false, ..before });
        lemma_client_replaced(state, client, ClientView { decode_failed: true, ..before });
    }
}

/// A kill, or the end of a channel's process, keeps every subscription
/// live or awaiting the event pump: the channel that ended awaits it.
pub proof fn lemma_end_keeps_subscriptions_live(state: ServerView, name: Seq<char>, wait: Option<u32>)
    requires
        state.wf(),
        state.subscriptions_live(),
    ensures
        state.killed(name).subscriptions_live(),
        state.exited(name, wait).subscriptions_live(),
{
    let a = state.killed(name);
    let b = state.exited(name, wait);
    assert forall|i: int, other: Seq<char>|
        0 <= i < a.clients.len() && (#[trigger] a.clients[i].subscriptions.contains(
            other,
        )) implies a.manager.is_live(other) || a.closing.contains(other) by {
        assert(state.clients[i].subscriptions.contains(other));
        lemma_push_contains(state.closing, name, other);
        if other != name {
            lemma_killed_keeps_others(state.manager, name, other);
        }
    }
    assert forall|i: int, other: Seq<char>|
        0 <= i < b.clients.len() && (#[trigger] b.clients[i].subscriptions.contains(
            other,
        )) implies b.manager.is_live(other) || b.closing.contains(other) by {
        assert(state.clients[i].subscriptions.contains(other));
        lemma_push_contains(state.closing, name, other);
        if other != name {
            lemma_exited_keeps_others(state.manager, name, wait, other);
        }
    }
}

/// Recorded output changes no subscription and no channel's state.
pub proof fn lemma_output_keeps_subscriptions_live(
    state: ServerView,
    channel: Seq<char>,
    data: Seq<u8>,
)
    requires
        state.wf(),
        state.subscriptions_live(),
    ensures
        (ServerView {
            manager: state.manager.with_output(channel, data),
            ..state
        }).subscriptions_live(),
{
    let after = ServerView { manager: state.manager.with_output(channel, data), ..state };
    assert forall|i: int, name: Seq<char>|
        0 <= i < after.clients.len() && (#[trigger] after.clients[i].subscriptions.contains(
            name,
        )) implies after.manager.is_live(name) || after.closing.contains(name) by {
        assert(state.clients[i].subscriptions.contains(name));
        lemma_output_keeps_states(state.manager, channel, data, name);
    }
}

/// A new channel changes nothing for the channels that clients are subscribed to.
pub proof fn lemma_create_keeps_subscriptions_live(
    state: ServerView,
    plan: LaunchPlanView,
    pid: Option<u32>,
    created_at: i64,
)
    requires
        state.wf(),
        state.subscriptions_live(),
    ensures
        state.created(plan, pid, created_at).subscriptions_live(),
{
    let after = state.created(plan, pid, created_at);
    if !state.manager.contains(plan.name) {
        assert forall|i: int, name: Seq<char>|
            0 <= i < after.clients.len() && (#[trigger] after.clients[i].subscriptions.contains(
                name,
            )) implies after.manager.is_live(name) || after.closing.contains(name) by {
            assert(state.clients[i].subscriptions.contains(name));
            if name != plan.name {
                lemma_created_keeps_others(
                    state.manager,
                    spawned(plan, pid, created_at),
                    name,
                );
            }
        }
    }
}

/// Whatever a client sends, every channel that a client is subscribed to
/// afterwards is live, or awaits the event pump.
pub proof fn lemma_message_keeps_subscriptions_live(
    state: ServerView,
    client: u128,
    message: ClientMessageView,
)
    requires
        state.wf(),
        state.subscriptions_live(),
    ensures
        state.after_message(client, message).subscriptions_live(),
{
    match message {
        ClientMessageView::KillChannel { name } => {
            lemma_end_keeps_subscriptions_live(state, name, None);
        },
        ClientMessageView::SwitchChannel { name } => {
            let after = state.after_message(client, message);
            assert(after.manager.channels == state.manager.channels);
            assert forall|i: int, other: Seq<char>|
                0 <= i < after.clients.len() && (
                #[trigger] after.clients[i].subscriptions.contains(other)) implies after.manager.is_live(
                other,
            ) || after.closing.contains(other) by {
                assert(state.clients[i].subscriptions.contains(other));
                assert(after.manager.contains(other) == state.manager.contains(other));
                assert(after.manager.position(other) == state.manager.position(other));
            }
        },
        ClientMessageView::Subscribe { channels } => {
            if state.has_client(client) {
                let before = state.client(client);
                let targets = state.subscribe_targets(channels);
                let updated = ClientView {
                    subscriptions: with_names(before.subscriptions, targets),
                    ..before
                };
                lemma_with_names(before.subscriptions, targets);
                assert forall|name: Seq<char>| updated.subscriptions.contains(
                    name,
                ) implies state.manager.is_live(name) || state.closing.contains(name) by {
                    if before.subscriptions.contains(name) {
                        let p = state.client_position(client);
                        assert(state.clients[p].subscriptions.contains(name));
                    } else {
                        lemma_subscribe_targets(state, channels, name);
                    }
                }
                lemma_client_replaced(state, client, updated);
            }
        },
        ClientMessageView::Unsubscribe { channels } => {
            if state.has_client(client) {
                let before = state.client(client);
                let updated = ClientView {
                    subscriptions: without_names(before.subscriptions, channels),
                    ..before
                };
                lemma_without_names(before.subscriptions, channels);
                assert forall|name: Seq<char>| updated.subscriptions.contains(
                    name,
                ) implies state.manager.is_live(name) || state.closing.contains(name) by {
                    let p = state.client_position(client);
                    assert(state.clients[p].subscriptions.contains(name));
                }
                lemma_client_replaced(state, client, updated);
            }
        },
        _ => {},
    }
}

/// Whatever event the event pump handles, every channel that a client is
/// subscribed to afterwards is live, or awaits the event pump: the end of a
/// channel takes it out of every subscription set.
pub proof fn lemma_event_keeps_subscriptions_live(
    state: ServerView,
    event: ChannelManagerEventView,
    timestamp: i64,
)
    requires
        state.subscriptions_live(),
    ensures
        state.after_event(event, timestamp).subscriptions_live(),
{
    let after = state.after_event(event, timestamp);
    match event {
        ChannelManagerEventView::Output { channel_name, data } => {
            assert(after.clients == state.clients);
        },
        ChannelManagerEventView::StateChanged { channel_name, state: reached } => {
            if terminal_event(channel_name, reached) is Some {
                assert forall|i: int, name: Seq<char>|
                    0 <= i < after.clients.len() && (
                    #[trigger] after.clients[i].subscriptions.contains(
                        name,
                    )) implies after.manager.is_live(name) || after.closing.contains(name) by {
                    lemma_without_names(state.clients[i].subscriptions, seq![channel_name]);
                    lemma_without_names(state.closing, seq![channel_name]);
                    assert(state.clients[i].subscriptions.contains(name));
                    assert(seq![channel_name].contains(channel_name)) by {
                        assert(seq![channel_name][0] == channel_name);
                    }
                    assert(name != channel_name);
                    assert(!seq![channel_name].contains(name));
                }
            }
        },
    }
}

/// The chunk of the channel's output that an event carries, with the time
/// at which the event pump handles it, if any.
pub open spec fn chunk_of(event: Pumped, channel: Seq<char>) -> Option<BufferedOutputView> {
    match produces(event.event, channel) {
        Some(data) => Some(BufferedOutputView { data, timestamp: event.timestamp }),
        None => None,
    }
}

/// The chunks of the channel's output that the events carry, with their
/// times, in order.
pub open spec fn produced_chunks(events: Seq<Pumped>, channel: Seq<char>) -> Seq<
    BufferedOutputView,
>
    decreases events.len(),
{
    if events.len() == 0 {
        Seq::empty()
    } else {
        let before = produced_chunks(events.drop_last(), channel);
        match chunk_of(events.last(), channel) {
            Some(chunk) => before.push(chunk),
            None => before,
        }
    }
}

/// The newest chunks that a replay buffer has room for.
pub open spec fn newest_chunks(chunks: Seq<BufferedOutputView>) -> Seq<BufferedOutputView> {
    if chunks.len() > MAX_BUFFERED_OUTPUTS {
        chunks.skip(chunks.len() - MAX_BUFFERED_OUTPUTS)
    } else {
        chunks
    }
}

/// No two replay buffers are of the same channel, and none holds more
/// chunks than it has room for.
spec fn buffers_in_order(buffers: Seq<OutputBufferView>) -> bool {
    &&& forall|i: int, j: int|
        0 <= i < j < buffers.len() ==> (#[trigger] buffers[i]).channel != (
        #[trigger] buffers[j]).channel
    &&& forall|i: int|
        0 <= i < buffers.len() ==> (#[trigger] buffers[i]).entries.len() <= MAX_BUFFERED_OUTPUTS
}

/// The buffer of a channel is the one that stands where an entry of that
/// channel stands.
proof fn lemma_buffer_at(state: ServerView, channel: Seq<char>, i: int)
    requires
        buffers_in_order(state.buffers),
        0 <= i < state.buffers.len(),
        state.buffers[i].channel == channel,
    ensures
        state.has_buffer(channel),
        state.buffer_position(channel) == i,
        state.buffered(channel) == state.buffers[i].entries,
{
    let p = state.buffer_position(channel);
    if p < i {
        assert(state.buffers[p].channel != state.buffers[i].channel);
    }
    if i < p {
        assert(state.buffers[i].channel != state.buffers[p].channel);
    }
}

/// What one step of the event pump does to the replay buffer of a channel.
proof fn lemma_buffer_step(state: ServerView, event: Pumped, channel: Seq<char>)
    requires
        buffers_in_order(state.buffers),
    ensures
        buffers_in_order(state.after_event(event.event, event.timestamp).buffers),
        state.after_event(event.event, event.timestamp).buffered(channel) == (match chunk_of(
            event,
            channel,
        ) {
            Some(chunk) => appended(state.buffered(channel), chunk),
            None => state.buffered(channel),
        }),
{
    let after = state.after_event(event.event, event.timestamp);
    match event.event {
        ChannelManagerEventView::Output { channel_name, data } => {
            let chunk = BufferedOutputView { data, timestamp: event.timestamp };
            if state.has_buffer(channel_name) {
                let p = state.buffer_position(channel_name);
                let entry = OutputBufferView {
                    channel: channel_name,
                    entries: appended(state.buffered(channel_name), chunk),
                };
                assert(after.buffers == state.buffers.update(p, entry));
                assert forall|i: int, j: int| 0 <= i < j < after.buffers.len() implies (
                #[trigger] after.buffers[i]).channel != (#[trigger] after.buffers[j]).channel by {
                    assert(state.buffers[i].channel != state.buffers[j].channel);
                }
                assert forall|i: int| 0 <= i < after.buffers.len() implies (
                #[trigger] after.buffers[i]).entries.len() <= MAX_BUFFERED_OUTPUTS by {
                    if i != p {
                        assert(state.buffers[i].entries.len() <= MAX_BUFFERED_OUTPUTS);
                    } else {
                        assert(state.buffers[p].entries.len() <= MAX_BUFFERED_OUTPUTS);
                    }
                }
                if channel_name == channel {
                    lemma_buffer_at(after, channel, p);
                } else {
                    if state.has_buffer(channel) {
                        let q = state.buffer_position(channel);
                        assert(q != p);
                        assert(after.buffers[q] == state.buffers[q]);
                        lemma_buffer_at(after, channel, q);
                    } else {
                        if after.has_buffer(channel) {
                            let q = after.buffer_position(channel);
                            assert(state.buffers[q].channel == channel);
                        }
                    }
                }
            } else {
                let entry = OutputBufferView { channel: channel_name, entries: seq![chunk] };
                assert(after.buffers == state.buffers.push(entry));
                let n = state.buffers.len() as int;
                assert forall|i: int, j: int| 0 <= i < j < after.buffers.len() implies (
                #[trigger] after.buffers[i]).channel != (#[trigger] after.buffers[j]).channel by {
                    if j == n {
                        assert(state.buffers[i].channel != channel_name);
                    } else {
                        assert(state.buffers[i].channel != state.buffers[j].channel);
                    }
                }
                assert forall|i: int| 0 <= i < after.buffers.len() implies (
                #[trigger] after.buffers[i]).entries.len() <= MAX_BUFFERED_OUTPUTS by {
                    if i < n {
                        assert(state.buffers[i].entries.len() <= MAX_BUFFERED_OUTPUTS);
                    }
                }
                if channel_name == channel {
                    lemma_buffer_at(after, channel, n);
                    assert(appended(Seq::<BufferedOutputView>::empty(), chunk) =~= seq![chunk]);
                } else {
                    if state.has_buffer(channel) {
                        let q = state.buffer_position(channel);
                        assert(after.buffers[q] == state.buffers[q]);
                        lemma_buffer_at(after, channel, q);
                    } else {
                        if after.has_buffer(channel) {
                            let q = after.buffer_position(channel);
                            if q < n {
                                assert(state.buffers[q].channel == channel);
                            }
                        }
                    }
                }
            }
        },
        ChannelManagerEventView::StateChanged { channel_name, state: reached } => {
            assert(after.buffers == state.buffers);
        },
    }
}

/// Keeping the newest chunks at every step keeps the newest chunks of all.
proof fn lemma_newest_push(chunks: Seq<BufferedOutputView>, chunk: BufferedOutputView)
    ensures
        appended(newest_chunks(chunks), chunk) == newest_chunks(chunks.push(chunk)),
{
    assert(appended(newest_chunks(chunks), chunk) =~= newest_chunks(chunks.push(chunk)));
}

/// The replay buffer of a channel holds the newest chunks of the
/// channel's output that the event pump has handled, as many as it has
/// room for, in order.
pub proof fn lemma_buffer_holds_newest(state: ServerView, events: Seq<Pumped>, channel: Seq<char>)
    requires
        state.wf(),
    ensures
        after_events(state, events).buffered(channel) == newest_chunks(
            state.buffered(channel) + produced_chunks(events, channel),
        ),
    decreases events.len(),
{
    lemma_buffer_holds_newest_from(state, events, channel);
}

proof fn lemma_buffer_holds_newest_from(state: ServerView, events: Seq<Pumped>, channel: Seq<char>)
    requires
        buffers_in_order(state.buffers),
    ensures
        buffers_in_order(after_events(state, events).buffers),
        after_events(state, events).buffered(channel) == newest_chunks(
            state.buffered(channel) + produced_chunks(events, channel),
        ),
    decreases events.len(),
{
    let held = state.buffered(channel);
    if events.len() == 0 {
        assert(held + Seq::<BufferedOutputView>::empty() =~= held);
        if state.has_buffer(channel) {
            let p = state.buffer_position(channel);
            assert(state.buffers[p].entries.len() <= MAX_BUFFERED_OUTPUTS);
        }
    } else {
        let head = events.drop_last();
        let last = events.last();
        lemma_buffer_holds_newest_from(state, head, channel);
        let middle = after_events(state, head);
        lemma_buffer_step(middle, last, channel);
        match chunk_of(last, channel) {
            Some(chunk) => {
                lemma_newest_push(held + produced_chunks(head, channel), chunk);
                assert((held + produced_chunks(head, channel)).push(chunk) =~= held
                    + produced_chunks(events, channel));
            },
            None => {},
        }
    }
}

/// The data of the chunks, in order.
pub open spec fn data_of(chunks: Seq<BufferedOutputView>) -> Seq<Seq<u8>> {
    chunks.map_values(|c: BufferedOutputView| c.data)
}

/// The replay of a channel's chunks to a client delivers their data, in order.
proof fn lemma_replay_delivers(
    client: u128,
    channel: Seq<char>,
    entries: Seq<BufferedOutputView>,
)
    ensures
        delivered(chunk_effects(client, channel, entries), client, channel) == data_of(entries),
    decreases entries.len(),
{
    let effects = chunk_effects(client, channel, entries);
    if entries.len() == 0 {
        assert(delivered(effects, client, channel) =~= data_of(entries));
    } else {
        lemma_replay_delivers(client, channel, entries.drop_last());
        assert(effects.drop_last() =~= chunk_effects(client, channel, entries.drop_last()));
        assert(delivered(effects, client, channel) =~= data_of(entries));
    }
}

/// A client that subscribes to a live channel late is first replayed the
/// newest chunks of the channel's output that the event pump has handled
/// until then, as many as the replay buffer has room for, and is then
/// delivered what the channel produces from then on: in all, a stretch of
/// the channel's output without gaps, in order.
pub proof fn lemma_late_subscriber(
    state: ServerView,
    earlier: Seq<Pumped>,
    client: u128,
    channel: Seq<char>,
    later: Seq<Pumped>,
)
    requires
        state.wf(),
        state.has_client(client),
        !receives(state, client, channel),
        after_events(state, earlier).manager.is_live(channel),
    ensures
        ({
            let joining = after_events(state, earlier).decoded(client);
            let request = ClientMessageView::Subscribe { channels: seq![channel] };
            let joined = joining.after_message(client, request);
            let replayed = delivered(joining.message_effects(client, request), client, channel);
            let live = delivered(events_effects(joined, later), client, channel);
            &&& delivered(events_effects(state, earlier), client, channel).len() == 0
            &&& replayed == data_of(
                newest_chunks(state.buffered(channel) + produced_chunks(earlier, channel)),
            )
            &&& receives(joined, client, channel)
            &&& live.len() <= produced(later, channel).len()
            &&& live == produced(later, channel).take(live.len() as int)
            &&& !ended(later, channel) ==> live == produced(later, channel)
        }),
{
    let middle = after_events(state, earlier);
    let joining = middle.decoded(client);
    let request = ClientMessageView::Subscribe { channels: seq![channel] };
    let joined = joining.after_message(client, request);
    lemma_outputs_in_order_from(state, earlier, client, channel);
    lemma_buffer_holds_newest(state, earlier, channel);
    lemma_run_keeps_shape(state, earlier, client);
    // the client as the pump left it
    assert(middle.has_client(client));
    let p = middle.client_position(client);
    let known = middle.client(client);
    let noted = ClientView { decode_failed: false, ..known };
    assert(joining.clients == middle.clients.update(p, noted));
    assert(joining.clients[p].id == client);
    assert(joining.has_client(client));
    assert(distinct(joining.clients)) by {
        assert forall|i: int, j: int| 0 <= i < j < joining.clients.len() implies (
        #[trigger] joining.clients[i]).id != (#[trigger] joining.clients[j]).id by {
            assert(middle.clients[i].id != middle.clients[j].id);
        }
    }
    let q = joining.client_position(client);
    if q < p {
        assert(joining.clients[q].id != joining.clients[p].id);
    }
    if p < q {
        assert(joining.clients[p].id != joining.clients[q].id);
    }
    assert(joining.client(client) == noted);
    assert(!noted.subscriptions.contains(channel));
    // what the request is for
    let targets = joining.subscribe_targets(seq![channel]);
    assert(joining.manager == middle.manager);
    assert(seq![channel][0] == channel);
    if channel == "*"@ {
        assert(seq![channel].contains("*"@));
        lemma_live_names(joining.manager, channel);
    } else {
        assert(!seq![channel].contains("*"@));
        reveal(Seq::filter);
        assert(seq![channel].drop_last() =~= Seq::<Seq<char>>::empty());
        assert(targets =~= seq![channel]);
    }
    assert(targets.contains(channel)) by {
        if channel != "*"@ {
            assert(targets[0] == channel);
        }
    }
    lemma_with_names(noted.subscriptions, targets);
    let added = newly_added(noted.subscriptions, targets);
    assert(added.contains(channel));
    // the replay
    lemma_replay_of(joining, client, added, channel);
    assert(joining.buffers == middle.buffers);
    assert(joining.buffered(channel) == middle.buffered(channel));
    lemma_replay_delivers(client, channel, joining.buffered(channel));
    let told = seq![
        notify(
            client,
            ChannelEventView::SubscriptionChanged {
                subscribed: with_names(noted.subscriptions, targets),
            },
        ),
    ];
    lemma_delivered_concat(joining.replay(client, added), told, client, channel);
    assert(delivered(told, client, channel) =~= Seq::<Seq<u8>>::empty()) by {
        reveal_with_fuel(delivered, 2);
    }
    assert(delivered(joining.replay(client, added), client, channel) + Seq::<Seq<u8>>::empty()
        =~= delivered(joining.replay(client, added), client, channel));
    // from then on
    let updated = ClientView {
        subscriptions: with_names(noted.subscriptions, targets),
        ..noted
    };
    assert(joined.clients == joining.clients.update(q, updated));
    assert(joined.clients[p].id == client);
    assert(joined.clients[p].subscriptions.contains(channel));
    assert(distinct(joined.clients)) by {
        assert forall|i: int, j: int| 0 <= i < j < joined.clients.len() implies (
        #[trigger] joined.clients[i]).id != (#[trigger] joined.clients[j]).id by {
            assert(joining.clients[i].id != joining.clients[j].id);
        }
    }
    assert(listens(joined.clients, client, channel));
    lemma_receives(joined, client, channel);
    lemma_outputs_in_order_from(joined, later, client, channel);
}

/// While the event pump handles events, the clients stay who they are.
proof fn lemma_run_keeps_shape(state: ServerView, events: Seq<Pumped>, client: u128)
    requires
        distinct(state.clients),
    ensures
        distinct(after_events(state, events).clients),
        after_events(state, events).has_client(client) == state.has_client(client),
        after_events(state, events).manager == state.manager,
    decreases events.len(),
{
    if events.len() > 0 {
        lemma_run_keeps_shape(state, events.drop_last(), client);
        lemma_pump_step(
            after_events(state, events.drop_last()),
            events.last().event,
            events.last().timestamp,
            client,
            Seq::empty(),
        );
    }
}

/// The replay of channels of which one is the given channel, and the
/// others are not, delivers the buffered chunks of that channel.
proof fn lemma_replay_of(state: ServerView, client: u128, channels: Seq<Seq<char>>, channel: Seq<char>)
    requires
        channels.contains(channel),
        channels.no_duplicates(),
    ensures
        delivered(state.replay(client, channels), client, channel) == delivered(
            chunk_effects(client, channel, state.buffered(channel)),
            client,
            channel,
        ),
    decreases channels.len(),
{
    let head = channels.drop_last();
    let last = channels.last();
    let here = chunk_effects(client, last, state.buffered(last));
    lemma_delivered_concat(state.replay(client, head), here, client, channel);
    if last == channel {
        // no earlier channel is this one
        assert(!head.contains(channel)) by {
            if head.contains(channel) {
                let i = choose|i: int| 0 <= i < head.len() && head[i] == channel;
                assert(channels[i] == channels[channels.len() - 1]);
            }
        }
        lemma_replay_without(state, client, head, channel);
        assert(Seq::<Seq<u8>>::empty() + delivered(here, client, channel) =~= delivered(
            here,
            client,
            channel,
        ));
    } else {
        assert(head.contains(channel)) by {
            let i = choose|i: int| 0 <= i < channels.len() && channels[i] == channel;
            assert(head[i] == channel);
        }
        lemma_replay_of(state, client, head, channel);
        assert forall|i: int| 0 <= i < here.len() implies delivers(
            #[trigger] here[i],
            client,
            channel,
        ) is None by {}
        lemma_delivered_none(here, client, channel);
        assert(delivered(here, client, channel) =~= Seq::<Seq<u8>>::empty());
        assert(delivered(state.replay(client, head), client, channel) + Seq::<Seq<u8>>::empty()
            =~= delivered(state.replay(client, head), client, channel));
    }
}

/// The replay of other channels delivers nothing of the given channel.
proof fn lemma_replay_without(
    state: ServerView,
    client: u128,
    channels: Seq<Seq<char>>,
    channel: Seq<char>,
)
    requires
        !channels.contains(channel),
    ensures
        delivered(state.replay(client, channels), client, channel).len() == 0,
    decreases channels.len(),
{
    if channels.len() > 0 {
        let head = channels.drop_last();
        let last = channels.last();
        assert(channels[channels.len() - 1] == last);
        assert(!head.contains(channel)) by {
            if head.contains(channel) {
                let i = choose|i: int| 0 <= i < head.len() && head[i] == channel;
                assert(channels[i] == channel);
            }
        }
        lemma_replay_without(state, client, head, channel);
        let here = chunk_effects(client, last, state.buffered(last));
        assert forall|i: int| 0 <= i < here.len() implies delivers(
            #[trigger] here[i],
            client,
            channel,
        ) is None by {}
        lemma_delivered_none(here, client, channel);
        lemma_delivered_concat(state.replay(client, head), here, client, channel);
    }
}

} // verus!
