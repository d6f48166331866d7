//! The model of the merger: which market-data event goes to the brokers
//! next, what the brokers are to forward of it, and when an event is on
//! time.

use vstd::prelude::*;
use crate::events::{events_view, Event, EventView};
use crate::market_data::MarketDataEventView;
use crate::sim::environment::{forwarded, SimulatedBroker};
use crate::sim::merge::merge_by_timestamp;
use crate::types::{ts_add, Latency, Timestamp};

verus! {

/// Where the broker of an exchange stands among the brokers: the first one
/// with that exchange, if there is one.
pub open spec fn broker_of<B: SimulatedBroker>(brokers: Seq<B>, exchange: Seq<char>) -> Option<int>
    decreases brokers.len(),
{
    if brokers.len() == 0 {
        None
    } else {
        match broker_of(brokers.drop_last(), exchange) {
            Some(i) => Some(i),
            None => if brokers.last().exchange_name() == exchange {
                Some(brokers.len() - 1)
            } else {
                None
            },
        }
    }
}

/// The largest wire latency among the brokers; zero without brokers.
pub open spec fn max_latency<B: SimulatedBroker>(brokers: Seq<B>) -> Latency
    decreases brokers.len(),
{
    if brokers.len() == 0 {
        0
    } else if brokers.last().latency() > max_latency(brokers.drop_last()) {
        brokers.last().latency()
    } else {
        max_latency(brokers.drop_last())
    }
}

/// The wire latency behind which the strategy sees market data of an
/// exchange: that of the broker of the exchange, if there is one.
pub open spec fn latency_of<B: SimulatedBroker>(brokers: Seq<B>, exchange: Seq<char>) -> Option<
    Latency,
> {
    match broker_of(brokers, exchange) {
        Some(i) => Some(brokers[i].latency()),
        None => None,
    }
}

/// When the strategy is expected to see a market-data event: its venue time
/// plus the wire latency of the broker of its exchange, or plus the default
/// latency if the exchange has no broker.
pub open spec fn expected_received_ts<B: SimulatedBroker>(
    brokers: Seq<B>,
    default_latency: Latency,
    md: MarketDataEventView,
) -> Timestamp {
    match latency_of(brokers, md.exchange()) {
        Some(latency) => ts_add(md.exchange_timestamp(), latency),
        None => ts_add(md.exchange_timestamp(), default_latency),
    }
}

/// The event of the buffer that the strategy is expected to see first; of
/// several such events, the one that stands first.
pub open spec fn earliest<B: SimulatedBroker>(
    brokers: Seq<B>,
    default_latency: Latency,
    buffer: Seq<MarketDataEventView>,
) -> int
    decreases buffer.len(),
{
    if buffer.len() <= 1 {
        0
    } else {
        let before = earliest(brokers, default_latency, buffer.drop_last());
        if expected_received_ts(brokers, default_latency, buffer.last()) < expected_received_ts(
            brokers,
            default_latency,
            buffer[before],
        ) {
            buffer.len() - 1
        } else {
            before
        }
    }
}

/// How many events the read-ahead pulls from the stream: every event up to
/// the venue time `bound`, and the first one beyond it.
pub open spec fn lookahead(remaining: Seq<MarketDataEventView>, bound: Timestamp) -> nat
    decreases remaining.len(),
{
    if remaining.len() == 0 {
        0
    } else if remaining[0].exchange_timestamp() > bound {
        1
    } else {
        1 + lookahead(remaining.skip(1), bound)
    }
}

/// The strategy is expected to see no event of the buffer before the one
/// that `earliest` names.
pub proof fn lemma_earliest<B: SimulatedBroker>(
    brokers: Seq<B>,
    default_latency: Latency,
    buffer: Seq<MarketDataEventView>,
)
    requires
        buffer.len() > 0,
    ensures
        0 <= earliest(brokers, default_latency, buffer) < buffer.len(),
        forall|i: int|
            0 <= i < buffer.len() ==> expected_received_ts(
                brokers,
                default_latency,
                buffer[earliest(brokers, default_latency, buffer)],
            ) <= expected_received_ts(brokers, default_latency, #[trigger] buffer[i]),
    decreases buffer.len(),
{
    if buffer.len() > 1 {
        lemma_earliest(brokers, default_latency, buffer.drop_last());
        let before = earliest(brokers, default_latency, buffer.drop_last());
        assert(buffer.drop_last()[before] == buffer[before]);
        assert forall|i: int| 0 <= i < buffer.len() implies expected_received_ts(
            brokers,
            default_latency,
            buffer[earliest(brokers, default_latency, buffer)],
        ) <= expected_received_ts(brokers, default_latency, #[trigger] buffer[i]) by {
            if i < buffer.len() - 1 {
                assert(buffer.drop_last()[i] == buffer[i]);
            }
        }
    }
}

/// The strategy is expected to see a market-data event no earlier than the
/// venue produced it, and no later than the largest latency after that.
pub proof fn lemma_expected_received_ts<B: SimulatedBroker>(
    brokers: Seq<B>,
    default_latency: Latency,
    md: MarketDataEventView,
)
    ensures
        md.exchange_timestamp() <= expected_received_ts(brokers, default_latency, md),
        default_latency <= max_latency(brokers) ==> expected_received_ts(
            brokers,
            default_latency,
            md,
        ) <= ts_add(md.exchange_timestamp(), max_latency(brokers)),
{
    lemma_broker_of(brokers, md.exchange());
    lemma_max_latency(brokers);
}

/// The read-ahead pulls no more than the stream holds.
pub proof fn lemma_lookahead_bound(remaining: Seq<MarketDataEventView>, bound: Timestamp)
    ensures
        lookahead(remaining, bound) <= remaining.len(),
    decreases remaining.len(),
{
    if remaining.len() > 0 && remaining[0].exchange_timestamp() <= bound {
        lemma_lookahead_bound(remaining.skip(1), bound);
    }
}

/// What the read-ahead makes of the look-ahead buffer and of the stream. An
/// empty buffer first takes the next event of the stream. Then the buffer
/// takes every further event whose venue time is within the largest wire
/// latency of the venue time of its first event, and one event beyond.
/// Returns the buffer and what stays with the provider.
pub open spec fn read_ahead(
    md_buffer: Seq<MarketDataEventView>,
    remaining: Seq<MarketDataEventView>,
    max_latency: Latency,
) -> (Seq<MarketDataEventView>, Seq<MarketDataEventView>) {
    let head = if md_buffer.len() == 0 {
        remaining.take(1)
    } else {
        md_buffer
    };
    let rest = if md_buffer.len() == 0 {
        remaining.skip(1)
    } else {
        remaining
    };
    let count = lookahead(rest, ts_add(head[0].exchange_timestamp(), max_latency)) as int;
    (head + rest.take(count), rest.skip(count))
}

/// A market-data event that was handed to the brokers, with the wire
/// latency of the broker of its exchange, if the exchange had one.
pub struct Feed {
    pub md: MarketDataEventView,
    pub wire_latency: Option<Latency>,
}

/// The market-data events that were handed to the brokers, in order.
pub open spec fn fed_market_data(fed: Seq<Feed>) -> Seq<MarketDataEventView> {
    Seq::new(fed.len(), |i: int| fed[i].md)
}

/// What the brokers forward to the strategy of the market data handed to
/// them: each event whose exchange has a broker, stamped with its venue
/// time plus the wire latency of that broker.
pub open spec fn forwards(fed: Seq<Feed>) -> Seq<EventView>
    decreases fed.len(),
{
    if fed.len() == 0 {
        Seq::empty()
    } else {
        match fed.last().wire_latency {
            Some(latency) => forwards(fed.drop_last()).push(forwarded(fed.last().md, latency)),
            None => forwards(fed.drop_last()),
        }
    }
}

/// The market-data events among the events, in order.
pub open spec fn market_data_of(events: Seq<EventView>) -> Seq<EventView>
    decreases events.len(),
{
    if events.len() == 0 {
        Seq::empty()
    } else if events.last().is_market_data() {
        market_data_of(events.drop_last()).push(events.last())
    } else {
        market_data_of(events.drop_last())
    }
}

/// The events of several lists, put one list after the other.
pub open spec fn all_events(lists: Seq<Vec<Event>>) -> Seq<EventView>
    decreases lists.len(),
{
    if lists.len() == 0 {
        Seq::empty()
    } else {
        all_events(lists.drop_last()) + events_view(lists.last()@)
    }
}

/// The time of the last event delivered; zero before the first.
pub open spec fn watermark(delivered: Seq<EventView>) -> Timestamp {
    if delivered.len() == 0 {
        0
    } else {
        delivered.last().timestamp()
    }
}

/// Whether every event from `from` on is dated at `floor` or later.
pub open spec fn dated_from(events: Seq<EventView>, from: int, floor: Timestamp) -> bool {
    forall|i: int| from <= i < events.len() ==> (#[trigger] events[i]).timestamp() >= floor
}

/// Whether every event from `from` on that is not market data is dated at
/// `floor` or later.
pub open spec fn answers_dated_from(events: Seq<EventView>, from: int, floor: Timestamp) -> bool {
    forall|i: int|
        from <= i < events.len() ==> (#[trigger] events[i]).is_market_data()
            || events[i].timestamp() >= floor
}

/// Venue times never go down along the sequence.
pub open spec fn sorted_by_venue_time(s: Seq<MarketDataEventView>) -> bool {
    forall|i: int, j: int|
        0 <= i <= j < s.len() ==> s[i].exchange_timestamp() <= s[j].exchange_timestamp()
}

/// Whether `longer` starts with `shorter`.
pub open spec fn extends<A>(shorter: Seq<A>, longer: Seq<A>) -> bool {
    shorter.len() <= longer.len() && longer.take(shorter.len() as int) == shorter
}

/// `broker_of` finds the first broker with the given exchange, and finds
/// none only if there is none.
pub proof fn lemma_broker_of<B: SimulatedBroker>(brokers: Seq<B>, exchange: Seq<char>)
    ensures
        match broker_of(brokers, exchange) {
            Some(i) => 0 <= i < brokers.len() && brokers[i].exchange_name() == exchange
                && forall|j: int| 0 <= j < i ==> brokers[j].exchange_name() != exchange,
            None => forall|j: int| 0 <= j < brokers.len() ==> brokers[j].exchange_name() != exchange,
        },
    decreases brokers.len(),
{
    if brokers.len() > 0 {
        lemma_broker_of(brokers.drop_last(), exchange);
        match broker_of(brokers.drop_last(), exchange) {
            Some(i) => {
                assert forall|j: int| 0 <= j < i implies brokers[j].exchange_name() != exchange by {
                    assert(brokers.drop_last()[j].exchange_name() != exchange);
                }
                assert(brokers.drop_last()[i] == brokers[i]);
            },
            None => {
                assert forall|j: int| 0 <= j < brokers.len() - 1 implies brokers[j].exchange_name()
                    != exchange by {
                    assert(brokers.drop_last()[j].exchange_name() != exchange);
                }
            },
        }
    }
}

/// No broker has a wire latency above `max_latency`.
pub proof fn lemma_max_latency<B: SimulatedBroker>(brokers: Seq<B>)
    ensures
        forall|i: int| 0 <= i < brokers.len() ==> (#[trigger] brokers[i]).latency() <= max_latency(
            brokers,
        ),
    decreases brokers.len(),
{
    if brokers.len() > 0 {
        lemma_max_latency(brokers.drop_last());
        assert forall|i: int| 0 <= i < brokers.len() implies (#[trigger] brokers[i]).latency()
            <= max_latency(brokers) by {
            if i < brokers.len() - 1 {
                assert(brokers.drop_last()[i] == brokers[i]);
            }
        }
    }
}

/// Whether the brokers of `b` are those of `a`, each at a later moment:
/// as many, with the same exchanges and wire latencies, in the same order.
pub open spec fn same_venues<B: SimulatedBroker>(a: Seq<B>, b: Seq<B>) -> bool {
    &&& a.len() == b.len()
    &&& forall|i: int|
        0 <= i < a.len() ==> (#[trigger] a[i]).exchange_name() == (#[trigger] b[i]).exchange_name()
            && a[i].latency() == b[i].latency()
}

/// What depends on the brokers' exchanges and wire latencies only is the
/// same for the same venues.
pub proof fn lemma_same_venues<B: SimulatedBroker>(a: Seq<B>, b: Seq<B>)
    requires
        same_venues(a, b),
    ensures
        max_latency(a) == max_latency(b),
        forall|exchange: Seq<char>| #[trigger] broker_of(a, exchange) == broker_of(b, exchange),
        forall|exchange: Seq<char>| #[trigger] latency_of(a, exchange) == latency_of(b, exchange),
    decreases a.len(),
{
    if a.len() > 0 {
        assert(same_venues(a.drop_last(), b.drop_last())) by {
            assert forall|i: int| 0 <= i < a.drop_last().len() implies (
            #[trigger] a.drop_last()[i]).exchange_name() == (
            #[trigger] b.drop_last()[i]).exchange_name() && a.drop_last()[i].latency()
                == b.drop_last()[i].latency() by {
                assert(a[i].exchange_name() == b[i].exchange_name());
            }
        }
        lemma_same_venues(a.drop_last(), b.drop_last());
        assert(a.last() == a[a.len() - 1] && b.last() == b[b.len() - 1]);
        assert(a[a.len() - 1].exchange_name() == b[a.len() - 1].exchange_name());
        assert forall|exchange: Seq<char>| #[trigger]
            broker_of(a, exchange) == broker_of(b, exchange) by {
            assert(broker_of(a.drop_last(), exchange) == broker_of(b.drop_last(), exchange));
        }
        assert forall|exchange: Seq<char>| #[trigger]
            latency_of(a, exchange) == latency_of(b, exchange) by {
            assert(broker_of(a, exchange) == broker_of(b, exchange));
            lemma_broker_of(a, exchange);
        }
    } else {
        assert forall|exchange: Seq<char>| #[trigger]
            latency_of(a, exchange) == latency_of(b, exchange) by {
            assert(broker_of(a, exchange) == broker_of(b, exchange));
        }
    }
}

/// Events that are answers and order updates hold no market data.
pub proof fn lemma_market_data_of_answers(events: Seq<EventView>)
    requires
        forall|i: int| 0 <= i < events.len() ==> !(#[trigger] events[i]).is_market_data(),
    ensures
        market_data_of(events) == Seq::<EventView>::empty(),
    decreases events.len(),
{
    if events.len() > 0 {
        assert forall|i: int| 0 <= i < events.drop_last().len() implies !(
        #[trigger] events.drop_last()[i]).is_market_data() by {
            assert(events.drop_last()[i] == events[i]);
        }
        lemma_market_data_of_answers(events.drop_last());
        assert(!events[events.len() - 1].is_market_data());
    }
}

/// Of events that start with a market-data event and go on with answers and
/// order updates, the market data is that first event.
pub proof fn lemma_market_data_of_forward(events: Seq<EventView>)
    requires
        events.len() > 0,
        events[0].is_market_data(),
        forall|i: int| 1 <= i < events.len() ==> !(#[trigger] events[i]).is_market_data(),
    ensures
        market_data_of(events) == seq![events[0]],
    decreases events.len(),
{
    if events.len() == 1 {
        assert(market_data_of(events.drop_last()) =~= Seq::empty());
        assert(market_data_of(events) =~= seq![events[0]]);
    } else {
        assert forall|i: int| 1 <= i < events.drop_last().len() implies !(
        #[trigger] events.drop_last()[i]).is_market_data() by {
            assert(events.drop_last()[i] == events[i]);
        }
        assert(events.drop_last()[0] == events[0]);
        lemma_market_data_of_forward(events.drop_last());
        assert(!events[events.len() - 1].is_market_data());
    }
}

/// Merging in two steps is merging at once.
pub proof fn lemma_merge_twice(buffer: Seq<EventView>, first: Seq<EventView>, second: Seq<EventView>)
    ensures
        merge_by_timestamp(merge_by_timestamp(buffer, first), second) == merge_by_timestamp(
            buffer,
            first + second,
        ),
    decreases second.len(),
{
    if second.len() == 0 {
        assert(first + second =~= first);
    } else {
        lemma_merge_twice(buffer, first, second.drop_last());
        assert((first + second).drop_last() =~= first + second.drop_last());
        assert((first + second).last() == second.last());
    }
}

/// What was emitted in two steps was emitted from the start.
pub proof fn lemma_progress(
    base: Seq<EventView>,
    prev: Seq<EventView>,
    cur: Seq<EventView>,
    start: int,
    floor: Timestamp,
)
    requires
        start == base.len(),
        extends(base, prev),
        extends(prev, cur),
    ensures
        extends(base, cur),
        prev.skip(start) + cur.skip(prev.len() as int) == cur.skip(start),
        dated_from(cur, start, floor) == (dated_from(prev, start, floor) && dated_from(
            cur,
            prev.len() as int,
            floor,
        )),
{
    assert(cur.take(start) =~= prev.take(start));
    assert(prev.skip(start) + cur.skip(prev.len() as int) =~= cur.skip(start)) by {
        assert forall|i: int| 0 <= i < prev.len() - start implies prev.skip(start)[i] == cur.skip(
            start,
        )[i] by {
            assert(cur.take(prev.len() as int)[start + i] == prev[start + i]);
        }
    }
    if dated_from(cur, start, floor) {
        assert forall|i: int| start <= i < prev.len() implies (#[trigger] prev[i]).timestamp()
            >= floor by {
            assert(cur.take(prev.len() as int)[i] == prev[i]);
            assert(cur[i].timestamp() >= floor);
        }
    }
    if dated_from(prev, start, floor) && dated_from(cur, prev.len() as int, floor) {
        assert forall|i: int| start <= i < cur.len() implies (#[trigger] cur[i]).timestamp()
            >= floor by {
            if i < prev.len() {
                assert(cur.take(prev.len() as int)[i] == prev[i]);
                assert(prev[i].timestamp() >= floor);
            }
        }
    }
}

/// What `lemma_progress` says of the dates of all events, of the dates of
/// answers and order updates.
pub proof fn lemma_answers_progress(
    base: Seq<EventView>,
    prev: Seq<EventView>,
    cur: Seq<EventView>,
    start: int,
    floor: Timestamp,
)
    requires
        start == base.len(),
        extends(base, prev),
        extends(prev, cur),
    ensures
        answers_dated_from(cur, start, floor) == (answers_dated_from(prev, start, floor)
            && answers_dated_from(cur, prev.len() as int, floor)),
{
    if answers_dated_from(cur, start, floor) {
        assert forall|i: int| start <= i < prev.len() implies (#[trigger] prev[i]).is_market_data()
            || prev[i].timestamp() >= floor by {
            assert(cur.take(prev.len() as int)[i] == prev[i]);
            assert(cur[i].is_market_data() || cur[i].timestamp() >= floor);
        }
    }
    if answers_dated_from(prev, start, floor) && answers_dated_from(cur, prev.len() as int, floor) {
        assert forall|i: int| start <= i < cur.len() implies (#[trigger] cur[i]).is_market_data()
            || cur[i].timestamp() >= floor by {
            if i < prev.len() {
                assert(cur.take(prev.len() as int)[i] == prev[i]);
                assert(prev[i].is_market_data() || prev[i].timestamp() >= floor);
            }
        }
    }
}

} // verus!
