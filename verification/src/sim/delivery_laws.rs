//! What holds of every run of the simulated environment: the order of
//! delivery and the conservation of market data.

use vstd::prelude::*;
use vstd::multiset::Multiset;
use vstd::seq_lib::*;
use crate::events::{Event, EventView};
use crate::sim::environment::{
    forwarded, SimulatedBroker, SimulatedEnvironment, SimulatedTradingMarketDataProvider,
};
use crate::sim::merge::sorted_by_timestamp;
use crate::sim::schedule::{
    fed_market_data, forwards, market_data_of, sorted_by_venue_time, watermark, Feed,
};
use crate::types::ts_add;

verus! {

/// How often an event occurs among the market data of a sequence of
/// events: as often as in the sequence if it is market data, never if it is
/// not.
pub proof fn lemma_market_data_of_count(events: Seq<EventView>, event: EventView)
    ensures
        market_data_of(events).to_multiset().count(event) == if event.is_market_data() {
            events.to_multiset().count(event)
        } else {
            0
        },
    decreases events.len(),
{
    broadcast use group_to_multiset_ensures;

    if events.len() == 0 {
        assert(events.to_multiset() =~= Multiset::empty());
        assert(market_data_of(events).to_multiset() =~= Multiset::empty());
    } else {
        lemma_market_data_of_count(events.drop_last(), event);
        assert(events.drop_last().push(events.last()) =~= events);
        assert(events.to_multiset() == events.drop_last().to_multiset().insert(events.last()));
    }
}

/// Monotonic delivery. As long as no broker generated an event that was
/// dated before an event already delivered at that moment, the events were
/// delivered in the order of the time at which the strategy sees them, and
/// nothing that waits for delivery is dated before the last event
/// delivered.
pub proof fn lemma_monotonic_delivery<T: SimulatedTradingMarketDataProvider, B: SimulatedBroker>(
    env: &SimulatedEnvironment<T, B>,
)
    requires
        env.wf(),
        env.on_time(),
    ensures
        sorted_by_timestamp(env.delivered()),
        forall|i: int, j: int|
            0 <= i < env.delivered().len() && 0 <= j < env.buffer().len()
                ==> env.delivered()[i].timestamp() <= env.buffer()[j].timestamp(),
{
    assert forall|i: int, j: int|
        0 <= i < env.delivered().len() && 0 <= j < env.buffer().len() implies env.delivered()[i].timestamp()
        <= env.buffer()[j].timestamp() by {
        assert(env.delivered()[i].timestamp() <= env.delivered()[env.delivered().len()
            - 1].timestamp());
        assert(env.buffer()[j].timestamp() >= watermark(env.delivered()));
    }
}

/// Delivery in the order of time. Let the brokers date their answers and
/// order updates no earlier than what was delivered when they generate
/// them, let every broker be there before the first market-data event is
/// pulled, let the stream come in the order of venue time, and let the
/// default latency not exceed the largest wire latency. Then the brokers
/// are on time with the market data too, because the merger hands them the
/// event that the strategy is expected to see first, and the events were
/// delivered in the order of the time at which the strategy sees them.
pub proof fn lemma_delivery_in_order<T: SimulatedTradingMarketDataProvider, B: SimulatedBroker>(
    env: &SimulatedEnvironment<T, B>,
)
    requires
        env.wf(),
        env.answers_on_time(),
        env.steady(),
        sorted_by_venue_time(env.stream()),
        env.default_latency() <= env.max_md_wire_latency(),
    ensures
        env.on_time(),
        sorted_by_timestamp(env.delivered()),
        match env.pending() {
            Some(md) => forall|i: int|
                0 <= i < env.delivered().len() ==> (#[trigger] env.delivered()[i]).timestamp()
                    <= env.expected_received_ts(md),
            None => true,
        },
{
    lemma_monotonic_delivery(env);
    if env.pending().is_some() {
        let md = env.pending().unwrap();
        assert forall|i: int| 0 <= i < env.delivered().len() implies (
        #[trigger] env.delivered()[i]).timestamp() <= env.expected_received_ts(md) by {
            assert(env.delivered()[i].timestamp() <= env.delivered()[env.delivered().len()
                - 1].timestamp());
            assert(env.due_from(watermark(env.delivered()), md));
        }
    }
}

/// Exhaustion lasts. Once nothing is left, a delivery delivers nothing,
/// hands nothing to the brokers and leaves nothing behind: every later
/// delivery finds the environment exhausted again.
pub proof fn lemma_exhaustion_lasts<T: SimulatedTradingMarketDataProvider, B: SimulatedBroker>(
    before: &SimulatedEnvironment<T, B>,
    after: &SimulatedEnvironment<T, B>,
    r: Option<Event>,
)
    requires
        before.wf(),
        before.exhausted(),
        after.delivers_next(before, r),
    ensures
        r.is_none(),
        after.exhausted(),
        after.fed() == before.fed(),
        after.emitted() == before.emitted(),
        after.delivered() == before.delivered(),
{
    assert(before.market_data_left() == 0);
}

/// What waits goes first. While the buffer holds an event that is not
/// later than the strategy is expected to see the pending market data, or
/// no market data is left, a delivery delivers the first event of the
/// buffer and hands nothing to the brokers.
pub proof fn lemma_waiting_event_goes_first<
    T: SimulatedTradingMarketDataProvider,
    B: SimulatedBroker,
>(before: &SimulatedEnvironment<T, B>, after: &SimulatedEnvironment<T, B>, r: Option<Event>)
    requires
        before.wf(),
        before.waits_first(),
        after.delivers_next(before, r),
    ensures
        r.is_some(),
        r.unwrap()@ == before.buffer()[0],
        after.fed() == before.fed(),
        after.emitted() == before.emitted(),
        after.delivered() == before.delivered().push(before.buffer()[0]),
        after.buffer() == before.buffer().skip(1),
{
    assert(after.emitted().skip(before.emitted().len() as int) =~= Seq::<EventView>::empty());
    let event = r.unwrap();
    assert(seq![event@] + after.buffer() == before.buffer());
    assert(after.buffer() =~= (seq![event@] + after.buffer()).skip(1));
}

/// Market-data conservation. At every moment each market-data event that
/// was pulled from the provider is in exactly one place: read ahead,
/// pending, or handed to the brokers; and each event that the brokers
/// generated is in exactly one place: waiting for delivery, or delivered.
/// The market data that the brokers generated is, event by event, what was
/// handed to them, stamped with its venue time plus the wire latency of the
/// broker of its exchange.
///
/// Once nothing is left, every market-data event of the stream was handed
/// to the brokers exactly once, and the market data delivered is exactly
/// what the brokers forward of the stream: once each event whose exchange
/// has a broker.
pub proof fn lemma_market_data_conservation<
    T: SimulatedTradingMarketDataProvider,
    B: SimulatedBroker,
>(env: &SimulatedEnvironment<T, B>)
    requires
        env.wf(),
    ensures
        env.pulled() + env.remaining() == env.stream(),
        market_data_of(env.emitted()) == forwards(env.fed()),
        env.delivered().to_multiset().add(env.buffer().to_multiset())
            == env.emitted().to_multiset(),
        env.exhausted() ==> fed_market_data(env.fed()).to_multiset() == env.stream().to_multiset()
            && market_data_of(env.delivered()).to_multiset() == forwards(env.fed()).to_multiset(),
{
    broadcast use group_to_multiset_ensures;

    if env.exhausted() {
        assert(env.remaining() =~= Seq::empty());
        assert(env.pulled() + env.remaining() =~= env.pulled());
        assert(env.md_buffer() =~= Seq::empty());
        assert(env.md_buffer().to_multiset() =~= Multiset::empty());
        assert(fed_market_data(env.fed()).to_multiset() =~= env.pulled().to_multiset());
        assert(env.buffer() =~= Seq::empty());
        assert(env.buffer().to_multiset() =~= Multiset::empty());
        assert(env.delivered().to_multiset() =~= env.emitted().to_multiset());
        assert forall|event: EventView|
            market_data_of(env.delivered()).to_multiset().count(event) == market_data_of(
                env.emitted(),
            ).to_multiset().count(event) by {
            lemma_market_data_of_count(env.delivered(), event);
            lemma_market_data_of_count(env.emitted(), event);
        }
        assert(market_data_of(env.delivered()).to_multiset() =~= market_data_of(
            env.emitted(),
        ).to_multiset());
    }
}

/// Where every exchange has a broker, nothing is lost: if each market-data
/// event handed to the brokers found the broker of its exchange, the
/// brokers forward every one of them, in the order in which they were
/// handed over, each stamped with its venue time plus the wire latency of
/// that broker and otherwise unchanged.
pub proof fn lemma_forwards_every_event(fed: Seq<Feed>)
    requires
        forall|i: int| 0 <= i < fed.len() ==> (#[trigger] fed[i]).wire_latency.is_some(),
    ensures
        forwards(fed).len() == fed.len(),
        forall|i: int|
            0 <= i < fed.len() ==> (#[trigger] forwards(fed)[i]) == forwarded(
                fed[i].md,
                fed[i].wire_latency.unwrap(),
            ),
    decreases fed.len(),
{
    if fed.len() > 0 {
        assert forall|i: int| 0 <= i < fed.drop_last().len() implies (
        #[trigger] fed.drop_last()[i]).wire_latency.is_some() by {
            assert(fed[i] == fed.drop_last()[i]);
        }
        lemma_forwards_every_event(fed.drop_last());
        assert(fed[fed.len() - 1] == fed.last());
        assert forall|i: int| 0 <= i < fed.len() implies (#[trigger] forwards(fed)[i])
            == forwarded(fed[i].md, fed[i].wire_latency.unwrap()) by {
            if i < fed.len() - 1 {
                assert(forwards(fed)[i] == forwards(fed.drop_last())[i]);
                assert(fed[i] == fed.drop_last()[i]);
            }
        }
    }
}

/// What the brokers forward carries the time at which the strategy sees it:
/// the venue time of the market data plus the wire latency of the broker.
pub proof fn lemma_forwards_timing(fed: Seq<Feed>, k: int)
    requires
        0 <= k < forwards(fed).len(),
    ensures
        exists|j: int|
            0 <= j < fed.len() && (#[trigger] fed[j]).wire_latency.is_some() && forwards(fed)[k]
                == forwarded(fed[j].md, fed[j].wire_latency.unwrap()) && forwards(
                fed,
            )[k].timestamp() == ts_add(
                fed[j].md.exchange_timestamp(),
                fed[j].wire_latency.unwrap(),
            ),
    decreases fed.len(),
{
    let before = forwards(fed.drop_last());
    if k < before.len() {
        lemma_forwards_timing(fed.drop_last(), k);
        let j = choose|j: int|
            0 <= j < fed.drop_last().len() && (#[trigger] fed.drop_last()[j]).wire_latency.is_some()
                && before[k] == forwarded(
                fed.drop_last()[j].md,
                fed.drop_last()[j].wire_latency.unwrap(),
            ) && before[k].timestamp() == ts_add(
                fed.drop_last()[j].md.exchange_timestamp(),
                fed.drop_last()[j].wire_latency.unwrap(),
            );
        assert(fed[j] == fed.drop_last()[j]);
        if fed.last().wire_latency.is_some() {
            assert(forwards(fed)[k] == before[k]);
        }
    } else {
        assert(fed[fed.len() - 1] == fed.last());
    }
}

} // verus!
