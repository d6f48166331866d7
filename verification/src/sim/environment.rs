//! The simulated environment: one market-data stream and the brokers of the
//! exchanges, merged into a single stream of events in the order in which
//! the strategy sees them.

use vstd::prelude::*;
use vstd::multiset::Multiset;
use vstd::seq_lib::*;
use crate::event_loop::{has_turn, EventProvider};
use crate::events::{events_view, Event, EventView};
use crate::market_data::{MarketDataEvent, MarketDataEventView};
use crate::sim::merge::{
    insert_event, lemma_insert_by_timestamp, lemma_merge_by_timestamp, lemma_rank,
    merge_by_timestamp, rank, sorted_by_timestamp,
};
use crate::sim::schedule::{
    all_events, answers_dated_from, broker_of, dated_from, earliest, expected_received_ts, extends,
    fed_market_data, forwards, latency_of, lemma_answers_progress, lemma_broker_of,
    lemma_earliest, lemma_expected_received_ts, lemma_market_data_of_answers,
    lemma_market_data_of_forward, lemma_merge_twice,
    lemma_progress, lemma_same_venues, lookahead, market_data_of, max_latency, read_ahead,
    same_venues, sorted_by_venue_time, watermark, Feed,
};
use crate::types::{add_latency, ts_add, Exchange, Latency, Timestamp};

verus! {

/// Why a broker could not be added to the environment.
#[derive(Debug, Clone, Copy, PartialEq, Eq, Structural)]
pub enum SimTradingError {
    /// The environment already has a broker for that exchange.
    BrokerAlreadyExists,
}

/// A source of market data, pulled one event at a time.
///
/// The provider holds a finite run of events and returns them in order.
/// They are expected in the order of their venue time.
pub trait SimulatedTradingMarketDataProvider {
    /// The events that the provider has yet to return, in order.
    spec fn remaining(&self) -> Seq<MarketDataEventView>;

    /// Returns the next event, or `None` when there is no more.
    fn next_event(&mut self) -> (r: Option<MarketDataEvent>)
        ensures
            match r {
                Some(event) => old(self).remaining().len() > 0 && event@ == old(self).remaining()[0]
                    && final(self).remaining() == old(self).remaining().skip(1),
                None => old(self).remaining().len() == 0 && final(self).remaining().len() == 0,
            },
    ;
}

/// The market-data event as a strategy sees it behind a wire latency.
pub open spec fn forwarded(md: MarketDataEventView, wire_latency: Latency) -> EventView {
    EventView::from_market_data(
        md.with_timestamp(ts_add(md.exchange_timestamp(), wire_latency)),
    )
}

/// The venue of one exchange, as the environment drives it.
pub trait SimulatedBroker {
    /// Whether the broker is well formed and between two ticks.
    spec fn ready(&self) -> bool;

    /// The model of `exchange`.
    spec fn exchange_name(&self) -> Seq<char>;

    /// The model of `wire_latency`.
    spec fn latency(&self) -> Latency;

    /// The name of the broker's exchange.
    fn exchange(&self) -> (r: Exchange)
        ensures
            r@ == self.exchange_name(),
    ;

    /// The delay between strategy and venue, each way.
    fn wire_latency(&self) -> (r: Timestamp)
        ensures
            r == self.latency(),
    ;

    /// A tick of time `ts` without market data for this broker. Returns the
    /// events that the broker generated; none of them is market data.
    fn on_new_timestamp(&mut self, ts: Timestamp) -> (r: Vec<Event>)
        requires
            old(self).ready(),
        ensures
            final(self).ready(),
            final(self).exchange_name() == old(self).exchange_name(),
            final(self).latency() == old(self).latency(),
            forall|i: int| 0 <= i < r.len() ==> !(#[trigger] r[i])@.is_market_data(),
    ;

    /// A tick that brings market data of this broker's exchange. Returns
    /// the events that the broker generated: first the market data as the
    /// strategy sees it, then answers and order updates.
    fn on_new_market_data(&mut self, md: &MarketDataEvent) -> (r: Vec<Event>)
        requires
            old(self).ready(),
        ensures
            final(self).ready(),
            final(self).exchange_name() == old(self).exchange_name(),
            final(self).latency() == old(self).latency(),
            r.len() > 0,
            r[0]@ == forwarded(md@, old(self).latency()),
            forall|i: int| 1 <= i < r.len() ==> !(#[trigger] r[i])@.is_market_data(),
    ;

    /// When the strategy sees the market data: its venue time plus the wire
    /// latency.
    fn estimate_market_data_timestamp(&self, md: &MarketDataEvent) -> (r: Timestamp)
        ensures
            r == ts_add(md@.exchange_timestamp(), self.latency()),
    ;
}

/// The models of a sequence of market-data events, in order.
pub open spec fn market_data_view(s: Seq<MarketDataEvent>) -> Seq<MarketDataEventView> {
    Seq::new(s.len(), |i: int| s[i]@)
}

/// A market-data provider that returns the events of a list, in order.
pub struct SequenceMarketDataProvider {
    md_events: Vec<MarketDataEvent>,
    event_idx: usize,
}

impl SequenceMarketDataProvider {
    /// A provider that returns `md_events`, first to last.
    pub fn new(md_events: Vec<MarketDataEvent>) -> (r: Self)
        ensures
            r.remaining() == market_data_view(md_events@),
    {
        let r = SequenceMarketDataProvider { md_events, event_idx: 0 };
        assert(r.remaining() =~= market_data_view(md_events@));
        r
    }
}

impl SimulatedTradingMarketDataProvider for SequenceMarketDataProvider {
    closed spec fn remaining(&self) -> Seq<MarketDataEventView> {
        if self.event_idx <= self.md_events.len() {
            market_data_view(self.md_events@).skip(self.event_idx as int)
        } else {
            Seq::empty()
        }
    }

    fn next_event(&mut self) -> (r: Option<MarketDataEvent>) {
        if self.event_idx < self.md_events.len() {
            let event = self.md_events[self.event_idx].clone();
            self.event_idx += 1;
            assert(final(self).remaining() =~= old(self).remaining().skip(1));
            Some(event)
        } else {
            None
        }
    }
}

/// Hands a market-data event to one of the brokers: as market data if the
/// broker is of the exchange of the event, as a tick of its venue time if
/// it is not. Returns what the broker generated. The other brokers stay as
/// they are.
fn tick_broker<B: SimulatedBroker>(brokers: &mut Vec<B>, i: usize, md: &MarketDataEvent) -> (r: Vec<
    Event,
>)
    requires
        i < old(brokers).len(),
        old(brokers)[i as int].ready(),
    ensures
        final(brokers).len() == old(brokers).len(),
        forall|j: int| 0 <= j < old(brokers).len() && j != i ==> final(brokers)[j] == old(brokers)[j],
        final(brokers)[i as int].ready(),
        final(brokers)[i as int].exchange_name() == old(brokers)[i as int].exchange_name(),
        final(brokers)[i as int].latency() == old(brokers)[i as int].latency(),
        if old(brokers)[i as int].exchange_name() == md@.exchange() {
            &&& r.len() > 0
            &&& r[0]@ == forwarded(md@, old(brokers)[i as int].latency())
            &&& forall|k: int| 1 <= k < r.len() ==> !(#[trigger] r[k])@.is_market_data()
            &&& exists|broker: &mut B|
                {
                    &&& mut_ref_current(broker) == old(brokers)[i as int]
                    &&& mut_ref_future(broker) == final(brokers)[i as int]
                    &&& #[trigger] call_ensures(B::on_new_market_data, (broker, md), r)
                }
        } else {
            &&& forall|k: int| 0 <= k < r.len() ==> !(#[trigger] r[k])@.is_market_data()
            &&& exists|broker: &mut B|
                {
                    &&& mut_ref_current(broker) == old(brokers)[i as int]
                    &&& mut_ref_future(broker) == final(brokers)[i as int]
                    &&& #[trigger] call_ensures(
                        B::on_new_timestamp,
                        (broker, md@.exchange_timestamp()),
                        r,
                    )
                }
        },
{
    let md_exchange = md.exchange();
    if brokers[i].exchange() == md_exchange {
        brokers[i].on_new_market_data(md)
    } else {
        brokers[i].on_new_timestamp(md.exchange_timestamp())
    }
}

/// Hands a market-data event to every broker, in the order of the brokers,
/// as `tick_broker` does. Returns what each broker generated.
fn tick_brokers<B: SimulatedBroker>(brokers: &mut Vec<B>, md: &MarketDataEvent) -> (r: Vec<
    Vec<Event>,
>)
    requires
        forall|j: int| 0 <= j < old(brokers).len() ==> (#[trigger] old(brokers)[j]).ready(),
    ensures
        final(brokers).len() == old(brokers).len(),
        r.len() == old(brokers).len(),
        forall|j: int| 0 <= j < final(brokers).len() ==> (#[trigger] final(brokers)[j]).ready(),
        same_venues(old(brokers)@, final(brokers)@),
        forall|j: int|
            0 <= j < r.len() ==> if old(brokers)[j].exchange_name() == md@.exchange() {
                &&& (#[trigger] r[j]).len() > 0
                &&& r[j][0]@ == forwarded(md@, old(brokers)[j].latency())
                &&& forall|k: int| 1 <= k < r[j].len() ==> !(#[trigger] r[j][k])@.is_market_data()
            } else {
                forall|k: int| 0 <= k < r[j].len() ==> !(#[trigger] r[j][k])@.is_market_data()
            },
        forall|j: int| #[trigger]
            has_turn(j, old(brokers).len() as nat) ==> if old(brokers)[j].exchange_name()
                == md@.exchange() {
                exists|broker: &mut B|
                    {
                        &&& mut_ref_current(broker) == old(brokers)[j]
                        &&& mut_ref_future(broker) == final(brokers)[j]
                        &&& #[trigger] call_ensures(B::on_new_market_data, (broker, md), r[j])
                    }
            } else {
                exists|broker: &mut B|
                    {
                        &&& mut_ref_current(broker) == old(brokers)[j]
                        &&& mut_ref_future(broker) == final(brokers)[j]
                        &&& #[trigger] call_ensures(
                            B::on_new_timestamp,
                            (broker, md@.exchange_timestamp()),
                            r[j],
                        )
                    }
            },
{
    let mut outputs: Vec<Vec<Event>> = Vec::new();
    let mut i: usize = 0;
    while i < brokers.len()
        invariant
            i <= brokers.len(),
            brokers.len() == old(brokers).len(),
            outputs.len() == i,
            forall|j: int| 0 <= j < brokers.len() ==> (#[trigger] brokers[j]).ready(),
            same_venues(old(brokers)@, brokers@),
            forall|j: int| i <= j < brokers.len() ==> brokers[j] == old(brokers)[j],
            forall|j: int|
                0 <= j < i ==> if old(brokers)[j].exchange_name() == md@.exchange() {
                    &&& (#[trigger] outputs[j]).len() > 0
                    &&& outputs[j][0]@ == forwarded(md@, old(brokers)[j].latency())
                    &&& forall|k: int|
                        1 <= k < outputs[j].len() ==> !(#[trigger] outputs[j][k])@.is_market_data()
                } else {
                    forall|k: int|
                        0 <= k < outputs[j].len() ==> !(#[trigger] outputs[j][k])@.is_market_data()
                },
            forall|j: int| #[trigger]
                has_turn(j, i as nat) ==> if old(brokers)[j].exchange_name() == md@.exchange() {
                    exists|broker: &mut B|
                        {
                            &&& mut_ref_current(broker) == old(brokers)[j]
                            &&& mut_ref_future(broker) == brokers[j]
                            &&& #[trigger] call_ensures(
                                B::on_new_market_data,
                                (broker, md),
                                outputs[j],
                            )
                        }
                } else {
                    exists|broker: &mut B|
                        {
                            &&& mut_ref_current(broker) == old(brokers)[j]
                            &&& mut_ref_future(broker) == brokers[j]
                            &&& #[trigger] call_ensures(
                                B::on_new_timestamp,
                                (broker, md@.exchange_timestamp()),
                                outputs[j],
                            )
                        }
                },
        decreases brokers.len() - i,
    {
        let ghost before = brokers@;
        let ghost earlier = outputs@;
        let new_events = tick_broker(brokers, i, md);
        let ghost returned = new_events;
        outputs.push(new_events);
        i += 1;
        assert(before[i - 1] == old(brokers)[i - 1]);
        assert(outputs[i - 1] == returned);
        assert(same_venues(old(brokers)@, brokers@)) by {
            assert forall|j: int| 0 <= j < brokers.len() implies (
            #[trigger] old(brokers)@[j]).exchange_name() == (#[trigger] brokers@[j]).exchange_name()
                && old(brokers)@[j].latency() == brokers@[j].latency() by {
                assert(old(brokers)@[j].exchange_name() == before[j].exchange_name());
                if j != i - 1 {
                    assert(brokers@[j] == before[j]);
                }
            }
        }
        assert forall|j: int| 0 <= j < brokers.len() implies (#[trigger] brokers[j]).ready() by {
            if j != i - 1 {
                assert(brokers[j] == before[j]);
                assert(before[j].ready());
            }
        }
        assert forall|j: int| 0 <= j < i implies if old(brokers)[j].exchange_name()
            == md@.exchange() {
            &&& (#[trigger] outputs[j]).len() > 0
            &&& outputs[j][0]@ == forwarded(md@, old(brokers)[j].latency())
            &&& forall|k: int|
                1 <= k < outputs[j].len() ==> !(#[trigger] outputs[j][k])@.is_market_data()
        } else {
            forall|k: int|
                0 <= k < outputs[j].len() ==> !(#[trigger] outputs[j][k])@.is_market_data()
        } by {
            if j < i - 1 {
                assert(outputs[j] == earlier[j]);
            }
        }
        assert forall|j: int| #[trigger] has_turn(j, i as nat) implies if old(
            brokers
        )[j].exchange_name() == md@.exchange() {
            exists|broker: &mut B|
                {
                    &&& mut_ref_current(broker) == old(brokers)[j]
                    &&& mut_ref_future(broker) == brokers[j]
                    &&& #[trigger] call_ensures(B::on_new_market_data, (broker, md), outputs[j])
                }
        } else {
            exists|broker: &mut B|
                {
                    &&& mut_ref_current(broker) == old(brokers)[j]
                    &&& mut_ref_future(broker) == brokers[j]
                    &&& #[trigger] call_ensures(
                        B::on_new_timestamp,
                        (broker, md@.exchange_timestamp()),
                        outputs[j],
                    )
                }
        } by {
            if j < i - 1 {
                assert(has_turn(j, (i - 1) as nat));
                assert(brokers[j] == before[j]);
                assert(outputs[j] == earlier[j]);
            }
        }
    }
    outputs
}

/// Takes the events of a broker into the buffer, each at its rank, and
/// records them as emitted. `delivered` is what was delivered before.
fn absorb(
    buffer: &mut Vec<Event>,
    emitted: &mut Ghost<Seq<EventView>>,
    on_time: &mut Ghost<bool>,
    answers_on_time: &mut Ghost<bool>,
    events: Vec<Event>,
    Ghost(delivered): Ghost<Seq<EventView>>,
)
    requires
        sorted_by_timestamp(events_view(old(buffer)@)),
        delivered.to_multiset().add(events_view(old(buffer)@).to_multiset()) == old(emitted)@.to_multiset(),
        old(on_time)@ ==> sorted_by_timestamp(delivered) && dated_from(
            events_view(old(buffer)@),
            0,
            watermark(delivered),
        ),
    ensures
        sorted_by_timestamp(events_view(final(buffer)@)),
        delivered.to_multiset().add(events_view(final(buffer)@).to_multiset()) == final(emitted)@.to_multiset(),
        final(on_time)@ ==> sorted_by_timestamp(delivered) && dated_from(
            events_view(final(buffer)@),
            0,
            watermark(delivered),
        ),
        events_view(final(buffer)@) == merge_by_timestamp(
            events_view(old(buffer)@),
            events_view(events@),
        ),
        final(emitted)@ == old(emitted)@ + events_view(events@),
        final(buffer)@.len() == old(buffer)@.len() + events@.len(),
        final(on_time)@ == (old(on_time)@ && dated_from(
            events_view(events@),
            0,
            watermark(delivered),
        )),
        final(answers_on_time)@ == (old(answers_on_time)@ && answers_dated_from(
            events_view(events@),
            0,
            watermark(delivered),
        )),
        market_data_of(final(emitted)@) == market_data_of(old(emitted)@) + market_data_of(
            events_view(events@),
        ),
{
    let ghost all = events_view(events@);
    let ghost floor = watermark(delivered);
    assert(all.take(0) =~= Seq::empty());
    assert(old(emitted)@ + all.take(0) =~= old(emitted)@);
    assert(market_data_of(old(emitted)@) + market_data_of(all.take(0)) =~= market_data_of(
        old(emitted)@,
    ));
    for event in it: events
        invariant
            it.seq().len() == all.len(),
            forall|k: int| 0 <= k < all.len() ==> (#[trigger] it.seq()[k])@ == all[k],
            floor == watermark(delivered),
            sorted_by_timestamp(events_view(buffer@)),
            delivered.to_multiset().add(events_view(buffer@).to_multiset())
                == emitted@.to_multiset(),
            on_time@ ==> sorted_by_timestamp(delivered) && dated_from(
                events_view(buffer@),
                0,
                floor,
            ),
            events_view(buffer@) == merge_by_timestamp(
                events_view(old(buffer)@),
                all.take(it.index() as int),
            ),
            emitted@ == old(emitted)@ + all.take(it.index() as int),
            buffer@.len() == old(buffer)@.len() + it.index(),
            on_time@ == (old(on_time)@ && dated_from(all.take(it.index() as int), 0, floor)),
            answers_on_time@ == (old(answers_on_time)@ && answers_dated_from(
                all.take(it.index() as int),
                0,
                floor,
            )),
            market_data_of(emitted@) == market_data_of(old(emitted)@) + market_data_of(
                all.take(it.index() as int),
            ),
    {
        let ghost idx = it.index() as int;
        let ghost before = events_view(buffer@);
        let ghost emitted_before = emitted@;
        let ghost on_time_before = on_time@;
        let ghost answers_before = answers_on_time@;
        proof {
            broadcast use group_to_multiset_ensures;

            assert(all.take(idx + 1).drop_last() =~= all.take(idx));
            assert(all.take(idx + 1).last() == event@);
            lemma_insert_by_timestamp(before, event@);
            lemma_rank(before, event@.timestamp());
        }
        insert_event(buffer, event);
        proof {
            emitted@ = emitted_before.push(event@);
            on_time@ = on_time_before && event@.timestamp() >= floor;
            answers_on_time@ = answers_before && (event@.is_market_data() || event@.timestamp()
                >= floor);
        }
        proof {
            broadcast use group_to_multiset_ensures;

            let after = events_view(buffer@);
            let k = rank(before, event@.timestamp());
            assert(emitted@ =~= old(emitted)@ + all.take(idx + 1));
            assert(emitted@.drop_last() =~= emitted_before);
            assert(market_data_of(emitted@) =~= market_data_of(old(emitted)@) + market_data_of(
                all.take(idx + 1),
            ));
            assert(delivered.to_multiset().add(after.to_multiset()) =~= emitted@.to_multiset());
            assert(dated_from(all.take(idx + 1), 0, floor) == (dated_from(all.take(idx), 0, floor)
                && event@.timestamp() >= floor)) by {
                if dated_from(all.take(idx + 1), 0, floor) {
                    assert(all.take(idx + 1)[idx] == event@);
                    assert forall|i: int| 0 <= i < all.take(idx).len() implies (
                    #[trigger] all.take(idx)[i]).timestamp() >= floor by {
                        assert(all.take(idx + 1)[i] == all.take(idx)[i]);
                    }
                }
                if dated_from(all.take(idx), 0, floor) && event@.timestamp() >= floor {
                    assert forall|i: int| 0 <= i < all.take(idx + 1).len() implies (
                    #[trigger] all.take(idx + 1)[i]).timestamp() >= floor by {
                        if i < idx {
                            assert(all.take(idx + 1)[i] == all.take(idx)[i]);
                        }
                    }
                }
            }
            assert(answers_dated_from(all.take(idx + 1), 0, floor) == (answers_dated_from(
                all.take(idx),
                0,
                floor,
            ) && (event@.is_market_data() || event@.timestamp() >= floor))) by {
                if answers_dated_from(all.take(idx + 1), 0, floor) {
                    assert(all.take(idx + 1)[idx] == event@);
                    assert forall|i: int| 0 <= i < all.take(idx).len() implies (
                    #[trigger] all.take(idx)[i]).is_market_data() || all.take(idx)[i].timestamp()
                        >= floor by {
                        assert(all.take(idx + 1)[i] == all.take(idx)[i]);
                    }
                }
                if answers_dated_from(all.take(idx), 0, floor) && (event@.is_market_data()
                    || event@.timestamp() >= floor) {
                    assert forall|i: int| 0 <= i < all.take(idx + 1).len() implies (
                    #[trigger] all.take(idx + 1)[i]).is_market_data() || all.take(
                        idx + 1,
                    )[i].timestamp() >= floor by {
                        if i < idx {
                            assert(all.take(idx + 1)[i] == all.take(idx)[i]);
                        }
                    }
                }
            }
            if on_time@ {
                assert forall|i: int| 0 <= i < after.len() implies (#[trigger] after[i]).timestamp()
                    >= floor by {
                    if i < k {
                        assert(after[i] == before[i]);
                    } else if i > k {
                        assert(after[i] == before[i - 1]);
                    }
                }
            }
        }
    }
    assert(all.take(all.len() as int) =~= all);
}

/// The simulated environment.
///
/// It pulls market data from a provider, hands each event to the brokers,
/// and delivers what the brokers generate, earliest first, by the time at
/// which the strategy sees it.
pub struct SimulatedEnvironment<T: SimulatedTradingMarketDataProvider, B: SimulatedBroker> {
    md_provider: T,
    brokers: Vec<B>,
    pending_md_event: Option<MarketDataEvent>,
    broker_events_buffer: Vec<Event>,
    default_latency: Latency,
    no_more_md: bool,
    md_event_buffer: Vec<MarketDataEvent>,
    max_md_wire_latency: Timestamp,
    stream: Ghost<Seq<MarketDataEventView>>,
    pulled: Ghost<Seq<MarketDataEventView>>,
    fed: Ghost<Seq<Feed>>,
    emitted: Ghost<Seq<EventView>>,
    delivered: Ghost<Seq<EventView>>,
    on_time: Ghost<bool>,
    answers_on_time: Ghost<bool>,
    steady: Ghost<bool>,
}

impl<T: SimulatedTradingMarketDataProvider, B: SimulatedBroker> SimulatedEnvironment<T, B> {
    /// The brokers, in the order in which they were added.
    pub closed spec fn brokers(&self) -> Seq<B> {
        self.brokers@
    }

    /// The latency assumed for market data of an exchange without a broker.
    pub closed spec fn default_latency(&self) -> Latency {
        self.default_latency
    }

    /// The largest wire latency among the brokers.
    pub closed spec fn max_md_wire_latency(&self) -> Latency {
        self.max_md_wire_latency
    }

    /// The events that the provider has yet to return.
    pub closed spec fn remaining(&self) -> Seq<MarketDataEventView> {
        self.md_provider.remaining()
    }

    /// The market-data events read ahead that are not yet chosen, in the
    /// order of the stream.
    pub closed spec fn md_buffer(&self) -> Seq<MarketDataEventView> {
        market_data_view(self.md_event_buffer@)
    }

    /// The market-data event that is handed to the brokers next.
    pub closed spec fn pending_event(&self) -> Option<MarketDataEvent> {
        self.pending_md_event
    }

    /// The model of the market-data event that is handed to the brokers
    /// next.
    pub open spec fn pending(&self) -> Option<MarketDataEventView> {
        match self.pending_event() {
            Some(md) => Some(md@),
            None => None,
        }
    }

    /// Whether the market-data stream is known to be used up.
    pub closed spec fn no_more_md(&self) -> bool {
        self.no_more_md
    }

    /// The events that the brokers generated and that wait for delivery,
    /// earliest first.
    pub closed spec fn buffer(&self) -> Seq<EventView> {
        events_view(self.broker_events_buffer@)
    }

    /// The market data that the provider held when the environment was
    /// made.
    pub closed spec fn stream(&self) -> Seq<MarketDataEventView> {
        self.stream@
    }

    /// The market data pulled from the provider so far, in order.
    pub closed spec fn pulled(&self) -> Seq<MarketDataEventView> {
        self.pulled@
    }

    /// The market data handed to the brokers so far, in order.
    pub closed spec fn fed(&self) -> Seq<Feed> {
        self.fed@
    }

    /// The events that the brokers generated so far, in the order in which
    /// the environment received them.
    pub closed spec fn emitted(&self) -> Seq<EventView> {
        self.emitted@
    }

    /// The events delivered so far, in order.
    pub closed spec fn delivered(&self) -> Seq<EventView> {
        self.delivered@
    }

    /// Whether no broker ever generated an event that is dated before an
    /// event that was already delivered at that moment.
    pub closed spec fn on_time(&self) -> bool {
        self.on_time@
    }

    /// Whether no broker ever generated an answer or an order update that
    /// is dated before an event that was already delivered at that moment.
    pub closed spec fn answers_on_time(&self) -> bool {
        self.answers_on_time@
    }

    /// Whether every broker was added before the first market-data event
    /// was pulled from the provider.
    pub closed spec fn steady(&self) -> bool {
        self.steady@
    }

    /// What the order of delivery rests on: the brokers date their answers
    /// and order updates no earlier than what the strategy has seen, they
    /// were all there from the start, the stream comes in the order of
    /// venue time, and market data of an exchange without a broker is not
    /// assumed to take longer than that of every exchange with one.
    pub open spec fn premises(&self) -> bool {
        &&& self.answers_on_time()
        &&& self.steady()
        &&& sorted_by_venue_time(self.stream())
        &&& self.default_latency() <= self.max_md_wire_latency()
    }

    /// Whether the strategy is expected to see the market-data event at
    /// `floor` or later.
    pub open spec fn due_from(&self, floor: Timestamp, md: MarketDataEventView) -> bool {
        floor <= self.expected_received_ts(md)
    }

    /// Under the premises of `premises` the merger keeps the order of
    /// time: the brokers were on time, the market data not yet handed to
    /// the brokers is in the order of the stream, the strategy is expected
    /// to see none of it before what it has seen already, and the pending
    /// event is the one that it is expected to see first.
    pub open spec fn wf_order(&self) -> bool {
        &&& self.pulled().len() == 0 ==> self.fed().len() == 0 && self.md_buffer().len() == 0
            && self.pending().is_none()
        &&& self.fed().len() == 0 ==> self.emitted().len() == 0
        &&& self.emitted().len() == 0 ==> self.on_time()
        &&& self.premises() ==> {
            &&& self.on_time()
            &&& sorted_by_venue_time(self.md_buffer() + self.remaining())
            &&& forall|i: int|
                0 <= i < self.md_buffer().len() ==> self.due_from(
                    watermark(self.delivered()),
                    #[trigger] self.md_buffer()[i],
                )
            &&& forall|i: int|
                0 <= i < self.remaining().len() ==> self.due_from(
                    watermark(self.delivered()),
                    #[trigger] self.remaining()[i],
                )
            &&& match self.pending() {
                Some(md) => {
                    &&& self.due_from(watermark(self.delivered()), md)
                    &&& forall|i: int|
                        0 <= i < self.md_buffer().len() ==> self.due_from(
                            self.expected_received_ts(md),
                            #[trigger] self.md_buffer()[i],
                        )
                    &&& forall|i: int|
                        0 <= i < self.remaining().len() ==> self.due_from(
                            self.expected_received_ts(md),
                            #[trigger] self.remaining()[i],
                        )
                },
                None => true,
            }
        }
    }

    /// When the strategy is expected to see a market-data event.
    pub open spec fn expected_received_ts(&self, md: MarketDataEventView) -> Timestamp {
        expected_received_ts(self.brokers(), self.default_latency(), md)
    }

    /// The brokers are ready, no two of them are of the same exchange, and
    /// `max_md_wire_latency` is the largest of their wire latencies.
    pub open spec fn wf_brokers(&self) -> bool {
        &&& forall|i: int| 0 <= i < self.brokers().len() ==> (#[trigger] self.brokers()[i]).ready()
        &&& forall|i: int, j: int|
            0 <= i < j < self.brokers().len() ==> (#[trigger] self.brokers()[i]).exchange_name() != (
            #[trigger] self.brokers()[j]).exchange_name()
        &&& self.max_md_wire_latency() == max_latency(self.brokers())
    }

    /// Every market-data event of the stream is in one place: still with
    /// the provider, read ahead, pending, or handed to the brokers.
    pub open spec fn wf_stream(&self) -> bool {
        &&& self.pulled() + self.remaining() == self.stream()
        &&& fed_market_data(self.fed()).to_multiset().add(self.md_buffer().to_multiset()).add(
            match self.pending() {
                Some(md) => Multiset::singleton(md),
                None => Multiset::empty(),
            },
        ) == self.pulled().to_multiset()
        &&& self.no_more_md() ==> self.remaining().len() == 0 && self.md_buffer().len() == 0
            && self.pending().is_none()
    }

    /// The buffer is in the order of delivery, and every event that the
    /// brokers generated is in one place: in the buffer, or delivered. If
    /// the brokers were on time, what was delivered is in the order of time
    /// and nothing in the buffer is dated before it.
    pub open spec fn wf_buffer(&self) -> bool {
        &&& sorted_by_timestamp(self.buffer())
        &&& self.delivered().to_multiset().add(self.buffer().to_multiset())
            == self.emitted().to_multiset()
        &&& self.delivered().len() + self.buffer().len() == self.emitted().len()
        &&& self.on_time() ==> sorted_by_timestamp(self.delivered()) && dated_from(
            self.buffer(),
            0,
            watermark(self.delivered()),
        )
    }

    /// The market data among the events that the brokers generated is what
    /// they were to forward of the market data handed to them.
    pub open spec fn wf_forwarding(&self) -> bool {
        market_data_of(self.emitted()) == forwards(self.fed())
    }

    /// What holds of every environment.
    pub open spec fn wf(&self) -> bool {
        &&& self.wf_brokers()
        &&& self.wf_stream()
        &&& self.wf_buffer()
        &&& self.wf_forwarding()
        &&& self.wf_order()
    }

    /// An environment over the market data of `md_provider`, without
    /// brokers. A default latency that is not given is zero.
    pub fn new(md_provider: T, default_latency: Option<Latency>) -> (r: Self)
        ensures
            r.wf(),
            r.brokers().len() == 0,
            r.default_latency() == default_latency.unwrap_or(0),
            r.remaining() == md_provider.remaining(),
            r.stream() == md_provider.remaining(),
            r.pulled().len() == 0,
            r.md_buffer().len() == 0,
            r.pending().is_none(),
            !r.no_more_md(),
            r.buffer().len() == 0,
            r.fed().len() == 0,
            r.emitted().len() == 0,
            r.delivered().len() == 0,
            r.on_time(),
            r.answers_on_time(),
            r.steady(),
    {
        let ghost stream = md_provider.remaining();
        let r = SimulatedEnvironment {
            md_provider,
            pending_md_event: None,
            brokers: Vec::new(),
            broker_events_buffer: Vec::new(),
            no_more_md: false,
            default_latency: default_latency.unwrap_or(0),
            md_event_buffer: Vec::new(),
            max_md_wire_latency: 0,
            stream: Ghost(stream),
            pulled: Ghost(Seq::empty()),
            fed: Ghost(Seq::empty()),
            emitted: Ghost(Seq::empty()),
            delivered: Ghost(Seq::empty()),
            on_time: Ghost(true),
            answers_on_time: Ghost(true),
            steady: Ghost(true),
        };
        proof {
            broadcast use group_to_multiset_ensures;

            assert(r.pulled() + r.remaining() =~= r.stream());
            assert(fed_market_data(r.fed()) =~= Seq::empty());
            assert(r.md_buffer() =~= Seq::empty());
            assert(r.buffer() =~= Seq::empty());
            assert(Seq::<MarketDataEventView>::empty().to_multiset() =~= Multiset::empty());
            assert(Seq::<EventView>::empty().to_multiset() =~= Multiset::empty());
            assert(fed_market_data(r.fed()).to_multiset().add(r.md_buffer().to_multiset()).add(
                Multiset::empty(),
            ) =~= r.pulled().to_multiset());
            assert(r.delivered().to_multiset().add(r.buffer().to_multiset())
                =~= r.emitted().to_multiset());
            assert(r.md_buffer() + r.remaining() =~= r.stream());
        }
        r
    }

    /// Where the broker of the exchange stands among the brokers.
    fn find_broker(&self, exchange: &Exchange) -> (r: Option<usize>)
        requires
            self.wf_brokers(),
        ensures
            match r {
                Some(i) => broker_of(self.brokers(), exchange@) == Some(i as int) && i
                    < self.brokers().len(),
                None => broker_of(self.brokers(), exchange@).is_none(),
            },
    {
        let mut i: usize = 0;
        while i < self.brokers.len()
            invariant
                self.wf_brokers(),
                i <= self.brokers.len(),
                forall|j: int| 0 <= j < i ==> self.brokers()[j].exchange_name() != exchange@,
            decreases self.brokers.len() - i,
        {
            assert(self.brokers()[i as int].ready());
            if self.brokers[i].exchange() == *exchange {
                proof {
                    lemma_broker_of(self.brokers(), exchange@);
                    assert(self.brokers()[i as int].exchange_name() == exchange@);
                }
                return Some(i);
            }
            i += 1;
        }
        proof {
            lemma_broker_of(self.brokers(), exchange@);
            if broker_of(self.brokers(), exchange@).is_some() {
                assert(self.brokers()[broker_of(self.brokers(), exchange@).unwrap()].exchange_name()
                    == exchange@);
            }
        }
        None
    }

    /// Adds the broker of an exchange. Fails, and drops the broker, if the
    /// environment already has a broker for that exchange.
    pub fn add_broker(&mut self, broker: B) -> (r: Result<(), SimTradingError>)
        requires
            old(self).wf(),
            broker.ready(),
        ensures
            final(self).wf(),
            match r {
                Ok(_) => latency_of(old(self).brokers(), broker.exchange_name()).is_none()
                    && final(self).brokers() == old(self).brokers().push(broker),
                Err(e) => e == SimTradingError::BrokerAlreadyExists && latency_of(
                    old(self).brokers(),
                    broker.exchange_name(),
                ).is_some() && final(self).brokers() == old(self).brokers(),
            },
            final(self).default_latency() == old(self).default_latency(),
            final(self).remaining() == old(self).remaining(),
            final(self).stream() == old(self).stream(),
            final(self).pulled() == old(self).pulled(),
            final(self).md_buffer() == old(self).md_buffer(),
            final(self).pending() == old(self).pending(),
            final(self).no_more_md() == old(self).no_more_md(),
            final(self).buffer() == old(self).buffer(),
            final(self).fed() == old(self).fed(),
            final(self).emitted() == old(self).emitted(),
            final(self).delivered() == old(self).delivered(),
            final(self).on_time() == old(self).on_time(),
            final(self).answers_on_time() == old(self).answers_on_time(),
            final(self).steady() == (old(self).steady() && (r.is_err() || old(self).pulled().len()
                == 0)),
    {
        let exchange = broker.exchange();
        if self.find_broker(&exchange).is_some() {
            return Err(SimTradingError::BrokerAlreadyExists);
        }
        let broker_wire_latency = broker.wire_latency();
        if broker_wire_latency > self.max_md_wire_latency {
            self.max_md_wire_latency = broker_wire_latency;
        }
        proof {
            lemma_broker_of(old(self).brokers(), exchange@);
        }
        self.brokers.push(broker);
        proof {
            self.steady@ = self.steady@ && self.pulled@.len() == 0;
            if self.steady() {
                assert(self.remaining() =~= self.pulled() + self.remaining());
                assert(self.md_buffer() + self.remaining() =~= self.stream());
            }
            assert(self.brokers().drop_last() =~= old(self).brokers());
            assert forall|i: int, j: int| 0 <= i < j < self.brokers().len() implies (
            #[trigger] self.brokers()[i]).exchange_name() != (
            #[trigger] self.brokers()[j]).exchange_name() by {
                if j < old(self).brokers().len() {
                    assert(old(self).brokers()[i].exchange_name() != old(self).brokers()[j].exchange_name());
                }
            }
        }
        Ok(())
    }

    /// When the strategy is expected to see a market-data event: its venue
    /// time plus the wire latency of the broker of its exchange, or plus the
    /// default latency if the exchange has no broker.
    fn md_event_expected_received_ts(&self, md: &MarketDataEvent) -> (r: Timestamp)
        requires
            self.wf_brokers(),
        ensures
            r == self.expected_received_ts(md@),
    {
        match self.find_broker(&md.exchange()) {
            Some(i) => {
                assert(self.brokers()[i as int].ready());
                self.brokers[i].estimate_market_data_timestamp(md)
            },
            None => add_latency(md.exchange_timestamp(), self.default_latency),
        }
    }

    /// Whether the environment differs from `other` in nothing but the
    /// market data that it holds or has yet to pull.
    pub open spec fn same_but_market_data(&self, other: &Self) -> bool {
        &&& self.brokers() == other.brokers()
        &&& self.default_latency() == other.default_latency()
        &&& self.max_md_wire_latency() == other.max_md_wire_latency()
        &&& self.stream() == other.stream()
        &&& self.buffer() == other.buffer()
        &&& self.fed() == other.fed()
        &&& self.emitted() == other.emitted()
        &&& self.delivered() == other.delivered()
        &&& self.on_time() == other.on_time()
        &&& self.answers_on_time() == other.answers_on_time()
        &&& self.steady() == other.steady()
    }

    /// Pulls one event from the provider into the look-ahead buffer.
    fn pull(&mut self) -> (r: Option<Timestamp>)
        requires
            old(self).wf(),
        ensures
            final(self).wf(),
            final(self).same_but_market_data(old(self)),
            final(self).pending() == old(self).pending(),
            final(self).no_more_md() == old(self).no_more_md(),
            match r {
                Some(ts) => {
                    &&& old(self).remaining().len() > 0
                    &&& ts == old(self).remaining()[0].exchange_timestamp()
                    &&& final(self).remaining() == old(self).remaining().skip(1)
                    &&& final(self).md_buffer() == old(self).md_buffer().push(
                        old(self).remaining()[0],
                    )
                },
                None => old(self).remaining().len() == 0 && final(self).remaining().len() == 0
                    && final(self).md_buffer() == old(self).md_buffer(),
            },
    {
        match self.md_provider.next_event() {
            None => {
                assert(self.remaining() =~= old(self).remaining());
                None
            },
            Some(event) => {
                let ts = event.exchange_timestamp();
                proof {
                    broadcast use group_to_multiset_ensures;

                    self.pulled@ = self.pulled@.push(event@);
                    assert(self.pulled() + self.remaining() =~= old(self).pulled() + old(self).remaining());
                }
                self.md_event_buffer.push(event);
                proof {
                    broadcast use group_to_multiset_ensures;

                    assert(self.md_buffer() =~= old(self).md_buffer().push(event@));
                    assert(self.md_buffer() + self.remaining() =~= old(self).md_buffer()
                        + old(self).remaining());
                    assert(self.wf_order()) by {
                        if self.premises() {
                            assert forall|i: int| 0 <= i < self.md_buffer().len() implies self.due_from(
                                watermark(self.delivered()),
                                #[trigger] self.md_buffer()[i],
                            ) by {
                                if i < old(self).md_buffer().len() {
                                    assert(self.md_buffer()[i] == old(self).md_buffer()[i]);
                                } else {
                                    assert(self.md_buffer()[i] == old(self).remaining()[0]);
                                }
                            }
                            assert forall|i: int| 0 <= i < self.remaining().len() implies self.due_from(
                                watermark(self.delivered()),
                                #[trigger] self.remaining()[i],
                            ) by {
                                assert(self.remaining()[i] == old(self).remaining()[i + 1]);
                            }
                            if self.pending().is_some() {
                                let md = self.pending().unwrap();
                                assert forall|i: int|
                                    0 <= i < self.md_buffer().len() implies self.due_from(
                                    self.expected_received_ts(md),
                                    #[trigger] self.md_buffer()[i],
                                ) by {
                                    if i < old(self).md_buffer().len() {
                                        assert(self.md_buffer()[i] == old(self).md_buffer()[i]);
                                    } else {
                                        assert(self.md_buffer()[i] == old(self).remaining()[0]);
                                    }
                                }
                                assert forall|i: int|
                                    0 <= i < self.remaining().len() implies self.due_from(
                                    self.expected_received_ts(md),
                                    #[trigger] self.remaining()[i],
                                ) by {
                                    assert(self.remaining()[i] == old(self).remaining()[i + 1]);
                                }
                            }
                        }
                    }
                    assert(self.wf_stream()) by {
                        let tail = match self.pending() {
                            Some(md) => Multiset::singleton(md),
                            None => Multiset::empty(),
                        };
                        assert(fed_market_data(self.fed()).to_multiset().add(
                            self.md_buffer().to_multiset(),
                        ).add(tail) =~= fed_market_data(old(self).fed()).to_multiset().add(
                            old(self).md_buffer().to_multiset(),
                        ).add(tail).insert(event@));
                    }
                }
                Some(ts)
            },
        }
    }

    /// Whether the look-ahead buffer reaches beyond the window of its first
    /// event, or holds the rest of the stream: nothing is left with the
    /// provider, or the last event read is later at the venue than the
    /// first one plus the largest wire latency.
    pub open spec fn read_ahead_done(&self) -> bool {
        self.md_buffer().len() > 0 && (self.remaining().len() == 0
            || self.md_buffer().last().exchange_timestamp() > ts_add(
            self.md_buffer()[0].exchange_timestamp(),
            self.max_md_wire_latency(),
        ))
    }

    /// Fills the look-ahead buffer, which holds an event already: reads
    /// every further event whose venue time is within the largest wire
    /// latency of the venue time of the first event of the buffer, and one
    /// event beyond.
    fn read_md_ahead(&mut self)
        requires
            old(self).wf(),
            old(self).pending().is_none(),
            !old(self).no_more_md(),
            old(self).md_buffer().len() > 0,
        ensures
            final(self).wf(),
            final(self).same_but_market_data(old(self)),
            final(self).pending().is_none(),
            !final(self).no_more_md(),
            final(self).read_ahead_done(),
            ({
                let count = lookahead(
                    old(self).remaining(),
                    ts_add(
                        old(self).md_buffer()[0].exchange_timestamp(),
                        old(self).max_md_wire_latency(),
                    ),
                ) as int;
                &&& count <= old(self).remaining().len()
                &&& final(self).md_buffer() == old(self).md_buffer() + old(self).remaining().take(
                    count,
                )
                &&& final(self).remaining() == old(self).remaining().skip(count)
            }),
    {
        let ghost head = self.md_buffer();
        let ghost rest = self.remaining();
        assert(self.md_buffer()[0] == self.md_event_buffer[0]@);
        let max_exchange_ts_to_read = add_latency(
            self.md_event_buffer[0].exchange_timestamp(),
            self.max_md_wire_latency,
        );
        let ghost mut count: int = 0;
        let mut reading = true;
        assert(rest.skip(0) =~= rest);
        assert(head + rest.take(0) =~= head);
        while reading
            invariant
                self.wf(),
                self.same_but_market_data(old(self)),
                self.pending().is_none(),
                !self.no_more_md(),
                0 <= count <= rest.len(),
                self.md_buffer() == head + rest.take(count),
                self.remaining() == rest.skip(count),
                head.len() > 0,
                head == old(self).md_buffer(),
                rest == old(self).remaining(),
                max_exchange_ts_to_read == ts_add(
                    head[0].exchange_timestamp(),
                    self.max_md_wire_latency(),
                ),
                reading ==> count + lookahead(rest.skip(count), max_exchange_ts_to_read)
                    == lookahead(rest, max_exchange_ts_to_read),
                !reading ==> count == lookahead(rest, max_exchange_ts_to_read),
                !reading ==> self.remaining().len() == 0
                    || self.md_buffer().last().exchange_timestamp() > max_exchange_ts_to_read,
            decreases self.remaining().len() + (if reading { 1int } else { 0int }),
        {
            match self.pull() {
                None => {
                    reading = false;
                },
                Some(event_exchange_ts) => {
                    proof {
                        assert(rest.skip(count)[0] == rest[count]);
                        assert(rest.skip(count).skip(1) =~= rest.skip(count + 1));
                        assert(head + rest.take(count + 1) =~= (head + rest.take(count)).push(
                            rest[count],
                        ));
                        count = count + 1;
                    }
                    if event_exchange_ts > max_exchange_ts_to_read {
                        reading = false;
                    }
                },
            }
        }
        assert(self.md_buffer()[0] == head[0]);
    }

    /// Of the events of the look-ahead buffer, makes the one that the
    /// strategy is expected to see first the pending event; of several such
    /// events, the one that stands first.
    fn choose_pending_md(&mut self)
        requires
            old(self).wf(),
            old(self).pending().is_none(),
            !old(self).no_more_md(),
            old(self).read_ahead_done(),
        ensures
            final(self).wf(),
            final(self).same_but_market_data(old(self)),
            !final(self).no_more_md(),
            final(self).remaining() == old(self).remaining(),
            ({
                let chosen = earliest(
                    old(self).brokers(),
                    old(self).default_latency(),
                    old(self).md_buffer(),
                );
                &&& 0 <= chosen < old(self).md_buffer().len()
                &&& final(self).pending() == Some(old(self).md_buffer()[chosen])
                &&& final(self).md_buffer() == old(self).md_buffer().remove(chosen)
            }),
    {
        let ghost buffer = self.md_buffer();
        let mut earliest_received_event_idx: usize = 0;
        assert(buffer[0] == self.md_event_buffer[0]@);
        let mut earliest_receive_ts = self.md_event_expected_received_ts(
            &self.md_event_buffer[0],
        );
        let mut i: usize = 1;
        assert(buffer.take(1).len() == 1);
        while i < self.md_event_buffer.len()
            invariant
                self.wf(),
                *self == *old(self),
                buffer == self.md_buffer(),
                1 <= i <= buffer.len(),
                earliest_received_event_idx == earliest(
                    self.brokers(),
                    self.default_latency(),
                    buffer.take(i as int),
                ),
                earliest_received_event_idx < i,
                earliest_receive_ts == self.expected_received_ts(
                    buffer[earliest_received_event_idx as int],
                ),
            decreases buffer.len() - i,
        {
            assert(buffer.take(i + 1).drop_last() =~= buffer.take(i as int));
            assert(buffer.take(i + 1).last() == buffer[i as int]);
            assert(buffer.take(i + 1)[earliest_received_event_idx as int]
                == buffer[earliest_received_event_idx as int]);
            assert(buffer[i as int] == self.md_event_buffer[i as int]@);
            let expected_ts = self.md_event_expected_received_ts(&self.md_event_buffer[i]);
            if expected_ts < earliest_receive_ts {
                earliest_receive_ts = expected_ts;
                earliest_received_event_idx = i;
            }
            i += 1;
        }
        assert(buffer.take(buffer.len() as int) =~= buffer);
        let pending_event = self.md_event_buffer.remove(earliest_received_event_idx);
        assert(pending_event@ == buffer[earliest_received_event_idx as int]);
        assert(self.md_buffer() =~= buffer.remove(earliest_received_event_idx as int));
        self.pending_md_event = Some(pending_event);
        proof {
            broadcast use group_to_multiset_ensures;

            to_multiset_remove(buffer, earliest_received_event_idx as int);
            assert(self.wf_stream()) by {
                assert(fed_market_data(self.fed()).to_multiset().add(
                    self.md_buffer().to_multiset(),
                ).add(Multiset::singleton(pending_event@)) =~= fed_market_data(
                    self.fed(),
                ).to_multiset().add(buffer.to_multiset()).add(Multiset::empty()));
            }
            if self.premises() {
                self.lemma_choice_keeps_order(old(self), earliest_received_event_idx as int);
            }
        }
    }

    /// Choosing the earliest event of the look-ahead buffer keeps the order
    /// of time.
    proof fn lemma_choice_keeps_order(&self, before: &Self, chosen: int)
        requires
            before.wf(),
            before.premises(),
            before.pending().is_none(),
            before.read_ahead_done(),
            chosen == earliest(before.brokers(), before.default_latency(), before.md_buffer()),
            self.same_but_market_data(before),
            self.pulled() == before.pulled(),
            self.remaining() == before.remaining(),
            0 <= chosen < before.md_buffer().len(),
            self.md_buffer() == before.md_buffer().remove(chosen),
            self.pending() == Some(before.md_buffer()[chosen]),
        ensures
            self.wf_order(),
    {
        let buffer = before.md_buffer();
        let floor = watermark(self.delivered());
        let tail = self.remaining();
        lemma_earliest(self.brokers(), self.default_latency(), buffer);
        assert(sorted_by_venue_time(buffer + tail));
        assert(sorted_by_venue_time(self.md_buffer() + tail)) by {
            assert forall|i: int, j: int|
                0 <= i <= j < (self.md_buffer() + tail).len() implies (self.md_buffer()
                + tail)[i].exchange_timestamp() <= (self.md_buffer() + tail)[j].exchange_timestamp() by {
                let a = if i < chosen {
                    i
                } else {
                    i + 1
                };
                let b = if j < chosen {
                    j
                } else {
                    j + 1
                };
                assert((self.md_buffer() + tail)[i] == (buffer + tail)[a]);
                assert((self.md_buffer() + tail)[j] == (buffer + tail)[b]);
            }
        }
        assert forall|i: int| 0 <= i < self.md_buffer().len() implies self.due_from(
            floor,
            #[trigger] self.md_buffer()[i],
        ) && self.due_from(self.expected_received_ts(buffer[chosen]), self.md_buffer()[i]) by {
            let a = if i < chosen {
                i
            } else {
                i + 1
            };
            assert(self.md_buffer()[i] == buffer[a]);
            assert(before.due_from(floor, before.md_buffer()[a]));
        }
        assert(before.due_from(floor, before.md_buffer()[chosen]));
        assert forall|i: int| 0 <= i < tail.len() implies self.due_from(floor, #[trigger] tail[i])
            && self.due_from(self.expected_received_ts(buffer[chosen]), tail[i]) by {
            assert(before.due_from(floor, before.remaining()[i]));
            lemma_expected_received_ts(self.brokers(), self.default_latency(), tail[i]);
            lemma_expected_received_ts(self.brokers(), self.default_latency(), buffer[0]);
            assert((buffer + tail)[buffer.len() - 1] == buffer.last());
            assert((buffer + tail)[buffer.len() + i] == tail[i]);
            assert(buffer.last().exchange_timestamp() <= tail[i].exchange_timestamp());
        }
    }

    /// Chooses the market-data event that is handed to the brokers next,
    /// unless one is chosen already.
    ///
    /// The look-ahead buffer is filled as `read_ahead` says. Of its events,
    /// the one that the strategy is expected to see first becomes the
    /// pending event; the others stay in the buffer. When the stream is used
    /// up and the buffer is empty, `no_more_md` is set instead.
    pub fn update_pending_md(&mut self)
        requires
            old(self).wf(),
        ensures
            final(self).wf(),
            final(self).same_but_market_data(old(self)),
            final(self).market_data_left() == old(self).market_data_left(),
            final(self).no_more_md() || final(self).pending().is_some(),
            old(self).pending().is_some() ==> final(self).pending() == old(self).pending()
                && final(self).md_buffer() == old(self).md_buffer() && final(self).remaining()
                == old(self).remaining() && final(self).no_more_md() == old(self).no_more_md(),
            old(self).pending().is_none() && old(self).md_buffer().len() == 0
                && old(self).remaining().len() == 0 ==> final(self).no_more_md()
                && final(self).pending().is_none()
                && final(self).md_buffer().len() == 0 && final(self).remaining().len() == 0,
            old(self).pending().is_none() && (old(self).md_buffer().len() > 0 || old(self).remaining().len() > 0) ==> {
                let (buffer, rest) = read_ahead(
                    old(self).md_buffer(),
                    old(self).remaining(),
                    old(self).max_md_wire_latency(),
                );
                let chosen = earliest(old(self).brokers(), old(self).default_latency(), buffer);
                &&& !final(self).no_more_md()
                &&& final(self).pending() == Some(buffer[chosen])
                &&& final(self).md_buffer() == buffer.remove(chosen)
                &&& final(self).remaining() == rest
            },
    {
        if self.pending_md_event.is_some() {
            return ;
        }
        if self.md_event_buffer.len() == 0 {
            if self.no_more_md {
                return ;
            }
            if self.pull().is_none() {
                self.no_more_md = true;
                return ;
            }
            assert(self.md_buffer() =~= old(self).remaining().take(1));
        }
        self.read_md_ahead();
        self.choose_pending_md();
    }

    /// How many market-data events are yet to be handed to the brokers.
    pub open spec fn market_data_left(&self) -> int {
        self.remaining().len() + self.md_buffer().len() + (if self.pending().is_some() {
            1int
        } else {
            0int
        })
    }

    /// Whether the environment differs from `other` in nothing but what the
    /// brokers did and generated.
    pub open spec fn same_but_events(&self, other: &Self) -> bool {
        &&& same_venues(other.brokers(), self.brokers())
        &&& self.default_latency() == other.default_latency()
        &&& self.max_md_wire_latency() == other.max_md_wire_latency()
        &&& self.stream() == other.stream()
        &&& self.pulled() == other.pulled()
        &&& self.remaining() == other.remaining()
        &&& self.md_buffer() == other.md_buffer()
        &&& self.no_more_md() == other.no_more_md()
        &&& self.delivered() == other.delivered()
        &&& self.steady() == other.steady()
    }

    /// Hands the pending market-data event to every broker: to the broker
    /// of its exchange as market data, to the others as a tick of its venue
    /// time. What the brokers generate goes into the buffer, each event
    /// behind the events that are not later than it.
    ///
    /// Every broker is called once, in the order of the brokers: the broker
    /// of the exchange through `SimulatedBroker::on_new_market_data` with
    /// the pending event, any other through
    /// `SimulatedBroker::on_new_timestamp` with its venue time. Broker `i`
    /// is afterwards what its call left of it and `outputs[i]` what the
    /// call returned; the events generated are those of `outputs`, one list
    /// after the other.
    pub fn feed_market_data_event_to_brokers(&mut self)
        requires
            old(self).wf(),
            old(self).pending().is_some(),
        ensures
            final(self).wf(),
            final(self).same_but_events(old(self)),
            final(self).pending().is_none(),
            final(self).fed() == old(self).fed().push(
                Feed {
                    md: old(self).pending().unwrap(),
                    wire_latency: latency_of(
                        old(self).brokers(),
                        old(self).pending().unwrap().exchange(),
                    ),
                },
            ),
            extends(old(self).emitted(), final(self).emitted()),
            final(self).buffer() == merge_by_timestamp(
                old(self).buffer(),
                final(self).emitted().skip(old(self).emitted().len() as int),
            ),
            final(self).on_time() == (old(self).on_time() && dated_from(
                final(self).emitted(),
                old(self).emitted().len() as int,
                watermark(old(self).delivered()),
            )),
            final(self).answers_on_time() == (old(self).answers_on_time() && answers_dated_from(
                final(self).emitted(),
                old(self).emitted().len() as int,
                watermark(old(self).delivered()),
            )),
            exists|outputs: Seq<Vec<Event>>|
                {
                    &&& #[trigger] outputs.len() == old(self).brokers().len()
                    &&& final(self).emitted() == old(self).emitted() + all_events(outputs)
                    &&& forall|i: int| #[trigger]
                        has_turn(i, old(self).brokers().len()) ==> if old(
                            self
                        ).brokers()[i].exchange_name()
                            == old(self).pending().unwrap().exchange() {
                            exists|broker: &mut B|
                                {
                                    &&& mut_ref_current(broker) == old(self).brokers()[i]
                                    &&& mut_ref_future(broker) == final(self).brokers()[i]
                                    &&& #[trigger] call_ensures(
                                        B::on_new_market_data,
                                        (broker, &old(self).pending_event().unwrap()),
                                        outputs[i],
                                    )
                                }
                        } else {
                            exists|broker: &mut B|
                                {
                                    &&& mut_ref_current(broker) == old(self).brokers()[i]
                                    &&& mut_ref_future(broker) == final(self).brokers()[i]
                                    &&& #[trigger] call_ensures(
                                        B::on_new_timestamp,
                                        (
                                            broker,
                                            old(self).pending().unwrap().exchange_timestamp(),
                                        ),
                                        outputs[i],
                                    )
                                }
                        }
                },
    {
        let ghost mut outputs: Seq<Vec<Event>> = Seq::empty();
        let pending_md_event = self.pending_md_event.take().unwrap();
        let ghost md = pending_md_event@;
        let ghost matched = broker_of(old(self).brokers(), md.exchange());
        let ghost wire = latency_of(old(self).brokers(), md.exchange());
        let ghost start = old(self).emitted().len() as int;
        let ghost floor = watermark(old(self).delivered());
        proof {
            broadcast use group_to_multiset_ensures;

            self.fed@ = self.fed@.push(Feed { md, wire_latency: wire });
            assert(fed_market_data(self.fed()) =~= fed_market_data(old(self).fed()).push(md));
            assert(self.wf_stream()) by {
                assert(fed_market_data(self.fed()).to_multiset().add(
                    self.md_buffer().to_multiset(),
                ).add(Multiset::empty()) =~= fed_market_data(old(self).fed()).to_multiset().add(
                    old(self).md_buffer().to_multiset(),
                ).add(Multiset::singleton(md)));
            }
            lemma_broker_of(old(self).brokers(), md.exchange());
            assert(self.emitted().take(start) =~= self.emitted());
            assert(self.emitted().skip(start) =~= Seq::empty());
            assert(self.emitted() =~= old(self).emitted() + all_events(outputs));
            assert(forwards(old(self).fed()) + Seq::<EventView>::empty() =~= forwards(
                old(self).fed(),
            ));
            assert(market_data_of(self.emitted()) + Seq::<EventView>::empty() =~= market_data_of(
                self.emitted(),
            ));
        }
        assert(forall|j: int|
            0 <= j < self.brokers().len() ==> (#[trigger] self.brokers()[j]).ready());
        let all_outputs = tick_brokers(&mut self.brokers, &pending_md_event);
        let ghost lists = all_outputs@;
        let ghost ticked = self.brokers();
        proof {
            outputs = lists;
            assert(lists.take(0) =~= Seq::<Vec<Event>>::empty());
            assert(self.emitted() =~= old(self).emitted() + all_events(lists.take(0)));
        }
        for new_events in it: all_outputs
            invariant
                old(self).wf(),
                old(self).pending().is_some(),
                it.seq() == lists,
                lists.len() == old(self).brokers().len(),
                self.brokers() == ticked,
                md == old(self).pending().unwrap(),
                matched == broker_of(old(self).brokers(), md.exchange()),
                wire == latency_of(old(self).brokers(), md.exchange()),
                start == old(self).emitted().len(),
                floor == watermark(old(self).delivered()),
                self.same_but_events(old(self)),
                self.pending().is_none(),
                self.fed() == old(self).fed().push(Feed { md, wire_latency: wire }),
                forall|j: int|
                    0 <= j < lists.len() ==> if old(self).brokers()[j].exchange_name()
                        == md.exchange() {
                        &&& (#[trigger] lists[j]).len() > 0
                        &&& lists[j][0]@ == forwarded(md, old(self).brokers()[j].latency())
                        &&& forall|k: int|
                            1 <= k < lists[j].len() ==> !(#[trigger] lists[j][k])@.is_market_data()
                    } else {
                        forall|k: int|
                            0 <= k < lists[j].len() ==> !(#[trigger] lists[j][k])@.is_market_data()
                    },
                self.emitted() == old(self).emitted() + all_events(lists.take(it.index() as int)),
                forall|j: int| 0 <= j < self.brokers().len() ==> (#[trigger] self.brokers()[j]).ready(),
                self.wf_stream(),
                self.wf_buffer(),
                extends(old(self).emitted(), self.emitted()),
                self.buffer() == merge_by_timestamp(old(self).buffer(), self.emitted().skip(start)),
                self.on_time() == (old(self).on_time() && dated_from(self.emitted(), start, floor)),
                self.answers_on_time() == (old(self).answers_on_time() && answers_dated_from(
                    self.emitted(),
                    start,
                    floor,
                )),
                forall|k: int|
                    start <= k < self.emitted().len() && (#[trigger] self.emitted()[k]).is_market_data()
                        ==> wire.is_some() && self.emitted()[k].timestamp() == ts_add(
                        md.exchange_timestamp(),
                        wire.unwrap(),
                    ),
                market_data_of(self.emitted()) == forwards(old(self).fed()) + (match matched {
                    Some(m) => if m < it.index() {
                        seq![forwarded(md, wire.unwrap())]
                    } else {
                        Seq::empty()
                    },
                    None => Seq::empty(),
                }),
        {
            let ghost idx = it.index() as int;
            let ghost i = idx;
            let ghost emitted_before = self.emitted();
            let ghost is_target = old(self).brokers()[idx].exchange_name() == md.exchange();
            proof {
                assert(lists[idx] == new_events);
                let produced = events_view(new_events@);
                lemma_broker_of(old(self).brokers(), md.exchange());
                if is_target {
                    assert(matched == Some(idx)) by {
                        if matched.is_none() {
                            assert(old(self).brokers()[idx].exchange_name() != md.exchange());
                        } else if matched.unwrap() < idx {
                            assert(old(self).brokers()[matched.unwrap()].exchange_name()
                                != old(self).brokers()[idx].exchange_name());
                        }
                    }
                    assert(produced[0] == new_events[0]@);
                    assert(produced[0].is_market_data());
                    assert forall|k: int| 1 <= k < produced.len() implies !(
                    #[trigger] produced[k]).is_market_data() by {
                        assert(produced[k] == new_events[k]@);
                    }
                    lemma_market_data_of_forward(produced);
                } else {
                    assert(matched != Some(idx));
                    assert forall|k: int| 0 <= k < produced.len() implies !(
                    #[trigger] produced[k]).is_market_data() by {
                        assert(produced[k] == new_events[k]@);
                    }
                    lemma_market_data_of_answers(produced);
                }
            }
            absorb(
                &mut self.broker_events_buffer,
                &mut self.emitted,
                &mut self.on_time,
                &mut self.answers_on_time,
                new_events,
                Ghost(self.delivered@),
            );
            proof {
                let produced = events_view(new_events@);
                assert(lists.take(idx + 1).drop_last() =~= lists.take(idx));
                assert(lists.take(idx + 1).last() == new_events);
                assert(self.emitted() =~= old(self).emitted() + all_events(lists.take(idx + 1)));
                assert(self.emitted().skip(start) =~= emitted_before.skip(start) + produced);
                lemma_merge_twice(old(self).buffer(), emitted_before.skip(start), produced);
                assert(extends(old(self).emitted(), self.emitted())) by {
                    assert(self.emitted().take(start) =~= emitted_before.take(start));
                }
                assert(dated_from(self.emitted(), start, floor) == (dated_from(
                    emitted_before,
                    start,
                    floor,
                ) && dated_from(produced, 0, floor))) by {
                    if dated_from(self.emitted(), start, floor) {
                        assert forall|k: int| start <= k < emitted_before.len() implies (
                        #[trigger] emitted_before[k]).timestamp() >= floor by {
                            assert(self.emitted()[k] == emitted_before[k]);
                        }
                        assert forall|k: int| 0 <= k < produced.len() implies (
                        #[trigger] produced[k]).timestamp() >= floor by {
                            assert(self.emitted()[emitted_before.len() + k] == produced[k]);
                        }
                    }
                    if dated_from(emitted_before, start, floor) && dated_from(produced, 0, floor) {
                        assert forall|k: int| start <= k < self.emitted().len() implies (
                        #[trigger] self.emitted()[k]).timestamp() >= floor by {
                            if k < emitted_before.len() {
                                assert(self.emitted()[k] == emitted_before[k]);
                            } else {
                                assert(self.emitted()[k] == produced[k - emitted_before.len()]);
                            }
                        }
                    }
                }
                assert(answers_dated_from(self.emitted(), start, floor) == (answers_dated_from(
                    emitted_before,
                    start,
                    floor,
                ) && answers_dated_from(produced, 0, floor))) by {
                    if answers_dated_from(self.emitted(), start, floor) {
                        assert forall|k: int| start <= k < emitted_before.len() implies (
                        #[trigger] emitted_before[k]).is_market_data()
                            || emitted_before[k].timestamp() >= floor by {
                            assert(self.emitted()[k] == emitted_before[k]);
                        }
                        assert forall|k: int| 0 <= k < produced.len() implies (
                        #[trigger] produced[k]).is_market_data() || produced[k].timestamp()
                            >= floor by {
                            assert(self.emitted()[emitted_before.len() + k] == produced[k]);
                        }
                    }
                    if answers_dated_from(emitted_before, start, floor) && answers_dated_from(
                        produced,
                        0,
                        floor,
                    ) {
                        assert forall|k: int| start <= k < self.emitted().len() implies (
                        #[trigger] self.emitted()[k]).is_market_data()
                            || self.emitted()[k].timestamp() >= floor by {
                            if k < emitted_before.len() {
                                assert(self.emitted()[k] == emitted_before[k]);
                            } else {
                                assert(self.emitted()[k] == produced[k - emitted_before.len()]);
                            }
                        }
                    }
                }
                assert forall|k: int|
                    start <= k < self.emitted().len() && (
                    #[trigger] self.emitted()[k]).is_market_data() implies wire.is_some()
                    && self.emitted()[k].timestamp() == ts_add(
                    md.exchange_timestamp(),
                    wire.unwrap(),
                ) by {
                    if k < emitted_before.len() {
                        assert(self.emitted()[k] == emitted_before[k]);
                    } else {
                        let j = k - emitted_before.len();
                        assert(self.emitted()[k] == produced[j]);
                        if is_target {
                            if j > 0 {
                                assert(!produced[j].is_market_data());
                            } else {
                                assert(produced[0] == forwarded(md, old(self).brokers()[idx].latency()));
                            }
                        } else {
                            assert(!produced[j].is_market_data());
                        }
                    }
                }
                assert(market_data_of(self.emitted()) =~= forwards(old(self).fed()) + (
                match matched {
                    Some(m) => if m < idx + 1 {
                        seq![forwarded(md, wire.unwrap())]
                    } else {
                        Seq::empty()
                    },
                    None => Seq::empty(),
                }));
            }
        }
        assert(lists.take(lists.len() as int) =~= lists);
        assert(pending_md_event == old(self).pending_event().unwrap());
        assert forall|i: int| #[trigger]
            has_turn(i, old(self).brokers().len()) implies if old(self).brokers()[i].exchange_name()
            == old(self).pending().unwrap().exchange() {
            exists|broker: &mut B|
                {
                    &&& mut_ref_current(broker) == old(self).brokers()[i]
                    &&& mut_ref_future(broker) == self.brokers()[i]
                    &&& #[trigger] call_ensures(
                        B::on_new_market_data,
                        (broker, &old(self).pending_event().unwrap()),
                        outputs[i],
                    )
                }
        } else {
            exists|broker: &mut B|
                {
                    &&& mut_ref_current(broker) == old(self).brokers()[i]
                    &&& mut_ref_future(broker) == self.brokers()[i]
                    &&& #[trigger] call_ensures(
                        B::on_new_timestamp,
                        (broker, old(self).pending().unwrap().exchange_timestamp()),
                        outputs[i],
                    )
                }
        } by {
            assert(has_turn(i, old(self).brokers().len() as nat));
        }
        proof {
            lemma_same_venues(old(self).brokers(), self.brokers());
            assert(self.wf_brokers()) by {
                assert forall|a: int, b: int| 0 <= a < b < self.brokers().len() implies (
                #[trigger] self.brokers()[a]).exchange_name() != (
                #[trigger] self.brokers()[b]).exchange_name() by {
                    assert(old(self).brokers()[a].exchange_name() != old(self).brokers()[b].exchange_name());
                }
            }
            lemma_broker_of(old(self).brokers(), md.exchange());
            assert(self.fed().drop_last() =~= old(self).fed());
            assert(self.wf_order()) by {
                if self.emitted().len() == 0 {
                    assert(old(self).emitted().len() == 0);
                }
                if self.premises() {
                    assert(old(self).premises());
                    assert(old(self).due_from(floor, md));
                    assert(self.on_time()) by {
                        assert forall|k: int| start <= k < self.emitted().len() implies (
                        #[trigger] self.emitted()[k]).timestamp() >= floor by {
                            if self.emitted()[k].is_market_data() {
                                assert(latency_of(old(self).brokers(), md.exchange()) == wire);
                            }
                        }
                    }
                    assert forall|i: int| 0 <= i < self.md_buffer().len() implies self.due_from(
                        floor,
                        #[trigger] self.md_buffer()[i],
                    ) by {
                        assert(old(self).due_from(floor, old(self).md_buffer()[i]));
                    }
                    assert forall|i: int| 0 <= i < self.remaining().len() implies self.due_from(
                        floor,
                        #[trigger] self.remaining()[i],
                    ) by {
                        assert(old(self).due_from(floor, old(self).remaining()[i]));
                    }
                }
            }
            assert(self.wf_forwarding()) by {
                if wire.is_some() {
                    assert(forwards(old(self).fed()) + seq![forwarded(md, wire.unwrap())]
                        =~= forwards(old(self).fed()).push(forwarded(md, wire.unwrap())));
                } else {
                    assert(forwards(old(self).fed()) + Seq::<EventView>::empty() =~= forwards(
                        old(self).fed(),
                    ));
                }
            }
        }
    }

    /// Whether nothing is left to deliver: the market-data stream is used
    /// up and the buffer is empty.
    pub open spec fn exhausted(&self) -> bool {
        &&& self.no_more_md()
        &&& self.buffer().len() == 0
    }

    /// Takes the earliest event out of the buffer and records it as
    /// delivered.
    fn pop_event(&mut self) -> (r: Event)
        requires
            old(self).wf(),
            old(self).buffer().len() > 0,
            match old(self).pending() {
                Some(md) => old(self).buffer()[0].timestamp() <= old(self).expected_received_ts(md),
                None => old(self).no_more_md(),
            },
        ensures
            final(self).wf(),
            final(self).answers_on_time() == old(self).answers_on_time(),
            final(self).steady() == old(self).steady(),
            final(self).pulled() == old(self).pulled(),
            final(self).brokers() == old(self).brokers(),
            final(self).default_latency() == old(self).default_latency(),
            final(self).stream() == old(self).stream(),
            final(self).remaining() == old(self).remaining(),
            final(self).md_buffer() == old(self).md_buffer(),
            final(self).no_more_md() == old(self).no_more_md(),
            final(self).pending() == old(self).pending(),
            final(self).fed() == old(self).fed(),
            final(self).emitted() == old(self).emitted(),
            final(self).on_time() == old(self).on_time(),
            r@ == old(self).buffer()[0],
            final(self).buffer() == old(self).buffer().skip(1),
            final(self).delivered() == old(self).delivered().push(r@),
    {
        let ghost before = self.buffer();
        let event = self.broker_events_buffer.remove(0);
        proof {
            broadcast use group_to_multiset_ensures;

            assert(event@ == before[0]);
            assert(self.buffer() =~= before.skip(1));
            assert(self.buffer() =~= before.remove(0));
            self.delivered@ = self.delivered@.push(event@);
            to_multiset_remove(before, 0);
            assert(self.delivered().to_multiset().add(self.buffer().to_multiset())
                =~= self.emitted().to_multiset());
            assert(sorted_by_timestamp(self.buffer())) by {
                assert forall|i: int, j: int|
                    0 <= i <= j < self.buffer().len() implies self.buffer()[i].timestamp()
                    <= self.buffer()[j].timestamp() by {
                    assert(before[i + 1].timestamp() <= before[j + 1].timestamp());
                }
            }
            assert(self.wf_order()) by {
                if self.premises() {
                    assert(old(self).premises());
                    match self.pending() {
                        Some(md) => {
                            assert forall|i: int|
                                0 <= i < self.md_buffer().len() implies self.due_from(
                                watermark(self.delivered()),
                                #[trigger] self.md_buffer()[i],
                            ) by {
                                assert(old(self).due_from(
                                    old(self).expected_received_ts(md),
                                    old(self).md_buffer()[i],
                                ));
                            }
                            assert forall|i: int|
                                0 <= i < self.remaining().len() implies self.due_from(
                                watermark(self.delivered()),
                                #[trigger] self.remaining()[i],
                            ) by {
                                assert(old(self).due_from(
                                    old(self).expected_received_ts(md),
                                    old(self).remaining()[i],
                                ));
                            }
                        },
                        None => {},
                    }
                }
            }
            if self.on_time() {
                assert(before[0].timestamp() >= watermark(old(self).delivered()));
                assert(sorted_by_timestamp(self.delivered())) by {
                    assert forall|i: int, j: int|
                        0 <= i <= j < self.delivered().len() implies self.delivered()[i].timestamp()
                        <= self.delivered()[j].timestamp() by {
                        if j < old(self).delivered().len() {
                            assert(old(self).delivered()[i].timestamp()
                                <= old(self).delivered()[j].timestamp());
                        } else if i < old(self).delivered().len() {
                            assert(old(self).delivered()[i].timestamp()
                                <= old(self).delivered()[old(self).delivered().len()
                                - 1].timestamp());
                        }
                    }
                }
                assert forall|i: int| 0 <= i < self.buffer().len() implies (
                #[trigger] self.buffer()[i]).timestamp() >= watermark(self.delivered()) by {
                    assert(before[0].timestamp() <= before[i + 1].timestamp());
                }
            }
        }
        event
    }

    /// Whether an event waits that is delivered before any market data is
    /// handed to the brokers: the buffer holds an event, and either no
    /// market data is left, or the first event of the buffer is not later
    /// than the strategy is expected to see the pending market data.
    pub open spec fn waits_first(&self) -> bool {
        &&& self.buffer().len() > 0
        &&& self.market_data_left() == 0 || match self.pending() {
            Some(md) => self.buffer()[0].timestamp() <= self.expected_received_ts(md),
            None => false,
        }
    }

    /// What one delivery makes of the environment `before`: `self` is the
    /// environment after it and `r` what was delivered.
    ///
    /// Nothing is delivered exactly when nothing waited and the brokers
    /// generated nothing; then the market data is used up. Otherwise the
    /// event delivered is the first of what waited merged with what the
    /// brokers generated meanwhile, nothing that still waits is dated
    /// before it, and it is not later than the strategy is expected to see
    /// the market data that is pending now.
    ///
    /// No broker is called once no market data is left, nor while an event
    /// waits that is to be delivered first; that event is then the one
    /// delivered. Each market-data event handed to the brokers is recorded
    /// with the wire latency of the broker of its exchange.
    pub open spec fn delivers_next(&self, before: &Self, r: Option<Event>) -> bool {
        &&& before.market_data_left() == 0 ==> self.fed() == before.fed() && self.emitted()
            == before.emitted()
        &&& before.waits_first() ==> self.fed() == before.fed() && self.emitted()
            == before.emitted() && match r {
            Some(event) => event@ == before.buffer()[0],
            None => false,
        }
        &&& forall|i: int|
            before.fed().len() <= i < self.fed().len() ==> (#[trigger] self.fed()[i]).wire_latency
                == latency_of(before.brokers(), self.fed()[i].md.exchange())
        &&& same_venues(before.brokers(), self.brokers())
        &&& self.default_latency() == before.default_latency()
        &&& self.stream() == before.stream()
        &&& extends(before.fed(), self.fed())
        &&& extends(before.emitted(), self.emitted())
        &&& self.on_time() == (before.on_time() && dated_from(
            self.emitted(),
            before.emitted().len() as int,
            watermark(before.delivered()),
        ))
        &&& self.answers_on_time() == (before.answers_on_time() && answers_dated_from(
            self.emitted(),
            before.emitted().len() as int,
            watermark(before.delivered()),
        ))
        &&& self.steady() == before.steady()
        &&& r.is_none() <==> before.buffer().len() == 0 && self.emitted() == before.emitted()
        &&& match r {
            Some(event) => {
                &&& self.delivered() == before.delivered().push(event@)
                &&& seq![event@] + self.buffer() == merge_by_timestamp(
                    before.buffer(),
                    self.emitted().skip(before.emitted().len() as int),
                )
                &&& dated_from(self.buffer(), 0, event@.timestamp())
                &&& match self.pending() {
                    Some(md) => event@.timestamp() <= self.expected_received_ts(md),
                    None => self.no_more_md(),
                }
            },
            None => self.delivered() == before.delivered() && self.exhausted()
                && self.market_data_left() == 0,
        }
    }

    /// Delivers the next event, or `None` when nothing is left.
    ///
    /// An event that waits in the buffer is delivered if it is not later
    /// than the time at which the strategy is expected to see the pending
    /// market data, or if there is no more market data. Otherwise the
    /// pending market data is handed to the brokers first, and what they
    /// generate joins the buffer. The event delivered is the earliest of
    /// the buffer; of several events of that time, the one that came first.
    pub fn next_event(&mut self) -> (r: Option<Event>)
        requires
            old(self).wf(),
        ensures
            final(self).wf(),
            same_venues(old(self).brokers(), final(self).brokers()),
            final(self).default_latency() == old(self).default_latency(),
            final(self).stream() == old(self).stream(),
            extends(old(self).fed(), final(self).fed()),
            extends(old(self).emitted(), final(self).emitted()),
            final(self).on_time() == (old(self).on_time() && dated_from(
                final(self).emitted(),
                old(self).emitted().len() as int,
                watermark(old(self).delivered()),
            )),
            final(self).answers_on_time() == (old(self).answers_on_time() && answers_dated_from(
                final(self).emitted(),
                old(self).emitted().len() as int,
                watermark(old(self).delivered()),
            )),
            final(self).steady() == old(self).steady(),
            r.is_none() <==> old(self).buffer().len() == 0 && final(self).emitted() == old(self).emitted(),
            match r {
                Some(event) => {
                    &&& final(self).delivered() == old(self).delivered().push(event@)
                    &&& seq![event@] + final(self).buffer() == merge_by_timestamp(
                        old(self).buffer(),
                        final(self).emitted().skip(old(self).emitted().len() as int),
                    )
                    &&& dated_from(final(self).buffer(), 0, event@.timestamp())
                    &&& match final(self).pending() {
                        Some(md) => event@.timestamp() <= final(self).expected_received_ts(md),
                        None => final(self).no_more_md(),
                    }
                },
                None => final(self).delivered() == old(self).delivered() && final(self).exhausted()
                    && final(self).market_data_left() == 0,
            },
            final(self).delivers_next(old(self), r),
    {
        let ghost start = self.emitted().len() as int;
        let ghost floor = watermark(self.delivered());
        let ghost mut fed_any = false;
        proof {
            assert(self.emitted().skip(start) =~= Seq::empty());
            assert(self.emitted().take(start) =~= self.emitted());
            assert(self.fed().take(self.fed().len() as int) =~= self.fed());
        }
        loop
            invariant
                old(self).wf(),
                self.wf(),
                !fed_any ==> {
                    &&& self.fed() == old(self).fed()
                    &&& self.emitted() == old(self).emitted()
                    &&& self.buffer() == old(self).buffer()
                    &&& self.brokers() == old(self).brokers()
                    &&& self.market_data_left() == old(self).market_data_left()
                    &&& old(self).pending().is_some() ==> self.pending() == old(self).pending()
                },
                fed_any ==> old(self).market_data_left() > 0 && !old(self).waits_first(),
                forall|i: int|
                    old(self).fed().len() <= i < self.fed().len() ==> (
                    #[trigger] self.fed()[i]).wire_latency == latency_of(
                        old(self).brokers(),
                        self.fed()[i].md.exchange(),
                    ),
                start == old(self).emitted().len(),
                floor == watermark(old(self).delivered()),
                same_venues(old(self).brokers(), self.brokers()),
                self.default_latency() == old(self).default_latency(),
                self.stream() == old(self).stream(),
                self.delivered() == old(self).delivered(),
                extends(old(self).fed(), self.fed()),
                extends(old(self).emitted(), self.emitted()),
                self.on_time() == (old(self).on_time() && dated_from(self.emitted(), start, floor)),
                self.answers_on_time() == (old(self).answers_on_time() && answers_dated_from(
                    self.emitted(),
                    start,
                    floor,
                )),
                self.steady() == old(self).steady(),
                self.buffer() == merge_by_timestamp(old(self).buffer(), self.emitted().skip(start)),
            decreases self.market_data_left(),
        {
            self.update_pending_md();
            proof {
                lemma_merge_by_timestamp(
                    old(self).buffer(),
                    self.emitted().skip(start),
                );
            }
            let deliver = if self.broker_events_buffer.len() == 0 {
                if self.no_more_md {
                    assert(self.emitted() =~= old(self).emitted()) by {
                        assert(self.emitted().take(start) == old(self).emitted());
                    }
                    return None;
                }
                false
            } else if self.no_more_md {
                true
            } else {
                let expected_md_event_ts = match &self.pending_md_event {
                    Some(pending_md_event) => self.md_event_expected_received_ts(pending_md_event),
                    None => 0,
                };
                assert(self.buffer()[0] == self.broker_events_buffer[0]@);
                self.broker_events_buffer[0].timestamp() <= expected_md_event_ts
            };
            if deliver {
                let ghost before = self.buffer();
                let event = self.pop_event();
                proof {
                    assert(seq![event@] + self.buffer() =~= before);
                    assert forall|i: int| 0 <= i < self.buffer().len() implies (
                    #[trigger] self.buffer()[i]).timestamp() >= event@.timestamp() by {
                        assert(before[0].timestamp() <= before[i + 1].timestamp());
                    }
                    if self.emitted() == old(self).emitted() {
                        assert(self.emitted().skip(start) =~= Seq::empty());
                    }
                }
                return Some(event);
            }
            let ghost prev_fed = self.fed();
            let ghost prev_emitted = self.emitted();
            let ghost prev_brokers = self.brokers();
            proof {
                if !fed_any {
                    assert(!old(self).waits_first());
                    assert(old(self).market_data_left() > 0);
                }
                fed_any = true;
            }
            self.feed_market_data_event_to_brokers();
            proof {
                lemma_same_venues(old(self).brokers(), prev_brokers);
                assert forall|i: int| old(self).fed().len() <= i < self.fed().len() implies (
                #[trigger] self.fed()[i]).wire_latency == latency_of(
                    old(self).brokers(),
                    self.fed()[i].md.exchange(),
                ) by {
                    if i < prev_fed.len() {
                        assert(self.fed()[i] == prev_fed[i]);
                    }
                }
                lemma_progress(old(self).emitted(), prev_emitted, self.emitted(), start, floor);
                lemma_answers_progress(
                    old(self).emitted(),
                    prev_emitted,
                    self.emitted(),
                    start,
                    floor,
                );
                lemma_merge_twice(
                    old(self).buffer(),
                    prev_emitted.skip(start),
                    self.emitted().skip(prev_emitted.len() as int),
                );
                assert(extends(old(self).fed(), self.fed())) by {
                    assert(self.fed().take(old(self).fed().len() as int) =~= prev_fed.take(
                        old(self).fed().len() as int,
                    ));
                }
                assert(same_venues(old(self).brokers(), self.brokers())) by {
                    assert forall|i: int| 0 <= i < self.brokers().len() implies (
                    #[trigger] old(self).brokers()[i]).exchange_name() == (
                    #[trigger] self.brokers()[i]).exchange_name()
                        && old(self).brokers()[i].latency() == self.brokers()[i].latency() by {
                        assert(old(self).brokers()[i].exchange_name()
                            == prev_brokers[i].exchange_name());
                        assert(prev_brokers[i].exchange_name() == self.brokers()[i].exchange_name());
                    }
                }
            }
        }
    }
}

impl<T: SimulatedTradingMarketDataProvider, B: SimulatedBroker> EventProvider for SimulatedEnvironment<
    T,
    B,
> {
    open spec fn wf(&self) -> bool {
        SimulatedEnvironment::wf(self)
    }

    /// Delivers the next event, as `SimulatedEnvironment::next_event` does.
    fn next_event(&mut self) -> (r: Option<Event>)
        ensures
            final(self).delivers_next(old(self), r),
    {
        SimulatedEnvironment::next_event(self)
    }
}

} // verus!
