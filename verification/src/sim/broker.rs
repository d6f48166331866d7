//! The simulated broker: the venue of one exchange.
//!
//! The broker receives the requests of the strategy over a queue, lets each
//! wait for the wire latency, executes it, matches the open orders against
//! the market data of its exchange, and hands out the events that this
//! produces, each stamped with the time at which the strategy sees it.

use vstd::prelude::*;
use vstd::string::*;
use crossbeam_channel::Receiver;
use crate::channel::{take_pending, taken_from};
use crate::decimal::{parse_decimal_string, to_decimal_string};
use crate::events::{
    clone_opt_string, events_view, CancelOrderAccepted, CancelOrderRejected, Event,
    NewOrderAccepted, NewOrderRejected, OrderUpdate,
};
use crate::gateway_router::{
    requests_view, CancelOrderRequest, ExchangeRequest, ExchangeRequestView, NewOrderRequest,
};
use crate::market_data::MarketDataEvent;
use crate::order::Order;
use crate::sim::environment::SimulatedBroker;
use crate::sim::broker_laws::{
    lemma_cancel_keeps_account, lemma_cancel_keeps_wf, lemma_execute_limit_order_keeps_wf,
    lemma_market_data_tick_events, lemma_matching_keeps_account, lemma_new_order_keeps_account,
    lemma_new_order_keeps_wf, lemma_position, lemma_timestamp_tick_events,
};
use crate::sim::broker_model::{
    crosses, fills, next_id, position, BookEntryView, BrokerState, InternalID,
    PendingRequestView,
};
use crate::types::{
    add_latency, EventId, Exchange, ExecutionType, Latency, OrderStatus, OrderType, Side,
    Timestamp,
};

verus! {

/// How a simulated broker behaves.
#[derive(Debug, Clone, Copy, PartialEq, Eq, Structural)]
pub struct SimBrokerConfig {
    /// Whether a trade print at the price of a resting order leaves the
    /// order unfilled.
    pub strict_execution: bool,
    /// The delay between strategy and venue, each way.
    pub wire_latency: Latency,
    /// The delay of the venue between receiving a request and acting on it.
    pub internal_latency: Latency,
}

impl SimBrokerConfig {
    /// A configuration; a latency that is not given is zero.
    pub fn new(
        strict_execution: bool,
        wire_latency: Option<Latency>,
        internal_latency: Option<Latency>,
    ) -> (r: Self)
        ensures
            r.strict_execution == strict_execution,
            r.wire_latency == wire_latency.unwrap_or(0),
            r.internal_latency == internal_latency.unwrap_or(0),
    {
        SimBrokerConfig {
            strict_execution,
            wire_latency: wire_latency.unwrap_or(0),
            internal_latency: internal_latency.unwrap_or(0),
        }
    }
}

impl Default for SimBrokerConfig {
    /// No latency, and a trade print at the price of an order fills it.
    fn default() -> (r: Self)
        ensures
            r == (SimBrokerConfig { strict_execution: false, wire_latency: 0, internal_latency: 0 }),
    {
        SimBrokerConfig { strict_execution: false, wire_latency: 0, internal_latency: 0 }
    }
}

/// A request that reached the broker and waits for its time.
#[derive(Debug)]
pub struct SimBrokerExchangeRequest {
    pub ack_timestamp: Timestamp,
    pub request_id: InternalID,
    pub exchange_request: ExchangeRequest,
}

impl View for SimBrokerExchangeRequest {
    type V = PendingRequestView;

    open spec fn view(&self) -> PendingRequestView {
        PendingRequestView {
            ack_timestamp: self.ack_timestamp,
            request_id: self.request_id,
            exchange_request: self.exchange_request@,
        }
    }
}

/// An order on the broker's books, under the number the broker gave it.
#[derive(Debug)]
pub struct BookEntry {
    pub id: InternalID,
    pub order: Order,
}

impl View for BookEntry {
    type V = BookEntryView;

    open spec fn view(&self) -> BookEntryView {
        BookEntryView { id: self.id, order: self.order@ }
    }
}

/// The models of a sequence of book entries, in order.
pub open spec fn book_view(s: Seq<BookEntry>) -> Seq<BookEntryView> {
    Seq::new(s.len(), |i: int| s[i]@)
}

/// The models of a sequence of pending requests, in order.
pub open spec fn pending_view(s: Seq<SimBrokerExchangeRequest>) -> Seq<PendingRequestView> {
    Seq::new(s.len(), |i: int| s[i]@)
}

/// The models of a sequence of strings, in order.
pub open spec fn strings_view(s: Seq<String>) -> Seq<Seq<char>> {
    Seq::new(s.len(), |i: int| s[i]@)
}

/// The simulated broker of one exchange.
pub struct SimBroker {
    exchange: Exchange,
    last_exchange_order_id: InternalID,
    last_request_id: InternalID,
    public_event_id: InternalID,
    last_ts: Timestamp,
    open_orders: Vec<BookEntry>,
    done_orders: Vec<BookEntry>,
    order_id_mapping: Vec<String>,
    pending_requests: Vec<SimBrokerExchangeRequest>,
    incoming_request_receiver: Receiver<ExchangeRequest>,
    generated_events: Vec<Event>,
    wire_latency: Latency,
    internal_latency: Latency,
    strict_execution: bool,
}

impl View for SimBroker {
    type V = BrokerState;

    closed spec fn view(&self) -> BrokerState {
        BrokerState {
            exchange: self.exchange@,
            wire_latency: self.wire_latency,
            internal_latency: self.internal_latency,
            strict_execution: self.strict_execution,
            last_ts: self.last_ts,
            last_exchange_order_id: self.last_exchange_order_id,
            last_request_id: self.last_request_id,
            public_event_id: self.public_event_id,
            open_orders: book_view(self.open_orders@),
            done_orders: book_view(self.done_orders@),
            order_ids: strings_view(self.order_id_mapping@),
            pending_requests: pending_view(self.pending_requests@),
            generated_events: events_view(self.generated_events@),
        }
    }
}

impl SimBroker {
    /// The receiving end of the queue from which the broker takes the
    /// requests of the strategy.
    pub closed spec fn receiver(&self) -> Receiver<ExchangeRequest> {
        self.incoming_request_receiver
    }

    /// What holds of every broker: its state is well formed and every
    /// order that it accepted is accounted for. See `BrokerState::wf` and
    /// `BrokerState::accounted`.
    pub open spec fn wf(&self) -> bool {
        self@.wf() && self@.accounted()
    }

    /// A broker for `exchange` that reads its requests from the given queue.
    /// A latency that is not given is zero.
    pub fn new(
        exchange: Exchange,
        incoming_request_receiver: Receiver<ExchangeRequest>,
        strict_execution: bool,
        wire_latency: Option<Latency>,
        internal_latency: Option<Latency>,
    ) -> (r: Self)
        ensures
            r.wf(),
            r.receiver() == incoming_request_receiver,
            r@ == BrokerState::initial(
                exchange@,
                strict_execution,
                wire_latency.unwrap_or(0),
                internal_latency.unwrap_or(0),
            ),
    {
        let r = SimBroker {
            exchange,
            last_ts: 0,
            last_exchange_order_id: 0,
            last_request_id: 0,
            public_event_id: 0,
            open_orders: Vec::new(),
            done_orders: Vec::new(),
            order_id_mapping: Vec::new(),
            pending_requests: Vec::new(),
            generated_events: Vec::new(),
            incoming_request_receiver,
            wire_latency: wire_latency.unwrap_or(0),
            internal_latency: internal_latency.unwrap_or(0),
            strict_execution,
        };
        assert(r@.open_orders =~= Seq::empty());
        assert(r@.done_orders =~= Seq::empty());
        assert(r@.order_ids =~= Seq::empty());
        assert(r@.pending_requests =~= Seq::empty());
        assert(r@.generated_events =~= Seq::empty());
        r
    }

    /// A broker for `exchange` with the given configuration.
    pub fn with_config(
        exchange: Exchange,
        incoming_request_receiver: Receiver<ExchangeRequest>,
        config: SimBrokerConfig,
    ) -> (r: Self)
        ensures
            r.wf(),
            r.receiver() == incoming_request_receiver,
            r@ == BrokerState::initial(
                exchange@,
                config.strict_execution,
                config.wire_latency,
                config.internal_latency,
            ),
    {
        SimBroker::new(
            exchange,
            incoming_request_receiver,
            config.strict_execution,
            Some(config.wire_latency),
            Some(config.internal_latency),
        )
    }

    /// Takes the next event identifier.
    pub fn next_public_event_id(&mut self) -> (r: EventId)
        ensures
            final(self).receiver() == old(self).receiver(),
            r@ == old(self)@.next_event_id(),
            final(self)@ == (BrokerState {
                public_event_id: next_id(old(self)@.public_event_id),
                ..old(self)@
            }),
    {
        if self.public_event_id < u64::MAX {
            self.public_event_id += 1;
        }
        to_decimal_string(self.public_event_id)
    }

    /// Puts an event in the buffer of generated events.
    pub fn add_generated_event(&mut self, event: Event)
        ensures
            final(self).receiver() == old(self).receiver(),
            final(self)@ == old(self)@.add_generated_event(event@),
    {
        self.generated_events.push(event);
        assert(final(self)@.generated_events =~= old(self)@.generated_events.push(event@));
    }

    /// Takes every generated event out of the buffer, in the order in which
    /// the events were generated.
    pub fn get_generated_events(&mut self) -> (r: Vec<Event>)
        ensures
            final(self).receiver() == old(self).receiver(),
            events_view(r@) == old(self)@.generated_events,
            final(self)@ == old(self)@.drained(),
    {
        let mut events: Vec<Event> = Vec::new();
        core::mem::swap(&mut events, &mut self.generated_events);
        assert(final(self)@.generated_events =~= Seq::empty());
        events
    }

    /// Whether an order was ever accepted under this client order id.
    fn knows_client_order_id(&self, client_order_id: &String) -> (r: bool)
        ensures
            r == self@.knows_client_order_id(client_order_id@),
    {
        let mut i: usize = 0;
        while i < self.order_id_mapping.len()
            invariant
                i <= self.order_id_mapping.len(),
                forall|j: int| 0 <= j < i ==> self@.order_ids[j] != client_order_id@,
            decreases self.order_id_mapping.len() - i,
        {
            if self.order_id_mapping[i] == *client_order_id {
                assert(self@.order_ids[i as int] == client_order_id@);
                return true;
            }
            i += 1;
        }
        false
    }

    /// Publishes the refusal of a new-order request.
    fn reject_new_order(&mut self, request: &NewOrderRequest, ts: Timestamp, reason: String)
        ensures
            final(self).receiver() == old(self).receiver(),
            final(self)@ == old(self)@.publish(
                old(self)@.new_order_rejected(request@, ts, reason@),
            ),
    {
        let exchange_ts = add_latency(ts, self.internal_latency);
        let order_rejected = NewOrderRejected {
            event_id: self.next_public_event_id(),
            request_id: Some(request.request_id.clone()),
            exchange_timestamp: exchange_ts,
            timestamp: add_latency(exchange_ts, self.wire_latency),
            client_order_id: request.client_order_id.clone(),
            reason,
            exchange: request.exchange.clone(),
            symbol: request.symbol.clone(),
        };
        self.add_generated_event(Event::ResponseNewOrderRejected(order_rejected));
    }

    /// Executes a new-order request that reached the venue at `ts`.
    ///
    /// A request is refused, with the reason "duplicate client order id",
    /// exactly when its client order id was used before. Any other request
    /// is accepted, whatever its type: the order gets the next number, the
    /// acknowledgment and the order update are published, and the order
    /// goes on the book.
    pub fn on_new_order_request(&mut self, request: &NewOrderRequest, ts: Timestamp)
        requires
            old(self).wf(),
        ensures
            final(self).receiver() == old(self).receiver(),
            final(self).wf(),
            final(self)@ == old(self)@.on_new_order_request(request@, ts),
    {
        if self.knows_client_order_id(&request.client_order_id) {
            self.reject_new_order(request, ts, String::from_str("duplicate client order id"));
            return ;
        }
        self.order_id_mapping.push(request.client_order_id.clone());
        let exchange_order_id = self.order_id_mapping.len() as u64;
        self.last_exchange_order_id = exchange_order_id;
        assert(exchange_order_id == next_id(old(self)@.last_exchange_order_id));
        let exchange_order_id_str = to_decimal_string(exchange_order_id);
        let exchange_ts = add_latency(ts, self.internal_latency);
        let order_accepted = NewOrderAccepted {
            event_id: self.next_public_event_id(),
            request_id: Some(request.request_id.clone()),
            exchange_timestamp: exchange_ts,
            timestamp: add_latency(exchange_ts, self.wire_latency),
            client_order_id: request.client_order_id.clone(),
            exchange_order_id: exchange_order_id_str.clone(),
            exchange: request.exchange.clone(),
            symbol: request.symbol.clone(),
        };
        self.add_generated_event(Event::ResponseNewOrderAccepted(order_accepted));
        let order_update = OrderUpdate {
            event_id: self.next_public_event_id(),
            exchange: request.exchange.clone(),
            exchange_timestamp: exchange_ts,
            timestamp: add_latency(exchange_ts, self.wire_latency),
            symbol: request.symbol.clone(),
            side: request.side,
            client_order_id: Some(request.client_order_id.clone()),
            exchange_order_id: Some(exchange_order_id_str.clone()),
            order_type: Some(request.order_type),
            time_in_force: Some(request.time_in_force),
            original_qty: request.quantity,
            original_price: request.price,
            average_price: None,
            stop_price: None,
            execution_type: ExecutionType::NEW,
            order_status: OrderStatus::NEW,
            last_filled_qty: None,
            accumulated_filled_qty: None,
            last_filled_price: None,
            last_trade_time: None,
        };
        self.add_generated_event(Event::UDSOrderUpdate(order_update));
        let mut order = Order::new_order_from_exchange_request(request, exchange_ts);
        let confirmed = order.set_confirmed_by_exchange(exchange_order_id_str, exchange_ts);
        assert(confirmed.is_ok());
        self.open_orders.push(BookEntry { id: exchange_order_id, order });
        proof {
            let expected = old(self)@.on_new_order_request(request@, ts);
            assert(self@.open_orders =~= expected.open_orders);
            assert(self@.order_ids =~= expected.order_ids);
            assert(self@.generated_events =~= expected.generated_events);
            lemma_new_order_keeps_wf(old(self)@, request@, ts);
            lemma_new_order_keeps_account(old(self)@, request@, ts);
        }
    }

    /// Where the order numbered `id` stands on the book.
    fn find_open_order(&self, id: InternalID) -> (r: Option<usize>)
        ensures
            match r {
                Some(i) => position(self@.open_orders, id) == Some(i as int) && i
                    < self.open_orders.len(),
                None => position(self@.open_orders, id).is_none(),
            },
    {
        let mut i: usize = 0;
        while i < self.open_orders.len()
            invariant
                i <= self.open_orders.len(),
                forall|j: int| 0 <= j < i ==> self@.open_orders[j].id != id,
            decreases self.open_orders.len() - i,
        {
            if self.open_orders[i].id == id {
                proof {
                    lemma_position(self@.open_orders, id);
                    assert(self@.open_orders[i as int].id == id);
                }
                return Some(i);
            }
            i += 1;
        }
        proof {
            lemma_position(self@.open_orders, id);
            if position(self@.open_orders, id).is_some() {
                assert(self@.open_orders[position(self@.open_orders, id).unwrap()].id == id);
            }
        }
        None
    }

    /// Publishes the refusal of a cancel request.
    fn reject_cancel(&mut self, request: &CancelOrderRequest, ts: Timestamp, reason: String)
        ensures
            final(self).receiver() == old(self).receiver(),
            final(self)@ == old(self)@.publish(old(self)@.cancel_rejected(request@, ts, reason@)),
    {
        let exchange_ts = add_latency(ts, self.internal_latency);
        let cancel_rejected = CancelOrderRejected {
            event_id: self.next_public_event_id(),
            request_id: Some(request.request_id.clone()),
            timestamp: add_latency(exchange_ts, self.wire_latency),
            exchange_timestamp: exchange_ts,
            client_order_id: request.client_order_id.clone(),
            exchange_order_id: Some(request.exchange_order_id.clone()),
            reason,
            exchange: request.exchange.clone(),
            symbol: request.symbol.clone(),
        };
        self.add_generated_event(Event::ResponseCancelOrderRejected(cancel_rejected));
    }

    /// Executes a cancel request that reached the venue at `ts`.
    ///
    /// The request is refused with the reason "invalid exchange order id" if
    /// its order id is not a number, and with the reason "order not found"
    /// if no open order has that number. Otherwise the order is canceled,
    /// the acknowledgment and the order update are published, and the order
    /// moves from the book to the done orders.
    pub fn on_cancel_order_requests(&mut self, request: &CancelOrderRequest, ts: Timestamp)
        requires
            old(self).wf(),
        ensures
            final(self).receiver() == old(self).receiver(),
            final(self).wf(),
            final(self)@ == old(self)@.on_cancel_order_request(request@, ts),
    {
        proof {
            lemma_cancel_keeps_wf(old(self)@, request@, ts);
            lemma_cancel_keeps_account(old(self)@, request@, ts);
        }
        let exchange_order_id = match parse_decimal_string(request.exchange_order_id.as_str()) {
            Some(val) => val,
            None => {
                self.reject_cancel(request, ts, String::from_str("invalid exchange order id"));
                return ;
            },
        };
        let index = match self.find_open_order(exchange_order_id) {
            Some(index) => index,
            None => {
                self.reject_cancel(request, ts, String::from_str("order not found"));
                return ;
            },
        };
        let mut entry = self.open_orders.remove(index);
        assert(entry@ == old(self)@.open_orders[index as int]);
        assert(entry@.booked_in(old(self)@.order_ids));
        let canceled = entry.order.cancel(ts);
        assert(canceled.is_ok());
        let exchange_order_id_str = to_decimal_string(exchange_order_id);
        let exchange_ts = add_latency(ts, self.internal_latency);
        let cancel_accepted = CancelOrderAccepted {
            event_id: self.next_public_event_id(),
            request_id: Some(request.request_id.clone()),
            timestamp: add_latency(exchange_ts, self.wire_latency),
            exchange_timestamp: exchange_ts,
            client_order_id: entry.order.client_order_id.clone(),
            exchange_order_id: exchange_order_id_str.clone(),
            exchange: request.exchange.clone(),
            symbol: request.symbol.clone(),
        };
        self.add_generated_event(Event::ResponseCancelOrderAccepted(cancel_accepted));
        let order_update = OrderUpdate {
            event_id: self.next_public_event_id(),
            exchange: request.exchange.clone(),
            timestamp: add_latency(exchange_ts, self.wire_latency),
            exchange_timestamp: exchange_ts,
            symbol: entry.order.symbol.clone(),
            side: entry.order.side,
            client_order_id: Some(entry.order.client_order_id.clone()),
            exchange_order_id: Some(exchange_order_id_str),
            order_type: Some(entry.order.order_type),
            time_in_force: Some(entry.order.time_in_force),
            original_qty: entry.order.quantity,
            original_price: entry.order.price,
            average_price: entry.order.avg_fill_price,
            stop_price: entry.order.trigger_price,
            execution_type: ExecutionType::CANCELED,
            order_status: OrderStatus::CANCELED,
            last_filled_qty: None,
            accumulated_filled_qty: entry.order.filled_quantity,
            last_filled_price: None,
            last_trade_time: None,
        };
        self.add_generated_event(Event::UDSOrderUpdate(order_update));
        self.done_orders.push(entry);
        proof {
            let expected = old(self)@.on_cancel_order_request(request@, ts);
            assert(self@.open_orders =~= expected.open_orders);
            assert(self@.done_orders =~= expected.done_orders);
            assert(self@.generated_events =~= expected.generated_events);
        }
    }

    /// Looks at one pending request at a tick of time `ts`: a request whose
    /// time has come is executed, any other goes back to the end of the
    /// queue.
    fn settle(&mut self, pending: SimBrokerExchangeRequest, ts: Timestamp)
        requires
            old(self).wf(),
        ensures
            final(self).receiver() == old(self).receiver(),
            final(self).wf(),
            final(self)@ == old(self)@.settle(pending@, ts),
    {
        if pending.ack_timestamp > ts {
            self.pending_requests.push(pending);
            assert(final(self)@.pending_requests =~= old(self)@.pending_requests.push(pending@));
            return ;
        }
        match &pending.exchange_request {
            ExchangeRequest::NewOrder(request) => {
                self.on_new_order_request(request, pending.ack_timestamp)
            },
            ExchangeRequest::CancelOrder(request) => {
                self.on_cancel_order_requests(request, pending.ack_timestamp)
            },
        }
    }

    /// Executes every pending request whose time has come at `ts`, in
    /// arrival order. The others keep waiting, in arrival order.
    pub fn execute_requests_after_ts(&mut self, ts: Timestamp)
        requires
            old(self).wf(),
        ensures
            final(self).receiver() == old(self).receiver(),
            final(self).wf(),
            final(self)@ == old(self)@.execute_requests_after_ts(ts),
    {
        let mut pending: Vec<SimBrokerExchangeRequest> = Vec::new();
        core::mem::swap(&mut pending, &mut self.pending_requests);
        let ghost all = pending_view(pending@);
        let ghost start = self@;
        assert(start == (BrokerState { pending_requests: Seq::empty(), ..old(self)@ })) by {
            assert(start.pending_requests =~= Seq::empty());
        }
        assert(all == old(self)@.pending_requests);
        assert(all.take(0) =~= Seq::empty());
        for request in it: pending
            invariant
                it.seq().len() == all.len(),
                forall|k: int| 0 <= k < all.len() ==> (#[trigger] it.seq()[k])@ == all[k],
                self.receiver() == old(self).receiver(),
                self.wf(),
                self@ == start.settle_all(all.take(it.index() as int), ts),
        {
            assert(all.take(it.index() + 1).drop_last() =~= all.take(it.index() as int));
            assert(all.take(it.index() + 1).last() == request@);
            self.settle(request, ts);
        }
        assert(all.take(all.len() as int) =~= all);
    }

    /// Takes in the requests that arrived from the strategy, in this order:
    /// each gets the next request number and waits until its creation time
    /// plus the wire latency.
    pub fn take_requests(&mut self, incoming: Vec<ExchangeRequest>)
        requires
            old(self).wf(),
        ensures
            final(self).receiver() == old(self).receiver(),
            final(self).wf(),
            final(self)@ == old(self)@.enqueue_all(requests_view(incoming@)),
    {
        let ghost all = requests_view(incoming@);
        let ghost start = self@;
        assert(all.take(0) =~= Seq::empty());
        for exchange_request in it: incoming
            invariant
                it.seq().len() == all.len(),
                forall|k: int| 0 <= k < all.len() ==> (#[trigger] it.seq()[k])@ == all[k],
                self.receiver() == old(self).receiver(),
                self.wf(),
                self@ == start.enqueue_all(all.take(it.index() as int)),
        {
            assert(all.take(it.index() + 1).drop_last() =~= all.take(it.index() as int));
            assert(all.take(it.index() + 1).last() == exchange_request@);
            let ghost before = self@;
            if self.last_request_id < u64::MAX {
                self.last_request_id += 1;
            }
            let wrapped_request = SimBrokerExchangeRequest {
                ack_timestamp: add_latency(exchange_request.creation_ts(), self.wire_latency),
                request_id: self.last_request_id,
                exchange_request,
            };
            self.pending_requests.push(wrapped_request);
            assert(self@.pending_requests =~= before.pending_requests.push(
                before.wrap_request(exchange_request@),
            ));
        }
        assert(all.take(all.len() as int) =~= all);
    }

    /// Processes the requests that arrived at a tick of time `ts`: takes
    /// them in, then executes every pending request whose time has come.
    pub fn process_requests(&mut self, incoming: Vec<ExchangeRequest>, ts: Timestamp)
        requires
            old(self).wf(),
        ensures
            final(self).receiver() == old(self).receiver(),
            final(self).wf(),
            final(self)@ == old(self)@.process_requests_on_new_ts(requests_view(incoming@), ts),
    {
        self.take_requests(incoming);
        self.execute_requests_after_ts(ts);
    }

    /// Takes the requests that are on the queue right now and processes them
    /// as `process_requests` does. Which requests those are is up to the
    /// queue.
    pub fn process_requests_on_new_ts(&mut self, ts: Timestamp)
        requires
            old(self).wf(),
        ensures
            final(self).receiver() == old(self).receiver(),
            final(self).wf(),
            exists|taken: Vec<ExchangeRequest>|
                {
                    &&& #[trigger] taken_from(old(self).receiver(), taken)
                    &&& final(self)@ == old(self)@.process_requests_on_new_ts(
                        requests_view(taken@),
                        ts,
                    )
                },
    {
        let incoming = take_pending(&self.incoming_request_receiver);
        self.process_requests(incoming, ts);
    }

    /// Whether the market data crosses the price of the order.
    fn crosses(order: &Order, md: &MarketDataEvent, strict: bool) -> (r: bool)
        ensures
            r == crosses(order@, md@, strict),
    {
        match order.price {
            None => false,
            Some(order_price) => match order.side {
                Side::BUY => match md {
                    MarketDataEvent::NewMarketTrade(t) => {
                        if strict {
                            t.last_price < order_price
                        } else {
                            t.last_price <= order_price
                        }
                    },
                    MarketDataEvent::NewQuote(q) => q.ask <= order_price,
                },
                Side::SELL => match md {
                    MarketDataEvent::NewMarketTrade(t) => {
                        if strict {
                            t.last_price > order_price
                        } else {
                            t.last_price >= order_price
                        }
                    },
                    MarketDataEvent::NewQuote(q) => q.bid >= order_price,
                },
            },
        }
    }

    /// Whether the market data fills the order.
    fn fills(order: &Order, md: &MarketDataEvent, strict: bool) -> (r: bool)
        ensures
            r == fills(order@, md@, strict),
    {
        let same_symbol = match md {
            MarketDataEvent::NewMarketTrade(t) => order.symbol == t.symbol,
            MarketDataEvent::NewQuote(q) => order.symbol == q.symbol,
        };
        same_symbol && order.order_type == OrderType::LIMIT && order.create_ts
            <= md.exchange_timestamp() && Self::crosses(order, md, strict)
    }

    /// Holds an order that was taken off the book against market data.
    ///
    /// The market data fills a LIMIT order for its instrument that existed
    /// at the venue when the market data was produced and whose price it
    /// crosses. Such an order is filled in full at its own price: the fill
    /// is published and the order joins the done orders. Any other order
    /// goes back to the end of the book.
    pub fn execute_limit_order(&mut self, md: &MarketDataEvent, entry: BookEntry)
        requires
            old(self)@.wf(),
            entry@.booked_in(old(self)@.order_ids),
            entry.order.status == OrderStatus::NEW,
            forall|i: int|
                0 <= i < old(self)@.open_orders.len() ==> (#[trigger] old(self)@.open_orders[i]).id
                    < entry.id,
        ensures
            final(self).receiver() == old(self).receiver(),
            final(self)@.wf(),
            final(self)@ == old(self)@.execute_limit_order(md@, entry@),
    {
        proof {
            lemma_execute_limit_order_keeps_wf(old(self)@, md@, entry@);
        }
        let mut entry = entry;
        if !Self::fills(&entry.order, md, self.strict_execution) {
            self.open_orders.push(entry);
            assert(final(self)@.open_orders =~= old(self)@.open_orders.push(entry@));
            return ;
        }
        let md_ts = md.exchange_timestamp();
        let exchange_ts = add_latency(md_ts, self.internal_latency);
        let order_update = OrderUpdate {
            event_id: self.next_public_event_id(),
            exchange_timestamp: exchange_ts,
            timestamp: add_latency(exchange_ts, self.wire_latency),
            symbol: entry.order.symbol.clone(),
            exchange: entry.order.exchange.clone(),
            side: entry.order.side,
            client_order_id: Some(entry.order.client_order_id.clone()),
            exchange_order_id: clone_opt_string(&entry.order.exchange_order_id),
            order_type: Some(entry.order.order_type),
            time_in_force: Some(entry.order.time_in_force),
            original_qty: entry.order.quantity,
            original_price: entry.order.price,
            average_price: entry.order.price,
            stop_price: None,
            execution_type: ExecutionType::TRADE,
            order_status: OrderStatus::FILLED,
            last_filled_qty: Some(entry.order.quantity),
            accumulated_filled_qty: Some(entry.order.quantity),
            last_filled_price: entry.order.price,
            last_trade_time: Some(md_ts),
        };
        self.add_generated_event(Event::UDSOrderUpdate(order_update));
        let ghost before = entry@;
        entry.order.status = OrderStatus::FILLED;
        entry.order.filled_quantity = Some(entry.order.quantity);
        entry.order.avg_fill_price = entry.order.price;
        entry.order.update_ts = md_ts;
        assert(entry@.order == before.order.filled(md_ts));
        self.done_orders.push(entry);
        proof {
            let expected = old(self)@.execute_limit_order(md@, before);
            assert(self@.done_orders =~= expected.done_orders);
            assert(self@.generated_events =~= expected.generated_events);
        }
    }

    /// Matches the open orders against market data, in book order: every
    /// order that the market data fills leaves the book and is filled; the
    /// others rest, in book order.
    pub fn update_orders_on_md(&mut self, md: &MarketDataEvent)
        requires
            old(self).wf(),
        ensures
            final(self).receiver() == old(self).receiver(),
            final(self).wf(),
            final(self)@ == old(self)@.update_orders_on_md(md@),
    {
        let mut book: Vec<BookEntry> = Vec::new();
        core::mem::swap(&mut book, &mut self.open_orders);
        let ghost all = book_view(book@);
        let ghost start = self@;
        assert(start == (BrokerState { open_orders: Seq::empty(), ..old(self)@ })) by {
            assert(start.open_orders =~= Seq::empty());
        }
        assert(all == old(self)@.open_orders);
        assert(all.take(0) =~= Seq::empty());
        for entry in it: book
            invariant
                it.seq().len() == all.len(),
                forall|k: int| 0 <= k < all.len() ==> (#[trigger] it.seq()[k])@ == all[k],
                all == old(self)@.open_orders,
                old(self).wf(),
                self.receiver() == old(self).receiver(),
                self@.wf(),
                self@.order_ids == old(self)@.order_ids,
                forall|i: int, k: int|
                    0 <= i < self@.open_orders.len() && it.index() <= k < all.len() ==> (
                    #[trigger] self@.open_orders[i]).id < (#[trigger] all[k]).id,
                self@ == start.execute_limit_orders(md@, all.take(it.index() as int)),
        {
            let ghost idx = it.index() as int;
            assert(all.take(idx + 1).drop_last() =~= all.take(idx));
            assert(all.take(idx + 1).last() == entry@);
            assert(all[idx] == entry@);
            assert(old(self)@.open_orders[idx].booked_in(old(self)@.order_ids));
            proof {
                lemma_execute_limit_order_keeps_wf(self@, md@, entry@);
                assert forall|i: int, k: int|
                    0 <= i < self@.execute_limit_order(md@, entry@).open_orders.len() && idx + 1
                        <= k < all.len() implies (#[trigger] self@.execute_limit_order(
                    md@,
                    entry@,
                ).open_orders[i]).id < (#[trigger] all[k]).id by {
                    assert(all[idx].id < all[k].id);
                }
            }
            self.execute_limit_order(md, entry);
        }
        assert(all.take(all.len() as int) =~= all);
        proof {
            lemma_matching_keeps_account(old(self)@, md@);
        }
    }

    /// A tick of time `ts` without market data, at which `incoming` arrived
    /// from the strategy: the requests are processed, and every event that
    /// this generated is handed out, in the order of generation.
    pub fn tick(&mut self, incoming: Vec<ExchangeRequest>, ts: Timestamp) -> (r: Vec<Event>)
        requires
            old(self).wf(),
        ensures
            final(self).receiver() == old(self).receiver(),
            final(self).wf(),
            final(self)@ == old(self)@.after_timestamp(requests_view(incoming@), ts).drained(),
            events_view(r@) == old(self)@.after_timestamp(
                requests_view(incoming@),
                ts,
            ).generated_events,
    {
        self.last_ts = ts;
        self.process_requests(incoming, ts);
        self.get_generated_events()
    }

    /// A tick that brings market data of this exchange, at which `incoming`
    /// arrived from the strategy: the market data is forwarded with the time
    /// at which the strategy sees it, the requests are processed, the open
    /// orders are matched against the market data, and every event that
    /// this generated is handed out, in the order of generation.
    pub fn tick_market_data(&mut self, incoming: Vec<ExchangeRequest>, md: &MarketDataEvent) -> (r:
        Vec<Event>)
        requires
            old(self).wf(),
        ensures
            final(self).receiver() == old(self).receiver(),
            final(self).wf(),
            final(self)@ == old(self)@.after_market_data(requests_view(incoming@), md@).drained(),
            events_view(r@) == old(self)@.after_market_data(
                requests_view(incoming@),
                md@,
            ).generated_events,
    {
        let md_ts = md.exchange_timestamp();
        self.last_ts = md_ts;
        let mut md_forward = md.clone();
        md_forward.set_timestamp(add_latency(md_ts, self.wire_latency));
        self.add_generated_event(Event::from(md_forward));
        self.process_requests(incoming, md_ts);
        self.update_orders_on_md(md);
        self.get_generated_events()
    }
}

impl SimulatedBroker for SimBroker {
    open spec fn ready(&self) -> bool {
        self.wf() && self@.quiet()
    }

    open spec fn exchange_name(&self) -> Seq<char> {
        self@.exchange
    }

    open spec fn latency(&self) -> Latency {
        self@.wire_latency
    }

    /// The name of the exchange.
    fn exchange(&self) -> (r: Exchange) {
        self.exchange.clone()
    }

    /// The delay between strategy and venue, each way.
    fn wire_latency(&self) -> (r: Latency) {
        self.wire_latency
    }

    /// A tick of time `ts` without market data. The requests that are on the
    /// queue of the broker right now are taken off it and processed as
    /// `tick` does; which requests those are is up to the queue.
    fn on_new_timestamp(&mut self, ts: Timestamp) -> (r: Vec<Event>)
        ensures
            final(self).receiver() == old(self).receiver(),
            exists|taken: Vec<ExchangeRequest>|
                {
                    &&& #[trigger] taken_from(old(self).receiver(), taken)
                    &&& final(self)@ == old(self)@.after_timestamp(
                        requests_view(taken@),
                        ts,
                    ).drained()
                    &&& events_view(r@) == old(self)@.after_timestamp(
                        requests_view(taken@),
                        ts,
                    ).generated_events
                },
    {
        let incoming = take_pending(&self.incoming_request_receiver);
        proof {
            lemma_timestamp_tick_events(self@, requests_view(incoming@), ts);
        }
        let events = self.tick(incoming, ts);
        assert forall|i: int| 0 <= i < events.len() implies !(#[trigger] events[i])@.is_market_data() by {
            assert(events_view(events@)[i] == events[i]@);
        }
        events
    }

    /// A tick that brings market data of this exchange. The requests that
    /// are on the queue right now are processed as `tick_market_data` does;
    /// which requests those are is up to the queue.
    fn on_new_market_data(&mut self, md: &MarketDataEvent) -> (r: Vec<Event>)
        ensures
            final(self).receiver() == old(self).receiver(),
            exists|taken: Vec<ExchangeRequest>|
                {
                    &&& #[trigger] taken_from(old(self).receiver(), taken)
                    &&& final(self)@ == old(self)@.after_market_data(
                        requests_view(taken@),
                        md@,
                    ).drained()
                    &&& events_view(r@) == old(self)@.after_market_data(
                        requests_view(taken@),
                        md@,
                    ).generated_events
                },
    {
        let incoming = take_pending(&self.incoming_request_receiver);
        proof {
            lemma_market_data_tick_events(self@, requests_view(incoming@), md@);
        }
        let events = self.tick_market_data(incoming, md);
        assert(events_view(events@)[0] == events[0]@);
        assert forall|i: int| 1 <= i < events.len() implies !(#[trigger] events[i])@.is_market_data() by {
            assert(events_view(events@)[i] == events[i]@);
        }
        events
    }

    /// When the strategy sees the market data: its venue time plus the wire
    /// latency.
    fn estimate_market_data_timestamp(&self, md: &MarketDataEvent) -> (r: Timestamp) {
        add_latency(md.exchange_timestamp(), self.wire_latency)
    }
}

} // verus!
