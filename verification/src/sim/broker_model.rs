//! The model of a simulated broker: its state as plain mathematical values
//! and each of its transitions as a function on that state.
//!
//! The executable broker is proved to follow these functions step by step;
//! what holds of every broker is proved of them.

use vstd::prelude::*;
use crate::decimal::{decimal, parse_decimal};
use crate::events::{
    CancelOrderAcceptedView, CancelOrderRejectedView, EventView, NewOrderAcceptedView,
    NewOrderRejectedView, OrderUpdateView,
};
use crate::gateway_router::{CancelOrderRequestView, ExchangeRequestView, NewOrderRequestView};
use crate::market_data::MarketDataEventView;
use crate::order::OrderView;
use crate::types::{
    ts_add, ExecutionType, Latency, OrderStatus, OrderType, Side, Timestamp,
};

verus! {

/// The numbers a broker counts its orders, requests and events with.
pub type InternalID = u64;

/// The number after `n`. The largest number is its own successor.
pub open spec fn next_id(n: InternalID) -> InternalID {
    if n < u64::MAX {
        (n + 1) as u64
    } else {
        n
    }
}

/// Why a new-order request with a client order id already in use is refused.
pub open spec fn reason_duplicate_client_order_id() -> Seq<char> {
    "duplicate client order id"@
}

/// Why a cancel request whose order id is not a number is refused.
pub open spec fn reason_invalid_exchange_order_id() -> Seq<char> {
    "invalid exchange order id"@
}

/// Why a cancel request for an order that is not open is refused.
pub open spec fn reason_order_not_found() -> Seq<char> {
    "order not found"@
}

/// A request that reached the broker and waits for its time.
pub struct PendingRequestView {
    /// When the request reaches the venue: its creation time plus the wire
    /// latency.
    pub ack_timestamp: Timestamp,
    pub request_id: InternalID,
    pub exchange_request: ExchangeRequestView,
}

/// An order on the broker's books, under the number the broker gave it.
pub struct BookEntryView {
    pub id: InternalID,
    pub order: OrderView,
}

impl BookEntryView {
    /// Whether the entry agrees with the broker's record of the identifiers
    /// it gave out: its number is one of those given out, the order carries
    /// that number as its exchange order id, and the client order id
    /// recorded for that number is the order's.
    pub open spec fn booked_in(self, order_ids: Seq<Seq<char>>) -> bool {
        &&& 1 <= self.id <= order_ids.len()
        &&& self.order.exchange_order_id == Some(decimal(self.id as nat))
        &&& self.order.client_order_id == order_ids[self.id - 1]
    }
}

/// Whether an order numbered `id` is on the book.
pub open spec fn on_book(book: Seq<BookEntryView>, id: InternalID) -> bool {
    exists|i: int| 0 <= i < book.len() && (#[trigger] book[i]).id == id
}

/// Whether the market data crosses the price of the order: a quote whose far
/// side reaches the order's price, or a trade print beyond it. In strict
/// execution a print at the order's price does not cross.
pub open spec fn crosses(order: OrderView, md: MarketDataEventView, strict: bool) -> bool {
    match order.price {
        None => false,
        Some(price) => match md {
            MarketDataEventView::NewQuote(q) => match order.side {
                Side::BUY => q.ask <= price,
                Side::SELL => q.bid >= price,
            },
            MarketDataEventView::NewMarketTrade(t) => match order.side {
                Side::BUY => if strict {
                    t.last_price < price
                } else {
                    t.last_price <= price
                },
                Side::SELL => if strict {
                    t.last_price > price
                } else {
                    t.last_price >= price
                },
            },
        },
    }
}

/// Whether the market data fills the order: same instrument, a LIMIT order
/// that existed at the venue when the market data was produced, and a price
/// that the market data crosses.
pub open spec fn fills(order: OrderView, md: MarketDataEventView, strict: bool) -> bool {
    &&& order.symbol == md.symbol()
    &&& order.order_type == OrderType::LIMIT
    &&& order.create_ts <= md.exchange_timestamp()
    &&& crosses(order, md, strict)
}

/// The entries that the market data fills, in book order.
pub open spec fn matched(open: Seq<BookEntryView>, md: MarketDataEventView, strict: bool) -> Seq<
    BookEntryView,
>
    decreases open.len(),
{
    if open.len() == 0 {
        Seq::empty()
    } else if fills(open.last().order, md, strict) {
        matched(open.drop_last(), md, strict).push(open.last())
    } else {
        matched(open.drop_last(), md, strict)
    }
}

/// The entries that the market data leaves on the book, in book order.
pub open spec fn resting(open: Seq<BookEntryView>, md: MarketDataEventView, strict: bool) -> Seq<
    BookEntryView,
>
    decreases open.len(),
{
    if open.len() == 0 {
        Seq::empty()
    } else if fills(open.last().order, md, strict) {
        resting(open.drop_last(), md, strict)
    } else {
        resting(open.drop_last(), md, strict).push(open.last())
    }
}

/// The requests whose time has come at `ts`, in arrival order.
pub open spec fn due(pending: Seq<PendingRequestView>, ts: Timestamp) -> Seq<PendingRequestView>
    decreases pending.len(),
{
    if pending.len() == 0 {
        Seq::empty()
    } else if pending.last().ack_timestamp <= ts {
        due(pending.drop_last(), ts).push(pending.last())
    } else {
        due(pending.drop_last(), ts)
    }
}

/// The requests that still wait at `ts`, in arrival order.
pub open spec fn waiting(pending: Seq<PendingRequestView>, ts: Timestamp) -> Seq<PendingRequestView>
    decreases pending.len(),
{
    if pending.len() == 0 {
        Seq::empty()
    } else if pending.last().ack_timestamp <= ts {
        waiting(pending.drop_last(), ts)
    } else {
        waiting(pending.drop_last(), ts).push(pending.last())
    }
}

/// Where the order numbered `id` stands on a book: the first entry with that
/// number, if there is one.
pub open spec fn position(book: Seq<BookEntryView>, id: InternalID) -> Option<int>
    decreases book.len(),
{
    if book.len() == 0 {
        None
    } else {
        match position(book.drop_last(), id) {
            Some(i) => Some(i),
            None => if book.last().id == id {
                Some(book.len() - 1)
            } else {
                None
            },
        }
    }
}

/// The state of a broker.
pub struct BrokerState {
    pub exchange: Seq<char>,
    pub wire_latency: Latency,
    pub internal_latency: Latency,
    pub strict_execution: bool,
    /// The time of the last tick.
    pub last_ts: Timestamp,
    /// The number of the last order accepted.
    pub last_exchange_order_id: InternalID,
    /// The number of the last request taken in.
    pub last_request_id: InternalID,
    /// The number of the last event published with an identifier.
    pub public_event_id: InternalID,
    /// The orders on the book, in the order of their numbers.
    pub open_orders: Seq<BookEntryView>,
    /// The orders that were filled or canceled, in the order in which that
    /// happened.
    pub done_orders: Seq<BookEntryView>,
    /// The client order id of every order ever accepted: entry `k` is that
    /// of order number `k + 1`.
    pub order_ids: Seq<Seq<char>>,
    /// The requests that wait for their time, in arrival order.
    pub pending_requests: Seq<PendingRequestView>,
    /// The events generated since the last drain, in the order in which they
    /// were generated.
    pub generated_events: Seq<EventView>,
}

impl BrokerState {
    /// A broker that has seen nothing yet.
    pub open spec fn initial(
        exchange: Seq<char>,
        strict_execution: bool,
        wire_latency: Latency,
        internal_latency: Latency,
    ) -> BrokerState {
        BrokerState {
            exchange,
            wire_latency,
            internal_latency,
            strict_execution,
            last_ts: 0,
            last_exchange_order_id: 0,
            last_request_id: 0,
            public_event_id: 0,
            open_orders: Seq::empty(),
            done_orders: Seq::empty(),
            order_ids: Seq::empty(),
            pending_requests: Seq::empty(),
            generated_events: Seq::empty(),
        }
    }

    /// What holds of the state of every broker.
    ///
    /// The orders are numbered 1, 2, 3, ... in the order in which they were
    /// accepted, and no two of them have the same client order id. The book
    /// holds `NEW` orders in the order of their numbers; the done orders are
    /// filled or canceled; every entry agrees with the record of
    /// identifiers.
    pub open spec fn wf(self) -> bool {
        &&& self.last_exchange_order_id == self.order_ids.len()
        &&& self.order_ids.no_duplicates()
        &&& forall|i: int|
            0 <= i < self.open_orders.len() ==> (#[trigger] self.open_orders[i]).booked_in(self.order_ids)
                && self.open_orders[i].order.status == OrderStatus::NEW
        &&& forall|i: int, j: int|
            0 <= i < j < self.open_orders.len() ==> (#[trigger] self.open_orders[i]).id < (
            #[trigger] self.open_orders[j]).id
        &&& forall|i: int|
            0 <= i < self.done_orders.len() ==> (#[trigger] self.done_orders[i]).booked_in(self.order_ids)
                && (self.done_orders[i].order.status == OrderStatus::FILLED
                || self.done_orders[i].order.status == OrderStatus::CANCELED)
    }

    /// Whether every order that was ever accepted is accounted for: it is
    /// either open or done, never both, and never twice.
    pub open spec fn accounted(self) -> bool {
        &&& forall|i: int, j: int|
            0 <= i < j < self.done_orders.len() ==> (#[trigger] self.done_orders[i]).id != (
            #[trigger] self.done_orders[j]).id
        &&& forall|i: int, j: int|
            0 <= i < self.open_orders.len() && 0 <= j < self.done_orders.len() ==> (
            #[trigger] self.open_orders[i]).id != (#[trigger] self.done_orders[j]).id
        &&& forall|id: InternalID|
            1 <= id <= self.last_exchange_order_id ==> #[trigger] on_book(self.open_orders, id)
                || on_book(self.done_orders, id)
    }

    /// Whether the two states are of the same venue: same exchange, same
    /// latencies, same execution mode.
    pub open spec fn same_venue(self, other: BrokerState) -> bool {
        &&& self.exchange == other.exchange
        &&& self.wire_latency == other.wire_latency
        &&& self.internal_latency == other.internal_latency
        &&& self.strict_execution == other.strict_execution
    }

    /// Whether the buffer of generated events is empty, as it is between
    /// two ticks.
    pub open spec fn quiet(self) -> bool {
        self.generated_events.len() == 0
    }

    /// When the strategy sees a market-data event: its venue time plus the
    /// wire latency.
    pub open spec fn market_data_timestamp(self, md: MarketDataEventView) -> Timestamp {
        ts_add(md.exchange_timestamp(), self.wire_latency)
    }

    /// When the venue acts on a request that reached it at `ack`.
    pub open spec fn venue_ts(self, ack: Timestamp) -> Timestamp {
        ts_add(ack, self.internal_latency)
    }

    /// When the strategy sees what the venue did at `exchange_ts`.
    pub open spec fn visible_ts(self, exchange_ts: Timestamp) -> Timestamp {
        ts_add(exchange_ts, self.wire_latency)
    }

    /// The identifier of the next event to publish.
    pub open spec fn next_event_id(self) -> Seq<char> {
        decimal(next_id(self.public_event_id) as nat)
    }

    /// The state after an event was put in the buffer without an identifier
    /// of its own.
    pub open spec fn add_generated_event(self, event: EventView) -> BrokerState {
        BrokerState { generated_events: self.generated_events.push(event), ..self }
    }

    /// The state after an event that carries `next_event_id` was published.
    pub open spec fn publish(self, event: EventView) -> BrokerState {
        BrokerState {
            public_event_id: next_id(self.public_event_id),
            generated_events: self.generated_events.push(event),
            ..self
        }
    }

    /// Whether an order was ever accepted under this client order id.
    pub open spec fn knows_client_order_id(self, client_order_id: Seq<char>) -> bool {
        self.order_ids.contains(client_order_id)
    }

    /// The refusal of a new-order request.
    pub open spec fn new_order_rejected(
        self,
        request: NewOrderRequestView,
        ack: Timestamp,
        reason: Seq<char>,
    ) -> EventView {
        EventView::ResponseNewOrderRejected(
            NewOrderRejectedView {
                event_id: self.next_event_id(),
                request_id: Some(request.request_id),
                timestamp: self.visible_ts(self.venue_ts(ack)),
                exchange_timestamp: self.venue_ts(ack),
                client_order_id: request.client_order_id,
                reason,
                exchange: request.exchange,
                symbol: request.symbol,
            },
        )
    }

    /// The acknowledgment of a new-order request, for the order numbered
    /// `id`.
    pub open spec fn new_order_accepted(
        self,
        request: NewOrderRequestView,
        ack: Timestamp,
        id: InternalID,
    ) -> EventView {
        EventView::ResponseNewOrderAccepted(
            NewOrderAcceptedView {
                event_id: self.next_event_id(),
                request_id: Some(request.request_id),
                timestamp: self.visible_ts(self.venue_ts(ack)),
                exchange_timestamp: self.venue_ts(ack),
                client_order_id: request.client_order_id,
                exchange_order_id: decimal(id as nat),
                exchange: request.exchange,
                symbol: request.symbol,
            },
        )
    }

    /// The order update that announces the new order numbered `id`.
    pub open spec fn new_order_update(
        self,
        request: NewOrderRequestView,
        ack: Timestamp,
        id: InternalID,
    ) -> EventView {
        EventView::UDSOrderUpdate(
            OrderUpdateView {
                event_id: self.next_event_id(),
                timestamp: self.visible_ts(self.venue_ts(ack)),
                exchange_timestamp: self.venue_ts(ack),
                symbol: request.symbol,
                exchange: request.exchange,
                side: request.side,
                client_order_id: Some(request.client_order_id),
                exchange_order_id: Some(decimal(id as nat)),
                order_type: Some(request.order_type),
                time_in_force: Some(request.time_in_force),
                original_qty: request.quantity,
                original_price: request.price,
                average_price: None,
                stop_price: None,
                execution_type: ExecutionType::NEW,
                order_status: OrderStatus::NEW,
                last_filled_qty: None,
                accumulated_filled_qty: None,
                last_filled_price: None,
                last_trade_time: None,
            },
        )
    }

    /// The order that the broker books for a request it accepts at `ack`
    /// under the number `id`.
    pub open spec fn booked_order(
        self,
        request: NewOrderRequestView,
        ack: Timestamp,
        id: InternalID,
    ) -> OrderView {
        OrderView::from_request(request, self.venue_ts(ack)).confirmed(
            decimal(id as nat),
            self.venue_ts(ack),
        )
    }

    /// The state after a new-order request that reached the venue at `ack`
    /// was executed.
    ///
    /// A request is refused exactly when its client order id was used
    /// before. Any other is accepted, whatever its type: the order gets the
    /// next number, the acknowledgment and the order update are published,
    /// and the order goes on the book. Only LIMIT orders are ever matched;
    /// an order of another type rests until it is canceled.
    pub open spec fn on_new_order_request(self, request: NewOrderRequestView, ack: Timestamp) -> BrokerState {
        if self.knows_client_order_id(request.client_order_id) {
            self.publish(
                self.new_order_rejected(request, ack, reason_duplicate_client_order_id()),
            )
        } else {
            let id = next_id(self.last_exchange_order_id);
            let accepted = self.publish(self.new_order_accepted(request, ack, id));
            let updated = accepted.publish(accepted.new_order_update(request, ack, id));
            BrokerState {
                last_exchange_order_id: id,
                open_orders: self.open_orders.push(
                    BookEntryView { id, order: self.booked_order(request, ack, id) },
                ),
                order_ids: self.order_ids.push(request.client_order_id),
                ..updated
            }
        }
    }

    /// The refusal of a cancel request.
    pub open spec fn cancel_rejected(
        self,
        request: CancelOrderRequestView,
        ack: Timestamp,
        reason: Seq<char>,
    ) -> EventView {
        EventView::ResponseCancelOrderRejected(
            CancelOrderRejectedView {
                event_id: self.next_event_id(),
                request_id: Some(request.request_id),
                timestamp: self.visible_ts(self.venue_ts(ack)),
                exchange_timestamp: self.venue_ts(ack),
                client_order_id: request.client_order_id,
                exchange_order_id: Some(request.exchange_order_id),
                reason,
                exchange: request.exchange,
                symbol: request.symbol,
            },
        )
    }

    /// The acknowledgment of a cancel request for the order numbered `id`.
    pub open spec fn cancel_accepted(
        self,
        request: CancelOrderRequestView,
        ack: Timestamp,
        id: InternalID,
        order: OrderView,
    ) -> EventView {
        EventView::ResponseCancelOrderAccepted(
            CancelOrderAcceptedView {
                event_id: self.next_event_id(),
                request_id: Some(request.request_id),
                timestamp: self.visible_ts(self.venue_ts(ack)),
                exchange_timestamp: self.venue_ts(ack),
                client_order_id: order.client_order_id,
                exchange_order_id: decimal(id as nat),
                exchange: request.exchange,
                symbol: request.symbol,
            },
        )
    }

    /// The order update that announces the cancellation of the order
    /// numbered `id`.
    pub open spec fn cancel_update(
        self,
        request: CancelOrderRequestView,
        ack: Timestamp,
        id: InternalID,
        order: OrderView,
    ) -> EventView {
        EventView::UDSOrderUpdate(
            OrderUpdateView {
                event_id: self.next_event_id(),
                timestamp: self.visible_ts(self.venue_ts(ack)),
                exchange_timestamp: self.venue_ts(ack),
                symbol: order.symbol,
                exchange: request.exchange,
                side: order.side,
                client_order_id: Some(order.client_order_id),
                exchange_order_id: Some(decimal(id as nat)),
                order_type: Some(order.order_type),
                time_in_force: Some(order.time_in_force),
                original_qty: order.quantity,
                original_price: order.price,
                average_price: order.avg_fill_price,
                stop_price: order.trigger_price,
                execution_type: ExecutionType::CANCELED,
                order_status: OrderStatus::CANCELED,
                last_filled_qty: None,
                accumulated_filled_qty: order.filled_quantity,
                last_filled_price: None,
                last_trade_time: None,
            },
        )
    }

    /// The state after a cancel request that reached the venue at `ack` was
    /// executed.
    ///
    /// The request is refused if its order id is not a number, or if no open
    /// order has that number. Otherwise the order is canceled, the
    /// acknowledgment and the order update are published, and the order
    /// moves from the book to the done orders.
    pub open spec fn on_cancel_order_request(
        self,
        request: CancelOrderRequestView,
        ack: Timestamp,
    ) -> BrokerState {
        match parse_decimal(request.exchange_order_id) {
            None => self.publish(
                self.cancel_rejected(request, ack, reason_invalid_exchange_order_id()),
            ),
            Some(id) => match position(self.open_orders, id) {
                None => self.publish(self.cancel_rejected(request, ack, reason_order_not_found())),
                Some(i) => {
                    let order = self.open_orders[i].order.canceled(ack);
                    let accepted = self.publish(self.cancel_accepted(request, ack, id, order));
                    let updated = accepted.publish(accepted.cancel_update(request, ack, id, order));
                    BrokerState {
                        open_orders: self.open_orders.remove(i),
                        done_orders: self.done_orders.push(BookEntryView { id, order }),
                        ..updated
                    }
                },
            },
        }
    }

    /// The state after a pending request was executed.
    pub open spec fn execute(self, pending: PendingRequestView) -> BrokerState {
        match pending.exchange_request {
            ExchangeRequestView::NewOrder(request) => self.on_new_order_request(
                request,
                pending.ack_timestamp,
            ),
            ExchangeRequestView::CancelOrder(request) => self.on_cancel_order_request(
                request,
                pending.ack_timestamp,
            ),
        }
    }

    /// The state after the requests were executed one after the other.
    pub open spec fn execute_all(self, requests: Seq<PendingRequestView>) -> BrokerState
        decreases requests.len(),
    {
        if requests.len() == 0 {
            self
        } else {
            self.execute_all(requests.drop_last()).execute(requests.last())
        }
    }

    /// The state after one pending request was looked at, at a tick of time
    /// `ts`: a request whose time has come is executed, any other goes back
    /// to the end of the queue.
    pub open spec fn settle(self, pending: PendingRequestView, ts: Timestamp) -> BrokerState {
        if pending.ack_timestamp <= ts {
            self.execute(pending)
        } else {
            BrokerState { pending_requests: self.pending_requests.push(pending), ..self }
        }
    }

    /// The state after the requests were looked at one after the other.
    pub open spec fn settle_all(self, requests: Seq<PendingRequestView>, ts: Timestamp) -> BrokerState
        decreases requests.len(),
    {
        if requests.len() == 0 {
            self
        } else {
            self.settle_all(requests.drop_last(), ts).settle(requests.last(), ts)
        }
    }

    /// The state after every pending request whose time has come at `ts` was
    /// executed, in arrival order. The others keep waiting, in arrival
    /// order.
    pub open spec fn execute_requests_after_ts(self, ts: Timestamp) -> BrokerState {
        BrokerState { pending_requests: Seq::empty(), ..self }.settle_all(self.pending_requests, ts)
    }

    /// The request as it waits at the broker, under the next request number.
    pub open spec fn wrap_request(self, request: ExchangeRequestView) -> PendingRequestView {
        PendingRequestView {
            ack_timestamp: ts_add(request.creation_ts(), self.wire_latency),
            request_id: next_id(self.last_request_id),
            exchange_request: request,
        }
    }

    /// The state after a request arrived from the strategy.
    pub open spec fn enqueue(self, request: ExchangeRequestView) -> BrokerState {
        BrokerState {
            last_request_id: next_id(self.last_request_id),
            pending_requests: self.pending_requests.push(self.wrap_request(request)),
            ..self
        }
    }

    /// The state after the requests arrived, in this order.
    pub open spec fn enqueue_all(self, requests: Seq<ExchangeRequestView>) -> BrokerState
        decreases requests.len(),
    {
        if requests.len() == 0 {
            self
        } else {
            self.enqueue_all(requests.drop_last()).enqueue(requests.last())
        }
    }

    /// The state after the requests arrived at a tick of time `ts`: they are
    /// taken in, and then every pending request whose time has come is
    /// executed.
    pub open spec fn process_requests_on_new_ts(
        self,
        incoming: Seq<ExchangeRequestView>,
        ts: Timestamp,
    ) -> BrokerState {
        self.enqueue_all(incoming).execute_requests_after_ts(ts)
    }

    /// The order update that announces the fill of a book entry by market
    /// data of venue time `md_ts`.
    pub open spec fn fill_update(self, entry: BookEntryView, md_ts: Timestamp) -> EventView {
        EventView::UDSOrderUpdate(
            OrderUpdateView {
                event_id: self.next_event_id(),
                timestamp: self.visible_ts(self.venue_ts(md_ts)),
                exchange_timestamp: self.venue_ts(md_ts),
                symbol: entry.order.symbol,
                exchange: entry.order.exchange,
                side: entry.order.side,
                client_order_id: Some(entry.order.client_order_id),
                exchange_order_id: entry.order.exchange_order_id,
                order_type: Some(entry.order.order_type),
                time_in_force: Some(entry.order.time_in_force),
                original_qty: entry.order.quantity,
                original_price: entry.order.price,
                average_price: entry.order.price,
                stop_price: None,
                execution_type: ExecutionType::TRADE,
                order_status: OrderStatus::FILLED,
                last_filled_qty: Some(entry.order.quantity),
                accumulated_filled_qty: Some(entry.order.quantity),
                last_filled_price: entry.order.price,
                last_trade_time: Some(md_ts),
            },
        )
    }

    /// The state after an entry that left the book was filled: the fill is
    /// published and the filled order joins the done orders.
    pub open spec fn fill(self, entry: BookEntryView, md_ts: Timestamp) -> BrokerState {
        BrokerState {
            done_orders: self.done_orders.push(
                BookEntryView { id: entry.id, order: entry.order.filled(md_ts) },
            ),
            ..self.publish(self.fill_update(entry, md_ts))
        }
    }

    /// The state after one order that was taken off the book was held
    /// against market data: an order that the market data fills is filled,
    /// any other goes back to the end of the book.
    pub open spec fn execute_limit_order(self, md: MarketDataEventView, entry: BookEntryView) -> BrokerState {
        if fills(entry.order, md, self.strict_execution) {
            self.fill(entry, md.exchange_timestamp())
        } else {
            BrokerState { open_orders: self.open_orders.push(entry), ..self }
        }
    }

    /// The state after the orders were held against market data one after
    /// the other.
    pub open spec fn execute_limit_orders(
        self,
        md: MarketDataEventView,
        entries: Seq<BookEntryView>,
    ) -> BrokerState
        decreases entries.len(),
    {
        if entries.len() == 0 {
            self
        } else {
            self.execute_limit_orders(md, entries.drop_last()).execute_limit_order(
                md,
                entries.last(),
            )
        }
    }

    /// The state after the open orders were matched against market data, in
    /// book order: every order that the market data fills leaves the book
    /// and is filled; the others rest, in book order.
    pub open spec fn update_orders_on_md(self, md: MarketDataEventView) -> BrokerState {
        BrokerState { open_orders: Seq::empty(), ..self }.execute_limit_orders(md, self.open_orders)
    }

    /// The state after the buffer of generated events was emptied.
    pub open spec fn drained(self) -> BrokerState {
        BrokerState { generated_events: Seq::empty(), ..self }
    }

    /// The market-data event as the strategy sees it.
    pub open spec fn forwarded(self, md: MarketDataEventView) -> EventView {
        EventView::from_market_data(md.with_timestamp(self.market_data_timestamp(md)))
    }

    /// The state before the drain at a tick of time `ts` without market
    /// data, at which `incoming` arrived.
    pub open spec fn after_timestamp(self, incoming: Seq<ExchangeRequestView>, ts: Timestamp) -> BrokerState {
        BrokerState { last_ts: ts, ..self }.process_requests_on_new_ts(incoming, ts)
    }

    /// The state at a tick that brings market data, at which `incoming`
    /// arrived, at the moment when the open orders are matched: the market
    /// data is forwarded and the requests are processed.
    pub open spec fn before_matching(
        self,
        incoming: Seq<ExchangeRequestView>,
        md: MarketDataEventView,
    ) -> BrokerState {
        BrokerState { last_ts: md.exchange_timestamp(), ..self }.add_generated_event(
            self.forwarded(md),
        ).process_requests_on_new_ts(incoming, md.exchange_timestamp())
    }

    /// The state before the drain at a tick that brings market data, at
    /// which `incoming` arrived: the market data is forwarded, the requests
    /// are processed, and the open orders are matched against it.
    pub open spec fn after_market_data(
        self,
        incoming: Seq<ExchangeRequestView>,
        md: MarketDataEventView,
    ) -> BrokerState {
        self.before_matching(incoming, md).update_orders_on_md(md)
    }
}

} // verus!
