//! The events that the engine delivers to a strategy.

use vstd::prelude::*;
use vstd::std_specs::convert::FromSpecImpl;
use crate::market_data::{MarketDataEvent, MarketDataEventView, Quote, QuoteView, Trade, TradeView};
use crate::types::{
    ClientOrderId, EventId, Exchange, ExchangeOrderId, ExchangeRequestID, ExecutionType,
    OrderStatus, OrderType, Price, Quantity, Side, Symbol, TimeInForce, Timestamp,
};

verus! {

/// The model of an optional string.
pub open spec fn opt_view(s: Option<String>) -> Option<Seq<char>> {
    match s {
        Some(v) => Some(v@),
        None => None,
    }
}

/// Copies an optional string.
pub fn clone_opt_string(s: &Option<String>) -> (r: Option<String>)
    ensures
        r == *s,
{
    match s {
        Some(v) => Some(v.clone()),
        None => None,
    }
}

/// Acknowledges a new-order request: the venue took the order.
#[derive(Debug, PartialEq, Eq)]
pub struct NewOrderAccepted {
    pub event_id: EventId,
    pub request_id: Option<ExchangeRequestID>,
    pub timestamp: Timestamp,
    pub exchange_timestamp: Timestamp,
    pub client_order_id: ClientOrderId,
    pub exchange_order_id: ExchangeOrderId,
    pub exchange: Exchange,
    pub symbol: Symbol,
}

/// The model of a `NewOrderAccepted`.
pub struct NewOrderAcceptedView {
    pub event_id: Seq<char>,
    pub request_id: Option<Seq<char>>,
    pub timestamp: Timestamp,
    pub exchange_timestamp: Timestamp,
    pub client_order_id: Seq<char>,
    pub exchange_order_id: Seq<char>,
    pub exchange: Seq<char>,
    pub symbol: Seq<char>,
}

impl View for NewOrderAccepted {
    type V = NewOrderAcceptedView;

    open spec fn view(&self) -> NewOrderAcceptedView {
        NewOrderAcceptedView {
            event_id: self.event_id@,
            request_id: opt_view(self.request_id),
            timestamp: self.timestamp,
            exchange_timestamp: self.exchange_timestamp,
            client_order_id: self.client_order_id@,
            exchange_order_id: self.exchange_order_id@,
            exchange: self.exchange@,
            symbol: self.symbol@,
        }
    }
}

impl Clone for NewOrderAccepted {
    fn clone(&self) -> (r: Self)
        ensures
            r == *self,
    {
        NewOrderAccepted {
            event_id: self.event_id.clone(),
            request_id: clone_opt_string(&self.request_id),
            timestamp: self.timestamp,
            exchange_timestamp: self.exchange_timestamp,
            client_order_id: self.client_order_id.clone(),
            exchange_order_id: self.exchange_order_id.clone(),
            exchange: self.exchange.clone(),
            symbol: self.symbol.clone(),
        }
    }
}

/// Answers a new-order request that the venue refused.
#[derive(Debug, PartialEq, Eq)]
pub struct NewOrderRejected {
    pub event_id: EventId,
    pub request_id: Option<ExchangeRequestID>,
    pub timestamp: Timestamp,
    pub exchange_timestamp: Timestamp,
    pub client_order_id: ClientOrderId,
    pub reason: String,
    pub exchange: Exchange,
    pub symbol: Symbol,
}

/// The model of a `NewOrderRejected`.
pub struct NewOrderRejectedView {
    pub event_id: Seq<char>,
    pub request_id: Option<Seq<char>>,
    pub timestamp: Timestamp,
    pub exchange_timestamp: Timestamp,
    pub client_order_id: Seq<char>,
    pub reason: Seq<char>,
    pub exchange: Seq<char>,
    pub symbol: Seq<char>,
}

impl View for NewOrderRejected {
    type V = NewOrderRejectedView;

    open spec fn view(&self) -> NewOrderRejectedView {
        NewOrderRejectedView {
            event_id: self.event_id@,
            request_id: opt_view(self.request_id),
            timestamp: self.timestamp,
            exchange_timestamp: self.exchange_timestamp,
            client_order_id: self.client_order_id@,
            reason: self.reason@,
            exchange: self.exchange@,
            symbol: self.symbol@,
        }
    }
}

impl Clone for NewOrderRejected {
    fn clone(&self) -> (r: Self)
        ensures
            r == *self,
    {
        NewOrderRejected {
            event_id: self.event_id.clone(),
            request_id: clone_opt_string(&self.request_id),
            timestamp: self.timestamp,
            exchange_timestamp: self.exchange_timestamp,
            client_order_id: self.client_order_id.clone(),
            reason: self.reason.clone(),
            exchange: self.exchange.clone(),
            symbol: self.symbol.clone(),
        }
    }
}

/// Acknowledges a cancel request: the order is canceled.
#[derive(Debug, PartialEq, Eq)]
pub struct CancelOrderAccepted {
    pub event_id: EventId,
    pub request_id: Option<ExchangeRequestID>,
    pub timestamp: Timestamp,
    pub exchange_timestamp: Timestamp,
    pub client_order_id: ClientOrderId,
    pub exchange_order_id: ExchangeOrderId,
    pub exchange: Exchange,
    pub symbol: Symbol,
}

/// The model of a `CancelOrderAccepted`.
pub struct CancelOrderAcceptedView {
    pub event_id: Seq<char>,
    pub request_id: Option<Seq<char>>,
    pub timestamp: Timestamp,
    pub exchange_timestamp: Timestamp,
    pub client_order_id: Seq<char>,
    pub exchange_order_id: Seq<char>,
    pub exchange: Seq<char>,
    pub symbol: Seq<char>,
}

impl View for CancelOrderAccepted {
    type V = CancelOrderAcceptedView;

    open spec fn view(&self) -> CancelOrderAcceptedView {
        CancelOrderAcceptedView {
            event_id: self.event_id@,
            request_id: opt_view(self.request_id),
            timestamp: self.timestamp,
            exchange_timestamp: self.exchange_timestamp,
            client_order_id: self.client_order_id@,
            exchange_order_id: self.exchange_order_id@,
            exchange: self.exchange@,
            symbol: self.symbol@,
        }
    }
}

impl Clone for CancelOrderAccepted {
    fn clone(&self) -> (r: Self)
        ensures
            r == *self,
    {
        CancelOrderAccepted {
            event_id: self.event_id.clone(),
            request_id: clone_opt_string(&self.request_id),
            timestamp: self.timestamp,
            exchange_timestamp: self.exchange_timestamp,
            client_order_id: self.client_order_id.clone(),
            exchange_order_id: self.exchange_order_id.clone(),
            exchange: self.exchange.clone(),
            symbol: self.symbol.clone(),
        }
    }
}

/// Answers a cancel request that the venue refused.
#[derive(Debug, PartialEq, Eq)]
pub struct CancelOrderRejected {
    pub event_id: EventId,
    pub request_id: Option<ExchangeRequestID>,
    pub timestamp: Timestamp,
    pub exchange_timestamp: Timestamp,
    pub client_order_id: ClientOrderId,
    pub exchange_order_id: Option<ExchangeOrderId>,
    pub reason: String,
    pub exchange: Exchange,
    pub symbol: Symbol,
}

/// The model of a `CancelOrderRejected`.
pub struct CancelOrderRejectedView {
    pub event_id: Seq<char>,
    pub request_id: Option<Seq<char>>,
    pub timestamp: Timestamp,
    pub exchange_timestamp: Timestamp,
    pub client_order_id: Seq<char>,
    pub exchange_order_id: Option<Seq<char>>,
    pub reason: Seq<char>,
    pub exchange: Seq<char>,
    pub symbol: Seq<char>,
}

impl View for CancelOrderRejected {
    type V = CancelOrderRejectedView;

    open spec fn view(&self) -> CancelOrderRejectedView {
        CancelOrderRejectedView {
            event_id: self.event_id@,
            request_id: opt_view(self.request_id),
            timestamp: self.timestamp,
            exchange_timestamp: self.exchange_timestamp,
            client_order_id: self.client_order_id@,
            exchange_order_id: opt_view(self.exchange_order_id),
            reason: self.reason@,
            exchange: self.exchange@,
            symbol: self.symbol@,
        }
    }
}

impl Clone for CancelOrderRejected {
    fn clone(&self) -> (r: Self)
        ensures
            r == *self,
    {
        CancelOrderRejected {
            event_id: self.event_id.clone(),
            request_id: clone_opt_string(&self.request_id),
            timestamp: self.timestamp,
            exchange_timestamp: self.exchange_timestamp,
            client_order_id: self.client_order_id.clone(),
            exchange_order_id: clone_opt_string(&self.exchange_order_id),
            reason: self.reason.clone(),
            exchange: self.exchange.clone(),
            symbol: self.symbol.clone(),
        }
    }
}

/// An update of an order on the user data stream.
#[derive(Debug, PartialEq, Eq)]
pub struct OrderUpdate {
    pub event_id: EventId,
    pub timestamp: Timestamp,
    pub exchange_timestamp: Timestamp,
    pub symbol: Symbol,
    pub exchange: Exchange,
    pub side: Side,
    pub client_order_id: Option<ClientOrderId>,
    pub exchange_order_id: Option<ExchangeOrderId>,
    pub order_type: Option<OrderType>,
    pub time_in_force: Option<TimeInForce>,
    pub original_qty: Quantity,
    pub original_price: Option<Price>,
    pub average_price: Option<Price>,
    pub stop_price: Option<Price>,
    pub execution_type: ExecutionType,
    pub order_status: OrderStatus,
    pub last_filled_qty: Option<Quantity>,
    pub accumulated_filled_qty: Option<Quantity>,
    pub last_filled_price: Option<Price>,
    pub last_trade_time: Option<Timestamp>,
}

/// The model of an `OrderUpdate`.
pub struct OrderUpdateView {
    pub event_id: Seq<char>,
    pub timestamp: Timestamp,
    pub exchange_timestamp: Timestamp,
    pub symbol: Seq<char>,
    pub exchange: Seq<char>,
    pub side: Side,
    pub client_order_id: Option<Seq<char>>,
    pub exchange_order_id: Option<Seq<char>>,
    pub order_type: Option<OrderType>,
    pub time_in_force: Option<TimeInForce>,
    pub original_qty: Quantity,
    pub original_price: Option<Price>,
    pub average_price: Option<Price>,
    pub stop_price: Option<Price>,
    pub execution_type: ExecutionType,
    pub order_status: OrderStatus,
    pub last_filled_qty: Option<Quantity>,
    pub accumulated_filled_qty: Option<Quantity>,
    pub last_filled_price: Option<Price>,
    pub last_trade_time: Option<Timestamp>,
}

impl View for OrderUpdate {
    type V = OrderUpdateView;

    open spec fn view(&self) -> OrderUpdateView {
        OrderUpdateView {
            event_id: self.event_id@,
            timestamp: self.timestamp,
            exchange_timestamp: self.exchange_timestamp,
            symbol: self.symbol@,
            exchange: self.exchange@,
            side: self.side,
            client_order_id: opt_view(self.client_order_id),
            exchange_order_id: opt_view(self.exchange_order_id),
            order_type: self.order_type,
            time_in_force: self.time_in_force,
            original_qty: self.original_qty,
            original_price: self.original_price,
            average_price: self.average_price,
            stop_price: self.stop_price,
            execution_type: self.execution_type,
            order_status: self.order_status,
            last_filled_qty: self.last_filled_qty,
            accumulated_filled_qty: self.accumulated_filled_qty,
            last_filled_price: self.last_filled_price,
            last_trade_time: self.last_trade_time,
        }
    }
}

impl Clone for OrderUpdate {
    fn clone(&self) -> (r: Self)
        ensures
            r == *self,
    {
        OrderUpdate {
            event_id: self.event_id.clone(),
            timestamp: self.timestamp,
            exchange_timestamp: self.exchange_timestamp,
            symbol: self.symbol.clone(),
            exchange: self.exchange.clone(),
            side: self.side,
            client_order_id: clone_opt_string(&self.client_order_id),
            exchange_order_id: clone_opt_string(&self.exchange_order_id),
            order_type: self.order_type,
            time_in_force: self.time_in_force,
            original_qty: self.original_qty,
            original_price: self.original_price,
            average_price: self.average_price,
            stop_price: self.stop_price,
            execution_type: self.execution_type,
            order_status: self.order_status,
            last_filled_qty: self.last_filled_qty,
            accumulated_filled_qty: self.accumulated_filled_qty,
            last_filled_price: self.last_filled_price,
            last_trade_time: self.last_trade_time,
        }
    }
}

/// An event as a strategy receives it: market data, the answer to one of its
/// requests, or an update of one of its orders.
#[derive(Debug, PartialEq, Eq)]
pub enum Event {
    NewMarketTrade(Trade),
    NewQuote(Quote),
    ResponseNewOrderAccepted(NewOrderAccepted),
    ResponseNewOrderRejected(NewOrderRejected),
    ResponseCancelOrderAccepted(CancelOrderAccepted),
    ResponseCancelOrderRejected(CancelOrderRejected),
    UDSOrderUpdate(OrderUpdate),
}

/// The model of an `Event`.
pub enum EventView {
    NewMarketTrade(TradeView),
    NewQuote(QuoteView),
    ResponseNewOrderAccepted(NewOrderAcceptedView),
    ResponseNewOrderRejected(NewOrderRejectedView),
    ResponseCancelOrderAccepted(CancelOrderAcceptedView),
    ResponseCancelOrderRejected(CancelOrderRejectedView),
    UDSOrderUpdate(OrderUpdateView),
}

impl View for Event {
    type V = EventView;

    open spec fn view(&self) -> EventView {
        match self {
            Event::NewMarketTrade(x) => EventView::NewMarketTrade(x@),
            Event::NewQuote(x) => EventView::NewQuote(x@),
            Event::ResponseNewOrderAccepted(x) => EventView::ResponseNewOrderAccepted(x@),
            Event::ResponseNewOrderRejected(x) => EventView::ResponseNewOrderRejected(x@),
            Event::ResponseCancelOrderAccepted(x) => EventView::ResponseCancelOrderAccepted(x@),
            Event::ResponseCancelOrderRejected(x) => EventView::ResponseCancelOrderRejected(x@),
            Event::UDSOrderUpdate(x) => EventView::UDSOrderUpdate(x@),
        }
    }
}

impl Clone for Event {
    fn clone(&self) -> (r: Self)
        ensures
            r == *self,
    {
        match self {
            Event::NewMarketTrade(x) => Event::NewMarketTrade(x.clone()),
            Event::NewQuote(x) => Event::NewQuote(x.clone()),
            Event::ResponseNewOrderAccepted(x) => Event::ResponseNewOrderAccepted(x.clone()),
            Event::ResponseNewOrderRejected(x) => Event::ResponseNewOrderRejected(x.clone()),
            Event::ResponseCancelOrderAccepted(x) => Event::ResponseCancelOrderAccepted(x.clone()),
            Event::ResponseCancelOrderRejected(x) => Event::ResponseCancelOrderRejected(x.clone()),
            Event::UDSOrderUpdate(x) => Event::UDSOrderUpdate(x.clone()),
        }
    }
}

impl EventView {
    /// When the strategy sees the event.
    pub open spec fn timestamp(self) -> Timestamp {
        match self {
            EventView::NewMarketTrade(x) => x.received_timestamp,
            EventView::NewQuote(x) => x.received_timestamp,
            EventView::ResponseNewOrderAccepted(x) => x.timestamp,
            EventView::ResponseNewOrderRejected(x) => x.timestamp,
            EventView::ResponseCancelOrderAccepted(x) => x.timestamp,
            EventView::ResponseCancelOrderRejected(x) => x.timestamp,
            EventView::UDSOrderUpdate(x) => x.timestamp,
        }
    }

    /// When the event happened at the venue.
    pub open spec fn exchange_timestamp(self) -> Timestamp {
        match self {
            EventView::NewMarketTrade(x) => x.exchange_timestamp,
            EventView::NewQuote(x) => x.exchange_timestamp,
            EventView::ResponseNewOrderAccepted(x) => x.exchange_timestamp,
            EventView::ResponseNewOrderRejected(x) => x.exchange_timestamp,
            EventView::ResponseCancelOrderAccepted(x) => x.exchange_timestamp,
            EventView::ResponseCancelOrderRejected(x) => x.exchange_timestamp,
            EventView::UDSOrderUpdate(x) => x.exchange_timestamp,
        }
    }

    /// The venue the event belongs to.
    pub open spec fn exchange(self) -> Seq<char> {
        match self {
            EventView::NewMarketTrade(x) => x.exchange,
            EventView::NewQuote(x) => x.exchange,
            EventView::ResponseNewOrderAccepted(x) => x.exchange,
            EventView::ResponseNewOrderRejected(x) => x.exchange,
            EventView::ResponseCancelOrderAccepted(x) => x.exchange,
            EventView::ResponseCancelOrderRejected(x) => x.exchange,
            EventView::UDSOrderUpdate(x) => x.exchange,
        }
    }

    /// The instrument the event is about.
    pub open spec fn symbol(self) -> Seq<char> {
        match self {
            EventView::NewMarketTrade(x) => x.symbol,
            EventView::NewQuote(x) => x.symbol,
            EventView::ResponseNewOrderAccepted(x) => x.symbol,
            EventView::ResponseNewOrderRejected(x) => x.symbol,
            EventView::ResponseCancelOrderAccepted(x) => x.symbol,
            EventView::ResponseCancelOrderRejected(x) => x.symbol,
            EventView::UDSOrderUpdate(x) => x.symbol,
        }
    }

    /// Whether the event is market data, as opposed to a broker's answer or
    /// an order update.
    pub open spec fn is_market_data(self) -> bool {
        self is NewMarketTrade || self is NewQuote
    }

    /// The event that forwards a market-data event to the strategy.
    pub open spec fn from_market_data(md: MarketDataEventView) -> EventView {
        match md {
            MarketDataEventView::NewMarketTrade(t) => EventView::NewMarketTrade(t),
            MarketDataEventView::NewQuote(q) => EventView::NewQuote(q),
        }
    }
}

impl Event {
    /// When the strategy sees the event.
    pub fn timestamp(&self) -> (r: Timestamp)
        ensures
            r == self@.timestamp(),
    {
        match self {
            Event::NewMarketTrade(x) => x.received_timestamp,
            Event::NewQuote(x) => x.received_timestamp,
            Event::ResponseNewOrderAccepted(x) => x.timestamp,
            Event::ResponseNewOrderRejected(x) => x.timestamp,
            Event::ResponseCancelOrderAccepted(x) => x.timestamp,
            Event::ResponseCancelOrderRejected(x) => x.timestamp,
            Event::UDSOrderUpdate(x) => x.timestamp,
        }
    }

    /// When the event happened at the venue.
    pub fn exchange_timestamp(&self) -> (r: Timestamp)
        ensures
            r == self@.exchange_timestamp(),
    {
        match self {
            Event::NewMarketTrade(x) => x.exchange_timestamp,
            Event::NewQuote(x) => x.exchange_timestamp,
            Event::ResponseNewOrderAccepted(x) => x.exchange_timestamp,
            Event::ResponseNewOrderRejected(x) => x.exchange_timestamp,
            Event::ResponseCancelOrderAccepted(x) => x.exchange_timestamp,
            Event::ResponseCancelOrderRejected(x) => x.exchange_timestamp,
            Event::UDSOrderUpdate(x) => x.exchange_timestamp,
        }
    }

    /// The venue the event belongs to.
    pub fn exchange(&self) -> (r: Exchange)
        ensures
            r@ == self@.exchange(),
    {
        match self {
            Event::NewMarketTrade(x) => x.exchange.clone(),
            Event::NewQuote(x) => x.exchange.clone(),
            Event::ResponseNewOrderAccepted(x) => x.exchange.clone(),
            Event::ResponseNewOrderRejected(x) => x.exchange.clone(),
            Event::ResponseCancelOrderAccepted(x) => x.exchange.clone(),
            Event::ResponseCancelOrderRejected(x) => x.exchange.clone(),
            Event::UDSOrderUpdate(x) => x.exchange.clone(),
        }
    }

    /// The instrument the event is about.
    pub fn symbol(&self) -> (r: Symbol)
        ensures
            r@ == self@.symbol(),
    {
        match self {
            Event::NewMarketTrade(x) => x.symbol.clone(),
            Event::NewQuote(x) => x.symbol.clone(),
            Event::ResponseNewOrderAccepted(x) => x.symbol.clone(),
            Event::ResponseNewOrderRejected(x) => x.symbol.clone(),
            Event::ResponseCancelOrderAccepted(x) => x.symbol.clone(),
            Event::ResponseCancelOrderRejected(x) => x.symbol.clone(),
            Event::UDSOrderUpdate(x) => x.symbol.clone(),
        }
    }
}

impl From<MarketDataEvent> for Event {
    /// Forwards a market-data event unchanged.
    fn from(md_event: MarketDataEvent) -> (r: Self)
        ensures
            r@ == EventView::from_market_data(md_event@),
    {
        match md_event {
            MarketDataEvent::NewMarketTrade(trade) => Event::NewMarketTrade(trade),
            MarketDataEvent::NewQuote(quote) => Event::NewQuote(quote),
        }
    }
}

impl FromSpecImpl<MarketDataEvent> for Event {
    open spec fn obeys_from_spec() -> bool {
        true
    }

    open spec fn from_spec(md_event: MarketDataEvent) -> Event {
        match md_event {
            MarketDataEvent::NewMarketTrade(trade) => Event::NewMarketTrade(trade),
            MarketDataEvent::NewQuote(quote) => Event::NewQuote(quote),
        }
    }
}

/// The models of a sequence of events, in order.
pub open spec fn events_view(s: Seq<Event>) -> Seq<EventView> {
    Seq::new(s.len(), |i: int| s[i]@)
}

} // verus!
