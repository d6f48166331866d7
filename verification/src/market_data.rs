//! Market-data events: top-of-book quotes and trade prints.

use vstd::prelude::*;
use crate::types::{Exchange, Price, Quantity, Symbol, Timestamp};

verus! {

/// A trade print.
#[derive(Debug, PartialEq, Eq)]
pub struct Trade {
    pub symbol: Symbol,
    pub exchange: Exchange,
    pub last_price: Price,
    pub last_size: Quantity,
    /// When the trade happened at the venue.
    pub exchange_timestamp: Timestamp,
    /// When the strategy sees it.
    pub received_timestamp: Timestamp,
}

/// A top-of-book quote.
#[derive(Debug, PartialEq, Eq)]
pub struct Quote {
    pub symbol: Symbol,
    pub exchange: Exchange,
    pub bid: Price,
    pub ask: Price,
    pub bid_size: Option<Quantity>,
    pub ask_size: Option<Quantity>,
    /// When the quote was published at the venue.
    pub exchange_timestamp: Timestamp,
    /// When the strategy sees it.
    pub received_timestamp: Timestamp,
}

/// One event of the market-data stream.
#[derive(Debug, PartialEq, Eq)]
pub enum MarketDataEvent {
    NewMarketTrade(Trade),
    NewQuote(Quote),
}

/// The model of a `Trade`.
pub struct TradeView {
    pub symbol: Seq<char>,
    pub exchange: Seq<char>,
    pub last_price: Price,
    pub last_size: Quantity,
    pub exchange_timestamp: Timestamp,
    pub received_timestamp: Timestamp,
}

/// The model of a `Quote`.
pub struct QuoteView {
    pub symbol: Seq<char>,
    pub exchange: Seq<char>,
    pub bid: Price,
    pub ask: Price,
    pub bid_size: Option<Quantity>,
    pub ask_size: Option<Quantity>,
    pub exchange_timestamp: Timestamp,
    pub received_timestamp: Timestamp,
}

/// The model of a `MarketDataEvent`.
pub enum MarketDataEventView {
    NewMarketTrade(TradeView),
    NewQuote(QuoteView),
}

impl View for Trade {
    type V = TradeView;

    open spec fn view(&self) -> TradeView {
        TradeView {
            symbol: self.symbol@,
            exchange: self.exchange@,
            last_price: self.last_price,
            last_size: self.last_size,
            exchange_timestamp: self.exchange_timestamp,
            received_timestamp: self.received_timestamp,
        }
    }
}

impl View for Quote {
    type V = QuoteView;

    open spec fn view(&self) -> QuoteView {
        QuoteView {
            symbol: self.symbol@,
            exchange: self.exchange@,
            bid: self.bid,
            ask: self.ask,
            bid_size: self.bid_size,
            ask_size: self.ask_size,
            exchange_timestamp: self.exchange_timestamp,
            received_timestamp: self.received_timestamp,
        }
    }
}

impl View for MarketDataEvent {
    type V = MarketDataEventView;

    open spec fn view(&self) -> MarketDataEventView {
        match self {
            MarketDataEvent::NewMarketTrade(t) => MarketDataEventView::NewMarketTrade(t@),
            MarketDataEvent::NewQuote(q) => MarketDataEventView::NewQuote(q@),
        }
    }
}

impl Clone for Trade {
    fn clone(&self) -> (r: Self)
        ensures
            r == *self,
    {
        Trade {
            symbol: self.symbol.clone(),
            exchange: self.exchange.clone(),
            last_price: self.last_price,
            last_size: self.last_size,
            exchange_timestamp: self.exchange_timestamp,
            received_timestamp: self.received_timestamp,
        }
    }
}

impl Clone for Quote {
    fn clone(&self) -> (r: Self)
        ensures
            r == *self,
    {
        Quote {
            symbol: self.symbol.clone(),
            exchange: self.exchange.clone(),
            bid: self.bid,
            ask: self.ask,
            bid_size: self.bid_size,
            ask_size: self.ask_size,
            exchange_timestamp: self.exchange_timestamp,
            received_timestamp: self.received_timestamp,
        }
    }
}

impl Clone for MarketDataEvent {
    fn clone(&self) -> (r: Self)
        ensures
            r == *self,
    {
        match self {
            MarketDataEvent::NewMarketTrade(t) => MarketDataEvent::NewMarketTrade(t.clone()),
            MarketDataEvent::NewQuote(q) => MarketDataEvent::NewQuote(q.clone()),
        }
    }
}

impl MarketDataEventView {
    /// When the event happened at the venue.
    pub open spec fn exchange_timestamp(self) -> Timestamp {
        match self {
            MarketDataEventView::NewMarketTrade(t) => t.exchange_timestamp,
            MarketDataEventView::NewQuote(q) => q.exchange_timestamp,
        }
    }

    /// When the strategy sees the event.
    pub open spec fn timestamp(self) -> Timestamp {
        match self {
            MarketDataEventView::NewMarketTrade(t) => t.received_timestamp,
            MarketDataEventView::NewQuote(q) => q.received_timestamp,
        }
    }

    /// The venue the event belongs to.
    pub open spec fn exchange(self) -> Seq<char> {
        match self {
            MarketDataEventView::NewMarketTrade(t) => t.exchange,
            MarketDataEventView::NewQuote(q) => q.exchange,
        }
    }

    /// The instrument the event is about.
    pub open spec fn symbol(self) -> Seq<char> {
        match self {
            MarketDataEventView::NewMarketTrade(t) => t.symbol,
            MarketDataEventView::NewQuote(q) => q.symbol,
        }
    }

    /// The same event, seen by the strategy at `ts`.
    pub open spec fn with_timestamp(self, ts: Timestamp) -> MarketDataEventView {
        match self {
            MarketDataEventView::NewMarketTrade(t) => MarketDataEventView::NewMarketTrade(
                TradeView { received_timestamp: ts, ..t },
            ),
            MarketDataEventView::NewQuote(q) => MarketDataEventView::NewQuote(
                QuoteView { received_timestamp: ts, ..q },
            ),
        }
    }
}

impl MarketDataEvent {
    /// Sets the time at which the strategy sees the event.
    pub fn set_timestamp(&mut self, ts: Timestamp)
        ensures
            final(self)@ == old(self)@.with_timestamp(ts),
    {
        match self {
            MarketDataEvent::NewQuote(q) => {
                q.received_timestamp = ts;
            },
            MarketDataEvent::NewMarketTrade(t) => {
                t.received_timestamp = ts;
            },
        }
    }

    /// When the event happened at the venue.
    pub fn exchange_timestamp(&self) -> (r: Timestamp)
        ensures
            r == self@.exchange_timestamp(),
    {
        match self {
            MarketDataEvent::NewQuote(q) => q.exchange_timestamp,
            MarketDataEvent::NewMarketTrade(t) => t.exchange_timestamp,
        }
    }

    /// When the strategy sees the event.
    pub fn timestamp(&self) -> (r: Timestamp)
        ensures
            r == self@.timestamp(),
    {
        match self {
            MarketDataEvent::NewQuote(q) => q.received_timestamp,
            MarketDataEvent::NewMarketTrade(t) => t.received_timestamp,
        }
    }

    /// The venue the event belongs to.
    pub fn exchange(&self) -> (r: Exchange)
        ensures
            r@ == self@.exchange(),
    {
        match self {
            MarketDataEvent::NewQuote(q) => q.exchange.clone(),
            MarketDataEvent::NewMarketTrade(t) => t.exchange.clone(),
        }
    }

    /// The instrument the event is about.
    pub fn symbol(&self) -> (r: Symbol)
        ensures
            r@ == self@.symbol(),
    {
        match self {
            MarketDataEvent::NewQuote(q) => q.symbol.clone(),
            MarketDataEvent::NewMarketTrade(t) => t.symbol.clone(),
        }
    }
}

} // verus!
