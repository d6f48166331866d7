//! Identifier aliases, numeric units and the plain enumerations shared by
//! requests, orders and events.

use vstd::prelude::*;

verus! {

/// Name of a venue.
pub type Exchange = String;

/// Identifier that a strategy gives to its order.
pub type ClientOrderId = String;

/// Identifier that a venue gives to an order it accepted.
pub type ExchangeOrderId = String;

/// Name of an instrument.
pub type Symbol = String;

/// A point in simulated time, in the unit the market data comes in.
pub type Timestamp = u64;

/// A delay, in the unit of `Timestamp`.
pub type Latency = u64;

/// Identifier of an event that a broker published.
pub type EventId = String;

/// Identifier that a strategy gives to a request.
pub type ExchangeRequestID = String;

/// A price, carried as a signed 64-bit key. The engine only copies and
/// compares prices, so any encoding whose integer order is the order of the
/// prices it stands for will do (ticks, or a fixed-point scale).
pub type Price = i64;

/// A quantity, carried like a `Price`.
pub type Quantity = i64;

#[allow(non_camel_case_types)]
#[derive(Debug, Clone, Copy, PartialEq, Eq, Structural)]
pub enum OrderType {
    MARKET,
    LIMIT,
    STOP,
    LIQUIDATION,
}

#[allow(non_camel_case_types)]
#[derive(Debug, Clone, Copy, PartialEq, Eq, Structural)]
pub enum TimeInForce {
    GTC,
    IOC,
    FOK,
    GTX,
}

#[allow(non_camel_case_types)]
#[derive(Debug, Clone, Copy, PartialEq, Eq, Structural)]
pub enum ExecutionType {
    NEW,
    CANCELED,
    /// Liquidation execution.
    CALCULATED,
    EXPIRED,
    TRADE,
}

#[allow(non_camel_case_types)]
#[derive(Debug, Clone, Copy, PartialEq, Eq, Structural)]
pub enum Side {
    BUY,
    SELL,
}

#[allow(non_camel_case_types)]
#[derive(Debug, Clone, Copy, PartialEq, Eq, Structural)]
pub enum OrderStatus {
    NEW,
    PARTIALLY_FILLED,
    FILLED,
    CANCELED,
    EXPIRED,
    /// Liquidation with the insurance fund.
    NEW_INSURANCE,
    /// Counterparty liquidation.
    NEW_ADL,
}

/// The sum of a timestamp and a delay; it stops at the largest timestamp
/// instead of wrapping around.
pub open spec fn ts_add(ts: Timestamp, delay: Latency) -> Timestamp {
    if ts + delay > u64::MAX {
        u64::MAX
    } else {
        (ts + delay) as u64
    }
}

/// Adds a delay to a timestamp, saturating at the largest timestamp.
pub fn add_latency(ts: Timestamp, delay: Latency) -> (r: Timestamp)
    ensures
        r == ts_add(ts, delay),
{
    ts.saturating_add(delay)
}

} // verus!
