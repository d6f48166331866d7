//! The order as a broker keeps it, and the steps of its life.
//!
//! An order is born `NEW` without a venue identifier, is confirmed by the
//! venue once, and ends either `FILLED` or `CANCELED`. Its `update_ts` never
//! moves backwards.

use vstd::prelude::*;
use crate::events::{clone_opt_string, opt_view};
use crate::gateway_router::{NewOrderRequest, NewOrderRequestView};
use crate::types::{
    ClientOrderId, Exchange, ExchangeOrderId, OrderStatus, OrderType, Price, Quantity, Side,
    Symbol, TimeInForce, Timestamp,
};

verus! {

/// A step that the order's status does not allow.
#[derive(Debug, Clone, Copy, PartialEq, Eq, Structural)]
pub enum Error {
    UnreachableStatus,
}

/// An order as a broker keeps it.
#[derive(Debug, PartialEq, Eq)]
pub struct Order {
    pub create_ts: Timestamp,
    pub update_ts: Timestamp,
    pub exchange_order_id: Option<ExchangeOrderId>,
    pub client_order_id: ClientOrderId,
    pub exchange: Exchange,
    pub order_type: OrderType,
    pub time_in_force: TimeInForce,
    pub price: Option<Price>,
    pub trigger_price: Option<Price>,
    pub symbol: Symbol,
    pub side: Side,
    pub quantity: Quantity,
    pub filled_quantity: Option<Quantity>,
    pub avg_fill_price: Option<Price>,
    pub status: OrderStatus,
}

/// The model of an `Order`.
pub struct OrderView {
    pub create_ts: Timestamp,
    pub update_ts: Timestamp,
    pub exchange_order_id: Option<Seq<char>>,
    pub client_order_id: Seq<char>,
    pub exchange: Seq<char>,
    pub order_type: OrderType,
    pub time_in_force: TimeInForce,
    pub price: Option<Price>,
    pub trigger_price: Option<Price>,
    pub symbol: Seq<char>,
    pub side: Side,
    pub quantity: Quantity,
    pub filled_quantity: Option<Quantity>,
    pub avg_fill_price: Option<Price>,
    pub status: OrderStatus,
}

impl View for Order {
    type V = OrderView;

    open spec fn view(&self) -> OrderView {
        OrderView {
            create_ts: self.create_ts,
            update_ts: self.update_ts,
            exchange_order_id: opt_view(self.exchange_order_id),
            client_order_id: self.client_order_id@,
            exchange: self.exchange@,
            order_type: self.order_type,
            time_in_force: self.time_in_force,
            price: self.price,
            trigger_price: self.trigger_price,
            symbol: self.symbol@,
            side: self.side,
            quantity: self.quantity,
            filled_quantity: self.filled_quantity,
            avg_fill_price: self.avg_fill_price,
            status: self.status,
        }
    }
}

impl Clone for Order {
    fn clone(&self) -> (r: Self)
        ensures
            r == *self,
    {
        Order {
            create_ts: self.create_ts,
            update_ts: self.update_ts,
            exchange_order_id: clone_opt_string(&self.exchange_order_id),
            client_order_id: self.client_order_id.clone(),
            exchange: self.exchange.clone(),
            order_type: self.order_type,
            time_in_force: self.time_in_force,
            price: self.price,
            trigger_price: self.trigger_price,
            symbol: self.symbol.clone(),
            side: self.side,
            quantity: self.quantity,
            filled_quantity: self.filled_quantity,
            avg_fill_price: self.avg_fill_price,
            status: self.status,
        }
    }
}

/// The later of two timestamps.
pub open spec fn later(a: Timestamp, b: Timestamp) -> Timestamp {
    if a >= b {
        a
    } else {
        b
    }
}

impl OrderView {
    /// The limit price of an order of the given type: only a LIMIT order has
    /// one.
    pub open spec fn price_for(order_type: OrderType, price: Option<Price>) -> Option<Price> {
        if order_type == OrderType::LIMIT {
            price
        } else {
            None
        }
    }

    /// The trigger price of an order of the given type: only a STOP order has
    /// one.
    pub open spec fn trigger_price_for(order_type: OrderType, trigger_price: Option<Price>) -> Option<
        Price,
    > {
        if order_type == OrderType::STOP {
            trigger_price
        } else {
            None
        }
    }

    /// The order that a request creates at `ts`: `NEW`, nothing filled, not
    /// yet known to the venue.
    pub open spec fn from_request(request: NewOrderRequestView, ts: Timestamp) -> OrderView {
        OrderView {
            create_ts: ts,
            update_ts: ts,
            exchange_order_id: None,
            client_order_id: request.client_order_id,
            exchange: request.exchange,
            order_type: request.order_type,
            time_in_force: request.time_in_force,
            price: Self::price_for(request.order_type, request.price),
            trigger_price: Self::trigger_price_for(request.order_type, request.trigger_price),
            symbol: request.symbol,
            side: request.side,
            quantity: request.quantity,
            filled_quantity: None,
            avg_fill_price: None,
            status: OrderStatus::NEW,
        }
    }

    /// The order once the venue confirmed it under `exchange_order_id`.
    pub open spec fn confirmed(self, exchange_order_id: Seq<char>, ts: Timestamp) -> OrderView {
        OrderView {
            update_ts: later(self.update_ts, ts),
            exchange_order_id: Some(exchange_order_id),
            ..self
        }
    }

    /// Whether the order can be canceled: it is not filled and the venue
    /// knows it.
    pub open spec fn cancelable(self) -> bool {
        self.status != OrderStatus::FILLED && self.exchange_order_id.is_some()
    }

    /// The order once it is canceled at `ts`.
    pub open spec fn canceled(self, ts: Timestamp) -> OrderView {
        OrderView { update_ts: later(self.update_ts, ts), status: OrderStatus::CANCELED, ..self }
    }

    /// The order once it is filled in full, at its own price, by market data
    /// of venue time `md_ts`.
    pub open spec fn filled(self, md_ts: Timestamp) -> OrderView {
        OrderView {
            update_ts: md_ts,
            status: OrderStatus::FILLED,
            filled_quantity: Some(self.quantity),
            avg_fill_price: self.price,
            ..self
        }
    }
}

impl Order {
    /// Creates the order that a request asks for, at time `ts`. A LIMIT order
    /// keeps the request's price, a STOP order its trigger price, a MARKET
    /// order and a LIQUIDATION order neither.
    pub fn new_order_from_exchange_request(request: &NewOrderRequest, ts: Timestamp) -> (r: Self)
        ensures
            r@ == OrderView::from_request(request@, ts),
    {
        let (price, trigger_price) = match request.order_type {
            OrderType::LIMIT => (request.price, None),
            OrderType::STOP => (None, request.trigger_price),
            _ => (None, None),
        };
        Order {
            create_ts: ts,
            update_ts: ts,
            exchange_order_id: None,
            client_order_id: request.client_order_id.clone(),
            exchange: request.exchange.clone(),
            order_type: request.order_type,
            time_in_force: request.time_in_force,
            price,
            trigger_price,
            symbol: request.symbol.clone(),
            side: request.side,
            quantity: request.quantity,
            filled_quantity: None,
            avg_fill_price: None,
            status: OrderStatus::NEW,
        }
    }

    /// Records that the venue confirmed the order under `exchange_order_id`.
    /// Only a `NEW` order can be confirmed; any other is left as it is and
    /// the call fails.
    pub fn set_confirmed_by_exchange(
        &mut self,
        exchange_order_id: String,
        confirmation_ts: Timestamp,
    ) -> (r: Result<(), Error>)
        ensures
            old(self).status == OrderStatus::NEW ==> r.is_ok() && final(self)@ == old(self)@.confirmed(
                exchange_order_id@,
                confirmation_ts,
            ),
            old(self).status != OrderStatus::NEW ==> r == Err::<(), Error>(Error::UnreachableStatus)
                && *final(self) == *old(self),
    {
        if self.status != OrderStatus::NEW {
            Err(Error::UnreachableStatus)
        } else {
            if confirmation_ts > self.update_ts {
                self.update_ts = confirmation_ts;
            }
            self.exchange_order_id = Some(exchange_order_id);
            Ok(())
        }
    }

    /// Cancels the order at `cancel_ts`. A filled order, and one that the
    /// venue does not know yet, cannot be canceled: it is left as it is and
    /// the call fails.
    pub fn cancel(&mut self, cancel_ts: Timestamp) -> (r: Result<(), Error>)
        ensures
            old(self)@.cancelable() ==> r.is_ok() && final(self)@ == old(self)@.canceled(cancel_ts),
            !old(self)@.cancelable() ==> r == Err::<(), Error>(Error::UnreachableStatus)
                && *final(self) == *old(self),
            final(self).update_ts >= old(self).update_ts,
    {
        if self.status == OrderStatus::FILLED || self.exchange_order_id.is_none() {
            Err(Error::UnreachableStatus)
        } else {
            if cancel_ts > self.update_ts {
                self.update_ts = cancel_ts;
            }
            self.status = OrderStatus::CANCELED;
            Ok(())
        }
    }
}

} // verus!
