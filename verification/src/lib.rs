//! A deterministic discrete-event simulation engine for backtesting trading
//! strategies.
//!
//! A strategy (an actor) is driven through a time-ordered stream of
//! market-data events interleaved with the responses of simulated venues.
//! One simulated broker per exchange models order acceptance, matching and
//! cancellation under configurable wire and internal latencies; the simulated
//! environment merges the market-data stream with the brokers' output into a
//! single stream ordered by the time at which the strategy sees each event.
//!
//! Every executable function of this crate carries a contract, proved
//! against models of the data: a view of each record, sequences for the
//! buffers, and spec functions for the transitions of the broker and of the
//! environment. What holds of every broker and of every run is stated as
//! proof functions in `sim::broker_laws` and `sim::delivery_laws`.

pub mod types;
pub mod decimal;
pub mod market_data;
pub mod events;
pub mod channel;
pub mod gateway_router;
pub mod order;
pub mod sim;
pub mod message_bus;
pub mod actions_context;
pub mod event_loop;
pub mod engine;
