use crossbeam_channel::{unbounded, Receiver, Sender};
use geger::events::Event;
use geger::gateway_router::{CancelOrderRequest, ExchangeRequest, NewOrderRequest};
use geger::market_data::{MarketDataEvent, Quote, Trade};
use geger::sim::broker::SimBroker;
use geger::sim::environment::{SequenceMarketDataProvider, SimulatedEnvironment};
use geger::types::{ExecutionType, OrderStatus, OrderType, Side, TimeInForce};
use std::collections::{HashMap, HashSet};

struct Dice(u64);

impl Dice {
    fn next(&mut self, below: u64) -> u64 {
        self.0 = self.0.wrapping_mul(6364136223846793005).wrapping_add(1442695040888963407);
        (self.0 >> 33) % below
    }
}

fn stream(dice: &mut Dice, exchanges: &[&str], len: usize) -> Vec<MarketDataEvent> {
    let mut ts = 1_000;
    let mut md = vec![];
    for _ in 0..len {
        ts += dice.next(40);
        let exchange = exchanges[dice.next(exchanges.len() as u64) as usize].to_string();
        let price = 90 + dice.next(21) as i64;
        if dice.next(3) == 0 {
            md.push(MarketDataEvent::NewMarketTrade(Trade {
                symbol: "s".to_string(),
                exchange,
                last_price: price,
                last_size: 1,
                exchange_timestamp: ts,
                received_timestamp: 0,
            }));
        } else {
            md.push(MarketDataEvent::NewQuote(Quote {
                symbol: "s".to_string(),
                exchange,
                bid: price - 1,
                ask: price,
                bid_size: None,
                ask_size: None,
                exchange_timestamp: ts,
                received_timestamp: 0,
            }));
        }
    }
    md
}

fn order(exchange: &str, id: u64, side: Side, price: i64, creation_ts: u64) -> ExchangeRequest {
    ExchangeRequest::NewOrder(NewOrderRequest {
        request_id: format!("n{}", id),
        client_order_id: id.to_string(),
        exchange: exchange.to_string(),
        order_type: OrderType::LIMIT,
        time_in_force: TimeInForce::GTC,
        price: Some(price),
        trigger_price: None,
        symbol: "s".to_string(),
        quantity: 1,
        side,
        creation_ts,
    })
}

fn cancel(exchange: &str, id: &str, creation_ts: u64) -> ExchangeRequest {
    ExchangeRequest::CancelOrder(CancelOrderRequest {
        request_id: format!("c{}", id),
        client_order_id: id.to_string(),
        exchange_order_id: id.to_string(),
        exchange: exchange.to_string(),
        symbol: "s".to_string(),
        creation_ts,
    })
}

#[test]
fn one_exchange_delivers_in_the_order_of_time() {
    for (seed, strict, wire, internal) in
        [(1u64, true, 100u64, 5u64), (2, false, 0, 0), (3, true, 7, 300), (4, false, 250, 1)]
    {
        let mut dice = Dice(seed);
        let md = stream(&mut dice, &["X"], 400);
        let mut env: SimulatedEnvironment<SequenceMarketDataProvider, SimBroker> =
            SimulatedEnvironment::new(SequenceMarketDataProvider::new(md.clone()), None);
        let (sender, receiver): (Sender<ExchangeRequest>, Receiver<ExchangeRequest>) = unbounded();
        env.add_broker(SimBroker::new("X".to_string(), receiver, strict, Some(wire), Some(internal)))
            .unwrap();

        let mut last = 0;
        let mut next_id = 1u64;
        let mut market_data = 0;
        let mut accepted: Vec<String> = vec![];
        let mut open: HashMap<String, u64> = HashMap::new();
        let mut created_at: HashMap<String, u64> = HashMap::new();
        let mut finished: HashSet<String> = HashSet::new();
        while let Some(event) = env.next_event() {
            assert!(event.timestamp() >= last, "seed {}", seed);
            last = event.timestamp();
            match &event {
                Event::NewQuote(q) => {
                    market_data += 1;
                    assert_eq!(q.received_timestamp, q.exchange_timestamp + wire);
                    if dice.next(4) == 0 {
                        let side = if dice.next(2) == 0 { Side::BUY } else { Side::SELL };
                        let price = 90 + dice.next(21) as i64;
                        sender.send(order("X", next_id, side, price, event.timestamp())).unwrap();
                        next_id += 1;
                    }
                    if dice.next(8) == 0 {
                        if let Some(id) = open.keys().next().cloned() {
                            sender.send(cancel("X", &id, event.timestamp())).unwrap();
                        }
                    }
                }
                Event::NewMarketTrade(t) => {
                    market_data += 1;
                    assert_eq!(t.received_timestamp, t.exchange_timestamp + wire);
                }
                Event::ResponseNewOrderAccepted(a) => {
                    // the orders are numbered 1, 2, 3, ... as they are accepted
                    accepted.push(a.exchange_order_id.clone());
                    assert_eq!(a.exchange_order_id, accepted.len().to_string());
                    assert_eq!(a.timestamp, a.exchange_timestamp + wire);
                    created_at.insert(a.exchange_order_id.clone(), a.exchange_timestamp);
                    open.insert(a.exchange_order_id.clone(), a.timestamp);
                }
                Event::UDSOrderUpdate(u) => {
                    let id = u.exchange_order_id.clone().unwrap();
                    match u.execution_type {
                        ExecutionType::NEW => assert_eq!(u.order_status, OrderStatus::NEW),
                        ExecutionType::TRADE => {
                            assert_eq!(u.order_status, OrderStatus::FILLED);
                            // no fill by market data older than the order
                            assert!(u.last_trade_time.unwrap() >= created_at[&id]);
                            assert_eq!(u.timestamp, u.last_trade_time.unwrap() + internal + wire);
                            assert_eq!(u.last_filled_price, u.original_price);
                            assert!(finished.insert(id.clone()));
                            open.remove(&id);
                        }
                        ExecutionType::CANCELED => {
                            assert_eq!(u.order_status, OrderStatus::CANCELED);
                            assert!(finished.insert(id.clone()));
                            open.remove(&id);
                        }
                        _ => panic!("unexpected update {:?}", u),
                    }
                }
                Event::ResponseCancelOrderRejected(r) => {
                    // only an order that is done already cannot be canceled
                    assert_eq!(r.reason, "order not found");
                    assert!(finished.contains(r.exchange_order_id.as_ref().unwrap()));
                }
                Event::ResponseCancelOrderAccepted(_) => {}
                Event::ResponseNewOrderRejected(r) => panic!("unexpected rejection {:?}", r),
            }
        }
        assert_eq!(market_data, md.len());
        assert!(accepted.len() > 10, "seed {}", seed);
        assert!(finished.len() > 5, "seed {}", seed);
    }
}

#[test]
fn several_exchanges_deliver_market_data_once_and_in_order() {
    for seed in 10..14u64 {
        let mut dice = Dice(seed);
        let md = stream(&mut dice, &["A", "B", "C", "nowhere"], 300);
        let mut env: SimulatedEnvironment<SequenceMarketDataProvider, SimBroker> =
            SimulatedEnvironment::new(SequenceMarketDataProvider::new(md.clone()), Some(20));
        let latencies = [("A", 120u64), ("B", 35), ("C", 0)];
        let mut senders = vec![];
        for (name, wire) in latencies {
            let (s, r): (Sender<ExchangeRequest>, Receiver<ExchangeRequest>) = unbounded();
            env.add_broker(SimBroker::new(name.to_string(), r, true, Some(wire), Some(3))).unwrap();
            senders.push(s);
        }
        let mut last = 0;
        let mut delivered = vec![];
        while let Some(event) = env.next_event() {
            assert!(event.timestamp() >= last, "seed {}", seed);
            last = event.timestamp();
            delivered.push(event);
        }
        let mut expected = vec![];
        for m in &md {
            if let Some((_, wire)) = latencies.iter().find(|(name, _)| m.exchange() == *name) {
                let mut seen = m.clone();
                seen.set_timestamp(m.exchange_timestamp() + wire);
                expected.push(Event::from(seen));
            }
        }
        assert_eq!(delivered.len(), expected.len());
        // the same events, each as often
        for e in &expected {
            let wanted = expected.iter().filter(|x| *x == e).count();
            let got = delivered.iter().filter(|x| *x == e).count();
            assert_eq!(wanted, got);
        }
        // events with the same date keep the order of the stream
        let mut sorted = expected.clone();
        sorted.sort_by_key(|e| e.timestamp());
        assert_eq!(delivered, sorted);
    }
}
