use crossbeam_channel::{unbounded, Receiver, Sender};
use geger::event_loop::EventProvider;
use geger::events::Event;
use geger::gateway_router::{CancelOrderRequest, ExchangeRequest, NewOrderRequest};
use geger::market_data::{MarketDataEvent, Quote, Trade};
use geger::sim::broker::SimBroker;
use geger::sim::environment::{
    SequenceMarketDataProvider, SimTradingError, SimulatedEnvironment,
    SimulatedTradingMarketDataProvider,
};
use geger::types::{OrderStatus, OrderType, Side, TimeInForce};

type Env = SimulatedEnvironment<SequenceMarketDataProvider, SimBroker>;

fn quote(exchange: &str, symbol: &str, exchange_ts: u64, bid: i64, ask: i64) -> MarketDataEvent {
    MarketDataEvent::NewQuote(Quote {
        symbol: symbol.to_string(),
        exchange: exchange.to_string(),
        bid,
        ask,
        bid_size: None,
        ask_size: None,
        exchange_timestamp: exchange_ts,
        received_timestamp: exchange_ts,
    })
}

fn trade(exchange: &str, symbol: &str, exchange_ts: u64, price: i64) -> MarketDataEvent {
    MarketDataEvent::NewMarketTrade(Trade {
        symbol: symbol.to_string(),
        exchange: exchange.to_string(),
        last_price: price,
        last_size: 1,
        exchange_timestamp: exchange_ts,
        received_timestamp: exchange_ts,
    })
}

fn env_with(
    md: Vec<MarketDataEvent>,
    default_latency: Option<u64>,
    brokers: &[(&str, u64, u64)],
) -> (Env, Vec<Sender<ExchangeRequest>>) {
    let mut env = SimulatedEnvironment::new(SequenceMarketDataProvider::new(md), default_latency);
    let mut senders = vec![];
    for (exchange, wire, internal) in brokers {
        let (s, r): (Sender<ExchangeRequest>, Receiver<ExchangeRequest>) = unbounded();
        let broker = SimBroker::new(exchange.to_string(), r, true, Some(*wire), Some(*internal));
        assert!(env.add_broker(broker).is_ok());
        senders.push(s);
    }
    (env, senders)
}

fn buy_limit(exchange: &str, symbol: &str, id: &str, price: i64, creation_ts: u64) -> ExchangeRequest {
    ExchangeRequest::NewOrder(NewOrderRequest {
        request_id: format!("r-{}", id),
        client_order_id: id.to_string(),
        exchange: exchange.to_string(),
        order_type: OrderType::LIMIT,
        time_in_force: TimeInForce::GTC,
        price: Some(price),
        trigger_price: None,
        symbol: symbol.to_string(),
        quantity: 1,
        side: Side::BUY,
        creation_ts,
    })
}

#[test]
fn sequence_provider_returns_its_events_in_order() {
    let mut p = SequenceMarketDataProvider::new(vec![
        quote("X", "s", 1, 1, 2),
        trade("X", "s", 2, 3),
    ]);
    assert_eq!(p.next_event(), Some(quote("X", "s", 1, 1, 2)));
    assert_eq!(p.next_event(), Some(trade("X", "s", 2, 3)));
    assert_eq!(p.next_event(), None);
    assert_eq!(p.next_event(), None);
}

#[test]
fn empty_stream_yields_nothing() {
    let (mut env, _s) = env_with(vec![], None, &[("X", 100, 5)]);
    assert_eq!(env.next_event(), None);
    assert_eq!(env.next_event(), None);
}

#[test]
fn environment_without_brokers_drops_market_data() {
    let mut env: Env = SimulatedEnvironment::new(
        SequenceMarketDataProvider::new(vec![quote("X", "s", 1, 1, 2), quote("X", "s", 2, 1, 2)]),
        Some(10),
    );
    assert_eq!(env.next_event(), None);
}

#[test]
fn add_broker_refuses_a_second_broker_of_an_exchange() {
    let (mut env, _s) = env_with(vec![], None, &[("X", 100, 5)]);
    let (_s2, r): (Sender<ExchangeRequest>, Receiver<ExchangeRequest>) = unbounded();
    let second = SimBroker::new("X".to_string(), r, false, Some(1), None);
    assert_eq!(env.add_broker(second), Err(SimTradingError::BrokerAlreadyExists));
    let (_s3, r): (Sender<ExchangeRequest>, Receiver<ExchangeRequest>) = unbounded();
    let other = SimBroker::new("Y".to_string(), r, false, Some(1), None);
    assert_eq!(env.add_broker(other), Ok(()));
}

#[test]
fn single_exchange_accept_and_fill() {
    let md = vec![
        quote("X", "s", 1000, 99, 100),
        quote("X", "s", 2000, 99, 100),
    ];
    let (mut env, senders) = env_with(md, None, &[("X", 100, 5)]);
    let first = env.next_event().unwrap();
    match &first {
        Event::NewQuote(q) => {
            assert_eq!(q.exchange_timestamp, 1000);
            assert_eq!(q.received_timestamp, 1100);
        }
        other => panic!("unexpected event {:?}", other),
    }
    // The strategy answers the quote with an order.
    senders[0].send(buy_limit("X", "s", "1", 100, first.timestamp())).unwrap();
    let e = env.next_event().unwrap();
    match &e {
        Event::ResponseNewOrderAccepted(a) => {
            assert_eq!(a.exchange_timestamp, 1205);
            assert_eq!(a.timestamp, 1305);
            assert_eq!(a.exchange_order_id, "1");
        }
        other => panic!("unexpected event {:?}", other),
    }
    let e = env.next_event().unwrap();
    match &e {
        Event::UDSOrderUpdate(u) => {
            assert_eq!(u.order_status, OrderStatus::NEW);
            assert_eq!(u.timestamp, 1305);
        }
        other => panic!("unexpected event {:?}", other),
    }
    let e = env.next_event().unwrap();
    match &e {
        Event::NewQuote(q) => assert_eq!(q.received_timestamp, 2100),
        other => panic!("unexpected event {:?}", other),
    }
    let e = env.next_event().unwrap();
    match &e {
        Event::UDSOrderUpdate(u) => {
            assert_eq!(u.order_status, OrderStatus::FILLED);
            assert_eq!(u.last_filled_price, Some(100));
            assert_eq!(u.exchange_timestamp, 2005);
            assert_eq!(u.timestamp, 2105);
        }
        other => panic!("unexpected event {:?}", other),
    }
    assert_eq!(env.next_event(), None);
    assert_eq!(env.next_event(), None);
}

#[test]
fn two_exchanges_with_different_latencies() {
    // A's market data is older at the venue, but B's reaches the strategy
    // first.
    let md = vec![quote("A", "s", 1000, 1, 2), quote("B", "s", 1040, 3, 4)];
    let (mut env, _s) = env_with(md, None, &[("A", 100, 0), ("B", 50, 0)]);
    let first = env.next_event().unwrap();
    assert_eq!(first.exchange(), "B");
    assert_eq!(first.timestamp(), 1090);
    assert_eq!(first.exchange_timestamp(), 1040);
    let second = env.next_event().unwrap();
    assert_eq!(second.exchange(), "A");
    assert_eq!(second.timestamp(), 1100);
    assert_eq!(second.exchange_timestamp(), 1000);
    assert_eq!(env.next_event(), None);
}

#[test]
fn same_expected_time_keeps_stream_order() {
    let md = vec![quote("A", "first", 1000, 1, 2), quote("B", "second", 1050, 3, 4)];
    let (mut env, _s) = env_with(md, None, &[("A", 100, 0), ("B", 50, 0)]);
    assert_eq!(env.next_event().unwrap().symbol(), "first");
    assert_eq!(env.next_event().unwrap().symbol(), "second");
    assert_eq!(env.next_event(), None);
}

#[test]
fn read_ahead_stops_one_event_beyond_the_window() {
    // Largest wire latency 100: the window of the first event ends at 1100.
    // The event of exchange B at 1101 is beyond it and is read; the one at
    // 1102 is not, although the strategy would see it earlier.
    let md = vec![
        quote("A", "a", 1000, 1, 2),
        quote("B", "b1", 1101, 1, 2),
        quote("B", "b2", 1102, 1, 2),
    ];
    let (mut env, _s) = env_with(md, None, &[("A", 200, 0), ("B", 0, 0)]);
    // expected: a at 1200, b1 at 1101, b2 at 1102
    let mut seen = vec![];
    while let Some(e) = env.next_event() {
        seen.push((e.symbol(), e.timestamp()));
    }
    assert_eq!(
        seen,
        vec![
            ("b1".to_string(), 1101),
            ("b2".to_string(), 1102),
            ("a".to_string(), 1200)
        ]
    );
}

#[test]
fn market_data_of_an_unknown_exchange_is_not_forwarded() {
    let md = vec![
        quote("X", "s", 1000, 1, 2),
        quote("nowhere", "s", 1001, 1, 2),
        trade("X", "s", 1002, 5),
    ];
    let (mut env, _s) = env_with(md, Some(7), &[("X", 10, 0)]);
    let mut seen = vec![];
    while let Some(e) = env.next_event() {
        seen.push((e.exchange(), e.exchange_timestamp(), e.timestamp()));
    }
    assert_eq!(
        seen,
        vec![("X".to_string(), 1000, 1010), ("X".to_string(), 1002, 1012)]
    );
}

#[test]
fn every_market_data_event_is_delivered_once() {
    let mut md = vec![];
    for k in 0..50u64 {
        let exchange = if k % 3 == 0 { "A" } else { "B" };
        md.push(quote(exchange, "s", 1000 + 10 * k, k as i64, k as i64 + 1));
    }
    let (mut env, _s) = env_with(md.clone(), None, &[("A", 35, 1), ("B", 5, 2)]);
    let mut delivered = vec![];
    let mut last = 0;
    while let Some(e) = env.next_event() {
        assert!(e.timestamp() >= last);
        last = e.timestamp();
        delivered.push(e);
    }
    assert_eq!(delivered.len(), md.len());
    for m in &md {
        let wire = if m.exchange() == "A" { 35 } else { 5 };
        let mut expected = m.clone();
        expected.set_timestamp(m.exchange_timestamp() + wire);
        let count = delivered.iter().filter(|e| **e == Event::from(expected.clone())).count();
        assert_eq!(count, 1);
    }
}

#[test]
fn broker_events_come_before_later_market_data() {
    // An acknowledgment dated 1015 is delivered before the quote that the
    // strategy sees at 2010, although the broker generated both at the same
    // tick.
    let md = vec![quote("X", "s", 1000, 5, 6), quote("X", "s", 2000, 5, 6)];
    let (mut env, senders) = env_with(md, None, &[("X", 10, 5)]);
    let first = env.next_event().unwrap();
    assert_eq!(first.timestamp(), 1010);
    senders[0].send(buy_limit("X", "s", "1", 1, 990)).unwrap();
    let times: Vec<u64> = std::iter::from_fn(|| env.next_event()).map(|e| e.timestamp()).collect();
    assert_eq!(times, vec![1015, 1015, 2010]);
}

#[test]
fn max_age_cancel() {
    let md = vec![
        quote("X", "s", 1000, 5, 60),
        quote("X", "s", 1100, 5, 60),
        quote("X", "s", 1400, 5, 60),
        quote("X", "s", 1500, 5, 60),
    ];
    let (mut env, senders) = env_with(md, None, &[("X", 10, 1)]);
    let mut kinds = vec![];
    let mut order_seen_at = None;
    let mut canceled = false;
    while let Some(e) = env.next_event() {
        match &e {
            Event::NewQuote(q) => {
                kinds.push("quote");
                if order_seen_at.is_none() {
                    order_seen_at = Some(q.received_timestamp);
                    senders[0].send(buy_limit("X", "s", "1", 10, q.received_timestamp)).unwrap();
                } else if !canceled && q.received_timestamp - order_seen_at.unwrap() > 200 {
                    canceled = true;
                    senders[0]
                        .send(ExchangeRequest::CancelOrder(CancelOrderRequest {
                            request_id: "c".to_string(),
                            client_order_id: "1".to_string(),
                            exchange_order_id: "1".to_string(),
                            exchange: "X".to_string(),
                            symbol: "s".to_string(),
                            creation_ts: q.received_timestamp,
                        }))
                        .unwrap();
                }
            }
            Event::ResponseNewOrderAccepted(_) => kinds.push("accepted"),
            Event::ResponseCancelOrderAccepted(_) => kinds.push("cancel accepted"),
            Event::UDSOrderUpdate(u) => match u.order_status {
                OrderStatus::NEW => kinds.push("new"),
                OrderStatus::CANCELED => kinds.push("canceled"),
                _ => kinds.push("other"),
            },
            _ => kinds.push("other"),
        }
    }
    assert_eq!(
        kinds,
        vec![
            "quote",
            "accepted",
            "new",
            "quote",
            "quote",
            "cancel accepted",
            "canceled",
            "quote"
        ]
    );
}

#[test]
fn environment_is_an_event_provider() {
    fn drain<P: EventProvider>(p: &mut P) -> usize {
        let mut n = 0;
        while p.next_event().is_some() {
            n += 1;
        }
        n
    }
    let md = vec![quote("X", "s", 1, 1, 2), quote("X", "s", 2, 1, 2), quote("X", "s", 3, 1, 2)];
    let (mut env, _s) = env_with(md, None, &[("X", 0, 0)]);
    assert_eq!(drain(&mut env), 3);
}

#[test]
fn steps_of_the_merger() {
    let md = vec![quote("A", "a", 1000, 1, 2), quote("B", "b", 1040, 3, 4)];
    let (mut env, _s) = env_with(md, None, &[("A", 100, 0), ("B", 50, 0)]);
    env.update_pending_md();
    // B's event was chosen; feeding it yields its forward only.
    env.feed_market_data_event_to_brokers();
    env.update_pending_md();
    env.feed_market_data_event_to_brokers();
    env.update_pending_md();
    let a = env.next_event().unwrap();
    let b = env.next_event().unwrap();
    assert_eq!((a.symbol(), a.timestamp()), ("b".to_string(), 1090));
    assert_eq!((b.symbol(), b.timestamp()), ("a".to_string(), 1100));
    assert_eq!(env.next_event(), None);
}

#[test]
fn an_answer_dated_before_what_was_delivered_comes_late() {
    // Exchange B answers slowly: its fill of the quote of 1200 is dated
    // 2200. The strategy sees that fill before exchange A, which answers at
    // once, gets to answer an order that the strategy sent at 1200.
    let md = vec![
        quote("B", "s", 100, 50, 60),
        quote("B", "s", 1000, 50, 60),
        quote("B", "s", 1200, 4, 5),
        quote("A", "s", 5000, 50, 60),
    ];
    let mut env: Env = SimulatedEnvironment::new(SequenceMarketDataProvider::new(md), None);
    let (to_a, from_a): (Sender<ExchangeRequest>, Receiver<ExchangeRequest>) = unbounded();
    let (to_b, from_b): (Sender<ExchangeRequest>, Receiver<ExchangeRequest>) = unbounded();
    env.add_broker(SimBroker::new("A".to_string(), from_a, true, Some(0), Some(0))).unwrap();
    env.add_broker(SimBroker::new("B".to_string(), from_b, true, Some(0), Some(1000))).unwrap();
    let mut seen = vec![];
    while let Some(e) = env.next_event() {
        seen.push(e.timestamp());
        if let Event::NewQuote(q) = &e {
            if q.exchange_timestamp == 100 {
                to_b.send(buy_limit("B", "s", "1", 10, e.timestamp())).unwrap();
            }
            if q.exchange_timestamp == 1200 {
                to_a.send(buy_limit("A", "s", "1", 10, e.timestamp())).unwrap();
            }
        }
    }
    assert_eq!(seen, vec![100, 1000, 1100, 1100, 1200, 2200, 1200, 1200, 5000]);
}

#[test]
fn answers_dated_at_the_time_of_the_request_keep_the_order() {
    // The same run with the order to A created at the date of the last
    // event that the strategy will have seen when A answers.
    let md = vec![
        quote("B", "s", 100, 50, 60),
        quote("B", "s", 1000, 50, 60),
        quote("B", "s", 1200, 4, 5),
        quote("A", "s", 5000, 50, 60),
    ];
    let mut env: Env = SimulatedEnvironment::new(SequenceMarketDataProvider::new(md), None);
    let (to_a, from_a): (Sender<ExchangeRequest>, Receiver<ExchangeRequest>) = unbounded();
    let (to_b, from_b): (Sender<ExchangeRequest>, Receiver<ExchangeRequest>) = unbounded();
    env.add_broker(SimBroker::new("A".to_string(), from_a, true, Some(0), Some(0))).unwrap();
    env.add_broker(SimBroker::new("B".to_string(), from_b, true, Some(0), Some(1000))).unwrap();
    let mut seen = vec![];
    while let Some(e) = env.next_event() {
        seen.push(e.timestamp());
        match &e {
            Event::NewQuote(q) if q.exchange_timestamp == 100 => {
                to_b.send(buy_limit("B", "s", "1", 10, e.timestamp())).unwrap();
            }
            Event::UDSOrderUpdate(u) if u.order_status == OrderStatus::FILLED => {
                to_a.send(buy_limit("A", "s", "1", 10, e.timestamp())).unwrap();
            }
            _ => {}
        }
    }
    assert_eq!(seen, vec![100, 1000, 1100, 1100, 1200, 2200, 2200, 2200, 5000]);
}

#[test]
fn market_data_of_one_exchange_ticks_the_brokers_of_the_others() {
    // Only exchange A has market data. An order sent to B is answered at
    // the next tick all the same, with the venue time of A's market data
    // as the time of the tick.
    let md = vec![quote("A", "s", 1000, 5, 6), quote("A", "s", 2000, 5, 6)];
    let (mut env, senders) = env_with(md, None, &[("A", 10, 0), ("B", 20, 3)]);
    let first = env.next_event().unwrap();
    assert_eq!(first.timestamp(), 1010);
    senders[1].send(buy_limit("B", "s", "1", 1, 1010)).unwrap();
    let mut seen = vec![];
    while let Some(e) = env.next_event() {
        seen.push((e.exchange(), e.timestamp()));
    }
    assert_eq!(
        seen,
        vec![
            ("B".to_string(), 1053),
            ("B".to_string(), 1053),
            ("A".to_string(), 2010)
        ]
    );
}
