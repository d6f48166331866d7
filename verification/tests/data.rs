use geger::events::{
    CancelOrderAccepted, CancelOrderRejected, Event, NewOrderAccepted, NewOrderRejected,
    OrderUpdate,
};
use geger::gateway_router::NewOrderRequest;
use geger::market_data::{MarketDataEvent, Quote, Trade};
use geger::order::{Error, Order};
use geger::sim::merge::insert_event;
use geger::types::{
    add_latency, ExecutionType, OrderStatus, OrderType, Side, TimeInForce,
};

fn quote() -> Quote {
    Quote {
        symbol: "s".to_string(),
        exchange: "x".to_string(),
        bid: 10,
        ask: 11,
        bid_size: Some(1),
        ask_size: None,
        exchange_timestamp: 100,
        received_timestamp: 150,
    }
}

fn trade() -> Trade {
    Trade {
        symbol: "t".to_string(),
        exchange: "y".to_string(),
        last_price: 10,
        last_size: 2,
        exchange_timestamp: 200,
        received_timestamp: 250,
    }
}

#[test]
fn timestamps_add_and_saturate() {
    assert_eq!(add_latency(1000, 100), 1100);
    assert_eq!(add_latency(0, 0), 0);
    assert_eq!(add_latency(u64::MAX, 0), u64::MAX);
    assert_eq!(add_latency(u64::MAX - 1, 1), u64::MAX);
    assert_eq!(add_latency(u64::MAX - 1, 2), u64::MAX);
    assert_eq!(add_latency(5, u64::MAX), u64::MAX);
}

#[test]
fn market_data_accessors() {
    let mut q = MarketDataEvent::NewQuote(quote());
    assert_eq!(q.exchange_timestamp(), 100);
    assert_eq!(q.timestamp(), 150);
    assert_eq!(q.exchange(), "x");
    assert_eq!(q.symbol(), "s");
    q.set_timestamp(175);
    assert_eq!(q.timestamp(), 175);
    assert_eq!(q.exchange_timestamp(), 100);
    let mut t = MarketDataEvent::NewMarketTrade(trade());
    assert_eq!(t.exchange_timestamp(), 200);
    assert_eq!(t.timestamp(), 250);
    assert_eq!(t.exchange(), "y");
    assert_eq!(t.symbol(), "t");
    t.set_timestamp(1);
    assert_eq!(t, MarketDataEvent::NewMarketTrade(Trade { received_timestamp: 1, ..trade() }));
    assert_eq!(t.clone(), t);
}

#[test]
fn market_data_becomes_an_event_unchanged() {
    assert_eq!(Event::from(MarketDataEvent::NewQuote(quote())), Event::NewQuote(quote()));
    assert_eq!(
        Event::from(MarketDataEvent::NewMarketTrade(trade())),
        Event::NewMarketTrade(trade())
    );
}

fn update(ts: u64) -> OrderUpdate {
    OrderUpdate {
        event_id: "7".to_string(),
        timestamp: ts,
        exchange_timestamp: ts - 1,
        symbol: "us".to_string(),
        exchange: "ue".to_string(),
        side: Side::SELL,
        client_order_id: None,
        exchange_order_id: Some("4".to_string()),
        order_type: Some(OrderType::STOP),
        time_in_force: Some(TimeInForce::FOK),
        original_qty: 3,
        original_price: None,
        average_price: Some(2),
        stop_price: Some(1),
        execution_type: ExecutionType::EXPIRED,
        order_status: OrderStatus::EXPIRED,
        last_filled_qty: None,
        accumulated_filled_qty: Some(0),
        last_filled_price: None,
        last_trade_time: Some(5),
    }
}

fn all_events() -> Vec<Event> {
    vec![
        Event::NewMarketTrade(trade()),
        Event::NewQuote(quote()),
        Event::ResponseNewOrderAccepted(NewOrderAccepted {
            event_id: "1".to_string(),
            request_id: Some("r".to_string()),
            timestamp: 30,
            exchange_timestamp: 20,
            client_order_id: "c".to_string(),
            exchange_order_id: "9".to_string(),
            exchange: "e3".to_string(),
            symbol: "s3".to_string(),
        }),
        Event::ResponseNewOrderRejected(NewOrderRejected {
            event_id: "2".to_string(),
            request_id: None,
            timestamp: 40,
            exchange_timestamp: 35,
            client_order_id: "c".to_string(),
            reason: "no".to_string(),
            exchange: "e4".to_string(),
            symbol: "s4".to_string(),
        }),
        Event::ResponseCancelOrderAccepted(CancelOrderAccepted {
            event_id: "3".to_string(),
            request_id: None,
            timestamp: 50,
            exchange_timestamp: 45,
            client_order_id: "c".to_string(),
            exchange_order_id: "9".to_string(),
            exchange: "e5".to_string(),
            symbol: "s5".to_string(),
        }),
        Event::ResponseCancelOrderRejected(CancelOrderRejected {
            event_id: "4".to_string(),
            request_id: None,
            timestamp: 60,
            exchange_timestamp: 55,
            client_order_id: "c".to_string(),
            exchange_order_id: None,
            reason: "no".to_string(),
            exchange: "e6".to_string(),
            symbol: "s6".to_string(),
        }),
        Event::UDSOrderUpdate(update(70)),
    ]
}

#[test]
fn event_accessors() {
    let events = all_events();
    let timestamps: Vec<u64> = events.iter().map(|e| e.timestamp()).collect();
    assert_eq!(timestamps, vec![250, 150, 30, 40, 50, 60, 70]);
    let exchange_timestamps: Vec<u64> = events.iter().map(|e| e.exchange_timestamp()).collect();
    assert_eq!(exchange_timestamps, vec![200, 100, 20, 35, 45, 55, 69]);
    let exchanges: Vec<String> = events.iter().map(|e| e.exchange()).collect();
    assert_eq!(exchanges, vec!["y", "x", "e3", "e4", "e5", "e6", "ue"]);
    let symbols: Vec<String> = events.iter().map(|e| e.symbol()).collect();
    assert_eq!(symbols, vec!["t", "s", "s3", "s4", "s5", "s6", "us"]);
    for e in &events {
        assert_eq!(&e.clone(), e);
    }
}

fn at(ts: u64, id: &str) -> Event {
    let mut u = update(ts);
    u.event_id = id.to_string();
    Event::UDSOrderUpdate(u)
}

fn ids(buffer: &[Event]) -> Vec<String> {
    buffer
        .iter()
        .map(|e| match e {
            Event::UDSOrderUpdate(u) => u.event_id.clone(),
            _ => String::new(),
        })
        .collect()
}

#[test]
fn buffer_keeps_the_order_of_time_and_of_arrival() {
    let mut buffer = vec![];
    insert_event(&mut buffer, at(20, "a"));
    insert_event(&mut buffer, at(10, "b"));
    insert_event(&mut buffer, at(30, "c"));
    insert_event(&mut buffer, at(20, "d"));
    insert_event(&mut buffer, at(10, "e"));
    insert_event(&mut buffer, at(20, "f"));
    insert_event(&mut buffer, at(5, "g"));
    assert_eq!(ids(&buffer), vec!["g", "b", "e", "a", "d", "f", "c"]);
    // the same as a stable sort of the arrivals
    let mut arrivals = vec![
        at(20, "a"),
        at(10, "b"),
        at(30, "c"),
        at(20, "d"),
        at(10, "e"),
        at(20, "f"),
        at(5, "g"),
    ];
    arrivals.sort_by_key(|e| e.timestamp());
    assert_eq!(buffer, arrivals);
}

fn request(order_type: OrderType) -> NewOrderRequest {
    NewOrderRequest {
        request_id: "r".to_string(),
        client_order_id: "c".to_string(),
        exchange: "x".to_string(),
        order_type,
        time_in_force: TimeInForce::GTX,
        price: Some(100),
        trigger_price: Some(90),
        symbol: "s".to_string(),
        quantity: 4,
        side: Side::SELL,
        creation_ts: 1,
    }
}

#[test]
fn new_order_from_a_request() {
    let o = Order::new_order_from_exchange_request(&request(OrderType::LIMIT), 50);
    assert_eq!(
        o,
        Order {
            create_ts: 50,
            update_ts: 50,
            exchange_order_id: None,
            client_order_id: "c".to_string(),
            exchange: "x".to_string(),
            order_type: OrderType::LIMIT,
            time_in_force: TimeInForce::GTX,
            price: Some(100),
            trigger_price: None,
            symbol: "s".to_string(),
            side: Side::SELL,
            quantity: 4,
            filled_quantity: None,
            avg_fill_price: None,
            status: OrderStatus::NEW,
        }
    );
    let o = Order::new_order_from_exchange_request(&request(OrderType::MARKET), 50);
    assert_eq!((o.price, o.trigger_price), (None, None));
    let o = Order::new_order_from_exchange_request(&request(OrderType::STOP), 50);
    assert_eq!((o.price, o.trigger_price), (None, Some(90)));
    let o = Order::new_order_from_exchange_request(&request(OrderType::LIQUIDATION), 50);
    assert_eq!((o.price, o.trigger_price), (None, None));
    assert_eq!(o.order_type, OrderType::LIQUIDATION);
    assert_eq!(o.clone(), o);
}

#[test]
fn order_is_confirmed_once_while_new() {
    let mut o = Order::new_order_from_exchange_request(&request(OrderType::LIMIT), 50);
    assert_eq!(o.set_confirmed_by_exchange("12".to_string(), 40), Ok(()));
    assert_eq!(o.exchange_order_id, Some("12".to_string()));
    // update_ts never moves backwards
    assert_eq!(o.update_ts, 50);
    assert_eq!(o.set_confirmed_by_exchange("13".to_string(), 60), Ok(()));
    assert_eq!(o.update_ts, 60);
    o.status = OrderStatus::FILLED;
    let before = o.clone();
    assert_eq!(o.set_confirmed_by_exchange("14".to_string(), 70), Err(Error::UnreachableStatus));
    assert_eq!(o, before);
}

#[test]
fn order_cancel() {
    let mut o = Order::new_order_from_exchange_request(&request(OrderType::LIMIT), 50);
    // the venue does not know the order yet
    let before = o.clone();
    assert_eq!(o.cancel(60), Err(Error::UnreachableStatus));
    assert_eq!(o, before);
    o.set_confirmed_by_exchange("1".to_string(), 50).unwrap();
    assert_eq!(o.cancel(40), Ok(()));
    assert_eq!(o.status, OrderStatus::CANCELED);
    assert_eq!(o.update_ts, 50);
    assert_eq!(o.cancel(70), Ok(()));
    assert_eq!(o.update_ts, 70);
    o.status = OrderStatus::FILLED;
    assert_eq!(o.cancel(80), Err(Error::UnreachableStatus));
    assert_eq!(o.update_ts, 70);
}
