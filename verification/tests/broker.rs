use crossbeam_channel::{unbounded, Receiver, Sender};
use geger::events::{Event, OrderUpdate};
use geger::gateway_router::{CancelOrderRequest, ExchangeRequest, NewOrderRequest};
use geger::market_data::{MarketDataEvent, Quote, Trade};
use geger::sim::broker::{SimBroker, SimBrokerConfig};
use geger::sim::environment::SimulatedBroker;
use geger::types::{ExecutionType, OrderStatus, OrderType, Side, TimeInForce};

const EXCHANGE: &str = "X";
const SYMBOL: &str = "BTCUSD";

fn broker(strict: bool, wire: u64, internal: u64) -> (SimBroker, Sender<ExchangeRequest>) {
    let (sender, receiver): (Sender<ExchangeRequest>, Receiver<ExchangeRequest>) = unbounded();
    (
        SimBroker::new(EXCHANGE.to_string(), receiver, strict, Some(wire), Some(internal)),
        sender,
    )
}

fn quote(exchange_ts: u64, bid: i64, ask: i64) -> MarketDataEvent {
    MarketDataEvent::NewQuote(Quote {
        symbol: SYMBOL.to_string(),
        exchange: EXCHANGE.to_string(),
        bid,
        ask,
        bid_size: None,
        ask_size: None,
        exchange_timestamp: exchange_ts,
        received_timestamp: 0,
    })
}

fn trade(exchange_ts: u64, last_price: i64) -> MarketDataEvent {
    MarketDataEvent::NewMarketTrade(Trade {
        symbol: SYMBOL.to_string(),
        exchange: EXCHANGE.to_string(),
        last_price,
        last_size: 3,
        exchange_timestamp: exchange_ts,
        received_timestamp: 0,
    })
}

fn order(
    request_id: &str,
    client_order_id: &str,
    order_type: OrderType,
    side: Side,
    price: i64,
    creation_ts: u64,
) -> NewOrderRequest {
    NewOrderRequest {
        request_id: request_id.to_string(),
        client_order_id: client_order_id.to_string(),
        exchange: EXCHANGE.to_string(),
        order_type,
        time_in_force: TimeInForce::GTC,
        price: Some(price),
        trigger_price: Some(price + 7),
        symbol: SYMBOL.to_string(),
        quantity: 1,
        side,
        creation_ts,
    }
}

fn limit(request_id: &str, client_order_id: &str, side: Side, price: i64, creation_ts: u64) -> ExchangeRequest {
    ExchangeRequest::NewOrder(order(request_id, client_order_id, OrderType::LIMIT, side, price, creation_ts))
}

fn cancel(request_id: &str, client_order_id: &str, exchange_order_id: &str, creation_ts: u64) -> ExchangeRequest {
    ExchangeRequest::CancelOrder(CancelOrderRequest {
        request_id: request_id.to_string(),
        client_order_id: client_order_id.to_string(),
        exchange_order_id: exchange_order_id.to_string(),
        exchange: EXCHANGE.to_string(),
        symbol: SYMBOL.to_string(),
        creation_ts,
    })
}

fn update(event: &Event) -> &OrderUpdate {
    match event {
        Event::UDSOrderUpdate(u) => u,
        other => panic!("not an order update: {:?}", other),
    }
}

#[test]
fn market_data_is_forwarded_with_the_wire_latency() {
    let (mut b, _s) = broker(true, 100, 5);
    let events = b.tick_market_data(vec![], &quote(1000, 99, 100));
    assert_eq!(events.len(), 1);
    match &events[0] {
        Event::NewQuote(q) => {
            assert_eq!(q.exchange_timestamp, 1000);
            assert_eq!(q.received_timestamp, 1100);
            assert_eq!(q.bid, 99);
            assert_eq!(q.ask, 100);
            assert_eq!(q.symbol, SYMBOL);
            assert_eq!(q.exchange, EXCHANGE);
        }
        other => panic!("unexpected event {:?}", other),
    }
    let events = b.tick_market_data(vec![], &trade(1001, 50));
    assert_eq!(events.len(), 1);
    match &events[0] {
        Event::NewMarketTrade(t) => {
            assert_eq!(t.received_timestamp, 1101);
            assert_eq!(t.last_price, 50);
            assert_eq!(t.last_size, 3);
        }
        other => panic!("unexpected event {:?}", other),
    }
    assert_eq!(b.estimate_market_data_timestamp(&quote(7, 1, 2)), 107);
    assert_eq!(b.wire_latency(), 100);
    assert_eq!(b.exchange(), EXCHANGE);
}

#[test]
fn accept_and_fill() {
    // One exchange with wire latency 100 and internal latency 5. The
    // strategy sees the first quote at 1100 and sends a BUY LIMIT 1@100.
    let (mut b, _s) = broker(true, 100, 5);
    let events = b.tick_market_data(vec![], &quote(1000, 99, 100));
    assert_eq!(events.len(), 1);
    assert_eq!(events[0].timestamp(), 1100);

    // The request reaches the venue at 1200; a tick before that leaves it
    // pending.
    let events = b.tick(vec![limit("r1", "c1", Side::BUY, 100, 1100)], 1199);
    assert_eq!(events.len(), 0);

    // The next quote does not cross the order: the ask is above its price.
    let events = b.tick_market_data(vec![], &quote(2000, 100, 101));
    assert_eq!(events.len(), 3);
    assert_eq!(events[0].timestamp(), 2100);
    match &events[1] {
        Event::ResponseNewOrderAccepted(a) => {
            assert_eq!(a.event_id, "1");
            assert_eq!(a.request_id, Some("r1".to_string()));
            assert_eq!(a.exchange_timestamp, 1205);
            assert_eq!(a.timestamp, 1305);
            assert_eq!(a.client_order_id, "c1");
            assert_eq!(a.exchange_order_id, "1");
            assert_eq!(a.exchange, EXCHANGE);
            assert_eq!(a.symbol, SYMBOL);
        }
        other => panic!("unexpected event {:?}", other),
    }
    let new = update(&events[2]);
    assert_eq!(new.event_id, "2");
    assert_eq!(new.exchange_timestamp, 1205);
    assert_eq!(new.timestamp, 1305);
    assert_eq!(new.execution_type, ExecutionType::NEW);
    assert_eq!(new.order_status, OrderStatus::NEW);
    assert_eq!(new.side, Side::BUY);
    assert_eq!(new.client_order_id, Some("c1".to_string()));
    assert_eq!(new.exchange_order_id, Some("1".to_string()));
    assert_eq!(new.order_type, Some(OrderType::LIMIT));
    assert_eq!(new.time_in_force, Some(TimeInForce::GTC));
    assert_eq!(new.original_qty, 1);
    assert_eq!(new.original_price, Some(100));
    assert_eq!(new.average_price, None);
    assert_eq!(new.stop_price, None);
    assert_eq!(new.last_filled_qty, None);
    assert_eq!(new.accumulated_filled_qty, None);
    assert_eq!(new.last_filled_price, None);
    assert_eq!(new.last_trade_time, None);

    // A quote whose ask reaches the price fills the order.
    let events = b.tick_market_data(vec![], &quote(3000, 99, 100));
    assert_eq!(events.len(), 2);
    assert_eq!(events[0].timestamp(), 3100);
    let fill = update(&events[1]);
    assert_eq!(fill.event_id, "3");
    assert_eq!(fill.execution_type, ExecutionType::TRADE);
    assert_eq!(fill.order_status, OrderStatus::FILLED);
    assert_eq!(fill.exchange_timestamp, 3005);
    assert_eq!(fill.timestamp, 3105);
    assert_eq!(fill.last_filled_price, Some(100));
    assert_eq!(fill.average_price, Some(100));
    assert_eq!(fill.original_price, Some(100));
    assert_eq!(fill.last_filled_qty, Some(1));
    assert_eq!(fill.accumulated_filled_qty, Some(1));
    assert_eq!(fill.last_trade_time, Some(3000));
    assert_eq!(fill.client_order_id, Some("c1".to_string()));
    assert_eq!(fill.exchange_order_id, Some("1".to_string()));
    assert_eq!(fill.stop_price, None);

    // The order is done: the same quote again fills nothing.
    let events = b.tick_market_data(vec![], &quote(3001, 99, 100));
    assert_eq!(events.len(), 1);
}

#[test]
fn fill_is_stamped_by_the_market_data_that_fills() {
    let (mut b, _s) = broker(true, 100, 5);
    let events = b.tick_market_data(
        vec![limit("r1", "c1", Side::BUY, 100, 1100)],
        &quote(2000, 99, 100),
    );
    // forwarded quote, acknowledgment, NEW update, fill
    assert_eq!(events.len(), 4);
    let fill = update(&events[3]);
    assert_eq!(fill.order_status, OrderStatus::FILLED);
    assert_eq!(fill.exchange_timestamp, 2005);
    assert_eq!(fill.timestamp, 2105);
    assert_eq!(fill.last_trade_time, Some(2000));
}

#[test]
fn duplicate_client_order_id_is_rejected() {
    let (mut b, _s) = broker(true, 10, 1);
    let events = b.tick(
        vec![
            limit("r1", "same", Side::BUY, 100, 0),
            limit("r2", "same", Side::SELL, 200, 0),
        ],
        1000,
    );
    assert_eq!(events.len(), 3);
    assert!(matches!(events[0], Event::ResponseNewOrderAccepted(_)));
    assert!(matches!(events[1], Event::UDSOrderUpdate(_)));
    match &events[2] {
        Event::ResponseNewOrderRejected(r) => {
            assert_eq!(r.reason, "duplicate client order id");
            assert_eq!(r.event_id, "3");
            assert_eq!(r.request_id, Some("r2".to_string()));
            assert_eq!(r.client_order_id, "same");
            assert_eq!(r.exchange_timestamp, 11);
            assert_eq!(r.timestamp, 21);
            assert_eq!(r.exchange, EXCHANGE);
            assert_eq!(r.symbol, SYMBOL);
        }
        other => panic!("unexpected event {:?}", other),
    }
    // No second order exists: a quote that would fill the SELL at 200 fills
    // nothing, and one that crosses the BUY at 100 fills one order.
    let events = b.tick_market_data(vec![], &quote(2000, 300, 301));
    assert_eq!(events.len(), 1);
    let events = b.tick_market_data(vec![], &quote(2001, 99, 100));
    assert_eq!(events.len(), 2);
    assert_eq!(update(&events[1]).exchange_order_id, Some("1".to_string()));
    // The next accepted order gets the number 2.
    let events = b.tick(vec![limit("r3", "other", Side::BUY, 1, 3000)], 4000);
    match &events[0] {
        Event::ResponseNewOrderAccepted(a) => assert_eq!(a.exchange_order_id, "2"),
        other => panic!("unexpected event {:?}", other),
    }
}

#[test]
fn cancel_of_unknown_order_is_rejected() {
    let (mut b, _s) = broker(true, 10, 1);
    let events = b.tick(vec![cancel("r1", "c9", "999", 100)], 1000);
    assert_eq!(events.len(), 1);
    match &events[0] {
        Event::ResponseCancelOrderRejected(r) => {
            assert_eq!(r.reason, "order not found");
            assert_eq!(r.event_id, "1");
            assert_eq!(r.request_id, Some("r1".to_string()));
            assert_eq!(r.client_order_id, "c9");
            assert_eq!(r.exchange_order_id, Some("999".to_string()));
            assert_eq!(r.exchange_timestamp, 111);
            assert_eq!(r.timestamp, 121);
        }
        other => panic!("unexpected event {:?}", other),
    }
}

#[test]
fn cancel_with_an_id_that_is_no_number_is_rejected() {
    let (mut b, _s) = broker(true, 10, 1);
    let events = b.tick(
        vec![
            limit("r1", "c1", Side::BUY, 100, 0),
            cancel("r2", "c1", "one", 0),
            cancel("r3", "c1", "", 0),
            cancel("r4", "c1", "-1", 0),
        ],
        1000,
    );
    assert_eq!(events.len(), 5);
    for k in 2..5 {
        match &events[k] {
            Event::ResponseCancelOrderRejected(r) => {
                assert_eq!(r.reason, "invalid exchange order id")
            }
            other => panic!("unexpected event {:?}", other),
        }
    }
}

#[test]
fn cancel_of_an_open_order() {
    let (mut b, _s) = broker(true, 100, 5);
    let events = b.tick(vec![limit("r1", "c1", Side::BUY, 100, 1100)], 1200);
    assert_eq!(events.len(), 2);
    let events = b.tick(vec![cancel("r2", "ignored", "1", 1500)], 1600);
    assert_eq!(events.len(), 2);
    match &events[0] {
        Event::ResponseCancelOrderAccepted(a) => {
            assert_eq!(a.event_id, "3");
            assert_eq!(a.request_id, Some("r2".to_string()));
            assert_eq!(a.client_order_id, "c1");
            assert_eq!(a.exchange_order_id, "1");
            assert_eq!(a.exchange_timestamp, 1605);
            assert_eq!(a.timestamp, 1705);
        }
        other => panic!("unexpected event {:?}", other),
    }
    let u = update(&events[1]);
    assert_eq!(u.event_id, "4");
    assert_eq!(u.execution_type, ExecutionType::CANCELED);
    assert_eq!(u.order_status, OrderStatus::CANCELED);
    assert_eq!(u.exchange_timestamp, 1605);
    assert_eq!(u.timestamp, 1705);
    assert_eq!(u.client_order_id, Some("c1".to_string()));
    assert_eq!(u.exchange_order_id, Some("1".to_string()));
    assert_eq!(u.original_price, Some(100));
    assert_eq!(u.average_price, None);
    assert_eq!(u.stop_price, None);
    assert_eq!(u.accumulated_filled_qty, None);
    // The order is gone: a second cancel finds nothing, and market data
    // fills nothing.
    let events = b.tick(vec![cancel("r3", "c1", "1", 1700)], 1800);
    match &events[0] {
        Event::ResponseCancelOrderRejected(r) => assert_eq!(r.reason, "order not found"),
        other => panic!("unexpected event {:?}", other),
    }
    let events = b.tick_market_data(vec![], &quote(2000, 1, 2));
    assert_eq!(events.len(), 1);
}

#[test]
fn cancel_accepts_the_forms_of_a_number() {
    let (mut b, _s) = broker(true, 0, 0);
    b.tick(
        vec![limit("r1", "c1", Side::BUY, 100, 0), limit("r2", "c2", Side::BUY, 100, 0)],
        0,
    );
    let events = b.tick(vec![cancel("r3", "c1", "+1", 0), cancel("r4", "c2", "002", 0)], 0);
    assert_eq!(events.len(), 4);
    match &events[0] {
        Event::ResponseCancelOrderAccepted(a) => assert_eq!(a.exchange_order_id, "1"),
        other => panic!("unexpected event {:?}", other),
    }
    match &events[2] {
        Event::ResponseCancelOrderAccepted(a) => assert_eq!(a.exchange_order_id, "2"),
        other => panic!("unexpected event {:?}", other),
    }
}

#[test]
fn liquidation_orders_are_booked_and_rest() {
    let (mut b, _s) = broker(false, 10, 1);
    let request = order("r1", "c1", OrderType::LIQUIDATION, Side::BUY, 100, 0);
    let events = b.tick(vec![ExchangeRequest::NewOrder(request)], 1000);
    assert_eq!(events.len(), 2);
    match &events[0] {
        Event::ResponseNewOrderAccepted(a) => assert_eq!(a.exchange_order_id, "1"),
        other => panic!("unexpected event {:?}", other),
    }
    assert_eq!(update(&events[1]).order_type, Some(OrderType::LIQUIDATION));
    // The client order id is used up.
    let events = b.tick(vec![limit("r2", "c1", Side::BUY, 100, 0)], 1000);
    match &events[0] {
        Event::ResponseNewOrderRejected(r) => assert_eq!(r.reason, "duplicate client order id"),
        other => panic!("unexpected event {:?}", other),
    }
    // The order never matches, and is canceled with neither price.
    assert_eq!(b.tick_market_data(vec![], &quote(2000, 1, 2)).len(), 1);
    assert_eq!(b.tick_market_data(vec![], &trade(2001, 1)).len(), 1);
    let events = b.tick(vec![cancel("r3", "c1", "1", 3000)], 4000);
    assert_eq!(events.len(), 2);
    let canceled = update(&events[1]);
    assert_eq!(canceled.order_status, OrderStatus::CANCELED);
    assert_eq!(canceled.original_price, None);
    assert_eq!(canceled.stop_price, None);
}

#[test]
fn market_and_stop_orders_rest() {
    let (mut b, _s) = broker(false, 0, 0);
    let market = order("r1", "m", OrderType::MARKET, Side::BUY, 100, 0);
    let stop = order("r2", "s", OrderType::STOP, Side::SELL, 100, 0);
    let events = b.tick(
        vec![ExchangeRequest::NewOrder(market), ExchangeRequest::NewOrder(stop)],
        0,
    );
    assert_eq!(events.len(), 4);
    // The update of a new order repeats the price of the request.
    assert_eq!(update(&events[1]).original_price, Some(100));
    let events = b.tick_market_data(vec![], &quote(10, 100, 100));
    assert_eq!(events.len(), 1);
    let events = b.tick_market_data(vec![], &trade(11, 100));
    assert_eq!(events.len(), 1);
    // Canceled, they show the prices that the order kept: a MARKET order
    // none, a STOP order its trigger price.
    let events = b.tick(vec![cancel("r3", "m", "1", 20), cancel("r4", "s", "2", 20)], 20);
    assert_eq!(events.len(), 4);
    let m = update(&events[1]);
    assert_eq!(m.original_price, None);
    assert_eq!(m.stop_price, None);
    let s = update(&events[3]);
    assert_eq!(s.original_price, None);
    assert_eq!(s.stop_price, Some(107));
}

fn fills(strict: bool, side: Side, price: i64, md: MarketDataEvent) -> bool {
    let (mut b, _s) = broker(strict, 0, 0);
    let events = b.tick(vec![limit("r", "c", side, price, 0)], 0);
    assert_eq!(events.len(), 2);
    let events = b.tick_market_data(vec![], &md);
    assert!(events.len() == 1 || events.len() == 2);
    events.len() == 2
}

#[test]
fn fill_predicate_for_quotes() {
    for strict in [true, false] {
        // BUY fills when the ask is at or below the price.
        assert!(fills(strict, Side::BUY, 100, quote(10, 98, 99)));
        assert!(fills(strict, Side::BUY, 100, quote(10, 99, 100)));
        assert!(!fills(strict, Side::BUY, 100, quote(10, 100, 101)));
        // SELL fills when the bid is at or above the price.
        assert!(fills(strict, Side::SELL, 100, quote(10, 101, 102)));
        assert!(fills(strict, Side::SELL, 100, quote(10, 100, 101)));
        assert!(!fills(strict, Side::SELL, 100, quote(10, 99, 100)));
    }
}

#[test]
fn fill_predicate_for_trades() {
    // strict: only a print beyond the price fills
    assert!(fills(true, Side::BUY, 100, trade(10, 99)));
    assert!(!fills(true, Side::BUY, 100, trade(10, 100)));
    assert!(!fills(true, Side::BUY, 100, trade(10, 101)));
    assert!(fills(true, Side::SELL, 100, trade(10, 101)));
    assert!(!fills(true, Side::SELL, 100, trade(10, 100)));
    assert!(!fills(true, Side::SELL, 100, trade(10, 99)));
    // loose: a print at the price fills too
    assert!(fills(false, Side::BUY, 100, trade(10, 99)));
    assert!(fills(false, Side::BUY, 100, trade(10, 100)));
    assert!(!fills(false, Side::BUY, 100, trade(10, 101)));
    assert!(fills(false, Side::SELL, 100, trade(10, 101)));
    assert!(fills(false, Side::SELL, 100, trade(10, 100)));
    assert!(!fills(false, Side::SELL, 100, trade(10, 99)));
}

#[test]
fn negative_prices_compare_as_numbers() {
    assert!(fills(true, Side::BUY, -5, quote(10, -7, -6)));
    assert!(!fills(true, Side::BUY, -5, quote(10, -5, -4)));
    assert!(fills(true, Side::SELL, -5, trade(10, -4)));
}

#[test]
fn no_look_ahead_fill() {
    // The order exists at the venue from 1205 on. Market data produced
    // before that does not fill it, whatever its price.
    let (mut b, _s) = broker(true, 100, 5);
    let events = b.tick_market_data(
        vec![limit("r1", "c1", Side::BUY, 100, 1100)],
        &quote(1204, 1, 2),
    );
    assert_eq!(events.len(), 3);
    assert_eq!(update(&events[2]).order_status, OrderStatus::NEW);
    // Market data of the very moment fills.
    let events = b.tick_market_data(vec![], &quote(1205, 1, 2));
    assert_eq!(events.len(), 2);
    let fill = update(&events[1]);
    assert_eq!(fill.execution_type, ExecutionType::TRADE);
    assert_eq!(fill.last_trade_time, Some(1205));
}

#[test]
fn other_symbols_do_not_fill() {
    let (mut b, _s) = broker(true, 0, 0);
    b.tick(vec![limit("r", "c", Side::BUY, 100, 0)], 0);
    let other = MarketDataEvent::NewQuote(Quote {
        symbol: "ETHUSD".to_string(),
        exchange: EXCHANGE.to_string(),
        bid: 1,
        ask: 2,
        bid_size: Some(4),
        ask_size: Some(5),
        exchange_timestamp: 10,
        received_timestamp: 0,
    });
    let events = b.tick_market_data(vec![], &other);
    assert_eq!(events.len(), 1);
    match &events[0] {
        Event::NewQuote(q) => {
            assert_eq!(q.bid_size, Some(4));
            assert_eq!(q.ask_size, Some(5));
        }
        other => panic!("unexpected event {:?}", other),
    }
}

#[test]
fn limit_order_without_a_price_rests() {
    let (mut b, _s) = broker(false, 0, 0);
    let mut request = order("r", "c", OrderType::LIMIT, Side::BUY, 100, 0);
    request.price = None;
    b.tick(vec![ExchangeRequest::NewOrder(request)], 0);
    let events = b.tick_market_data(vec![], &quote(10, 1, 2));
    assert_eq!(events.len(), 1);
}

#[test]
fn fills_come_in_book_order_and_first_match_wins() {
    let (mut b, _s) = broker(true, 0, 0);
    b.tick(
        vec![
            limit("r1", "a", Side::BUY, 100, 0),
            limit("r2", "b", Side::BUY, 90, 0),
            limit("r3", "c", Side::BUY, 110, 0),
        ],
        0,
    );
    // ask 95: fills a (100) and c (110), not b (90)
    let events = b.tick_market_data(vec![], &quote(10, 94, 95));
    assert_eq!(events.len(), 3);
    assert_eq!(update(&events[1]).client_order_id, Some("a".to_string()));
    assert_eq!(update(&events[2]).client_order_id, Some("c".to_string()));
    // ask 91: still not b
    let events = b.tick_market_data(vec![], &quote(11, 90, 91));
    assert_eq!(events.len(), 1);
    // ask 90: b, at its own price
    let events = b.tick_market_data(vec![], &quote(12, 89, 90));
    assert_eq!(events.len(), 2);
    let fill = update(&events[1]);
    assert_eq!(fill.client_order_id, Some("b".to_string()));
    assert_eq!(fill.last_filled_price, Some(90));
    assert_eq!(fill.exchange_order_id, Some("2".to_string()));
}

#[test]
fn requests_wait_for_the_wire_latency_and_run_in_arrival_order() {
    let (mut b, _s) = broker(true, 100, 5);
    let events = b.tick(
        vec![
            limit("late", "c1", Side::BUY, 1, 500),
            limit("early", "c2", Side::BUY, 1, 100),
        ],
        300,
    );
    // Only the second request is due at 300 (it reached the venue at 200).
    assert_eq!(events.len(), 2);
    match &events[0] {
        Event::ResponseNewOrderAccepted(a) => {
            assert_eq!(a.request_id, Some("early".to_string()));
            assert_eq!(a.exchange_order_id, "1");
            assert_eq!(a.timestamp, 305);
        }
        other => panic!("unexpected event {:?}", other),
    }
    let events = b.tick(vec![limit("third", "c3", Side::BUY, 1, 0)], 599);
    assert_eq!(events.len(), 2);
    match &events[0] {
        Event::ResponseNewOrderAccepted(a) => {
            assert_eq!(a.request_id, Some("third".to_string()))
        }
        other => panic!("unexpected event {:?}", other),
    }
    let events = b.tick(vec![], 600);
    assert_eq!(events.len(), 2);
    match &events[0] {
        Event::ResponseNewOrderAccepted(a) => {
            assert_eq!(a.request_id, Some("late".to_string()));
            assert_eq!(a.exchange_order_id, "3");
            assert_eq!(a.exchange_timestamp, 605);
            assert_eq!(a.timestamp, 705);
        }
        other => panic!("unexpected event {:?}", other),
    }
}

#[test]
fn exchange_order_ids_count_up_from_one() {
    let (mut b, _s) = broker(true, 0, 0);
    let mut requests = vec![];
    for k in 0..12 {
        requests.push(limit(&format!("r{}", k), &format!("c{}", k), Side::BUY, 1, 0));
    }
    let events = b.tick(requests, 0);
    assert_eq!(events.len(), 24);
    for k in 0..12 {
        match &events[2 * k] {
            Event::ResponseNewOrderAccepted(a) => {
                assert_eq!(a.exchange_order_id, (k + 1).to_string());
                assert_eq!(a.event_id, (2 * k + 1).to_string());
            }
            other => panic!("unexpected event {:?}", other),
        }
    }
}

#[test]
fn timestamps_saturate() {
    let (mut b, _s) = broker(true, u64::MAX, 5);
    let events = b.tick_market_data(vec![], &quote(1000, 1, 2));
    assert_eq!(events[0].timestamp(), u64::MAX);
    let events = b.tick(vec![limit("r", "c", Side::BUY, 1, 7)], u64::MAX);
    match &events[0] {
        Event::ResponseNewOrderAccepted(a) => {
            assert_eq!(a.exchange_timestamp, u64::MAX);
            assert_eq!(a.timestamp, u64::MAX);
        }
        other => panic!("unexpected event {:?}", other),
    }
}

#[test]
fn broker_reads_its_queue() {
    // What is sent on the queue is what a tick processes.
    let (mut b, sender) = broker(true, 100, 5);
    sender.send(limit("r1", "c1", Side::BUY, 100, 1100)).unwrap();
    let events = b.on_new_timestamp(1199);
    assert_eq!(events.len(), 0);
    sender.send(cancel("r2", "c1", "1", 1150)).unwrap();
    let events = b.on_new_market_data(&quote(1300, 200, 201));
    assert_eq!(events.len(), 5);
    assert!(matches!(events[0], Event::NewQuote(_)));
    assert!(matches!(events[1], Event::ResponseNewOrderAccepted(_)));
    assert!(matches!(events[2], Event::UDSOrderUpdate(_)));
    assert!(matches!(events[3], Event::ResponseCancelOrderAccepted(_)));
    assert_eq!(update(&events[4]).order_status, OrderStatus::CANCELED);
    let events = b.on_new_timestamp(5000);
    assert_eq!(events.len(), 0);
}

#[test]
fn broker_configuration() {
    let c = SimBrokerConfig::new(true, Some(100), Some(5));
    assert!(c.strict_execution);
    assert_eq!(c.wire_latency, 100);
    assert_eq!(c.internal_latency, 5);
    let c = SimBrokerConfig::new(false, None, None);
    assert_eq!(c, SimBrokerConfig::default());
    assert_eq!(c.wire_latency, 0);
    assert_eq!(c.internal_latency, 0);
    assert!(!c.strict_execution);
    let (_s, receiver): (Sender<ExchangeRequest>, Receiver<ExchangeRequest>) = unbounded();
    let mut b = SimBroker::with_config(
        "Y".to_string(),
        receiver,
        SimBrokerConfig::new(true, Some(3), Some(4)),
    );
    assert_eq!(b.exchange(), "Y");
    assert_eq!(b.wire_latency(), 3);
    // strict: a print at the price does not fill
    b.tick(vec![limit("r", "c", Side::BUY, 100, 0)], 10);
    assert_eq!(b.tick_market_data(vec![], &trade(20, 100)).len(), 1);
    let events = b.tick_market_data(vec![], &trade(21, 99));
    assert_eq!(events.len(), 2);
    assert_eq!(update(&events[1]).timestamp, 21 + 4 + 3);
}

#[test]
fn steps_of_a_tick() {
    let (mut b, _s) = broker(true, 10, 1);
    assert_eq!(b.next_public_event_id(), "1");
    assert_eq!(b.next_public_event_id(), "2");
    b.take_requests(vec![limit("r1", "c1", Side::BUY, 100, 5)]);
    b.execute_requests_after_ts(14);
    assert_eq!(b.get_generated_events().len(), 0);
    b.execute_requests_after_ts(15);
    let events = b.get_generated_events();
    assert_eq!(events.len(), 2);
    match &events[0] {
        Event::ResponseNewOrderAccepted(a) => assert_eq!(a.event_id, "3"),
        other => panic!("unexpected event {:?}", other),
    }
    assert_eq!(b.get_generated_events().len(), 0);
    b.update_orders_on_md(&quote(100, 1, 2));
    let events = b.get_generated_events();
    assert_eq!(events.len(), 1);
    assert_eq!(update(&events[0]).event_id, "5");
    b.on_new_order_request(&order("r2", "c1", OrderType::LIMIT, Side::BUY, 1, 0), 50);
    b.on_cancel_order_requests(
        &CancelOrderRequest {
            request_id: "r3".to_string(),
            client_order_id: "x".to_string(),
            exchange_order_id: "1".to_string(),
            exchange: EXCHANGE.to_string(),
            symbol: SYMBOL.to_string(),
            creation_ts: 0,
        },
        60,
    );
    let events = b.get_generated_events();
    assert_eq!(events.len(), 2);
    assert!(matches!(events[0], Event::ResponseNewOrderRejected(_)));
    // order 1 was filled, so it cannot be canceled any more
    assert!(matches!(events[1], Event::ResponseCancelOrderRejected(_)));
    b.process_requests(vec![limit("r4", "c4", Side::SELL, 1, 0)], 100);
    assert_eq!(b.get_generated_events().len(), 2);
}
