use geger::actions_context::ActionsContext;
use geger::engine::Engine;
use geger::event_loop::Actor;
use geger::events::{Event, NewOrderAccepted, OrderUpdate};
use geger::gateway_router::{CancelOrderRequest, ExchangeRequest, NewOrderRequest};
use geger::market_data::{MarketDataEvent, Quote, Trade};
use geger::message_bus::{
    CrossbeamMessageSender, LoggerMessageHandler, Message, MessageSender, SimpleMessage,
};
use geger::sim::broker::SimBrokerConfig;
use geger::sim::environment::SequenceMarketDataProvider;
use geger::types::{ClientOrderId, OrderStatus, OrderType, Side, TimeInForce, Timestamp};

const TRADE_SYMBOL: &str = "test_ok";
const TRADE_EXCHANGE: &str = "test_exchange_ok";
const NON_TRADE_EXCHANGE: &str = "test_exchange_not_ok";

enum MyActors {
    Strategy(TestStrategy),
}

impl<M: Message, MS: MessageSender<M>> Actor<M, MS> for MyActors {
    fn on_event(&mut self, event: &Event, actions_context: &mut ActionsContext<M, MS>) {
        match self {
            MyActors::Strategy(s) => s.on_event(event, actions_context),
        }
    }
}

#[derive(Debug, Clone, PartialEq)]
enum TestStrategyCollectedEvent {
    Event(Event),
    ExchangeRequest(ExchangeRequest),
}

fn quote(exchange: &str, symbol: &str, exchange_ts: u64, bid: i64, ask: i64) -> MarketDataEvent {
    MarketDataEvent::NewQuote(Quote {
        symbol: symbol.to_string(),
        exchange: exchange.to_string(),
        bid,
        ask,
        bid_size: None,
        ask_size: None,
        exchange_timestamp: exchange_ts,
        received_timestamp: exchange_ts,
    })
}

fn trade(exchange: &str, symbol: &str, exchange_ts: u64, last_price: i64) -> MarketDataEvent {
    MarketDataEvent::NewMarketTrade(Trade {
        symbol: symbol.to_string(),
        exchange: exchange.to_string(),
        last_price,
        last_size: 1,
        exchange_timestamp: exchange_ts,
        received_timestamp: exchange_ts,
    })
}

fn single_symbol_md() -> Vec<MarketDataEvent> {
    vec![
        quote(TRADE_EXCHANGE, TRADE_SYMBOL, 1000, 99, 100),
        quote(TRADE_EXCHANGE, TRADE_SYMBOL, 1150, 100, 101),
        quote(TRADE_EXCHANGE, TRADE_SYMBOL, 1300, 101, 102),
        quote(TRADE_EXCHANGE, TRADE_SYMBOL, 1310, 98, 99),
        quote(TRADE_EXCHANGE, TRADE_SYMBOL, 2000, 50, 60),
    ]
}

fn multiple_exchange_symbol_md() -> Vec<MarketDataEvent> {
    let mut md = vec![];
    for k in 0..40u64 {
        let ts = 1000 + 37 * k;
        let price = 100 + ((k * 7) % 11) as i64 - 5;
        match k % 4 {
            0 => md.push(quote(TRADE_EXCHANGE, TRADE_SYMBOL, ts, price - 1, price)),
            1 => md.push(quote(NON_TRADE_EXCHANGE, TRADE_SYMBOL, ts, price - 1, price)),
            2 => md.push(trade(TRADE_EXCHANGE, TRADE_SYMBOL, ts, price)),
            _ => md.push(quote(TRADE_EXCHANGE, "test_other", ts, price - 1, price)),
        }
    }
    md
}

struct TestStrategy {
    last_event_ts: Timestamp,
    last_client_order_id: u64, // should be same as exchange id
    last_request_id: u64,
    open_order: Option<ClientOrderId>,
    open_order_ts: Option<Timestamp>,
    collected_events: Vec<TestStrategyCollectedEvent>,
    max_order_age: u64,
    previous_side: Side,
}

impl TestStrategy {
    fn new() -> Self {
        Self {
            last_event_ts: 0,
            last_client_order_id: 1,
            last_request_id: 0,
            open_order: None,
            open_order_ts: None,
            collected_events: vec![],
            max_order_age: 200,
            previous_side: Side::SELL,
        }
    }

    fn on_order_accepted(&mut self, event: &NewOrderAccepted) {
        assert_eq!(event.exchange_order_id, event.client_order_id);
    }

    fn get_request_id(&mut self) -> String {
        self.last_request_id += 1;
        self.last_request_id.to_string()
    }

    fn on_uds(&mut self, event: &OrderUpdate) {
        match &event.order_status {
            OrderStatus::NEW => {}
            OrderStatus::FILLED => {
                self.open_order = None;
                self.open_order_ts = None;
            }
            OrderStatus::CANCELED => {
                self.open_order = None;
                self.open_order_ts = None;
            }
            other => unreachable!("{:?}", other),
        }
    }

    fn on_quote<M: Message, MS: MessageSender<M>>(
        &mut self,
        event: &Quote,
        actions_context: &mut ActionsContext<M, MS>,
    ) {
        if self.open_order.is_some() {
            return;
        }

        if event.exchange.as_str() != TRADE_EXCHANGE || event.symbol.as_str() != TRADE_SYMBOL {
            return;
        }

        let (side, price) = match &self.previous_side {
            Side::SELL => (Side::BUY, event.ask),
            Side::BUY => (Side::SELL, event.bid),
        };

        self.previous_side = side.clone();

        let new_order_request = NewOrderRequest {
            request_id: self.get_request_id(),
            client_order_id: self.last_client_order_id.to_string(),
            exchange: TRADE_EXCHANGE.to_string(),
            order_type: OrderType::LIMIT,
            time_in_force: TimeInForce::GTC,
            price: Some(price),
            trigger_price: None,
            symbol: TRADE_SYMBOL.to_string(),
            quantity: 1,
            side,
            creation_ts: event.received_timestamp,
        };

        self.open_order = Some(self.last_client_order_id.to_string());
        self.open_order_ts = Some(event.received_timestamp);

        self.last_client_order_id += 1;
        self.collected_events
            .push(TestStrategyCollectedEvent::ExchangeRequest(
                ExchangeRequest::NewOrder(new_order_request.clone()),
            ));
        actions_context.send_order(new_order_request).unwrap();
    }
}

impl<M: Message, MS: MessageSender<M>> Actor<M, MS> for TestStrategy {
    fn on_event(&mut self, event: &Event, actions_context: &mut ActionsContext<M, MS>) {
        if self.last_event_ts > event.timestamp() {
            panic!("wrong timestamp sequence")
        }

        self.last_event_ts = event.timestamp();

        self.collected_events
            .push(TestStrategyCollectedEvent::Event(event.clone()));

        if event.symbol() == TRADE_SYMBOL && event.exchange() == TRADE_EXCHANGE {
            match event {
                Event::NewQuote(_) | Event::NewMarketTrade(_) => {
                    if let Some(order_ts) = self.open_order_ts {
                        let order_age = event.timestamp() - order_ts;
                        if order_age > self.max_order_age {
                            let clio = self.open_order.as_ref().unwrap().clone();
                            let cancel_request = CancelOrderRequest {
                                request_id: self.get_request_id(),
                                client_order_id: clio.clone(),
                                exchange_order_id: clio,
                                exchange: TRADE_EXCHANGE.to_string(),
                                symbol: TRADE_SYMBOL.to_string(),
                                creation_ts: event.timestamp(),
                            };

                            self.collected_events.push(
                                TestStrategyCollectedEvent::ExchangeRequest(
                                    ExchangeRequest::CancelOrder(cancel_request.clone()),
                                ),
                            );
                            actions_context.cancel_order(cancel_request).unwrap();
                        }
                    };
                }
                _ => {}
            }
        }

        match event {
            Event::NewQuote(q) => self.on_quote(q, actions_context),
            Event::UDSOrderUpdate(u) => self.on_uds(u),
            Event::ResponseNewOrderAccepted(e) => self.on_order_accepted(e),
            _ => {}
        };
    }
}

fn run(md: Vec<MarketDataEvent>) -> (Vec<TestStrategyCollectedEvent>, bool) {
    let md_provider = SequenceMarketDataProvider::new(md);
    let strategy = MyActors::Strategy(TestStrategy::new());

    let sim_broker_configs = vec![
        (TRADE_EXCHANGE.to_string(), SimBrokerConfig::new(true, Some(100), Some(5))),
        (NON_TRADE_EXCHANGE.to_string(), SimBrokerConfig::new(true, Some(50), Some(10))),
    ];

    let mut engine: Engine<MyActors, SimpleMessage, CrossbeamMessageSender<SimpleMessage>, LoggerMessageHandler> =
        Engine::new();
    engine.add_exchange(TRADE_EXCHANGE.to_string());
    engine.add_exchange(NON_TRADE_EXCHANGE.to_string());
    engine.add_actor(strategy);
    engine.add_message_handler(LoggerMessageHandler::default());
    let mut parts = engine
        .assemble_with_sim_environment(md_provider, None, sim_broker_configs, true)
        .unwrap();

    while parts.event_loop.step() {}

    let stopped = parts
        .message_receiver
        .unwrap()
        .try_recv()
        .map(|m| m.is_event_loop_stopped_message())
        .unwrap_or(false);
    let collected = match &parts.event_loop.get_actors()[0] {
        MyActors::Strategy(s) => s.collected_events.clone(),
    };
    (collected, stopped)
}

fn describe(collected: &[TestStrategyCollectedEvent]) -> Vec<String> {
    collected
        .iter()
        .map(|c| match c {
            TestStrategyCollectedEvent::ExchangeRequest(ExchangeRequest::NewOrder(r)) => {
                format!("send {:?} {} @{}", r.side, r.client_order_id, r.price.unwrap())
            }
            TestStrategyCollectedEvent::ExchangeRequest(ExchangeRequest::CancelOrder(r)) => {
                format!("cancel {}", r.exchange_order_id)
            }
            TestStrategyCollectedEvent::Event(e) => match e {
                Event::NewQuote(q) => format!("{} quote {}", q.received_timestamp, q.exchange_timestamp),
                Event::NewMarketTrade(t) => {
                    format!("{} trade {}", t.received_timestamp, t.exchange_timestamp)
                }
                Event::ResponseNewOrderAccepted(a) => {
                    format!("{} accepted {} #{}", a.timestamp, a.exchange_order_id, a.event_id)
                }
                Event::ResponseNewOrderRejected(r) => format!("{} rejected {}", r.timestamp, r.reason),
                Event::ResponseCancelOrderAccepted(a) => {
                    format!("{} cancel accepted {} #{}", a.timestamp, a.exchange_order_id, a.event_id)
                }
                Event::ResponseCancelOrderRejected(r) => {
                    format!("{} cancel rejected {} #{}", r.timestamp, r.reason, r.event_id)
                }
                Event::UDSOrderUpdate(u) => format!(
                    "{} update {:?} {:?} #{}",
                    u.timestamp, u.execution_type, u.order_status, u.event_id
                ),
            },
        })
        .collect()
}

#[test]
fn check_event_sequence_single_exchange_symbol() {
    let (collected, stopped) = run(single_symbol_md());
    assert!(stopped);
    assert_eq!(
        describe(&collected),
        vec![
            "1100 quote 1000",
            "send BUY 1 @100",
            "1250 quote 1150",
            "1305 accepted 1 #1",
            "1305 update NEW NEW #2",
            "1400 quote 1300",
            "cancel 1",
            "1410 quote 1310",
            "cancel 1",
            "1415 update TRADE FILLED #3",
            "1605 cancel rejected order not found #4",
            "1615 cancel rejected order not found #5",
            "2100 quote 2000",
            "send SELL 2 @50",
        ]
    );
    // the fill, in full
    let fill = collected
        .iter()
        .find_map(|c| match c {
            TestStrategyCollectedEvent::Event(Event::UDSOrderUpdate(u))
                if u.order_status == OrderStatus::FILLED =>
            {
                Some(u.clone())
            }
            _ => None,
        })
        .unwrap();
    assert_eq!(fill.exchange_timestamp, 1315);
    assert_eq!(fill.last_trade_time, Some(1310));
    assert_eq!(fill.last_filled_price, Some(100));
    assert_eq!(fill.last_filled_qty, Some(1));
    assert_eq!(fill.side, Side::BUY);
    assert_eq!(fill.client_order_id, Some("1".to_string()));
    assert_eq!(fill.exchange, TRADE_EXCHANGE);
    assert_eq!(fill.symbol, TRADE_SYMBOL);
}

#[test]
fn check_event_sequence_multiple_exchanges_symbols() {
    let expected_md_events = multiple_exchange_symbol_md();
    let (collected, stopped) = run(multiple_exchange_symbol_md());
    assert!(stopped);

    // every market-data event reached the strategy once, stamped with the
    // wire latency of its exchange
    let mut collected_md_events = vec![];
    for event in &collected {
        match event {
            TestStrategyCollectedEvent::Event(e) => match e {
                Event::NewQuote(q) => {
                    collected_md_events.push(MarketDataEvent::NewQuote(q.clone()));
                }
                Event::NewMarketTrade(t) => {
                    collected_md_events.push(MarketDataEvent::NewMarketTrade(t.clone()));
                }
                _ => {}
            },
            _ => {}
        }
    }
    assert_eq!(collected_md_events.len(), expected_md_events.len());
    for md in &expected_md_events {
        let wire = if md.exchange() == TRADE_EXCHANGE { 100 } else { 50 };
        let mut seen = md.clone();
        seen.set_timestamp(md.exchange_timestamp() + wire);
        assert_eq!(collected_md_events.iter().filter(|e| **e == seen).count(), 1);
    }

    // the strategy traded: orders were accepted, filled or canceled, and
    // every answer carries the time of its request plus the latencies
    let mut accepted = 0;
    let mut done = 0;
    for event in &collected {
        if let TestStrategyCollectedEvent::Event(e) = event {
            match e {
                Event::ResponseNewOrderAccepted(a) => {
                    accepted += 1;
                    assert_eq!(a.timestamp, a.exchange_timestamp + 100);
                    let request = collected.iter().find_map(|c| match c {
                        TestStrategyCollectedEvent::ExchangeRequest(ExchangeRequest::NewOrder(r))
                            if Some(r.request_id.clone()) == a.request_id =>
                        {
                            Some(r.clone())
                        }
                        _ => None,
                    });
                    assert_eq!(a.timestamp, request.unwrap().creation_ts + 100 + 5 + 100);
                }
                Event::UDSOrderUpdate(u) => {
                    if u.order_status != OrderStatus::NEW {
                        done += 1;
                    }
                    if u.order_status == OrderStatus::FILLED {
                        assert_eq!(u.timestamp, u.last_trade_time.unwrap() + 5 + 100);
                    }
                }
                _ => {}
            }
        }
    }
    assert!(accepted >= 2);
    assert!(done >= 1);
}
