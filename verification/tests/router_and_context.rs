use geger::actions_context::{ActionError, ActionsContext};
use geger::gateway_router::{
    CancelOrderRequest, ExchangeRequest, GatewayRouter, GatewayRouterError, NewOrderRequest,
};
use geger::message_bus::{CrossbeamMessageSender, Message, MessageSender, SimpleMessage};
use geger::types::{OrderType, Side, TimeInForce};

fn new_order(exchange: &str, creation_ts: u64) -> NewOrderRequest {
    NewOrderRequest {
        request_id: "r".to_string(),
        client_order_id: "c".to_string(),
        exchange: exchange.to_string(),
        order_type: OrderType::LIMIT,
        time_in_force: TimeInForce::IOC,
        price: Some(5),
        trigger_price: None,
        symbol: "s".to_string(),
        quantity: 2,
        side: Side::SELL,
        creation_ts,
    }
}

fn cancel(exchange: &str, creation_ts: u64) -> CancelOrderRequest {
    CancelOrderRequest {
        request_id: "r".to_string(),
        client_order_id: "c".to_string(),
        exchange_order_id: "1".to_string(),
        exchange: exchange.to_string(),
        symbol: "s".to_string(),
        creation_ts,
    }
}

#[test]
fn request_creation_time() {
    assert_eq!(ExchangeRequest::NewOrder(new_order("X", 17)).creation_ts(), 17);
    assert_eq!(ExchangeRequest::CancelOrder(cancel("X", 18)).creation_ts(), 18);
}

#[test]
fn router_routes_by_exchange() {
    let mut router = GatewayRouter::new(vec!["A".to_string(), "B".to_string()]);
    let receivers = router.receivers();
    assert_eq!(receivers.len(), 2);
    assert_eq!(receivers[0].0, "A");
    assert_eq!(receivers[1].0, "B");
    assert!(router.send_order(new_order("B", 1)).is_ok());
    assert!(router.cancel_order(cancel("A", 2)).is_ok());
    assert!(router.send_request(ExchangeRequest::NewOrder(new_order("A", 3))).is_ok());
    assert!(router.send_request(ExchangeRequest::CancelOrder(cancel("B", 4))).is_ok());
    let a: Vec<ExchangeRequest> = receivers[0].1.try_iter().collect();
    let b: Vec<ExchangeRequest> = receivers[1].1.try_iter().collect();
    assert_eq!(
        a,
        vec![
            ExchangeRequest::CancelOrder(cancel("A", 2)),
            ExchangeRequest::NewOrder(new_order("A", 3))
        ]
    );
    assert_eq!(
        b,
        vec![
            ExchangeRequest::NewOrder(new_order("B", 1)),
            ExchangeRequest::CancelOrder(cancel("B", 4))
        ]
    );
}

#[test]
fn router_refuses_an_unknown_exchange() {
    let mut router = GatewayRouter::new(vec!["A".to_string()]);
    assert!(matches!(
        router.send_order(new_order("B", 1)),
        Err(GatewayRouterError::UnknownExchange)
    ));
    assert!(matches!(
        router.cancel_order(cancel("", 1)),
        Err(GatewayRouterError::UnknownExchange)
    ));
    assert!(matches!(
        router.send_request(ExchangeRequest::NewOrder(new_order("a", 1))),
        Err(GatewayRouterError::UnknownExchange)
    ));
    let mut empty = GatewayRouter::new(vec![]);
    assert_eq!(empty.receivers().len(), 0);
    assert!(matches!(
        empty.send_order(new_order("A", 1)),
        Err(GatewayRouterError::UnknownExchange)
    ));
}

#[test]
fn router_keeps_one_queue_per_name() {
    let mut router =
        GatewayRouter::new(vec!["A".to_string(), "B".to_string(), "A".to_string()]);
    let receivers = router.receivers();
    assert_eq!(receivers.len(), 2);
    assert_eq!(receivers[0].0, "A");
    assert_eq!(receivers[1].0, "B");
    router.send_order(new_order("A", 1)).unwrap();
    assert_eq!(receivers[0].1.len(), 1);
    assert_eq!(receivers[1].1.len(), 0);
}

#[test]
fn router_clone_shares_the_queues() {
    let router = GatewayRouter::new(vec!["A".to_string()]);
    let mut copy = router.clone();
    copy.send_order(new_order("A", 9)).unwrap();
    let receivers = router.receivers();
    assert_eq!(receivers[0].1.try_recv().unwrap(), ExchangeRequest::NewOrder(new_order("A", 9)));
}

#[test]
fn context_sends_orders() {
    let router = GatewayRouter::new(vec!["A".to_string()]);
    let mut ctx = ActionsContext::new(router);
    let receivers = ctx.exchange_requests_receivers();
    assert_eq!(receivers.len(), 1);
    assert!(ctx.send_order(new_order("A", 1)).is_ok());
    assert!(ctx.cancel_order(cancel("A", 2)).is_ok());
    assert!(ctx.send_exchange_request(ExchangeRequest::NewOrder(new_order("A", 3))).is_ok());
    assert_eq!(receivers[0].1.len(), 3);
    assert!(matches!(
        ctx.send_order(new_order("B", 1)),
        Err(ActionError::GatewayRouterError(GatewayRouterError::UnknownExchange))
    ));
    assert!(matches!(
        ctx.cancel_order(cancel("B", 1)),
        Err(ActionError::GatewayRouterError(GatewayRouterError::UnknownExchange))
    ));
    assert!(matches!(
        ctx.send_exchange_request(ExchangeRequest::CancelOrder(cancel("B", 1))),
        Err(GatewayRouterError::UnknownExchange)
    ));
    assert!(matches!(
        ActionError::from(GatewayRouterError::UnknownExchange),
        ActionError::GatewayRouterError(GatewayRouterError::UnknownExchange)
    ));
}

#[test]
fn context_without_sender_cannot_send_messages() {
    let mut ctx = ActionsContext::new(GatewayRouter::new(vec![]));
    match ctx.send_message(SimpleMessage::new(None, "hello".to_string())) {
        Err(ActionError::ActionNotSupported(text)) => {
            assert_eq!(text, "send_message is not supported")
        }
        other => panic!("unexpected result {:?}", other),
    }
}

#[test]
fn context_with_sender_publishes_messages() {
    let sender: CrossbeamMessageSender<SimpleMessage> = CrossbeamMessageSender::new();
    let receiver = sender.receiver();
    let mut ctx = ActionsContext::new_with_sender(GatewayRouter::new(vec![]), sender);
    let message = SimpleMessage::new(Some("topic".to_string()), "hello".to_string());
    assert!(ctx.send_message(message.clone()).is_ok());
    let mut copy = ctx.clone();
    assert!(copy.send_message(SimpleMessage::new_event_loop_stopped_message()).is_ok());
    assert_eq!(receiver.try_recv().unwrap(), message);
    let last = receiver.try_recv().unwrap();
    assert!(last.is_event_loop_stopped_message());
    assert_eq!(last.get_topic(), None);
    assert_eq!(last.content, "");
    assert!(receiver.try_recv().is_err());
}

#[test]
fn queue_sender_reports_a_closed_queue() {
    #[derive(Debug, Clone)]
    struct Failing;
    impl MessageSender<SimpleMessage> for Failing {
        fn send_message(&mut self, _message: SimpleMessage) -> Result<(), String> {
            Err("closed".to_string())
        }
    }
    let mut ctx = ActionsContext::new_with_sender(GatewayRouter::new(vec![]), Failing);
    match ctx.send_message(SimpleMessage::new(None, "x".to_string())) {
        Err(ActionError::SendMessageError(text)) => assert_eq!(text, "closed"),
        other => panic!("unexpected result {:?}", other),
    }
    let mut sender: CrossbeamMessageSender<SimpleMessage> = CrossbeamMessageSender::new();
    assert_eq!(sender.send_message(SimpleMessage::new(None, "x".to_string())), Ok(()));
    assert_eq!(sender.receiver().len(), 1);
}
