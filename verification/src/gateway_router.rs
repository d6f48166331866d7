//! Requests that a strategy sends to a venue, and the router that carries
//! each request to the queue of the broker of its exchange.

use vstd::prelude::*;
use crossbeam_channel::{Receiver, SendError, Sender};
use crate::types::{
    ClientOrderId, Exchange, ExchangeOrderId, ExchangeRequestID, OrderType, Price, Quantity,
    Side, Symbol, TimeInForce, Timestamp,
};

verus! {

/// A request to place an order.
#[derive(Debug, PartialEq, Eq)]
pub struct NewOrderRequest {
    pub request_id: ExchangeRequestID,
    pub client_order_id: ClientOrderId,
    pub exchange: Exchange,
    pub order_type: OrderType,
    pub time_in_force: TimeInForce,
    pub price: Option<Price>,
    pub trigger_price: Option<Price>,
    pub symbol: Symbol,
    pub quantity: Quantity,
    pub side: Side,
    /// When the strategy created the request.
    pub creation_ts: Timestamp,
}

/// A request to cancel an order.
#[derive(Debug, PartialEq, Eq)]
pub struct CancelOrderRequest {
    pub request_id: ExchangeRequestID,
    pub client_order_id: ClientOrderId,
    pub exchange_order_id: ExchangeOrderId,
    pub exchange: Exchange,
    pub symbol: Symbol,
    /// When the strategy created the request.
    pub creation_ts: Timestamp,
}

/// A request on its way to a venue.
#[derive(Debug, PartialEq, Eq)]
pub enum ExchangeRequest {
    NewOrder(NewOrderRequest),
    CancelOrder(CancelOrderRequest),
}

/// The model of a `NewOrderRequest`.
pub struct NewOrderRequestView {
    pub request_id: Seq<char>,
    pub client_order_id: Seq<char>,
    pub exchange: Seq<char>,
    pub order_type: OrderType,
    pub time_in_force: TimeInForce,
    pub price: Option<Price>,
    pub trigger_price: Option<Price>,
    pub symbol: Seq<char>,
    pub quantity: Quantity,
    pub side: Side,
    pub creation_ts: Timestamp,
}

/// The model of a `CancelOrderRequest`.
pub struct CancelOrderRequestView {
    pub request_id: Seq<char>,
    pub client_order_id: Seq<char>,
    pub exchange_order_id: Seq<char>,
    pub exchange: Seq<char>,
    pub symbol: Seq<char>,
    pub creation_ts: Timestamp,
}

/// The model of an `ExchangeRequest`.
pub enum ExchangeRequestView {
    NewOrder(NewOrderRequestView),
    CancelOrder(CancelOrderRequestView),
}

impl View for NewOrderRequest {
    type V = NewOrderRequestView;

    open spec fn view(&self) -> NewOrderRequestView {
        NewOrderRequestView {
            request_id: self.request_id@,
            client_order_id: self.client_order_id@,
            exchange: self.exchange@,
            order_type: self.order_type,
            time_in_force: self.time_in_force,
            price: self.price,
            trigger_price: self.trigger_price,
            symbol: self.symbol@,
            quantity: self.quantity,
            side: self.side,
            creation_ts: self.creation_ts,
        }
    }
}

impl View for CancelOrderRequest {
    type V = CancelOrderRequestView;

    open spec fn view(&self) -> CancelOrderRequestView {
        CancelOrderRequestView {
            request_id: self.request_id@,
            client_order_id: self.client_order_id@,
            exchange_order_id: self.exchange_order_id@,
            exchange: self.exchange@,
            symbol: self.symbol@,
            creation_ts: self.creation_ts,
        }
    }
}

impl View for ExchangeRequest {
    type V = ExchangeRequestView;

    open spec fn view(&self) -> ExchangeRequestView {
        match self {
            ExchangeRequest::NewOrder(r) => ExchangeRequestView::NewOrder(r@),
            ExchangeRequest::CancelOrder(r) => ExchangeRequestView::CancelOrder(r@),
        }
    }
}

impl Clone for NewOrderRequest {
    fn clone(&self) -> (r: Self)
        ensures
            r == *self,
    {
        NewOrderRequest {
            request_id: self.request_id.clone(),
            client_order_id: self.client_order_id.clone(),
            exchange: self.exchange.clone(),
            order_type: self.order_type,
            time_in_force: self.time_in_force,
            price: self.price,
            trigger_price: self.trigger_price,
            symbol: self.symbol.clone(),
            quantity: self.quantity,
            side: self.side,
            creation_ts: self.creation_ts,
        }
    }
}

impl Clone for CancelOrderRequest {
    fn clone(&self) -> (r: Self)
        ensures
            r == *self,
    {
        CancelOrderRequest {
            request_id: self.request_id.clone(),
            client_order_id: self.client_order_id.clone(),
            exchange_order_id: self.exchange_order_id.clone(),
            exchange: self.exchange.clone(),
            symbol: self.symbol.clone(),
            creation_ts: self.creation_ts,
        }
    }
}

impl Clone for ExchangeRequest {
    fn clone(&self) -> (r: Self)
        ensures
            r == *self,
    {
        match self {
            ExchangeRequest::NewOrder(r) => ExchangeRequest::NewOrder(r.clone()),
            ExchangeRequest::CancelOrder(r) => ExchangeRequest::CancelOrder(r.clone()),
        }
    }
}

impl ExchangeRequestView {
    /// When the strategy created the request.
    pub open spec fn creation_ts(self) -> Timestamp {
        match self {
            ExchangeRequestView::NewOrder(r) => r.creation_ts,
            ExchangeRequestView::CancelOrder(r) => r.creation_ts,
        }
    }

    /// The venue the request is for.
    pub open spec fn exchange(self) -> Seq<char> {
        match self {
            ExchangeRequestView::NewOrder(r) => r.exchange,
            ExchangeRequestView::CancelOrder(r) => r.exchange,
        }
    }
}

impl ExchangeRequest {
    /// When the strategy created the request.
    pub fn creation_ts(&self) -> (r: Timestamp)
        ensures
            r == self@.creation_ts(),
    {
        match self {
            ExchangeRequest::NewOrder(r) => r.creation_ts,
            ExchangeRequest::CancelOrder(r) => r.creation_ts,
        }
    }
}

/// The models of a sequence of requests, in order.
pub open spec fn requests_view(s: Seq<ExchangeRequest>) -> Seq<ExchangeRequestView> {
    Seq::new(s.len(), |i: int| s[i]@)
}

/// The models of a sequence of names, in order.
pub open spec fn names_view(s: Seq<String>) -> Seq<Seq<char>> {
    Seq::new(s.len(), |i: int| s[i]@)
}

/// The names of a sequence without the repetitions: each name stands once,
/// where it first occurred.
pub open spec fn first_occurrences(names: Seq<Seq<char>>) -> Seq<Seq<char>>
    decreases names.len(),
{
    if names.len() == 0 {
        Seq::empty()
    } else {
        let earlier = first_occurrences(names.drop_last());
        if earlier.contains(names.last()) {
            earlier
        } else {
            earlier.push(names.last())
        }
    }
}

/// `first_occurrences` keeps every name and repeats none.
pub proof fn lemma_first_occurrences(names: Seq<Seq<char>>)
    ensures
        first_occurrences(names).no_duplicates(),
        forall|e: Seq<char>|
            #![trigger first_occurrences(names).contains(e)]
            #![trigger names.contains(e)]
            first_occurrences(names).contains(e) <==> names.contains(e),
    decreases names.len(),
{
    if names.len() > 0 {
        let earlier = first_occurrences(names.drop_last());
        let all = first_occurrences(names);
        lemma_first_occurrences(names.drop_last());
        assert forall|e: Seq<char>| all.contains(e) <==> names.contains(e) by {
            if all.contains(e) {
                let k = choose|k: int| 0 <= k < all.len() && all[k] == e;
                if k < earlier.len() {
                    assert(earlier[k] == e);
                    assert(earlier.contains(e));
                    let j = choose|j: int| 0 <= j < names.drop_last().len() && names.drop_last()[j] == e;
                    assert(names[j] == e);
                } else {
                    assert(names[names.len() - 1] == e);
                }
            }
            if names.contains(e) {
                let j = choose|j: int| 0 <= j < names.len() && names[j] == e;
                if j < names.len() - 1 {
                    assert(names.drop_last()[j] == e);
                    assert(earlier.contains(e));
                    let k = choose|k: int| 0 <= k < earlier.len() && earlier[k] == e;
                    assert(all[k] == e);
                } else if !earlier.contains(e) {
                    assert(all[earlier.len() as int] == e);
                }
            }
        }
    }
}

/// Why the router could not deliver a request.
#[derive(Debug)]
pub enum GatewayRouterError {
    /// No broker is known for the exchange that the request names.
    UnknownExchange,
    /// The queue of the broker is closed; the error carries the request.
    SendError(SendError<ExchangeRequest>),
}

/// One exchange that the router knows, with the two ends of its queue.
struct Route {
    exchange: Exchange,
    sender: Sender<ExchangeRequest>,
    receiver: Receiver<ExchangeRequest>,
}

/// Carries each request to the queue of the broker of its exchange.
///
/// The router owns one unbounded queue per exchange. It keeps the sending
/// ends for itself and hands the receiving ends to the brokers. A clone
/// shares the queues of the router it was made from.
pub struct GatewayRouter {
    routes: Vec<Route>,
}

impl GatewayRouter {
    /// The exchanges the router knows, each once, in the order in which they
    /// were first named.
    pub closed spec fn exchanges(&self) -> Seq<Seq<char>> {
        Seq::new(self.routes.len() as nat, |i: int| self.routes[i].exchange@)
    }

    /// The sending end of the queue of each exchange, in the order of
    /// `exchanges`.
    pub closed spec fn senders(&self) -> Seq<Sender<ExchangeRequest>> {
        Seq::new(self.routes.len() as nat, |i: int| self.routes[i].sender)
    }

    /// The receiving end of the queue of each exchange, in the order of
    /// `exchanges`.
    pub closed spec fn receiver_ends(&self) -> Seq<Receiver<ExchangeRequest>> {
        Seq::new(self.routes.len() as nat, |i: int| self.routes[i].receiver)
    }

    /// Whether `r` is what comes of sending the request on the queue of its
    /// exchange: the request itself was handed to `Sender::send` on the
    /// sending end of that queue, and `r` is `Ok` if the send was, and
    /// carries the error of the send if it was not.
    pub open spec fn sent_on_queue(
        &self,
        request: ExchangeRequest,
        r: Result<(), GatewayRouterError>,
    ) -> bool {
        exists|i: int, sent: Result<(), SendError<ExchangeRequest>>|
            {
                &&& 0 <= i < self.exchanges().len()
                &&& self.exchanges()[i] == request@.exchange()
                &&& #[trigger] call_ensures(
                    Sender::<ExchangeRequest>::send,
                    (&self.senders()[i], request),
                    sent,
                )
                &&& r.is_ok() == sent.is_ok()
                &&& sent matches Err(e) ==> r == Err::<(), GatewayRouterError>(
                    GatewayRouterError::SendError(e),
                )
            }
    }

    /// Whether the router is another handle on the queues of `other`: it
    /// knows the same exchanges, and its ends of each queue are clones of
    /// the ends that `other` holds.
    pub open spec fn shares_queues_with(&self, other: &Self) -> bool {
        &&& self.exchanges() == other.exchanges()
        &&& self.senders().len() == other.senders().len()
        &&& self.receiver_ends().len() == other.receiver_ends().len()
        &&& forall|i: int|
            0 <= i < other.senders().len() ==> call_ensures(
                <Sender<ExchangeRequest> as Clone>::clone,
                (&other.senders()[i],),
                #[trigger] self.senders()[i],
            )
        &&& forall|i: int|
            0 <= i < other.receiver_ends().len() ==> call_ensures(
                <Receiver<ExchangeRequest> as Clone>::clone,
                (&other.receiver_ends()[i],),
                #[trigger] self.receiver_ends()[i],
            )
    }

    /// Whether the router has a queue for the exchange.
    pub open spec fn knows(&self, exchange: Seq<char>) -> bool {
        self.exchanges().contains(exchange)
    }

    /// The names are pairwise different.
    pub open spec fn wf(&self) -> bool {
        self.exchanges().no_duplicates()
    }

    /// Where the exchange stands among the routes.
    fn find(&self, exchange: &Exchange) -> (r: Option<usize>)
        ensures
            match r {
                Some(i) => i < self.routes.len() && self.routes[i as int].exchange@ == exchange@,
                None => !self.knows(exchange@),
            },
    {
        let mut i: usize = 0;
        while i < self.routes.len()
            invariant
                i <= self.routes.len(),
                forall|j: int| 0 <= j < i ==> self.routes[j].exchange@ != exchange@,
            decreases self.routes.len() - i,
        {
            if self.routes[i].exchange == *exchange {
                return Some(i);
            }
            i += 1;
        }
        None
    }

    /// Makes a router with one queue for each exchange named. A name that
    /// occurs more than once gets one queue.
    pub fn new(exchanges: Vec<Exchange>) -> (r: Self)
        ensures
            r.wf(),
            r.exchanges() == first_occurrences(names_view(exchanges@)),
            r.senders().len() == r.exchanges().len(),
            r.receiver_ends().len() == r.exchanges().len(),
            forall|i: int|
                0 <= i < r.exchanges().len() ==> call_ensures(
                    crossbeam_channel::unbounded::<ExchangeRequest>,
                    (),
                    (#[trigger] r.senders()[i], r.receiver_ends()[i]),
                ),
    {
        let mut router = GatewayRouter { routes: Vec::new() };
        let ghost names = names_view(exchanges@);
        assert(router.exchanges() =~= first_occurrences(names.take(0)));
        let mut i: usize = 0;
        while i < exchanges.len()
            invariant
                i <= exchanges.len(),
                names == names_view(exchanges@),
                router.exchanges() == first_occurrences(names.take(i as int)),
                forall|k: int|
                    0 <= k < router.exchanges().len() ==> call_ensures(
                        crossbeam_channel::unbounded::<ExchangeRequest>,
                        (),
                        (#[trigger] router.senders()[k], router.receiver_ends()[k]),
                    ),
            decreases exchanges.len() - i,
        {
            let ghost before = router.exchanges();
            let ghost ends = (router.senders(), router.receiver_ends());
            assert(names.take(i + 1).drop_last() =~= names.take(i as int));
            assert(names.take(i + 1).last() == exchanges[i as int]@);
            match router.find(&exchanges[i]) {
                None => {
                    let (sender, receiver) = crossbeam_channel::unbounded();
                    router.routes.push(Route { exchange: exchanges[i].clone(), sender, receiver });
                    assert(router.exchanges() =~= before.push(exchanges[i as int]@));
                    assert(router.senders() =~= ends.0.push(sender));
                    assert(router.receiver_ends() =~= ends.1.push(receiver));
                },
                Some(k) => {
                    assert(before[k as int] == exchanges[i as int]@);
                },
            }
            i += 1;
        }
        assert(names.take(i as int) =~= names);
        proof {
            lemma_first_occurrences(names);
        }
        router
    }

    /// The receiving end of every queue, with the name of its exchange, in
    /// the order of `exchanges`.
    pub fn receivers(&self) -> (r: Vec<(Exchange, Receiver<ExchangeRequest>)>)
        ensures
            r.len() == self.exchanges().len(),
            forall|i: int| 0 <= i < r.len() ==> (#[trigger] r[i]).0@ == self.exchanges()[i],
            forall|i: int|
                0 <= i < r.len() ==> call_ensures(
                    <Receiver<ExchangeRequest> as Clone>::clone,
                    (&self.receiver_ends()[i],),
                    (#[trigger] r[i]).1,
                ),
    {
        let mut out: Vec<(Exchange, Receiver<ExchangeRequest>)> = Vec::new();
        let mut i: usize = 0;
        while i < self.routes.len()
            invariant
                i <= self.routes.len(),
                out.len() == i,
                forall|j: int| 0 <= j < i ==> (#[trigger] out[j]).0@ == self.exchanges()[j],
                forall|j: int|
                    0 <= j < i ==> call_ensures(
                        <Receiver<ExchangeRequest> as Clone>::clone,
                        (&self.receiver_ends()[j],),
                        (#[trigger] out[j]).1,
                    ),
            decreases self.routes.len() - i,
        {
            out.push((self.routes[i].exchange.clone(), self.routes[i].receiver.clone()));
            i += 1;
        }
        out
    }

    /// Sends a request to the broker of the exchange that it names. Fails
    /// with `UnknownExchange` exactly when the router has no queue for that
    /// exchange; otherwise the request is sent on the queue of its
    /// exchange, and the result is that of the send.
    pub fn send_request(&mut self, request: ExchangeRequest) -> (r: Result<(), GatewayRouterError>)
        ensures
            *final(self) == *old(self),
            !old(self).knows(request@.exchange()) <==> r matches Err(
                GatewayRouterError::UnknownExchange,
            ),
            old(self).knows(request@.exchange()) ==> old(self).sent_on_queue(request, r),
    {
        match request {
            ExchangeRequest::NewOrder(r) => self.send_order(r),
            ExchangeRequest::CancelOrder(c) => self.cancel_order(c),
        }
    }

    /// Sends a new-order request to the broker of its exchange. Fails with
    /// `UnknownExchange` exactly when the router has no queue for that
    /// exchange; otherwise the request goes on the queue, which answers
    /// with `SendError` if it is closed.
    pub fn send_order(&mut self, request: NewOrderRequest) -> (r: Result<(), GatewayRouterError>)
        ensures
            *final(self) == *old(self),
            !old(self).knows(request@.exchange) <==> r matches Err(
                GatewayRouterError::UnknownExchange,
            ),
            old(self).knows(request@.exchange) ==> old(self).sent_on_queue(
                ExchangeRequest::NewOrder(request),
                r,
            ),
    {
        match self.find(&request.exchange) {
            None => Err(GatewayRouterError::UnknownExchange),
            Some(i) => {
                assert(self.exchanges()[i as int] == request.exchange@);
                assert(self.senders()[i as int] == self.routes[i as int].sender);
                match self.routes[i].sender.send(ExchangeRequest::NewOrder(request)) {
                    Ok(_) => Ok(()),
                    Err(err) => Err(GatewayRouterError::SendError(err)),
                }
            },
        }
    }

    /// Sends a cancel request to the broker of its exchange. Fails with
    /// `UnknownExchange` exactly when the router has no queue for that
    /// exchange; otherwise the request goes on the queue, which answers
    /// with `SendError` if it is closed.
    pub fn cancel_order(&mut self, request: CancelOrderRequest) -> (r: Result<
        (),
        GatewayRouterError,
    >)
        ensures
            *final(self) == *old(self),
            !old(self).knows(request@.exchange) <==> r matches Err(
                GatewayRouterError::UnknownExchange,
            ),
            old(self).knows(request@.exchange) ==> old(self).sent_on_queue(
                ExchangeRequest::CancelOrder(request),
                r,
            ),
    {
        match self.find(&request.exchange) {
            None => Err(GatewayRouterError::UnknownExchange),
            Some(i) => {
                assert(self.exchanges()[i as int] == request.exchange@);
                assert(self.senders()[i as int] == self.routes[i as int].sender);
                match self.routes[i].sender.send(ExchangeRequest::CancelOrder(request)) {
                    Ok(_) => Ok(()),
                    Err(err) => Err(GatewayRouterError::SendError(err)),
                }
            },
        }
    }
}

impl Clone for GatewayRouter {
    /// Another handle on the same queues.
    fn clone(&self) -> (r: Self)
        ensures
            r.shares_queues_with(self),
            r.exchanges() == self.exchanges(),
            r.senders().len() == self.senders().len(),
            r.receiver_ends().len() == self.receiver_ends().len(),
            forall|i: int|
                0 <= i < self.senders().len() ==> call_ensures(
                    <Sender<ExchangeRequest> as Clone>::clone,
                    (&self.senders()[i],),
                    #[trigger] r.senders()[i],
                ),
            forall|i: int|
                0 <= i < self.receiver_ends().len() ==> call_ensures(
                    <Receiver<ExchangeRequest> as Clone>::clone,
                    (&self.receiver_ends()[i],),
                    #[trigger] r.receiver_ends()[i],
                ),
    {
        let mut routes: Vec<Route> = Vec::new();
        let mut i: usize = 0;
        while i < self.routes.len()
            invariant
                i <= self.routes.len(),
                routes.len() == i,
                forall|j: int| 0 <= j < i ==> routes[j].exchange@ == self.routes[j].exchange@,
                forall|j: int|
                    0 <= j < i ==> call_ensures(
                        <Sender<ExchangeRequest> as Clone>::clone,
                        (&self.routes[j].sender,),
                        (#[trigger] routes[j]).sender,
                    ) && call_ensures(
                        <Receiver<ExchangeRequest> as Clone>::clone,
                        (&self.routes[j].receiver,),
                        routes[j].receiver,
                    ),
            decreases self.routes.len() - i,
        {
            routes.push(
                Route {
                    exchange: self.routes[i].exchange.clone(),
                    sender: self.routes[i].sender.clone(),
                    receiver: self.routes[i].receiver.clone(),
                },
            );
            i += 1;
        }
        let r = GatewayRouter { routes };
        assert(r.exchanges() =~= self.exchanges());
        assert forall|i: int| 0 <= i < self.senders().len() implies call_ensures(
            <Sender<ExchangeRequest> as Clone>::clone,
            (&self.senders()[i],),
            #[trigger] r.senders()[i],
        ) by {
            assert(r.routes[i].sender == r.senders()[i]);
        }
        assert forall|i: int| 0 <= i < self.receiver_ends().len() implies call_ensures(
            <Receiver<ExchangeRequest> as Clone>::clone,
            (&self.receiver_ends()[i],),
            #[trigger] r.receiver_ends()[i],
        ) by {
            assert(r.routes[i].sender == r.senders()[i]);
        }
        r
    }
}

} // verus!
