//! The handle through which an actor acts: it sends orders to the venues and
//! messages to the bus.

use vstd::prelude::*;
use vstd::std_specs::convert::FromSpecImpl;
use vstd::string::*;
use core::marker::PhantomData;
use crossbeam_channel::Receiver;
use crate::gateway_router::{
    CancelOrderRequest, ExchangeRequest, GatewayRouter, GatewayRouterError, NewOrderRequest,
};
use crate::message_bus::{CrossbeamMessageSender, Message, MessageSender, SimpleMessage};
use crate::types::Exchange;

verus! {

/// Why an action failed.
#[derive(Debug)]
pub enum ActionError {
    /// The router could not deliver a request.
    GatewayRouterError(GatewayRouterError),
    /// The message sender could not publish a message.
    SendMessageError(String),
    /// The context cannot do what was asked.
    ActionNotSupported(String),
}

impl From<GatewayRouterError> for ActionError {
    fn from(err: GatewayRouterError) -> (r: Self)
        ensures
            r == ActionError::GatewayRouterError(err),
    {
        ActionError::GatewayRouterError(err)
    }
}

impl FromSpecImpl<GatewayRouterError> for ActionError {
    open spec fn obeys_from_spec() -> bool {
        true
    }

    open spec fn from_spec(err: GatewayRouterError) -> ActionError {
        ActionError::GatewayRouterError(err)
    }
}

/// The handle through which an actor acts.
pub struct ActionsContext<M: Message, T: MessageSender<M>> {
    phantom: PhantomData<M>,
    gw_router: GatewayRouter,
    message_sender: Option<T>,
}

impl<M: Message, T: MessageSender<M>> ActionsContext<M, T> {
    /// The router behind the context.
    pub closed spec fn router(&self) -> GatewayRouter {
        self.gw_router
    }

    /// The message sender of the context, if it has one.
    pub closed spec fn sender(&self) -> Option<T> {
        self.message_sender
    }

    /// Whether the context can publish messages.
    pub open spec fn has_message_sender(&self) -> bool {
        self.sender().is_some()
    }

    /// Whether `r` is what comes of sending the request through the router
    /// of the context: what `GatewayRouter::sent_on_queue` says, with the
    /// router's error wrapped.
    pub open spec fn sent_through_router(
        &self,
        request: ExchangeRequest,
        r: Result<(), ActionError>,
    ) -> bool {
        exists|routed: Result<(), GatewayRouterError>|
            {
                &&& #[trigger] self.router().sent_on_queue(request, routed)
                &&& r.is_ok() == routed.is_ok()
                &&& routed matches Err(e) ==> r == Err::<(), ActionError>(
                    ActionError::GatewayRouterError(e),
                )
            }
    }

    /// Whether the context is another handle on the queues of `other`: its
    /// router shares the queues of the router of `other`, and its message
    /// sender, if `other` has one, is a clone of that.
    pub open spec fn shares_queues_with(&self, other: &Self) -> bool {
        &&& self.router().shares_queues_with(&other.router())
        &&& match other.sender() {
            Some(sender) => self.sender().is_some() && call_ensures(
                <T as Clone>::clone,
                (&sender,),
                self.sender().unwrap(),
            ),
            None => self.sender().is_none(),
        }
    }

    /// A context that sends orders through `gw_router` and messages through
    /// `message_sender`.
    pub fn new_with_sender(gw_router: GatewayRouter, message_sender: T) -> (r: Self)
        ensures
            r.router() == gw_router,
            r.has_message_sender(),
            r.sender() == Some(message_sender),
    {
        ActionsContext { phantom: PhantomData, gw_router, message_sender: Some(message_sender) }
    }

    /// The receiving end of the queue of every exchange, with the name of
    /// the exchange.
    pub fn exchange_requests_receivers(&self) -> (r: Vec<(Exchange, Receiver<ExchangeRequest>)>)
        ensures
            r.len() == self.router().exchanges().len(),
            forall|i: int| 0 <= i < r.len() ==> (#[trigger] r[i]).0@ == self.router().exchanges()[i],
            forall|i: int|
                0 <= i < r.len() ==> call_ensures(
                    <Receiver<ExchangeRequest> as Clone>::clone,
                    (&self.router().receiver_ends()[i],),
                    (#[trigger] r[i]).1,
                ),
    {
        self.gw_router.receivers()
    }

    /// Sends a request to the broker of the exchange that it names.
    pub fn send_exchange_request(&mut self, request: ExchangeRequest) -> (r: Result<
        (),
        GatewayRouterError,
    >)
        ensures
            final(self).router() == old(self).router(),
            final(self).has_message_sender() == old(self).has_message_sender(),
            !old(self).router().knows(request@.exchange()) <==> r matches Err(
                GatewayRouterError::UnknownExchange,
            ),
            old(self).router().knows(request@.exchange()) ==> old(self).router().sent_on_queue(
                request,
                r,
            ),
            *final(self) == *old(self),
    {
        self.gw_router.send_request(request)
    }

    /// Sends a new-order request to the broker of its exchange. Fails with
    /// the router's `UnknownExchange` exactly when no broker is known for
    /// that exchange.
    pub fn send_order(&mut self, request: NewOrderRequest) -> (r: Result<(), ActionError>)
        ensures
            final(self).router() == old(self).router(),
            final(self).has_message_sender() == old(self).has_message_sender(),
            r matches Err(e) ==> e is GatewayRouterError,
            !old(self).router().knows(request@.exchange) <==> r matches Err(
                ActionError::GatewayRouterError(GatewayRouterError::UnknownExchange),
            ),
            old(self).router().knows(request@.exchange) ==> old(self).sent_through_router(
                ExchangeRequest::NewOrder(request),
                r,
            ),
            *final(self) == *old(self),
    {
        match self.gw_router.send_order(request) {
            Ok(_) => Ok(()),
            Err(err) => Err(ActionError::GatewayRouterError(err)),
        }
    }

    /// Sends a cancel request to the broker of its exchange. Fails with the
    /// router's `UnknownExchange` exactly when no broker is known for that
    /// exchange.
    pub fn cancel_order(&mut self, request: CancelOrderRequest) -> (r: Result<(), ActionError>)
        ensures
            final(self).router() == old(self).router(),
            final(self).has_message_sender() == old(self).has_message_sender(),
            r matches Err(e) ==> e is GatewayRouterError,
            !old(self).router().knows(request@.exchange) <==> r matches Err(
                ActionError::GatewayRouterError(GatewayRouterError::UnknownExchange),
            ),
            old(self).router().knows(request@.exchange) ==> old(self).sent_through_router(
                ExchangeRequest::CancelOrder(request),
                r,
            ),
            *final(self) == *old(self),
    {
        match self.gw_router.cancel_order(request) {
            Ok(_) => Ok(()),
            Err(err) => Err(ActionError::GatewayRouterError(err)),
        }
    }

    /// Publishes a message. Fails with `ActionNotSupported` exactly when the
    /// context has no message sender; with one, the sender decides, and its
    /// failure comes back as `SendMessageError`.
    pub fn send_message(&mut self, message: M) -> (r: Result<(), ActionError>)
        ensures
            final(self).router() == old(self).router(),
            final(self).has_message_sender() == old(self).has_message_sender(),
            !old(self).has_message_sender() <==> r matches Err(ActionError::ActionNotSupported(_)),
            r matches Err(ActionError::ActionNotSupported(text)) ==> text@
                == "send_message is not supported"@,
            r matches Err(e) ==> !(e is GatewayRouterError),
            old(self).sender().is_none() ==> *final(self) == *old(self),
            old(self).sender().is_some() ==> final(self).sender().is_some() && exists|
                sender: &mut T,
                sent: Result<(), String>,
            |
                {
                    &&& mut_ref_current(sender) == old(self).sender().unwrap()
                    &&& mut_ref_future(sender) == final(self).sender().unwrap()
                    &&& #[trigger] call_ensures(T::send_message, (sender, message), sent)
                    &&& r.is_ok() == sent.is_ok()
                    &&& sent matches Err(text) ==> r == Err::<(), ActionError>(
                        ActionError::SendMessageError(text),
                    )
                },
    {
        match &mut self.message_sender {
            Some(val) => match val.send_message(message) {
                Ok(_) => Ok(()),
                Err(err) => Err(ActionError::SendMessageError(err)),
            },
            None => Err(
                ActionError::ActionNotSupported(String::from_str("send_message is not supported")),
            ),
        }
    }
}

impl<M: Message, T: MessageSender<M>> Clone for ActionsContext<M, T> {
    /// Another handle on the same queues.
    fn clone(&self) -> (r: Self)
        ensures
            r.shares_queues_with(self),
            r.router().exchanges() == self.router().exchanges(),
            r.has_message_sender() == self.has_message_sender(),
    {
        ActionsContext {
            phantom: PhantomData,
            gw_router: self.gw_router.clone(),
            message_sender: match &self.message_sender {
                Some(sender) => Some(sender.clone()),
                None => None,
            },
        }
    }
}

impl ActionsContext<SimpleMessage, CrossbeamMessageSender<SimpleMessage>> {
    /// A context that sends orders through `gw_router` and cannot publish
    /// messages.
    pub fn new(gw_router: GatewayRouter) -> (r: Self)
        ensures
            r.router() == gw_router,
            !r.has_message_sender(),
    {
        ActionsContext { phantom: PhantomData, gw_router, message_sender: None }
    }
}

} // verus!
