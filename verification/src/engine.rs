//! The engine: it collects actors, message handlers and exchanges, and
//! builds from them what a run needs: the router, the brokers, the
//! simulated environment, the actions context and the event loop.
//!
//! Running the assembled parts, each on a worker of its own, is left to the
//! application.

use vstd::prelude::*;
use vstd::string::*;
use core::marker::PhantomData;
use crossbeam_channel::Receiver;
use crate::actions_context::ActionsContext;
use crate::event_loop::{Actor, EventLoop, EventProvider};
use crate::gateway_router::{first_occurrences, names_view, ExchangeRequest, GatewayRouter};
use crate::message_bus::{
    CrossbeamMessageSender, Message, MessageHandler, MessageSender, SimpleMessage,
};
use crate::sim::broker::{SimBroker, SimBrokerConfig};
use crate::sim::environment::{
    SimulatedBroker, SimulatedEnvironment, SimulatedTradingMarketDataProvider,
};
use crate::sim::schedule::{broker_of, lemma_broker_of};
use crate::sim::broker_model::BrokerState;
use crate::types::{Exchange, Latency};

verus! {

/// Why the engine could not start a run.
#[derive(Debug)]
pub enum EngineError {
    /// Something that the run needs was not given.
    MissedParameter(String),
    /// The parts of the run could not be put together.
    Initialization(String),
}

/// The configuration of the broker of an exchange: the first one given for
/// that exchange, or the default one.
pub open spec fn config_for(configs: Seq<(Exchange, SimBrokerConfig)>, exchange: Seq<char>) -> SimBrokerConfig
    decreases configs.len(),
{
    if configs.len() == 0 {
        SimBrokerConfig { strict_execution: false, wire_latency: 0, internal_latency: 0 }
    } else if configs[0].0@ == exchange {
        configs[0].1
    } else {
        config_for(configs.skip(1), exchange)
    }
}

/// Looks up the configuration of the broker of an exchange.
pub fn find_config(configs: &Vec<(Exchange, SimBrokerConfig)>, exchange: &Exchange) -> (r:
    SimBrokerConfig)
    ensures
        r == config_for(configs@, exchange@),
{
    let mut i: usize = 0;
    assert(configs@.skip(0) =~= configs@);
    while i < configs.len()
        invariant
            i <= configs.len(),
            config_for(configs@, exchange@) == config_for(configs@.skip(i as int), exchange@),
        decreases configs.len() - i,
    {
        assert(configs@.skip(i as int)[0] == configs[i as int]);
        assert(configs@.skip(i as int).skip(1) =~= configs@.skip(i + 1));
        if configs[i].0 == *exchange {
            return configs[i].1;
        }
        i += 1;
    }
    SimBrokerConfig::default()
}

/// Checks that a run with messaging has a message provider. Fails with
/// `MissedParameter` exactly when messaging is asked for and there is no
/// provider.
pub fn check_messaging(run_messaging: bool, has_message_provider: bool) -> (r: Result<
    (),
    EngineError,
>)
    ensures
        r.is_err() <==> run_messaging && !has_message_provider,
        r matches Err(e) ==> e matches EngineError::MissedParameter(text) && text@
            == "message provider is empty"@,
{
    if run_messaging && !has_message_provider {
        Err(EngineError::MissedParameter(String::from_str("message provider is empty")))
    } else {
        Ok(())
    }
}

/// Builds the simulated environment of a run: over the market data of
/// `md_provider`, with one broker for each receiver, configured as
/// `sim_broker_configs` says for its exchange. Fails with `Initialization`
/// exactly when two receivers are of the same exchange.
pub fn build_sim_environment<T: SimulatedTradingMarketDataProvider>(
    md_provider: T,
    default_latency: Option<Latency>,
    receivers: Vec<(Exchange, Receiver<ExchangeRequest>)>,
    sim_broker_configs: &Vec<(Exchange, SimBrokerConfig)>,
) -> (r: Result<SimulatedEnvironment<T, SimBroker>, EngineError>)
    ensures
        r.is_ok() <==> (forall|i: int, j: int|
            0 <= i < j < receivers.len() ==> (#[trigger] receivers[i]).0@ != (
            #[trigger] receivers[j]).0@),
        r matches Err(e) ==> e is Initialization,
        r matches Ok(env) ==> {
            &&& env.wf()
            &&& env.stream() == md_provider.remaining()
            &&& env.remaining() == md_provider.remaining()
            &&& env.default_latency() == default_latency.unwrap_or(0)
            &&& env.delivered().len() == 0
            &&& env.buffer().len() == 0
            &&& env.on_time()
            &&& env.brokers().len() == receivers.len()
            &&& forall|i: int|
                0 <= i < receivers.len() ==> (#[trigger] env.brokers()[i]).receiver()
                    == receivers[i].1
            &&& forall|i: int|
                0 <= i < receivers.len() ==> (#[trigger] env.brokers()[i])@ == BrokerState::initial(
                    receivers[i].0@,
                    config_for(sim_broker_configs@, receivers[i].0@).strict_execution,
                    config_for(sim_broker_configs@, receivers[i].0@).wire_latency,
                    config_for(sim_broker_configs@, receivers[i].0@).internal_latency,
                )
        },
{
    let mut sim_env: SimulatedEnvironment<T, SimBroker> = SimulatedEnvironment::new(
        md_provider,
        default_latency,
    );
    let ghost all = receivers@;
    for entry in it: receivers
        invariant
            it.seq() == all,
            sim_env.wf(),
            sim_env.stream() == md_provider.remaining(),
            sim_env.remaining() == md_provider.remaining(),
            sim_env.default_latency() == default_latency.unwrap_or(0),
            sim_env.delivered().len() == 0,
            sim_env.buffer().len() == 0,
            sim_env.on_time(),
            sim_env.brokers().len() == it.index(),
            forall|i: int|
                0 <= i < it.index() ==> (#[trigger] sim_env.brokers()[i]).receiver() == all[i].1,
            forall|i: int|
                0 <= i < it.index() ==> (#[trigger] sim_env.brokers()[i])@ == BrokerState::initial(
                    all[i].0@,
                    config_for(sim_broker_configs@, all[i].0@).strict_execution,
                    config_for(sim_broker_configs@, all[i].0@).wire_latency,
                    config_for(sim_broker_configs@, all[i].0@).internal_latency,
                ),
            forall|i: int, j: int|
                0 <= i < j < it.index() ==> (#[trigger] all[i]).0@ != (#[trigger] all[j]).0@,
    {
        let (exchange, gw_receiver) = entry;
        let conf = find_config(sim_broker_configs, &exchange);
        let ghost name = exchange@;
        let ghost before = sim_env.brokers();
        let sim_broker = SimBroker::with_config(exchange, gw_receiver, conf);
        proof {
            lemma_broker_of(before, name);
        }
        match sim_env.add_broker(sim_broker) {
            Ok(_) => {
                proof {
                    let n = it.index() as int;
                    assert forall|i: int, j: int| 0 <= i < j < n + 1 implies (#[trigger] all[i]).0@
                        != (#[trigger] all[j]).0@ by {
                        if j == n {
                            assert(before[i].exchange_name() == all[i].0@);
                        }
                    }
                    assert forall|i: int| 0 <= i < n + 1 implies (
                    #[trigger] sim_env.brokers()[i]).receiver() == all[i].1 by {
                        if i < n {
                            assert(sim_env.brokers()[i] == before[i]);
                        }
                    }
                    assert forall|i: int| 0 <= i < n + 1 implies (#[trigger] sim_env.brokers()[i])@
                        == BrokerState::initial(
                        all[i].0@,
                        config_for(sim_broker_configs@, all[i].0@).strict_execution,
                        config_for(sim_broker_configs@, all[i].0@).wire_latency,
                        config_for(sim_broker_configs@, all[i].0@).internal_latency,
                    ) by {
                        if i < n {
                            assert(sim_env.brokers()[i] == before[i]);
                        }
                    }
                }
            },
            Err(_) => {
                proof {
                    let n = it.index() as int;
                    let k = broker_of(before, name).unwrap();
                    assert(before[k].exchange_name() == all[k].0@);
                    assert(all[k].0@ == all[n].0@);
                }
                return Err(
                    EngineError::Initialization(String::from_str("broker already exists")),
                );
            },
        }
    }
    Ok(sim_env)
}

/// The engine.
pub struct Engine<
    S: Actor<M, MS>,
    M: Message,
    MS: MessageSender<M>,
    H: MessageHandler<M, MS>,
> {
    phantom: PhantomData<M>,
    phantom2: PhantomData<MS>,
    actors: Vec<S>,
    message_handlers: Vec<H>,
    exchanges: Vec<Exchange>,
}

/// The parts of a run over the default messaging, ready to be run.
pub struct EngineParts<T: EventProvider, S: Actor<SimpleMessage, CrossbeamMessageSender<SimpleMessage>>, H> {
    /// The event loop, with the actors.
    pub event_loop: EventLoop<T, S, SimpleMessage, CrossbeamMessageSender<SimpleMessage>>,
    /// The actions context for the message bus.
    pub actions_context: ActionsContext<SimpleMessage, CrossbeamMessageSender<SimpleMessage>>,
    /// The message handlers, for the message bus.
    pub message_handlers: Vec<H>,
    /// Where the message bus reads the messages, if messaging is on.
    pub message_receiver: Option<Receiver<SimpleMessage>>,
    /// The receiving end of the queue of every exchange.
    pub exchange_requests_receivers: Vec<(Exchange, Receiver<ExchangeRequest>)>,
}

impl<S: Actor<M, MS>, M: Message, MS: MessageSender<M>, H: MessageHandler<M, MS>> Engine<
    S,
    M,
    MS,
    H,
> {
    /// The actors, in registration order.
    pub closed spec fn actors(&self) -> Seq<S> {
        self.actors@
    }

    /// The message handlers, in registration order.
    pub closed spec fn message_handlers(&self) -> Seq<H> {
        self.message_handlers@
    }

    /// The exchanges, in registration order.
    pub closed spec fn exchanges(&self) -> Seq<Exchange> {
        self.exchanges@
    }

    /// An engine without actors, handlers and exchanges.
    pub fn new() -> (r: Self)
        ensures
            r.actors().len() == 0,
            r.message_handlers().len() == 0,
            r.exchanges().len() == 0,
    {
        Engine {
            phantom: PhantomData,
            phantom2: PhantomData,
            actors: Vec::new(),
            exchanges: Vec::new(),
            message_handlers: Vec::new(),
        }
    }

    /// Registers an actor.
    pub fn add_actor(&mut self, actor: S)
        ensures
            final(self).actors() == old(self).actors().push(actor),
            final(self).message_handlers() == old(self).message_handlers(),
            final(self).exchanges() == old(self).exchanges(),
    {
        self.actors.push(actor);
    }

    /// Registers a message handler.
    pub fn add_message_handler(&mut self, message_handler: H)
        ensures
            final(self).message_handlers() == old(self).message_handlers().push(message_handler),
            final(self).actors() == old(self).actors(),
            final(self).exchanges() == old(self).exchanges(),
    {
        self.message_handlers.push(message_handler);
    }

    /// Registers an exchange.
    pub fn add_exchange(&mut self, exchange: Exchange)
        ensures
            final(self).exchanges() == old(self).exchanges().push(exchange),
            final(self).actors() == old(self).actors(),
            final(self).message_handlers() == old(self).message_handlers(),
    {
        self.exchanges.push(exchange)
    }

    /// Puts together a run over an event provider and a message sender of
    /// the caller's: the event loop with the actors, a context over a
    /// router for the registered exchanges, which the loop shares, and the
    /// message handlers.
    pub fn assemble_with_custom_messaging<T: EventProvider>(
        self,
        event_provider: T,
        message_sender: MS,
    ) -> (r: (EventLoop<T, S, M, MS>, ActionsContext<M, MS>, Vec<H>))
        ensures
            r.0.provider() == event_provider,
            r.0.actors() == self.actors(),
            r.0.context().has_message_sender(),
            r.0.context().shares_queues_with(&r.1),
            r.1.sender() == Some(message_sender),
            r.0.context().router().exchanges() == first_occurrences(
                names_view(self.exchanges()),
            ),
            r.1.has_message_sender(),
            r.1.router().wf(),
            r.1.router().exchanges() == first_occurrences(names_view(self.exchanges())),
            r.2@ == self.message_handlers(),
    {
        let gateway_router = GatewayRouter::new(self.exchanges);
        let actions_context = ActionsContext::new_with_sender(gateway_router, message_sender);
        let loop_context = actions_context.clone();
        (
            EventLoop::new(event_provider, self.actors, loop_context),
            actions_context,
            self.message_handlers,
        )
    }
}

impl<
    S: Actor<SimpleMessage, CrossbeamMessageSender<SimpleMessage>>,
    H: MessageHandler<SimpleMessage, CrossbeamMessageSender<SimpleMessage>>,
> Engine<S, SimpleMessage, CrossbeamMessageSender<SimpleMessage>, H> {
    /// Makes the actions context of a run over the default messaging: a
    /// router for the registered exchanges and, if messaging is on, a
    /// message sender over a new queue, whose receiving end is returned
    /// with the context.
    pub fn create_actions_context_with_default_message_provider(&self, run_messaging: bool) -> (r: (
        ActionsContext<SimpleMessage, CrossbeamMessageSender<SimpleMessage>>,
        Option<Receiver<SimpleMessage>>,
    ))
        ensures
            r.0.has_message_sender() == run_messaging,
            r.1.is_some() == run_messaging,
            run_messaging ==> call_ensures(
                <Receiver<SimpleMessage> as Clone>::clone,
                (&r.0.sender().unwrap().receiver_end(),),
                r.1.unwrap(),
            ),
            r.0.router().wf(),
            r.0.router().exchanges() == first_occurrences(
                names_view(self.exchanges()),
            ),
    {
        let gateway_router = GatewayRouter::new(self.exchanges.clone());
        if run_messaging {
            let message_sender = CrossbeamMessageSender::new();
            let receiver = message_sender.receiver();
            (ActionsContext::new_with_sender(gateway_router, message_sender), Some(receiver))
        } else {
            (ActionsContext::new(gateway_router), None)
        }
    }

    /// Puts together a run over an event provider of the caller's.
    pub fn assemble_with_event_provider<T: EventProvider>(
        self,
        event_provider: T,
        run_messaging: bool,
    ) -> (r: EngineParts<T, S, H>)
        ensures
            r.event_loop.provider() == event_provider,
            r.event_loop.actors() == self.actors(),
            r.message_handlers@ == self.message_handlers(),
            r.message_receiver.is_some() == run_messaging,
            r.actions_context.has_message_sender() == run_messaging,
            r.event_loop.context().shares_queues_with(&r.actions_context),
            run_messaging ==> call_ensures(
                <Receiver<SimpleMessage> as Clone>::clone,
                (&r.actions_context.sender().unwrap().receiver_end(),),
                r.message_receiver.unwrap(),
            ),
            r.actions_context.router().exchanges() == first_occurrences(
                names_view(self.exchanges()),
            ),
            r.exchange_requests_receivers.len() == r.actions_context.router().exchanges().len(),
            forall|i: int|
                0 <= i < r.exchange_requests_receivers.len() ==> (
                #[trigger] r.exchange_requests_receivers[i]).0@
                    == r.actions_context.router().exchanges()[i] && call_ensures(
                    <Receiver<ExchangeRequest> as Clone>::clone,
                    (&r.actions_context.router().receiver_ends()[i],),
                    r.exchange_requests_receivers[i].1,
                ),
    {
        let (actions_context, message_receiver) =
            self.create_actions_context_with_default_message_provider(run_messaging);
        let exchange_requests_receivers = actions_context.exchange_requests_receivers();
        let loop_context = actions_context.clone();
        EngineParts {
            event_loop: EventLoop::new(event_provider, self.actors, loop_context),
            actions_context,
            message_handlers: self.message_handlers,
            message_receiver,
            exchange_requests_receivers,
        }
    }

    /// Puts together a simulated run: a router and one broker for each
    /// registered exchange, the simulated environment over the market data
    /// of `md_provider`, and the event loop over that environment. Each
    /// broker reads a receiving end of the queue of its exchange, and
    /// another receiving end of every queue is handed out with the parts.
    pub fn assemble_with_sim_environment<T: SimulatedTradingMarketDataProvider>(
        self,
        md_provider: T,
        default_latency: Option<Latency>,
        sim_broker_configs: Vec<(Exchange, SimBrokerConfig)>,
        run_messaging: bool,
    ) -> (r: Result<EngineParts<SimulatedEnvironment<T, SimBroker>, S, H>, EngineError>)
        ensures
            r.is_ok(),
            r matches Ok(parts) ==> {
                &&& parts.event_loop.provider().wf()
                &&& parts.event_loop.provider().stream() == md_provider.remaining()
                &&& parts.event_loop.provider().default_latency() == default_latency.unwrap_or(0)
                &&& parts.event_loop.provider().delivered().len() == 0
                &&& parts.event_loop.provider().brokers().len() == first_occurrences(
                    names_view(self.exchanges()),
                ).len()
                &&& forall|i: int|
                    0 <= i < parts.event_loop.provider().brokers().len() ==> (
                    #[trigger] parts.event_loop.provider().brokers()[i])@ == BrokerState::initial(
                        first_occurrences(names_view(self.exchanges()))[i],
                        config_for(
                            sim_broker_configs@,
                            first_occurrences(names_view(self.exchanges()))[i],
                        ).strict_execution,
                        config_for(
                            sim_broker_configs@,
                            first_occurrences(names_view(self.exchanges()))[i],
                        ).wire_latency,
                        config_for(
                            sim_broker_configs@,
                            first_occurrences(names_view(self.exchanges()))[i],
                        ).internal_latency,
                    )
                &&& parts.event_loop.actors() == self.actors()
                &&& parts.message_handlers@ == self.message_handlers()
                &&& parts.message_receiver.is_some() == run_messaging
                &&& parts.actions_context.has_message_sender() == run_messaging
                &&& parts.event_loop.context().shares_queues_with(&parts.actions_context)
                &&& run_messaging ==> call_ensures(
                    <Receiver<SimpleMessage> as Clone>::clone,
                    (&parts.actions_context.sender().unwrap().receiver_end(),),
                    parts.message_receiver.unwrap(),
                )
                &&& parts.actions_context.router().exchanges() == first_occurrences(
                    names_view(self.exchanges()),
                )
                &&& parts.exchange_requests_receivers.len() == first_occurrences(
                    names_view(self.exchanges()),
                ).len()
                &&& forall|i: int|
                    0 <= i < parts.exchange_requests_receivers.len() ==> (
                    #[trigger] parts.exchange_requests_receivers[i]).0@ == first_occurrences(
                        names_view(self.exchanges()),
                    )[i] && call_ensures(
                        <Receiver<ExchangeRequest> as Clone>::clone,
                        (&parts.actions_context.router().receiver_ends()[i],),
                        parts.exchange_requests_receivers[i].1,
                    )
                &&& forall|i: int|
                    0 <= i < parts.event_loop.provider().brokers().len() ==> call_ensures(
                        <Receiver<ExchangeRequest> as Clone>::clone,
                        (&parts.actions_context.router().receiver_ends()[i],),
                        (#[trigger] parts.event_loop.provider().brokers()[i]).receiver(),
                    )
            },
    {
        let (actions_context, message_receiver) =
            self.create_actions_context_with_default_message_provider(run_messaging);
        let receivers = actions_context.exchange_requests_receivers();
        let exchange_requests_receivers = actions_context.exchange_requests_receivers();
        proof {
            let names = actions_context.router().exchanges();
            assert forall|i: int, j: int| 0 <= i < j < receivers.len() implies (
            #[trigger] receivers[i]).0@ != (#[trigger] receivers[j]).0@ by {
                assert(names[i] != names[j]);
            }
        }
        let sim_env = match build_sim_environment(
            md_provider,
            default_latency,
            receivers,
            &sim_broker_configs,
        ) {
            Ok(env) => env,
            Err(err) => {
                return Err(err);
            },
        };
        let loop_context = actions_context.clone();
        Ok(
            EngineParts {
                event_loop: EventLoop::new(sim_env, self.actors, loop_context),
                actions_context,
                message_handlers: self.message_handlers,
                message_receiver,
                exchange_requests_receivers,
            },
        )
    }
}

} // verus!
