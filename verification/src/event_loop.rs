//! The event loop: it takes events from a provider, one at a time, and
//! hands each to every actor.

use vstd::prelude::*;
use crate::actions_context::ActionsContext;
use crate::events::Event;
use crate::message_bus::{Message, MessageSender};

verus! {

/// Where the event loop gets its events from.
pub trait EventProvider {
    /// Whether the provider is in a state in which it can be asked for an
    /// event.
    spec fn wf(&self) -> bool;

    /// The next event, or `None` when there will be no more.
    fn next_event(&mut self) -> (r: Option<Event>)
        requires
            old(self).wf(),
        ensures
            final(self).wf(),
    ;
}

/// A strategy, or anyone else who is handed the events.
pub trait Actor<M: Message, MS: MessageSender<M>>: Send {
    /// Takes an event. The actor may act through `actions_context`.
    fn on_event(&mut self, event: &Event, actions_context: &mut ActionsContext<M, MS>);
}

/// Whether `i` is one of `count` turns, which are taken in the order
/// 0, 1, 2, ...
pub open spec fn has_turn(i: int, count: nat) -> bool {
    0 <= i < count
}

/// The event loop.
pub struct EventLoop<T: EventProvider, S: Actor<M, MS>, M: Message, MS: MessageSender<M>> {
    event_provider: T,
    actors: Vec<S>,
    actions_context: ActionsContext<M, MS>,
}

impl<T: EventProvider, S: Actor<M, MS>, M: Message, MS: MessageSender<M>> EventLoop<T, S, M, MS> {
    /// The provider of the loop.
    pub closed spec fn provider(&self) -> T {
        self.event_provider
    }

    /// The actors of the loop, in registration order.
    pub closed spec fn actors(&self) -> Seq<S> {
        self.actors@
    }

    /// The actions context that the loop hands to its actors.
    pub closed spec fn context(&self) -> ActionsContext<M, MS> {
        self.actions_context
    }

    /// An event loop over a provider and actors; the actors act through
    /// `actions_context`.
    pub fn new(event_provider: T, actors: Vec<S>, actions_context: ActionsContext<M, MS>) -> (r:
        Self)
        ensures
            r.provider() == event_provider,
            r.actors() == actors@,
            r.context() == actions_context,
    {
        EventLoop { event_provider, actors, actions_context }
    }

    /// Hands an event to every actor, in registration order.
    ///
    /// Each actor takes the event once, through `Actor::on_event`, and is
    /// afterwards what that call left of it. The actors act through the
    /// context of the loop one after the other: `contexts[i]` is the
    /// context as actor `i` finds it and `contexts[i + 1]` the context as
    /// it leaves it.
    pub fn dispatch(&mut self, event: &Event)
        ensures
            final(self).provider() == old(self).provider(),
            final(self).actors().len() == old(self).actors().len(),
            exists|contexts: Seq<ActionsContext<M, MS>>|
                {
                    &&& #[trigger] contexts.len() == old(self).actors().len() + 1
                    &&& contexts[0] == old(self).context()
                    &&& contexts[old(self).actors().len() as int] == final(self).context()
                    &&& forall|i: int| #[trigger]
                        has_turn(i, old(self).actors().len()) ==> exists|
                            actor: &mut S,
                            context: &mut ActionsContext<M, MS>,
                        |
                            {
                                &&& mut_ref_current(actor) == old(self).actors()[i]
                                &&& mut_ref_future(actor) == final(self).actors()[i]
                                &&& mut_ref_current(context) == contexts[i]
                                &&& mut_ref_future(context) == contexts[i + 1]
                                &&& #[trigger] call_ensures(S::on_event, (actor, event, context), ())
                            }
                },
    {
        let ghost mut contexts: Seq<ActionsContext<M, MS>> = seq![self.context()];
        let mut i: usize = 0;
        while i < self.actors.len()
            invariant
                i <= self.actors.len(),
                self.provider() == old(self).provider(),
                self.actors().len() == old(self).actors().len(),
                contexts.len() == i + 1,
                contexts[0] == old(self).context(),
                contexts[i as int] == self.context(),
                forall|j: int|
                    i <= j < self.actors().len() ==> self.actors()[j] == old(self).actors()[j],
                forall|j: int| #[trigger]
                    has_turn(j, i as nat) ==> exists|
                        actor: &mut S,
                        context: &mut ActionsContext<M, MS>,
                    |
                        {
                            &&& mut_ref_current(actor) == old(self).actors()[j]
                            &&& mut_ref_future(actor) == self.actors()[j]
                            &&& mut_ref_current(context) == contexts[j]
                            &&& mut_ref_future(context) == contexts[j + 1]
                            &&& #[trigger] call_ensures(S::on_event, (actor, event, context), ())
                        },
            decreases self.actors.len() - i,
        {
            let ghost before = self.actors();
            let ghost earlier = contexts;
            self.actors[i].on_event(event, &mut self.actions_context);
            proof {
                contexts = contexts.push(self.context());
            }
            i += 1;
            assert forall|j: int| #[trigger] has_turn(j, i as nat) implies exists|
                actor: &mut S,
                context: &mut ActionsContext<M, MS>,
            |
                {
                    &&& mut_ref_current(actor) == old(self).actors()[j]
                    &&& mut_ref_future(actor) == self.actors()[j]
                    &&& mut_ref_current(context) == contexts[j]
                    &&& mut_ref_future(context) == contexts[j + 1]
                    &&& #[trigger] call_ensures(S::on_event, (actor, event, context), ())
                } by {
                if j < i - 1 {
                    assert(has_turn(j, (i - 1) as nat));
                    assert(self.actors()[j] == before[j]);
                    assert(contexts[j] == earlier[j]);
                    assert(contexts[j + 1] == earlier[j + 1]);
                }
            }
        }
    }

    /// Takes the next event from the provider and hands it to every actor.
    /// Returns whether there was an event. When there was none, the loop is
    /// over: the message that announces its end is published, if the
    /// context can publish messages.
    ///
    /// The provider is asked once, through `EventProvider::next_event`. An
    /// event is dispatched as `dispatch` says. Without an event the actors
    /// stay as they are, the farewell is what
    /// `Message::new_event_loop_stopped_message` made, and the sender of the
    /// context, if there is one, is what `MessageSender::send_message` left
    /// of it; whether the farewell was sent does not matter to the loop.
    pub fn step(&mut self) -> (r: bool)
        requires
            old(self).provider().wf(),
        ensures
            final(self).provider().wf(),
            final(self).actors().len() == old(self).actors().len(),
            exists|provider: &mut T, next: Option<Event>|
                {
                    &&& mut_ref_current(provider) == old(self).provider()
                    &&& mut_ref_future(provider) == final(self).provider()
                    &&& #[trigger] call_ensures(T::next_event, (provider,), next)
                    &&& r == next.is_some()
                    &&& match next {
                        Some(event) => exists|contexts: Seq<ActionsContext<M, MS>>|
                            {
                                &&& #[trigger] contexts.len() == old(self).actors().len() + 1
                                &&& contexts[0] == old(self).context()
                                &&& contexts[old(self).actors().len() as int] == final(self).context()
                                &&& forall|i: int| #[trigger]
                                    has_turn(i, old(self).actors().len()) ==> exists|
                                        actor: &mut S,
                                        context: &mut ActionsContext<M, MS>,
                                    |
                                        {
                                            &&& mut_ref_current(actor) == old(self).actors()[i]
                                            &&& mut_ref_future(actor) == final(self).actors()[i]
                                            &&& mut_ref_current(context) == contexts[i]
                                            &&& mut_ref_future(context) == contexts[i + 1]
                                            &&& #[trigger] call_ensures(
                                                S::on_event,
                                                (actor, &event, context),
                                                (),
                                            )
                                        }
                            },
                        None => {
                            &&& final(self).actors() == old(self).actors()
                            &&& final(self).context().router() == old(self).context().router()
                            &&& exists|farewell: M|
                                {
                                    &&& #[trigger] call_ensures(
                                        M::new_event_loop_stopped_message,
                                        (),
                                        farewell,
                                    )
                                    &&& match old(self).context().sender() {
                                        None => final(self).context() == old(self).context(),
                                        Some(before) => final(self).context().sender().is_some()
                                            && exists|sender: &mut MS, sent: Result<(), String>|
                                            {
                                                &&& mut_ref_current(sender) == before
                                                &&& mut_ref_future(sender) == final(self).context().sender().unwrap()
                                                &&& #[trigger] call_ensures(
                                                    MS::send_message,
                                                    (sender, farewell),
                                                    sent,
                                                )
                                            },
                                    }
                                }
                        },
                    }
                },
    {
        match self.event_provider.next_event() {
            Some(event) => {
                self.dispatch(&event);
                true
            },
            None => {
                let term_message = M::new_event_loop_stopped_message();
                let _ = self.actions_context.send_message(term_message);
                false
            },
        }
    }

    /// The actors of the loop.
    pub fn get_actors(&self) -> (r: &Vec<S>)
        ensures
            r@ == self.actors(),
    {
        &self.actors
    }
}

} // verus!
