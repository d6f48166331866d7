//! Sideband messages between the parts of an application.
//!
//! A strategy may publish messages through its actions context; a message
//! bus hands each message to the handlers that ask for its topic. The
//! event loop announces its end with a message that can stop the bus.

use vstd::prelude::*;
use vstd::string::*;
use core::fmt::Debug;
use core::marker::PhantomData;
use crossbeam_channel::{Receiver, SendError, Sender};
use crate::actions_context::ActionsContext;
use crate::channel::describe_send_error;
use crate::event_loop::has_turn;
use crate::events::{clone_opt_string, opt_view};
use crate::gateway_router::names_view;

verus! {

/// The name under which messages are published.
pub type Topic = String;

/// A message on the bus.
pub trait Message: Clone + Debug {
    /// The topic of the message, if it has one.
    fn get_topic(&self) -> Option<Topic>;

    /// Whether the message announces that the event loop stopped.
    fn is_event_loop_stopped_message(&self) -> bool;

    /// The message that announces that the event loop stopped.
    fn new_event_loop_stopped_message() -> Self;
}

/// Someone who is handed the messages of the bus.
pub trait MessageHandler<M: Message, MS: MessageSender<M>>: Debug + Send {
    /// Takes a message.
    fn on_new_message(&mut self, message: &M, actions_context: &ActionsContext<M, MS>);

    /// The topics whose messages the handler asks for; none if it asks for
    /// every message.
    fn get_topics(&self) -> Vec<Topic>;
}

/// Where the bus gets its messages from.
pub trait MessageProvider<M: Message>: Debug {
    /// The next message, or `None` when there will be no more.
    fn next_message(&mut self) -> Option<M>;
}

/// Where messages are published.
pub trait MessageSender<M: Message>: Debug + Clone {
    /// Publishes a message.
    fn send_message(&mut self, message: M) -> Result<(), String>;
}

/// A plain message: a topic, a text, and whether it announces that the
/// event loop stopped.
#[derive(Debug, Default, PartialEq, Eq)]
pub struct SimpleMessage {
    pub topic: Option<Topic>,
    pub event_loop_stopped: bool,
    pub content: String,
}

impl Clone for SimpleMessage {
    fn clone(&self) -> (r: Self)
        ensures
            r == *self,
    {
        SimpleMessage {
            topic: clone_opt_string(&self.topic),
            event_loop_stopped: self.event_loop_stopped,
            content: self.content.clone(),
        }
    }
}

impl SimpleMessage {
    /// An ordinary message.
    pub fn new(topic: Option<Topic>, content: String) -> (r: Self)
        ensures
            r.topic == topic,
            r.content == content,
            !r.event_loop_stopped,
    {
        SimpleMessage { topic, content, event_loop_stopped: false }
    }
}

impl Message for SimpleMessage {
    fn get_topic(&self) -> (r: Option<Topic>)
        ensures
            r == self.topic,
    {
        clone_opt_string(&self.topic)
    }

    fn is_event_loop_stopped_message(&self) -> (r: bool)
        ensures
            r == self.event_loop_stopped,
    {
        self.event_loop_stopped
    }

    fn new_event_loop_stopped_message() -> (r: Self)
        ensures
            r.topic.is_none(),
            r.content@ == Seq::<char>::empty(),
            r.event_loop_stopped,
    {
        SimpleMessage { topic: None, content: String::new(), event_loop_stopped: true }
    }
}

/// A handler that takes every message and does nothing with it.
#[derive(Debug, Default)]
pub struct LoggerMessageHandler {}

impl LoggerMessageHandler {
    /// The topics of the handler: none, it asks for every message.
    pub fn get_topics(&self) -> (r: Vec<Topic>)
        ensures
            r@ == Seq::<Topic>::empty(),
    {
        Vec::new()
    }
}

impl<M: Message, MS: MessageSender<M>> MessageHandler<M, MS> for LoggerMessageHandler {
    fn on_new_message(&mut self, message: &M, actions_context: &ActionsContext<M, MS>) {
    }

    /// No topics: the handler asks for every message.
    fn get_topics(&self) -> (r: Vec<Topic>)
        ensures
            r@ == Seq::<Topic>::empty(),
    {
        LoggerMessageHandler::get_topics(self)
    }
}

/// A message sender over an unbounded queue. It keeps both ends of the
/// queue; a clone shares the queue.
#[derive(Debug)]
#[verifier::reject_recursive_types(M)]
pub struct CrossbeamMessageSender<M: Message> {
    sender: Sender<M>,
    receiver: Receiver<M>,
}

impl<M: Message> CrossbeamMessageSender<M> {
    /// The sending end that the sender keeps of its queue.
    pub closed spec fn sender_end(&self) -> Sender<M> {
        self.sender
    }

    /// The receiving end that the sender keeps of its queue.
    pub closed spec fn receiver_end(&self) -> Receiver<M> {
        self.receiver
    }

    /// The receiving end of the queue: a clone of the one that the sender
    /// keeps.
    pub fn receiver(&self) -> (r: Receiver<M>)
        ensures
            call_ensures(<Receiver<M> as Clone>::clone, (&self.receiver_end(),), r),
    {
        self.receiver.clone()
    }

    /// A sender over a new queue: it keeps the two ends that
    /// `crossbeam_channel::unbounded` made.
    pub fn new() -> (r: Self)
        ensures
            call_ensures(
                crossbeam_channel::unbounded::<M>,
                (),
                (r.sender_end(), r.receiver_end()),
            ),
    {
        let (sender, receiver) = crossbeam_channel::unbounded();
        CrossbeamMessageSender { sender, receiver }
    }

    /// What the sender makes of the answer of the queue: the message was
    /// sent exactly when the queue took it; the error of a closed queue
    /// comes back as text.
    pub fn outcome(answer: Result<(), SendError<M>>) -> (r: Result<(), String>)
        ensures
            r.is_ok() == answer.is_ok(),
    {
        match answer {
            Ok(_) => Ok(()),
            Err(err) => Err(describe_send_error(&err)),
        }
    }
}

impl<M: Message> Clone for CrossbeamMessageSender<M> {
    /// Another sender over the same queue: it keeps clones of the two ends.
    fn clone(&self) -> (r: Self)
        ensures
            call_ensures(<Sender<M> as Clone>::clone, (&self.sender_end(),), r.sender_end()),
            call_ensures(<Receiver<M> as Clone>::clone, (&self.receiver_end(),), r.receiver_end()),
    {
        CrossbeamMessageSender { sender: self.sender.clone(), receiver: self.receiver.clone() }
    }
}

impl<M: Message> MessageSender<M> for CrossbeamMessageSender<M> {
    /// Hands the message to `Sender::send` on the sending end of the queue.
    /// The result is `Ok` exactly when the send was; the error of a closed
    /// queue comes back as text. The sender itself stays as it is.
    fn send_message(&mut self, message: M) -> (r: Result<(), String>)
        ensures
            *final(self) == *old(self),
            exists|sent: Result<(), SendError<M>>|
                {
                    &&& #[trigger] call_ensures(
                        Sender::<M>::send,
                        (&old(self).sender_end(), message),
                        sent,
                    )
                    &&& r.is_ok() == sent.is_ok()
                },
    {
        Self::outcome(self.sender.send(message))
    }
}

/// The topics that each handler asks for, as plain values.
pub open spec fn topics_view(s: Seq<Vec<Topic>>) -> Seq<Seq<Seq<char>>> {
    Seq::new(s.len(), |i: int| names_view(s[i]@))
}

/// Whether a handler that asks for `handler_topics` is handed a message of
/// topic `topic`. A handler that names no topic is handed every message; a
/// message without a topic is handed to every handler; otherwise the
/// handler must name the topic of the message.
pub open spec fn receives(handler_topics: Seq<Seq<char>>, topic: Option<Seq<char>>) -> bool {
    handler_topics.len() == 0 || match topic {
        Some(t) => handler_topics.contains(t),
        None => true,
    }
}

/// The handlers that name no topic, in registration order.
pub open spec fn topic_agnostic(topics: Seq<Seq<Seq<char>>>) -> Seq<int>
    decreases topics.len(),
{
    if topics.len() == 0 {
        Seq::empty()
    } else if topics.last().len() == 0 {
        topic_agnostic(topics.drop_last()).push(topics.len() - 1)
    } else {
        topic_agnostic(topics.drop_last())
    }
}

/// The handlers that name topics and are handed a message of topic `topic`,
/// in registration order.
pub open spec fn by_topic(topics: Seq<Seq<Seq<char>>>, topic: Option<Seq<char>>) -> Seq<int>
    decreases topics.len(),
{
    if topics.len() == 0 {
        Seq::empty()
    } else if topics.last().len() > 0 && receives(topics.last(), topic) {
        by_topic(topics.drop_last(), topic).push(topics.len() - 1)
    } else {
        by_topic(topics.drop_last(), topic)
    }
}

/// The handlers that are handed a message of topic `topic`, in the order in
/// which they are handed it: first those that name no topic, then those
/// that name topics.
pub open spec fn recipients(topics: Seq<Seq<Seq<char>>>, topic: Option<Seq<char>>) -> Seq<int> {
    topic_agnostic(topics) + by_topic(topics, topic)
}

/// Every handler that is to be handed the message is among the recipients
/// exactly once, and no other handler is.
pub proof fn lemma_recipients(topics: Seq<Seq<Seq<char>>>, topic: Option<Seq<char>>)
    ensures
        recipients(topics, topic).no_duplicates(),
        forall|k: int|
            #![trigger recipients(topics, topic).contains(k)]
            recipients(topics, topic).contains(k) <==> 0 <= k < topics.len() && receives(
                topics[k],
                topic,
            ),
    decreases topics.len(),
{
    lemma_groups(topics, topic);
    let a = topic_agnostic(topics);
    let b = by_topic(topics, topic);
    let r = recipients(topics, topic);
    assert forall|i: int, j: int| 0 <= i < j < r.len() implies r[i] != r[j] by {
        if j < a.len() {
        } else if i >= a.len() {
            assert(r[i] == b[i - a.len()] && r[j] == b[j - a.len()]);
        } else {
            assert(r[i] == a[i] && r[j] == b[j - a.len()]);
            assert(a.contains(a[i]));
            assert(b.contains(b[j - a.len()]));
        }
    }
    assert forall|k: int| #![trigger r.contains(k)] r.contains(k) <==> 0 <= k < topics.len() && receives(
        topics[k],
        topic,
    ) by {
        if r.contains(k) {
            let i = choose|i: int| 0 <= i < r.len() && r[i] == k;
            if i < a.len() {
                assert(a.contains(a[i]));
            } else {
                assert(b.contains(b[i - a.len()]));
            }
        }
        if 0 <= k < topics.len() && receives(topics[k], topic) {
            if topics[k].len() == 0 {
                assert(a.contains(k));
                let i = choose|i: int| 0 <= i < a.len() && a[i] == k;
                assert(r[i] == k);
            } else {
                assert(b.contains(k));
                let i = choose|i: int| 0 <= i < b.len() && b[i] == k;
                assert(r[a.len() + i] == k);
            }
        }
    }
}

/// What the two groups of recipients hold: each handler of its kind, once,
/// in registration order.
proof fn lemma_groups(topics: Seq<Seq<Seq<char>>>, topic: Option<Seq<char>>)
    ensures
        forall|i: int, j: int|
            0 <= i < j < topic_agnostic(topics).len() ==> topic_agnostic(topics)[i]
                < topic_agnostic(topics)[j],
        forall|i: int, j: int|
            0 <= i < j < by_topic(topics, topic).len() ==> by_topic(topics, topic)[i] < by_topic(
                topics,
                topic,
            )[j],
        forall|k: int|
            #![trigger topic_agnostic(topics).contains(k)]
            topic_agnostic(topics).contains(k) <==> 0 <= k < topics.len() && topics[k].len() == 0,
        forall|k: int|
            #![trigger by_topic(topics, topic).contains(k)]
            by_topic(topics, topic).contains(k) <==> 0 <= k < topics.len() && topics[k].len() > 0
                && receives(topics[k], topic),
    decreases topics.len(),
{
    if topics.len() > 0 {
        let rest = topics.drop_last();
        lemma_groups(rest, topic);
        let n = topics.len() - 1;
        let a = topic_agnostic(topics);
        let a0 = topic_agnostic(rest);
        let b = by_topic(topics, topic);
        let b0 = by_topic(rest, topic);
        assert(topics[n] == topics.last());
        assert forall|i: int| 0 <= i < a0.len() implies a0[i] < n by {
            assert(a0.contains(a0[i]));
        }
        assert forall|i: int| 0 <= i < b0.len() implies b0[i] < n by {
            assert(b0.contains(b0[i]));
        }
        assert forall|k: int| #![trigger a.contains(k)] a.contains(k) <==> 0 <= k < topics.len()
            && topics[k].len() == 0 by {
            if a.contains(k) {
                let i = choose|i: int| 0 <= i < a.len() && a[i] == k;
                if i < a0.len() {
                    assert(a0.contains(a0[i]));
                    assert(rest[k] == topics[k]);
                }
            }
            if 0 <= k < topics.len() && topics[k].len() == 0 {
                if k < n {
                    assert(rest[k] == topics[k]);
                    assert(a0.contains(k));
                    let i = choose|i: int| 0 <= i < a0.len() && a0[i] == k;
                    assert(a[i] == k);
                } else {
                    assert(a[a.len() - 1] == k);
                }
            }
        }
        assert forall|k: int| #![trigger b.contains(k)] b.contains(k) <==> 0 <= k < topics.len()
            && topics[k].len() > 0 && receives(topics[k], topic) by {
            if b.contains(k) {
                let i = choose|i: int| 0 <= i < b.len() && b[i] == k;
                if i < b0.len() {
                    assert(b0.contains(b0[i]));
                    assert(rest[k] == topics[k]);
                }
            }
            if 0 <= k < topics.len() && topics[k].len() > 0 && receives(topics[k], topic) {
                if k < n {
                    assert(rest[k] == topics[k]);
                    assert(b0.contains(k));
                    let i = choose|i: int| 0 <= i < b0.len() && b0[i] == k;
                    assert(b[i] == k);
                } else {
                    assert(b[b.len() - 1] == k);
                }
            }
        }
    }
}

/// Whether one of the topics is `topic`.
fn names_topic(handler_topics: &Vec<Topic>, topic: &Topic) -> (r: bool)
    ensures
        r == names_view(handler_topics@).contains(topic@),
{
    let mut i: usize = 0;
    while i < handler_topics.len()
        invariant
            i <= handler_topics.len(),
            forall|j: int| 0 <= j < i ==> names_view(handler_topics@)[j] != topic@,
        decreases handler_topics.len() - i,
    {
        if handler_topics[i] == *topic {
            assert(names_view(handler_topics@)[i as int] == topic@);
            return true;
        }
        i += 1;
    }
    false
}

/// Hands each message to the handlers that ask for it.
pub struct MessageBus<
    M: Message,
    T: MessageProvider<M>,
    H: MessageHandler<M, MS>,
    MS: MessageSender<M>,
> {
    phantom: PhantomData<M>,
    message_provider: T,
    message_handlers: Vec<H>,
    handler_topics: Vec<Vec<Topic>>,
    actions_context: ActionsContext<M, MS>,
    terminate_on_event_loop_stop_message: bool,
}

impl<
    M: Message,
    T: MessageProvider<M>,
    H: MessageHandler<M, MS>,
    MS: MessageSender<M>,
> MessageBus<M, T, H, MS> {
    /// The topics that each handler asked for when the bus was made, in
    /// registration order.
    pub open spec fn topics(&self) -> Seq<Seq<Seq<char>>> {
        topics_view(self.topic_lists())
    }

    /// The list of topics that each handler returned when the bus was made,
    /// in registration order.
    pub closed spec fn topic_lists(&self) -> Seq<Vec<Topic>> {
        self.handler_topics@
    }

    /// The handlers of the bus, in registration order.
    pub closed spec fn handler_states(&self) -> Seq<H> {
        self.message_handlers@
    }

    /// How many handlers the bus has.
    pub open spec fn handlers(&self) -> nat {
        self.handler_states().len()
    }

    /// Where the bus gets its messages from.
    pub closed spec fn provider(&self) -> T {
        self.message_provider
    }

    /// The actions context that the bus hands to its handlers.
    pub closed spec fn context(&self) -> ActionsContext<M, MS> {
        self.actions_context
    }

    /// Whether the bus stops at the message that announces the end of the
    /// event loop.
    pub closed spec fn stops_with_event_loop(&self) -> bool {
        self.terminate_on_event_loop_stop_message
    }

    /// The bus knows the topics of each of its handlers.
    pub open spec fn wf(&self) -> bool {
        self.topics().len() == self.handlers()
    }

    /// A bus over the given handlers. Each handler is asked once for its
    /// topics, through `MessageHandler::get_topics`, and the bus holds what
    /// it answered.
    pub fn new(
        message_provider: T,
        message_handlers: Vec<H>,
        actions_context: ActionsContext<M, MS>,
        terminate_on_event_loop_stop_message: bool,
    ) -> (r: Self)
        ensures
            r.wf(),
            r.handlers() == message_handlers.len(),
            r.handler_states() == message_handlers@,
            r.provider() == message_provider,
            r.context() == actions_context,
            r.stops_with_event_loop() == terminate_on_event_loop_stop_message,
            forall|i: int|
                0 <= i < message_handlers.len() ==> call_ensures(
                    H::get_topics,
                    (&message_handlers[i],),
                    #[trigger] r.topic_lists()[i],
                ),
    {
        let mut handler_topics: Vec<Vec<Topic>> = Vec::new();
        let mut i: usize = 0;
        while i < message_handlers.len()
            invariant
                i <= message_handlers.len(),
                handler_topics.len() == i,
                forall|j: int|
                    0 <= j < i ==> call_ensures(
                        H::get_topics,
                        (&message_handlers[j],),
                        #[trigger] handler_topics[j],
                    ),
            decreases message_handlers.len() - i,
        {
            handler_topics.push(message_handlers[i].get_topics());
            i += 1;
        }
        MessageBus {
            phantom: PhantomData,
            message_provider,
            message_handlers,
            handler_topics,
            actions_context,
            terminate_on_event_loop_stop_message,
        }
    }

    /// The handlers that are handed a message of the given topic, in the
    /// order in which they are handed it.
    pub fn recipients_of(&self, topic: &Option<Topic>) -> (r: Vec<usize>)
        requires
            self.wf(),
        ensures
            r.len() == recipients(self.topics(), opt_view(*topic)).len(),
            forall|i: int|
                0 <= i < r.len() ==> (#[trigger] r[i]) as int == recipients(
                    self.topics(),
                    opt_view(*topic),
                )[i],
            forall|i: int| 0 <= i < r.len() ==> (#[trigger] r[i]) < self.handlers(),
    {
        let ghost all = self.topics();
        let mut out: Vec<usize> = Vec::new();
        let mut i: usize = 0;
        assert(all.take(0) =~= Seq::empty());
        while i < self.handler_topics.len()
            invariant
                i <= self.handler_topics.len(),
                all == self.topics(),
                out.len() == topic_agnostic(all.take(i as int)).len(),
                forall|k: int|
                    0 <= k < out.len() ==> (#[trigger] out[k]) as int == topic_agnostic(
                        all.take(i as int),
                    )[k] && out[k] < i,
            decreases self.handler_topics.len() - i,
        {
            assert(all.take(i + 1).drop_last() =~= all.take(i as int));
            assert(all.take(i + 1).last() == names_view(self.handler_topics[i as int]@));
            if self.handler_topics[i].len() == 0 {
                out.push(i);
            }
            i += 1;
        }
        assert(all.take(all.len() as int) =~= all);
        let ghost first = out@.len();
        let mut j: usize = 0;
        while j < self.handler_topics.len()
            invariant
                j <= self.handler_topics.len(),
                all == self.topics(),
                self.wf(),
                first == topic_agnostic(all).len(),
                out.len() == first + by_topic(all.take(j as int), opt_view(*topic)).len(),
                forall|k: int|
                    0 <= k < first ==> (#[trigger] out[k]) as int == topic_agnostic(all)[k] && out[k]
                        < self.handlers(),
                forall|k: int|
                    first <= k < out.len() ==> (#[trigger] out[k]) as int == by_topic(
                        all.take(j as int),
                        opt_view(*topic),
                    )[k - first] && out[k] < j,
            decreases self.handler_topics.len() - j,
        {
            assert(all.take(j + 1).drop_last() =~= all.take(j as int));
            assert(all.take(j + 1).last() == names_view(self.handler_topics[j as int]@));
            let tagged = self.handler_topics[j].len() > 0;
            let wanted = match topic {
                Some(t) => names_topic(&self.handler_topics[j], t),
                None => true,
            };
            if tagged && wanted {
                out.push(j);
            }
            j += 1;
        }
        out
    }

    /// Hands a message to each of its recipients, in the order of
    /// `recipients_of`. Returns whether the bus is to stop: the message
    /// announces the end of the event loop and the bus stops with it.
    ///
    /// The message is asked once for its topic and once whether it
    /// announces the end of the event loop. The recipients of the topic
    /// take the message one after the other, each once, through
    /// `MessageHandler::on_new_message` with the context of the bus:
    /// `states[j]` are the handlers as the `j`-th recipient finds them, and
    /// `states[j + 1]` differs in that recipient alone, which is what the
    /// call left of it.
    pub fn on_message(&mut self, message: &M) -> (r: bool)
        requires
            old(self).wf(),
        ensures
            final(self).wf(),
            final(self).topics() == old(self).topics(),
            final(self).handlers() == old(self).handlers(),
            final(self).provider() == old(self).provider(),
            final(self).context() == old(self).context(),
            final(self).stops_with_event_loop() == old(self).stops_with_event_loop(),
            r ==> old(self).stops_with_event_loop(),
            exists|topic: Option<Topic>, stop: bool, states: Seq<Seq<H>>|
                #![trigger
                    call_ensures(M::get_topic, (message,), topic),
                    call_ensures(M::is_event_loop_stopped_message, (message,), stop),
                    states.len(),
                ]
                {
                    let to = recipients(old(self).topics(), opt_view(topic));
                    &&& call_ensures(M::get_topic, (message,), topic)
                    &&& call_ensures(M::is_event_loop_stopped_message, (message,), stop)
                    &&& r == (stop && old(self).stops_with_event_loop())
                    &&& states.len() == to.len() + 1
                    &&& states[0] == old(self).handler_states()
                    &&& states[to.len() as int] == final(self).handler_states()
                    &&& forall|j: int| #[trigger]
                        has_turn(j, to.len()) ==> exists|handler: &mut H|
                            {
                                &&& mut_ref_current(handler) == states[j][to[j]]
                                &&& states[j + 1] == states[j].update(
                                    to[j],
                                    mut_ref_future(handler),
                                )
                                &&& #[trigger] call_ensures(
                                    H::on_new_message,
                                    (handler, message, &old(self).context()),
                                    (),
                                )
                            }
                },
    {
        let topic = message.get_topic();
        let to = self.recipients_of(&topic);
        let ghost wanted = recipients(self.topics(), opt_view(topic));
        let ghost mut states: Seq<Seq<H>> = seq![self.handler_states()];
        let mut i: usize = 0;
        while i < to.len()
            invariant
                i <= to.len(),
                self.wf(),
                self.topics() == old(self).topics(),
                self.handlers() == old(self).handlers(),
                self.provider() == old(self).provider(),
                self.context() == old(self).context(),
                self.stops_with_event_loop() == old(self).stops_with_event_loop(),
                wanted == recipients(old(self).topics(), opt_view(topic)),
                to.len() == wanted.len(),
                forall|k: int| 0 <= k < to.len() ==> (#[trigger] to[k]) as int == wanted[k],
                forall|k: int| 0 <= k < to.len() ==> (#[trigger] to[k]) < self.handlers(),
                states.len() == i + 1,
                states[0] == old(self).handler_states(),
                states[i as int] == self.handler_states(),
                forall|j: int| #[trigger]
                    has_turn(j, i as nat) ==> exists|handler: &mut H|
                        {
                            &&& mut_ref_current(handler) == states[j][wanted[j]]
                            &&& states[j + 1] == states[j].update(
                                wanted[j],
                                mut_ref_future(handler),
                            )
                            &&& #[trigger] call_ensures(
                                H::on_new_message,
                                (handler, message, &old(self).context()),
                                (),
                            )
                        },
            decreases to.len() - i,
        {
            let index = to[i];
            let ghost before = self.handler_states();
            let ghost earlier = states;
            self.message_handlers[index].on_new_message(message, &self.actions_context);
            proof {
                states = states.push(self.handler_states());
            }
            i += 1;
            assert(self.handler_states() =~= before.update(
                index as int,
                self.handler_states()[index as int],
            ));
            assert forall|j: int| #[trigger] has_turn(j, i as nat) implies exists|handler: &mut H|
                {
                    &&& mut_ref_current(handler) == states[j][wanted[j]]
                    &&& states[j + 1] == states[j].update(wanted[j], mut_ref_future(handler))
                    &&& #[trigger] call_ensures(
                        H::on_new_message,
                        (handler, message, &old(self).context()),
                        (),
                    )
                } by {
                if j < i - 1 {
                    assert(has_turn(j, (i - 1) as nat));
                    assert(states[j] == earlier[j]);
                    assert(states[j + 1] == earlier[j + 1]);
                } else {
                    assert(states[j] == before);
                    assert(wanted[j] == index as int);
                }
            }
        }
        message.is_event_loop_stopped_message() && self.terminate_on_event_loop_stop_message
    }

    /// Takes the next message from the provider and hands it out. Returns
    /// whether the bus goes on: `false` when the provider has no more
    /// messages, and when the message stops the bus.
    ///
    /// The provider is asked once, through `MessageProvider::next_message`.
    /// Without a message the handlers stay as they are. A message is handed
    /// out as `on_message` says.
    pub fn step(&mut self) -> (r: bool)
        requires
            old(self).wf(),
        ensures
            final(self).wf(),
            final(self).topics() == old(self).topics(),
            final(self).handlers() == old(self).handlers(),
            final(self).context() == old(self).context(),
            final(self).stops_with_event_loop() == old(self).stops_with_event_loop(),
            exists|provider: &mut T, next: Option<M>|
                {
                    &&& mut_ref_current(provider) == old(self).provider()
                    &&& mut_ref_future(provider) == final(self).provider()
                    &&& #[trigger] call_ensures(T::next_message, (provider,), next)
                    &&& match next {
                        None => !r && final(self).handler_states() == old(self).handler_states(),
                        Some(message) => exists|
                            topic: Option<Topic>,
                            stop: bool,
                            states: Seq<Seq<H>>,
                        |
                            #![trigger
                                call_ensures(M::get_topic, (&message,), topic),
                                call_ensures(M::is_event_loop_stopped_message, (&message,), stop),
                                states.len(),
                            ]
                            {
                                let to = recipients(old(self).topics(), opt_view(topic));
                                &&& call_ensures(M::get_topic, (&message,), topic)
                                &&& call_ensures(
                                    M::is_event_loop_stopped_message,
                                    (&message,),
                                    stop,
                                )
                                &&& r == !(stop && old(self).stops_with_event_loop())
                                &&& states.len() == to.len() + 1
                                &&& states[0] == old(self).handler_states()
                                &&& states[to.len() as int] == final(self).handler_states()
                                &&& forall|j: int| #[trigger]
                                    has_turn(j, to.len()) ==> exists|handler: &mut H|
                                        {
                                            &&& mut_ref_current(handler) == states[j][to[j]]
                                            &&& states[j + 1] == states[j].update(
                                                to[j],
                                                mut_ref_future(handler),
                                            )
                                            &&& #[trigger] call_ensures(
                                                H::on_new_message,
                                                (handler, &message, &old(self).context()),
                                                (),
                                            )
                                        }
                            },
                    }
                },
    {
        match self.message_provider.next_message() {
            None => false,
            Some(message) => {
                let ghost asked = *self;
                let stop = self.on_message(&message);
                proof {
                    assert(asked.handler_states() == old(self).handler_states());
                    assert(asked.topics() == old(self).topics());
                    assert(asked.context() == old(self).context());
                }
                !stop
            },
        }
    }
}

} // verus!
