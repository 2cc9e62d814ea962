//! Requests and responses of the language server, and the actors that
//! serve them.

use std::collections::VecDeque;
use vstd::prelude::*;

verus! {

#[verifier::external_type_specification]
#[verifier::external_body]
pub struct ExUrl(url::Url);

#[verifier::external_type_specification]
#[verifier::external_body]
pub struct ExLsPosition(languageserver_types::Position);

#[verifier::external_type_specification]
#[verifier::external_body]
pub struct ExLsRange(languageserver_types::Range);

pub type TaskId = usize;

/// A range in the file at `file_url`.
#[derive(Debug)]
pub struct RangedFilePosition {
    pub file_url: url::Url,
    pub range: languageserver_types::Range,
}

/// A named symbol of a document and where it is.
#[derive(Debug)]
pub struct Symbol {
    pub name: String,
    pub range: languageserver_types::Range,
}

/// A request to the language server.
#[derive(Debug)]
pub enum QueryRequest {
    Initialize { task_id: TaskId, workspace_root_url: Option<url::Url> },
    HoverAtPosition { task_id: TaskId, file_url: url::Url, file_pos: languageserver_types::Position },
    GoToDefinition { task_id: TaskId, file_url: url::Url, file_pos: languageserver_types::Position },
    FileOpened { file_url: url::Url, file_text: String },
    FileChanged { file_url: url::Url, changes: Vec<(languageserver_types::Range, String)> },
    FileSymbols { task_id: TaskId, file_url: url::Url },
}

impl QueryRequest {
    /// Initializing and changes to files mutate the server's state; the
    /// queries do not.
    pub fn will_mutate_server_state(&self) -> (r: bool)
        ensures
            r == (self is Initialize || self is FileOpened || self is FileChanged),
    {
        match self {
            QueryRequest::Initialize { .. }
            | QueryRequest::FileOpened { .. }
            | QueryRequest::FileChanged { .. } => true,
            QueryRequest::HoverAtPosition { .. }
            | QueryRequest::GoToDefinition { .. }
            | QueryRequest::FileSymbols { .. } => false,
        }
    }
}

/// A response of the language server.
pub enum QueryResponse {
    Nothing { task_id: TaskId },
    AckInitialize { task_id: TaskId },
    HoverData { task_id: TaskId, data: String },
    Definition { task_id: TaskId, ranged_file_position: Option<RangedFilePosition> },
    DocumentSymbols { task_id: TaskId, symbols: Vec<Symbol> },
}

/// An actor in the task system: a uniform way to create, control, message,
/// and shut down concurrent workers.
pub trait Actor {
    type Input: Send + Sync + 'static;

    /// Invoked when new message(s) arrive, with all the messages that could
    /// be pulled at this time; the queue is never empty here. The actor is
    /// free to process as many as it likes: so long as messages remain, this
    /// is invoked again (possibly with more appended at the back). Once the
    /// queue is empty, the actor's thread blocks until more can be fetched.
    ///
    /// The intended workflow: prune messages made outdated by later ones,
    /// then pop the front message and process it, and return, which gives
    /// the actor a chance to see newly arrived messages.
    fn on_new_messages(&mut self, messages: &mut VecDeque<Self::Input>)
        requires
            old(messages)@.len() > 0,
    ;
}

/// Gathering the pending messages failed: the sending side hung up.
#[derive(Debug, Copy, Clone, PartialEq, Eq, Structural)]
pub enum PushAllPendingError {
    Disconnected,
}

/// What the receiving end of an actor's channel reported.
pub enum ReceiveEvent<T> {
    /// Nothing has been received yet: gathering begins.
    Start,
    /// A message arrived.
    Message(T),
    /// A poll found no message waiting.
    Empty,
    /// Every sender is gone.
    Disconnected,
}

/// What to do next with the receiving end of an actor's channel.
#[derive(Debug, Copy, Clone, PartialEq, Eq)]
pub enum ReceiveAction {
    /// Block until a message arrives (or the senders are gone).
    BlockingReceive,
    /// Poll for a message without blocking.
    TryReceive,
    /// Gathering is over, with this outcome.
    Finish(Result<(), PushAllPendingError>),
}

/// The queue and the next action after `event`, for a queue `q`: while the
/// queue is empty, a blocking receive; a message is appended at the back and
/// followed by a poll; a poll that finds nothing ends the gathering well
/// (once the queue holds something); a hang-up ends it with an error.
pub open spec fn gather_step<T>(q: Seq<T>, event: ReceiveEvent<T>) -> (Seq<T>, ReceiveAction) {
    match event {
        ReceiveEvent::Start => (q, if q.len() == 0 {
            ReceiveAction::BlockingReceive
        } else {
            ReceiveAction::TryReceive
        }),
        ReceiveEvent::Message(m) => (q.push(m), ReceiveAction::TryReceive),
        ReceiveEvent::Empty => (q, if q.len() == 0 {
            ReceiveAction::BlockingReceive
        } else {
            ReceiveAction::Finish(Ok(()))
        }),
        ReceiveEvent::Disconnected => (q, ReceiveAction::Finish(Err(PushAllPendingError::Disconnected))),
    }
}

/// One step of gathering all pending messages into `queue`: it takes what
/// the channel reported and says what to do next. While the queue is empty
/// it asks for a blocking receive, so that at least one message is there;
/// after that it polls until no message is waiting, when gathering succeeds,
/// or the senders are gone, when it fails.
pub fn push_all_pending<T>(queue: &mut VecDeque<T>, event: ReceiveEvent<T>) -> (r: ReceiveAction)
    ensures
        (final(queue)@, r) == gather_step(old(queue)@, event),
        r == ReceiveAction::Finish(Ok(())) ==> final(queue)@.len() > 0,
        r == ReceiveAction::TryReceive ==> final(queue)@.len() > 0,
        r == ReceiveAction::BlockingReceive ==> final(queue)@.len() == 0,
        event matches ReceiveEvent::Message(m) ==> r == ReceiveAction::TryReceive && final(queue)@
            == old(queue)@.push(m),
        !(event is Message) ==> final(queue)@ == old(queue)@,
        (event is Start || event is Empty) && old(queue)@.len() == 0 ==> r
            == ReceiveAction::BlockingReceive,
        event is Start && old(queue)@.len() > 0 ==> r == ReceiveAction::TryReceive,
        event is Empty && old(queue)@.len() > 0 ==> r == ReceiveAction::Finish(Ok(())),
        event is Disconnected ==> r == ReceiveAction::Finish(Err(PushAllPendingError::Disconnected)),
{
    match event {
        ReceiveEvent::Start if queue.len() == 0 => ReceiveAction::BlockingReceive,
        ReceiveEvent::Start => ReceiveAction::TryReceive,
        ReceiveEvent::Empty if queue.len() == 0 => ReceiveAction::BlockingReceive,
        ReceiveEvent::Message(m) => {
            queue.push_back(m);
            ReceiveAction::TryReceive
        },
        ReceiveEvent::Empty => ReceiveAction::Finish(Ok(())),
        ReceiveEvent::Disconnected => ReceiveAction::Finish(Err(PushAllPendingError::Disconnected)),
    }
}

/// The protocol of one gathering step: a blocking receive is asked for
/// only while the queue is empty, and then always; a message is appended at
/// the back and followed by a poll; a poll that finds nothing ends the
/// gathering well when something is queued; a hang-up ends it with an error;
/// nothing but a message changes the queue.
pub proof fn lemma_gather_step_protocol<T>(q: Seq<T>, event: ReceiveEvent<T>)
    ensures
        ({
            let (q2, r) = gather_step(q, event);
            &&& r == ReceiveAction::BlockingReceive <==> q2.len() == 0 && (event is Start || event is Empty)
            &&& r == ReceiveAction::TryReceive <==> q2.len() > 0 && (event is Start || event is Message)
            &&& r == ReceiveAction::Finish(Ok(())) <==> q.len() > 0 && event is Empty
            &&& r == ReceiveAction::Finish(Err(PushAllPendingError::Disconnected)) <==> event is Disconnected
            &&& event matches ReceiveEvent::Message(m) ==> q2 == q.push(m)
            &&& !(event is Message) ==> q2 == q
        }),
{
}

/// The queue after the steps for `events`, one after the other, from `q`.
pub open spec fn gather_queue<T>(q: Seq<T>, events: Seq<ReceiveEvent<T>>) -> Seq<T>
    decreases events.len(),
{
    if events.len() == 0 {
        q
    } else {
        gather_step(gather_queue(q, events.drop_last()), events.last()).0
    }
}

/// The messages among `events`, in order.
pub open spec fn received_messages<T>(events: Seq<ReceiveEvent<T>>) -> Seq<T>
    decreases events.len(),
{
    if events.len() == 0 {
        seq![]
    } else {
        match events.last() {
            ReceiveEvent::Message(m) => received_messages(events.drop_last()).push(m),
            _ => received_messages(events.drop_last()),
        }
    }
}

/// Gathering loses, duplicates and reorders nothing: whatever the channel
/// reports, the queue ends as it began followed by exactly the messages that
/// arrived, each once, in arrival order.
pub proof fn lemma_gathering_appends_received<T>(q: Seq<T>, events: Seq<ReceiveEvent<T>>)
    ensures
        gather_queue(q, events) == q + received_messages(events),
    decreases events.len(),
{
    if events.len() == 0 {
        assert(q + Seq::<T>::empty() =~= q);
    } else {
        lemma_gathering_appends_received(q, events.drop_last());
        let before = q + received_messages(events.drop_last());
        match events.last() {
            ReceiveEvent::Message(m) => {
                assert(before.push(m) =~= q + received_messages(events.drop_last()).push(m));
            },
            _ => {},
        }
    }
}

/// What the actor's thread does after a round of gathering.
#[derive(Debug, Copy, Clone, PartialEq, Eq, Structural)]
pub enum ActorStep {
    /// Hand the queued messages to the actor.
    Invoke,
    /// Nothing is queued and nothing more can come: the thread ends.
    Stop,
}

/// After a round of gathering, the actor is invoked so long as messages
/// remain in the queue; the thread stops only once the queue is empty (a
/// round that ends well always leaves a message, so this happens only after
/// the senders are gone).
pub fn after_gathering<T>(queue: &VecDeque<T>) -> (r: ActorStep)
    ensures
        r == if queue@.len() > 0 {
            ActorStep::Invoke
        } else {
            ActorStep::Stop
        },
{
    if queue.len() > 0 {
        ActorStep::Invoke
    } else {
        ActorStep::Stop
    }
}

} // verus!
