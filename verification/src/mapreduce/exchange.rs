//! The exchange with a worker: a task is sent to it, and its answer is received.

use crate::mapreduce::connect::{after_event, ConnectAction, ConnectEvent, Connecting};
use crate::mapreduce::error::Error;
use crate::mapreduce::message::{
    after_read, frame, framed, law_complete_iff_the_last_bytes_are_the_mark,
    law_message_is_payload_and_mark, reception, unframed, Progress, Reception, Response, BUF_SIZE,
    END_BYTE,
};
use vstd::prelude::*;

verus! {

/// What happened last.
pub enum ExchangeEvent<'a> {
    /// Something about the connection.
    Connecting(ConnectEvent),
    /// The task was encoded, or could not be.
    Encoded(Option<Vec<u8>>),
    /// The message was sent, or could not be.
    Sent(bool),
    /// These bytes were read, none of them at the end of the stream, or reading failed and
    /// may be tried again. Where it failed for good, the stream has ended.
    Read(Option<&'a [u8]>),
}

/// What is to be done next.
#[derive(Debug)]
pub enum ExchangeAction {
    /// Try to connect.
    Connect,
    /// Rest for so many milliseconds.
    Rest(u64),
    /// Encode the task.
    Encode,
    /// Send these bytes.
    Send(Vec<u8>),
    /// Read.
    Read,
    /// Decode the answer.
    Decode(Vec<u8>),
    /// There is no answer to wait for.
    Finish,
    /// Report the error.
    Fail(Error),
}

/// What an [`ExchangeEvent`] holds.
pub enum EventView {
    Connecting(ConnectEvent),
    Encoded(Option<Seq<u8>>),
    Sent(bool),
    Read(Option<Seq<u8>>),
}

/// What an [`ExchangeAction`] holds.
pub enum ActionView {
    Connect,
    Rest(u64),
    Encode,
    Send(Seq<u8>),
    Read,
    Decode(Seq<u8>),
    Finish,
    Fail(Error),
}

impl<'a> View for ExchangeEvent<'a> {
    type V = EventView;

    open spec fn view(&self) -> EventView {
        match self {
            ExchangeEvent::Connecting(event) => EventView::Connecting(*event),
            ExchangeEvent::Encoded(Some(bytes)) => EventView::Encoded(Some(bytes@)),
            ExchangeEvent::Encoded(None) => EventView::Encoded(None),
            ExchangeEvent::Sent(sent) => EventView::Sent(*sent),
            ExchangeEvent::Read(Some(bytes)) => EventView::Read(Some(bytes@)),
            ExchangeEvent::Read(None) => EventView::Read(None),
        }
    }
}

impl View for ExchangeAction {
    type V = ActionView;

    open spec fn view(&self) -> ActionView {
        match self {
            ExchangeAction::Connect => ActionView::Connect,
            ExchangeAction::Rest(millis) => ActionView::Rest(*millis),
            ExchangeAction::Encode => ActionView::Encode,
            ExchangeAction::Send(bytes) => ActionView::Send(bytes@),
            ExchangeAction::Read => ActionView::Read,
            ExchangeAction::Decode(bytes) => ActionView::Decode(bytes@),
            ExchangeAction::Finish => ActionView::Finish,
            ExchangeAction::Fail(error) => ActionView::Fail(*error),
        }
    }
}

/// How far an exchange has come.
pub enum Stage {
    /// This many attempts to connect were made.
    Connecting(nat),
    /// The task is being encoded.
    Encoding,
    /// The message is being sent.
    Sending,
    /// These bytes of the answer were received.
    Receiving(Seq<u8>),
    /// The exchange is over.
    Over,
}

impl Stage {
    /// Whether `event` can happen at this stage.
    pub open spec fn admits(self, event: EventView) -> bool {
        match event {
            EventView::Connecting(_) => self is Connecting,
            EventView::Encoded(_) => self is Encoding,
            EventView::Sent(_) => self is Sending,
            EventView::Read(_) => self is Receiving,
        }
    }

    /// The stage after `event`, and what is to be done next. The connection comes first;
    /// then the task is encoded and sent with an end mark behind it; then, if there is to
    /// be an answer, it is read up to its end mark.
    pub open spec fn after(self, event: EventView, answered: bool) -> (Stage, ActionView) {
        match (self, event) {
            (Stage::Connecting(attempts), EventView::Connecting(event)) => {
                let (attempts, action) = after_event(attempts, event);
                match action {
                    ConnectAction::Connect => (Stage::Connecting(attempts), ActionView::Connect),
                    ConnectAction::Rest(millis) => (
                        Stage::Connecting(attempts),
                        ActionView::Rest(millis),
                    ),
                    ConnectAction::Proceed => (Stage::Encoding, ActionView::Encode),
                    ConnectAction::Fail(error) => (Stage::Over, ActionView::Fail(error)),
                }
            },
            (Stage::Encoding, EventView::Encoded(Some(bytes))) => (
                Stage::Sending,
                ActionView::Send(framed(bytes)),
            ),
            (Stage::Encoding, EventView::Encoded(None)) => (
                Stage::Over,
                ActionView::Fail(Error::Codec),
            ),
            (Stage::Sending, EventView::Sent(true)) => if answered {
                (Stage::Receiving(seq![]), ActionView::Read)
            } else {
                (Stage::Over, ActionView::Finish)
            },
            (Stage::Sending, EventView::Sent(false)) => (Stage::Over, ActionView::Fail(Error::Io)),
            (Stage::Receiving(bytes), EventView::Read(read)) => {
                let (received, progress) = after_read(bytes, read);
                match progress {
                    Progress::ReadAgain => (Stage::Receiving(received), ActionView::Read),
                    Progress::NoResponse => (Stage::Over, ActionView::Fail(Error::NoResponse)),
                    Progress::Complete => (Stage::Over, ActionView::Decode(unframed(received))),
                }
            },
            _ => (self, ActionView::Finish),
        }
    }
}

enum State {
    Connecting(Connecting),
    Encoding,
    Sending,
    Receiving(Response),
    Over,
}

/// An exchange with a worker.
pub struct Exchange {
    state: State,
    answered: bool,
}

impl View for Exchange {
    type V = Stage;

    closed spec fn view(&self) -> Stage {
        match self.state {
            State::Connecting(connecting) => Stage::Connecting(connecting@),
            State::Encoding => Stage::Encoding,
            State::Sending => Stage::Sending,
            State::Receiving(response) => Stage::Receiving(response@),
            State::Over => Stage::Over,
        }
    }
}

impl Exchange {
    /// Whether an answer is to be received.
    pub closed spec fn is_answered(self) -> bool {
        self.answered
    }

    /// Having a job performed: the task is sent, and there is an answer.
    pub fn perform() -> (r: Self)
        ensures
            r@ == Stage::Connecting(0),
            r.is_answered(),
    {
        Exchange { state: State::Connecting(Connecting::new()), answered: true }
    }

    /// Stopping a worker: the task is sent, and there is no answer.
    pub fn stop() -> (r: Self)
        ensures
            r@ == Stage::Connecting(0),
            !r.is_answered(),
    {
        Exchange { state: State::Connecting(Connecting::new()), answered: false }
    }

    /// Takes in what happened, and says what is to be done next.
    pub fn step(self, event: ExchangeEvent) -> (r: (Self, ExchangeAction))
        requires
            self@.admits(event@),
        ensures
            (r.0@, r.1@) == self@.after(event@, self.is_answered()),
            r.0.is_answered() == self.is_answered(),
    {
        let answered = self.answered;
        let (state, action) = match (self.state, event) {
            (State::Connecting(connecting), ExchangeEvent::Connecting(event)) => {
                let mut connecting = connecting;
                match connecting.step(event) {
                    ConnectAction::Connect => (
                        State::Connecting(connecting),
                        ExchangeAction::Connect,
                    ),
                    ConnectAction::Rest(millis) => (
                        State::Connecting(connecting),
                        ExchangeAction::Rest(millis),
                    ),
                    ConnectAction::Proceed => (State::Encoding, ExchangeAction::Encode),
                    ConnectAction::Fail(error) => (State::Over, ExchangeAction::Fail(error)),
                }
            },
            (State::Encoding, ExchangeEvent::Encoded(Some(bytes))) => (
                State::Sending,
                ExchangeAction::Send(frame(bytes)),
            ),
            (State::Encoding, ExchangeEvent::Encoded(None)) => (
                State::Over,
                ExchangeAction::Fail(Error::Codec),
            ),
            (State::Sending, ExchangeEvent::Sent(sent)) => if !sent {
                (State::Over, ExchangeAction::Fail(Error::Io))
            } else if answered {
                (State::Receiving(Response::new()), ExchangeAction::Read)
            } else {
                (State::Over, ExchangeAction::Finish)
            },
            (State::Receiving(response), ExchangeEvent::Read(read)) => {
                let mut response = response;
                match response.receive(read) {
                    Progress::ReadAgain => (State::Receiving(response), ExchangeAction::Read),
                    Progress::NoResponse => (State::Over, ExchangeAction::Fail(Error::NoResponse)),
                    Progress::Complete => (
                        State::Over,
                        ExchangeAction::Decode(response.into_payload()),
                    ),
                }
            },
            (state, _) => (state, ExchangeAction::Finish),
        };
        (Exchange { state, answered }, action)
    }
}

/// The stage after the reads, one after the other, and what is to be done last.
pub open spec fn after_reads(reads: Seq<Option<Seq<u8>>>) -> (Stage, ActionView)
    decreases reads.len(),
{
    if reads.len() == 0 {
        (Stage::Receiving(seq![]), ActionView::Read)
    } else {
        let (stage, action) = after_reads(reads.drop_last());
        if stage is Receiving {
            stage.after(EventView::Read(reads.last()), true)
        } else {
            (stage, action)
        }
    }
}

/// An answer is received as the message that it is: what is to be decoded is what stood
/// in front of the end mark, and a worker whose stream ended before gave no response.
pub proof fn law_answer_is_the_message(reads: Seq<Option<Seq<u8>>>)
    ensures
        after_reads(reads) == match reception(reads) {
            Reception::Pending(bytes) => (Stage::Receiving(bytes), ActionView::Read),
            Reception::NoResponse => (Stage::Over, ActionView::Fail(Error::NoResponse)),
            Reception::Payload(payload) => (Stage::Over, ActionView::Decode(payload)),
        },
    decreases reads.len(),
{
    if reads.len() > 0 {
        law_answer_is_the_message(reads.drop_last());
    }
}

/// Nothing is sent before there is a connection and the task is encoded, and what is sent
/// is the message for it.
pub proof fn law_only_the_encoded_task_is_sent(stage: Stage, event: EventView, answered: bool)
    requires
        stage.admits(event),
    ensures
        stage.after(event, answered).1 matches ActionView::Send(bytes) ==> {
            &&& stage is Encoding
            &&& event matches EventView::Encoded(Some(task))
            &&& bytes == framed(task)
        },
        stage.after(event, answered).0 is Encoding ==> event == EventView::Connecting(
            ConnectEvent::Connected,
        ),
        stage.after(event, answered).0 is Receiving ==> answered || stage is Receiving,
{
}

/// A task that was encoded is sent, however long it is, whether or not there is to be an
/// answer: all its bytes, and then the end mark. Only one that could not be encoded is not.
pub proof fn law_encoded_task_is_sent_whole(task: Seq<u8>, answered: bool)
    ensures
        Stage::Encoding.after(EventView::Encoded(Some(task)), answered).0 == Stage::Sending,
        Stage::Encoding.after(EventView::Encoded(Some(task)), answered).1 matches ActionView::Send(
            bytes,
        ) && {
            &&& bytes.len() == task.len() + BUF_SIZE
            &&& bytes.take(task.len() as int) == task
            &&& forall|i: int| task.len() <= i < bytes.len() ==> #[trigger] bytes[i] == END_BYTE
        },
        Stage::Encoding.after(EventView::Encoded(None), answered) == (
            Stage::Over,
            ActionView::Fail(Error::Codec),
        ),
{
    law_message_is_payload_and_mark(task);
    assert(framed(task).take(task.len() as int) =~= task);
}

/// A message that was sent is followed by reading the answer from its first byte on, or by
/// nothing where there is to be none; one that could not be sent is an error.
pub proof fn law_sent_task_is_answered(answered: bool)
    ensures
        Stage::Sending.after(EventView::Sent(true), true) == (
            Stage::Receiving(Seq::<u8>::empty()),
            ActionView::Read,
        ),
        Stage::Sending.after(EventView::Sent(true), false) == (Stage::Over, ActionView::Finish),
        Stage::Sending.after(EventView::Sent(false), answered) == (
            Stage::Over,
            ActionView::Fail(Error::Io),
        ),
{
}

/// An exchange connects as [`Connecting`] does, and goes on to encode the task as soon as
/// there is a connection.
pub proof fn law_exchange_connects(attempts: nat, event: ConnectEvent, answered: bool)
    ensures
        ({
            let (stage, action) = Stage::Connecting(attempts).after(
                EventView::Connecting(event),
                answered,
            );
            let (next, todo) = after_event(attempts, event);
            &&& todo == ConnectAction::Connect ==> stage == Stage::Connecting(next) && action
                == ActionView::Connect
            &&& todo matches ConnectAction::Rest(millis) ==> stage == Stage::Connecting(next)
                && action == ActionView::Rest(millis)
            &&& todo == ConnectAction::Proceed ==> stage == Stage::Encoding && action
                == ActionView::Encode
            &&& todo matches ConnectAction::Fail(error) ==> stage == Stage::Over && action
                == ActionView::Fail(error)
        }),
{
}

/// While the answer is received, every read adds its bytes, all of them; when the end mark
/// has come, what stands in front of it is to be decoded, whole. A stream that ends before
/// is an error, and a read that failed and may be tried again changes nothing.
pub proof fn law_answer_is_received_whole(bytes: Seq<u8>, chunk: Seq<u8>, answered: bool)
    ensures
        chunk.len() > 0 ==> {
            let received = bytes + chunk;
            let marked = {
                &&& received.len() >= BUF_SIZE
                &&& forall|i: int|
                    received.len() - BUF_SIZE <= i < received.len() ==> #[trigger] received[i]
                        == END_BYTE
            };
            let (stage, action) = Stage::Receiving(bytes).after(
                EventView::Read(Some(chunk)),
                answered,
            );
            &&& marked ==> stage == Stage::Over && action == ActionView::Decode(
                received.take(received.len() - BUF_SIZE),
            )
            &&& !marked ==> stage == Stage::Receiving(received) && action == ActionView::Read
        },
        chunk.len() == 0 ==> Stage::Receiving(bytes).after(EventView::Read(Some(chunk)), answered)
            == (Stage::Over, ActionView::Fail(Error::NoResponse)),
        Stage::Receiving(bytes).after(EventView::Read(None), answered) == (
            Stage::Receiving(bytes),
            ActionView::Read,
        ),
{
    law_complete_iff_the_last_bytes_are_the_mark(bytes + chunk);
    if (bytes + chunk).len() >= BUF_SIZE {
        assert(unframed(bytes + chunk) =~= (bytes + chunk).take(
            (bytes + chunk).len() - BUF_SIZE,
        ));
    }
}

/// At each stage of an exchange its own events can happen, whatever they hold, and no
/// others.
pub proof fn law_each_stage_has_its_events(stage: Stage, event: EventView)
    ensures
        stage.admits(event) <==> {
            ||| stage is Connecting && event is Connecting
            ||| stage is Encoding && event is Encoded
            ||| stage is Sending && event is Sent
            ||| stage is Receiving && event is Read
        },
{
}

/// Events and actions are seen whole.
pub proof fn law_events_and_actions_are_seen_whole<'a>(
    event: ConnectEvent,
    sent: bool,
    bytes: Vec<u8>,
    chunk: &'a [u8],
    millis: u64,
    error: Error,
)
    ensures
        ExchangeEvent::Connecting(event)@ == EventView::Connecting(event),
        ExchangeEvent::Encoded(Some(bytes))@ == EventView::Encoded(Some(bytes@)),
        ExchangeEvent::Encoded(None)@ == EventView::Encoded(None),
        ExchangeEvent::Sent(sent)@ == EventView::Sent(sent),
        ExchangeEvent::Read(Some(chunk))@ == EventView::Read(Some(chunk@)),
        ExchangeEvent::Read(None)@ == EventView::Read(None),
        ExchangeAction::Connect@ == ActionView::Connect,
        ExchangeAction::Rest(millis)@ == ActionView::Rest(millis),
        ExchangeAction::Encode@ == ActionView::Encode,
        ExchangeAction::Send(bytes)@ == ActionView::Send(bytes@),
        ExchangeAction::Read@ == ActionView::Read,
        ExchangeAction::Decode(bytes)@ == ActionView::Decode(bytes@),
        ExchangeAction::Finish@ == ActionView::Finish,
        ExchangeAction::Fail(error)@ == ActionView::Fail(error),
{
}

} // verus!
