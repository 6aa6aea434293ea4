//! One turn of the language server's client, as steps that are taken outside and what comes of
//! them: requests are taken first, one file is gone through, and one message is read.

use vstd::prelude::*;
use crate::app_files::texts_in_order;
use crate::effect::Continuation;
use crate::lsp::{LspMessage, READ_TIMEOUT, is_acknowledged, needs_reply};
use crate::lsp_tokens::{SemanticToken, type_names};
use crate::lsp_worker::{LspQueue, Queue};
use crate::session_time::Nanos;
use crate::state::{File, LoadedFile, files_of};
use crate::theme::optional_text;

verus! {

/// How long output is waited for before the next file is gone through: ten milliseconds. What is
/// there is read first, so that neither side waits for the other to read.
pub const WARMUP_WAIT: Nanos = 10_000_000;

/// What matters of a message from the server.
pub struct ServerMessage {
    /// Whether the message has an id of any kind.
    pub has_id: bool,
    /// The id, where it is a number.
    pub id: Option<u64>,
    pub method: Option<String>,
    /// The tokens that the message holds, if any.
    pub tokens: Option<Vec<SemanticToken>>,
}

/// What comes of a step.
pub enum LspInput {
    /// A file was asked for.
    Request(usize),
    /// Requests were lost because too many came.
    Lagged,
    /// Nobody can ask for files any more.
    Closed,
    /// No file is asked for.
    NoRequest,
    /// Whether everything could be sent.
    Sent(bool),
    /// Whether there is output to read.
    Output(bool),
    /// A message, or `None` where none could be read.
    Message(Option<ServerMessage>),
}

/// A step to take outside.
pub enum LspStep {
    /// Look whether a file is asked for.
    TakeRequest,
    /// Send some messages.
    Send(Vec<LspMessage>),
    /// Acknowledge the request that the last message holds.
    Acknowledge,
    /// Wait for output. Where `buffered` holds, output that was taken in already counts.
    AwaitOutput { timeout: Nanos, buffered: bool },
    /// Read a message.
    Receive,
    /// The turn is over. `notify` says that a file changed, and `kill` that the server is to be
    /// ended.
    Done { notify: bool, kill: bool, next: Continuation },
}

/// What an [`LspStep`] stands for.
#[verifier::ext_equal]
pub enum Step {
    TakeRequest,
    Send(Seq<LspMessage>),
    Acknowledge,
    AwaitOutput { timeout: Nanos, buffered: bool },
    Receive,
    Done { notify: bool, kill: bool, next: Continuation },
}

impl View for LspStep {
    type V = Step;

    open spec fn view(&self) -> Step {
        match *self {
            LspStep::TakeRequest => Step::TakeRequest,
            LspStep::Send(messages) => Step::Send(messages@),
            LspStep::Acknowledge => Step::Acknowledge,
            LspStep::AwaitOutput { timeout, buffered } => Step::AwaitOutput { timeout, buffered },
            LspStep::Receive => Step::Receive,
            LspStep::Done { notify, kill, next } => Step::Done { notify, kill, next },
        }
    }
}

/// Where a turn is, by what it waits for.
pub enum LspTurn {
    /// For a request.
    Requests,
    /// For messages about a request to be sent.
    RequestSent,
    /// For output, before the next file is gone through.
    WarmupWait,
    /// For messages about the next file to be sent.
    WarmupSent,
    /// For output.
    OutputWait,
    /// For a message.
    Receiving,
    /// For an acknowledgement to be sent. The rest of the message follows.
    Replying { id: Option<u64>, tokens: Option<Vec<SemanticToken>> },
    /// For nothing.
    Over,
}

/// What an [`LspTurn`] stands for.
#[verifier::ext_equal]
pub enum Stage {
    Requests,
    RequestSent,
    WarmupWait,
    WarmupSent,
    OutputWait,
    Receiving,
    Replying { id: Option<u64>, tokens: Option<Seq<SemanticToken>> },
    Over,
}

/// The tokens that a message holds.
pub open spec fn held_tokens(tokens: Option<Vec<SemanticToken>>) -> Option<Seq<SemanticToken>> {
    match tokens {
        Some(data) => Some(data@),
        None => None,
    }
}

impl View for LspTurn {
    type V = Stage;

    open spec fn view(&self) -> Stage {
        match *self {
            LspTurn::Requests => Stage::Requests,
            LspTurn::RequestSent => Stage::RequestSent,
            LspTurn::WarmupWait => Stage::WarmupWait,
            LspTurn::WarmupSent => Stage::WarmupSent,
            LspTurn::OutputWait => Stage::OutputWait,
            LspTurn::Receiving => Stage::Receiving,
            LspTurn::Replying { id, tokens } => Stage::Replying { id, tokens: held_tokens(tokens) },
            LspTurn::Over => Stage::Over,
        }
    }
}

/// The client, the files, and what is done next.
#[verifier::ext_equal]
pub struct Turn {
    pub stage: Stage,
    pub queue: Queue,
    pub files: Seq<File>,
    pub step: Step,
}

impl Turn {
    /// The turn ends, with nothing else done.
    pub open spec fn ended(queue: Queue, files: Seq<File>, kill: bool, next: Continuation) -> Turn {
        Turn { stage: Stage::Over, queue, files, step: Step::Done { notify: false, kill, next } }
    }

    /// Another request is looked for.
    pub open spec fn looking(queue: Queue, files: Seq<File>) -> Turn {
        Turn { stage: Stage::Requests, queue, files, step: Step::TakeRequest }
    }

    /// Output is waited for.
    pub open spec fn waiting(queue: Queue, files: Seq<File>) -> Turn {
        Turn {
            stage: Stage::OutputWait,
            queue,
            files,
            step: Step::AwaitOutput { timeout: READ_TIMEOUT, buffered: false },
        }
    }

    /// A message is read.
    pub open spec fn reading(queue: Queue, files: Seq<File>) -> Turn {
        Turn { stage: Stage::Receiving, queue, files, step: Step::Receive }
    }

    /// The turn ends with a message taken. A message without a number answers nothing.
    pub open spec fn taken(
        queue: Queue,
        files: Seq<File>,
        id: Option<u64>,
        tokens: Option<Seq<SemanticToken>>,
        types: Seq<Seq<char>>,
    ) -> Turn {
        match id {
            Some(id) => {
                let (queue, files, notify) = queue.answer(files, id, tokens, types);
                Turn {
                    stage: Stage::Over,
                    queue,
                    files,
                    step: Step::Done { notify, kill: false, next: Continuation::Continue },
                }
            },
            None => Turn::ended(queue, files, false, Continuation::Continue),
        }
    }
}

/// Whether something can come of the step that a turn waits for.
pub open spec fn comes_of(stage: Stage, input: LspInput) -> bool {
    match stage {
        Stage::Requests => input is Request || input is Lagged || input is Closed
            || input is NoRequest,
        Stage::RequestSent => input is Sent,
        Stage::WarmupSent => input is Sent,
        Stage::Replying { id, tokens } => input is Sent,
        Stage::WarmupWait => input is Output,
        Stage::OutputWait => input is Output,
        Stage::Receiving => input is Message,
        Stage::Over => false,
    }
}

/// How a turn goes on. A client that cannot send or read starts anew.
pub open spec fn turned(
    stage: Stage,
    input: LspInput,
    queue: Queue,
    files: Seq<File>,
    types: Seq<Seq<char>>,
    now: Nanos,
) -> Turn {
    match (stage, input) {
        (Stage::Requests, LspInput::Request(file_idx)) => {
            let (queue, messages) = queue.user_asked(files, file_idx);
            Turn { stage: Stage::RequestSent, queue, files, step: Step::Send(messages) }
        },
        (Stage::Requests, LspInput::Lagged) => Turn::looking(queue, files),
        (Stage::Requests, LspInput::Closed) => Turn::ended(queue, files, false, Continuation::Stop),
        (Stage::Requests, LspInput::NoRequest) => {
            let queue = queue.expired(now);
            if queue.warmup.len() > 0 {
                Turn {
                    stage: Stage::WarmupWait,
                    queue,
                    files,
                    step: Step::AwaitOutput { timeout: WARMUP_WAIT, buffered: true },
                }
            } else {
                Turn::waiting(queue, files)
            }
        },
        (Stage::RequestSent, LspInput::Sent(true)) => Turn::looking(queue, files),
        (Stage::WarmupWait, LspInput::Output(true)) => Turn::reading(queue, files),
        (Stage::WarmupWait, LspInput::Output(false)) => {
            let (queue, messages) = queue.next_asked(files);
            Turn { stage: Stage::WarmupSent, queue, files, step: Step::Send(messages) }
        },
        (Stage::WarmupSent, LspInput::Sent(true)) => Turn::waiting(queue, files),
        (Stage::WarmupSent, LspInput::Sent(false)) => Turn::ended(
            queue,
            files,
            true,
            Continuation::Restart,
        ),
        (Stage::OutputWait, LspInput::Output(true)) => Turn::reading(queue, files),
        (Stage::OutputWait, LspInput::Output(false)) => Turn::ended(
            queue,
            files,
            false,
            Continuation::Continue,
        ),
        (Stage::Receiving, LspInput::Message(Some(message))) => if is_acknowledged(
            optional_text(message.method),
            message.has_id,
        ) {
            Turn {
                stage: Stage::Replying { id: message.id, tokens: held_tokens(message.tokens) },
                queue,
                files,
                step: Step::Acknowledge,
            }
        } else {
            Turn::taken(queue, files, message.id, held_tokens(message.tokens), types)
        },
        (Stage::Replying { id, tokens }, LspInput::Sent(true)) => Turn::taken(
            queue,
            files,
            id,
            tokens,
            types,
        ),
        _ => Turn::ended(queue, files, false, Continuation::Restart),
    }
}

impl LspQueue {
    /// Takes a message, and ends the turn.
    fn take_message(
        &mut self,
        files: &mut Vec<LoadedFile>,
        id: Option<u64>,
        tokens: Option<Vec<SemanticToken>>,
        token_types: &Vec<&'static str>,
    ) -> (r: LspStep)
        requires
            texts_in_order(old(files)@),
            old(self)@.fits(old(files)@.len() as int),
        ensures
            (Turn {
                stage: Stage::Over,
                queue: final(self)@,
                files: files_of(final(files)@),
                step: r@,
            }) == Turn::taken(
                old(self)@,
                files_of(old(files)@),
                id,
                held_tokens(tokens),
                type_names(token_types@),
            ),
            texts_in_order(final(files)@),
            final(self)@.fits(final(files)@.len() as int),
    {
        let notify = match id {
            Some(id) => match &tokens {
                Some(data) => self.take_answer(files, id, Some(data), token_types),
                None => self.take_answer(files, id, None, token_types),
            },
            None => false,
        };
        LspStep::Done { notify, kill: false, next: Continuation::Continue }
    }
}

/// The end of a turn, with nothing else done.
fn over(kill: bool, next: Continuation) -> (r: (LspTurn, LspStep))
    ensures
        r.0@ == Stage::Over,
        r.1@ == (Step::Done { notify: false, kill, next }),
{
    (LspTurn::Over, LspStep::Done { notify: false, kill, next })
}

impl LspTurn {
    /// The start of a turn.
    pub fn begin() -> (r: (LspTurn, LspStep))
        ensures
            r.0@ == Stage::Requests,
            r.1@ == Step::TakeRequest,
    {
        (LspTurn::Requests, LspStep::TakeRequest)
    }

    /// Goes on with what came of the last step.
    pub fn go_on(
        self,
        input: LspInput,
        queue: &mut LspQueue,
        files: &mut Vec<LoadedFile>,
        token_types: &Vec<&'static str>,
        now: Nanos,
    ) -> (r: (LspTurn, LspStep))
        requires
            comes_of(self@, input),
            texts_in_order(old(files)@),
            old(queue)@.fits(old(files)@.len() as int),
            old(queue).requests.next_id < u64::MAX,
            input matches LspInput::Request(file_idx) ==> file_idx < old(files)@.len(),
        ensures
            (Turn {
                stage: r.0@,
                queue: final(queue)@,
                files: files_of(final(files)@),
                step: r.1@,
            }) == turned(
                self@,
                input,
                old(queue)@,
                files_of(old(files)@),
                type_names(token_types@),
                now,
            ),
            texts_in_order(final(files)@),
            final(queue)@.fits(final(files)@.len() as int),
    {
        match (self, input) {
            (LspTurn::Requests, LspInput::Request(file_idx)) => {
                let messages = queue.user_request(files, file_idx);
                (LspTurn::RequestSent, LspStep::Send(messages))
            },
            (LspTurn::Requests, LspInput::Closed) => over(false, Continuation::Stop),
            (LspTurn::Requests, LspInput::NoRequest) => {
                queue.expire_warmup(now);
                if queue.warmup_queue.len() > 0 {
                    (
                        LspTurn::WarmupWait,
                        LspStep::AwaitOutput { timeout: WARMUP_WAIT, buffered: true },
                    )
                } else {
                    (
                        LspTurn::OutputWait,
                        LspStep::AwaitOutput { timeout: READ_TIMEOUT, buffered: false },
                    )
                }
            },
            (LspTurn::Requests, LspInput::Lagged) => LspTurn::begin(),
            (LspTurn::RequestSent, LspInput::Sent(true)) => LspTurn::begin(),
            (LspTurn::WarmupWait, LspInput::Output(readable)) => if readable {
                (LspTurn::Receiving, LspStep::Receive)
            } else {
                let messages = queue.next_warmup(files);
                (LspTurn::WarmupSent, LspStep::Send(messages))
            },
            (LspTurn::WarmupSent, LspInput::Sent(sent)) => if sent {
                (
                    LspTurn::OutputWait,
                    LspStep::AwaitOutput { timeout: READ_TIMEOUT, buffered: false },
                )
            } else {
                over(true, Continuation::Restart)
            },
            (LspTurn::OutputWait, LspInput::Output(readable)) => if readable {
                (LspTurn::Receiving, LspStep::Receive)
            } else {
                over(false, Continuation::Continue)
            },
            (LspTurn::Receiving, LspInput::Message(Some(message))) => {
                let asks = match &message.method {
                    Some(method) => needs_reply(Some(method.as_str()), message.has_id),
                    None => false,
                };
                if asks {
                    (
                        LspTurn::Replying { id: message.id, tokens: message.tokens },
                        LspStep::Acknowledge,
                    )
                } else {
                    let step = queue.take_message(files, message.id, message.tokens, token_types);
                    (LspTurn::Over, step)
                }
            },
            (LspTurn::Replying { id, tokens }, LspInput::Sent(true)) => {
                let step = queue.take_message(files, id, tokens, token_types);
                (LspTurn::Over, step)
            },
            _ => over(false, Continuation::Restart),
        }
    }
}

/// How many steps a turn can still take at most, once no more requests come.
pub open spec fn steps_left(stage: Stage) -> int {
    match stage {
        Stage::Requests => 7,
        Stage::RequestSent => 8,
        Stage::WarmupWait => 6,
        Stage::WarmupSent => 5,
        Stage::OutputWait => 4,
        Stage::Receiving => 3,
        Stage::Replying { id, tokens } => 2,
        Stage::Over => 0,
    }
}

/// A turn comes to an end: whatever comes of its steps, there are fewer and fewer of them, but for
/// requests that come in between.
pub proof fn law_turn_comes_to_an_end(
    stage: Stage,
    input: LspInput,
    queue: Queue,
    files: Seq<File>,
    types: Seq<Seq<char>>,
    now: Nanos,
)
    requires
        comes_of(stage, input),
        !(input is Request),
        !(input is Lagged),
    ensures
        steps_left(turned(stage, input, queue, files, types, now).stage) < steps_left(stage),
        turned(stage, input, queue, files, types, now).stage is Over <==> turned(
            stage,
            input,
            queue,
            files,
            types,
            now,
        ).step is Done,
{
}

/// Every request of the server, a message with a method and an id, is answered once, whatever it
/// asks for: it is acknowledged, and where that could be sent, the turn goes on as with any other
/// message and ends, and the client continues.
pub proof fn law_every_request_is_answered(
    message: ServerMessage,
    queue: Queue,
    files: Seq<File>,
    types: Seq<Seq<char>>,
    now: Nanos,
)
    requires
        message.method is Some,
        message.has_id,
    ensures
        ({
            let input = LspInput::Message(Some(message));
            let first = turned(Stage::Receiving, input, queue, files, types, now);
            let second = turned(first.stage, LspInput::Sent(true), queue, files, types, now);
            &&& first.step == Step::Acknowledge
            &&& first.queue == queue && first.files == files
            &&& second == Turn::taken(
                queue,
                files,
                message.id,
                held_tokens(message.tokens),
                types,
            )
            &&& second.step matches Step::Done { next, .. } && next == Continuation::Continue
        }),
{
}

/// A client that could not send something, or read a message, starts anew, and no file changes.
pub proof fn law_failures_start_client_anew(
    stage: Stage,
    input: LspInput,
    queue: Queue,
    files: Seq<File>,
    types: Seq<Seq<char>>,
    now: Nanos,
)
    requires
        comes_of(stage, input),
        input == LspInput::Sent(false) || input == LspInput::Message(None),
    ensures
        turned(stage, input, queue, files, types, now).files == files,
        turned(stage, input, queue, files, types, now).step matches Step::Done { next, .. } && next
            == Continuation::Restart,
{
}

} // verus!
