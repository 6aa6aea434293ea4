//! How the client and the language server greet each other.

use vstd::prelude::*;
use crate::text::{copy_of, texts};

verus! {

/// What the server says of its tokens: the names of their types, and whether it can give those of
/// some lines only.
pub struct TokenProvider {
    pub token_types: Vec<String>,
    pub range: Option<bool>,
}

/// What matters of a message while the greeting lasts.
pub struct Greeting {
    /// The id, where it is a number.
    pub id: Option<u64>,
    /// What the server can do, where the message says so: `None` inside where it has no tokens.
    pub abilities: Option<Option<TokenProvider>>,
}

/// Why the greeting failed.
#[derive(Clone, Copy, Debug, PartialEq, Eq, Structural)]
pub enum StartError {
    /// The first request could not be sent.
    InitializeNotSent,
    /// The server ended, or said something that could not be read.
    HandshakeFailed,
    /// The answer does not say what the server can do.
    ResultNotRead,
    /// The answer could not be confirmed.
    InitializedNotSent,
}

impl StartError {
    /// What is said of the error.
    pub open spec fn text(self) -> Seq<char> {
        match self {
            StartError::InitializeNotSent => "failed to send initialize request"@,
            StartError::HandshakeFailed => "LSP init handshake failed"@,
            StartError::ResultNotRead => "LSP InitializeResult parse failed"@,
            StartError::InitializedNotSent => "failed to send initialized notification"@,
        }
    }

    /// What is said of the error.
    pub fn message(self) -> (r: String)
        ensures
            r@ == self.text(),
    {
        copy_of(
            match self {
                StartError::InitializeNotSent => "failed to send initialize request",
                StartError::HandshakeFailed => "LSP init handshake failed",
                StartError::ResultNotRead => "LSP InitializeResult parse failed",
                StartError::InitializedNotSent => "failed to send initialized notification",
            },
        )
    }
}

/// What comes of a step.
pub enum StartInput {
    /// Whether the request or the confirmation could be sent.
    Sent(bool),
    /// A message, or `None` where none could be read.
    Message(Option<Greeting>),
}

/// A step to take outside.
pub enum StartStep {
    /// Read a message.
    Receive,
    /// Confirm the answer.
    SendInitialized,
    /// The server is there. It can give the tokens of some lines only, or not.
    Ready { token_types: Vec<String>, supports_range: bool },
    /// The server is to be ended.
    Fail(StartError),
}

/// What a [`StartStep`] stands for.
#[verifier::ext_equal]
pub enum GreetingStep {
    Receive,
    SendInitialized,
    Ready { token_types: Seq<Seq<char>>, supports_range: bool },
    Fail(StartError),
}

impl View for StartStep {
    type V = GreetingStep;

    open spec fn view(&self) -> GreetingStep {
        match *self {
            StartStep::Receive => GreetingStep::Receive,
            StartStep::SendInitialized => GreetingStep::SendInitialized,
            StartStep::Ready { token_types, supports_range } => GreetingStep::Ready {
                token_types: texts(token_types@),
                supports_range,
            },
            StartStep::Fail(error) => GreetingStep::Fail(error),
        }
    }
}

/// Where the greeting is, by what it waits for.
pub enum LspStart {
    /// For the first request, with the id 0, to be sent.
    Initializing,
    /// For its answer.
    Answering,
    /// For the confirmation to be sent.
    Confirming { token_types: Vec<String>, supports_range: bool },
    /// For nothing.
    Over,
}

/// What an [`LspStart`] stands for.
#[verifier::ext_equal]
pub enum GreetingStage {
    Initializing,
    Answering,
    Confirming { token_types: Seq<Seq<char>>, supports_range: bool },
    Over,
}

impl View for LspStart {
    type V = GreetingStage;

    open spec fn view(&self) -> GreetingStage {
        match *self {
            LspStart::Initializing => GreetingStage::Initializing,
            LspStart::Answering => GreetingStage::Answering,
            LspStart::Confirming { token_types, supports_range } => GreetingStage::Confirming {
                token_types: texts(token_types@),
                supports_range,
            },
            LspStart::Over => GreetingStage::Over,
        }
    }
}

/// Whether something can come of the step that the greeting waits for.
pub open spec fn start_comes_of(stage: GreetingStage, input: StartInput) -> bool {
    match stage {
        GreetingStage::Initializing => input is Sent,
        GreetingStage::Answering => input is Message,
        GreetingStage::Confirming { token_types, supports_range } => input is Sent,
        GreetingStage::Over => false,
    }
}

/// What a server with some abilities is ready for.
pub open spec fn confirming(provider: Option<TokenProvider>) -> GreetingStage {
    match provider {
        Some(provider) => GreetingStage::Confirming {
            token_types: texts(provider.token_types@),
            supports_range: provider.range == Some(true),
        },
        None => GreetingStage::Confirming { token_types: Seq::empty(), supports_range: false },
    }
}

/// How the greeting goes on. Messages that do not answer the first request are passed over.
pub open spec fn greeted(stage: GreetingStage, input: StartInput) -> (GreetingStage, GreetingStep) {
    match (stage, input) {
        (GreetingStage::Initializing, StartInput::Sent(sent)) => if sent {
            (GreetingStage::Answering, GreetingStep::Receive)
        } else {
            (GreetingStage::Over, GreetingStep::Fail(StartError::InitializeNotSent))
        },
        (GreetingStage::Answering, StartInput::Message(Some(greeting))) => if greeting.id == Some(
            0u64,
        ) {
            match greeting.abilities {
                Some(provider) => (confirming(provider), GreetingStep::SendInitialized),
                None => (GreetingStage::Over, GreetingStep::Fail(StartError::ResultNotRead)),
            }
        } else {
            (GreetingStage::Answering, GreetingStep::Receive)
        },
        (
            GreetingStage::Confirming { token_types, supports_range },
            StartInput::Sent(sent),
        ) => if sent {
            (GreetingStage::Over, GreetingStep::Ready { token_types, supports_range })
        } else {
            (GreetingStage::Over, GreetingStep::Fail(StartError::InitializedNotSent))
        },
        _ => (GreetingStage::Over, GreetingStep::Fail(StartError::HandshakeFailed)),
    }
}

impl LspStart {
    /// Goes on with what came of the last step.
    pub fn go_on(self, input: StartInput) -> (r: (LspStart, StartStep))
        requires
            start_comes_of(self@, input),
        ensures
            (r.0@, r.1@) == greeted(self@, input),
    {
        match (self, input) {
            (LspStart::Initializing, StartInput::Sent(sent)) => if sent {
                (LspStart::Answering, StartStep::Receive)
            } else {
                (LspStart::Over, StartStep::Fail(StartError::InitializeNotSent))
            },
            (LspStart::Answering, StartInput::Message(Some(greeting))) => {
                if greeting.id != Some(0u64) {
                    return (LspStart::Answering, StartStep::Receive);
                }
                match greeting.abilities {
                    Some(Some(provider)) => {
                        let supports_range = match provider.range {
                            Some(range) => range,
                            None => false,
                        };
                        (
                            LspStart::Confirming {
                                token_types: provider.token_types,
                                supports_range,
                            },
                            StartStep::SendInitialized,
                        )
                    },
                    Some(None) => {
                        let token_types: Vec<String> = Vec::new();
                        assert(texts(token_types@) =~= Seq::empty());
                        (
                            LspStart::Confirming { token_types, supports_range: false },
                            StartStep::SendInitialized,
                        )
                    },
                    None => (LspStart::Over, StartStep::Fail(StartError::ResultNotRead)),
                }
            },
            (LspStart::Confirming { token_types, supports_range }, StartInput::Sent(sent)) => {
                if sent {
                    (LspStart::Over, StartStep::Ready { token_types, supports_range })
                } else {
                    (LspStart::Over, StartStep::Fail(StartError::InitializedNotSent))
                }
            },
            _ => (LspStart::Over, StartStep::Fail(StartError::HandshakeFailed)),
        }
    }
}

/// The URI of a file or a directory.
pub fn file_uri(path: &str) -> (r: String)
    ensures
        r@ == "file://"@ + path@,
{
    let mut uri = copy_of("file://");
    uri.append(path);
    uri
}

} // verus!
