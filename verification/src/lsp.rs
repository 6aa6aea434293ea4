//! What is asked of a language server, and what becomes of its answers.

use vstd::prelude::*;
use crate::keyed::KeyedMap;
use crate::loader::{FileData, lemma_starts};
use crate::lsp_tokens::{
    SemanticToken, decode_tokens, decoded, law_decoded_tokens_fit, line_count, type_names,
};
use crate::session_time::Nanos;
use crate::state::{File, LoadedFile, colors_of};

verus! {

/// How many lines of a long file are asked for first.
pub const RANGE_LINES: usize = 200;

/// Files with more lines than this are long.
pub const RANGE_THRESHOLD: usize = 100;

/// How long the server's output is waited for: fifty milliseconds.
pub const READ_TIMEOUT: Nanos = 50_000_000;

/// How long the files are gone through at the start: one minute.
pub const WARMUP_LIMIT: Nanos = 60_000_000_000;

/// How many requests are kept while the server is not running.
pub const MAX_BUFFERED: usize = 10_000;

/// An interrupt that does nothing: the worker wakes up by itself.
#[derive(Clone, Copy, Debug, PartialEq, Eq, Structural)]
pub struct LspInterrupt;

/// Whether the worker runs, and what it is connected to.
#[derive(Clone, Copy, Debug, PartialEq, Eq, Structural)]
pub enum LspHealth {
    Running { input_receivers: usize, generation: u8 },
    NotRunning,
}

/// A message to the server, about a file of the list.
#[derive(Clone, Copy, Debug, PartialEq, Eq, Structural)]
pub enum LspMessage {
    DidClose(usize),
    DidOpen(usize),
    /// Asks for the tokens of the lines before `end_line`.
    RangeRequest { id: u64, file_idx: usize, end_line: u32 },
    /// Asks for the tokens of all lines.
    FullRequest { id: u64, file_idx: usize },
}

/// What was asked of the server: for each request that is not answered yet the file, whether it is
/// for the first lines only, and whether it was made while the files are gone through at the
/// start. Also which files the server has open.
pub struct TokenRequestState {
    pub next_id: u64,
    pub pending: KeyedMap<u64, (usize, bool, bool)>,
    pub opened: KeyedMap<usize, ()>,
}

/// What a [`TokenRequestState`] stands for.
#[verifier::ext_equal]
pub struct Requests {
    pub next_id: int,
    pub pending: Map<u64, (usize, bool, bool)>,
    pub opened: Map<usize, ()>,
}

impl View for TokenRequestState {
    type V = Requests;

    open spec fn view(&self) -> Requests {
        Requests {
            next_id: self.next_id as int,
            pending: self.pending@,
            opened: self.opened@,
        }
    }
}

/// The smaller of two numbers of lines.
pub open spec fn first_lines(total: int) -> int {
    if total < RANGE_LINES {
        total
    } else {
        RANGE_LINES as int
    }
}

impl Requests {
    /// A file that is not there is closed, where the server has it open.
    pub open spec fn closed(self, file_idx: usize) -> (Requests, Seq<LspMessage>) {
        if self.opened.contains_key(file_idx) {
            (
                Requests { opened: self.opened.remove(file_idx), ..self },
                seq![LspMessage::DidClose(file_idx)],
            )
        } else {
            (self, Seq::empty())
        }
    }

    /// The server is made to have a file open. One that it has open, and whose tokens were cleared
    /// because it changed, is opened anew.
    pub open spec fn opened_anew(self, file_idx: usize, colored: int, is_warmup: bool) -> (
        Requests,
        Seq<LspMessage>,
    ) {
        if !self.opened.contains_key(file_idx) {
            (
                Requests { opened: self.opened.insert(file_idx, ()), ..self },
                seq![LspMessage::DidOpen(file_idx)],
            )
        } else if !is_warmup && colored == 0 {
            (self, seq![LspMessage::DidClose(file_idx), LspMessage::DidOpen(file_idx)])
        } else {
            (self, Seq::empty())
        }
    }

    /// One more request waits for its answer.
    pub open spec fn waiting(self, file_idx: usize, is_range: bool, is_warmup: bool) -> Requests {
        Requests {
            next_id: self.next_id + 1,
            pending: self.pending.insert(self.next_id as u64, (file_idx, is_range, is_warmup)),
            ..self
        }
    }

    /// The tokens of a file with `total` lines are asked for, `colored` of which have them already.
    /// While the files are gone through at the start, only the first lines of long files are, where
    /// the server can do that.
    pub open spec fn requested(
        self,
        file_idx: usize,
        total: int,
        colored: int,
        supports_range: bool,
        is_warmup: bool,
    ) -> (Requests, Seq<LspMessage>) {
        if colored == total {
            (self, Seq::empty())
        } else {
            let (r, messages) = self.opened_anew(file_idx, colored, is_warmup);
            let id = r.next_id as u64;
            if is_warmup && supports_range && total > RANGE_THRESHOLD {
                if colored == 0 {
                    (
                        r.waiting(file_idx, true, is_warmup),
                        messages.push(
                            LspMessage::RangeRequest {
                                id,
                                file_idx,
                                end_line: first_lines(total) as u32,
                            },
                        ),
                    )
                } else {
                    (r, messages)
                }
            } else {
                (
                    r.waiting(file_idx, false, is_warmup),
                    messages.push(LspMessage::FullRequest { id, file_idx }),
                )
            }
        }
    }
}

/// How many lines a text has.
pub fn count_lines(data: &FileData) -> (r: usize)
    requires
        data.wf(),
    ensures
        r == line_count(data.content@),
{
    proof {
        lemma_starts(data.content@, data.content@.len() as int);
    }
    if crate::bytes::text_len(data.content.as_str()) == 0 {
        0
    } else {
        data.line_starts.len()
    }
}

impl TokenRequestState {
    /// Nothing was asked of the server yet.
    pub fn new() -> (r: Self)
        ensures
            r@ == (Requests { next_id: 1, pending: Map::empty(), opened: Map::empty() }),
    {
        TokenRequestState { next_id: 1, pending: KeyedMap::new(), opened: KeyedMap::new() }
    }

    /// Closes a file that was removed. Nothing is said to the server where it does not have the
    /// file open.
    pub fn close_file(&mut self, file_idx: usize) -> (r: Vec<LspMessage>)
        ensures
            (final(self)@, r@) == old(self)@.closed(file_idx),
    {
        let mut messages: Vec<LspMessage> = Vec::new();
        if self.opened.contains_key(&file_idx) {
            let _ = self.opened.remove(&file_idx);
            messages.push(LspMessage::DidClose(file_idx));
        }
        proof {
            let goal = old(self)@.closed(file_idx);
            assert(self@ =~= goal.0);
            assert(messages@ =~= goal.1);
        }
        messages
    }

    /// Asks for the tokens of a file with `total_lines` lines, `colored_len` of which have them
    /// already.
    pub fn request_tokens(
        &mut self,
        file_idx: usize,
        total_lines: usize,
        colored_len: usize,
        supports_range: bool,
        is_warmup: bool,
    ) -> (r: Vec<LspMessage>)
        requires
            old(self).next_id < u64::MAX,
        ensures
            (final(self)@, r@) == old(self)@.requested(
                file_idx,
                total_lines as int,
                colored_len as int,
                supports_range,
                is_warmup,
            ),
    {
        let ghost before = self@;
        let mut messages: Vec<LspMessage> = Vec::new();
        if colored_len == total_lines {
            assert(messages@ =~= Seq::empty());
            return messages;
        }
        if !is_warmup && self.opened.contains_key(&file_idx) && colored_len == 0 {
            messages.push(LspMessage::DidClose(file_idx));
            let _ = self.opened.remove(&file_idx);
        }
        if !self.opened.contains_key(&file_idx) {
            messages.push(LspMessage::DidOpen(file_idx));
            self.opened.insert(file_idx, ());
        }
        proof {
            let (r, sent) = before.opened_anew(file_idx, colored_len as int, is_warmup);
            assert(messages@ =~= sent);
            assert(self@.opened =~= r.opened);
            assert(self@ =~= r);
        }
        let id: u64 = self.next_id;
        if is_warmup && supports_range && total_lines > RANGE_THRESHOLD {
            if colored_len == 0 {
                let end_line: u32 = if total_lines < RANGE_LINES {
                    total_lines as u32
                } else {
                    200
                };
                self.next_id = id + 1;
                messages.push(LspMessage::RangeRequest { id, file_idx, end_line });
                self.pending.insert(id, (file_idx, true, is_warmup));
            }
        } else {
            self.next_id = id + 1;
            messages.push(LspMessage::FullRequest { id, file_idx });
            self.pending.insert(id, (file_idx, false, is_warmup));
        }
        messages
    }
}

/// Whether a message of the server is to be answered, with nothing but an acknowledgement. Per
/// JSON-RPC a message with a method and an id is a request, and every request gets a response.
pub open spec fn is_acknowledged(method: Option<Seq<char>>, has_id: bool) -> bool {
    has_id && method is Some
}

/// Whether a message of the server is to be answered.
pub fn needs_reply(method: Option<&str>, has_id: bool) -> (r: bool)
    ensures
        r == is_acknowledged(crate::shell::optional_str(method), has_id),
{
    has_id && method.is_some()
}

/// What an answer does to a file: the tokens that it holds take the place of those before, where
/// the first lines had none so far, or where the number of lines has changed. Returns the file, and
/// whether it changed.
pub open spec fn answered(
    file: File,
    is_range: bool,
    types: Seq<Seq<char>>,
    data: Seq<SemanticToken>,
) -> (File, bool) {
    let all = decoded(file.text, types, data);
    let lines = if is_range && all.len() > RANGE_LINES {
        all.take(RANGE_LINES as int)
    } else {
        all
    };
    let writes = if is_range {
        file.colors.len() == 0
    } else {
        file.colors.len() != lines.len()
    };
    if writes {
        (File { colors: lines, ..file }, true)
    } else {
        (file, false)
    }
}

/// Takes the tokens from an answer.
pub fn take_tokens(
    file: &mut LoadedFile,
    is_range: bool,
    token_types: &Vec<&'static str>,
    data: &Vec<SemanticToken>,
) -> (r: bool)
    requires
        old(file).data.wf(),
    ensures
        (final(file)@, r) == answered(old(file)@, is_range, type_names(token_types@), data@),
        final(file).data.wf(),
        old(file)@.colors_fit() ==> final(file)@.colors_fit(),
{
    let ghost before = file@;
    let ghost types = type_names(token_types@);
    let _ = crate::bytes::text_len(file.data.content.as_str());
    let mut lines = decode_tokens(data, &file.data, token_types);
    let ghost all = decoded(before.text, types, data@);
    assert(colors_of(lines@).len() == lines@.len());
    if is_range {
        let ghost whole = lines@;
        lines.truncate(RANGE_LINES);
        proof {
            if whole.len() > RANGE_LINES {
                assert(colors_of(lines@) =~= colors_of(whole).take(RANGE_LINES as int));
            } else {
                assert(lines@ =~= whole);
            }
        }
    }
    proof {
        let n = colors_of(lines@).len() as int;
        assert(colors_of(lines@) =~= all.take(n));
        law_decoded_tokens_fit(before, types, data@, n);
    }
    let writes = if is_range {
        file.colored_lines.len() == 0
    } else {
        file.colored_lines.len() != lines.len()
    };
    assert(before.colors.len() == file.colored_lines@.len());
    if writes {
        file.colored_lines = lines;
    }
    assert(file@ =~= answered(before, is_range, types, data@).0);
    writes
}

/// Keeps a request for later, unless too many are kept already.
pub fn buffer_file_request(buffer: &mut Vec<usize>, file_idx: usize)
    ensures
        final(buffer)@ == if old(buffer)@.len() >= MAX_BUFFERED {
            old(buffer)@
        } else {
            old(buffer)@.push(file_idx)
        },
{
    if buffer.len() < MAX_BUFFERED {
        buffer.push(file_idx);
    }
}

/// The requests among the first `n` that could not be sent.
pub open spec fn unsent(buffer: Seq<usize>, sent: Seq<bool>, n: int) -> Seq<usize>
    decreases n,
{
    if n <= 0 {
        Seq::empty()
    } else if sent[n - 1] {
        unsent(buffer, sent, n - 1)
    } else {
        unsent(buffer, sent, n - 1).push(buffer[n - 1])
    }
}

/// Keeps the requests that could not be sent, in order. `sent` says which could be.
pub fn drain_request_buffer(buffer: &mut Vec<usize>, sent: &Vec<bool>)
    requires
        sent@.len() == old(buffer)@.len(),
    ensures
        final(buffer)@ == unsent(old(buffer)@, sent@, old(buffer)@.len() as int),
{
    let mut kept: Vec<usize> = Vec::new();
    let mut i: usize = 0;
    while i < buffer.len()
        invariant
            i <= buffer@.len(),
            buffer@ == old(buffer)@,
            sent@.len() == buffer@.len(),
            kept@ == unsent(buffer@, sent@, i as int),
        decreases buffer@.len() - i,
    {
        if !sent[i] {
            kept.push(buffer[i]);
        }
        i += 1;
    }
    *buffer = kept;
}

/// Whether a request is to be kept for later: the worker is not running, or it did not get the
/// request. `receivers` says how many did, or `None` where sending failed.
pub fn keeps_request(running: bool, receivers: Option<usize>) -> (r: bool)
    ensures
        r == (!running || receivers is None || receivers == Some(0usize)),
{
    match receivers {
        Some(n) => !running || n == 0,
        None => true,
    }
}

impl LspHealth {
    /// The health of the worker: `receivers` says how many listen to it, where it runs.
    pub fn of(receivers: Option<usize>, generation: u8) -> (r: Self)
        ensures
            r == match receivers {
                Some(input_receivers) => LspHealth::Running { input_receivers, generation },
                None => LspHealth::NotRunning,
            },
    {
        match receivers {
            Some(input_receivers) => LspHealth::Running { input_receivers, generation },
            None => LspHealth::NotRunning,
        }
    }
}

} // verus!
