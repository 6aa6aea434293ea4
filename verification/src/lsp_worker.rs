//! The work of the language server's client: the files that it goes through at the start, the files
//! that it is asked for, and the answers.

use vstd::prelude::*;
use crate::app_files::texts_in_order;
use crate::bytes::same_text;
use crate::keyed::KeyedMap;
use crate::lsp::{
    LspMessage, Requests, TokenRequestState, WARMUP_LIMIT, answered, count_lines, take_tokens,
};
use crate::lsp_tokens::{SemanticToken, line_count, type_names};
use crate::paths::{extension, path_extension};
use crate::session_time::{Nanos, elapsed, time_between};
use crate::state::{File, LoadedFile, files_of};

verus! {

/// What the client has to do.
pub struct LspQueue {
    pub requests: TokenRequestState,
    /// The files that are still to be gone through.
    pub warmup_queue: Vec<usize>,
    pub warmup_start: Nanos,
    pub warmup_retries: KeyedMap<usize, u8>,
    pub supports_range: bool,
}

/// What an [`LspQueue`] stands for.
#[verifier::ext_equal]
pub struct Queue {
    pub requests: Requests,
    pub warmup: Seq<usize>,
    pub start: Nanos,
    pub retries: Map<usize, u8>,
    pub supports_range: bool,
}

impl View for LspQueue {
    type V = Queue;

    open spec fn view(&self) -> Queue {
        Queue {
            requests: self.requests@,
            warmup: self.warmup_queue@,
            start: self.warmup_start,
            retries: self.warmup_retries@,
            supports_range: self.supports_range,
        }
    }
}

/// Whether a path is that of a Rust file.
pub open spec fn is_rust(path: Seq<char>) -> bool {
    path_extension(path) == Some("rs"@)
}

/// The Rust files among the first `n`.
pub open spec fn rust_files(files: Seq<File>, n: int) -> Seq<usize>
    decreases n,
{
    if n <= 0 {
        Seq::empty()
    } else if is_rust(files[n - 1].path) {
        rust_files(files, n - 1).push((n - 1) as usize)
    } else {
        rust_files(files, n - 1)
    }
}

/// How often in a row a file was asked for in vain, once more counted.
pub open spec fn tried_again(retries: Map<usize, u8>, file_idx: usize) -> int {
    let so_far = if retries.contains_key(file_idx) {
        retries[file_idx] as int
    } else {
        0
    };
    if so_far < 255 {
        so_far + 1
    } else {
        so_far
    }
}

impl Queue {
    /// Every file that is still to be gone through, or that was asked for, is in the list.
    pub open spec fn fits(self, files: int) -> bool {
        &&& forall|i: int| 0 <= i < self.warmup.len() ==> (#[trigger] self.warmup[i]) < files
        &&& forall|id: u64|
            self.requests.pending.contains_key(id) ==> (#[trigger] self.requests.pending[id]).0
                < files
    }

    /// The tokens of a file are asked for.
    pub open spec fn asked(self, files: Seq<File>, file_idx: usize, is_warmup: bool) -> (
        Queue,
        Seq<LspMessage>,
    ) {
        let file = files[file_idx as int];
        let (requests, messages) = self.requests.requested(
            file_idx,
            line_count(file.text),
            file.colors.len() as int,
            self.supports_range,
            is_warmup,
        );
        (Queue { requests, ..self }, messages)
    }

    /// A file was asked for: the server closes one that is not there, and is asked for the tokens
    /// of a Rust file.
    pub open spec fn user_asked(self, files: Seq<File>, file_idx: usize) -> (
        Queue,
        Seq<LspMessage>,
    ) {
        let file = files[file_idx as int];
        if file.removed {
            let (requests, messages) = self.requests.closed(file_idx);
            (Queue { requests, ..self }, messages)
        } else if is_rust(file.path) {
            self.asked(files, file_idx, false)
        } else {
            (self, Seq::empty())
        }
    }

    /// Going through the files is given up after too long a time.
    pub open spec fn expired(self, now: Nanos) -> Queue {
        if self.warmup.len() > 0 && time_between(self.start, now) > WARMUP_LIMIT {
            Queue { warmup: Seq::empty(), retries: Map::empty(), ..self }
        } else {
            self
        }
    }

    /// The next file is gone through. One that is shown already is asked for in full.
    pub open spec fn next_asked(self, files: Seq<File>) -> (Queue, Seq<LspMessage>) {
        if self.warmup.len() == 0 {
            (self, Seq::empty())
        } else {
            let file_idx = self.warmup[0];
            (Queue { warmup: self.warmup.skip(1), ..self }).asked(
                files,
                file_idx,
                !files[file_idx as int].needs_full_load,
            )
        }
    }

    /// An answer without tokens: a file that is gone through is tried again, up to three times.
    pub open spec fn unanswered(self, file_idx: usize, is_warmup: bool) -> Queue {
        if is_warmup {
            let tries = tried_again(self.retries, file_idx);
            Queue {
                retries: self.retries.insert(file_idx, tries as u8),
                warmup: if tries < 3 {
                    self.warmup.push(file_idx)
                } else {
                    self.warmup
                },
                ..self
            }
        } else {
            self
        }
    }

    /// An answer, where its request still waits: what becomes of the work and of the files, and
    /// whether a file changed.
    pub open spec fn answer(
        self,
        files: Seq<File>,
        id: u64,
        tokens: Option<Seq<SemanticToken>>,
        types: Seq<Seq<char>>,
    ) -> (Queue, Seq<File>, bool) {
        if !self.requests.pending.contains_key(id) {
            (self, files, false)
        } else {
            let (file_idx, is_range, is_warmup) = self.requests.pending[id];
            let q = Queue {
                requests: Requests {
                    pending: self.requests.pending.remove(id),
                    ..self.requests
                },
                ..self
            };
            match tokens {
                Some(data) => {
                    let (file, changed) = answered(files[file_idx as int], is_range, types, data);
                    (q, files.update(file_idx as int, file), changed)
                },
                None => (q.unanswered(file_idx, is_warmup), files, false),
            }
        }
    }
}

/// Whether a path is that of a Rust file.
fn has_rust_extension(path: &str) -> (r: bool)
    ensures
        r == is_rust(path@),
{
    match extension(path) {
        Some(ending) => same_text(ending.as_str(), "rs"),
        None => false,
    }
}

/// What an answer's tokens stand for.
pub open spec fn optional_tokens(tokens: Option<&Vec<SemanticToken>>) -> Option<
    Seq<SemanticToken>,
> {
    match tokens {
        Some(data) => Some(data@),
        None => None,
    }
}

impl LspQueue {
    /// All Rust files are to be gone through, from `now` on.
    pub fn new(files: &Vec<LoadedFile>, supports_range: bool, now: Nanos) -> (r: Self)
        ensures
            r@ == (Queue {
                requests: Requests { next_id: 1, pending: Map::empty(), opened: Map::empty() },
                warmup: rust_files(files_of(files@), files@.len() as int),
                start: now,
                retries: Map::empty(),
                supports_range,
            }),
            r@.fits(files@.len() as int),
    {
        let ghost all = files_of(files@);
        let mut queue: Vec<usize> = Vec::new();
        let mut i: usize = 0;
        assert(queue@ =~= rust_files(all, 0));
        while i < files.len()
            invariant
                i <= files@.len(),
                all == files_of(files@),
                queue@ == rust_files(all, i as int),
                forall|j: int| 0 <= j < queue@.len() ==> (#[trigger] queue@[j]) < i,
            decreases files@.len() - i,
        {
            assert(all[i as int].path == files@[i as int].path@);
            if has_rust_extension(files[i].path.as_str()) {
                queue.push(i);
            }
            i += 1;
        }
        let r = LspQueue {
            requests: TokenRequestState::new(),
            warmup_queue: queue,
            warmup_start: now,
            warmup_retries: KeyedMap::new(),
            supports_range,
        };
        assert(r@.fits(files@.len() as int));
        r
    }

    /// Asks for the tokens of a file.
    fn ask(&mut self, files: &Vec<LoadedFile>, file_idx: usize, is_warmup: bool) -> (r: Vec<
        LspMessage,
    >)
        requires
            file_idx < files@.len(),
            texts_in_order(files@),
            old(self).requests.next_id < u64::MAX,
            old(self)@.fits(files@.len() as int),
        ensures
            (final(self)@, r@) == old(self)@.asked(files_of(files@), file_idx, is_warmup),
            final(self)@.fits(files@.len() as int),
    {
        let ghost before = self@;
        let total: usize = count_lines(&files[file_idx].data);
        let colored: usize = files[file_idx].colored_lines.len();
        assert(files_of(files@)[file_idx as int] == files@[file_idx as int]@);
        let messages = self.requests.request_tokens(
            file_idx,
            total,
            colored,
            self.supports_range,
            is_warmup,
        );
        proof {
            let goal = before.asked(files_of(files@), file_idx, is_warmup);
            assert(self@ =~= goal.0);
            assert forall|id: u64| self@.requests.pending.contains_key(id) implies (
            #[trigger] self@.requests.pending[id]).0 < files@.len() by {
                if before.requests.pending.contains_key(id) {
                    assert(before.requests.pending[id].0 < files@.len());
                }
            }
            assert forall|i: int| 0 <= i < self@.warmup.len() implies (
            #[trigger] self@.warmup[i]) < files@.len() by {
                assert(before.warmup[i] < files@.len());
            }
        }
        messages
    }

    /// A file was asked for.
    pub fn user_request(&mut self, files: &Vec<LoadedFile>, file_idx: usize) -> (r: Vec<LspMessage>)
        requires
            file_idx < files@.len(),
            texts_in_order(files@),
            old(self).requests.next_id < u64::MAX,
            old(self)@.fits(files@.len() as int),
        ensures
            (final(self)@, r@) == old(self)@.user_asked(files_of(files@), file_idx),
            final(self)@.fits(files@.len() as int),
    {
        let ghost before = self@;
        assert(files_of(files@)[file_idx as int] == files@[file_idx as int]@);
        if files[file_idx].removed {
            let messages = self.requests.close_file(file_idx);
            proof {
                assert(self@ =~= before.user_asked(files_of(files@), file_idx).0);
                assert(self@.requests.pending == before.requests.pending);
            }
            return messages;
        }
        if has_rust_extension(files[file_idx].path.as_str()) {
            return self.ask(files, file_idx, false);
        }
        let messages: Vec<LspMessage> = Vec::new();
        assert(messages@ =~= Seq::empty());
        messages
    }

    /// Gives up going through the files after too long a time.
    pub fn expire_warmup(&mut self, now: Nanos)
        ensures
            final(self)@ == old(self)@.expired(now),
            forall|files: int| old(self)@.fits(files) ==> #[trigger] final(self)@.fits(files),
    {
        let ghost before = self@;
        if self.warmup_queue.len() > 0 && elapsed(self.warmup_start, now) > WARMUP_LIMIT {
            self.warmup_queue = Vec::new();
            self.warmup_retries = KeyedMap::new();
        }
        assert(self@ =~= before.expired(now));
        assert(self@.requests == before.requests);
    }

    /// Goes through the next file.
    pub fn next_warmup(&mut self, files: &Vec<LoadedFile>) -> (r: Vec<LspMessage>)
        requires
            texts_in_order(files@),
            old(self).requests.next_id < u64::MAX,
            old(self)@.fits(files@.len() as int),
        ensures
            (final(self)@, r@) == old(self)@.next_asked(files_of(files@)),
            final(self)@.fits(files@.len() as int),
    {
        let ghost before = self@;
        if self.warmup_queue.len() == 0 {
            let messages: Vec<LspMessage> = Vec::new();
            assert(messages@ =~= Seq::empty());
            return messages;
        }
        assert(before.warmup[0] < files@.len());
        let file_idx: usize = self.warmup_queue.remove(0);
        proof {
            assert(self@ =~= (Queue { warmup: before.warmup.skip(1), ..before }));
            assert forall|i: int| 0 <= i < self@.warmup.len() implies (
            #[trigger] self@.warmup[i]) < files@.len() by {
                assert(self@.warmup[i] == before.warmup[i + 1]);
            }
            assert(self@.requests == before.requests);
            assert(files_of(files@)[file_idx as int] == files@[file_idx as int]@);
        }
        self.ask(files, file_idx, !files[file_idx].needs_full_load)
    }

    /// Takes an answer to a request. `tokens` is `None` where it holds none. Returns whether a file
    /// changed.
    pub fn take_answer(
        &mut self,
        files: &mut Vec<LoadedFile>,
        id: u64,
        tokens: Option<&Vec<SemanticToken>>,
        token_types: &Vec<&'static str>,
    ) -> (r: bool)
        requires
            texts_in_order(old(files)@),
            old(self)@.fits(old(files)@.len() as int),
        ensures
            (final(self)@, files_of(final(files)@), r) == old(self)@.answer(
                files_of(old(files)@),
                id,
                optional_tokens(tokens),
                type_names(token_types@),
            ),
            texts_in_order(final(files)@),
            final(self)@.fits(final(files)@.len() as int),
            (forall|i: int|
                0 <= i < old(files)@.len() ==> (#[trigger] old(files)@[i])@.colors_fit()) ==> (
            forall|i: int|
                0 <= i < final(files)@.len() ==> (#[trigger] final(files)@[i])@.colors_fit()),
    {
        let ghost before = self@;
        let ghost all = files_of(files@);
        match self.requests.pending.remove(&id) {
            Some((file_idx, is_range, is_warmup)) => {
                proof {
                    assert(before.requests.pending[id].0 == file_idx);
                    assert(file_idx < files@.len());
                    assert(self@.requests.pending =~= before.requests.pending.remove(id));
                    assert(self@.fits(files@.len() as int)) by {
                        assert forall|other: u64|
                            self@.requests.pending.contains_key(other) implies (
                        #[trigger] self@.requests.pending[other]).0 < files@.len() by {
                            assert(before.requests.pending[other].0 < files@.len());
                        }
                        assert(self@.warmup == before.warmup);
                    }
                }
                match tokens {
                    Some(data) => {
                        assert(all[file_idx as int] == files@[file_idx as int]@);
                        let changed = take_tokens(&mut files[file_idx], is_range, token_types, data);
                        proof {
                            let goal = before.answer(
                                all,
                                id,
                                optional_tokens(tokens),
                                type_names(token_types@),
                            );
                            assert(files_of(files@) =~= goal.1);
                            assert(self@ =~= goal.0);
                        }
                        changed
                    },
                    None => {
                        if is_warmup {
                            let tries: u8 = match self.warmup_retries.get(&file_idx) {
                                Some(n) => n.saturating_add(1),
                                None => 1,
                            };
                            self.warmup_retries.insert(file_idx, tries);
                            if tries < 3 {
                                self.warmup_queue.push(file_idx);
                            }
                        }
                        proof {
                            let goal = before.answer(
                                all,
                                id,
                                optional_tokens(tokens),
                                type_names(token_types@),
                            );
                            assert(self@ =~= goal.0);
                        }
                        false
                    },
                }
            },
            None => {
                assert(self@ =~= before);
                false
            },
        }
    }
}

/// A file is asked for no more than three times while the files are gone through: an answer without
/// tokens puts it back only while it has had fewer.
pub proof fn law_retries_come_to_an_end(q: Queue, file_idx: usize)
    ensures
        q.unanswered(file_idx, true).retries[file_idx] >= 3 ==> q.unanswered(
            file_idx,
            true,
        ).warmup == q.warmup,
        q.retries.contains_key(file_idx) && q.retries[file_idx] < 255 ==> q.unanswered(
            file_idx,
            true,
        ).retries[file_idx] == q.retries[file_idx] + 1,
{
}

/// An answer is taken once: its request waits no longer.
pub proof fn law_answer_is_taken_once(
    q: Queue,
    files: Seq<File>,
    id: u64,
    tokens: Option<Seq<SemanticToken>>,
    later: Option<Seq<SemanticToken>>,
    types: Seq<Seq<char>>,
)
    ensures
        ({
            let (next, changed, _) = q.answer(files, id, tokens, types);
            next.answer(changed, id, later, types) == (next, changed, false)
        }),
{
}

} // verus!
