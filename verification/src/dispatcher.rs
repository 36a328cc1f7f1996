//! The command dispatcher. It owns the repository state and the lock
//! registry, and it never runs the locking tool or the folder picker itself:
//! for a request it says what is to be asked of them, and for their answer
//! what follows. Whoever drives it performs each call and hands the result
//! back, in any order and for any number of requests at a time.
//!
//! Every step is one change of the state, made at once and by the one owner
//! of the dispatcher, so no step sees another half done. Results take effect
//! in the order in which they are handed back: where two of them speak of the
//! same path, or of the registry as a whole, the later one wins. The registry
//! is a cache: a lock or unlock is recorded as soon as the tool confirms it,
//! and the next listing of the locks replaces whatever was recorded. A new
//! selection leaves the registry as it is until that listing.

use vstd::prelude::*;
use crate::listing::{entry_holding, first_malformed, holding_of_entry, listed, parse_listing};
use crate::protocol::{
    Failure,
    FailureView,
    LockEntry,
    LockEntryView,
    Request,
    RequestView,
    Response,
    ResponseView,
};
use crate::registry::{has_id, locks_of, without_id, LockRegistry, Locks};
use crate::repository::RepositoryState;
use crate::search::{filter_files, holds_query, is_search_result};
use crate::text::{lines_of, split_lines, texts};

verus! {

/// What is asked of the outside: of the folder picker, or of the locking
/// tool in the repository at `repo`.
#[derive(Debug, PartialEq, Eq)]
pub enum AdapterCall {
    /// Let the user pick a folder, and list what the folder holds.
    PickFolder,
    /// List the tracked files.
    ListTrackedFiles { repo: String },
    /// List the locks.
    ListLocks { repo: String },
    /// Lock the file at `path`.
    AcquireLock { repo: String, path: String },
    /// Release the lock with the number `id`.
    ReleaseLock { repo: String, id: u32 },
}

/// An outside call as plain values.
pub enum AdapterCallView {
    PickFolder,
    ListTrackedFiles { repo: Seq<char> },
    ListLocks { repo: Seq<char> },
    AcquireLock { repo: Seq<char>, path: Seq<char> },
    ReleaseLock { repo: Seq<char>, id: u32 },
}

impl View for AdapterCall {
    type V = AdapterCallView;

    open spec fn view(&self) -> AdapterCallView {
        match *self {
            AdapterCall::PickFolder => AdapterCallView::PickFolder,
            AdapterCall::ListTrackedFiles { repo } => AdapterCallView::ListTrackedFiles {
                repo: repo@,
            },
            AdapterCall::ListLocks { repo } => AdapterCallView::ListLocks { repo: repo@ },
            AdapterCall::AcquireLock { repo, path } => AdapterCallView::AcquireLock {
                repo: repo@,
                path: path@,
            },
            AdapterCall::ReleaseLock { repo, id } => AdapterCallView::ReleaseLock {
                repo: repo@,
                id,
            },
        }
    }
}

/// What came back from an outside call.
#[derive(Debug, PartialEq, Eq)]
pub enum AdapterResult {
    /// The user picked nothing.
    Cancelled,
    /// The user picked the folder at `path`, which holds the directory
    /// entries named `entries`.
    Folder { path: String, entries: Vec<String> },
    /// The tool listed the tracked files: `output` is what it printed, one
    /// path to a line.
    TrackedFiles { output: String },
    /// The tool listed the locks: `output` is what it printed, one lock to
    /// a line.
    Locks { output: String },
    /// The tool locked a file and reported `entry`.
    Acquired { entry: LockEntry },
    /// The tool released a lock.
    Released,
    /// The call failed; `message` says how.
    Failed { message: String },
}

/// The result of an outside call as plain values.
pub enum AdapterResultView {
    Cancelled,
    Folder { path: Seq<char>, entries: Seq<Seq<char>> },
    TrackedFiles { output: Seq<char> },
    Locks { output: Seq<char> },
    Acquired { entry: LockEntryView },
    Released,
    Failed { message: Seq<char> },
}

impl View for AdapterResult {
    type V = AdapterResultView;

    open spec fn view(&self) -> AdapterResultView {
        match *self {
            AdapterResult::Cancelled => AdapterResultView::Cancelled,
            AdapterResult::Folder { path, entries } => AdapterResultView::Folder {
                path: path@,
                entries: texts(entries@),
            },
            AdapterResult::TrackedFiles { output } => AdapterResultView::TrackedFiles {
                output: output@,
            },
            AdapterResult::Locks { output } => AdapterResultView::Locks { output: output@ },
            AdapterResult::Acquired { entry } => AdapterResultView::Acquired { entry: entry@ },
            AdapterResult::Released => AdapterResultView::Released,
            AdapterResult::Failed { message } => AdapterResultView::Failed { message: message@ },
        }
    }
}

/// A request that waits for an outside call: the call, and the two
/// destinations that the request named.
#[derive(Debug, PartialEq, Eq)]
pub struct Pending {
    pub call: AdapterCall,
    pub callback: String,
    pub error: String,
}

/// A pending operation as plain values.
pub struct PendingView {
    pub call: AdapterCallView,
    pub callback: Seq<char>,
    pub error: Seq<char>,
}

impl View for Pending {
    type V = PendingView;

    open spec fn view(&self) -> PendingView {
        PendingView { call: self.call@, callback: self.callback@, error: self.error@ }
    }
}

/// What is to happen next for a request.
#[derive(Debug, PartialEq, Eq)]
pub enum Step {
    /// Perform the call and come back with its result.
    Call(Pending),
    /// The request is done: deliver `reply` at the destination `channel`.
    Deliver { channel: String, reply: Result<Response, Failure> },
    /// Show the message; nothing is delivered.
    Echo { message: String },
    /// The request could not be decoded, so no destination is known.
    Reject { failure: Failure },
}

/// A step as plain values.
pub enum StepView {
    Call(PendingView),
    Deliver { channel: Seq<char>, reply: Result<ResponseView, FailureView> },
    Echo { message: Seq<char> },
    Reject { failure: FailureView },
}

/// A reply as plain values.
pub open spec fn reply_view(reply: Result<Response, Failure>) -> Result<ResponseView, FailureView> {
    match reply {
        Ok(response) => Ok(response@),
        Err(failure) => Err(failure@),
    }
}

impl View for Step {
    type V = StepView;

    open spec fn view(&self) -> StepView {
        match *self {
            Step::Call(pending) => StepView::Call(pending@),
            Step::Deliver { channel, reply } => StepView::Deliver {
                channel: channel@,
                reply: reply_view(reply),
            },
            Step::Echo { message } => StepView::Echo { message: message@ },
            Step::Reject { failure } => StepView::Reject { failure: failure@ },
        }
    }
}

/// The name of the directory entry that marks a folder as a repository.
pub open spec fn marker() -> Seq<char> {
    ".git"@
}

/// The message of the failure that answers a lock or unlock request while
/// no repository is selected.
pub open spec fn no_repository() -> Seq<char> {
    "no repository is selected"@
}

/// The message of the failure that answers a result which is none of those
/// that the pending call can have.
pub open spec fn unexpected_result() -> Seq<char> {
    "the result does not answer the call"@
}

/// The dispatcher's state as plain values: the selected repository, its
/// tracked files, and the lock registry.
pub struct DispatcherView {
    pub repository: Option<Seq<char>>,
    pub tracked_files: Seq<Seq<char>>,
    pub locks: Locks,
}

/// The step that delivers `response` for `pending`.
pub open spec fn answered(pending: PendingView, response: ResponseView) -> StepView {
    StepView::Deliver { channel: pending.callback, reply: Ok(response) }
}

/// The step that delivers `failure` for `pending`.
pub open spec fn failed(pending: PendingView, failure: FailureView) -> StepView {
    StepView::Deliver { channel: pending.error, reply: Err(failure) }
}

/// The step that a request begins with, where `found` is what a search among
/// the tracked files gives (read for a search only). The state does not
/// change by it.
pub open spec fn first_step(
    state: DispatcherView,
    request: RequestView,
    found: Seq<Seq<char>>,
) -> StepView {
    match request {
        RequestView::Echo { message } => StepView::Echo { message },
        RequestView::PickRepo { callback, error } => StepView::Call(
            PendingView { call: AdapterCallView::PickFolder, callback, error },
        ),
        RequestView::GetLockedFiles { callback, error } => match state.repository {
            Some(repo) => StepView::Call(
                PendingView { call: AdapterCallView::ListLocks { repo }, callback, error },
            ),
            None => StepView::Deliver {
                channel: callback,
                reply: Ok(ResponseView::GetLockedFiles { locked_files: Seq::empty() }),
            },
        },
        RequestView::GetFilteredFiles { filter, callback, error } => StepView::Deliver {
            channel: callback,
            reply: Ok(ResponseView::GetFilteredFiles { filtered_files: found }),
        },
        RequestView::LockFile { path, callback, error } => if state.locks.contains_key(path) {
            StepView::Deliver {
                channel: error,
                reply: Err(FailureView::StaleRegistryConflict { path }),
            }
        } else {
            match state.repository {
                Some(repo) => StepView::Call(
                    PendingView {
                        call: AdapterCallView::AcquireLock { repo, path },
                        callback,
                        error,
                    },
                ),
                None => StepView::Deliver {
                    channel: error,
                    reply: Err(FailureView::AdapterFailure { message: no_repository() }),
                },
            }
        },
        RequestView::UnlockFile { id, callback, error } => if !has_id(state.locks, id) {
            StepView::Deliver { channel: callback, reply: Ok(ResponseView::UnlockFile { id }) }
        } else {
            match state.repository {
                Some(repo) => StepView::Call(
                    PendingView { call: AdapterCallView::ReleaseLock { repo, id }, callback, error },
                ),
                None => StepView::Deliver {
                    channel: error,
                    reply: Err(FailureView::AdapterFailure { message: no_repository() }),
                },
            }
        },
    }
}

/// The files that `step` delivers as a search result; none where it
/// delivers something else.
pub open spec fn found_by(step: StepView) -> Seq<Seq<char>> {
    match step {
        StepView::Deliver {
            channel,
            reply: Ok(ResponseView::GetFilteredFiles { filtered_files }),
        } => filtered_files,
        _ => Seq::empty(),
    }
}

/// Whether `step` is the first step for `request` in `state`: it is as
/// `first_step` says, and what a search delivers is the search result among
/// the tracked files.
pub open spec fn is_first_step(state: DispatcherView, request: RequestView, step: StepView) -> bool {
    &&& step == first_step(state, request, found_by(step))
    &&& match request {
        RequestView::GetFilteredFiles { filter, callback, error } => is_search_result(
            state.tracked_files,
            filter,
            found_by(step),
        ),
        _ => true,
    }
}

/// Whether every file that `step` delivers for a search `request` holds
/// what was searched for.
pub open spec fn finds_what_was_asked(request: RequestView, step: StepView) -> bool {
    match request {
        RequestView::GetFilteredFiles { filter, callback, error } => forall|k: int|
            0 <= k < found_by(step).len() ==> holds_query(#[trigger] found_by(step)[k], filter),
        _ => true,
    }
}

/// Whether the folder with the directory entries `entries` is a repository.
pub open spec fn is_repository(entries: Seq<Seq<char>>) -> bool {
    entries.contains(marker())
}

/// The state after `result` came back for `pending`. A result that fails,
/// that cannot be read, or that does not answer the call leaves the state as
/// it was; so does the choice of a folder, until its tracked files are
/// listed.
pub open spec fn next_state(
    state: DispatcherView,
    pending: PendingView,
    result: AdapterResultView,
) -> DispatcherView {
    match (pending.call, result) {
        (
            AdapterCallView::ListTrackedFiles { repo },
            AdapterResultView::TrackedFiles { output },
        ) => DispatcherView {
            repository: Some(repo),
            tracked_files: lines_of(output),
            locks: state.locks,
        },
        (AdapterCallView::ListLocks { repo }, AdapterResultView::Locks { output }) => {
            if first_malformed(lines_of(output)) is None {
                DispatcherView { locks: locks_of(listed(lines_of(output))), ..state }
            } else {
                state
            }
        },
        (AdapterCallView::AcquireLock { repo, path }, AdapterResultView::Acquired { entry }) => {
            match entry_holding(entry) {
                Some(holding) => DispatcherView {
                    locks: state.locks.insert(holding.path, (holding.owner, holding.id)),
                    ..state
                },
                None => state,
            }
        },
        (AdapterCallView::ReleaseLock { repo, id }, AdapterResultView::Released) => DispatcherView {
            locks: without_id(state.locks, id),
            ..state
        },
        _ => state,
    }
}

/// The step that follows when `result` came back for `pending`.
pub open spec fn next_step(pending: PendingView, result: AdapterResultView) -> StepView {
    match (pending.call, result) {
        (_, AdapterResultView::Failed { message }) => failed(
            pending,
            FailureView::AdapterFailure { message },
        ),
        (AdapterCallView::PickFolder, AdapterResultView::Cancelled) => answered(
            pending,
            ResponseView::PickRepo { path: Seq::empty() },
        ),
        (AdapterCallView::PickFolder, AdapterResultView::Folder { path, entries }) => {
            if path.len() > 0 && is_repository(entries) {
                StepView::Call(
                    PendingView {
                        call: AdapterCallView::ListTrackedFiles { repo: path },
                        callback: pending.callback,
                        error: pending.error,
                    },
                )
            } else {
                answered(pending, ResponseView::PickRepo { path: Seq::empty() })
            }
        },
        (
            AdapterCallView::ListTrackedFiles { repo },
            AdapterResultView::TrackedFiles { output },
        ) => answered(pending, ResponseView::PickRepo { path: repo }),
        (AdapterCallView::ListLocks { repo }, AdapterResultView::Locks { output }) => {
            match first_malformed(lines_of(output)) {
                None => answered(
                    pending,
                    ResponseView::GetLockedFiles { locked_files: lines_of(output) },
                ),
                Some(k) => failed(
                    pending,
                    FailureView::MalformedAdapterOutput { text: lines_of(output)[k] },
                ),
            }
        },
        (AdapterCallView::AcquireLock { repo, path }, AdapterResultView::Acquired { entry }) => {
            match entry_holding(entry) {
                Some(holding) => answered(pending, ResponseView::LockFile { lock_entry: entry }),
                None => failed(pending, FailureView::MalformedAdapterOutput { text: entry.id }),
            }
        },
        (AdapterCallView::ReleaseLock { repo, id }, AdapterResultView::Released) => answered(
            pending,
            ResponseView::UnlockFile { id },
        ),
        _ => failed(pending, FailureView::AdapterFailure { message: unexpected_result() }),
    }
}

/// Whether `entries` holds the marker of a repository.
pub fn has_marker(entries: &Vec<String>) -> (out: bool)
    ensures
        out == is_repository(texts(entries@)),
{
    let name = ".git".to_owned();
    let mut i: usize = 0;
    while i < entries.len()
        invariant
            i <= entries@.len(),
            name@ == marker(),
            forall|k: int| 0 <= k < i ==> texts(entries@)[k] != marker(),
        decreases entries@.len() - i,
    {
        assert(texts(entries@)[i as int] == entries@[i as int]@);
        if entries[i] == name {
            return true;
        }
        i += 1;
    }
    false
}

/// The dispatcher: the repository state and the lock registry under one
/// owner.
#[derive(Debug)]
pub struct Dispatcher {
    repository: RepositoryState,
    registry: LockRegistry,
}

impl View for Dispatcher {
    type V = DispatcherView;

    closed spec fn view(&self) -> DispatcherView {
        DispatcherView {
            repository: self.repository@.path,
            tracked_files: self.repository@.tracked_files,
            locks: self.registry@,
        }
    }
}

impl Dispatcher {
    /// The dispatcher with no repository selected and no lock known.
    pub fn new() -> (out: Self)
        ensures
            out@.repository is None,
            out@.tracked_files == Seq::<Seq<char>>::empty(),
            out@.locks == Locks::empty(),
    {
        Dispatcher { repository: RepositoryState::new(), registry: LockRegistry::new() }
    }

    /// The repository state.
    pub fn repository(&self) -> (out: &RepositoryState)
        ensures
            out@.path == self@.repository,
            out@.tracked_files == self@.tracked_files,
    {
        &self.repository
    }

    /// The lock registry.
    pub fn registry(&self) -> (out: &LockRegistry)
        ensures
            out@ == self@.locks,
    {
        &self.registry
    }

    /// Takes up `request` and says what is to happen first, as
    /// `is_first_step` says. A search is answered at once from the tracked
    /// files, with files that hold what was searched for. The state stays as
    /// it is.
    pub fn start(&self, request: Request) -> (step: Step)
        ensures
            is_first_step(self@, request@, step@),
            finds_what_was_asked(request@, step@),
    {
        match request {
            Request::Echo { message } => Step::Echo { message },
            Request::PickRepo { callback, error } => Step::Call(
                Pending { call: AdapterCall::PickFolder, callback, error },
            ),
            Request::GetLockedFiles { callback, error } => match self.repository.path() {
                Some(repo) => Step::Call(
                    Pending { call: AdapterCall::ListLocks { repo: repo.clone() }, callback, error },
                ),
                None => {
                    let locked_files: Vec<String> = Vec::new();
                    assert(texts(locked_files@) =~= Seq::<Seq<char>>::empty());
                    Step::Deliver {
                        channel: callback,
                        reply: Ok(Response::GetLockedFiles { locked_files }),
                    }
                },
            },
            Request::GetFilteredFiles { filter, callback, error } => {
                let filtered_files = filter_files(self.repository.tracked_files(), filter.as_str());
                Step::Deliver {
                    channel: callback,
                    reply: Ok(Response::GetFilteredFiles { filtered_files }),
                }
            },
            Request::LockFile { path, callback, error } => {
                if self.registry.contains(&path) {
                    Step::Deliver {
                        channel: error,
                        reply: Err(Failure::StaleRegistryConflict { path }),
                    }
                } else {
                    match self.repository.path() {
                        Some(repo) => Step::Call(
                            Pending {
                                call: AdapterCall::AcquireLock { repo: repo.clone(), path },
                                callback,
                                error,
                            },
                        ),
                        None => Step::Deliver {
                            channel: error,
                            reply: Err(
                                Failure::AdapterFailure {
                                    message: "no repository is selected".to_owned(),
                                },
                            ),
                        },
                    }
                }
            },
            Request::UnlockFile { id, callback, error } => {
                if !self.registry.holds_id(id) {
                    Step::Deliver { channel: callback, reply: Ok(Response::UnlockFile { id }) }
                } else {
                    match self.repository.path() {
                        Some(repo) => Step::Call(
                            Pending {
                                call: AdapterCall::ReleaseLock { repo: repo.clone(), id },
                                callback,
                                error,
                            },
                        ),
                        None => Step::Deliver {
                            channel: error,
                            reply: Err(
                                Failure::AdapterFailure {
                                    message: "no repository is selected".to_owned(),
                                },
                            ),
                        },
                    }
                }
            },
        }
    }

    /// Takes up what came of decoding a request: a request is started, and
    /// a decoding failure is rejected with its message. The state stays as
    /// it is.
    pub fn accept(&self, decoded: Result<Request, String>) -> (step: Step)
        ensures
            match decoded {
                Ok(request) => is_first_step(self@, request@, step@) && finds_what_was_asked(
                    request@,
                    step@,
                ),
                Err(message) => step@ == (StepView::Reject {
                    failure: FailureView::DecodingFailure { message: message@ },
                }),
            },
    {
        match decoded {
            Ok(request) => self.start(request),
            Err(message) => Step::Reject { failure: Failure::DecodingFailure { message } },
        }
    }

    /// Takes up the `result` of the call that `pending` waited for: the
    /// state changes as `next_state` says, and what follows is as `next_step`
    /// says. A lock is recorded under the path that the reported entry
    /// names.
    pub fn resume(&mut self, pending: Pending, result: AdapterResult) -> (step: Step)
        ensures
            final(self)@ == next_state(old(self)@, pending@, result@),
            step@ == next_step(pending@, result@),
    {
        let Pending { call, callback, error } = pending;
        match (call, result) {
            (_, AdapterResult::Failed { message }) => Step::Deliver {
                channel: error,
                reply: Err(Failure::AdapterFailure { message }),
            },
            (AdapterCall::PickFolder, AdapterResult::Cancelled) => Step::Deliver {
                channel: callback,
                reply: Ok(Response::PickRepo { path: String::new() }),
            },
            (AdapterCall::PickFolder, AdapterResult::Folder { path, entries }) => {
                if !path.as_str().is_empty() && has_marker(&entries) {
                    Step::Call(
                        Pending { call: AdapterCall::ListTrackedFiles { repo: path }, callback, error },
                    )
                } else {
                    Step::Deliver {
                        channel: callback,
                        reply: Ok(Response::PickRepo { path: String::new() }),
                    }
                }
            },
            (AdapterCall::ListTrackedFiles { repo }, AdapterResult::TrackedFiles { output }) => {
                let files = split_lines(output.as_str());
                self.repository.select(repo.clone(), files);
                Step::Deliver { channel: callback, reply: Ok(Response::PickRepo { path: repo }) }
            },
            (AdapterCall::ListLocks { repo }, AdapterResult::Locks { output }) => {
                let lines = split_lines(output.as_str());
                match parse_listing(&lines) {
                    Ok(list) => {
                        self.registry = LockRegistry::from_holdings(&list);
                        Step::Deliver {
                            channel: callback,
                            reply: Ok(Response::GetLockedFiles { locked_files: lines }),
                        }
                    },
                    Err(failure) => Step::Deliver { channel: error, reply: Err(failure) },
                }
            },
            (AdapterCall::AcquireLock { repo, path }, AdapterResult::Acquired { entry }) => {
                match holding_of_entry(&entry) {
                    Some(holding) => {
                        self.registry.insert(holding.path, holding.owner, holding.id);
                        Step::Deliver {
                            channel: callback,
                            reply: Ok(Response::LockFile { lock_entry: entry }),
                        }
                    },
                    None => Step::Deliver {
                        channel: error,
                        reply: Err(Failure::MalformedAdapterOutput { text: entry.id }),
                    },
                }
            },
            (AdapterCall::ReleaseLock { repo, id }, AdapterResult::Released) => {
                self.registry.remove_id(id);
                Step::Deliver { channel: callback, reply: Ok(Response::UnlockFile { id }) }
            },
            _ => Step::Deliver {
                channel: error,
                reply: Err(
                    Failure::AdapterFailure {
                        message: "the result does not answer the call".to_owned(),
                    },
                ),
            },
        }
    }
}

/// The state after the outside calls of `steps` came back one after the
/// other, each with its pending operation and its result.
pub open spec fn state_after(
    state: DispatcherView,
    steps: Seq<(PendingView, AdapterResultView)>,
) -> DispatcherView
    decreases steps.len(),
{
    if steps.len() == 0 {
        state
    } else {
        next_state(state_after(state, steps.drop_last()), steps.last().0, steps.last().1)
    }
}

/// Whether `step` is the listing of the tracked files that completes the
/// selection of a repository.
pub open spec fn is_selection(step: (PendingView, AdapterResultView)) -> bool {
    step.0.call is ListTrackedFiles && step.1 is TrackedFiles
}

/// Whether tracked files are held only for a selected repository.
pub open spec fn is_consistent(state: DispatcherView) -> bool {
    state.repository is None ==> state.tracked_files.len() == 0
}

/// No step makes a state inconsistent: tracked files are still held only
/// for a selected repository.
pub proof fn lemma_steps_keep_consistent(
    state: DispatcherView,
    pending: PendingView,
    result: AdapterResultView,
)
    requires
        is_consistent(state),
    ensures
        is_consistent(next_state(state, pending, result)),
{
}

/// After any run of steps, the repository and the tracked files are those
/// of the last selection among them: the folder that it named and the lines
/// of its listing, with nothing of an earlier selection left. Where no
/// selection is among the steps, both are as at the beginning.
pub proof fn lemma_last_selection_counts(
    state: DispatcherView,
    steps: Seq<(PendingView, AdapterResultView)>,
)
    ensures
        forall|k: int|
            0 <= k < steps.len() && is_selection(#[trigger] steps[k]) && (forall|j: int|
                k < j < steps.len() ==> !is_selection(steps[j])) ==> {
                &&& state_after(state, steps).repository == Some(
                    steps[k].0.call->ListTrackedFiles_repo,
                )
                &&& state_after(state, steps).tracked_files == lines_of(
                    steps[k].1->TrackedFiles_output,
                )
            },
        (forall|j: int| 0 <= j < steps.len() ==> !is_selection(steps[j])) ==> {
            &&& state_after(state, steps).repository == state.repository
            &&& state_after(state, steps).tracked_files == state.tracked_files
        },
    decreases steps.len(),
{
    if steps.len() > 0 {
        let front = steps.drop_last();
        lemma_last_selection_counts(state, front);
        assert forall|k: int|
            0 <= k < steps.len() && is_selection(#[trigger] steps[k]) && (forall|j: int|
                k < j < steps.len() ==> !is_selection(steps[j])) implies {
            &&& state_after(state, steps).repository == Some(steps[k].0.call->ListTrackedFiles_repo)
            &&& state_after(state, steps).tracked_files == lines_of(steps[k].1->TrackedFiles_output)
        } by {
            if k < steps.len() - 1 {
                assert(!is_selection(steps[steps.len() - 1]));
                assert(front[k] == steps[k]);
                assert forall|j: int| k < j < front.len() implies !is_selection(front[j]) by {
                    assert(front[j] == steps[j]);
                }
            }
        }
        if forall|j: int| 0 <= j < steps.len() ==> !is_selection(steps[j]) {
            assert(!is_selection(steps[steps.len() - 1]));
            assert forall|j: int| 0 <= j < front.len() implies !is_selection(front[j]) by {
                assert(front[j] == steps[j]);
            }
        }
    }
}

/// Selecting a repository replaces the tracked files: after the tracked
/// files of the chosen folder were listed, the state holds that folder and
/// the lines of that listing, whatever it held before, and the registry is
/// not touched.
pub proof fn lemma_selection_replaces(
    before: DispatcherView,
    other: DispatcherView,
    pending: PendingView,
    output: Seq<char>,
)
    requires
        pending.call is ListTrackedFiles,
    ensures
        ({
            let result = AdapterResultView::TrackedFiles { output };
            let after = next_state(before, pending, result);
            &&& after.repository == Some(pending.call->ListTrackedFiles_repo)
            &&& after.tracked_files == lines_of(output)
            &&& after.locks == before.locks
            &&& after.repository == next_state(other, pending, result).repository
            &&& after.tracked_files == next_state(other, pending, result).tracked_files
        }),
{
}

/// Picking a folder changes nothing by itself: whatever comes back from the
/// folder picker, the state stays as it was, and a folder that is no
/// repository is answered like a cancelled choice, with the empty path.
pub proof fn lemma_pick_keeps_state(
    before: DispatcherView,
    pending: PendingView,
    result: AdapterResultView,
)
    requires
        pending.call is PickFolder,
    ensures
        next_state(before, pending, result) == before,
        result matches AdapterResultView::Folder { path, entries } && !is_repository(entries)
            ==> next_step(pending, result) == answered(
            pending,
            ResponseView::PickRepo { path: Seq::empty() },
        ),
{
}

/// A refresh replaces the registry: after a listing whose lines are all
/// well formed, the registry holds what the lines say and nothing else,
/// whatever it held before. A listing with a malformed line changes nothing.
pub proof fn lemma_refresh_replaces(
    before: DispatcherView,
    other: DispatcherView,
    pending: PendingView,
    output: Seq<char>,
)
    requires
        pending.call is ListLocks,
    ensures
        ({
            let result = AdapterResultView::Locks { output };
            let after = next_state(before, pending, result);
            if first_malformed(lines_of(output)) is None {
                &&& after.locks == locks_of(listed(lines_of(output)))
                &&& after.locks == next_state(other, pending, result).locks
                &&& after.repository == before.repository
                &&& after.tracked_files == before.tracked_files
            } else {
                after == before
            }
        }),
{
}

/// Locking a file and then releasing that lock leaves the file as it was
/// before: not in the registry. In between it is there, under the number by
/// which it is released, and the registry as a whole ends as the one before
/// without the locks of that number.
pub proof fn lemma_lock_then_unlock(
    before: DispatcherView,
    lock: PendingView,
    unlock: PendingView,
    entry: LockEntryView,
)
    requires
        lock.call is AcquireLock,
        !before.locks.contains_key(lock.call->AcquireLock_path),
        entry.path == lock.call->AcquireLock_path,
        entry_holding(entry) is Some,
        unlock.call is ReleaseLock,
        unlock.call->ReleaseLock_id == entry_holding(entry)->0.id,
    ensures
        ({
            let path = entry.path;
            let id = entry_holding(entry)->0.id;
            let locked = next_state(before, lock, AdapterResultView::Acquired { entry });
            let released = next_state(locked, unlock, AdapterResultView::Released);
            &&& locked.locks.contains_key(path)
            &&& locked.locks[path].1 == id
            &&& has_id(locked.locks, id)
            &&& !released.locks.contains_key(path)
            &&& released.locks == without_id(before.locks, id)
            &&& released.repository == before.repository
            &&& released.tracked_files == before.tracked_files
        }),
{
    let path = entry.path;
    let id = entry_holding(entry)->0.id;
    let locked = next_state(before, lock, AdapterResultView::Acquired { entry });
    let released = next_state(locked, unlock, AdapterResultView::Released);
    assert(locked.locks.contains_key(path));
    assert(released.locks =~= without_id(before.locks, id));
}

/// Releasing a lock number that the registry does not hold is answered at
/// once as done, without a call, and even a release of that number would
/// leave the registry as it is.
pub proof fn lemma_unlock_unknown_id(
    state: DispatcherView,
    id: u32,
    callback: Seq<char>,
    error: Seq<char>,
    found: Seq<Seq<char>>,
)
    requires
        !has_id(state.locks, id),
    ensures
        first_step(state, RequestView::UnlockFile { id, callback, error }, found) == (
        StepView::Deliver { channel: callback, reply: Ok(ResponseView::UnlockFile { id }) }),
        without_id(state.locks, id) == state.locks,
{
    assert(without_id(state.locks, id) =~= state.locks);
}

/// Two locks on different paths do not disturb each other: in whichever
/// order the two results come back, both requests are answered with their
/// lock entry, both paths are in the registry afterwards, and the registry
/// is the same. The request that is taken up second still begins with its
/// call where the first lock is already recorded.
pub proof fn lemma_locks_commute(
    before: DispatcherView,
    first: PendingView,
    second: PendingView,
    first_entry: LockEntryView,
    second_entry: LockEntryView,
    found: Seq<Seq<char>>,
)
    requires
        first.call is AcquireLock,
        second.call is AcquireLock,
        first.call->AcquireLock_path != second.call->AcquireLock_path,
        first_entry.path == first.call->AcquireLock_path,
        second_entry.path == second.call->AcquireLock_path,
        entry_holding(first_entry) is Some,
        entry_holding(second_entry) is Some,
    ensures
        ({
            let one = AdapterResultView::Acquired { entry: first_entry };
            let two = AdapterResultView::Acquired { entry: second_entry };
            let this_way = next_state(next_state(before, first, one), second, two);
            let that_way = next_state(next_state(before, second, two), first, one);
            &&& this_way == that_way
            &&& this_way.locks.contains_key(first_entry.path)
            &&& this_way.locks.contains_key(second_entry.path)
            &&& next_step(first, one) == answered(
                first,
                ResponseView::LockFile { lock_entry: first_entry },
            )
            &&& next_step(second, two) == answered(
                second,
                ResponseView::LockFile { lock_entry: second_entry },
            )
            &&& first_step(
                next_state(before, first, one),
                RequestView::LockFile {
                    path: second_entry.path,
                    callback: second.callback,
                    error: second.error,
                },
                found,
            ) == first_step(
                before,
                RequestView::LockFile {
                    path: second_entry.path,
                    callback: second.callback,
                    error: second.error,
                },
                found,
            )
        }),
{
    let one = AdapterResultView::Acquired { entry: first_entry };
    let two = AdapterResultView::Acquired { entry: second_entry };
    let this_way = next_state(next_state(before, first, one), second, two);
    let that_way = next_state(next_state(before, second, two), first, one);
    assert(this_way.locks =~= that_way.locks);
}

} // verus!
