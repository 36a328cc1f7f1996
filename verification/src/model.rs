//! The calling side's session: what the user works on (the repository, the
//! search box, the lists shown) together with a copy of the lock registry
//! for the buttons, and what each message does to it. The session never
//! talks to the dispatcher itself: for a message it says which call is to be
//! made or which messages are to be fed back, and the answer to a call comes
//! in as a message again.

use vstd::prelude::*;
use crate::client::{get_filtered_files, get_locked_files, lock_file, pick_repo, unlock_file};
use crate::listing::{entry_holding, first_malformed, holding_of_entry, listed, parse_listing};
use crate::protocol::{
    Failure,
    LockEntry,
    LockEntryView,
    Request,
    RequestView,
    Response,
    ResponseView,
};
use crate::registry::{
    distinct_paths,
    holdings,
    is_order_of,
    lemma_locks_of_value,
    lemma_paths_are_order,
    locks_of,
    paths_of,
    LockRegistry,
    Locks,
};
use crate::text::texts;

verus! {

/// Which list is shown.
#[derive(Clone, Copy, Debug, PartialEq, Eq, Structural)]
pub enum ListType {
    /// The locked files.
    LockedFiles,
    /// The result of the search.
    SearchResult,
}

/// What happens to the session: the user's doing, or the answer to a call.
#[derive(Debug, PartialEq, Eq)]
pub enum Msg {
    Echo { message: String },
    PickRepo,
    RepoPicked { repo: String },
    FilterChanged(String),
    GetLockedFiles,
    LockedFilesReceived(Vec<String>),
    FilteredFilesReceived(Vec<String>),
    LockFile(String),
    UnlockFile(String),
    FileLocked(Option<LockEntry>),
    FileUnlocked(String),
    UnlockAll,
}

/// A message as plain values.
pub enum MsgView {
    Echo { message: Seq<char> },
    PickRepo,
    RepoPicked { repo: Seq<char> },
    FilterChanged(Seq<char>),
    GetLockedFiles,
    LockedFilesReceived(Seq<Seq<char>>),
    FilteredFilesReceived(Seq<Seq<char>>),
    LockFile(Seq<char>),
    UnlockFile(Seq<char>),
    FileLocked(Option<LockEntryView>),
    FileUnlocked(Seq<char>),
    UnlockAll,
}

impl View for Msg {
    type V = MsgView;

    open spec fn view(&self) -> MsgView {
        match *self {
            Msg::Echo { message } => MsgView::Echo { message: message@ },
            Msg::PickRepo => MsgView::PickRepo,
            Msg::RepoPicked { repo } => MsgView::RepoPicked { repo: repo@ },
            Msg::FilterChanged(filter) => MsgView::FilterChanged(filter@),
            Msg::GetLockedFiles => MsgView::GetLockedFiles,
            Msg::LockedFilesReceived(lines) => MsgView::LockedFilesReceived(texts(lines@)),
            Msg::FilteredFilesReceived(files) => MsgView::FilteredFilesReceived(texts(files@)),
            Msg::LockFile(path) => MsgView::LockFile(path@),
            Msg::UnlockFile(path) => MsgView::UnlockFile(path@),
            Msg::FileLocked(entry) => MsgView::FileLocked(
                match entry {
                    Some(e) => Some(e@),
                    None => None,
                },
            ),
            Msg::FileUnlocked(path) => MsgView::FileUnlocked(path@),
            Msg::UnlockAll => MsgView::UnlockAll,
        }
    }
}

/// The messages of `s` as plain values.
pub open spec fn msgs(s: Seq<Msg>) -> Seq<MsgView> {
    Seq::new(s.len(), |i: int| s[i]@)
}

/// A call to the dispatcher.
#[derive(Debug, PartialEq, Eq)]
pub enum Call {
    Echo { message: String },
    PickRepo,
    GetLockedFiles,
    GetFilteredFiles { filter: String },
    LockFile { path: String },
    /// Release the lock with the number `id`, which the session knows as
    /// the lock on `path`.
    UnlockFile { id: u32, path: String },
}

/// A call as plain values.
pub enum CallView {
    Echo { message: Seq<char> },
    PickRepo,
    GetLockedFiles,
    GetFilteredFiles { filter: Seq<char> },
    LockFile { path: Seq<char> },
    UnlockFile { id: u32, path: Seq<char> },
}

impl View for Call {
    type V = CallView;

    open spec fn view(&self) -> CallView {
        match *self {
            Call::Echo { message } => CallView::Echo { message: message@ },
            Call::PickRepo => CallView::PickRepo,
            Call::GetLockedFiles => CallView::GetLockedFiles,
            Call::GetFilteredFiles { filter } => CallView::GetFilteredFiles { filter: filter@ },
            Call::LockFile { path } => CallView::LockFile { path: path@ },
            Call::UnlockFile { id, path } => CallView::UnlockFile { id, path: path@ },
        }
    }
}

/// The request that carries `call`, with the destinations `callback` and
/// `error`.
pub open spec fn request_of(call: CallView, callback: Seq<char>, error: Seq<char>) -> RequestView {
    match call {
        CallView::Echo { message } => RequestView::Echo { message },
        CallView::PickRepo => RequestView::PickRepo { callback, error },
        CallView::GetLockedFiles => RequestView::GetLockedFiles { callback, error },
        CallView::GetFilteredFiles { filter } => RequestView::GetFilteredFiles {
            filter,
            callback,
            error,
        },
        CallView::LockFile { path } => RequestView::LockFile { path, callback, error },
        CallView::UnlockFile { id, path } => RequestView::UnlockFile { id, callback, error },
    }
}

/// The message by which the answer to `call` comes in, where `reply` is the
/// response that was delivered, or nothing where a failure was. A response
/// of another kind than the call asks for counts as a failure. An echo has
/// no answer.
pub open spec fn answer_of(call: CallView, reply: Option<ResponseView>) -> Option<MsgView> {
    match call {
        CallView::Echo { message } => None,
        CallView::PickRepo => Some(
            match reply {
                Some(ResponseView::PickRepo { path }) => MsgView::RepoPicked { repo: path },
                _ => MsgView::RepoPicked { repo: Seq::empty() },
            },
        ),
        CallView::GetLockedFiles => Some(
            match reply {
                Some(ResponseView::GetLockedFiles { locked_files }) => MsgView::LockedFilesReceived(
                    locked_files,
                ),
                _ => MsgView::LockedFilesReceived(Seq::empty()),
            },
        ),
        CallView::GetFilteredFiles { filter } => Some(
            match reply {
                Some(
                    ResponseView::GetFilteredFiles { filtered_files },
                ) => MsgView::FilteredFilesReceived(filtered_files),
                _ => MsgView::FilteredFilesReceived(Seq::empty()),
            },
        ),
        CallView::LockFile { path } => Some(
            match reply {
                Some(ResponseView::LockFile { lock_entry }) => MsgView::FileLocked(Some(lock_entry)),
                _ => MsgView::FileLocked(None),
            },
        ),
        CallView::UnlockFile { id, path } => Some(
            match reply {
                Some(ResponseView::UnlockFile { id }) => MsgView::FileUnlocked(path),
                _ => MsgView::FileUnlocked(Seq::empty()),
            },
        ),
    }
}

/// The response of a reply as plain values, or nothing for a failure.
pub open spec fn delivered(reply: Result<Response, Failure>) -> Option<ResponseView> {
    match reply {
        Ok(response) => Some(response@),
        Err(failure) => None,
    }
}

impl Call {
    /// The request that carries this call, as `request_of` says.
    pub fn request(&self, callback: String, error: String) -> (out: Request)
        ensures
            out@ == request_of(self@, callback@, error@),
    {
        match self {
            Call::Echo { message } => Request::Echo { message: message.clone() },
            Call::PickRepo => Request::PickRepo { callback, error },
            Call::GetLockedFiles => Request::GetLockedFiles { callback, error },
            Call::GetFilteredFiles { filter } => Request::GetFilteredFiles {
                filter: filter.clone(),
                callback,
                error,
            },
            Call::LockFile { path } => Request::LockFile { path: path.clone(), callback, error },
            Call::UnlockFile { id, path } => Request::UnlockFile { id: *id, callback, error },
        }
    }

    /// The message by which `reply` to this call comes in, as `answer_of`
    /// says.
    pub fn answer(self, reply: Result<Response, Failure>) -> (out: Option<Msg>)
        ensures
            match out {
                Some(msg) => answer_of(self@, delivered(reply)) == Some(msg@),
                None => answer_of(self@, delivered(reply)) is None,
            },
    {
        match self {
            Call::Echo { message } => None,
            Call::PickRepo => {
                let picked = match reply {
                    Ok(response) => pick_repo(response),
                    Err(_) => Err(String::new()),
                };
                match picked {
                    Ok(repo) => Some(Msg::RepoPicked { repo }),
                    Err(_) => Some(Msg::RepoPicked { repo: String::new() }),
                }
            },
            Call::GetLockedFiles => {
                let listed = match reply {
                    Ok(response) => get_locked_files(response),
                    Err(_) => Err(String::new()),
                };
                match listed {
                    Ok(lines) => Some(Msg::LockedFilesReceived(lines)),
                    Err(_) => {
                        let none: Vec<String> = Vec::new();
                        assert(texts(none@) =~= Seq::<Seq<char>>::empty());
                        Some(Msg::LockedFilesReceived(none))
                    },
                }
            },
            Call::GetFilteredFiles { filter } => {
                let found = match reply {
                    Ok(response) => get_filtered_files(response),
                    Err(_) => Err(String::new()),
                };
                match found {
                    Ok(files) => Some(Msg::FilteredFilesReceived(files)),
                    Err(_) => {
                        let none: Vec<String> = Vec::new();
                        assert(texts(none@) =~= Seq::<Seq<char>>::empty());
                        Some(Msg::FilteredFilesReceived(none))
                    },
                }
            },
            Call::LockFile { path } => {
                let locked = match reply {
                    Ok(response) => lock_file(response),
                    Err(_) => Err(String::new()),
                };
                match locked {
                    Ok(entry) => Some(Msg::FileLocked(Some(entry))),
                    Err(_) => Some(Msg::FileLocked(None)),
                }
            },
            Call::UnlockFile { id, path } => {
                let unlocked = match reply {
                    Ok(response) => unlock_file(response),
                    Err(_) => Err(String::new()),
                };
                match unlocked {
                    Ok(_) => Some(Msg::FileUnlocked(path)),
                    Err(_) => Some(Msg::FileUnlocked(String::new())),
                }
            },
        }
    }
}

/// What follows a message besides the change of the session.
#[derive(Debug, PartialEq, Eq)]
pub enum Effect {
    /// Nothing.
    Idle,
    /// Make the call, and feed its answer back as a message.
    Call(Call),
    /// Feed these messages back.
    Feed(Vec<Msg>),
}

/// An effect as plain values.
pub enum EffectView {
    Idle,
    Call(CallView),
    Feed(Seq<MsgView>),
}

impl View for Effect {
    type V = EffectView;

    open spec fn view(&self) -> EffectView {
        match *self {
            Effect::Idle => EffectView::Idle,
            Effect::Call(call) => EffectView::Call(call@),
            Effect::Feed(messages) => EffectView::Feed(msgs(messages@)),
        }
    }
}

/// What a message leads to: whether the lists are to be drawn again, and
/// the effect.
#[derive(Debug, PartialEq, Eq)]
pub struct Update {
    pub render: bool,
    pub effect: Effect,
}

/// One line of the list that is shown: a file, who has locked it (the empty
/// name where nobody has), and the message that its button sends.
#[derive(Debug, PartialEq, Eq)]
pub struct Row {
    pub file: String,
    pub locked_by: String,
    pub action: Msg,
}

/// A row as plain values.
pub struct RowView {
    pub file: Seq<char>,
    pub locked_by: Seq<char>,
    pub action: MsgView,
}

impl View for Row {
    type V = RowView;

    open spec fn view(&self) -> RowView {
        RowView { file: self.file@, locked_by: self.locked_by@, action: self.action@ }
    }
}

/// The rows of `s` as plain values.
pub open spec fn rows_of(s: Seq<Row>) -> Seq<RowView> {
    Seq::new(s.len(), |i: int| s[i]@)
}

/// The row for `file` under the locks `locks`: a locked file names its
/// owner and offers to unlock, another one offers to lock.
pub open spec fn row_for(locks: Locks, file: Seq<char>) -> RowView {
    if locks.contains_key(file) {
        RowView { file, locked_by: locks[file].0, action: MsgView::UnlockFile(file) }
    } else {
        RowView { file, locked_by: Seq::empty(), action: MsgView::LockFile(file) }
    }
}

/// The session as plain values.
pub struct ModelView {
    /// The repository worked on; empty while none is picked.
    pub repo: Seq<char>,
    /// What the search box holds.
    pub filter: Seq<char>,
    /// The session's copy of the lock registry.
    pub locks: Locks,
    /// The last search result that came in.
    pub filtered_files: Seq<Seq<char>>,
    pub list_type: ListType,
}

/// The session after `msg`.
pub open spec fn next_model(model: ModelView, msg: MsgView) -> ModelView {
    match msg {
        MsgView::RepoPicked { repo } => if repo.len() > 0 {
            ModelView {
                repo,
                filter: Seq::empty(),
                locks: model.locks,
                filtered_files: Seq::empty(),
                list_type: ListType::LockedFiles,
            }
        } else {
            model
        },
        MsgView::FilterChanged(filter) => ModelView {
            filter,
            list_type: if filter.len() == 0 {
                ListType::LockedFiles
            } else {
                ListType::SearchResult
            },
            ..model
        },
        MsgView::LockedFilesReceived(lines) => if first_malformed(lines) is None {
            ModelView { locks: locks_of(listed(lines)), ..model }
        } else {
            model
        },
        MsgView::FilteredFilesReceived(files) => ModelView { filtered_files: files, ..model },
        MsgView::FileLocked(Some(entry)) => match entry_holding(entry) {
            Some(holding) => ModelView {
                locks: model.locks.insert(holding.path, (holding.owner, holding.id)),
                ..model
            },
            None => model,
        },
        MsgView::FileUnlocked(path) => ModelView { locks: model.locks.remove(path), ..model },
        _ => model,
    }
}

/// Whether the lists are to be drawn again after `msg`.
pub open spec fn renders(msg: MsgView) -> bool {
    match msg {
        MsgView::Echo { message } => true,
        MsgView::PickRepo => true,
        MsgView::RepoPicked { repo } => repo.len() > 0,
        MsgView::FilterChanged(filter) => true,
        MsgView::LockedFilesReceived(lines) => first_malformed(lines) is None,
        MsgView::FilteredFilesReceived(files) => true,
        MsgView::FileLocked(Some(entry)) => entry_holding(entry) is Some,
        MsgView::FileUnlocked(path) => true,
        _ => false,
    }
}

/// The effect of `msg` on the session `model` (as it is before the
/// message), where `order` is the order in which unlocking everything takes
/// the locked paths. A search box that was emptied asks for the locked
/// files, not for a search, which would find nothing.
pub open spec fn effect_of(model: ModelView, msg: MsgView, order: Seq<Seq<char>>) -> EffectView {
    match msg {
        MsgView::Echo { message } => EffectView::Call(CallView::Echo { message }),
        MsgView::PickRepo => EffectView::Call(CallView::PickRepo),
        MsgView::RepoPicked { repo } => if repo.len() > 0 {
            EffectView::Feed(seq![MsgView::GetLockedFiles])
        } else {
            EffectView::Idle
        },
        MsgView::FilterChanged(filter) => if filter.len() > 0 {
            EffectView::Call(CallView::GetFilteredFiles { filter })
        } else {
            EffectView::Feed(seq![MsgView::GetLockedFiles])
        },
        MsgView::GetLockedFiles => if model.repo.len() > 0 {
            EffectView::Call(CallView::GetLockedFiles)
        } else {
            EffectView::Idle
        },
        MsgView::LockedFilesReceived(lines) => EffectView::Idle,
        MsgView::FilteredFilesReceived(files) => EffectView::Idle,
        MsgView::LockFile(path) => if model.locks.contains_key(path) {
            EffectView::Idle
        } else {
            EffectView::Call(CallView::LockFile { path })
        },
        MsgView::UnlockFile(path) => if model.locks.contains_key(path) {
            EffectView::Call(CallView::UnlockFile { id: model.locks[path].1, path })
        } else {
            EffectView::Idle
        },
        MsgView::FileLocked(Some(entry)) => if entry_holding(entry) is Some {
            EffectView::Feed(seq![MsgView::GetLockedFiles])
        } else {
            EffectView::Idle
        },
        MsgView::FileLocked(None) => EffectView::Idle,
        MsgView::FileUnlocked(path) => EffectView::Feed(seq![MsgView::GetLockedFiles]),
        MsgView::UnlockAll => EffectView::Feed(
            Seq::new(order.len(), |i: int| MsgView::UnlockFile(order[i])),
        ),
    }
}

/// The files of `rows`, row by row.
pub open spec fn files_of(rows: Seq<RowView>) -> Seq<Seq<char>> {
    Seq::new(rows.len(), |i: int| rows[i].file)
}

/// Whether `rows` is the list to show for `model`. The search result is
/// shown file by file in its order. The locked files are shown one row for
/// each locked path, in an order that is not laid down. Every row is as
/// `row_for` says.
pub open spec fn is_shown(model: ModelView, rows: Seq<RowView>) -> bool {
    &&& forall|i: int| 0 <= i < rows.len() ==> #[trigger] rows[i] == row_for(
        model.locks,
        rows[i].file,
    )
    &&& match model.list_type {
        ListType::SearchResult => files_of(rows) == model.filtered_files,
        ListType::LockedFiles => is_order_of(model.locks, files_of(rows)),
    }
}

/// The paths that `effect` unlocks one by one; none where it feeds back
/// anything else.
pub open spec fn unlocked_by(effect: EffectView) -> Seq<Seq<char>> {
    match effect {
        EffectView::Feed(messages) => Seq::new(
            messages.len(),
            |i: int|
                match messages[i] {
                    MsgView::UnlockFile(path) => path,
                    _ => Seq::empty(),
                },
        ),
        _ => Seq::empty(),
    }
}

/// The session: the repository worked on, the search box, the last search
/// result, which list is shown, and a copy of the lock registry.
#[derive(Debug)]
pub struct Model {
    repo: String,
    filter: String,
    locked_files: LockRegistry,
    filtered_files: Vec<String>,
    list_type: ListType,
}

impl View for Model {
    type V = ModelView;

    closed spec fn view(&self) -> ModelView {
        ModelView {
            repo: self.repo@,
            filter: self.filter@,
            locks: self.locked_files@,
            filtered_files: texts(self.filtered_files@),
            list_type: self.list_type,
        }
    }
}

impl Model {
    /// The session at its start: no repository, an empty search box, no
    /// lock known, and the list of locked files shown.
    pub fn create() -> (out: Self)
        ensures
            out@ == (ModelView {
                repo: Seq::empty(),
                filter: Seq::empty(),
                locks: Locks::empty(),
                filtered_files: Seq::empty(),
                list_type: ListType::LockedFiles,
            }),
    {
        let filtered_files: Vec<String> = Vec::new();
        assert(texts(filtered_files@) =~= Seq::<Seq<char>>::empty());
        Model {
            repo: String::new(),
            filter: String::new(),
            locked_files: LockRegistry::new(),
            filtered_files,
            list_type: ListType::LockedFiles,
        }
    }

    /// The repository worked on; empty while none is picked.
    pub fn repo(&self) -> (out: &String)
        ensures
            out@ == self@.repo,
    {
        &self.repo
    }

    /// What the search box holds.
    pub fn filter(&self) -> (out: &String)
        ensures
            out@ == self@.filter,
    {
        &self.filter
    }

    /// The session's copy of the lock registry.
    pub fn locked_files(&self) -> (out: &LockRegistry)
        ensures
            out@ == self@.locks,
    {
        &self.locked_files
    }

    /// The last search result that came in.
    pub fn filtered_files(&self) -> (out: &Vec<String>)
        ensures
            texts(out@) == self@.filtered_files,
    {
        &self.filtered_files
    }

    /// Which list is shown.
    pub fn list_type(&self) -> (out: ListType)
        ensures
            out == self@.list_type,
    {
        self.list_type
    }

    /// Takes up `msg`: the session changes as `next_model` says, the lists
    /// are drawn again where `renders` says so, and the effect is as
    /// `effect_of` says. Unlocking everything feeds back one message for each
    /// locked path, in an order that is not laid down.
    pub fn update(&mut self, msg: Msg) -> (out: Update)
        ensures
            final(self)@ == next_model(old(self)@, msg@),
            out.render == renders(msg@),
            out.effect@ == effect_of(old(self)@, msg@, unlocked_by(out.effect@)),
            msg is UnlockAll ==> is_order_of(old(self)@.locks, unlocked_by(out.effect@)),
    {
        match msg {
            Msg::Echo { message } => Update {
                render: true,
                effect: Effect::Call(Call::Echo { message }),
            },
            Msg::PickRepo => Update { render: true, effect: Effect::Call(Call::PickRepo) },
            Msg::RepoPicked { repo } => {
                if !repo.as_str().is_empty() {
                    self.repo = repo;
                    self.list_type = ListType::LockedFiles;
                    self.filtered_files = Vec::new();
                    self.filter = String::new();
                    assert(texts(self.filtered_files@) =~= Seq::<Seq<char>>::empty());
                    Update { render: true, effect: Effect::Feed(refresh()) }
                } else {
                    Update { render: false, effect: Effect::Idle }
                }
            },
            Msg::FilterChanged(filter) => {
                let effect = if filter.as_str().is_empty() {
                    self.list_type = ListType::LockedFiles;
                    Effect::Feed(refresh())
                } else {
                    self.list_type = ListType::SearchResult;
                    Effect::Call(Call::GetFilteredFiles { filter: filter.clone() })
                };
                self.filter = filter;
                Update { render: true, effect }
            },
            Msg::GetLockedFiles => {
                if self.repo.as_str().is_empty() {
                    Update { render: false, effect: Effect::Idle }
                } else {
                    Update { render: false, effect: Effect::Call(Call::GetLockedFiles) }
                }
            },
            Msg::LockedFilesReceived(lines) => {
                match parse_listing(&lines) {
                    Ok(list) => {
                        self.locked_files = LockRegistry::from_holdings(&list);
                        Update { render: true, effect: Effect::Idle }
                    },
                    Err(_) => Update { render: false, effect: Effect::Idle },
                }
            },
            Msg::FilteredFilesReceived(files) => {
                self.filtered_files = files;
                Update { render: true, effect: Effect::Idle }
            },
            Msg::LockFile(path) => {
                if self.locked_files.contains(&path) {
                    Update { render: false, effect: Effect::Idle }
                } else {
                    Update { render: false, effect: Effect::Call(Call::LockFile { path }) }
                }
            },
            Msg::UnlockFile(path) => {
                match self.locked_files.get(&path) {
                    Some((_, id)) => Update {
                        render: false,
                        effect: Effect::Call(Call::UnlockFile { id, path }),
                    },
                    None => Update { render: false, effect: Effect::Idle },
                }
            },
            Msg::FileLocked(None) => Update { render: false, effect: Effect::Idle },
            Msg::FileLocked(Some(entry)) => {
                match holding_of_entry(&entry) {
                    Some(holding) => {
                        self.locked_files.insert(holding.path, holding.owner, holding.id);
                        Update { render: true, effect: Effect::Feed(refresh()) }
                    },
                    None => Update { render: false, effect: Effect::Idle },
                }
            },
            Msg::FileUnlocked(path) => {
                self.locked_files.remove(&path);
                Update { render: true, effect: Effect::Feed(refresh()) }
            },
            Msg::UnlockAll => {
                let entries = self.locked_files.entries();
                let ghost all = holdings(entries@);
                let mut messages: Vec<Msg> = Vec::new();
                let mut i: usize = 0;
                while i < entries.len()
                    invariant
                        i <= entries@.len(),
                        all == holdings(entries@),
                        messages@.len() == i,
                        forall|k: int|
                            0 <= k < i ==> (#[trigger] messages@[k])@ == MsgView::UnlockFile(
                                all[k].path,
                            ),
                    decreases entries@.len() - i,
                {
                    messages.push(Msg::UnlockFile(entries[i].path.clone()));
                    i += 1;
                }
                let effect = Effect::Feed(messages);
                proof {
                    let order = unlocked_by(effect@);
                    assert(order.len() == all.len());
                    assert forall|k: int| 0 <= k < order.len() implies #[trigger] order[k]
                        == all[k].path by {
                        assert(msgs(messages@)[k] == messages@[k]@);
                    }
                    assert(msgs(messages@) =~= Seq::new(
                        order.len(),
                        |i: int| MsgView::UnlockFile(order[i]),
                    ));
                    assert(order =~= paths_of(all));
                    lemma_paths_are_order(all);
                }
                Update { render: false, effect }
            },
        }
    }

    /// The rows of the list that is shown, as `is_shown` says.
    pub fn rows(&self) -> (out: Vec<Row>)
        ensures
            is_shown(self@, rows_of(out@)),
    {
        let mut out: Vec<Row> = Vec::new();
        match self.list_type {
            ListType::SearchResult => {
                let mut i: usize = 0;
                while i < self.filtered_files.len()
                    invariant
                        i <= self.filtered_files@.len(),
                        out@.len() == i,
                        forall|k: int|
                            0 <= k < i ==> (#[trigger] out@[k])@ == row_for(
                                self.locked_files@,
                                self.filtered_files@[k]@,
                            ),
                    decreases self.filtered_files@.len() - i,
                {
                    let file = self.filtered_files[i].clone();
                    let row = match self.locked_files.get(&file) {
                        Some((owner, _)) => Row {
                            file: file.clone(),
                            locked_by: owner,
                            action: Msg::UnlockFile(file),
                        },
                        None => Row {
                            file: file.clone(),
                            locked_by: String::new(),
                            action: Msg::LockFile(file),
                        },
                    };
                    out.push(row);
                    i += 1;
                }
                assert(files_of(rows_of(out@)) =~= texts(self.filtered_files@));
            },
            ListType::LockedFiles => {
                let entries = self.locked_files.entries();
                let ghost all = holdings(entries@);
                let mut i: usize = 0;
                while i < entries.len()
                    invariant
                        i <= entries@.len(),
                        all == holdings(entries@),
                        distinct_paths(all),
                        locks_of(all) == self.locked_files@,
                        out@.len() == i,
                        forall|k: int|
                            0 <= k < i ==> (#[trigger] out@[k])@ == row_for(
                                self.locked_files@,
                                all[k].path,
                            ),
                    decreases entries@.len() - i,
                {
                    proof {
                        lemma_locks_of_value(all, i as int);
                    }
                    let file = entries[i].path.clone();
                    out.push(
                        Row {
                            file: file.clone(),
                            locked_by: entries[i].owner.clone(),
                            action: Msg::UnlockFile(file),
                        },
                    );
                    i += 1;
                }
                proof {
                    let order = files_of(rows_of(out@));
                    assert forall|k: int| 0 <= k < order.len() implies #[trigger] order[k]
                        == all[k].path by {
                        assert(rows_of(out@)[k] == out@[k]@);
                    }
                    assert(order =~= paths_of(all));
                    lemma_paths_are_order(all);
                }
            },
        }
        out
    }
}

/// The one message that asks for the locked files anew.
fn refresh() -> (out: Vec<Msg>)
    ensures
        msgs(out@) == seq![MsgView::GetLockedFiles],
{
    let mut out: Vec<Msg> = Vec::new();
    out.push(Msg::GetLockedFiles);
    assert(msgs(out@) =~= seq![MsgView::GetLockedFiles]);
    out
}

} // verus!
