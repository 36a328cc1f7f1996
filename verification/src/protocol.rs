//! The tagged request and response values that cross the dispatch channel,
//! the typed failures, and the mathematical view of each.

use vstd::prelude::*;
use vstd::string::StringExecFns;
use crate::text::texts;

verus! {

/// Who holds a lock.
#[derive(Debug, PartialEq, Eq)]
pub struct Owner {
    pub name: String,
}

/// One outstanding lock, as the locking tool reports it.
#[derive(Debug, PartialEq, Eq)]
pub struct LockEntry {
    pub id: String,
    pub path: String,
    pub owner: Owner,
    pub locked_at: String,
}

/// A lock entry as plain values.
pub struct LockEntryView {
    pub id: Seq<char>,
    pub path: Seq<char>,
    pub owner_name: Seq<char>,
    pub locked_at: Seq<char>,
}

impl View for LockEntry {
    type V = LockEntryView;

    open spec fn view(&self) -> LockEntryView {
        LockEntryView {
            id: self.id@,
            path: self.path@,
            owner_name: self.owner.name@,
            locked_at: self.locked_at@,
        }
    }
}

impl Clone for Owner {
    fn clone(&self) -> (out: Self)
        ensures
            out == *self,
    {
        Owner { name: self.name.clone() }
    }
}

impl Clone for LockEntry {
    fn clone(&self) -> (out: Self)
        ensures
            out == *self,
    {
        LockEntry {
            id: self.id.clone(),
            path: self.path.clone(),
            owner: self.owner.clone(),
            locked_at: self.locked_at.clone(),
        }
    }
}

/// A command. Every command that leads to outside work names the two
/// destinations at which its result is delivered: `callback` for a response,
/// `error` for a failure. The dispatcher treats both as opaque.
#[derive(Debug, PartialEq, Eq)]
pub enum Request {
    Echo { message: String },
    PickRepo { callback: String, error: String },
    GetLockedFiles { callback: String, error: String },
    GetFilteredFiles { filter: String, callback: String, error: String },
    LockFile { path: String, callback: String, error: String },
    UnlockFile { id: u32, callback: String, error: String },
}

/// A request as plain values.
pub enum RequestView {
    Echo { message: Seq<char> },
    PickRepo { callback: Seq<char>, error: Seq<char> },
    GetLockedFiles { callback: Seq<char>, error: Seq<char> },
    GetFilteredFiles { filter: Seq<char>, callback: Seq<char>, error: Seq<char> },
    LockFile { path: Seq<char>, callback: Seq<char>, error: Seq<char> },
    UnlockFile { id: u32, callback: Seq<char>, error: Seq<char> },
}

impl View for Request {
    type V = RequestView;

    open spec fn view(&self) -> RequestView {
        match *self {
            Request::Echo { message } => RequestView::Echo { message: message@ },
            Request::PickRepo { callback, error } => RequestView::PickRepo {
                callback: callback@,
                error: error@,
            },
            Request::GetLockedFiles { callback, error } => RequestView::GetLockedFiles {
                callback: callback@,
                error: error@,
            },
            Request::GetFilteredFiles { filter, callback, error } => RequestView::GetFilteredFiles {
                filter: filter@,
                callback: callback@,
                error: error@,
            },
            Request::LockFile { path, callback, error } => RequestView::LockFile {
                path: path@,
                callback: callback@,
                error: error@,
            },
            Request::UnlockFile { id, callback, error } => RequestView::UnlockFile {
                id,
                callback: callback@,
                error: error@,
            },
        }
    }
}

/// The answer to a command that succeeded.
#[derive(Debug, PartialEq, Eq)]
pub enum Response {
    /// The selected repository; the empty path says that nothing was selected.
    PickRepo { path: String },
    /// The raw lines of the lock listing.
    GetLockedFiles { locked_files: Vec<String> },
    /// The best matches among the tracked files, best first.
    GetFilteredFiles { filtered_files: Vec<String> },
    LockFile { lock_entry: LockEntry },
    UnlockFile { id: u32 },
}

/// A response as plain values.
pub enum ResponseView {
    PickRepo { path: Seq<char> },
    GetLockedFiles { locked_files: Seq<Seq<char>> },
    GetFilteredFiles { filtered_files: Seq<Seq<char>> },
    LockFile { lock_entry: LockEntryView },
    UnlockFile { id: u32 },
}

impl View for Response {
    type V = ResponseView;

    open spec fn view(&self) -> ResponseView {
        match *self {
            Response::PickRepo { path } => ResponseView::PickRepo { path: path@ },
            Response::GetLockedFiles { locked_files } => ResponseView::GetLockedFiles {
                locked_files: texts(locked_files@),
            },
            Response::GetFilteredFiles { filtered_files } => ResponseView::GetFilteredFiles {
                filtered_files: texts(filtered_files@),
            },
            Response::LockFile { lock_entry } => ResponseView::LockFile { lock_entry: lock_entry@ },
            Response::UnlockFile { id } => ResponseView::UnlockFile { id },
        }
    }
}

/// Why a command was not carried out.
#[derive(Debug, PartialEq, Eq)]
pub enum Failure {
    /// The outside tool could not be run or reported an error; `message`
    /// says what happened.
    AdapterFailure { message: String },
    /// The outside tool answered, but `text` could not be read: a line of
    /// the lock listing, or the number of a lock entry.
    MalformedAdapterOutput { text: String },
    /// The lock registry already holds a lock on `path`; the caller
    /// refreshes the registry and tries again.
    StaleRegistryConflict { path: String },
    /// The request itself could not be decoded.
    DecodingFailure { message: String },
}

/// A failure as plain values.
pub enum FailureView {
    AdapterFailure { message: Seq<char> },
    MalformedAdapterOutput { text: Seq<char> },
    StaleRegistryConflict { path: Seq<char> },
    DecodingFailure { message: Seq<char> },
}

impl View for Failure {
    type V = FailureView;

    open spec fn view(&self) -> FailureView {
        match *self {
            Failure::AdapterFailure { message } => FailureView::AdapterFailure {
                message: message@,
            },
            Failure::MalformedAdapterOutput { text } => FailureView::MalformedAdapterOutput {
                text: text@,
            },
            Failure::StaleRegistryConflict { path } => FailureView::StaleRegistryConflict {
                path: path@,
            },
            Failure::DecodingFailure { message } => FailureView::DecodingFailure {
                message: message@,
            },
        }
    }
}

/// What a failure says in words: the tool's own message for a failure of the
/// tool, and for the others a fixed opening followed by the text, the path
/// or the message that the failure carries.
pub open spec fn failure_message(failure: FailureView) -> Seq<char> {
    match failure {
        FailureView::AdapterFailure { message } => message,
        FailureView::MalformedAdapterOutput { text } => "malformed output of the lock tool: "@
            + text,
        FailureView::StaleRegistryConflict { path } => "already locked, refresh and retry: "@
            + path,
        FailureView::DecodingFailure { message } => "request not understood: "@ + message,
    }
}

impl Failure {
    /// The failure in words, as `failure_message` says.
    pub fn message(&self) -> (out: String)
        ensures
            out@ == failure_message(self@),
    {
        match self {
            Failure::AdapterFailure { message } => message.clone(),
            Failure::MalformedAdapterOutput { text } => {
                let mut out = String::from_str("malformed output of the lock tool: ");
                out.append(text.as_str());
                out
            },
            Failure::StaleRegistryConflict { path } => {
                let mut out = String::from_str("already locked, refresh and retry: ");
                out.append(path.as_str());
                out
            },
            Failure::DecodingFailure { message } => {
                let mut out = String::from_str("request not understood: ");
                out.append(message.as_str());
                out
            },
        }
    }
}

} // verus!
