//! The calling side of the dispatch channel: what each kind of call takes
//! out of the response that came back for it.

use vstd::prelude::*;
use crate::protocol::{LockEntry, Response, ResponseView};
use crate::text::texts;

verus! {

/// The path that answers a request to pick a repository; any other response
/// is an error.
pub fn pick_repo(response: Response) -> (out: Result<String, String>)
    ensures
        match response@ {
            ResponseView::PickRepo { path } => out matches Ok(p) && p@ == path,
            _ => out matches Err(m) && m@ == "failed to get pick repo response"@,
        },
{
    match response {
        Response::PickRepo { path } => Ok(path),
        _ => Err("failed to get pick repo response".to_owned()),
    }
}

/// The lines that answer a request for the locked files; any other response
/// is an error.
pub fn get_locked_files(response: Response) -> (out: Result<Vec<String>, String>)
    ensures
        match response@ {
            ResponseView::GetLockedFiles { locked_files } => out matches Ok(lines) && texts(lines@)
                == locked_files,
            _ => out matches Err(m) && m@ == "failed to get locked files response"@,
        },
{
    match response {
        Response::GetLockedFiles { locked_files } => Ok(locked_files),
        _ => Err("failed to get locked files response".to_owned()),
    }
}

/// The files that answer a search; any other response is an error.
pub fn get_filtered_files(response: Response) -> (out: Result<Vec<String>, String>)
    ensures
        match response@ {
            ResponseView::GetFilteredFiles { filtered_files } => out matches Ok(files) && texts(
                files@,
            ) == filtered_files,
            _ => out matches Err(m) && m@ == "failed to get filtered files response"@,
        },
{
    match response {
        Response::GetFilteredFiles { filtered_files } => Ok(filtered_files),
        _ => Err("failed to get filtered files response".to_owned()),
    }
}

/// The lock number that answers a request to unlock; any other response is
/// an error.
pub fn unlock_file(response: Response) -> (out: Result<u32, String>)
    ensures
        match response@ {
            ResponseView::UnlockFile { id } => out == Ok::<u32, String>(id),
            _ => out matches Err(m) && m@ == "failed to get unlock file response"@,
        },
{
    match response {
        Response::UnlockFile { id } => Ok(id),
        _ => Err("failed to get unlock file response".to_owned()),
    }
}

/// The lock entry that answers a request to lock; any other response is an
/// error.
pub fn lock_file(response: Response) -> (out: Result<LockEntry, String>)
    ensures
        match response@ {
            ResponseView::LockFile { lock_entry } => out matches Ok(entry) && entry@ == lock_entry,
            _ => out matches Err(m) && m@ == "failed to get lock file response"@,
        },
{
    match response {
        Response::LockFile { lock_entry } => Ok(lock_entry),
        _ => Err("failed to get lock file response".to_owned()),
    }
}

} // verus!
