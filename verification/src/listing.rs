//! Reading the lock listing of the locking tool. A line of the listing holds
//! whitespace-separated tokens: the path, the owner's name, and a third token
//! whose first three characters are a marker and whose rest is the lock's
//! number in decimal. Whatever follows the third token is not read.

use vstd::prelude::*;
use crate::protocol::{Failure, FailureView, LockEntry, LockEntryView};
use crate::registry::{holdings, Holding, HoldingView};
use crate::text::{chars_of, number_of, parse_number, split_tokens, texts, tokens_of};

verus! {

/// How many characters stand before the number in the third token.
pub const MARKER_LENGTH: usize = 3;

/// What a line of the listing says, if it is well formed.
pub open spec fn line_holding(line: Seq<char>) -> Option<HoldingView> {
    let tokens = tokens_of(line);
    if tokens.len() >= 3 && tokens[2].len() >= MARKER_LENGTH {
        match number_of(tokens[2].skip(MARKER_LENGTH as int)) {
            Some(id) => Some(HoldingView { path: tokens[0], owner: tokens[1], id }),
            None => None,
        }
    } else {
        None
    }
}

/// Reads one line of the listing, as `line_holding` says: a line that is
/// not well formed gives nothing.
pub fn parse_lock_line(line: &str) -> (out: Option<Holding>)
    ensures
        match out {
            Some(holding) => line_holding(line@) == Some(holding@),
            None => line_holding(line@) is None,
        },
{
    let tokens = split_tokens(line);
    if tokens.len() < 3 {
        return None;
    }
    assert(texts(tokens@)[0] == tokens@[0]@);
    assert(texts(tokens@)[1] == tokens@[1]@);
    assert(texts(tokens@)[2] == tokens@[2]@);
    let third = chars_of(tokens[2].as_str());
    if third.len() < MARKER_LENGTH {
        return None;
    }
    match parse_number(&third, MARKER_LENGTH) {
        Some(id) => Some(Holding { path: tokens[0].clone(), owner: tokens[1].clone(), id }),
        None => None,
    }
}

/// The position of the first line at or after `from` that is not well
/// formed.
pub open spec fn malformed_from(lines: Seq<Seq<char>>, from: int) -> Option<int>
    decreases lines.len() - from,
{
    if from < 0 || from >= lines.len() {
        None
    } else if line_holding(lines[from]) is None {
        Some(from)
    } else {
        malformed_from(lines, from + 1)
    }
}

/// The position of the first line of the listing that is not well formed.
pub open spec fn first_malformed(lines: Seq<Seq<char>>) -> Option<int> {
    malformed_from(lines, 0)
}

/// What the lines of a listing say, line by line. It is meant for a listing
/// whose lines are all well formed.
pub open spec fn listed(lines: Seq<Seq<char>>) -> Seq<HoldingView> {
    Seq::new(lines.len(), |i: int| line_holding(lines[i])->0)
}

/// Where no line at or after `from` is malformed, every such line is well
/// formed; otherwise the position found is that of the first malformed one.
pub proof fn lemma_malformed_from(lines: Seq<Seq<char>>, from: int)
    requires
        0 <= from,
    ensures
        match malformed_from(lines, from) {
            Some(k) => {
                &&& from <= k < lines.len()
                &&& line_holding(lines[k]) is None
                &&& forall|j: int| from <= j < k ==> line_holding(#[trigger] lines[j]) is Some
            },
            None => forall|j: int|
                from <= j < lines.len() ==> line_holding(#[trigger] lines[j]) is Some,
        },
    decreases lines.len() - from,
{
    if from < lines.len() && line_holding(lines[from]) is Some {
        lemma_malformed_from(lines, from + 1);
    }
}

/// Reads a whole listing. Where every line is well formed the result holds
/// what each line says, in the order of the lines; otherwise it is the
/// failure that names the first line that is not.
pub fn parse_listing(lines: &Vec<String>) -> (out: Result<Vec<Holding>, Failure>)
    ensures
        match out {
            Ok(list) => first_malformed(texts(lines@)) is None && holdings(list@) == listed(
                texts(lines@),
            ),
            Err(failure) => {
                &&& first_malformed(texts(lines@)) is Some
                &&& failure@ == (FailureView::MalformedAdapterOutput {
                    text: texts(lines@)[first_malformed(texts(lines@))->0],
                })
            },
        },
{
    let ghost all = texts(lines@);
    let mut list: Vec<Holding> = Vec::new();
    let mut i: usize = 0;
    while i < lines.len()
        invariant
            i <= lines@.len(),
            all == texts(lines@),
            malformed_from(all, i as int) == first_malformed(all),
            list@.len() == i,
            forall|k: int| 0 <= k < i ==> line_holding(all[k]) == Some(#[trigger] list@[k]@),
        decreases lines@.len() - i,
    {
        assert(all[i as int] == lines@[i as int]@);
        match parse_lock_line(lines[i].as_str()) {
            Some(holding) => {
                list.push(holding);
            },
            None => {
                return Err(Failure::MalformedAdapterOutput { text: lines[i].clone() });
            },
        }
        i += 1;
    }
    assert(holdings(list@) =~= listed(all));
    Ok(list)
}

/// What a lock entry adds to the registry, if its number can be read: the
/// entry's path, its owner's name, and its `id` as a number.
pub open spec fn entry_holding(entry: LockEntryView) -> Option<HoldingView> {
    match number_of(entry.id) {
        Some(id) => Some(HoldingView { path: entry.path, owner: entry.owner_name, id }),
        None => None,
    }
}

/// Reads a lock entry as a holding, as `entry_holding` says.
pub fn holding_of_entry(entry: &LockEntry) -> (out: Option<Holding>)
    ensures
        match out {
            Some(holding) => entry_holding(entry@) == Some(holding@),
            None => entry_holding(entry@) is None,
        },
{
    let digits = chars_of(entry.id.as_str());
    assert(digits@.skip(0) =~= digits@);
    match parse_number(&digits, 0) {
        Some(id) => Some(Holding { path: entry.path.clone(), owner: entry.owner.name.clone(), id }),
        None => None,
    }
}

} // verus!
