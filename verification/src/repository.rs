//! The repository state: the one selected repository and the list of its
//! tracked files as the locking tool last gave it.

use vstd::prelude::*;
use crate::text::texts;

verus! {

/// The selected repository and its tracked files. While no repository is
/// selected there are no tracked files.
#[derive(Debug)]
pub struct RepositoryState {
    path: Option<String>,
    tracked_files: Vec<String>,
}

/// A repository state as plain values.
pub struct RepositoryView {
    pub path: Option<Seq<char>>,
    pub tracked_files: Seq<Seq<char>>,
}

impl View for RepositoryState {
    type V = RepositoryView;

    closed spec fn view(&self) -> RepositoryView {
        RepositoryView {
            path: match self.path {
                Some(p) => Some(p@),
                None => None,
            },
            tracked_files: texts(self.tracked_files@),
        }
    }
}

impl RepositoryState {
    #[verifier::type_invariant]
    spec fn well_formed(&self) -> bool {
        self.path is None ==> self.tracked_files@.len() == 0
    }

    /// The state in which no repository is selected.
    pub fn new() -> (out: Self)
        ensures
            out@.path is None,
            out@.tracked_files == Seq::<Seq<char>>::empty(),
    {
        let tracked_files: Vec<String> = Vec::new();
        assert(texts(tracked_files@) =~= Seq::<Seq<char>>::empty());
        RepositoryState { path: None, tracked_files }
    }

    /// The path of the selected repository, if one is selected.
    pub fn path(&self) -> (out: &Option<String>)
        ensures
            match *out {
                Some(p) => self@.path == Some(p@),
                None => self@.path is None,
            },
    {
        &self.path
    }

    /// The tracked files of the selected repository, in the order in which
    /// they were listed; none while no repository is selected.
    pub fn tracked_files(&self) -> (out: &Vec<String>)
        ensures
            texts(out@) == self@.tracked_files,
            self@.path is None ==> out@.len() == 0,
    {
        proof {
            use_type_invariant(self);
        }
        &self.tracked_files
    }

    /// Selects the repository at `path` with the tracked files `files`.
    /// Nothing of the former state stays.
    pub fn select(&mut self, path: String, files: Vec<String>)
        ensures
            final(self)@.path == Some(path@),
            final(self)@.tracked_files == texts(files@),
    {
        self.path = Some(path);
        self.tracked_files = files;
    }
}

} // verus!
