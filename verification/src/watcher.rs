//! Reconciling a changed path with what is on disk: an event says that
//! something happened to a path and no more, so what to do follows from what
//! the path is now. A path that no longer exists gets its chunks pruned; one
//! that exists and is still allowed gets indexed anew.

use crate::gitignore::{
    file_views, is_ignored, is_reached, law_walk_reaches_what_is_not_ignored, path_is_ignored,
    IgnoreFile, IgnoreFileView,
};
use crate::resource::{indexable, indexable_extension};
use crate::text::texts;
use vstd::prelude::*;

verus! {

/// What is to be found at a path at the time it is reconciled.
#[derive(Debug, Clone)]
pub struct PathState {
    /// The names that lead to the path from the resource's root; none if it
    /// does not lie under the root.
    pub names: Option<Vec<String>>,
    /// Whether the path is a directory.
    pub is_dir: bool,
    /// Whether the path is a regular file.
    pub is_file: bool,
    /// The last component of the path, if it has one.
    pub file_name: Option<String>,
}

/// What is done about a path.
#[derive(Debug, Clone, PartialEq, Eq)]
pub enum Reconciliation {
    /// Nothing, and nothing about the paths after it either.
    Stop,
    /// The file is indexed anew; its extension is given.
    Index(String),
    /// What is stored for the path is removed.
    Prune,
}

/// What a [`Reconciliation`] holds.
pub enum ReconciliationView {
    Stop,
    Index(Seq<char>),
    Prune,
}

impl View for Reconciliation {
    type V = ReconciliationView;

    open spec fn view(&self) -> ReconciliationView {
        match self {
            Reconciliation::Stop => ReconciliationView::Stop,
            Reconciliation::Index(extension) => ReconciliationView::Index(extension@),
            Reconciliation::Prune => ReconciliationView::Prune,
        }
    }
}

impl PathState {
    /// Whether the path lies under the root and no `.gitignore` file ignores
    /// it.
    pub open spec fn is_allowed(self, files: Seq<IgnoreFileView>) -> bool {
        match self.names {
            Some(names) => !is_ignored(files, texts(names@), self.is_dir),
            None => false,
        }
    }

    /// The extension of the file to index, if there is one at the path: a
    /// regular file that is allowed, with a name that is indexed.
    pub open spec fn to_index(self, files: Seq<IgnoreFileView>) -> Option<Seq<char>> {
        match self.file_name {
            Some(name) => if self.is_allowed(files) && !self.is_dir && self.is_file {
                indexable(name@)
            } else {
                None
            },
            None => None,
        }
    }
}

/// Decides what is done about a path that changed. One that was deleted or
/// renamed away, is ignored by now, or is no file of a kind that is indexed,
/// gets whatever is stored for it pruned.
pub fn reconcile(cancelled: bool, files: &Vec<IgnoreFile>, path: &PathState) -> (r: Reconciliation)
    ensures
        r@ == if cancelled {
            ReconciliationView::Stop
        } else {
            match path.to_index(file_views(files@)) {
                Some(extension) => ReconciliationView::Index(extension),
                None => ReconciliationView::Prune,
            }
        },
{
    if cancelled {
        return Reconciliation::Stop;
    }
    let allowed = match &path.names {
        Some(names) => !path_is_ignored(files, names, path.is_dir),
        None => false,
    };
    if allowed && !path.is_dir && path.is_file {
        if let Some(name) = &path.file_name {
            if let Some(extension) = indexable_extension(name.as_str()) {
                return Reconciliation::Index(extension);
            }
        }
    }
    Reconciliation::Prune
}

/// Whether pruning has anything to do, given how many chunks are stored for
/// the path. Where that could not be found out, pruning is tried anyway.
pub fn prune_is_needed(stored: Option<usize>) -> (r: bool)
    ensures
        r == (stored != Some(0usize)),
{
    match stored {
        Some(count) => count > 0,
        None => true,
    }
}

/// The full scan and the watcher agree on every regular file under the root, as
/// far as `.gitignore` files and names go: the watcher indexes it just if a
/// walk that enters no ignored directory comes upon it and its name is one
/// that the scan indexes, and with the same extension.
pub proof fn law_scan_and_watcher_agree(
    files: Seq<IgnoreFileView>,
    path: PathState,
    names: Seq<Seq<char>>,
    name: Seq<char>,
)
    requires
        path.names matches Some(given) && texts(given@) == names,
        path.file_name matches Some(text) && text@ == name,
        !path.is_dir,
        path.is_file,
    ensures
        path.to_index(files) == if is_reached(files, names, false) {
            indexable(name)
        } else {
            None
        },
{
    law_walk_reaches_what_is_not_ignored(files, names, false);
}

/// A path that is gone, lies outside the root, or is ignored is never
/// indexed, whatever its name.
pub proof fn law_only_allowed_files_are_indexed(files: Seq<IgnoreFileView>, path: PathState)
    requires
        !path.is_file || !path.is_allowed(files),
    ensures
        path.to_index(files) is None,
{
}

} // verus!
