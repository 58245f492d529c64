//! Changes of the file that is watched.
use vstd::prelude::*;

use crate::text::{same_text, text_opt};

verus! {

/// What happened to files.
#[derive(Debug, Clone, Copy, PartialEq, Eq, Structural)]
pub enum ChangeKind {
    /// Something that is not known more exactly.
    Any,
    Create,
    Modify,
    Remove,
    /// A file was looked at.
    Access,
    Other,
}

/// A change: what happened, and to files of which names, as far as these can
/// be read.
#[derive(Debug, PartialEq, Eq)]
pub struct FileChange {
    pub kind: ChangeKind,
    pub names: Vec<Option<String>>,
}

/// The names of the files of a change.
pub open spec fn change_names(v: Seq<Option<String>>) -> Seq<Option<Seq<char>>> {
    v.map_values(|n: Option<String>| text_opt(n))
}

/// Whether a change matters to a file: it is one of content or existence, and
/// of that file, or of files that are not named.
pub open spec fn is_relevant(change: FileChange, watched: Seq<char>) -> bool {
    &&& change.kind == ChangeKind::Any || change.kind == ChangeKind::Create || change.kind
        == ChangeKind::Modify || change.kind == ChangeKind::Remove
    &&& change.names@.len() == 0 || change_names(change.names@).contains(Some(watched))
}

fn has_name(names: &Vec<Option<String>>, wanted: &str) -> (r: bool)
    ensures
        r == change_names(names@).contains(Some(wanted@)),
{
    let ghost all = change_names(names@);
    let mut i: usize = 0;
    while i < names.len()
        invariant
            i <= names@.len(),
            all == change_names(names@),
            forall|k: int| 0 <= k < i ==> #[trigger] all[k] != Some(wanted@),
        decreases names@.len() - i,
    {
        assert(all[i as int] == text_opt(names@[i as int]));
        if let Some(name) = &names[i] {
            if same_text(name.as_str(), wanted) {
                assert(all.contains(Some(wanted@)));
                return true;
            }
        }
        i = i + 1;
    }
    false
}

/// Whether a change matters to a file.
pub fn is_relevant_change(change: &FileChange, watched: &str) -> (r: bool)
    ensures
        r == is_relevant(*change, watched@),
{
    match change.kind {
        ChangeKind::Any | ChangeKind::Create | ChangeKind::Modify | ChangeKind::Remove => {
            change.names.len() == 0 || has_name(&change.names, watched)
        },
        _ => false,
    }
}

/// Whether any of several changes matters to a file.
pub open spec fn any_relevant(changes: Seq<FileChange>, watched: Seq<char>) -> bool {
    exists|i: int| 0 <= i < changes.len() && is_relevant(#[trigger] changes[i], watched)
}

/// Whether any of several changes matters to a file.
pub fn has_changed(changes: &Vec<FileChange>, watched: &str) -> (r: bool)
    ensures
        r == any_relevant(changes@, watched@),
{
    let mut i: usize = 0;
    while i < changes.len()
        invariant
            i <= changes@.len(),
            forall|k: int| 0 <= k < i ==> !is_relevant(#[trigger] changes@[k], watched@),
        decreases changes@.len() - i,
    {
        if is_relevant_change(&changes[i], watched) {
            assert(is_relevant(changes@[i as int], watched@));
            return true;
        }
        i = i + 1;
    }
    false
}

/// What is done about watching, as mathematics sees it.
pub enum WatchActionView {
    Stop,
    Keep,
    Start(Seq<char>),
}

/// What is done about watching.
#[derive(Debug, PartialEq, Eq)]
pub enum WatchAction {
    /// No file is watched any more.
    Stop,
    /// The file that is watched is the right one.
    Keep,
    /// This file is watched from now on.
    Start(String),
}

impl View for WatchAction {
    type V = WatchActionView;

    open spec fn view(&self) -> WatchActionView {
        match self {
            WatchAction::Stop => WatchActionView::Stop,
            WatchAction::Keep => WatchActionView::Keep,
            WatchAction::Start(name) => WatchActionView::Start(name@),
        }
    }
}

/// What is done about watching, by the file that is watched and the one that
/// should be.
pub open spec fn watch_step(
    watched: Option<Seq<char>>,
    wanted: Option<Seq<char>>,
) -> WatchActionView {
    match wanted {
        None => WatchActionView::Stop,
        Some(name) => if watched == wanted {
            WatchActionView::Keep
        } else {
            WatchActionView::Start(name)
        },
    }
}

/// What is done about watching.
pub fn sync_project_watcher(watched: &Option<String>, wanted: Option<String>) -> (r: WatchAction)
    ensures
        r@ == watch_step(text_opt(*watched), text_opt(wanted)),
{
    match wanted {
        None => WatchAction::Stop,
        Some(name) => match watched {
            Some(current) => if same_text(current.as_str(), name.as_str()) {
                WatchAction::Keep
            } else {
                WatchAction::Start(name)
            },
            None => WatchAction::Start(name),
        },
    }
}

/// Looking at a file is no change, and neither is a change of other files.
pub proof fn law_other_changes_do_not_matter(change: FileChange, watched: Seq<char>)
    ensures
        change.kind == ChangeKind::Access ==> !is_relevant(change, watched),
        change.names@.len() > 0 && !change_names(change.names@).contains(Some(watched))
            ==> !is_relevant(change, watched),
{
}

/// A change of what a file holds, or of whether it is there, matters to that
/// file; so does one of files that are not named.
pub proof fn law_own_changes_matter(change: FileChange, watched: Seq<char>)
    requires
        change.kind == ChangeKind::Any || change.kind == ChangeKind::Create || change.kind
            == ChangeKind::Modify || change.kind == ChangeKind::Remove,
        change.names@.len() == 0 || exists|i: int|
            0 <= i < change.names@.len() && text_opt(#[trigger] change.names@[i]) == Some(watched),
    ensures
        is_relevant(change, watched),
{
    if change.names@.len() > 0 {
        let i = choose|i: int|
            0 <= i < change.names@.len() && text_opt(#[trigger] change.names@[i]) == Some(watched);
        assert(change_names(change.names@)[i] == Some(watched));
    }
}

/// Of several changes one is enough.
pub proof fn law_any_change_counts(a: Seq<FileChange>, b: Seq<FileChange>, watched: Seq<char>)
    ensures
        any_relevant(a + b, watched) == (any_relevant(a, watched) || any_relevant(b, watched)),
        a.len() == 1 ==> any_relevant(a, watched) == is_relevant(a[0], watched),
        a.len() == 0 ==> !any_relevant(a, watched),
{
    let all = a + b;
    if any_relevant(a, watched) {
        let i = choose|i: int| 0 <= i < a.len() && is_relevant(#[trigger] a[i], watched);
        assert(all[i] == a[i]);
    }
    if any_relevant(b, watched) {
        let i = choose|i: int| 0 <= i < b.len() && is_relevant(#[trigger] b[i], watched);
        assert(all[a.len() + i] == b[i]);
    }
    if any_relevant(all, watched) {
        let i = choose|i: int| 0 <= i < all.len() && is_relevant(#[trigger] all[i], watched);
        if i < a.len() {
            assert(is_relevant(a[i], watched));
        } else {
            assert(is_relevant(b[i - a.len()], watched));
        }
    }
}

/// The file that is watched once an action has been taken.
pub open spec fn watched_after(
    watched: Option<Seq<char>>,
    action: WatchActionView,
) -> Option<Seq<char>> {
    match action {
        WatchActionView::Stop => None,
        WatchActionView::Keep => watched,
        WatchActionView::Start(name) => Some(name),
    }
}

/// In the end the wanted file is watched, and none where none is wanted; the one
/// that is watched already is not begun anew.
pub proof fn law_wanted_file_is_watched(watched: Option<Seq<char>>, wanted: Option<Seq<char>>)
    ensures
        watched_after(watched, watch_step(watched, wanted)) == wanted,
        watch_step(watched, wanted) is Start ==> watched != wanted,
{
}

} // verus!
