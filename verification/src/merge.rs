//! The directory merge engine.
//!
//! A merge unions an ordered list of source trees into one destination.
//! Reading and writing the file system is the caller's work; this module
//! decides what has to be done. The caller lists each source, [`plan_merge`]
//! turns the listings into the ordered actions to perform, and the caller
//! carries them out one by one, stopping at the first that fails.
//!
//! What the actions achieve is stated and proved over a model of the
//! destination tree, in `crate::merge_model`.

use vstd::prelude::*;
use crate::text::same_text;

verus! {

/// What a listing found at one path.
#[derive(Debug, Clone, Copy, PartialEq, Eq, Structural)]
pub enum EntryKind {
    Directory,
    File,
}

/// One entry met while walking a source tree. `path` holds the components of
/// the entry's path relative to the root of its source.
#[derive(Debug, PartialEq, Eq)]
pub struct Entry {
    pub path: Vec<String>,
    pub kind: EntryKind,
}

/// What the caller found at one source path.
#[derive(Debug, PartialEq, Eq)]
pub enum Source {
    /// The path does not name a directory: nothing is there, or a file is.
    Absent,
    /// The path names a directory; the entries are those of a recursive walk.
    Directory(Vec<Entry>),
}

/// One step of a merge. Paths are relative to the destination root; the
/// empty path is the destination itself.
#[derive(Debug, PartialEq, Eq)]
pub enum MergeAction {
    /// Create the directory and every missing ancestor of it.
    EnsureDirectory { path: Vec<String> },
    /// Copy the file at `path` under source number `source` to `path` under
    /// the destination, replacing a file that is already there.
    CopyFile { source: usize, path: Vec<String> },
}

/// An `Entry` with its path as sequences of characters.
pub struct EntryModel {
    pub path: Seq<Seq<char>>,
    pub kind: EntryKind,
}

/// A `Source` with its entries by their views.
pub enum SourceModel {
    Absent,
    Directory(Seq<EntryModel>),
}

/// A `MergeAction` with its path as sequences of characters.
pub enum ActionModel {
    EnsureDirectory { path: Seq<Seq<char>> },
    CopyFile { source: int, path: Seq<Seq<char>> },
}

/// The components of a path as sequences of characters.
pub open spec fn path_model(path: Seq<String>) -> Seq<Seq<char>> {
    path.map_values(|part: String| part@)
}

/// The entries by their views, in order.
pub open spec fn entries_model(entries: Seq<Entry>) -> Seq<EntryModel> {
    entries.map_values(|entry: Entry| entry@)
}

/// The sources by their views, in order.
pub open spec fn sources_model(sources: Seq<Source>) -> Seq<SourceModel> {
    sources.map_values(|source: Source| source@)
}

/// The actions by their views, in order.
pub open spec fn actions_model(actions: Seq<MergeAction>) -> Seq<ActionModel> {
    actions.map_values(|action: MergeAction| action@)
}

impl View for Entry {
    type V = EntryModel;

    open spec fn view(&self) -> EntryModel {
        EntryModel { path: path_model(self.path@), kind: self.kind }
    }
}

impl View for Source {
    type V = SourceModel;

    open spec fn view(&self) -> SourceModel {
        match self {
            Source::Absent => SourceModel::Absent,
            Source::Directory(entries) => SourceModel::Directory(entries_model(entries@)),
        }
    }
}

impl View for MergeAction {
    type V = ActionModel;

    open spec fn view(&self) -> ActionModel {
        match self {
            MergeAction::EnsureDirectory { path } => ActionModel::EnsureDirectory {
                path: path_model(path@),
            },
            MergeAction::CopyFile { source, path } => ActionModel::CopyFile {
                source: *source as int,
                path: path_model(path@),
            },
        }
    }
}

/// The directory that holds `path`; the root is its own parent.
pub open spec fn parent(path: Seq<Seq<char>>) -> Seq<Seq<char>> {
    if path.len() == 0 {
        path
    } else {
        path.drop_last()
    }
}

/// The actions one entry of source number `index` asks for: a directory is
/// created; a file has its parent directory created and is then copied.
pub open spec fn entry_plan(index: int, entry: EntryModel) -> Seq<ActionModel> {
    match entry.kind {
        EntryKind::Directory => seq![ActionModel::EnsureDirectory { path: entry.path }],
        EntryKind::File => seq![
            ActionModel::EnsureDirectory { path: parent(entry.path) },
            ActionModel::CopyFile { source: index, path: entry.path },
        ],
    }
}

/// The actions of the entries of one source, in the order of the listing.
pub open spec fn entries_plan(index: int, entries: Seq<EntryModel>) -> Seq<ActionModel>
    decreases entries.len(),
{
    if entries.len() == 0 {
        Seq::empty()
    } else {
        entries_plan(index, entries.drop_last()) + entry_plan(index, entries.last())
    }
}

/// The actions of source number `index`: none where it is no directory.
pub open spec fn source_plan(index: int, source: SourceModel) -> Seq<ActionModel> {
    match source {
        SourceModel::Absent => Seq::empty(),
        SourceModel::Directory(entries) => entries_plan(index, entries),
    }
}

/// The actions of all sources, first source first.
pub open spec fn sources_plan(sources: Seq<SourceModel>) -> Seq<ActionModel>
    decreases sources.len(),
{
    if sources.len() == 0 {
        Seq::empty()
    } else {
        sources_plan(sources.drop_last()) + source_plan(sources.len() - 1, sources.last())
    }
}

/// The whole merge: the destination is created, then every source is merged
/// into it in order.
pub open spec fn merge_plan(sources: Seq<SourceModel>) -> Seq<ActionModel> {
    seq![ActionModel::EnsureDirectory { path: Seq::empty() }] + sources_plan(sources)
}

fn copy_components(path: &Vec<String>, count: usize) -> (copy: Vec<String>)
    requires
        count <= path.len(),
    ensures
        path_model(copy@) == path_model(path@).take(count as int),
{
    let mut copy: Vec<String> = Vec::new();
    let mut i: usize = 0;
    while i < count
        invariant
            i <= count <= path.len(),
            copy@.len() == i,
            forall|k: int| 0 <= k < i ==> (#[trigger] copy@[k])@ == path@[k]@,
        decreases count - i,
    {
        copy.push(path[i].clone());
        i = i + 1;
    }
    assert(path_model(copy@) =~= path_model(path@).take(count as int));
    copy
}

fn copy_path(path: &Vec<String>) -> (copy: Vec<String>)
    ensures
        path_model(copy@) == path_model(path@),
{
    let copy = copy_components(path, path.len());
    assert(path_model(path@).take(path.len() as int) =~= path_model(path@));
    copy
}

fn parent_path(path: &Vec<String>) -> (up: Vec<String>)
    ensures
        path_model(up@) == parent(path_model(path@)),
{
    if path.len() == 0 {
        copy_path(path)
    } else {
        let up = copy_components(path, path.len() - 1);
        assert(path_model(path@).take(path.len() - 1) =~= path_model(path@).drop_last());
        up
    }
}

/// The actions to merge source number `index`, as listed, into the
/// destination.
pub fn plan_source(index: usize, source: &Source) -> (actions: Vec<MergeAction>)
    ensures
        actions_model(actions@) == source_plan(index as int, source@),
{
    let mut actions: Vec<MergeAction> = Vec::new();
    match source {
        Source::Absent => {
            assert(actions_model(actions@) =~= Seq::empty());
        },
        Source::Directory(entries) => {
            let mut i: usize = 0;
            assert(entries_model(entries@).take(0) =~= Seq::empty());
            assert(actions_model(actions@) =~= Seq::empty());
            while i < entries.len()
                invariant
                    i <= entries.len(),
                    actions_model(actions@) == entries_plan(
                        index as int,
                        entries_model(entries@).take(i as int),
                    ),
                decreases entries.len() - i,
            {
                let ghost before = actions_model(actions@);
                let ghost listed = entries_model(entries@);
                let entry = &entries[i];
                assert(listed.take(i + 1).drop_last() =~= listed.take(i as int));
                assert(listed.take(i + 1).last() == entry@);
                match entry.kind {
                    EntryKind::Directory => {
                        actions.push(MergeAction::EnsureDirectory { path: copy_path(&entry.path) });
                    },
                    EntryKind::File => {
                        actions.push(
                            MergeAction::EnsureDirectory { path: parent_path(&entry.path) },
                        );
                        actions.push(
                            MergeAction::CopyFile { source: index, path: copy_path(&entry.path) },
                        );
                    },
                }
                assert(actions_model(actions@) =~= before + entry_plan(index as int, entry@));
                i = i + 1;
            }
            assert(entries_model(entries@).take(entries.len() as int) =~= entries_model(
                entries@,
            ));
        },
    }
    actions
}

/// The ordered actions that merge `sources` into the destination: the
/// destination is created first, also when no source has anything to give.
pub fn plan_merge(sources: &Vec<Source>) -> (actions: Vec<MergeAction>)
    ensures
        actions_model(actions@) == merge_plan(sources_model(sources@)),
{
    let mut actions: Vec<MergeAction> = Vec::new();
    actions.push(MergeAction::EnsureDirectory { path: Vec::new() });
    let ghost first = seq![ActionModel::EnsureDirectory { path: Seq::<Seq<char>>::empty() }];
    assert(path_model(Seq::<String>::empty()) =~= Seq::<Seq<char>>::empty());
    assert(actions_model(actions@) =~= first);
    assert(sources_model(sources@).take(0) =~= Seq::empty());
    let mut i: usize = 0;
    while i < sources.len()
        invariant
            i <= sources.len(),
            first == seq![ActionModel::EnsureDirectory { path: Seq::<Seq<char>>::empty() }],
            actions_model(actions@) == first + sources_plan(
                sources_model(sources@).take(i as int),
            ),
        decreases sources.len() - i,
    {
        let ghost before = actions_model(actions@);
        let ghost listed = sources_model(sources@);
        assert(listed.take(i + 1).drop_last() =~= listed.take(i as int));
        assert(listed.take(i + 1).last() == sources@[i as int]@);
        let mut more = plan_source(i, &sources[i]);
        let ghost added = actions_model(more@);
        actions.append(&mut more);
        assert(actions_model(actions@) =~= before + added);
        assert(first + sources_plan(listed.take(i as int)) + added =~= first + (sources_plan(
            listed.take(i as int),
        ) + added));
        i = i + 1;
    }
    assert(sources_model(sources@).take(sources.len() as int) =~= sources_model(sources@));
    actions
}

/// The source of the last copy to `path` among the actions.
pub open spec fn last_copy(actions: Seq<ActionModel>, path: Seq<Seq<char>>) -> Option<int>
    decreases actions.len(),
{
    if actions.len() == 0 {
        None
    } else {
        match actions.last() {
            ActionModel::CopyFile { source, path: target } if target == path => Some(source),
            _ => last_copy(actions.drop_last(), path),
        }
    }
}

fn same_path(left: &Vec<String>, right: &Vec<String>) -> (same: bool)
    ensures
        same == (path_model(left@) == path_model(right@)),
{
    if left.len() != right.len() {
        assert(path_model(left@).len() != path_model(right@).len());
        return false;
    }
    let mut i: usize = 0;
    while i < left.len()
        invariant
            i <= left.len(),
            left.len() == right.len(),
            forall|k: int| 0 <= k < i ==> left@[k]@ == right@[k]@,
        decreases left.len() - i,
    {
        if !same_text(left[i].as_str(), right[i].as_str()) {
            assert(path_model(left@)[i as int] != path_model(right@)[i as int]);
            return false;
        }
        i = i + 1;
    }
    assert(path_model(left@) =~= path_model(right@));
    true
}

/// The number of the source whose file the actions leave at `path`: that
/// of the last copy to the path; `None` where nothing is copied there.
pub fn copied_from(actions: &Vec<MergeAction>, path: &Vec<String>) -> (source: Option<usize>)
    ensures
        match last_copy(actions_model(actions@), path_model(path@)) {
            Some(index) => source matches Some(found) && found == index,
            None => source is None,
        },
{
    let ghost all = actions_model(actions@);
    let mut i: usize = actions.len();
    assert(all.take(i as int) =~= all);
    while i > 0
        invariant
            i <= actions.len(),
            all == actions_model(actions@),
            last_copy(all, path_model(path@)) == last_copy(all.take(i as int), path_model(path@)),
        decreases i,
    {
        assert(all.take(i as int).last() == actions@[i - 1]@);
        assert(all.take(i as int).drop_last() =~= all.take(i - 1));
        match &actions[i - 1] {
            MergeAction::CopyFile { source, path: target } => {
                if same_path(target, path) {
                    return Some(*source);
                }
            },
            MergeAction::EnsureDirectory { .. } => {},
        }
        i = i - 1;
    }
    None
}

} // verus!
