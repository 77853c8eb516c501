//! A model of the destination tree, and what a merge plan does to it.
//!
//! The model knows of a file only which source it was copied from: the file
//! at a path under the destination holds the bytes of the file at the same
//! path under that source. An action fails in the model exactly where the
//! file system would refuse it because a file stands where a directory is
//! needed, or a directory where a file is to be written.

use vstd::prelude::*;
use crate::merge::{
    ActionModel, EntryKind, EntryModel, SourceModel, entries_plan, entry_plan, last_copy,
    merge_plan, parent, source_plan, sources_plan,
};

verus! {

/// What stands at one path of the destination.
pub enum NodeModel {
    Directory,
    /// A file copied from source number `source`.
    File { source: int },
}

/// The destination tree: the nodes by their path relative to the root.
pub type TreeModel = Map<Seq<Seq<char>>, NodeModel>;

/// A file stands at `path`.
pub open spec fn holds_file(tree: TreeModel, path: Seq<Seq<char>>) -> bool {
    tree.contains_key(path) && tree[path] is File
}

/// A directory stands at `path`.
pub open spec fn holds_directory(tree: TreeModel, path: Seq<Seq<char>>) -> bool {
    tree.contains_key(path) && tree[path] is Directory
}

/// A file stands at `path` or at one of its ancestors.
pub open spec fn blocked(tree: TreeModel, path: Seq<Seq<char>>) -> bool {
    exists|p: Seq<Seq<char>>| #[trigger] p.is_prefix_of(path) && holds_file(tree, p)
}

/// The tree with a directory at `path` and at each of its ancestors.
pub open spec fn with_directories(tree: TreeModel, path: Seq<Seq<char>>) -> TreeModel {
    Map::new(
        |p: Seq<Seq<char>>| tree.contains_key(p) || p.is_prefix_of(path),
        |p: Seq<Seq<char>>|
            if p.is_prefix_of(path) {
                NodeModel::Directory
            } else {
                tree[p]
            },
    )
}

/// The tree after one action, or `None` where the action fails.
pub open spec fn apply(tree: TreeModel, action: ActionModel) -> Option<TreeModel> {
    match action {
        ActionModel::EnsureDirectory { path } => if blocked(tree, path) {
            None
        } else {
            Some(with_directories(tree, path))
        },
        ActionModel::CopyFile { source, path } => if holds_directory(tree, parent(path))
            && !holds_directory(tree, path) {
            Some(tree.insert(path, NodeModel::File { source }))
        } else {
            None
        },
    }
}

/// The tree after the actions in order, or `None` where one of them fails.
pub open spec fn run(tree: TreeModel, actions: Seq<ActionModel>) -> Option<TreeModel>
    decreases actions.len(),
{
    if actions.len() == 0 {
        Some(tree)
    } else {
        match run(tree, actions.drop_last()) {
            Some(reached) => apply(reached, actions.last()),
            None => None,
        }
    }
}

/// The entries a source was listed with: none where it is no directory.
pub open spec fn entries_of(source: SourceModel) -> Seq<EntryModel> {
    match source {
        SourceModel::Absent => Seq::empty(),
        SourceModel::Directory(entries) => entries,
    }
}

/// The listing holds a file at `path`.
pub open spec fn has_file(entries: Seq<EntryModel>, path: Seq<Seq<char>>) -> bool {
    exists|k: int|
        0 <= k < entries.len() && #[trigger] entries[k] == (EntryModel {
            path,
            kind: EntryKind::File,
        })
}

/// The source is a directory with a file at `path`.
pub open spec fn offers_file(source: SourceModel, path: Seq<Seq<char>>) -> bool {
    has_file(entries_of(source), path)
}

/// Some source lists `entry`.
pub open spec fn lists(sources: Seq<SourceModel>, entry: EntryModel) -> bool {
    exists|i: int, k: int|
        0 <= i < sources.len() && 0 <= k < entries_of(sources[i]).len() && #[trigger] entries_of(
            sources[i],
        )[k] == entry
}

/// No listed file is in the way of another entry: its path is not empty, and
/// the only entries at or below it are files at that same path.
pub open spec fn clash_free(sources: Seq<SourceModel>) -> bool {
    forall|a: EntryModel, b: EntryModel|
        #[trigger] lists(sources, a) && #[trigger] lists(sources, b) && a.kind is File
            && a.path.is_prefix_of(b.path) ==> a.path.len() > 0 && b == a
}

/// Every node but the root stands in a directory.
pub open spec fn well_shaped(tree: TreeModel) -> bool {
    forall|p: Seq<Seq<char>>|
        #[trigger] tree.contains_key(p) && p.len() > 0 ==> holds_directory(tree, parent(p))
}

proof fn lemma_run_concat(tree: TreeModel, first: Seq<ActionModel>, rest: Seq<ActionModel>)
    ensures
        run(tree, first + rest) == match run(tree, first) {
            Some(reached) => run(reached, rest),
            None => None,
        },
    decreases rest.len(),
{
    if rest.len() == 0 {
        assert(first + rest =~= first);
    } else {
        assert((first + rest).drop_last() =~= first + rest.drop_last());
        assert((first + rest).last() == rest.last());
        lemma_run_concat(tree, first, rest.drop_last());
    }
}

proof fn lemma_run_one(tree: TreeModel, action: ActionModel)
    ensures
        run(tree, seq![action]) == apply(tree, action),
{
    let actions = seq![action];
    assert(actions.drop_last() =~= Seq::empty());
    assert(run(tree, actions.drop_last()) == Some(tree));
}

proof fn lemma_last_copy_concat(
    first: Seq<ActionModel>,
    rest: Seq<ActionModel>,
    path: Seq<Seq<char>>,
)
    ensures
        last_copy(first + rest, path) == match last_copy(rest, path) {
            Some(source) => Some(source),
            None => last_copy(first, path),
        },
    decreases rest.len(),
{
    if rest.len() == 0 {
        assert(first + rest =~= first);
    } else {
        assert((first + rest).drop_last() =~= first + rest.drop_last());
        assert((first + rest).last() == rest.last());
        lemma_last_copy_concat(first, rest.drop_last(), path);
    }
}

proof fn lemma_last_copy_one(action: ActionModel, path: Seq<Seq<char>>)
    ensures
        last_copy(seq![action], path) == match action {
            ActionModel::CopyFile { source, path: target } if target == path => Some(source),
            _ => None::<int>,
        },
{
    let actions = seq![action];
    assert(actions.drop_last() =~= Seq::empty());
    assert(last_copy(actions.drop_last(), path) == None::<int>);
}

proof fn lemma_last_copy_entry(index: int, entry: EntryModel, path: Seq<Seq<char>>)
    ensures
        last_copy(entry_plan(index, entry), path) == if entry.kind is File && entry.path
            == path {
            Some(index)
        } else {
            None
        },
{
    match entry.kind {
        EntryKind::Directory => {
            lemma_last_copy_one(ActionModel::EnsureDirectory { path: entry.path }, path);
        },
        EntryKind::File => {
            let make = ActionModel::EnsureDirectory { path: parent(entry.path) };
            let copy = ActionModel::CopyFile { source: index, path: entry.path };
            assert(entry_plan(index, entry) =~= seq![make] + seq![copy]);
            lemma_last_copy_concat(seq![make], seq![copy], path);
            lemma_last_copy_one(make, path);
            lemma_last_copy_one(copy, path);
        },
    }
}

proof fn lemma_last_copy_entries(index: int, entries: Seq<EntryModel>, path: Seq<Seq<char>>)
    ensures
        last_copy(entries_plan(index, entries), path) == if has_file(entries, path) {
            Some(index)
        } else {
            None
        },
    decreases entries.len(),
{
    if entries.len() == 0 {
    } else {
        let before = entries.drop_last();
        let wanted = EntryModel { path, kind: EntryKind::File };
        lemma_last_copy_entries(index, before, path);
        lemma_last_copy_concat(
            entries_plan(index, before),
            entry_plan(index, entries.last()),
            path,
        );
        lemma_last_copy_entry(index, entries.last(), path);
        if has_file(before, path) {
            let k = choose|k: int| 0 <= k < before.len() && #[trigger] before[k] == wanted;
            assert(entries[k] == wanted);
        }
        if entries.last() == wanted {
            assert(entries[entries.len() - 1] == wanted);
        }
        if has_file(entries, path) {
            let k = choose|k: int| 0 <= k < entries.len() && #[trigger] entries[k] == wanted;
            if k < before.len() {
                assert(before[k] == wanted);
            }
        }
    }
}

proof fn lemma_last_copy_sources(sources: Seq<SourceModel>, path: Seq<Seq<char>>, winner: int)
    requires
        0 <= winner < sources.len(),
        offers_file(sources[winner], path),
        forall|later: int|
            winner < later < sources.len() ==> !offers_file(#[trigger] sources[later], path),
    ensures
        last_copy(sources_plan(sources), path) == Some(winner),
    decreases sources.len(),
{
    let last = sources.len() - 1;
    let before = sources.drop_last();
    lemma_last_copy_concat(sources_plan(before), source_plan(last, sources.last()), path);
    lemma_last_copy_entries(last, entries_of(sources.last()), path);
    assert(source_plan(last, sources.last()) == entries_plan(last, entries_of(sources.last())));
    if winner < last {
        assert(!offers_file(sources[last], path));
        assert(before[winner] == sources[winner]);
        assert forall|later: int| winner < later < before.len() implies !offers_file(
            #[trigger] before[later],
            path,
        ) by {
            assert(before[later] == sources[later]);
        }
        lemma_last_copy_sources(before, path, winner);
    }
}

/// Where a run of actions goes through, the file at a path comes from the
/// source of the last copy to that path.
pub proof fn last_copy_stands(tree: TreeModel, actions: Seq<ActionModel>, path: Seq<Seq<char>>)
    requires
        run(tree, actions) is Some,
        last_copy(actions, path) is Some,
    ensures
        run(tree, actions)->0.contains_key(path),
        run(tree, actions)->0[path] == (NodeModel::File { source: last_copy(actions, path)->0 }),
    decreases actions.len(),
{
    if actions.len() > 0 {
        let reached = run(tree, actions.drop_last())->0;
        match actions.last() {
            ActionModel::CopyFile { source, path: target } => {
                if target != path {
                    last_copy_stands(tree, actions.drop_last(), path);
                }
            },
            ActionModel::EnsureDirectory { path: target } => {
                last_copy_stands(tree, actions.drop_last(), path);
                assert(holds_file(reached, path));
                if path.is_prefix_of(target) {
                    assert(blocked(reached, target));
                }
            },
        }
    }
}

proof fn lemma_directory_stays(tree: TreeModel, actions: Seq<ActionModel>, path: Seq<Seq<char>>)
    requires
        holds_directory(tree, path),
        run(tree, actions) is Some,
    ensures
        holds_directory(run(tree, actions)->0, path),
    decreases actions.len(),
{
    if actions.len() > 0 {
        lemma_directory_stays(tree, actions.drop_last(), path);
    }
}

proof fn lemma_apply_keeps_shape(tree: TreeModel, action: ActionModel)
    requires
        well_shaped(tree),
        apply(tree, action) is Some,
    ensures
        well_shaped(apply(tree, action)->0),
{
    let after = apply(tree, action)->0;
    assert forall|p: Seq<Seq<char>>| #[trigger] after.contains_key(p) && p.len() > 0 implies holds_directory(
        after,
        parent(p),
    ) by {
        match action {
            ActionModel::EnsureDirectory { path } => {
                if p.is_prefix_of(path) {
                    assert(parent(p).is_prefix_of(path));
                } else {
                    assert(tree.contains_key(p));
                    assert(holds_directory(tree, parent(p)));
                }
            },
            ActionModel::CopyFile { source, path } => {
                if p == path {
                    assert(holds_directory(tree, parent(path)));
                    assert(parent(path) != path);
                } else {
                    assert(tree.contains_key(p));
                    assert(holds_directory(tree, parent(p)));
                    assert(parent(p) != path);
                }
            },
        }
    }
}

proof fn lemma_run_keeps_shape(tree: TreeModel, actions: Seq<ActionModel>)
    requires
        well_shaped(tree),
        run(tree, actions) is Some,
    ensures
        well_shaped(run(tree, actions)->0),
    decreases actions.len(),
{
    if actions.len() > 0 {
        lemma_run_keeps_shape(tree, actions.drop_last());
        lemma_apply_keeps_shape(run(tree, actions.drop_last())->0, actions.last());
    }
}

proof fn lemma_ancestor_is_directory(tree: TreeModel, path: Seq<Seq<char>>, depth: int)
    requires
        well_shaped(tree),
        tree.contains_key(path),
        0 <= depth < path.len(),
    ensures
        holds_directory(tree, path.take(depth)),
    decreases path.len() - depth,
{
    if depth + 1 < path.len() {
        lemma_ancestor_is_directory(tree, path, depth + 1);
    } else {
        assert(path.take(depth + 1) =~= path);
    }
    assert(tree.contains_key(path.take(depth + 1)));
    assert(parent(path.take(depth + 1)) =~= path.take(depth));
}

/// `path` is wanted as a directory: some listed directory stands at or below
/// it, or some listed file below it.
pub open spec fn covered(sources: Seq<SourceModel>, path: Seq<Seq<char>>) -> bool {
    exists|b: EntryModel| #[trigger]
        lists(sources, b) && path.is_prefix_of(b.path) && (b.kind is Directory || path
            != b.path)
}

/// Every file of the tree is a listed file, and every directory of the tree
/// is the root or wanted as a directory.
spec fn accounted(sources: Seq<SourceModel>, tree: TreeModel) -> bool {
    &&& forall|p: Seq<Seq<char>>| #[trigger]
        holds_file(tree, p) ==> lists(sources, EntryModel { path: p, kind: EntryKind::File })
    &&& forall|p: Seq<Seq<char>>| #[trigger]
        holds_directory(tree, p) ==> p.len() == 0 || covered(sources, p)
}

proof fn lemma_no_file_where_covered(sources: Seq<SourceModel>, path: Seq<Seq<char>>)
    requires
        clash_free(sources),
        path.len() == 0 || covered(sources, path),
    ensures
        !lists(sources, EntryModel { path, kind: EntryKind::File }),
{
    let a = EntryModel { path, kind: EntryKind::File };
    if lists(sources, a) {
        assert(a.path.is_prefix_of(a.path));
        if path.len() > 0 {
            let b = choose|b: EntryModel| #[trigger]
                lists(sources, b) && path.is_prefix_of(b.path) && (b.kind is Directory || path
                    != b.path);
            assert(b == a);
        }
    }
}

proof fn lemma_covered_prefix(
    sources: Seq<SourceModel>,
    path: Seq<Seq<char>>,
    above: Seq<Seq<char>>,
)
    requires
        above.is_prefix_of(path),
        path.len() == 0 || covered(sources, path),
    ensures
        above.len() == 0 || covered(sources, above),
{
    if path.len() > 0 && above.len() > 0 {
        let b = choose|b: EntryModel| #[trigger]
            lists(sources, b) && path.is_prefix_of(b.path) && (b.kind is Directory || path
                != b.path);
        assert(above.is_prefix_of(b.path));
        if above == b.path {
            assert(path =~= b.path);
        }
    }
}

proof fn lemma_ensure_accounted(sources: Seq<SourceModel>, tree: TreeModel, path: Seq<Seq<char>>)
    requires
        clash_free(sources),
        accounted(sources, tree),
        path.len() == 0 || covered(sources, path),
    ensures
        !blocked(tree, path),
        accounted(sources, with_directories(tree, path)),
        holds_directory(with_directories(tree, path), path),
{
    if blocked(tree, path) {
        let p = choose|p: Seq<Seq<char>>| #[trigger] p.is_prefix_of(path) && holds_file(tree, p);
        lemma_covered_prefix(sources, path, p);
        lemma_no_file_where_covered(sources, p);
    }
    let after = with_directories(tree, path);
    assert forall|p: Seq<Seq<char>>| #[trigger] holds_file(after, p) implies lists(
        sources,
        EntryModel { path: p, kind: EntryKind::File },
    ) by {
        assert(holds_file(tree, p));
    }
    assert forall|p: Seq<Seq<char>>| #[trigger] holds_directory(after, p) implies p.len() == 0
        || covered(sources, p) by {
        if p.is_prefix_of(path) {
            lemma_covered_prefix(sources, path, p);
        } else {
            assert(holds_directory(tree, p));
        }
    }
    assert(path.is_prefix_of(path));
}

proof fn lemma_entry_accounted(
    sources: Seq<SourceModel>,
    tree: TreeModel,
    index: int,
    entry: EntryModel,
)
    requires
        clash_free(sources),
        accounted(sources, tree),
        lists(sources, entry),
    ensures
        run(tree, entry_plan(index, entry)) is Some,
        accounted(sources, run(tree, entry_plan(index, entry))->0),
{
    assert(entry.path.is_prefix_of(entry.path));
    match entry.kind {
        EntryKind::Directory => {
            let make = ActionModel::EnsureDirectory { path: entry.path };
            assert(entry.path.len() == 0 || covered(sources, entry.path));
            lemma_ensure_accounted(sources, tree, entry.path);
            lemma_run_one(tree, make);
        },
        EntryKind::File => {
            let up = parent(entry.path);
            let make = ActionModel::EnsureDirectory { path: up };
            let copy = ActionModel::CopyFile { source: index, path: entry.path };
            assert(entry.path.len() > 0);
            assert(up.is_prefix_of(entry.path));
            assert(up.len() == 0 || covered(sources, up));
            lemma_ensure_accounted(sources, tree, up);
            let made = with_directories(tree, up);
            assert(entry_plan(index, entry) =~= seq![make] + seq![copy]);
            lemma_run_concat(tree, seq![make], seq![copy]);
            lemma_run_one(tree, make);
            lemma_run_one(made, copy);
            assert(entry == EntryModel { path: entry.path, kind: EntryKind::File });
            if holds_directory(made, entry.path) {
                lemma_no_file_where_covered(sources, entry.path);
            }
            let copied = made.insert(entry.path, NodeModel::File { source: index });
            assert forall|p: Seq<Seq<char>>| #[trigger] holds_file(copied, p) implies lists(
                sources,
                EntryModel { path: p, kind: EntryKind::File },
            ) by {
                if p != entry.path {
                    assert(holds_file(made, p));
                }
            }
            assert forall|p: Seq<Seq<char>>| #[trigger]
                holds_directory(copied, p) implies p.len() == 0 || covered(sources, p) by {
                assert(holds_directory(made, p));
            }
        },
    }
}

proof fn lemma_entries_accounted(
    sources: Seq<SourceModel>,
    tree: TreeModel,
    index: int,
    entries: Seq<EntryModel>,
)
    requires
        clash_free(sources),
        accounted(sources, tree),
        forall|k: int| 0 <= k < entries.len() ==> lists(sources, #[trigger] entries[k]),
    ensures
        run(tree, entries_plan(index, entries)) is Some,
        accounted(sources, run(tree, entries_plan(index, entries))->0),
    decreases entries.len(),
{
    if entries.len() > 0 {
        let before = entries.drop_last();
        assert forall|k: int| 0 <= k < before.len() implies lists(sources, #[trigger] before[k]) by {
            assert(before[k] == entries[k]);
        }
        lemma_entries_accounted(sources, tree, index, before);
        let reached = run(tree, entries_plan(index, before))->0;
        assert(entries.last() == entries[entries.len() - 1]);
        lemma_entry_accounted(sources, reached, index, entries.last());
        lemma_run_concat(tree, entries_plan(index, before), entry_plan(index, entries.last()));
    }
}

proof fn lemma_sources_accounted(sources: Seq<SourceModel>, tree: TreeModel, count: int)
    requires
        clash_free(sources),
        accounted(sources, tree),
        0 <= count <= sources.len(),
    ensures
        run(tree, sources_plan(sources.take(count))) is Some,
        accounted(sources, run(tree, sources_plan(sources.take(count)))->0),
    decreases count,
{
    if count > 0 {
        let taken = sources.take(count);
        assert(taken.drop_last() =~= sources.take(count - 1));
        assert(taken.last() == sources[count - 1]);
        lemma_sources_accounted(sources, tree, count - 1);
        let reached = run(tree, sources_plan(sources.take(count - 1)))->0;
        let entries = entries_of(sources[count - 1]);
        assert forall|k: int| 0 <= k < entries.len() implies lists(sources, #[trigger] entries[k]) by {
            assert(entries_of(sources[count - 1])[k] == entries[k]);
        }
        lemma_entries_accounted(sources, reached, count - 1, entries);
        assert(source_plan(count - 1, sources[count - 1]) == entries_plan(count - 1, entries));
        lemma_run_concat(
            tree,
            sources_plan(sources.take(count - 1)),
            source_plan(count - 1, sources[count - 1]),
        );
    }
}

/// A merge runs through where no listed file is in the way of another
/// entry. Sources that are no directory list nothing, so they are in
/// nobody's way.
pub proof fn clash_free_merge_runs_through(sources: Seq<SourceModel>)
    requires
        clash_free(sources),
    ensures
        run(Map::empty(), merge_plan(sources)) is Some,
{
    let root = Seq::<Seq<char>>::empty();
    let make = ActionModel::EnsureDirectory { path: root };
    let start: TreeModel = Map::empty();
    assert(accounted(sources, start));
    lemma_ensure_accounted(sources, start, root);
    lemma_run_one(start, make);
    lemma_run_concat(start, seq![make], sources_plan(sources));
    assert(sources.take(sources.len() as int) =~= sources);
    lemma_sources_accounted(sources, with_directories(start, root), sources.len() as int);
}

/// Last source wins: where the plan for `sources` runs through, the file
/// at `path` under the destination comes from the last source that is a
/// directory with a file at that path, whatever earlier sources held there.
pub proof fn last_source_wins(sources: Seq<SourceModel>, path: Seq<Seq<char>>, winner: int)
    requires
        run(Map::empty(), merge_plan(sources)) is Some,
        0 <= winner < sources.len(),
        offers_file(sources[winner], path),
        forall|later: int|
            winner < later < sources.len() ==> !offers_file(#[trigger] sources[later], path),
    ensures
        run(Map::empty(), merge_plan(sources))->0.contains_key(path),
        run(Map::empty(), merge_plan(sources))->0[path] == (NodeModel::File { source: winner }),
{
    let first = seq![ActionModel::EnsureDirectory { path: Seq::empty() }];
    lemma_last_copy_sources(sources, path, winner);
    lemma_last_copy_concat(first, sources_plan(sources), path);
    last_copy_stands(Map::empty(), merge_plan(sources), path);
}

/// The destination is created: where the plan for `sources` runs through,
/// the destination root is a directory, also when every source is empty or
/// absent.
pub proof fn destination_is_created(sources: Seq<SourceModel>)
    requires
        run(Map::empty(), merge_plan(sources)) is Some,
    ensures
        holds_directory(run(Map::empty(), merge_plan(sources))->0, Seq::empty()),
{
    let root = Seq::<Seq<char>>::empty();
    let make = ActionModel::EnsureDirectory { path: root };
    let start: TreeModel = Map::empty();
    lemma_run_concat(start, seq![make], sources_plan(sources));
    lemma_run_one(start, make);
    assert(!blocked(start, root));
    let made = with_directories(start, root);
    assert(root.is_prefix_of(root));
    assert(holds_directory(made, root));
    lemma_directory_stays(made, sources_plan(sources), root);
}

/// Every file and directory the merge leaves under the destination stands
/// in directories all the way up to the root.
pub proof fn merged_tree_is_well_shaped(sources: Seq<SourceModel>, path: Seq<Seq<char>>, depth: int)
    requires
        run(Map::empty(), merge_plan(sources)) is Some,
        run(Map::empty(), merge_plan(sources))->0.contains_key(path),
        0 <= depth < path.len(),
    ensures
        holds_directory(run(Map::empty(), merge_plan(sources))->0, path.take(depth)),
{
    let start: TreeModel = Map::empty();
    assert(well_shaped(start));
    lemma_run_keeps_shape(start, merge_plan(sources));
    lemma_ancestor_is_directory(run(start, merge_plan(sources))->0, path, depth);
}

/// A source that is no directory is passed over: the plan is the one the
/// same list would have with an empty directory in its place.
pub proof fn absent_source_is_ignored(sources: Seq<SourceModel>, at: int)
    requires
        0 <= at < sources.len(),
    ensures
        merge_plan(sources.update(at, SourceModel::Absent)) == merge_plan(
            sources.update(at, SourceModel::Directory(Seq::empty())),
        ),
{
    lemma_absent_source_plan(sources, at);
}

proof fn lemma_absent_source_plan(sources: Seq<SourceModel>, at: int)
    requires
        0 <= at < sources.len(),
    ensures
        sources_plan(sources.update(at, SourceModel::Absent)) == sources_plan(
            sources.update(at, SourceModel::Directory(Seq::empty())),
        ),
    decreases sources.len(),
{
    let absent = sources.update(at, SourceModel::Absent);
    let empty = sources.update(at, SourceModel::Directory(Seq::empty()));
    if at == sources.len() - 1 {
        assert(absent.drop_last() =~= empty.drop_last());
    } else {
        let shorter = sources.drop_last();
        lemma_absent_source_plan(shorter, at);
        assert(absent.drop_last() =~= shorter.update(at, SourceModel::Absent));
        assert(empty.drop_last() =~= shorter.update(at, SourceModel::Directory(Seq::empty())));
        assert(absent.last() == empty.last());
    }
}

} // verus!
