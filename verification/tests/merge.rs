use task_bridge::merge::{copied_from, plan_merge, plan_source, Entry, EntryKind, MergeAction, Source};

fn path(parts: &[&str]) -> Vec<String> {
    parts.iter().map(|p| p.to_string()).collect()
}

fn file(parts: &[&str]) -> Entry {
    Entry { path: path(parts), kind: EntryKind::File }
}

fn dir(parts: &[&str]) -> Entry {
    Entry { path: path(parts), kind: EntryKind::Directory }
}

fn ensure(parts: &[&str]) -> MergeAction {
    MergeAction::EnsureDirectory { path: path(parts) }
}

fn copy(source: usize, parts: &[&str]) -> MergeAction {
    MergeAction::CopyFile { source, path: path(parts) }
}

#[test]
fn merge_of_nothing_creates_the_destination() {
    assert_eq!(plan_merge(&vec![]), vec![ensure(&[])]);
}

#[test]
fn merge_of_an_empty_source_creates_the_destination() {
    assert_eq!(plan_merge(&vec![Source::Directory(vec![])]), vec![ensure(&[])]);
}

#[test]
fn merge_copies_a_nested_file_into_its_directory() {
    let sources = vec![Source::Directory(vec![dir(&["sub"]), file(&["sub", "y.txt"])])];
    let actions = plan_merge(&sources);
    assert_eq!(
        actions,
        vec![ensure(&[]), ensure(&["sub"]), ensure(&["sub"]), copy(0, &["sub", "y.txt"])]
    );
    assert_eq!(copied_from(&actions, &path(&["sub", "y.txt"])), Some(0));
    assert_eq!(copied_from(&actions, &path(&["sub"])), None);
    assert_eq!(copied_from(&actions, &path(&["y.txt"])), None);
}

#[test]
fn merge_creates_the_parent_even_if_the_listing_left_it_out() {
    let sources = vec![Source::Directory(vec![file(&["a", "b", "c.bin"])])];
    assert_eq!(
        plan_merge(&sources),
        vec![ensure(&[]), ensure(&["a", "b"]), copy(0, &["a", "b", "c.bin"])]
    );
}

#[test]
fn last_source_wins_at_a_file() {
    let a = Source::Directory(vec![file(&["x"]), file(&["only_a"])]);
    let b = Source::Directory(vec![file(&["only_b"]), file(&["x"])]);
    let actions = plan_merge(&vec![a, b]);
    assert_eq!(
        actions,
        vec![
            ensure(&[]),
            ensure(&[]),
            copy(0, &["x"]),
            ensure(&[]),
            copy(0, &["only_a"]),
            ensure(&[]),
            copy(1, &["only_b"]),
            ensure(&[]),
            copy(1, &["x"]),
        ]
    );
    assert_eq!(copied_from(&actions, &path(&["x"])), Some(1));
    assert_eq!(copied_from(&actions, &path(&["only_a"])), Some(0));
    assert_eq!(copied_from(&actions, &path(&["only_b"])), Some(1));
}

#[test]
fn last_source_wins_among_three_in_either_order() {
    let with_x = || Source::Directory(vec![file(&["d", "x"])]);
    let without = || Source::Directory(vec![dir(&["d"]), file(&["d", "z"])]);
    let x = path(&["d", "x"]);
    assert_eq!(copied_from(&plan_merge(&vec![with_x(), with_x(), with_x()]), &x), Some(2));
    assert_eq!(copied_from(&plan_merge(&vec![with_x(), with_x(), without()]), &x), Some(1));
    assert_eq!(copied_from(&plan_merge(&vec![with_x(), without(), without()]), &x), Some(0));
    assert_eq!(copied_from(&plan_merge(&vec![without(), with_x(), without()]), &x), Some(1));
    assert_eq!(copied_from(&plan_merge(&vec![without(), without()]), &x), None);
}

#[test]
fn directories_of_several_sources_are_united() {
    let a = Source::Directory(vec![dir(&["d"]), file(&["d", "one"])]);
    let b = Source::Directory(vec![dir(&["d"]), file(&["d", "two"]), dir(&["e"])]);
    assert_eq!(
        plan_merge(&vec![a, b]),
        vec![
            ensure(&[]),
            ensure(&["d"]),
            ensure(&["d"]),
            copy(0, &["d", "one"]),
            ensure(&["d"]),
            ensure(&["d"]),
            copy(1, &["d", "two"]),
            ensure(&["e"]),
        ]
    );
}

#[test]
fn a_source_that_is_no_directory_is_passed_over() {
    let listed = || Source::Directory(vec![file(&["f"])]);
    let with_absent = plan_merge(&vec![listed(), Source::Absent, listed()]);
    let with_empty = plan_merge(&vec![listed(), Source::Directory(vec![]), listed()]);
    assert_eq!(with_absent, with_empty);
    assert_eq!(
        with_absent,
        vec![ensure(&[]), ensure(&[]), copy(0, &["f"]), ensure(&[]), copy(2, &["f"])]
    );
    assert_eq!(copied_from(&with_absent, &path(&["f"])), Some(2));
    assert_eq!(plan_merge(&vec![Source::Absent, Source::Absent]), vec![ensure(&[])]);
}

#[test]
fn plan_of_one_source_carries_its_number() {
    let source = Source::Directory(vec![file(&["a"]), dir(&["b"])]);
    assert_eq!(plan_source(7, &source), vec![ensure(&[]), copy(7, &["a"]), ensure(&["b"])]);
    assert_eq!(plan_source(7, &Source::Absent), vec![]);
}

#[test]
fn paths_are_compared_by_components() {
    let actions = vec![copy(0, &["a", "b"]), copy(1, &["ab"]), copy(2, &["a"]), copy(3, &[])];
    assert_eq!(copied_from(&actions, &path(&["a", "b"])), Some(0));
    assert_eq!(copied_from(&actions, &path(&["ab"])), Some(1));
    assert_eq!(copied_from(&actions, &path(&["a"])), Some(2));
    assert_eq!(copied_from(&actions, &path(&[])), Some(3));
    assert_eq!(copied_from(&actions, &path(&["b"])), None);
    assert_eq!(copied_from(&actions, &path(&["a", "b", "c"])), None);
}
