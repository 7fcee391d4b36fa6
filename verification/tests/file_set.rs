use nil::base::FileId;
use nil::file_set::FileSet;
use nil::file_set::SourceRoot;
use nil::path::VfsPath;

fn path(s: &str) -> VfsPath {
    VfsPath::new(s).unwrap()
}

fn sample() -> FileSet {
    let mut set = FileSet::default();
    set.insert(FileId(0), path("/default.nix"));
    set.insert(FileId(1), path("/lib/a.nix"));
    set.insert(FileId(2), path("/lib/b.nix"));
    set
}

#[test]
fn file_and_path_find_each_other() {
    let set = sample();
    for file in [FileId(0), FileId(1), FileId(2)] {
        let p = set.path_for_file(file).clone();
        assert_eq!(set.file_for_path(&p), Some(file));
    }
    for p in ["/default.nix", "/lib/a.nix", "/lib/b.nix"] {
        let file = set.file_for_path(&path(p)).unwrap();
        assert_eq!(set.path_for_file(file).as_str(), p);
    }
}

#[test]
fn unknown_path_has_no_file() {
    let set = sample();
    assert_eq!(set.file_for_path(&path("/lib/c.nix")), None);
    assert!(!set.contains_file(FileId(3)));
    assert!(set.contains_file(FileId(2)));
}

#[test]
fn iter_lists_pairs_in_order_of_insertion() {
    let set = sample();
    let pairs: Vec<(FileId, String)> =
        set.iter().into_iter().map(|(f, p)| (f, p.as_str().to_owned())).collect();
    assert_eq!(
        pairs,
        vec![
            (FileId(0), "/default.nix".to_owned()),
            (FileId(1), "/lib/a.nix".to_owned()),
            (FileId(2), "/lib/b.nix".to_owned()),
        ]
    );
}

#[test]
fn remove_file_takes_the_pair_out() {
    let mut set = sample();
    set.remove_file(FileId(1));
    assert!(!set.contains_file(FileId(1)));
    assert_eq!(set.file_for_path(&path("/lib/a.nix")), None);
    assert_eq!(set.file_for_path(&path("/lib/b.nix")), Some(FileId(2)));
    assert_eq!(set.iter().len(), 2);
    set.remove_file(FileId(7));
    assert_eq!(set.iter().len(), 2);
}

#[test]
fn insert_replaces_what_held_the_file_or_the_path() {
    let mut set = sample();
    // The file moves to a new path: its old path is free again.
    set.insert(FileId(1), path("/lib/c.nix"));
    assert_eq!(set.file_for_path(&path("/lib/a.nix")), None);
    assert_eq!(set.path_for_file(FileId(1)).as_str(), "/lib/c.nix");
    // The path goes to another file: the file that held it is gone.
    set.insert(FileId(9), path("/lib/b.nix"));
    assert!(!set.contains_file(FileId(2)));
    assert_eq!(set.file_for_path(&path("/lib/b.nix")), Some(FileId(9)));
    assert_eq!(set.iter().len(), 3);
}

#[test]
fn file_sets_are_equal_whatever_the_order() {
    let mut a = FileSet::default();
    a.insert(FileId(0), path("/x"));
    a.insert(FileId(1), path("/y"));
    let mut b = FileSet::default();
    b.insert(FileId(1), path("/y"));
    b.insert(FileId(0), path("/x"));
    assert_eq!(a, b);
    assert_eq!(a, a.clone());
    b.insert(FileId(2), path("/z"));
    assert_ne!(a, b);
    let mut c = FileSet::default();
    c.insert(FileId(0), path("/y"));
    c.insert(FileId(1), path("/x"));
    assert_ne!(a, c);
}

#[test]
fn source_root_answers_as_its_file_set() {
    let root = SourceRoot::new_local(sample(), Some(FileId(0)));
    assert_eq!(root.entry(), Some(FileId(0)));
    assert_eq!(root.file_for_path(&path("/lib/a.nix")), Some(FileId(1)));
    assert_eq!(root.file_for_path(&path("/nope")), None);
    assert!(root.contains_file(FileId(2)));
    assert_eq!(root.path_for_file(FileId(2)).as_str(), "/lib/b.nix");
    assert_eq!(root.iter().len(), 3);
    assert_eq!(root, root.clone());
    assert_ne!(root, SourceRoot::new_local(sample(), None));
}
