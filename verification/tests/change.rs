use nil::base::FileId;
use nil::base::SourceRootId;
use nil::change::Change;
use nil::change::ChangeSummary;
use nil::change::Durability;
use nil::change::InputWrite;
use nil::file_set::FileSet;
use nil::file_set::SourceRoot;
use nil::path::VfsPath;
use std::sync::Arc;

fn root(files: &[(u32, &str)], entry: Option<u32>) -> SourceRoot {
    let mut set = FileSet::default();
    for (id, path) in files {
        set.insert(FileId(*id), VfsPath::new(*path).unwrap());
    }
    SourceRoot::new_local(set, entry.map(FileId))
}

#[test]
fn new_change_is_empty() {
    let change = Change::new();
    assert!(change.is_empty());
    assert!(Change::default().is_empty());
    assert!(change.apply().is_empty());
}

#[test]
fn change_with_a_file_or_roots_is_not_empty() {
    let mut change = Change::new();
    change.change_file(FileId(0), Arc::from("x"));
    assert!(!change.is_empty());
    let mut change = Change::new();
    change.set_roots(Vec::new());
    assert!(!change.is_empty());
}

#[test]
fn file_states_tell_texts_from_cleared_files() {
    let mut change = Change::new();
    change.change_file(FileId(0), Arc::from("a"));
    change.change_file(FileId(1), Arc::from(""));
    change.change_file(FileId(0), Arc::from("b"));
    assert_eq!(
        change.file_states(),
        vec![(FileId(0), true), (FileId(1), false), (FileId(0), true)]
    );
    assert_eq!(
        change.summary(),
        ChangeSummary { roots: None, modified: 2, cleared: 1 }
    );
}

#[test]
fn summary_counts_the_roots() {
    let mut change = Change::new();
    change.set_roots(vec![root(&[(0, "/a")], None), root(&[], None)]);
    assert_eq!(
        change.summary(),
        ChangeSummary { roots: Some(2), modified: 0, cleared: 0 }
    );
}

#[test]
fn apply_writes_roots_before_texts() {
    let mut change = Change::new();
    change.change_file(FileId(1), Arc::from("one"));
    change.set_roots(vec![
        root(&[(0, "/a"), (1, "/b")], Some(0)),
        root(&[(2, "/c")], None),
    ]);
    change.change_file(FileId(2), Arc::from(""));
    let writes = change.apply();
    assert_eq!(writes.len(), 7);
    let mut shown = Vec::new();
    for w in &writes {
        shown.push(match w {
            InputWrite::FileSourceRoot { file, id } => format!("file {} in root {}", file.0, id.0),
            InputWrite::SourceRoot { id, root } => {
                format!("root {} of {} files, entry {:?}", id.0, root.iter().len(), root.entry())
            }
            InputWrite::FileContent { file, content } => format!("text of {}: {:?}", file.0, content),
        });
    }
    assert_eq!(
        shown,
        vec![
            "file 0 in root 0",
            "file 1 in root 0",
            "root 0 of 2 files, entry Some(FileId(0))",
            "file 2 in root 1",
            "root 1 of 1 files, entry None",
            "text of 1: \"one\"",
            "text of 2: \"\"",
        ]
    );
}

#[test]
fn writes_carry_their_durability() {
    let mut change = Change::new();
    change.set_roots(vec![root(&[(0, "/a")], None)]);
    change.change_file(FileId(0), Arc::from("x"));
    let writes = change.apply();
    let durabilities: Vec<Durability> = writes.iter().map(|w| w.durability()).collect();
    assert_eq!(durabilities, vec![Durability::High, Durability::High, Durability::Low]);
    assert!(matches!(
        writes[0],
        InputWrite::FileSourceRoot { file: FileId(0), id: SourceRootId(0) }
    ));
}

#[test]
fn changes_clone_and_compare() {
    let mut change = Change::new();
    change.set_roots(vec![root(&[(0, "/a"), (1, "/b")], Some(0))]);
    change.change_file(FileId(1), Arc::from("one"));
    let copy = change.clone();
    assert_eq!(copy, change);
    assert_eq!(Change::new(), Change::default());
    assert_ne!(change, Change::new());
    let mut other = copy.clone();
    other.change_file(FileId(1), Arc::from("two"));
    assert_ne!(other, change);
    // The order in which a root came to hold its files does not count.
    let mut swapped = Change::new();
    swapped.set_roots(vec![root(&[(1, "/b"), (0, "/a")], Some(0))]);
    swapped.change_file(FileId(1), Arc::from("one"));
    assert_eq!(swapped, change);
}

#[test]
fn the_last_text_of_a_file_is_written_last() {
    let mut change = Change::new();
    change.change_file(FileId(0), Arc::from("first"));
    change.change_file(FileId(1), Arc::from("other"));
    change.change_file(FileId(0), Arc::from("second"));
    let mut texts = std::collections::HashMap::new();
    for write in change.apply() {
        if let InputWrite::FileContent { file, content } = write {
            texts.insert(file, content.to_string());
        }
    }
    assert_eq!(texts.get(&FileId(0)).map(String::as_str), Some("second"));
    assert_eq!(texts.get(&FileId(1)).map(String::as_str), Some("other"));
    assert_eq!(texts.get(&FileId(2)), None);
}

#[test]
fn a_change_of_one_file_writes_that_file_alone() {
    let mut change = Change::new();
    change.change_file(FileId(3), Arc::from("t"));
    let writes = change.apply();
    assert_eq!(writes.len(), 1);
    assert!(matches!(&writes[0], InputWrite::FileContent { file: FileId(3), content } if &**content == "t"));
    assert_eq!(writes[0].durability(), Durability::Low);
}
