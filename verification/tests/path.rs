use nil::path::VfsPath;
use std::path::PathBuf;

#[test]
fn root_is_empty() {
    assert_eq!(VfsPath::root().as_str(), "");
}

#[test]
fn new_reads_the_root_both_ways() {
    assert_eq!(VfsPath::new("/"), Some(VfsPath::root()));
    assert_eq!(VfsPath::new(""), Some(VfsPath::root()));
}

#[test]
fn new_refuses_what_is_not_normalized() {
    assert_eq!(VfsPath::new("a//b"), None);
    assert_eq!(VfsPath::new("a/"), None);
    assert_eq!(VfsPath::new("/a/"), None);
    assert_eq!(VfsPath::new("//"), None);
}

#[test]
fn new_puts_a_slash_in_front() {
    assert_eq!(VfsPath::new("a/b").unwrap().as_str(), "/a/b");
    assert_eq!(VfsPath::new("/a/b").unwrap().as_str(), "/a/b");
    assert_eq!(VfsPath::new("é").unwrap().as_str(), "/é");
}

#[test]
fn push_segment_and_pop() {
    let mut p = VfsPath::new("/a").unwrap();
    assert_eq!(p.push_segment("b"), Some(()));
    assert_eq!(p.as_str(), "/a/b");
    assert_eq!(p.push_segment("c/d"), None);
    assert_eq!(p.push_segment(""), None);
    assert_eq!(p.as_str(), "/a/b");
    assert_eq!(p.pop(), Some(()));
    assert_eq!(p.as_str(), "/a");
    assert_eq!(p.pop(), Some(()));
    assert_eq!(p.as_str(), "");
    assert_eq!(p.pop(), None);
    assert_eq!(p.as_str(), "");
}

#[test]
fn pop_counts_characters_not_bytes() {
    let mut p = VfsPath::new("/é/ü").unwrap();
    assert_eq!(p.pop(), Some(()));
    assert_eq!(p.as_str(), "/é");
}

#[test]
fn push_joins_two_paths() {
    let mut p = VfsPath::new("/a").unwrap();
    p.push(&VfsPath::new("b/c").unwrap());
    assert_eq!(p.as_str(), "/a/b/c");
    p.push(&VfsPath::root());
    assert_eq!(p.as_str(), "/a/b/c");
}

#[test]
fn from_path_reads_the_text_of_the_path() {
    assert_eq!(
        VfsPath::from_path(&PathBuf::from("lib/a.nix")).unwrap().as_str(),
        "/lib/a.nix"
    );
    assert_eq!(VfsPath::from_path(&PathBuf::from("/lib/a.nix")).unwrap().as_str(), "/lib/a.nix");
    assert_eq!(VfsPath::from_path(&PathBuf::from("")), Some(VfsPath::root()));
    assert_eq!(VfsPath::from_path(&PathBuf::from("/")), Some(VfsPath::root()));
    assert_eq!(VfsPath::from_path(&PathBuf::from("a//b")), None);
    assert_eq!(VfsPath::from_path(&PathBuf::from("a/")), None);
}

#[test]
fn try_from_reads_as_new_does() {
    assert_eq!(VfsPath::try_from("a/b").unwrap().as_str(), "/a/b");
    assert_eq!(VfsPath::try_from(String::from("/a/b")).unwrap().as_str(), "/a/b");
    assert_eq!(VfsPath::try_from(""), Ok(VfsPath::root()));
    assert_eq!(VfsPath::try_from("a//b"), Err(()));
    assert_eq!(VfsPath::try_from(String::from("a/")), Err(()));
}

#[test]
fn paths_clone_and_compare_by_their_text() {
    let p = VfsPath::new("a/b").unwrap();
    assert_eq!(p.clone(), p);
    assert_eq!(p, VfsPath::new("/a/b").unwrap());
    assert_ne!(p, VfsPath::new("/a/c").unwrap());
    assert_ne!(p, VfsPath::root());
}

#[test]
fn every_path_is_kept_normalized() {
    let mut paths = vec![VfsPath::root()];
    for text in ["a", "/a", "a/b", "/a/b/c", "é/ü"] {
        paths.push(VfsPath::new(text).unwrap());
    }
    let mut more = Vec::new();
    for p in &paths {
        for q in &paths {
            let mut joined = p.clone();
            joined.push(q);
            more.push(joined);
        }
        let mut longer = p.clone();
        assert_eq!(longer.push_segment("x.nix"), Some(()));
        more.push(longer);
        let mut shorter = p.clone();
        let _ = shorter.pop();
        more.push(shorter);
    }
    for p in paths.iter().chain(more.iter()) {
        let s = p.as_str();
        assert!(s.is_empty() || s.starts_with('/'), "{:?}", s);
        assert!(!s.ends_with('/'), "{:?}", s);
        assert!(!s.contains("//"), "{:?}", s);
        assert_eq!(VfsPath::new(s).as_ref(), Some(p));
    }
}
