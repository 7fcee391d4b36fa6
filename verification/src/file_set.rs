//! Sets of files and their paths, and the source roots made of them.

use crate::base::FileId;
use crate::path::VfsPath;
use vstd::prelude::*;

verus! {

/// No file and no path stands in two pairs: the pairs are a bijection
/// between their files and their paths.
pub open spec fn is_one_to_one(s: Seq<(FileId, Seq<char>)>) -> bool {
    forall|i: int, j: int|
        0 <= i < j < s.len() ==> (#[trigger] s[i]).0 != (#[trigger] s[j]).0 && s[i].1 != s[j].1
}

/// The file that stands with `path`, if there is one.
pub open spec fn file_of(s: Seq<(FileId, Seq<char>)>, path: Seq<char>) -> Option<FileId> {
    if exists|f: FileId| s.contains((f, path)) {
        Some(choose|f: FileId| s.contains((f, path)))
    } else {
        None
    }
}

/// The path that stands with `file`, if there is one.
pub open spec fn path_of(s: Seq<(FileId, Seq<char>)>, file: FileId) -> Option<Seq<char>> {
    if exists|p: Seq<char>| s.contains((file, p)) {
        Some(choose|p: Seq<char>| s.contains((file, p)))
    } else {
        None
    }
}

/// The pairs that an insertion of `file` at `path` leaves in place: those
/// that hold neither.
pub open spec fn clear_of(file: FileId, path: Seq<char>) -> spec_fn((FileId, Seq<char>)) -> bool {
    |e: (FileId, Seq<char>)| e.0 != file && e.1 != path
}

/// The pairs that the removal of `file` leaves in place.
pub open spec fn other_than(file: FileId) -> spec_fn((FileId, Seq<char>)) -> bool {
    |e: (FileId, Seq<char>)| e.0 != file
}

/// The pairs of files and path texts that a list of entries holds.
pub open spec fn pairs_of(entries: Seq<(FileId, VfsPath)>) -> Seq<(FileId, Seq<char>)> {
    Seq::new(entries.len(), |i: int| (entries[i].0, entries[i].1@))
}

/// In a bijection a pair is found from either side.
///
/// Looking up the path of a file and then the file of that path gives the
/// file again, and the other way round.
pub proof fn lemma_file_path_round_trip(s: Seq<(FileId, Seq<char>)>, file: FileId, path: Seq<char>)
    requires
        is_one_to_one(s),
        s.contains((file, path)),
    ensures
        path_of(s, file) == Some(path),
        file_of(s, path) == Some(file),
        file_of(s, path_of(s, file).unwrap()) == Some(file),
        path_of(s, file_of(s, path).unwrap()) == Some(path),
{
    let i = choose|i: int| 0 <= i < s.len() && s[i] == (file, path);
    let p = choose|p: Seq<char>| s.contains((file, p));
    let j = choose|j: int| 0 <= j < s.len() && s[j] == (file, p);
    assert(i == j);
    let f = choose|f: FileId| s.contains((f, path));
    let k = choose|k: int| 0 <= k < s.len() && s[k] == (f, path);
    assert(i == k);
}

/// An insertion of a file and a path that the pairs do not hold takes no
/// pair out.
pub proof fn lemma_nothing_displaced(s: Seq<(FileId, Seq<char>)>, file: FileId, path: Seq<char>)
    requires
        forall|i: int| 0 <= i < s.len() ==> (#[trigger] s[i]).0 != file && s[i].1 != path,
    ensures
        s.filter(clear_of(file, path)) == s,
    decreases s.len(),
{
    reveal(Seq::filter);
    if s.len() > 0 {
        lemma_nothing_displaced(s.drop_last(), file, path);
        assert(s.drop_last().push(s.last()) =~= s);
    }
}

/// What is left of a bijection when pairs are taken out is a bijection.
proof fn lemma_filter_one_to_one(
    s: Seq<(FileId, Seq<char>)>,
    keep: spec_fn((FileId, Seq<char>)) -> bool,
)
    requires
        is_one_to_one(s),
    ensures
        is_one_to_one(s.filter(keep)),
        forall|e: (FileId, Seq<char>)| #[trigger] s.filter(keep).contains(e) ==> s.contains(e) && keep(e),
    decreases s.len(),
{
    reveal(Seq::filter);
    if s.len() > 0 {
        let rest = s.drop_last();
        let last = s.last();
        lemma_filter_one_to_one(rest, keep);
        let kept = rest.filter(keep);
        assert forall|e: (FileId, Seq<char>)| #[trigger] kept.contains(e) implies s.contains(e) by {
            let i = choose|i: int| 0 <= i < rest.len() && rest[i] == e;
            assert(s[i] == e);
        }
        if keep(last) {
            let out = kept.push(last);
            assert forall|i: int, j: int| 0 <= i < j < out.len() implies (#[trigger] out[i]).0 != (
            #[trigger] out[j]).0 && out[i].1 != out[j].1 by {
                if j == kept.len() {
                    assert(kept.contains(kept[i]));
                    let m = choose|m: int| 0 <= m < rest.len() && rest[m] == kept[i];
                    assert(s[m] == kept[i]);
                    assert(s[s.len() - 1] == last);
                } else {
                    assert(out[i] == kept[i] && out[j] == kept[j]);
                }
            }
            assert forall|e: (FileId, Seq<char>)| #[trigger] out.contains(e) implies s.contains(e)
                && keep(e) by {
                let i = choose|i: int| 0 <= i < out.len() && out[i] == e;
                if i == kept.len() {
                    assert(s[s.len() - 1] == e);
                } else {
                    assert(kept[i] == e);
                    assert(kept.contains(e));
                }
            }
        }
    }
}

/// A set of paths, each known by the file that stands for it: a bijection
/// between files and paths, kept in the order in which the pairs came.
#[derive(Debug)]
pub struct FileSet {
    entries: Vec<(FileId, VfsPath)>,
}

impl View for FileSet {
    type V = Seq<(FileId, Seq<char>)>;

    closed spec fn view(&self) -> Seq<(FileId, Seq<char>)> {
        pairs_of(self.entries@)
    }
}

impl Default for FileSet {
    fn default() -> (r: Self)
        ensures
            r@ == Seq::<(FileId, Seq<char>)>::empty(),
    {
        let r = FileSet { entries: Vec::new() };
        assert(r@ =~= Seq::empty());
        r
    }
}

impl Clone for FileSet {
    fn clone(&self) -> (r: Self)
        ensures
            r@ == self@,
    {
        proof {
            use_type_invariant(self);
        }
        let mut entries: Vec<(FileId, VfsPath)> = Vec::new();
        let n = self.entries.len();
        for i in 0..n
            invariant
                n == self.entries@.len(),
                pairs_of(entries@) == pairs_of(self.entries@).take(i as int),
        {
            let ghost before = pairs_of(entries@);
            entries.push((self.entries[i].0, self.entries[i].1.clone()));
            assert(pairs_of(entries@) =~= before.push(pairs_of(self.entries@)[i as int]));
            assert(pairs_of(self.entries@).take(i + 1) =~= before.push(
                pairs_of(self.entries@)[i as int],
            ));
        }
        assert(pairs_of(self.entries@).take(n as int) =~= pairs_of(self.entries@));
        FileSet { entries }
    }
}

impl PartialEq for FileSet {
    fn eq(&self, other: &Self) -> (r: bool) {
        let r = self.within(other) && other.within(self);
        assert(r == (self@.to_set() =~= other@.to_set()));
        r
    }
}

/// Two file sets are equal when they hold the same pairs, in whatever order.
impl vstd::std_specs::cmp::PartialEqSpecImpl for FileSet {
    open spec fn obeys_eq_spec() -> bool {
        true
    }

    open spec fn eq_spec(&self, other: &Self) -> bool {
        self@.to_set() == other@.to_set()
    }
}

impl Eq for FileSet {

}

impl FileSet {
    #[verifier::type_invariant]
    spec fn bijective(self) -> bool {
        is_one_to_one(pairs_of(self.entries@))
    }

    /// What holds of every set: no file and no path stands twice. Nothing
    /// is done when this is called; it hands the fact to the caller.
    pub fn use_one_to_one(&self)
        ensures
            is_one_to_one(self@),
    {
        proof {
            use_type_invariant(self);
        }
    }

    /// Binds `file` and `path` to each other. A pair that held either of
    /// them before leaves the set; the new pair comes last.
    pub fn insert(&mut self, file: FileId, path: VfsPath)
        ensures
            final(self)@ == old(self)@.filter(clear_of(file, path@)).push((file, path@)),
            is_one_to_one(final(self)@),
    {
        proof {
            use_type_invariant(&*self);
        }
        let fresh = !self.contains_file(file) && self.file_for_path(&path).is_none();
        let mut entries: Vec<(FileId, VfsPath)> = Vec::new();
        core::mem::swap(&mut self.entries, &mut entries);
        let ghost before = pairs_of(entries@);
        let ghost keep = clear_of(file, path@);
        let mut kept: Vec<(FileId, VfsPath)> = Vec::new();
        if fresh {
            proof {
                assert forall|i: int| 0 <= i < before.len() implies (#[trigger] before[i]).0 != file
                    && before[i].1 != path@ by {
                    if before[i].0 == file {
                        assert(before.contains((file, before[i].1)));
                    }
                    if before[i].1 == path@ {
                        assert(before.contains((before[i].0, path@)));
                    }
                }
                lemma_nothing_displaced(before, file, path@);
            }
            kept = entries;
        } else {
            proof {
                reveal(Seq::filter);
                assert(before.take(0) =~= Seq::empty());
            }
            for e in it: entries
                invariant
                    pairs_of(it.seq()) == before,
                    keep == clear_of(file, path@),
                    pairs_of(kept@) == before.take(it.index() as int).filter(keep),
            {
                let ghost seen = before.take(it.index() as int);
                let ghost pair = (e.0, e.1@);
                proof {
                    assert(before.take(it.index() + 1) =~= seen.push(pair));
                    seen.lemma_filter_push(pair, keep);
                }
                if e.0 != file && !e.1.eq(&path) {
                    let ghost was = pairs_of(kept@);
                    kept.push(e);
                    assert(pairs_of(kept@) =~= was.push(pair));
                }
            }
            assert(before.take(before.len() as int) =~= before);
        }
        proof {
            lemma_filter_one_to_one(before, keep);
            let left = before.filter(keep);
            let out = left.push((file, path@));
            assert forall|i: int, j: int| 0 <= i < j < out.len() implies (#[trigger] out[i]).0 != (
            #[trigger] out[j]).0 && out[i].1 != out[j].1 by {
                if j == left.len() {
                    assert(left.contains(left[i]));
                } else {
                    assert(out[i] == left[i] && out[j] == left[j]);
                }
            }
            assert(pairs_of(kept@.push((file, path))) =~= out);
        }
        kept.push((file, path));
        self.entries = kept;
    }

    /// Takes `file` and its path out of the set, if it is there.
    pub fn remove_file(&mut self, file: FileId)
        ensures
            final(self)@ == old(self)@.filter(other_than(file)),
            is_one_to_one(final(self)@),
    {
        proof {
            use_type_invariant(&*self);
        }
        let mut entries: Vec<(FileId, VfsPath)> = Vec::new();
        core::mem::swap(&mut self.entries, &mut entries);
        let ghost before = pairs_of(entries@);
        let ghost keep = other_than(file);
        let mut kept: Vec<(FileId, VfsPath)> = Vec::new();
        proof {
            reveal(Seq::filter);
            assert(before.take(0) =~= Seq::empty());
        }
        for e in it: entries
            invariant
                pairs_of(it.seq()) == before,
                keep == other_than(file),
                pairs_of(kept@) == before.take(it.index() as int).filter(keep),
        {
            let ghost seen = before.take(it.index() as int);
            let ghost pair = (e.0, e.1@);
            proof {
                assert(before.take(it.index() + 1) =~= seen.push(pair));
                seen.lemma_filter_push(pair, keep);
            }
            if e.0 != file {
                let ghost was = pairs_of(kept@);
                kept.push(e);
                assert(pairs_of(kept@) =~= was.push(pair));
            }
        }
        proof {
            assert(before.take(before.len() as int) =~= before);
            lemma_filter_one_to_one(before, keep);
        }
        self.entries = kept;
    }

    /// The file bound to `path`, if the set holds the path.
    pub fn file_for_path(&self, path: &VfsPath) -> (r: Option<FileId>)
        ensures
            r == file_of(self@, path@),
            r matches Some(f) ==> self@.contains((f, path@)),
            r is None ==> forall|f: FileId| !self@.contains((f, path@)),
            is_one_to_one(self@),
    {
        proof {
            use_type_invariant(self);
        }
        let n = self.entries.len();
        for i in 0..n
            invariant
                n == self.entries@.len(),
                is_one_to_one(self@),
                forall|k: int| 0 <= k < i ==> (#[trigger] self@[k]).1 != path@,
        {
            if self.entries[i].1.eq(path) {
                let file = self.entries[i].0;
                proof {
                    assert(self@[i as int] == (file, path@));
                    lemma_file_path_round_trip(self@, file, path@);
                }
                return Some(file);
            }
        }
        None
    }

    /// Whether every pair of this set is a pair of `other`.
    fn within(&self, other: &Self) -> (r: bool)
        ensures
            r == self@.to_set().subset_of(other@.to_set()),
    {
        let n = self.entries.len();
        for i in 0..n
            invariant
                n == self.entries@.len(),
                forall|k: int| 0 <= k < i ==> other@.contains(#[trigger] self@[k]),
        {
            let file = self.entries[i].0;
            let found = other.file_for_path(&self.entries[i].1);
            let ghost pair = (file, self.entries@[i as int].1@);
            assert(self@[i as int] == pair);
            match found {
                Some(f) if f == file => {},
                _ => {
                    proof {
                        assert(self@.contains(pair));
                        if other@.contains(pair) {
                            lemma_file_path_round_trip(other@, pair.0, pair.1);
                        }
                        assert(self@.to_set().contains(pair));
                        assert(!other@.to_set().contains(pair));
                    }
                    return false;
                },
            }
        }
        assert forall|e: (FileId, Seq<char>)| self@.to_set().contains(e) implies other@.to_set().contains(e) by {
            let k = choose|k: int| 0 <= k < self@.len() && self@[k] == e;
            assert(other@.contains(self@[k]));
        }
        true
    }

    /// Whether the set holds `file`.
    pub fn contains_file(&self, file: FileId) -> (r: bool)
        ensures
            r == path_of(self@, file).is_some(),
    {
        let n = self.entries.len();
        for i in 0..n
            invariant
                n == self.entries@.len(),
                forall|k: int| 0 <= k < i ==> (#[trigger] self@[k]).0 != file,
        {
            if self.entries[i].0 == file {
                assert(self@[i as int] == (file, self.entries@[i as int].1@));
                assert(self@.contains((file, self.entries@[i as int].1@)));
                return true;
            }
        }
        false
    }

    /// The path bound to `file`, which the set holds.
    pub fn path_for_file(&self, file: FileId) -> (r: &VfsPath)
        requires
            path_of(self@, file).is_some(),
        ensures
            path_of(self@, file) == Some(r@),
            self@.contains((file, r@)),
            file_of(self@, r@) == Some(file),
            is_one_to_one(self@),
    {
        proof {
            use_type_invariant(self);
        }
        let n = self.entries.len();
        let mut i: usize = 0;
        loop
            invariant
                n == self.entries@.len(),
                i <= n,
                is_one_to_one(self@),
                path_of(self@, file).is_some(),
                forall|k: int| 0 <= k < i ==> (#[trigger] self@[k]).0 != file,
            decreases n - i,
        {
            proof {
                let p = choose|p: Seq<char>| self@.contains((file, p));
                let k = choose|k: int| 0 <= k < self@.len() && self@[k] == (file, p);
                assert(self@[k].0 == file);
            }
            if self.entries[i].0 == file {
                proof {
                    assert(self@[i as int] == (file, self.entries@[i as int].1@));
                    lemma_file_path_round_trip(self@, file, self.entries@[i as int].1@);
                }
                return &self.entries[i].1;
            }
            i = i + 1;
        }
    }

    /// Every pair of the set, in the order in which the pairs came.
    pub fn iter(&self) -> (r: Vec<(FileId, &VfsPath)>)
        ensures
            r@.len() == self@.len(),
            forall|i: int| 0 <= i < r@.len() ==> (#[trigger] r@[i]).0 == self@[i].0 && r@[i].1@ == self@[i].1,
            is_one_to_one(self@),
    {
        proof {
            use_type_invariant(self);
        }
        let mut out: Vec<(FileId, &VfsPath)> = Vec::new();
        let n = self.entries.len();
        for i in 0..n
            invariant
                n == self.entries@.len(),
                out@.len() == i,
                forall|k: int| 0 <= k < i ==> (#[trigger] out@[k]).0 == self@[k].0 && out@[k].1@ == self@[k].1,
        {
            out.push((self.entries[i].0, &self.entries[i].1));
        }
        out
    }
}

/// A workspace unit: a set of files and, where one is marked, the file
/// that is its entry.
#[derive(Debug)]
pub struct SourceRoot {
    file_set: FileSet,
    entry: Option<FileId>,
}

impl Clone for SourceRoot {
    fn clone(&self) -> (r: Self)
        ensures
            r.files() == self.files(),
            r.spec_entry() == self.spec_entry(),
    {
        SourceRoot { file_set: self.file_set.clone(), entry: self.entry }
    }
}

impl PartialEq for SourceRoot {
    fn eq(&self, other: &Self) -> (r: bool) {
        let same_entry = match (self.entry, other.entry) {
            (Some(a), Some(b)) => a == b,
            (None, None) => true,
            _ => false,
        };
        self.file_set == other.file_set && same_entry
    }
}

/// Two source roots are equal when they hold the same pairs and mark the
/// same entry.
impl vstd::std_specs::cmp::PartialEqSpecImpl for SourceRoot {
    open spec fn obeys_eq_spec() -> bool {
        true
    }

    open spec fn eq_spec(&self, other: &Self) -> bool {
        self.files().to_set() == other.files().to_set() && self.spec_entry() == other.spec_entry()
    }
}

impl Eq for SourceRoot {

}

impl SourceRoot {
    /// The pairs of files and paths of the root, in the order of its file set.
    pub closed spec fn files(&self) -> Seq<(FileId, Seq<char>)> {
        self.file_set@
    }

    /// The entry of the root, where one is marked.
    pub closed spec fn spec_entry(&self) -> Option<FileId> {
        self.entry
    }

    /// A root of local files.
    pub fn new_local(file_set: FileSet, entry: Option<FileId>) -> (r: Self)
        ensures
            r.files() == file_set@,
            r.spec_entry() == entry,
    {
        SourceRoot { file_set, entry }
    }

    /// The file bound to `path`, if the root holds the path.
    pub fn file_for_path(&self, path: &VfsPath) -> (r: Option<FileId>)
        ensures
            r == file_of(self.files(), path@),
            r matches Some(f) ==> self.files().contains((f, path@)),
            r is None ==> forall|f: FileId| !self.files().contains((f, path@)),
            is_one_to_one(self.files()),
    {
        self.file_set.file_for_path(path)
    }

    /// Whether the root holds `file`.
    pub fn contains_file(&self, file: FileId) -> (r: bool)
        ensures
            r == path_of(self.files(), file).is_some(),
    {
        self.file_set.contains_file(file)
    }

    /// The path bound to `file`, which the root holds.
    pub fn path_for_file(&self, file: FileId) -> (r: &VfsPath)
        requires
            path_of(self.files(), file).is_some(),
        ensures
            path_of(self.files(), file) == Some(r@),
            self.files().contains((file, r@)),
            file_of(self.files(), r@) == Some(file),
            is_one_to_one(self.files()),
    {
        self.file_set.path_for_file(file)
    }

    /// Every pair of the root, in the order of its file set.
    pub fn iter(&self) -> (r: Vec<(FileId, &VfsPath)>)
        ensures
            r@.len() == self.files().len(),
            forall|i: int|
                0 <= i < r@.len() ==> (#[trigger] r@[i]).0 == self.files()[i].0 && r@[i].1@
                    == self.files()[i].1,
            is_one_to_one(self.files()),
    {
        self.file_set.iter()
    }

    /// The entry of the root, where one is marked.
    pub fn entry(&self) -> (r: Option<FileId>)
        ensures
            r == self.spec_entry(),
    {
        self.entry
    }
}

} // verus!
