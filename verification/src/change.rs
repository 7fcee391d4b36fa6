//! Changes to the inputs of the analysis, and the writes that carry them out.

use crate::base::FileId;
use crate::base::SourceRootId;
use crate::file_set::SourceRoot;
use std::sync::Arc;
use vstd::prelude::*;

verus! {

/// How seldom an input is expected to change.
#[derive(Debug, Clone, Copy, PartialEq, Eq, Hash, Structural)]
pub enum Durability {
    Low,
    Medium,
    High,
}

/// One write to the input tables of the source database.
#[derive(Debug)]
pub enum InputWrite {
    /// `file` belongs to the source root `id`.
    FileSourceRoot { file: FileId, id: SourceRootId },
    /// The source root `id` is `root`.
    SourceRoot { id: SourceRootId, root: SourceRoot },
    /// The text of `file` is `content`.
    FileContent { file: FileId, content: Arc<str> },
}

impl InputWrite {
    /// The durability that goes with each kind of write: the layout of the
    /// workspace changes seldom, the text of a file often.
    pub open spec fn spec_durability(self) -> Durability {
        match self {
            InputWrite::FileSourceRoot { .. } => Durability::High,
            InputWrite::SourceRoot { .. } => Durability::High,
            InputWrite::FileContent { .. } => Durability::Low,
        }
    }

    pub fn durability(&self) -> (r: Durability)
        ensures
            r == self.spec_durability(),
    {
        match self {
            InputWrite::FileSourceRoot { .. } => Durability::High,
            InputWrite::SourceRoot { .. } => Durability::High,
            InputWrite::FileContent { .. } => Durability::Low,
        }
    }
}

/// The writes that install `root` as the source root `id`: one for each of
/// its files, in the order of the root, and then the root itself.
pub open spec fn root_writes(id: SourceRootId, root: SourceRoot) -> Seq<InputWrite> {
    Seq::new(
        root.files().len(),
        |i: int| InputWrite::FileSourceRoot { file: root.files()[i].0, id },
    ).push(InputWrite::SourceRoot { id, root })
}

/// The writes that install a list of source roots, each under its position
/// in the list.
pub open spec fn roots_writes(roots: Seq<SourceRoot>) -> Seq<InputWrite>
    decreases roots.len(),
{
    if roots.len() == 0 {
        Seq::empty()
    } else {
        roots_writes(roots.drop_last()) + root_writes(
            SourceRootId((roots.len() - 1) as u32),
            roots.last(),
        )
    }
}

/// The writes that set the texts of files, in the order of the changes.
pub open spec fn content_writes(changes: Seq<(FileId, Arc<str>)>) -> Seq<InputWrite> {
    Seq::new(
        changes.len(),
        |i: int| InputWrite::FileContent { file: changes[i].0, content: changes[i].1 },
    )
}

/// Whether a change gives its file a text; a change to the empty text
/// clears the file.
pub open spec fn has_text(change: (FileId, Arc<str>)) -> bool {
    change.1@.len() > 0
}

/// The number of changes that give their file a text.
pub open spec fn modified_count(changes: Seq<(FileId, Arc<str>)>) -> nat
    decreases changes.len(),
{
    if changes.len() == 0 {
        0
    } else {
        modified_count(changes.drop_last()) + if has_text(changes.last()) {
            1nat
        } else {
            0nat
        }
    }
}

/// The text that a list of writes leaves as the text of `file`: that of the
/// last write of a text for the file, or nothing where the list writes no
/// text for it.
pub open spec fn written_content(writes: Seq<InputWrite>, file: FileId) -> Option<Seq<char>>
    decreases writes.len(),
{
    if writes.len() == 0 {
        None
    } else {
        match writes.last() {
            InputWrite::FileContent { file: f, content } => if f == file {
                Some(content@)
            } else {
                written_content(writes.drop_last(), file)
            },
            _ => written_content(writes.drop_last(), file),
        }
    }
}

/// The writes of source roots write no text.
pub proof fn lemma_roots_write_no_content(roots: Seq<SourceRoot>, file: FileId)
    ensures
        written_content(roots_writes(roots), file) is None,
    decreases roots.len(),
{
    if roots.len() > 0 {
        let id = SourceRootId((roots.len() - 1) as u32);
        let head = roots_writes(roots.drop_last());
        let tail = root_writes(id, roots.last());
        lemma_roots_write_no_content(roots.drop_last(), file);
        lemma_no_content_behind(head, tail, file);
    }
}

/// Writes that hold no text, behind other writes, leave the texts as those
/// left them.
proof fn lemma_no_content_behind(head: Seq<InputWrite>, tail: Seq<InputWrite>, file: FileId)
    requires
        forall|i: int| 0 <= i < tail.len() ==> !(#[trigger] tail[i] is FileContent),
    ensures
        written_content(head + tail, file) == written_content(head, file),
    decreases tail.len(),
{
    if tail.len() == 0 {
        assert(head + tail =~= head);
    } else {
        let shorter = tail.drop_last();
        assert forall|i: int| 0 <= i < shorter.len() implies !(#[trigger] shorter[i] is FileContent) by {
            assert(shorter[i] == tail[i]);
        }
        lemma_no_content_behind(head, shorter, file);
        assert((head + tail).drop_last() =~= head + shorter);
        assert((head + tail).last() == tail[tail.len() - 1]);
    }
}

/// What the writes of a change leave as the text of a file is the text of
/// the last change of that file, and they write no text for a file that the
/// change does not name.
pub proof fn lemma_last_text_is_written(change: Change, file: FileId)
    ensures
        match written_content(change.writes(), file) {
            Some(text) => exists|k: int|
                0 <= k < change.file_changes@.len() && (#[trigger] change.file_changes@[k]).0 == file
                    && change.file_changes@[k].1@ == text && forall|j: int|
                    k < j < change.file_changes@.len() ==> (#[trigger] change.file_changes@[j]).0
                        != file,
            None => forall|k: int|
                0 <= k < change.file_changes@.len() ==> (#[trigger] change.file_changes@[k]).0 != file,
        },
{
    let head = match change.roots {
        Some(roots) => roots_writes(roots@),
        None => Seq::empty(),
    };
    if change.roots is Some {
        lemma_roots_write_no_content(change.roots->0@, file);
    }
    lemma_texts_behind(head, change.file_changes@, file);
}

/// The texts of a list of changes, written behind writes that leave no text
/// for `file`, leave the text of the last change of the file.
proof fn lemma_texts_behind(head: Seq<InputWrite>, changes: Seq<(FileId, Arc<str>)>, file: FileId)
    requires
        written_content(head, file) is None,
    ensures
        match written_content(head + content_writes(changes), file) {
            Some(text) => exists|k: int|
                0 <= k < changes.len() && (#[trigger] changes[k]).0 == file && changes[k].1@ == text
                    && forall|j: int| k < j < changes.len() ==> (#[trigger] changes[j]).0 != file,
            None => forall|k: int| 0 <= k < changes.len() ==> (#[trigger] changes[k]).0 != file,
        },
    decreases changes.len(),
{
    let all = head + content_writes(changes);
    if changes.len() == 0 {
        assert(all =~= head);
    } else {
        let shorter = changes.drop_last();
        let last = changes.last();
        assert(all.drop_last() =~= head + content_writes(shorter));
        assert(all.last() == (InputWrite::FileContent { file: last.0, content: last.1 }));
        if last.0 == file {
            assert(changes[changes.len() - 1] == last);
        } else {
            lemma_texts_behind(head, shorter, file);
            match written_content(head + content_writes(shorter), file) {
                Some(text) => {
                    let k = choose|k: int|
                        0 <= k < shorter.len() && (#[trigger] shorter[k]).0 == file && shorter[k].1@
                            == text && forall|j: int|
                            k < j < shorter.len() ==> (#[trigger] shorter[j]).0 != file;
                    assert(changes[k] == shorter[k]);
                    assert forall|j: int| k < j < changes.len() implies (#[trigger] changes[j]).0
                        != file by {
                        if j < shorter.len() {
                            assert(changes[j] == shorter[j]);
                        }
                    }
                },
                None => {
                    assert forall|k: int| 0 <= k < changes.len() implies (#[trigger] changes[k]).0
                        != file by {
                        if k < shorter.len() {
                            assert(changes[k] == shorter[k]);
                        }
                    }
                },
            }
        }
    }
}

/// A change that changes nothing writes nothing.
pub proof fn lemma_empty_change_writes_nothing(change: Change)
    requires
        change.spec_is_empty(),
    ensures
        change.writes() == Seq::<InputWrite>::empty(),
{
    assert(change.writes() =~= Seq::empty());
}

/// What a change amounts to, in numbers.
#[derive(Debug, Clone, Copy, PartialEq, Eq, Structural)]
pub struct ChangeSummary {
    /// The number of source roots, where the change sets them.
    pub roots: Option<usize>,
    /// The number of file changes that give a text.
    pub modified: usize,
    /// The number of file changes that clear a file.
    pub cleared: usize,
}

/// A set of changes to the inputs of the analysis: the source roots, where
/// the layout of the workspace changed, and new texts of files.
#[derive(Debug, Clone, PartialEq, Eq)]
pub struct Change {
    pub roots: Option<Vec<SourceRoot>>,
    pub file_changes: Vec<(FileId, Arc<str>)>,
}

impl Default for Change {
    fn default() -> (r: Self)
        ensures
            r.roots is None,
            r.file_changes@.len() == 0,
    {
        Change { roots: None, file_changes: Vec::new() }
    }
}

impl Change {
    /// The change that changes nothing.
    pub fn new() -> (r: Self)
        ensures
            r.roots is None,
            r.file_changes@.len() == 0,
            r.spec_is_empty(),
            r.writes() == Seq::<InputWrite>::empty(),
    {
        let r = Change { roots: None, file_changes: Vec::new() };
        assert(r.writes() =~= Seq::empty());
        r
    }

    pub open spec fn spec_is_empty(&self) -> bool {
        self.roots is None && self.file_changes@.len() == 0
    }

    /// Whether the change changes nothing.
    pub fn is_empty(&self) -> (r: bool)
        ensures
            r == self.spec_is_empty(),
    {
        self.roots.is_none() && self.file_changes.len() == 0
    }

    /// Sets all source roots anew.
    pub fn set_roots(&mut self, roots: Vec<SourceRoot>)
        ensures
            final(self).roots == Some(roots),
            final(self).file_changes == old(self).file_changes,
    {
        self.roots = Some(roots);
    }

    /// Gives `file_id` a new text, after the changes made so far.
    pub fn change_file(&mut self, file_id: FileId, content: Arc<str>)
        ensures
            final(self).roots == old(self).roots,
            final(self).file_changes@ == old(self).file_changes@.push((file_id, content)),
    {
        self.file_changes.push((file_id, content));
    }

    /// The writes that carry the change out, in their order: the source
    /// roots first, where they are set, then the texts.
    pub open spec fn writes(&self) -> Seq<InputWrite> {
        (match self.roots {
            Some(roots) => roots_writes(roots@),
            None => Seq::empty(),
        }) + content_writes(self.file_changes@)
    }

    /// Each changed file, in the order of the changes, with whether it has
    /// a text now.
    pub fn file_states(&self) -> (r: Vec<(FileId, bool)>)
        ensures
            r@ == Seq::new(
                self.file_changes@.len(),
                |i: int| (self.file_changes@[i].0, has_text(self.file_changes@[i])),
            ),
    {
        let mut out: Vec<(FileId, bool)> = Vec::new();
        let n = self.file_changes.len();
        for i in 0..n
            invariant
                n == self.file_changes@.len(),
                out@ == Seq::new(
                    i as nat,
                    |k: int| (self.file_changes@[k].0, has_text(self.file_changes@[k])),
                ),
        {
            out.push((self.file_changes[i].0, !self.file_changes[i].1.is_empty()));
            assert(out@ =~= Seq::new(
                (i + 1) as nat,
                |k: int| (self.file_changes@[k].0, has_text(self.file_changes@[k])),
            ));
        }
        out
    }

    /// The numbers by which a change is reported.
    pub fn summary(&self) -> (r: ChangeSummary)
        ensures
            r.roots == (match self.roots {
                Some(roots) => Some(roots@.len() as usize),
                None => None,
            }),
            r.modified == modified_count(self.file_changes@),
            r.modified + r.cleared == self.file_changes@.len(),
    {
        let roots = match &self.roots {
            Some(roots) => Some(roots.len()),
            None => None,
        };
        let mut modified: usize = 0;
        let n = self.file_changes.len();
        for i in 0..n
            invariant
                n == self.file_changes@.len(),
                modified <= i,
                modified == modified_count(self.file_changes@.take(i as int)),
        {
            assert(self.file_changes@.take(i + 1).drop_last() =~= self.file_changes@.take(i as int));
            if !self.file_changes[i].1.is_empty() {
                modified = modified + 1;
            }
        }
        assert(self.file_changes@.take(n as int) =~= self.file_changes@);
        ChangeSummary { roots, modified, cleared: n - modified }
    }

    /// Turns the change into the writes that carry it out.
    pub fn apply(self) -> (r: Vec<InputWrite>)
        requires
            self.roots matches Some(roots) ==> roots@.len() <= u32::MAX,
        ensures
            r@ == self.writes(),
    {
        let Change { roots, file_changes } = self;
        let mut out: Vec<InputWrite> = Vec::new();
        if let Some(roots) = roots {
            let ghost all = roots@;
            let mut sid: u32 = 0;
            assert(all.take(0) =~= Seq::empty());
            for root in it: roots
                invariant
                    it.seq() == all,
                    all.len() <= u32::MAX,
                    sid == it.index(),
                    out@ == roots_writes(all.take(it.index() as int)),
            {
                let ghost before = out@;
                let ghost k = it.index() as int;
                let id = SourceRootId(sid);
                let files = root.iter();
                let nfiles = files.len();
                for j in 0..nfiles
                    invariant
                        nfiles == files@.len(),
                        files@.len() == root.files().len(),
                        forall|i: int| 0 <= i < files@.len() ==> (#[trigger] files@[i]).0 == root.files()[i].0,
                        out@ == before + Seq::new(
                            j as nat,
                            |i: int| InputWrite::FileSourceRoot { file: root.files()[i].0, id },
                        ),
                {
                    out.push(InputWrite::FileSourceRoot { file: files[j].0, id });
                    assert(out@ =~= before + Seq::new(
                        (j + 1) as nat,
                        |i: int| InputWrite::FileSourceRoot { file: root.files()[i].0, id },
                    ));
                }
                out.push(InputWrite::SourceRoot { id, root });
                proof {
                    assert(out@ =~= before + root_writes(id, root));
                    assert(all.take(k + 1).drop_last() =~= all.take(k));
                    assert(all.take(k + 1).last() == root);
                }
                if sid < u32::MAX {
                    sid = sid + 1;
                }
            }
            assert(all.take(all.len() as int) =~= all);
        }
        let ghost head = out@;
        let ghost texts = file_changes@;
        for change in it: file_changes
            invariant
                it.seq() == texts,
                out@ == head + content_writes(texts.take(it.index() as int)),
        {
            let ghost k = it.index() as int;
            out.push(InputWrite::FileContent { file: change.0, content: change.1 });
            assert(out@ =~= head + content_writes(texts.take(k + 1)));
        }
        assert(texts.take(texts.len() as int) =~= texts);
        out
    }
}

} // verus!
