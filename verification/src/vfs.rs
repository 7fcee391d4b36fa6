//! The file store: the texts of the files in memory, and the changes to
//! them that the analysis has not yet seen.

use crate::base::FileId;
use crate::change::Change;
use crate::file_set::file_of;
use crate::file_set::is_one_to_one;
use crate::file_set::lemma_file_path_round_trip;
use crate::file_set::FileSet;
use crate::file_set::SourceRoot;
use crate::line_map::line_col_of;
use crate::line_map::line_end;
use crate::line_map::line_starts;
use crate::line_map::LineMap;
use crate::position::byte_col;
use crate::position::byte_col_of;
use crate::position::lemma_encode_joined;
use crate::position::utf16_col;
use crate::position::utf16_col_of;
use crate::position::Position;
use crate::text::TextSize;
use crate::path::VfsPath;
use crate::text::TextRange;
use std::sync::Arc;
use vstd::prelude::*;
use vstd::string::StringExecFns;
use vstd::string::StringSliceAdditionalSpecFns;
use vstd::utf8::decode_utf8;
use vstd::utf8::encode_utf8;

verus! {

/// `Arc::from` of std on a `str`: a shared copy of the text, with the same
/// characters.
#[verifier::external_body]
fn shared_text(s: &str) -> (r: Arc<str>)
    ensures
        r@ == s@,
{
    Arc::from(s)
}

/// `Arc::clone` of std: one more handle to the same text, with the same
/// characters.
#[verifier::external_body]
fn share_again(a: &Arc<str>) -> (r: Arc<str>)
    ensures
        r@ == a@,
{
    Arc::clone(a)
}

/// What the bytes of a text become when those from `start` up to `end` are
/// replaced by `ins`.
pub open spec fn splice(bytes: Seq<u8>, start: int, end: int, ins: Seq<u8>) -> Seq<u8> {
    bytes.take(start) + ins + bytes.skip(end)
}

/// Whether the bytes from `start` up to `end` can be cut out of a text: the
/// range lies within the text and splits no character.
pub open spec fn can_cut(bytes: Seq<u8>, start: int, end: int) -> bool {
    &&& 0 <= start <= end <= bytes.len()
    &&& vstd::utf8::is_char_boundary(bytes, start)
    &&& vstd::utf8::is_char_boundary(bytes, end)
}

/// The paths at which the entry of the workspace is looked for, in order.
pub open spec fn entry_of(paths: Seq<(FileId, Seq<char>)>) -> Option<FileId> {
    match file_of(paths, "/flake.nix"@) {
        Some(file) => Some(file),
        None => file_of(paths, "/default.nix"@),
    }
}

/// What a file store holds, as plain values.
pub struct VfsModel {
    /// The text of each file, by the number of its `FileId`.
    pub texts: Seq<Seq<char>>,
    /// The files and their paths.
    pub paths: Seq<(FileId, Seq<char>)>,
    /// The changes of texts that were not yet taken, oldest first.
    pub pending: Seq<(FileId, Seq<char>)>,
    /// Whether a file came since the source roots were last taken.
    pub roots_changed: bool,
}

impl VfsModel {
    /// The store after `file`, which it holds, got the text `text`.
    pub open spec fn with_text(self, file: FileId, text: Seq<char>) -> VfsModel {
        VfsModel {
            texts: self.texts.update(file.0 as int, text),
            pending: self.pending.push((file, text)),
            ..self
        }
    }

    /// The store after a new file came at `path` with the text `text`.
    pub open spec fn with_new_file(self, path: Seq<char>, text: Seq<char>) -> VfsModel {
        let file = FileId(self.texts.len() as u32);
        VfsModel {
            texts: self.texts.push(text),
            paths: self.paths.push((file, path)),
            pending: self.pending.push((file, text)),
            roots_changed: true,
        }
    }

    /// The store after the text at `path` was set: that of its file, or of
    /// a new file where the path was not known.
    pub open spec fn with_path_text(self, path: Seq<char>, text: Seq<char>) -> VfsModel {
        match file_of(self.paths, path) {
            Some(file) => self.with_text(file, text),
            None => self.with_new_file(path, text),
        }
    }

    /// The store after its changes were taken.
    pub open spec fn taken(self) -> VfsModel {
        VfsModel { pending: Seq::empty(), roots_changed: false, ..self }
    }
}

/// An edit of a text as the editor sends it: the new text for a range that
/// is given by two positions, or for the whole, where no range is given.
#[derive(Debug)]
pub struct ContentChange {
    pub range: Option<(Position, Position)>,
    pub text: String,
}

/// The characters that the bytes from `start` up to `end` of a text stand
/// for, where they can be cut out of it.
pub open spec fn piece_of(bytes: Seq<u8>, start: int, end: int) -> Option<Seq<char>> {
    if 0 <= start <= end <= bytes.len() && vstd::utf8::is_char_boundary(bytes, end)
        && vstd::utf8::is_char_boundary(bytes.take(end), start) {
        Some(decode_utf8(bytes.subrange(start, end)))
    } else {
        None
    }
}

/// The line `line` of a text, without its newline.
pub open spec fn line_of(text: Seq<char>, line: int) -> Option<Seq<char>> {
    let bytes = encode_utf8(text);
    let table = line_starts(bytes);
    if 0 <= line < table.len() {
        piece_of(bytes, table[line], line_end(table, bytes.len() as int, line))
    } else {
        None
    }
}

/// The offset in a text of a position.
pub open spec fn offset_of(text: Seq<char>, at: Position) -> Option<int> {
    match line_of(text, at.line as int) {
        Some(line) => match byte_col_of(line, at.character as int) {
            Some(col) => Some(line_starts(encode_utf8(text))[at.line as int] + col),
            None => None,
        },
        None => None,
    }
}

/// The position in a text of an offset.
pub open spec fn position_of(text: Seq<char>, offset: int) -> Option<Position> {
    let bytes = encode_utf8(text);
    let at = line_col_of(line_starts(bytes), offset);
    if 0 <= offset <= bytes.len() {
        match line_of(text, at.0) {
            Some(line) => match utf16_col_of(line, at.1) {
                Some(col) => Some(Position { line: at.0 as u32, character: col as u32 }),
                None => None,
            },
            None => None,
        }
    } else {
        None
    }
}

/// The offsets that a range of positions names in a text, where it names
/// any: both ends lie in the text, and the start is not behind the end.
pub open spec fn offsets_of(text: Seq<char>, start: Position, end: Position) -> Option<(int, int)> {
    match (offset_of(text, start), offset_of(text, end)) {
        (Some(from), Some(to)) => if from <= to {
            Some((from, to))
        } else {
            None
        },
        _ => None,
    }
}

impl VfsModel {
    /// The store after the bytes from `start` up to `end` of the text of
    /// `file` were replaced by `ins`: as it was, where the store holds no
    /// such file, the range cannot be cut out, or the text would grow too
    /// long.
    pub open spec fn spliced(self, file: FileId, start: int, end: int, ins: Seq<char>) -> VfsModel {
        if file.0 < self.texts.len() {
            let bytes = encode_utf8(self.texts[file.0 as int]);
            let new_bytes = splice(bytes, start, end, encode_utf8(ins));
            if can_cut(bytes, start, end) && new_bytes.len() <= u32::MAX {
                self.with_text(file, decode_utf8(new_bytes))
            } else {
                self
            }
        } else {
            self
        }
    }

    /// Whether, and why not, the bytes from `start` up to `end` of the text
    /// of `file` can be replaced by `ins`.
    pub open spec fn splice_outcome(self, file: FileId, start: int, end: int, ins: Seq<char>) -> Result<
        (),
        VfsError,
    > {
        if file.0 >= self.texts.len() {
            Err(VfsError::FileNotFound)
        } else {
            let bytes = encode_utf8(self.texts[file.0 as int]);
            if !can_cut(bytes, start, end) {
                Err(VfsError::InvalidRange)
            } else if splice(bytes, start, end, encode_utf8(ins)).len() > u32::MAX {
                Err(VfsError::TooLarge)
            } else {
                Ok(())
            }
        }
    }

    /// The store after one edit of `file`. An edit without a range, or with
    /// one that names no offsets in the text as it is then, changes nothing.
    pub open spec fn edited(self, file: FileId, range: Option<(Position, Position)>, ins: Seq<char>) -> VfsModel {
        match range {
            Some((start, end)) => if file.0 < self.texts.len() {
                match offsets_of(self.texts[file.0 as int], start, end) {
                    Some((from, to)) => self.spliced(file, from, to, ins),
                    None => self,
                }
            } else {
                self
            },
            None => self,
        }
    }

    /// The store after a list of edits of `file`, one after the other.
    pub open spec fn edited_all(self, file: FileId, edits: Seq<ContentChange>) -> VfsModel
        decreases edits.len(),
    {
        if edits.len() == 0 {
            self
        } else {
            self.edited_all(file, edits.drop_last()).edited(file, edits.last().range, edits.last().text@)
        }
    }
}

/// From an offset to its position and back is the identity, wherever the
/// offset has a position.
pub proof fn lemma_position_round_trip(text: Seq<char>, offset: int)
    requires
        encode_utf8(text).len() <= u32::MAX,
        position_of(text, offset) is Some,
    ensures
        offset_of(text, position_of(text, offset).unwrap()) == Some(offset),
{
    let bytes = encode_utf8(text);
    let table = line_starts(bytes);
    let at = line_col_of(table, offset);
    crate::line_map::lemma_line_starts_is_table(bytes);
    crate::line_map::lemma_offset_round_trip(table, bytes.len() as int, offset);
    crate::line_map::lemma_start_at_least_index(table, bytes.len() as int, at.0);
    let line = line_of(text, at.0).unwrap();
    let n = choose|n: int| 0 <= n <= line.len() && crate::position::utf8_width(#[trigger] line.take(n)) == at.1;
    crate::position::lemma_column_round_trip(line, n);
    crate::position::lemma_widths_grow(line, 0, n);
    assert(line.take(0) =~= Seq::<char>::empty());
    let units = crate::position::utf16_width(line.take(n));
    assert(0 <= units <= at.1);
    assert(at.1 <= offset);
}

/// To splice into the text of a file is to set the text at its path.
pub proof fn lemma_splice_is_set(model: VfsModel, file: FileId, path: Seq<char>, text: Seq<char>)
    requires
        is_one_to_one(model.paths),
        model.paths.contains((file, path)),
    ensures
        model.with_text(file, text) == model.with_path_text(path, text),
{
    lemma_file_path_round_trip(model.paths, file, path);
}

/// Why the text of a file could not be changed.
#[derive(Debug, Clone, Copy, PartialEq, Eq, Hash, Structural)]
pub enum VfsError {
    /// The store holds no such file.
    FileNotFound,
    /// The range reaches behind the end of the text or splits a character.
    InvalidRange,
    /// The text would be too long for offsets of 32 bits.
    TooLarge,
}

/// The files that the server knows, in memory: their paths, their texts
/// with the tables of their lines, and the changes since they were last
/// taken.
#[derive(Debug)]
pub struct Vfs {
    files: Vec<(Arc<str>, LineMap)>,
    local_file_set: FileSet,
    root_changed: bool,
    change: Change,
}

/// The texts of a list of files.
pub open spec fn texts_of(files: Seq<(Arc<str>, LineMap)>) -> Seq<Seq<char>> {
    Seq::new(files.len(), |i: int| files[i].0@)
}

/// The changes of a list, with each text as plain characters.
pub open spec fn changes_of(changes: Seq<(FileId, Arc<str>)>) -> Seq<(FileId, Seq<char>)> {
    Seq::new(changes.len(), |i: int| (changes[i].0, changes[i].1@))
}

impl View for Vfs {
    type V = VfsModel;

    closed spec fn view(&self) -> VfsModel {
        VfsModel {
            texts: texts_of(self.files@),
            paths: self.local_file_set@,
            pending: changes_of(self.change.file_changes@),
            roots_changed: self.root_changed,
        }
    }
}

impl Vfs {
    #[verifier::type_invariant]
    spec fn well_formed(self) -> bool {
        &&& self.files@.len() <= u32::MAX
        &&& self.change.roots is None
        &&& forall|i: int|
            0 <= i < self.files@.len() ==> (#[trigger] self.files@[i]).1.describes(
                encode_utf8(self.files@[i].0@),
            )
        &&& forall|i: int|
            0 <= i < self.local_file_set@.len() ==> (#[trigger] self.local_file_set@[i]).0.0
                < self.files@.len()
    }

    /// What holds of every store: the files are numbered from 0 in the
    /// order in which they came, each path belongs to one of them, and no
    /// file and no path stands twice.
    pub open spec fn is_consistent(model: VfsModel) -> bool {
        &&& model.texts.len() <= u32::MAX
        &&& forall|i: int|
            0 <= i < model.texts.len() ==> encode_utf8(#[trigger] model.texts[i]).len() <= u32::MAX
        &&& is_one_to_one(model.paths)
        &&& forall|i: int|
            0 <= i < model.paths.len() ==> (#[trigger] model.paths[i]).0.0 < model.texts.len()
    }

    /// A store without files.
    pub fn new() -> (r: Self)
        ensures
            r@ == (VfsModel {
                texts: Seq::empty(),
                paths: Seq::empty(),
                pending: Seq::empty(),
                roots_changed: false,
            }),
    {
        let r = Vfs {
            files: Vec::new(),
            local_file_set: FileSet::default(),
            root_changed: false,
            change: Change::new(),
        };
        assert(r@.texts =~= Seq::empty());
        assert(r@.pending =~= Seq::empty());
        r
    }

    /// The number of files that the store has numbered.
    pub fn file_count(&self) -> (r: usize)
        ensures
            r == self@.texts.len(),
            Self::is_consistent(self@),
    {
        proof {
            use_type_invariant(self);
        }
        self.local_file_set.use_one_to_one();
        self.files.len()
    }

    /// Sets the text of the file at `path`, which is a new file where the
    /// path was not known, and notes the change. Nothing is done, and
    /// nothing returned, where the text is too long for offsets of 32 bits
    /// or no number is left for a new file.
    pub fn set_path_content(&mut self, path: VfsPath, text: &str) -> (r: Option<FileId>)
        ensures
            (encode_utf8(text@).len() > u32::MAX || (file_of(old(self)@.paths, path@) is None
                && old(self)@.texts.len() >= u32::MAX)) ==> r is None && final(self)@ == old(self)@,
            !(encode_utf8(text@).len() > u32::MAX || (file_of(old(self)@.paths, path@) is None
                && old(self)@.texts.len() >= u32::MAX)) ==> {
                &&& final(self)@ == old(self)@.with_path_text(path@, text@)
                &&& r == file_of(final(self)@.paths, path@)
                &&& r is Some
            },
    {
        proof {
            use_type_invariant(&*self);
        }
        let known = self.local_file_set.file_for_path(&path);
        if known.is_none() && self.files.len() >= u32::MAX as usize {
            return None;
        }
        let map = match LineMap::new(text) {
            Some(map) => map,
            None => {
                return None;
            },
        };
        let shared = shared_text(text);
        let again = share_again(&shared);
        let ghost before = self@;
        let mut whole = Vfs::new();
        core::mem::swap(self, &mut whole);
        let Vfs { mut files, mut local_file_set, mut root_changed, mut change } = whole;
        let file = match known {
            Some(file) => {
                proof {
                    let i = choose|i: int|
                        0 <= i < local_file_set@.len() && local_file_set@[i] == (file, path@);
                    assert(local_file_set@[i].0.0 < files@.len());
                }
                files[file.0 as usize] = (shared, map);
                file
            },
            None => {
                let file = FileId(files.len() as u32);
                proof {
                    let held = local_file_set@;
                    assert forall|i: int| 0 <= i < held.len() implies (#[trigger] held[i]).0 != file
                        && held[i].1 != path@ by {
                        assert(held[i].0.0 < files@.len());
                        if held[i].1 == path@ {
                            assert(held.contains((held[i].0, path@)));
                        }
                    }
                    crate::file_set::lemma_nothing_displaced(held, file, path@);
                }
                files.push((shared, map));
                local_file_set.insert(file, path);
                root_changed = true;
                file
            },
        };
        change.change_file(file, again);
        *self = Vfs { files, local_file_set, root_changed, change };
        proof {
            assert(self@.pending =~= before.pending.push((file, text@)));
            if known is Some {
                assert(self@.texts =~= before.texts.update(file.0 as int, text@));
            } else {
                assert(self@.texts =~= before.texts.push(text@));
                let last = self@.paths.len() - 1;
                assert(self@.paths[last] == (file, path@));
            }
            lemma_file_path_round_trip(self@.paths, file, path@);
        }
        Some(file)
    }

    /// Replaces the bytes of `range` in the text of `file` by `replacement`,
    /// and notes the change.
    pub fn change_file_content(&mut self, file: FileId, range: TextRange, replacement: &str) -> (r:
        Result<(), VfsError>)
        ensures
            r == old(self)@.splice_outcome(
                file,
                range.spec_start().raw as int,
                range.spec_end().raw as int,
                replacement@,
            ),
            final(self)@ == old(self)@.spliced(
                file,
                range.spec_start().raw as int,
                range.spec_end().raw as int,
                replacement@,
            ),
            Self::is_consistent(old(self)@),
    {
        proof {
            use_type_invariant(&*self);
        }
        self.local_file_set.use_one_to_one();
        let at = file.0 as usize;
        if at >= self.files.len() {
            return Err(VfsError::FileNotFound);
        }
        let start = range.start().raw as usize;
        let end = range.end().raw as usize;
        let text: &str = &*self.files[at].0;
        if end > text.len() || !text.is_char_boundary(start) || !text.is_char_boundary(end) {
            return Err(VfsError::InvalidRange);
        }
        let (head, _) = text.split_at(start);
        let (_, tail) = text.split_at(end);
        let mut buf = head.to_owned();
        buf.append(replacement);
        buf.append(tail);
        let ghost bytes = encode_utf8(text@);
        let ghost spliced = splice(bytes, start as int, end as int, encode_utf8(replacement@));
        proof {
            lemma_encode_joined(head@, replacement@);
            lemma_encode_joined(head@ + replacement@, tail@);
            assert(encode_utf8(buf@) =~= spliced);
            vstd::utf8::encode_utf8_decode_utf8(buf@);
        }
        let map = match LineMap::new(buf.as_str()) {
            Some(map) => map,
            None => {
                return Err(VfsError::TooLarge);
            },
        };
        let shared = shared_text(buf.as_str());
        let again = share_again(&shared);
        let ghost before = self@;
        let mut whole = Vfs::new();
        core::mem::swap(self, &mut whole);
        let Vfs { mut files, local_file_set, root_changed, mut change } = whole;
        files[at] = (shared, map);
        change.change_file(file, again);
        *self = Vfs { files, local_file_set, root_changed, change };
        proof {
            assert(self@.texts =~= before.texts.update(file.0 as int, buf@));
            assert(self@.pending =~= before.pending.push((file, buf@)));
        }
        Ok(())
    }

    /// The line `line` of the text of `file`, without its newline.
    pub fn line_text(&self, file: FileId, line: u32) -> (r: Option<&str>)
        ensures
            match (if file.0 < self@.texts.len() {
                line_of(self@.texts[file.0 as int], line as int)
            } else {
                None
            }) {
                Some(text) => r matches Some(found) && found@ == text,
                None => r is None,
            },
            r matches Some(found) ==> ({
                let bytes = encode_utf8(self@.texts[file.0 as int]);
                let table = line_starts(bytes);
                encode_utf8(found@) == bytes.subrange(
                    table[line as int],
                    line_end(table, bytes.len() as int, line as int),
                )
            }),
    {
        proof {
            use_type_invariant(self);
        }
        let at = file.0 as usize;
        if at >= self.files.len() {
            return None;
        }
        let text: &str = &*self.files[at].0;
        let (start, end) = match self.files[at].1.line_bounds(line) {
            Some((start, end)) => (start.raw as usize, end.raw as usize),
            None => {
                return None;
            },
        };
        if !text.is_char_boundary(end) {
            return None;
        }
        let (head, _) = text.split_at(end);
        assert(head.spec_bytes() =~= text.spec_bytes().take(end as int));
        if !head.is_char_boundary(start) {
            return None;
        }
        let (_, found) = head.split_at(start);
        proof {
            assert(found.spec_bytes() =~= text.spec_bytes().subrange(start as int, end as int));
            vstd::utf8::encode_utf8_decode_utf8(found@);
        }
        Some(found)
    }

    /// The offset in the text of `file` of a position, if the text has the
    /// position.
    pub fn offset_for_position(&self, file: FileId, at: Position) -> (r: Option<TextSize>)
        ensures
            match (if file.0 < self@.texts.len() {
                offset_of(self@.texts[file.0 as int], at)
            } else {
                None
            }) {
                Some(offset) => r matches Some(found) && found.raw == offset,
                None => r is None,
            },
    {
        proof {
            use_type_invariant(self);
        }
        let line = match self.line_text(file, at.line) {
            Some(line) => line,
            None => {
                return None;
            },
        };
        let (start, end) = match self.files[file.0 as usize].1.line_bounds(at.line) {
            Some(bounds) => bounds,
            None => {
                return None;
            },
        };
        match byte_col(line, at.character) {
            Some(col) => {
                proof {
                    let n = choose|n: int|
                        0 <= n <= line@.len() && crate::position::utf16_width(
                            #[trigger] line@.take(n),
                        ) == at.character;
                    crate::position::lemma_widths_grow(line@, n, line@.len() as int);
                    assert(line@.take(line@.len() as int) =~= line@);
                    crate::position::lemma_utf8_width_is_encoded_len(line@);
                    crate::position::lemma_column_round_trip(line@, n);
                    let bytes = encode_utf8(self@.texts[file.0 as int]);
                    let table = line_starts(bytes);
                    assert(self.files@[file.0 as int].1.describes(bytes));
                    assert(start.raw == table[at.line as int]);
                    assert(end.raw == line_end(table, bytes.len() as int, at.line as int));
                    assert(encode_utf8(line@).len() == end.raw - start.raw);
                    assert(col <= end.raw - start.raw);
                }
                Some(TextSize::new(start.raw + col as u32))
            },
            None => None,
        }
    }

    /// The position in the text of `file` of an offset, if the offset lies
    /// in the text and splits no character.
    pub fn position_for_offset(&self, file: FileId, offset: TextSize) -> (r: Option<Position>)
        ensures
            match (if file.0 < self@.texts.len() {
                position_of(self@.texts[file.0 as int], offset.raw as int)
            } else {
                None
            }) {
                Some(at) => r == Some(at),
                None => r is None,
            },
    {
        proof {
            use_type_invariant(self);
        }
        let at = file.0 as usize;
        if at >= self.files.len() {
            return None;
        }
        let text: &str = &*self.files[at].0;
        if offset.raw as usize > text.as_bytes().len() {
            return None;
        }
        let found = self.files[at].1.line_col_for_pos(offset);
        let line = match self.line_text(file, found.line) {
            Some(line) => line,
            None => {
                return None;
            },
        };
        match utf16_col(line, found.col) {
            Some(col) => {
                proof {
                    let n = choose|n: int|
                        0 <= n <= line@.len() && crate::position::utf8_width(#[trigger] line@.take(n))
                            == found.col;
                    crate::position::lemma_widths_grow(line@, 0, n);
                    assert(line@.take(0) =~= Seq::empty());
                }
                Some(Position { line: found.line, character: col as u32 })
            },
            None => None,
        }
    }

    /// The range of offsets that two positions name in the text of `file`,
    /// if they name one.
    pub fn range_for_positions(&self, file: FileId, start: Position, end: Position) -> (r: Option<
        TextRange,
    >)
        ensures
            match (if file.0 < self@.texts.len() {
                offsets_of(self@.texts[file.0 as int], start, end)
            } else {
                None
            }) {
                Some((from, to)) => {
                    &&& r matches Some(range)
                    &&& range.spec_start().raw == from
                    &&& range.spec_end().raw == to
                },
                None => r is None,
            },
    {
        match (self.offset_for_position(file, start), self.offset_for_position(file, end)) {
            (Some(from), Some(to)) => {
                if from.raw <= to.raw {
                    Some(TextRange::new(from, to))
                } else {
                    None
                }
            },
            _ => None,
        }
    }

    /// Carries out the edits of `file` that the editor sent, one after the
    /// other; an edit that cannot be carried out is passed over.
    pub fn apply_edits(&mut self, file: FileId, edits: &Vec<ContentChange>)
        ensures
            final(self)@ == old(self)@.edited_all(file, edits@),
    {
        let n = edits.len();
        assert(edits@.take(0) =~= Seq::empty());
        for i in 0..n
            invariant
                n == edits@.len(),
                self@ == old(self)@.edited_all(file, edits@.take(i as int)),
        {
            proof {
                assert(edits@.take(i + 1).drop_last() =~= edits@.take(i as int));
                assert(edits@.take(i + 1).last() == edits@[i as int]);
            }
            if let Some((start, end)) = edits[i].range {
                if let Some(range) = self.range_for_positions(file, start, end) {
                    let _ = self.change_file_content(file, range, edits[i].text.as_str());
                }
            }
        }
        assert(edits@.take(n as int) =~= edits@);
    }

    /// Hands out the changes since they were last taken, and forgets them:
    /// the new texts and, where a file came, the one source root that holds
    /// every file, with its entry.
    pub fn take_change(&mut self) -> (r: Change)
        ensures
            changes_of(r.file_changes@) == old(self)@.pending,
            old(self)@.roots_changed ==> {
                &&& r.roots matches Some(roots)
                &&& roots@.len() == 1
                &&& roots@[0].files() == old(self)@.paths
                &&& roots@[0].spec_entry() == entry_of(old(self)@.paths)
            },
            !old(self)@.roots_changed ==> r.roots is None,
            final(self)@ == old(self)@.taken(),
    {
        proof {
            use_type_invariant(&*self);
        }
        let ghost before = self@;
        let mut whole = Vfs::new();
        core::mem::swap(self, &mut whole);
        let Vfs { files, local_file_set, root_changed, mut change } = whole;
        if root_changed {
            proof {
                lemma_entry_paths();
            }
            let entry = match find_at(&local_file_set, "/flake.nix") {
                Some(file) => Some(file),
                None => find_at(&local_file_set, "/default.nix"),
            };
            let mut roots: Vec<SourceRoot> = Vec::new();
            roots.push(SourceRoot::new_local(local_file_set.clone(), entry));
            change.set_roots(roots);
        }
        *self = Vfs { files, local_file_set, root_changed: false, change: Change::new() };
        proof {
            assert(self@.pending =~= Seq::empty());
            assert(self@.texts =~= before.texts);
        }
        change
    }

    /// The table of the lines of `file`, if the store holds the file.
    pub fn line_map_for_file(&self, file: FileId) -> (r: Option<&LineMap>)
        ensures
            file.0 >= self@.texts.len() ==> r is None,
            file.0 < self@.texts.len() ==> ({
                &&& r matches Some(map)
                &&& map.describes(encode_utf8(self@.texts[file.0 as int]))
            }),
    {
        proof {
            use_type_invariant(self);
        }
        let at = file.0 as usize;
        if at < self.files.len() {
            Some(&self.files[at].1)
        } else {
            None
        }
    }

    /// The text of `file`, if the store holds the file.
    pub fn file_content(&self, file: FileId) -> (r: Option<Arc<str>>)
        ensures
            file.0 >= self@.texts.len() ==> r is None,
            file.0 < self@.texts.len() ==> ({
                &&& r matches Some(text)
                &&& text@ == self@.texts[file.0 as int]
            }),
    {
        let at = file.0 as usize;
        if at < self.files.len() {
            Some(share_again(&self.files[at].0))
        } else {
            None
        }
    }

    /// The file at `path`, if the store knows the path.
    pub fn file_for_path(&self, path: &VfsPath) -> (r: Option<FileId>)
        ensures
            r == file_of(self@.paths, path@),
            r matches Some(file) ==> self@.paths.contains((file, path@)) && file.0 < self@.texts.len(),
            Self::is_consistent(self@),
    {
        proof {
            use_type_invariant(self);
        }
        let r = self.local_file_set.file_for_path(path);
        proof {
            if let Some(file) = r {
                let i = choose|i: int| 0 <= i < self@.paths.len() && self@.paths[i] == (file, path@);
                assert(self@.paths[i].0.0 < self@.texts.len());
            }
        }
        r
    }

    /// The path of `file`, if the store knows one for it.
    pub fn path_for_file(&self, file: FileId) -> (r: Option<&VfsPath>)
        ensures
            match r {
                Some(path) => crate::file_set::path_of(self@.paths, file) == Some(path@),
                None => crate::file_set::path_of(self@.paths, file) is None,
            },
            Self::is_consistent(self@),
    {
        proof {
            use_type_invariant(self);
        }
        if self.local_file_set.contains_file(file) {
            Some(self.local_file_set.path_for_file(file))
        } else {
            self.local_file_set.use_one_to_one();
            None
        }
    }
}

/// The two paths at which the entry is looked for are written as paths
/// are kept.
proof fn lemma_entry_paths()
    ensures
        crate::path::normalized_form("/flake.nix"@) == Some("/flake.nix"@),
        crate::path::normalized_form("/default.nix"@) == Some("/default.nix"@),
{
    reveal_strlit("/flake.nix");
    reveal_strlit("/default.nix");
    let a = "/flake.nix"@;
    let b = "/default.nix"@;
    assert(a.len() == 10 && b.len() == 12);
    assert(a != seq!['/']) by {
        assert(seq!['/'].len() == 1);
    }
    assert(b != seq!['/']) by {
        assert(seq!['/'].len() == 1);
    }
    assert forall|i: int| 0 <= i < a.len() - 1 && #[trigger] a[i] == '/' implies a[i + 1] != '/' by {
        assert(i == 0);
    }
    assert forall|i: int| 0 <= i < b.len() - 1 && #[trigger] b[i] == '/' implies b[i + 1] != '/' by {
        assert(i == 0);
    }
}

/// The file of `set` at the path that `text` names.
fn find_at(set: &FileSet, text: &str) -> (r: Option<FileId>)
    requires
        crate::path::normalized_form(text@) == Some(text@),
    ensures
        r == file_of(set@, text@),
{
    match VfsPath::new(text) {
        Some(path) => set.file_for_path(&path),
        None => None,
    }
}

} // verus!
