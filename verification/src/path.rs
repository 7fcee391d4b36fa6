//! Normalized paths of the virtual file system.

use std::path::PathBuf;
use vstd::prelude::*;
use vstd::string::StrSliceExecFns;
use vstd::string::StringExecFns;

verus! {

/// A path is normalized when it is empty (the root) or starts with `/`, does
/// not end with `/` and holds no `//`: the form `(/segment)*`.
pub open spec fn is_normalized(s: Seq<char>) -> bool {
    s.len() == 0 || {
        &&& s[0] == '/'
        &&& s[s.len() - 1] != '/'
        &&& !has_double_slash(s)
    }
}

/// Two `/` stand side by side somewhere in `s`.
pub open spec fn has_double_slash(s: Seq<char>) -> bool {
    exists|i: int| 0 <= i < s.len() - 1 && #[trigger] s[i] == '/' && s[i + 1] == '/'
}

/// What a text names as a path: `None` where it ends with `/` or holds `//`,
/// the root for the empty text and for `/`, else the text itself, with a `/`
/// put in front where it has none.
pub open spec fn normalized_form(s: Seq<char>) -> Option<Seq<char>> {
    if s.len() == 0 || s == seq!['/'] {
        Some(Seq::empty())
    } else if s[s.len() - 1] == '/' || has_double_slash(s) {
        None
    } else if s[0] != '/' {
        Some(seq!['/'] + s)
    } else {
        Some(s)
    }
}

/// A segment that can be pushed: not empty and without `/`.
pub open spec fn is_segment(s: Seq<char>) -> bool {
    s.len() > 0 && forall|i: int| 0 <= i < s.len() ==> s[i] != '/'
}

/// Position of the last `/` in `s`, or -1 where it has none.
pub open spec fn last_slash(s: Seq<char>) -> int
    decreases s.len(),
{
    if s.len() == 0 {
        -1
    } else if s[s.len() - 1] == '/' {
        s.len() - 1
    } else {
        last_slash(s.drop_last())
    }
}

/// What one pass over a text finds of its slashes: the number of its
/// characters, whether it starts and ends with `/`, whether it holds `//`,
/// and where its last `/` stands.
struct SlashScan {
    len: usize,
    starts: bool,
    ends: bool,
    double: bool,
    last: Option<usize>,
}

impl SlashScan {
    spec fn describes(self, s: Seq<char>) -> bool {
        &&& self.len == s.len()
        &&& self.starts == (s.len() > 0 && s[0] == '/')
        &&& self.ends == (s.len() > 0 && s[s.len() - 1] == '/')
        &&& self.double == has_double_slash(s)
        &&& match self.last {
            Some(i) => i == last_slash(s),
            None => last_slash(s) == -1,
        }
    }
}

/// The last `/` of a text lies in the text, is a `/`, and no `/` follows it.
proof fn lemma_last_slash_bounds(s: Seq<char>)
    ensures
        -1 <= last_slash(s) < s.len(),
        last_slash(s) >= 0 ==> s[last_slash(s)] == '/',
        forall|i: int| last_slash(s) < i < s.len() ==> s[i] != '/',
    decreases s.len(),
{
    if s.len() > 0 && s[s.len() - 1] != '/' {
        lemma_last_slash_bounds(s.drop_last());
        assert forall|i: int| last_slash(s) < i < s.len() implies s[i] != '/' by {
            if i < s.len() - 1 {
                assert(s.drop_last()[i] == s[i]);
            }
        }
    }
}

fn scan_slashes(s: &str) -> (r: SlashScan)
    ensures
        r.describes(s@),
{
    let total = s.unicode_len();
    let mut n: usize = 0;
    let mut starts = false;
    let mut ends = false;
    let mut double = false;
    let mut last: Option<usize> = None;
    for c in it: s.chars()
        invariant
            it.seq() == s@,
            s@.len() == total,
            (SlashScan { len: n, starts, ends, double, last }).describes(s@.take(it.index() as int)),
    {
        let ghost before = s@.take(it.index() as int);
        let ghost after = s@.take(it.index() + 1);
        assert(after.drop_last() =~= before);
        assert(after[n as int] == c);
        let slash = c == '/';
        proof {
            if has_double_slash(before) {
                let i = choose|i: int| 0 <= i < before.len() - 1 && #[trigger] before[i] == '/' && before[i + 1] == '/';
                assert(after[i] == '/' && after[i + 1] == '/');
            }
            if has_double_slash(after) && !(slash && ends) {
                let i = choose|i: int| 0 <= i < after.len() - 1 && #[trigger] after[i] == '/' && after[i + 1] == '/';
                assert(before[i] == '/' && before[i + 1] == '/');
            }
            if slash && ends {
                assert(after[n - 1] == '/' && after[n - 1 + 1] == '/');
            }
        }
        if slash && ends {
            double = true;
        }
        if n == 0 {
            starts = slash;
        }
        ends = slash;
        if slash {
            last = Some(n);
        }
        n = n + 1;
    }
    assert(s@.take(s@.len() as int) =~= s@);
    SlashScan { len: n, starts, ends, double, last }
}

/// A normalized absolute path of the form `(/segment)*`; the empty text is
/// the root.
#[derive(Debug, Hash)]
pub struct VfsPath(String);

impl View for VfsPath {
    type V = Seq<char>;

    closed spec fn view(&self) -> Seq<char> {
        self.0@
    }
}

impl Clone for VfsPath {
    fn clone(&self) -> (r: Self)
        ensures
            r@ == self@,
    {
        proof {
            use_type_invariant(self);
        }
        VfsPath(self.0.clone())
    }
}

impl PartialEq for VfsPath {
    fn eq(&self, other: &Self) -> (r: bool) {
        self.0 == other.0
    }
}

/// Two paths are equal when their texts are.
impl vstd::std_specs::cmp::PartialEqSpecImpl for VfsPath {
    open spec fn obeys_eq_spec() -> bool {
        true
    }

    open spec fn eq_spec(&self, other: &Self) -> bool {
        self@ == other@
    }
}

impl Eq for VfsPath {

}

impl TryFrom<String> for VfsPath {
    type Error = ();

    fn try_from(s: String) -> (r: Result<Self, ()>)
        ensures
            r matches Ok(p) ==> normalized_form(s@) == Some(p@),
            r is Err ==> normalized_form(s@) is None,
    {
        match Self::new(s.as_str()) {
            Some(p) => Ok(p),
            None => Err(()),
        }
    }
}

/// What `try_from` gives is stated on `try_from` itself, over the text of
/// the path: a specification cannot build a path.
impl vstd::std_specs::convert::TryFromSpecImpl<String> for VfsPath {
    open spec fn obeys_try_from_spec() -> bool {
        false
    }

    open spec fn try_from_spec(s: String) -> Result<Self, ()> {
        Err(())
    }
}

/// What `try_from` gives is stated on `try_from` itself, over the text of
/// the path: a specification cannot build a path.
impl<'a> vstd::std_specs::convert::TryFromSpecImpl<&'a str> for VfsPath {
    open spec fn obeys_try_from_spec() -> bool {
        false
    }

    open spec fn try_from_spec(s: &'a str) -> Result<Self, ()> {
        Err(())
    }
}

impl<'a> TryFrom<&'a str> for VfsPath {
    type Error = ();

    fn try_from(s: &'a str) -> (r: Result<Self, ()>)
        ensures
            r matches Ok(p) ==> normalized_form(s@) == Some(p@),
            r is Err ==> normalized_form(s@) is None,
    {
        match Self::new(s) {
            Some(p) => Ok(p),
            None => Err(()),
        }
    }
}

/// `std::path::PathBuf`: an owned path of the file system. Nothing is known
/// of what it holds.
#[verifier::external_type_specification]
#[verifier::external_body]
pub struct ExPathBuf(PathBuf);

/// The text of a path of the file system, where the path is valid Unicode:
/// what `Path::to_str` of std gives for it.
pub uninterp spec fn path_text(p: PathBuf) -> Option<Seq<char>>;

/// `Path::to_str` of std: the path as text, where it is valid Unicode, and
/// nothing where it is not. The result depends on the path alone; it is
/// named `path_text`.
#[verifier::external_body]
fn path_to_str(p: &PathBuf) -> (r: Option<&str>)
    ensures
        match r {
            Some(s) => path_text(*p) == Some(s@),
            None => path_text(*p) is None,
        },
{
    p.to_str()
}

impl VfsPath {
    #[verifier::type_invariant]
    spec fn normalized(self) -> bool {
        is_normalized(self.0@)
    }

    /// The root: the empty path.
    pub fn root() -> (r: Self)
        ensures
            r@ == Seq::<char>::empty(),
    {
        VfsPath(String::new())
    }

    /// Reads a path of the file system as [`VfsPath::new`] reads its text.
    /// A path that is not valid Unicode has no text, and gives nothing.
    pub fn from_path(p: &PathBuf) -> (r: Option<Self>)
        ensures
            match path_text(*p) {
                Some(s) => match normalized_form(s) {
                    Some(t) => r matches Some(q) && q@ == t,
                    None => r is None,
                },
                None => r is None,
            },
    {
        match path_to_str(p) {
            Some(s) => Self::new(s),
            None => None,
        }
    }

    /// Reads a text as a path. The empty text and `/` give the root; a text
    /// that ends with `/` or holds `//` gives nothing; any other text is
    /// taken as it is, with a `/` in front where it has none.
    pub fn new(s: &str) -> (r: Option<Self>)
        ensures
            r matches Some(p) ==> normalized_form(s@) == Some(p@),
            r is None ==> normalized_form(s@) is None,
    {
        let scan = scan_slashes(s);
        if scan.len == 0 || (scan.len == 1 && scan.starts) {
            assert(scan.len == 1 && scan.starts ==> s@ =~= seq!['/']);
            return Some(Self::root());
        }
        assert(s@ != seq!['/']) by {
            if s@ == seq!['/'] {
                assert(seq!['/'].len() == 1);
            }
        }
        if scan.ends || scan.double {
            return None;
        }
        if !scan.starts {
            proof {
                reveal_strlit("/");
            }
            let mut t = String::from_str("/");
            t.append(s);
            assert(t@ =~= seq!['/'] + s@);
            proof {
                lemma_slash_in_front(s@);
            }
            Some(VfsPath(t))
        } else {
            Some(VfsPath(s.to_owned()))
        }
    }

    /// Appends a whole path to this one.
    pub fn push(&mut self, relative: &Self)
        ensures
            final(self)@ == old(self)@ + relative@,
    {
        proof {
            use_type_invariant(&*self);
            use_type_invariant(relative);
            lemma_joined_is_normalized(self.0@, relative.0@);
        }
        let mut joined = self.0.clone();
        joined.append(relative.0.as_str());
        self.0 = joined;
    }

    /// Appends one segment, behind a `/`. A segment that is empty or holds a
    /// `/` is refused, and the path stays as it was.
    pub fn push_segment(&mut self, segment: &str) -> (r: Option<()>)
        ensures
            is_segment(segment@) ==> r is Some && final(self)@ == old(self)@ + seq!['/'] + segment@,
            !is_segment(segment@) ==> r is None && final(self)@ == old(self)@,
    {
        let scan = scan_slashes(segment);
        proof {
            lemma_last_slash_bounds(segment@);
        }
        if scan.len == 0 || scan.last.is_some() {
            return None;
        }
        proof {
            reveal_strlit("/");
            use_type_invariant(&*self);
        }
        let mut tail = String::from_str("/");
        tail.append(segment);
        assert(tail@ =~= seq!['/'] + segment@);
        proof {
            lemma_slash_in_front(segment@);
            lemma_joined_is_normalized(self.0@, tail@);
        }
        let mut joined = self.0.clone();
        joined.append(tail.as_str());
        assert(joined@ =~= old(self)@ + seq!['/'] + segment@);
        self.0 = joined;
        Some(())
    }

    /// Drops the last segment. The root has none, and stays.
    pub fn pop(&mut self) -> (r: Option<()>)
        ensures
            old(self)@.len() > 0 ==> r is Some && final(self)@ == old(self)@.take(last_slash(old(self)@)),
            old(self)@.len() == 0 ==> r is None && final(self)@ == old(self)@,
    {
        proof {
            use_type_invariant(&*self);
            lemma_last_slash_bounds(self.0@);
        }
        let scan = scan_slashes(self.0.as_str());
        match scan.last {
            Some(at) => {
                proof {
                    lemma_prefix_is_normalized(self.0@, at as int);
                }
                let parent = self.0.as_str().substring_char(0, at).to_owned();
                assert(parent@ =~= old(self)@.take(at as int));
                self.0 = parent;
                Some(())
            },
            None => None,
        }
    }

    /// The text of the path.
    pub fn as_str(&self) -> (r: &str)
        ensures
            r@ == self@,
            is_normalized(self@),
    {
        proof {
            use_type_invariant(self);
        }
        self.0.as_str()
    }
}

/// Two normalized paths, one behind the other, are a normalized path.
proof fn lemma_joined_is_normalized(a: Seq<char>, b: Seq<char>)
    requires
        is_normalized(a),
        is_normalized(b),
    ensures
        is_normalized(a + b),
{
    let t = a + b;
    if a.len() > 0 && b.len() > 0 {
        if has_double_slash(t) {
            let i = choose|i: int| 0 <= i < t.len() - 1 && #[trigger] t[i] == '/' && t[i + 1] == '/';
            if i + 1 < a.len() {
                assert(a[i] == '/' && a[i + 1] == '/');
            } else if i >= a.len() {
                assert(b[i - a.len()] == '/' && b[i - a.len() + 1] == '/');
            }
        }
    } else if a.len() == 0 {
        assert(t =~= b);
    } else {
        assert(t =~= a);
    }
}

/// What stands before a `/` of a normalized path is a normalized path, if no
/// `/` follows that one.
proof fn lemma_prefix_is_normalized(s: Seq<char>, at: int)
    requires
        is_normalized(s),
        0 <= at < s.len(),
        s[at] == '/',
    ensures
        is_normalized(s.take(at)),
{
    let t = s.take(at);
    if at > 0 {
        if t[at - 1] == '/' {
            assert(s[at - 1] == '/' && s[at - 1 + 1] == '/');
        }
        if has_double_slash(t) {
            let i = choose|i: int| 0 <= i < t.len() - 1 && #[trigger] t[i] == '/' && t[i + 1] == '/';
            assert(s[i] == '/' && s[i + 1] == '/');
        }
    }
}

/// A `/` in front of a text that has none at either end and no `//` gives a
/// normalized path.
proof fn lemma_slash_in_front(s: Seq<char>)
    requires
        s.len() > 0,
        s[0] != '/',
        s[s.len() - 1] != '/',
        !has_double_slash(s),
    ensures
        is_normalized(seq!['/'] + s),
{
    let t = seq!['/'] + s;
    if has_double_slash(t) {
        let i = choose|i: int| 0 <= i < t.len() - 1 && #[trigger] t[i] == '/' && t[i + 1] == '/';
        if i > 0 {
            assert(s[i - 1] == '/' && s[i - 1 + 1] == '/');
        }
    }
}

} // verus!
