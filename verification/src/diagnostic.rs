//! Diagnostics: what they say, how bad they are, how they are shown and
//! ordered.

use crate::base::FileRange;
use crate::text::range_text;
use crate::text::TextRange;
use vstd::prelude::*;
use vstd::string::StringExecFns;

verus! {

/// A token that the parser can find missing.
#[derive(Debug, Clone, Copy, PartialEq, Eq, Hash, Structural)]
pub enum SyntaxKind {
    Semicolon,
    Colon,
    Equal,
    RCurly,
    RBrack,
    RParen,
    KwIn,
    KwThen,
    KwElse,
}

impl SyntaxKind {
    /// The token as it is written in a source file.
    pub open spec fn spec_text(self) -> Seq<char> {
        match self {
            SyntaxKind::Semicolon => ";"@,
            SyntaxKind::Colon => ":"@,
            SyntaxKind::Equal => "="@,
            SyntaxKind::RCurly => "}"@,
            SyntaxKind::RBrack => "]"@,
            SyntaxKind::RParen => ")"@,
            SyntaxKind::KwIn => "in"@,
            SyntaxKind::KwThen => "then"@,
            SyntaxKind::KwElse => "else"@,
        }
    }

    pub fn text(self) -> (r: &'static str)
        ensures
            r@ == self.spec_text(),
    {
        match self {
            SyntaxKind::Semicolon => ";",
            SyntaxKind::Colon => ":",
            SyntaxKind::Equal => "=",
            SyntaxKind::RCurly => "}",
            SyntaxKind::RBrack => "]",
            SyntaxKind::RParen => ")",
            SyntaxKind::KwIn => "in",
            SyntaxKind::KwThen => "then",
            SyntaxKind::KwElse => "else",
        }
    }
}

/// What the parser can find wrong.
#[derive(Debug, Clone, Copy, PartialEq, Eq, Hash, Structural)]
pub enum SynErrorKind {
    MultipleRoots,
    PathTrailingSlash,
    PathDuplicatedSlashes,
    MultipleNoAssoc,
    MissingToken(SyntaxKind),
    MissingExpr,
    MissingElemExpr,
    MissingAttr,
    MissingParamIdent,
    MissingBinding,
    NestTooDeep,
}

impl SynErrorKind {
    /// An error that a complete source text can hold; the others stand for
    /// text that is still being typed.
    pub open spec fn is_malformed(self) -> bool {
        self is MultipleRoots || self is PathTrailingSlash || self is PathDuplicatedSlashes
            || self is MultipleNoAssoc
    }

    pub open spec fn spec_message(self) -> Seq<char> {
        match self {
            SynErrorKind::MultipleRoots => "Multiple root expressions"@,
            SynErrorKind::PathTrailingSlash => "Path has trailing slash"@,
            SynErrorKind::PathDuplicatedSlashes => "Path has duplicated slashes"@,
            SynErrorKind::MultipleNoAssoc => "Invalid usage of no-associative operators"@,
            SynErrorKind::MissingToken(token) => "Missing \""@ + token.spec_text() + "\""@,
            SynErrorKind::MissingExpr => "Missing expression"@,
            SynErrorKind::MissingElemExpr => "Missing list element expression"@,
            SynErrorKind::MissingAttr => "Missing attribute"@,
            SynErrorKind::MissingParamIdent => "Missing parameter identifier"@,
            SynErrorKind::MissingBinding => "Missing binding"@,
            SynErrorKind::NestTooDeep => "Nest too deep"@,
        }
    }

    /// The error in words.
    pub fn message(self) -> (r: String)
        ensures
            r@ == self.spec_message(),
    {
        match self {
            SynErrorKind::MultipleRoots => String::from_str("Multiple root expressions"),
            SynErrorKind::PathTrailingSlash => String::from_str("Path has trailing slash"),
            SynErrorKind::PathDuplicatedSlashes => String::from_str("Path has duplicated slashes"),
            SynErrorKind::MultipleNoAssoc => String::from_str(
                "Invalid usage of no-associative operators",
            ),
            SynErrorKind::MissingToken(token) => {
                let mut s = String::from_str("Missing \"");
                s.append(token.text());
                s.append("\"");
                s
            },
            SynErrorKind::MissingExpr => String::from_str("Missing expression"),
            SynErrorKind::MissingElemExpr => String::from_str("Missing list element expression"),
            SynErrorKind::MissingAttr => String::from_str("Missing attribute"),
            SynErrorKind::MissingParamIdent => String::from_str("Missing parameter identifier"),
            SynErrorKind::MissingBinding => String::from_str("Missing binding"),
            SynErrorKind::NestTooDeep => String::from_str("Nest too deep"),
        }
    }
}

/// An error of the parser, with the place where it was found.
#[derive(Debug, Clone, Copy, PartialEq, Eq, Hash, Structural)]
pub struct SyntaxError {
    pub range: TextRange,
    pub kind: SynErrorKind,
}

/// What a diagnostic says.
#[derive(Debug, Clone, Copy, PartialEq, Eq, Structural)]
pub enum DiagnosticKind {
    // Syntax.
    SyntaxError(SynErrorKind),
    // Lowering.
    InvalidDynamic,
    DuplicatedKey,
    EmptyInherit,
    EmptyLetIn,
    LetAttrset,
    UriLiteral,
    MergePlainRecAttrset,
    MergeRecAttrset,
    // Name resolution.
    UndefinedName,
    // Liveness.
    UnusedBinding,
    UnusedWith,
    UnusedRec,
}

#[derive(Debug, Copy, Clone, PartialEq, Eq, Structural)]
pub enum Severity {
    Error,
    Warning,
    IncompleteSyntax,
}

impl DiagnosticKind {
    /// How bad a diagnostic of this kind is.
    pub open spec fn spec_severity(self) -> Severity {
        match self {
            DiagnosticKind::InvalidDynamic
            | DiagnosticKind::DuplicatedKey
            | DiagnosticKind::UndefinedName => Severity::Error,
            DiagnosticKind::SyntaxError(kind) => if kind.is_malformed() {
                Severity::Error
            } else {
                Severity::IncompleteSyntax
            },
            _ => Severity::Warning,
        }
    }

    /// Whether what the diagnostic points at can go without loss.
    pub open spec fn spec_is_unnecessary(self) -> bool {
        self is EmptyInherit || self is UnusedBinding || self is UnusedWith || self is UnusedRec
    }

    /// Whether the diagnostic points at a form that is out of use.
    pub open spec fn spec_is_deprecated(self) -> bool {
        self is LetAttrset || self is UriLiteral
    }

    pub open spec fn spec_message(self) -> Seq<char> {
        match self {
            DiagnosticKind::SyntaxError(kind) => kind.spec_message(),
            DiagnosticKind::InvalidDynamic => "Invalid location of dynamic attribute"@,
            DiagnosticKind::DuplicatedKey => "Duplicated name definition"@,
            DiagnosticKind::EmptyInherit => "Nothing inherited"@,
            DiagnosticKind::EmptyLetIn => "Empty let-in"@,
            DiagnosticKind::LetAttrset => "`let { ... }` is deprecated. Use `let ... in ...` instead"@,
            DiagnosticKind::UriLiteral => "URL literal is confusing and deprecated. Use strings instead"@,
            DiagnosticKind::MergePlainRecAttrset => "Merging non-rec-attrset with rec-attrset, the latter `rec` is implicitly ignored"@,
            DiagnosticKind::MergeRecAttrset => "Merging rec-attrset with other attrsets or attrpath. Merged values can unexpectedly reference each other remotely as in a single `rec { ... }`"@,
            DiagnosticKind::UndefinedName => "Undefined name"@,
            DiagnosticKind::UnusedBinding => "Unused binding"@,
            DiagnosticKind::UnusedWith => "Unused `with`"@,
            DiagnosticKind::UnusedRec => "Unused `rec`"@,
        }
    }
}

/// How one note is shown: on a line of its own behind two blanks, the range
/// and the message.
pub open spec fn note_text(note: (FileRange, String)) -> Seq<char> {
    "\n  "@ + range_text(note.0.range.spec_start().raw, note.0.range.spec_end().raw) + ": "@
        + note.1@
}

/// How a list of notes is shown: one after the other.
pub open spec fn notes_text(notes: Seq<(FileRange, String)>) -> Seq<char>
    decreases notes.len(),
{
    if notes.len() == 0 {
        Seq::empty()
    } else {
        notes_text(notes.drop_last()) + note_text(notes.last())
    }
}

/// Something found in a file: where, what, and notes that point at related
/// places.
#[derive(Debug)]
pub struct Diagnostic {
    pub range: TextRange,
    pub kind: DiagnosticKind,
    pub notes: Vec<(FileRange, String)>,
}

impl Clone for Diagnostic {
    fn clone(&self) -> (r: Self)
        ensures
            r.range == self.range,
            r.kind == self.kind,
            r.notes@.len() == self.notes@.len(),
            forall|i: int|
                0 <= i < r.notes@.len() ==> (#[trigger] r.notes@[i]).0 == self.notes@[i].0
                    && r.notes@[i].1@ == self.notes@[i].1@,
    {
        let mut notes: Vec<(FileRange, String)> = Vec::new();
        let n = self.notes.len();
        for i in 0..n
            invariant
                n == self.notes@.len(),
                notes@.len() == i,
                forall|k: int|
                    0 <= k < i ==> (#[trigger] notes@[k]).0 == self.notes@[k].0 && notes@[k].1@
                        == self.notes@[k].1@,
        {
            notes.push((self.notes[i].0, self.notes[i].1.clone()));
        }
        Diagnostic { range: self.range, kind: self.kind, notes }
    }
}

impl Diagnostic {
    /// A diagnostic without notes.
    pub fn new(range: TextRange, kind: DiagnosticKind) -> (r: Self)
        ensures
            r.range == range,
            r.kind == kind,
            r.notes@.len() == 0,
    {
        Self { range, kind, notes: Vec::new() }
    }

    /// The same diagnostic with one more note, behind those it has.
    pub fn with_note(self, frange: FileRange, message: &str) -> (r: Self)
        ensures
            r.range == self.range,
            r.kind == self.kind,
            r.notes@.len() == self.notes@.len() + 1,
            r.notes@.drop_last() == self.notes@,
            r.notes@.last().0 == frange,
            r.notes@.last().1@ == message@,
    {
        let Diagnostic { range, kind, mut notes } = self;
        notes.push((frange, message.to_owned()));
        assert(notes@.drop_last() =~= self.notes@);
        Diagnostic { range, kind, notes }
    }

    pub fn severity(&self) -> (r: Severity)
        ensures
            r == self.kind.spec_severity(),
    {
        match self.kind {
            DiagnosticKind::InvalidDynamic
            | DiagnosticKind::DuplicatedKey
            | DiagnosticKind::UndefinedName => Severity::Error,
            DiagnosticKind::EmptyInherit
            | DiagnosticKind::EmptyLetIn
            | DiagnosticKind::LetAttrset
            | DiagnosticKind::UriLiteral
            | DiagnosticKind::MergePlainRecAttrset
            | DiagnosticKind::MergeRecAttrset
            | DiagnosticKind::UnusedBinding
            | DiagnosticKind::UnusedWith
            | DiagnosticKind::UnusedRec => Severity::Warning,
            DiagnosticKind::SyntaxError(kind) => match kind {
                SynErrorKind::MultipleRoots
                | SynErrorKind::PathTrailingSlash
                | SynErrorKind::PathDuplicatedSlashes
                | SynErrorKind::MultipleNoAssoc => Severity::Error,
                SynErrorKind::MissingToken(_)
                | SynErrorKind::MissingExpr
                | SynErrorKind::MissingElemExpr
                | SynErrorKind::MissingAttr
                | SynErrorKind::MissingParamIdent
                | SynErrorKind::MissingBinding
                | SynErrorKind::NestTooDeep => Severity::IncompleteSyntax,
            },
        }
    }

    /// The diagnostic in words.
    pub fn message(&self) -> (r: String)
        ensures
            r@ == self.kind.spec_message(),
    {
        let text = match self.kind {
            DiagnosticKind::SyntaxError(kind) => {
                return kind.message();
            },
            DiagnosticKind::InvalidDynamic => "Invalid location of dynamic attribute",
            DiagnosticKind::DuplicatedKey => "Duplicated name definition",
            DiagnosticKind::EmptyInherit => "Nothing inherited",
            DiagnosticKind::EmptyLetIn => "Empty let-in",
            DiagnosticKind::LetAttrset => "`let { ... }` is deprecated. Use `let ... in ...` instead",
            DiagnosticKind::UriLiteral => "URL literal is confusing and deprecated. Use strings instead",
            DiagnosticKind::MergePlainRecAttrset => "Merging non-rec-attrset with rec-attrset, the latter `rec` is implicitly ignored",
            DiagnosticKind::MergeRecAttrset => "Merging rec-attrset with other attrsets or attrpath. Merged values can unexpectedly reference each other remotely as in a single `rec { ... }`",
            DiagnosticKind::UndefinedName => "Undefined name",
            DiagnosticKind::UnusedBinding => "Unused binding",
            DiagnosticKind::UnusedWith => "Unused `with`",
            DiagnosticKind::UnusedRec => "Unused `rec`",
        };
        String::from_str(text)
    }

    pub fn is_unnecessary(&self) -> (r: bool)
        ensures
            r == self.kind.spec_is_unnecessary(),
    {
        match self.kind {
            DiagnosticKind::EmptyInherit
            | DiagnosticKind::UnusedBinding
            | DiagnosticKind::UnusedWith
            | DiagnosticKind::UnusedRec => true,
            _ => false,
        }
    }

    pub fn is_deprecated(&self) -> (r: bool)
        ensures
            r == self.kind.spec_is_deprecated(),
    {
        match self.kind {
            DiagnosticKind::LetAttrset | DiagnosticKind::UriLiteral => true,
            _ => false,
        }
    }

    /// The diagnostic as text: its range and its message, then each note on
    /// a line of its own. The files of the notes are not shown: a note lies
    /// in the file of its diagnostic.
    pub open spec fn spec_debug_display(&self) -> Seq<char> {
        range_text(self.range.spec_start().raw, self.range.spec_end().raw) + ": "@
            + self.kind.spec_message() + notes_text(self.notes@)
    }

    pub fn debug_display(&self) -> (r: String)
        ensures
            r@ == self.spec_debug_display(),
    {
        let mut out = self.range.to_text();
        out.append(": ");
        out.append(self.message().as_str());
        let ghost head = out@;
        let n = self.notes.len();
        assert(self.notes@.take(0) =~= Seq::empty());
        for i in 0..n
            invariant
                n == self.notes@.len(),
                out@ == head + notes_text(self.notes@.take(i as int)),
        {
            let ghost before = out@;
            out.append("\n  ");
            out.append(self.notes[i].0.range.to_text().as_str());
            out.append(": ");
            out.append(self.notes[i].1.as_str());
            proof {
                assert(self.notes@.take(i + 1).drop_last() =~= self.notes@.take(i as int));
                assert(self.notes@.take(i + 1).last() == self.notes@[i as int]);
                assert(out@ =~= before + note_text(self.notes@[i as int]));
            }
        }
        assert(self.notes@.take(n as int) =~= self.notes@);
        out
    }
}

/// The notes of a diagnostic as plain values.
pub open spec fn notes_of(notes: Seq<(FileRange, String)>) -> Seq<(FileRange, Seq<char>)> {
    Seq::new(notes.len(), |i: int| (notes[i].0, notes[i].1@))
}

impl PartialEq for Diagnostic {
    fn eq(&self, other: &Self) -> (r: bool) {
        if self.range != other.range || self.kind != other.kind || self.notes.len()
            != other.notes.len() {
            assert(self.notes@.len() != other.notes@.len() ==> notes_of(self.notes@).len()
                != notes_of(other.notes@).len());
            return false;
        }
        let n = self.notes.len();
        for i in 0..n
            invariant
                n == self.notes@.len(),
                n == other.notes@.len(),
                forall|k: int| 0 <= k < i ==> notes_of(self.notes@)[k] == notes_of(other.notes@)[k],
        {
            if self.notes[i].0 != other.notes[i].0 || self.notes[i].1 != other.notes[i].1 {
                assert(notes_of(self.notes@)[i as int] != notes_of(other.notes@)[i as int]);
                return false;
            }
        }
        assert(notes_of(self.notes@) =~= notes_of(other.notes@));
        true
    }
}

/// Two diagnostics are equal when they say the same of the same range, with
/// the same notes in the same order.
impl vstd::std_specs::cmp::PartialEqSpecImpl for Diagnostic {
    open spec fn obeys_eq_spec() -> bool {
        true
    }

    open spec fn eq_spec(&self, other: &Self) -> bool {
        self.range == other.range && self.kind == other.kind && notes_of(self.notes@) == notes_of(
            other.notes@,
        )
    }
}

impl Eq for Diagnostic {

}

/// The offset at which the range of a diagnostic starts.
pub open spec fn starts_at(d: Diagnostic) -> int {
    d.range.spec_start().raw as int
}

/// `output` holds the diagnostics of `input` in the order of their starts,
/// those with the same start in the order in which `input` holds them;
/// `order` tells for each place of `output` the place in `input` from which
/// its diagnostic comes.
pub open spec fn is_stable_order(input: Seq<Diagnostic>, output: Seq<Diagnostic>, order: Seq<int>) -> bool {
    &&& output.len() == input.len()
    &&& order.len() == input.len()
    &&& forall|i: int|
        0 <= i < order.len() ==> 0 <= #[trigger] order[i] < input.len() && output[i] == input[order[i]]
    &&& forall|i: int, j: int|
        #![trigger output[i], output[j]]
        0 <= i < j < order.len() ==> starts_at(output[i]) < starts_at(output[j]) || (starts_at(
            output[i],
        ) == starts_at(output[j]) && order[i] < order[j])
}

/// `output` is `input` in source order.
pub open spec fn is_source_order_of(input: Seq<Diagnostic>, output: Seq<Diagnostic>) -> bool {
    exists|order: Seq<int>| is_stable_order(input, output, order)
}

/// An order that names each place of the input at most once names each
/// of them.
proof fn lemma_order_names_all(input: Seq<Diagnostic>, output: Seq<Diagnostic>, order: Seq<int>, k: int)
    requires
        is_stable_order(input, output, order),
        0 <= k < input.len(),
    ensures
        exists|j: int| 0 <= j < order.len() && #[trigger] order[j] == k,
{
    assert forall|i: int, j: int| 0 <= i < j < order.len() implies order[i] != order[j] by {
        assert(output[i] == input[order[i]] && output[j] == input[order[j]]);
    }
    assert(order.no_duplicates());
    order.unique_seq_to_set();
    let n = input.len() as int;
    vstd::set_lib::lemma_int_range(0, n);
    vstd::seq_lib::seq_to_set_is_finite(order);
    assert(order.to_set().subset_of(vstd::set_lib::set_int_range(0, n))) by {
        assert forall|x: int| order.to_set().contains(x) implies vstd::set_lib::set_int_range(
            0,
            n,
        ).contains(x) by {
            let j = choose|j: int| 0 <= j < order.len() && order[j] == x;
            assert(0 <= order[j] < n);
        }
    }
    vstd::set_lib::lemma_subset_equality(order.to_set(), vstd::set_lib::set_int_range(0, n));
    assert(vstd::set_lib::set_int_range(0, n).contains(k));
    assert(order.to_set().contains(k));
}

/// Two orders of the same input name the same places one after the other.
proof fn lemma_orders_agree(
    input: Seq<Diagnostic>,
    a: Seq<Diagnostic>,
    b: Seq<Diagnostic>,
    oa: Seq<int>,
    ob: Seq<int>,
    i: int,
)
    requires
        is_stable_order(input, a, oa),
        is_stable_order(input, b, ob),
        0 <= i < input.len(),
    ensures
        oa[i] == ob[i],
    decreases i,
{
    if i > 0 {
        lemma_orders_agree(input, a, b, oa, ob, i - 1);
    }
    assert forall|m: int| 0 <= m < i implies oa[m] == ob[m] by {
        lemma_orders_agree(input, a, b, oa, ob, m);
    }
    if oa[i] != ob[i] {
        // The place that one order names here comes later in the other, and
        // the place that the other names here comes later in the one: each
        // would have to stand before the other.
        lemma_order_names_all(input, b, ob, oa[i]);
        let j = choose|j: int| 0 <= j < ob.len() && #[trigger] ob[j] == oa[i];
        lemma_order_names_all(input, a, oa, ob[i]);
        let l = choose|l: int| 0 <= l < oa.len() && #[trigger] oa[l] == ob[i];
        assert(a[i] == input[oa[i]] && b[j] == input[ob[j]]);
        assert(b[i] == input[ob[i]] && a[l] == input[oa[l]]);
        if j < i {
            assert(oa[j] == ob[j]);
            assert(a[j] == input[oa[j]]);
        }
        if l < i {
            assert(oa[l] == ob[l]);
            assert(b[l] == input[ob[l]]);
        }
        assert(j > i && l > i);
        assert(starts_at(b[i]) < starts_at(b[j]) || (starts_at(b[i]) == starts_at(b[j]) && ob[i] < ob[j]));
        assert(starts_at(a[i]) < starts_at(a[l]) || (starts_at(a[i]) == starts_at(a[l]) && oa[i] < oa[l]));
    }
}

/// There is only one source order of a list of diagnostics.
pub proof fn lemma_source_order_is_unique(input: Seq<Diagnostic>, a: Seq<Diagnostic>, b: Seq<Diagnostic>)
    requires
        is_source_order_of(input, a),
        is_source_order_of(input, b),
    ensures
        a == b,
{
    let oa = choose|order: Seq<int>| is_stable_order(input, a, order);
    let ob = choose|order: Seq<int>| is_stable_order(input, b, order);
    assert forall|i: int| 0 <= i < a.len() implies a[i] == b[i] by {
        lemma_orders_agree(input, a, b, oa, ob, i);
        assert(a[i] == input[oa[i]] && b[i] == input[ob[i]]);
    }
    assert(a =~= b);
}

/// Puts diagnostics in source order: by the start of their ranges, and
/// those that start together in the order in which they came.
pub fn sort_by_start(diagnostics: Vec<Diagnostic>) -> (r: Vec<Diagnostic>)
    ensures
        is_source_order_of(diagnostics@, r@),
{
    let ghost input = diagnostics@;
    let mut out: Vec<Diagnostic> = Vec::new();
    let ghost mut order: Seq<int> = Seq::empty();
    for d in it: diagnostics
        invariant
            it.seq() == input,
            is_stable_order(input.take(it.index() as int), out@, order),
    {
        let ghost at = it.index() as int;
        let ghost seen = input.take(at);
        let ghost before = out@;
        let key = d.range.start().raw;
        let mut k = out.len();
        while k > 0 && out[k - 1].range.start().raw > key
            invariant
                k <= out@.len(),
                out@ == before,
                forall|j: int| k <= j < out@.len() ==> starts_at(#[trigger] out@[j]) > key,
            decreases k,
        {
            k = k - 1;
        }
        out.insert(k, d);
        proof {
            let old_order = order;
            let new_order = old_order.insert(k as int, at);
            let now = input.take(at + 1);
            let output = out@;
            assert(now[at] == d);
            assert forall|i: int| 0 <= i < new_order.len() implies 0 <= #[trigger] new_order[i]
                < now.len() && output[i] == now[new_order[i]] by {
                if i < k {
                    assert(new_order[i] == old_order[i]);
                    assert(output[i] == before[i]);
                    assert(seen[old_order[i]] == now[old_order[i]]);
                } else if i > k {
                    assert(new_order[i] == old_order[i - 1]);
                    assert(output[i] == before[i - 1]);
                    assert(seen[old_order[i - 1]] == now[old_order[i - 1]]);
                } else {
                    assert(new_order[i] == at);
                    assert(output[i] == d);
                }
            }
            assert forall|i: int, j: int|
                #![trigger output[i], output[j]]
                0 <= i < j < new_order.len() implies (starts_at(output[i]) < starts_at(output[j]) || (
            starts_at(output[i]) == starts_at(output[j]) && new_order[i] < new_order[j])) by {
                let a = if i < k { i } else { i - 1 };
                let b = if j < k { j } else { j - 1 };
                if i != k && j != k {
                    assert(new_order[i] == old_order[a] && new_order[j] == old_order[b]);
                    assert(output[i] == before[a] && output[j] == before[b]);
                } else if i == k {
                    assert(output[j] == before[b]);
                    assert(starts_at(before[b]) > key);
                    assert(output[i] == d);
                } else {
                    assert(output[i] == before[a]);
                    assert(new_order[i] == old_order[a]);
                    assert(0 <= old_order[a] < at);
                    assert(starts_at(before[k - 1]) <= key);
                    if a < k - 1 {
                        assert(starts_at(before[a]) <= starts_at(before[k - 1]));
                    }
                    assert(output[j] == d);
                    assert(new_order[j] == at);
                }
            }
            assert(is_stable_order(now, output, new_order));
            order = new_order;
        }
    }
    assert(input.take(input.len() as int) =~= input);
    out
}

/// The diagnostics of a file: those of the parser, of the lowering and of
/// the name resolution, together in source order.
pub fn collect_diagnostics(syntax: Vec<Diagnostic>, lowering: Vec<Diagnostic>, resolution: Vec<Diagnostic>) -> (r: Vec<Diagnostic>)
    ensures
        is_source_order_of(syntax@ + lowering@ + resolution@, r@),
{
    let mut all = syntax;
    let mut lowering = lowering;
    let mut resolution = resolution;
    all.append(&mut lowering);
    all.append(&mut resolution);
    sort_by_start(all)
}

impl From<SyntaxError> for Diagnostic {
    fn from(err: SyntaxError) -> (r: Self)
        ensures
            r.range == err.range,
            r.kind == DiagnosticKind::SyntaxError(err.kind),
            r.notes@.len() == 0,
    {
        Self::new(err.range, DiagnosticKind::SyntaxError(err.kind))
    }
}

impl vstd::std_specs::convert::FromSpecImpl<SyntaxError> for Diagnostic {
    open spec fn obeys_from_spec() -> bool {
        false
    }

    open spec fn from_spec(err: SyntaxError) -> Self {
        arbitrary()
    }
}

} // verus!
