use nil::base::FileId;
use nil::base::FileRange;
use nil::diagnostic::collect_diagnostics;
use nil::diagnostic::sort_by_start;
use nil::diagnostic::Diagnostic;
use nil::diagnostic::DiagnosticKind;
use nil::diagnostic::Severity;
use nil::diagnostic::SynErrorKind;
use nil::diagnostic::SyntaxError;
use nil::diagnostic::SyntaxKind;
use nil::text::TextRange;
use nil::text::TextSize;

fn range(start: u32, end: u32) -> TextRange {
    TextRange::new(TextSize::new(start), TextSize::new(end))
}

fn diag(start: u32, end: u32, kind: DiagnosticKind) -> Diagnostic {
    Diagnostic::new(range(start, end), kind)
}

const ALL_KINDS: [DiagnosticKind; 23] = [
    DiagnosticKind::SyntaxError(SynErrorKind::MultipleRoots),
    DiagnosticKind::SyntaxError(SynErrorKind::PathTrailingSlash),
    DiagnosticKind::SyntaxError(SynErrorKind::PathDuplicatedSlashes),
    DiagnosticKind::SyntaxError(SynErrorKind::MultipleNoAssoc),
    DiagnosticKind::SyntaxError(SynErrorKind::MissingToken(SyntaxKind::Semicolon)),
    DiagnosticKind::SyntaxError(SynErrorKind::MissingExpr),
    DiagnosticKind::SyntaxError(SynErrorKind::MissingElemExpr),
    DiagnosticKind::SyntaxError(SynErrorKind::MissingAttr),
    DiagnosticKind::SyntaxError(SynErrorKind::MissingParamIdent),
    DiagnosticKind::SyntaxError(SynErrorKind::MissingBinding),
    DiagnosticKind::SyntaxError(SynErrorKind::NestTooDeep),
    DiagnosticKind::InvalidDynamic,
    DiagnosticKind::DuplicatedKey,
    DiagnosticKind::EmptyInherit,
    DiagnosticKind::EmptyLetIn,
    DiagnosticKind::LetAttrset,
    DiagnosticKind::UriLiteral,
    DiagnosticKind::MergePlainRecAttrset,
    DiagnosticKind::MergeRecAttrset,
    DiagnosticKind::UndefinedName,
    DiagnosticKind::UnusedBinding,
    DiagnosticKind::UnusedWith,
    DiagnosticKind::UnusedRec,
];

#[test]
fn severity_of_every_kind() {
    let error = Severity::Error;
    let warning = Severity::Warning;
    let incomplete = Severity::IncompleteSyntax;
    let expected = [
        error, error, error, error,
        incomplete, incomplete, incomplete, incomplete,
        incomplete, incomplete, incomplete,
        error, error,
        warning, warning, warning, warning, warning, warning,
        error,
        warning, warning, warning,
    ];
    for (kind, severity) in ALL_KINDS.iter().zip(expected) {
        assert_eq!(diag(0, 0, *kind).severity(), severity, "{:?}", kind);
    }
}

#[test]
fn unnecessary_and_deprecated_kinds() {
    for kind in ALL_KINDS {
        let d = diag(0, 0, kind);
        let unnecessary = matches!(
            kind,
            DiagnosticKind::EmptyInherit
                | DiagnosticKind::UnusedBinding
                | DiagnosticKind::UnusedWith
                | DiagnosticKind::UnusedRec
        );
        let deprecated = matches!(kind, DiagnosticKind::LetAttrset | DiagnosticKind::UriLiteral);
        assert_eq!(d.is_unnecessary(), unnecessary, "{:?}", kind);
        assert_eq!(d.is_deprecated(), deprecated, "{:?}", kind);
    }
}

#[test]
fn messages_of_lowering_and_resolution() {
    let expected = [
        (DiagnosticKind::InvalidDynamic, "Invalid location of dynamic attribute"),
        (DiagnosticKind::DuplicatedKey, "Duplicated name definition"),
        (DiagnosticKind::EmptyInherit, "Nothing inherited"),
        (DiagnosticKind::EmptyLetIn, "Empty let-in"),
        (
            DiagnosticKind::LetAttrset,
            "`let { ... }` is deprecated. Use `let ... in ...` instead",
        ),
        (
            DiagnosticKind::UriLiteral,
            "URL literal is confusing and deprecated. Use strings instead",
        ),
        (
            DiagnosticKind::MergePlainRecAttrset,
            "Merging non-rec-attrset with rec-attrset, the latter `rec` is implicitly ignored",
        ),
        (
            DiagnosticKind::MergeRecAttrset,
            "Merging rec-attrset with other attrsets or attrpath. Merged values can unexpectedly reference each other remotely as in a single `rec { ... }`",
        ),
        (DiagnosticKind::UndefinedName, "Undefined name"),
        (DiagnosticKind::UnusedBinding, "Unused binding"),
        (DiagnosticKind::UnusedWith, "Unused `with`"),
        (DiagnosticKind::UnusedRec, "Unused `rec`"),
    ];
    for (kind, message) in expected {
        assert_eq!(diag(0, 0, kind).message(), message);
    }
}

#[test]
fn messages_of_syntax_errors() {
    let expected = [
        (SynErrorKind::MultipleRoots, "Multiple root expressions"),
        (SynErrorKind::PathTrailingSlash, "Path has trailing slash"),
        (SynErrorKind::PathDuplicatedSlashes, "Path has duplicated slashes"),
        (SynErrorKind::MultipleNoAssoc, "Invalid usage of no-associative operators"),
        (SynErrorKind::MissingToken(SyntaxKind::Semicolon), "Missing \";\""),
        (SynErrorKind::MissingToken(SyntaxKind::KwIn), "Missing \"in\""),
        (SynErrorKind::MissingToken(SyntaxKind::RCurly), "Missing \"}\""),
        (SynErrorKind::MissingExpr, "Missing expression"),
        (SynErrorKind::MissingElemExpr, "Missing list element expression"),
        (SynErrorKind::MissingAttr, "Missing attribute"),
        (SynErrorKind::MissingParamIdent, "Missing parameter identifier"),
        (SynErrorKind::MissingBinding, "Missing binding"),
        (SynErrorKind::NestTooDeep, "Nest too deep"),
    ];
    for (kind, message) in expected {
        assert_eq!(kind.message(), message);
        assert_eq!(diag(0, 0, DiagnosticKind::SyntaxError(kind)).message(), message);
    }
}

#[test]
fn every_token_has_its_text() {
    let expected = [
        (SyntaxKind::Semicolon, ";"),
        (SyntaxKind::Colon, ":"),
        (SyntaxKind::Equal, "="),
        (SyntaxKind::RCurly, "}"),
        (SyntaxKind::RBrack, "]"),
        (SyntaxKind::RParen, ")"),
        (SyntaxKind::KwIn, "in"),
        (SyntaxKind::KwThen, "then"),
        (SyntaxKind::KwElse, "else"),
    ];
    for (kind, text) in expected {
        assert_eq!(kind.text(), text);
    }
}

#[test]
fn syntax_error_becomes_a_diagnostic() {
    let err = SyntaxError { range: range(3, 4), kind: SynErrorKind::MissingExpr };
    let d = Diagnostic::from(err);
    assert_eq!(d, diag(3, 4, DiagnosticKind::SyntaxError(SynErrorKind::MissingExpr)));
    assert!(d.notes.is_empty());
    assert_eq!(d.severity(), Severity::IncompleteSyntax);
}

#[test]
fn with_note_appends() {
    let first = FileRange::new(FileId(0), range(2, 3));
    let second = FileRange::new(FileId(0), range(9, 10));
    let d = diag(9, 10, DiagnosticKind::DuplicatedKey)
        .with_note(first, "Previously defined here")
        .with_note(second, "again");
    assert_eq!(d.range, range(9, 10));
    assert_eq!(d.kind, DiagnosticKind::DuplicatedKey);
    assert_eq!(
        d.notes,
        vec![(first, "Previously defined here".to_owned()), (second, "again".to_owned())]
    );
    assert_eq!(d.clone(), d);
    assert_ne!(d, diag(9, 10, DiagnosticKind::DuplicatedKey));
}

#[test]
fn debug_display_of_a_duplicated_key() {
    // `{ a = 1; a = 2; }`: the second `a` is reported, with a note at the first.
    let d = diag(9, 10, DiagnosticKind::DuplicatedKey)
        .with_note(FileRange::new(FileId(0), range(2, 3)), "Previously defined here");
    assert_eq!(
        d.debug_display(),
        "9..10: Duplicated name definition\n  2..3: Previously defined here"
    );
}

#[test]
fn debug_display_without_notes() {
    // `rec { a = 1; b = 2; }`: the `rec` keyword is reported.
    let d = diag(0, 3, DiagnosticKind::UnusedRec);
    assert_eq!(d.debug_display(), "0..3: Unused `rec`");
    let d = diag(120, 4000, DiagnosticKind::SyntaxError(SynErrorKind::MissingToken(SyntaxKind::RParen)));
    assert_eq!(d.debug_display(), "120..4000: Missing \")\"");
}

#[test]
fn debug_display_with_two_notes() {
    let d = diag(1, 2, DiagnosticKind::MergeRecAttrset)
        .with_note(FileRange::new(FileId(3), range(5, 8)), "left")
        .with_note(FileRange::new(FileId(4), range(10, 20)), "right");
    assert_eq!(
        d.debug_display(),
        format!("1..2: {}\n  5..8: left\n  10..20: right", d.message())
    );
}

#[test]
fn sort_by_start_is_stable() {
    let sorted = sort_by_start(vec![
        diag(5, 6, DiagnosticKind::UnusedBinding),
        diag(1, 9, DiagnosticKind::UnusedWith),
        diag(5, 7, DiagnosticKind::UndefinedName),
        diag(0, 1, DiagnosticKind::EmptyLetIn),
        diag(5, 5, DiagnosticKind::DuplicatedKey),
        diag(1, 2, DiagnosticKind::UriLiteral),
    ]);
    assert_eq!(
        sorted,
        vec![
            diag(0, 1, DiagnosticKind::EmptyLetIn),
            diag(1, 9, DiagnosticKind::UnusedWith),
            diag(1, 2, DiagnosticKind::UriLiteral),
            diag(5, 6, DiagnosticKind::UnusedBinding),
            diag(5, 7, DiagnosticKind::UndefinedName),
            diag(5, 5, DiagnosticKind::DuplicatedKey),
        ]
    );
    assert_eq!(sort_by_start(Vec::new()), Vec::new());
}

#[test]
fn collected_diagnostics_come_in_source_order() {
    let syntax = vec![diag(7, 8, DiagnosticKind::SyntaxError(SynErrorKind::MissingExpr))];
    let lowering = vec![
        diag(2, 3, DiagnosticKind::EmptyInherit),
        diag(7, 9, DiagnosticKind::DuplicatedKey),
    ];
    let resolution = vec![
        diag(0, 4, DiagnosticKind::UnusedWith),
        diag(7, 7, DiagnosticKind::UndefinedName),
    ];
    assert_eq!(
        collect_diagnostics(syntax, lowering, resolution),
        vec![
            diag(0, 4, DiagnosticKind::UnusedWith),
            diag(2, 3, DiagnosticKind::EmptyInherit),
            diag(7, 8, DiagnosticKind::SyntaxError(SynErrorKind::MissingExpr)),
            diag(7, 9, DiagnosticKind::DuplicatedKey),
            diag(7, 7, DiagnosticKind::UndefinedName),
        ]
    );
}
