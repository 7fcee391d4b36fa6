use nil::base::FileRange;
use nil::base::FileId;
use nil::diagnostic::Diagnostic;
use nil::diagnostic::DiagnosticKind;
use nil::protocol::ErrorCode;
use nil::protocol::RequestKind;
use nil::state::cap_diagnostics;
use nil::state::failure_reply;
use nil::state::published_diagnostics;
use nil::state::Config;
use nil::state::Failure;
use nil::state::Lifecycle;
use nil::state::NotificationAction;
use nil::state::Reply;
use nil::state::RequestAction;
use nil::state::State;
use nil::state::MAX_DIAGNOSTICS_CNT;
use nil::text::TextRange;
use nil::text::TextSize;

fn diag(start: u32, kind: DiagnosticKind) -> Diagnostic {
    Diagnostic::new(TextRange::new(TextSize::new(start), TextSize::new(start + 1)), kind)
}

#[test]
fn lifecycle_from_fresh_to_terminated() {
    let mut st = State::new();
    assert_eq!(st.lifecycle(), Lifecycle::Fresh);
    st.open();
    assert_eq!(st.lifecycle(), Lifecycle::Active);
    st.open();
    assert_eq!(st.lifecycle(), Lifecycle::Active);
    assert!(matches!(st.dispatch_request("shutdown"), RequestAction::Shutdown));
    assert_eq!(st.lifecycle(), Lifecycle::Stopping);
    st.open();
    assert_eq!(st.lifecycle(), Lifecycle::Stopping);
    assert_eq!(st.dispatch_notification("exit"), NotificationAction::Exit);
    assert_eq!(st.lifecycle(), Lifecycle::Terminated);
    assert_eq!(st.dispatch_notification("exit"), NotificationAction::Ignore);
    assert_eq!(st.lifecycle(), Lifecycle::Terminated);
}

#[test]
fn feature_requests_are_served_while_active() {
    let mut st = State::new();
    st.open();
    match st.dispatch_request("textDocument/definition") {
        RequestAction::Serve(kind) => assert_eq!(kind, RequestKind::GotoDefinition),
        other => panic!("{:?}", other),
    }
    match st.dispatch_request("textDocument/semanticTokens/range") {
        RequestAction::Serve(kind) => assert_eq!(kind, RequestKind::SemanticTokensRange),
        other => panic!("{:?}", other),
    }
    assert_eq!(st.lifecycle(), Lifecycle::Active);
}

#[test]
fn unknown_request_is_refused_as_not_found() {
    let mut st = State::new();
    st.open();
    match st.dispatch_request("textDocument/formatting") {
        RequestAction::Refuse { code, message } => {
            assert_eq!(code, ErrorCode::MethodNotFound);
            assert_eq!(message, "");
        }
        other => panic!("{:?}", other),
    }
    assert_eq!(st.lifecycle(), Lifecycle::Active);
}

#[test]
fn requests_after_shutdown_are_refused() {
    let mut st = State::new();
    st.open();
    assert!(matches!(st.dispatch_request("shutdown"), RequestAction::Shutdown));
    for method in ["textDocument/hover", "shutdown", "no/such"] {
        match st.dispatch_request(method) {
            RequestAction::Refuse { code, message } => {
                assert_eq!(code, ErrorCode::InvalidRequest);
                assert_eq!(message, "Shutdown already requested.");
            }
            other => panic!("{:?}", other),
        }
    }
    assert_eq!(st.lifecycle(), Lifecycle::Stopping);
}

#[test]
fn notifications_while_active() {
    let mut st = State::new();
    st.open();
    let expected = [
        ("textDocument/didOpen", NotificationAction::Open),
        ("textDocument/didClose", NotificationAction::Close),
        ("textDocument/didChange", NotificationAction::Change),
        ("workspace/didChangeConfiguration", NotificationAction::PullConfiguration),
        ("$/cancelRequest", NotificationAction::Ignore),
        ("textDocument/didSave", NotificationAction::Unhandled),
    ];
    for (method, action) in expected {
        assert_eq!(st.dispatch_notification(method), action, "{}", method);
        assert_eq!(st.lifecycle(), Lifecycle::Active);
    }
}

#[test]
fn only_exit_is_taken_after_shutdown() {
    let mut st = State::new();
    st.open();
    assert!(matches!(st.dispatch_request("shutdown"), RequestAction::Shutdown));
    for method in ["textDocument/didOpen", "textDocument/didChange", "textDocument/didSave", "$/x"] {
        assert_eq!(st.dispatch_notification(method), NotificationAction::Ignore, "{}", method);
        assert_eq!(st.lifecycle(), Lifecycle::Stopping);
    }
    assert_eq!(st.dispatch_notification("exit"), NotificationAction::Exit);
}

#[test]
fn exit_without_shutdown_ends_the_server() {
    let mut st = State::new();
    st.open();
    assert_eq!(st.dispatch_notification("exit"), NotificationAction::Exit);
    assert_eq!(st.lifecycle(), Lifecycle::Terminated);
}

#[test]
fn changes_are_counted_while_serving() {
    let mut st = State::new();
    assert_eq!(st.revision(), 0);
    assert!(st.change());
    st.open();
    assert!(st.change());
    assert!(st.change());
    assert_eq!(st.revision(), 3);
    assert_eq!(st.lifecycle(), Lifecycle::Active);
    st.did_open("file:///a.nix");
    let _ = st.dispatch_request("textDocument/hover");
    let _ = st.dispatch_notification("textDocument/didChange");
    assert_eq!(st.revision(), 3);
    assert!(matches!(st.dispatch_request("shutdown"), RequestAction::Shutdown));
    assert!(!st.change());
    assert_eq!(st.revision(), 3);
    assert_eq!(st.dispatch_notification("exit"), NotificationAction::Exit);
    assert!(!st.change());
    assert_eq!(st.revision(), 3);
    assert!(st.is_opened("file:///a.nix"));
}

#[test]
fn closed_channel_fails_the_run() {
    let mut st = State::new();
    st.open();
    assert_eq!(st.channel_closed(), "Channel closed");
    assert_eq!(st.lifecycle(), Lifecycle::Terminated);
}

#[test]
fn opened_documents_are_a_set() {
    let mut st = State::new();
    assert!(!st.is_opened("file:///a.nix"));
    st.did_open("file:///a.nix");
    st.did_open("file:///b.nix");
    st.did_open("file:///a.nix");
    assert!(st.is_opened("file:///a.nix"));
    assert!(st.is_opened("file:///b.nix"));
    assert!(!st.is_opened("file:///c.nix"));
    st.did_close("file:///a.nix");
    assert!(!st.is_opened("file:///a.nix"));
    assert!(st.is_opened("file:///b.nix"));
    st.did_close("file:///c.nix");
    assert!(st.is_opened("file:///b.nix"));
}

fn error_of(reply: Reply) -> (ErrorCode, String) {
    match reply {
        Reply::Error { code, message } => (code, message),
        Reply::NoResult => panic!("no result"),
    }
}

#[test]
fn failures_become_replies() {
    let (code, message) = error_of(failure_reply(
        RequestKind::Hover,
        Failure::InvalidParams("missing field `position`".into()),
    ));
    assert_eq!((code, message.as_str()), (ErrorCode::InvalidParams, "missing field `position`"));
    let (code, message) = error_of(failure_reply(RequestKind::Hover, Failure::Cancelled));
    assert_eq!((code, message.as_str()), (ErrorCode::RequestCanceled, "request cancelled"));
    let (code, message) =
        error_of(failure_reply(RequestKind::Rename, Failure::Other("Invalid name".into())));
    assert_eq!((code, message.as_str()), (ErrorCode::InternalError, "Invalid name"));
}

#[test]
fn what_is_not_there_has_no_result() {
    for message in ["URI outside workspace", "URI not found", "Position out of bounds"] {
        assert!(matches!(
            failure_reply(RequestKind::GotoDefinition, Failure::Snapshot(message.into())),
            Reply::NoResult
        ));
    }
}

#[test]
fn panics_are_reported_with_place_and_reason() {
    let (code, message) = error_of(failure_reply(
        RequestKind::Rename,
        Failure::Panicked { location: "src/ide/rename.rs:10:5".into(), reason: Some("oops".into()) },
    ));
    assert_eq!(code, ErrorCode::InternalError);
    assert_eq!(
        message,
        "Request handler of textDocument/rename panicked at src/ide/rename.rs:10:5: oops"
    );
    let (_, message) = error_of(failure_reply(
        RequestKind::Hover,
        Failure::Panicked { location: String::new(), reason: None },
    ));
    assert_eq!(message, "Request handler of textDocument/hover panicked at unknown: unknown");
}

#[test]
fn the_cap_keeps_the_first_diagnostics() {
    let mut list: Vec<Diagnostic> = (0..5).map(|i| diag(i, DiagnosticKind::UnusedBinding)).collect();
    let all = list.clone();
    cap_diagnostics(&mut list, 7);
    assert_eq!(list, all);
    cap_diagnostics(&mut list, 5);
    assert_eq!(list, all);
    cap_diagnostics(&mut list, 3);
    assert_eq!(list, all[..3].to_vec());
    cap_diagnostics(&mut list, 0);
    assert!(list.is_empty());
}

#[test]
fn published_diagnostics_are_the_earliest_in_the_file() {
    assert_eq!(MAX_DIAGNOSTICS_CNT, 128);
    // 300 diagnostics, the later in the file the earlier in the list.
    let found: Vec<Diagnostic> =
        (0..300u32).rev().map(|i| diag(i * 2, DiagnosticKind::UndefinedName)).collect();
    let published = published_diagnostics(true, Some(found));
    assert_eq!(published.len(), 128);
    for (i, d) in published.iter().enumerate() {
        assert_eq!(d.range.start(), TextSize::new(i as u32 * 2));
    }
}

#[test]
fn few_diagnostics_are_published_whole() {
    let found = vec![
        diag(4, DiagnosticKind::DuplicatedKey)
            .with_note(FileRange::new(FileId(0), TextRange::empty(TextSize::new(1))), "first"),
        diag(2, DiagnosticKind::UnusedRec),
    ];
    let published = published_diagnostics(true, Some(found.clone()));
    assert_eq!(published, vec![found[1].clone(), found[0].clone()]);
}

#[test]
fn nothing_is_published_for_a_cleared_file_or_a_failed_analysis() {
    let found = vec![diag(0, DiagnosticKind::UnusedRec)];
    assert!(published_diagnostics(false, Some(found)).is_empty());
    assert!(published_diagnostics(true, None).is_empty());
    assert!(published_diagnostics(false, None).is_empty());
}

#[test]
fn config_has_nothing_to_set() {
    assert_eq!(Config::default(), Config {});
    let mut st = State::new();
    st.update_config(Config {});
    assert_eq!(st.config(), Config {});
    assert_eq!(st.lifecycle(), Lifecycle::Fresh);
}
