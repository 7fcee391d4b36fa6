//! The requests and notifications that the server knows, and the failures
//! that it reports.

use lsp_types::notification::Notification;
use lsp_types::request::Request;
use vstd::prelude::*;

verus! {

/// `==` of std on two `str`: whether they hold the same characters.
#[verifier::external_body]
pub(crate) fn str_eq(a: &str, b: &str) -> (r: bool)
    ensures
        r == (a@ == b@),
{
    a == b
}

/// A failure that a reply can report.
#[derive(Debug, Clone, Copy, PartialEq, Eq, Hash, Structural)]
pub enum ErrorCode {
    InvalidRequest,
    MethodNotFound,
    InvalidParams,
    InternalError,
    RequestCanceled,
}

impl ErrorCode {
    /// The number that stands for the failure on the wire.
    pub open spec fn spec_code(self) -> int {
        match self {
            ErrorCode::InvalidRequest => -32600,
            ErrorCode::MethodNotFound => -32601,
            ErrorCode::InvalidParams => -32602,
            ErrorCode::InternalError => -32603,
            ErrorCode::RequestCanceled => -32800,
        }
    }

    pub fn code(self) -> (r: i32)
        ensures
            r == self.spec_code(),
    {
        match self {
            ErrorCode::InvalidRequest => code_invalid_request(),
            ErrorCode::MethodNotFound => code_method_not_found(),
            ErrorCode::InvalidParams => code_invalid_params(),
            ErrorCode::InternalError => code_internal_error(),
            ErrorCode::RequestCanceled => code_request_canceled(),
        }
    }
}

/// `lsp_server::ErrorCode::InvalidRequest`, which is -32600.
#[verifier::external_body]
fn code_invalid_request() -> (r: i32)
    ensures
        r == -32600,
{
    lsp_server::ErrorCode::InvalidRequest as i32
}

/// `lsp_server::ErrorCode::MethodNotFound`, which is -32601.
#[verifier::external_body]
fn code_method_not_found() -> (r: i32)
    ensures
        r == -32601,
{
    lsp_server::ErrorCode::MethodNotFound as i32
}

/// `lsp_server::ErrorCode::InvalidParams`, which is -32602.
#[verifier::external_body]
fn code_invalid_params() -> (r: i32)
    ensures
        r == -32602,
{
    lsp_server::ErrorCode::InvalidParams as i32
}

/// `lsp_server::ErrorCode::InternalError`, which is -32603.
#[verifier::external_body]
fn code_internal_error() -> (r: i32)
    ensures
        r == -32603,
{
    lsp_server::ErrorCode::InternalError as i32
}

/// `lsp_server::ErrorCode::RequestCanceled`, which is -32800.
#[verifier::external_body]
fn code_request_canceled() -> (r: i32)
    ensures
        r == -32800,
{
    lsp_server::ErrorCode::RequestCanceled as i32
}

/// A request that the server answers.
#[derive(Debug, Clone, Copy, PartialEq, Eq, Hash, Structural)]
pub enum RequestKind {
    Shutdown,
    GotoDefinition,
    References,
    Completion,
    SelectionRange,
    PrepareRename,
    Rename,
    SemanticTokensFull,
    SemanticTokensRange,
    Hover,
}

impl RequestKind {
    /// The name by which the client asks for this.
    pub open spec fn spec_method(self) -> Seq<char> {
        match self {
            RequestKind::Shutdown => "shutdown"@,
            RequestKind::GotoDefinition => "textDocument/definition"@,
            RequestKind::References => "textDocument/references"@,
            RequestKind::Completion => "textDocument/completion"@,
            RequestKind::SelectionRange => "textDocument/selectionRange"@,
            RequestKind::PrepareRename => "textDocument/prepareRename"@,
            RequestKind::Rename => "textDocument/rename"@,
            RequestKind::SemanticTokensFull => "textDocument/semanticTokens/full"@,
            RequestKind::SemanticTokensRange => "textDocument/semanticTokens/range"@,
            RequestKind::Hover => "textDocument/hover"@,
        }
    }

    pub fn method(self) -> (r: &'static str)
        ensures
            r@ == self.spec_method(),
    {
        match self {
            RequestKind::Shutdown => method_shutdown(),
            RequestKind::GotoDefinition => method_goto_definition(),
            RequestKind::References => method_references(),
            RequestKind::Completion => method_completion(),
            RequestKind::SelectionRange => method_selection_range(),
            RequestKind::PrepareRename => method_prepare_rename(),
            RequestKind::Rename => method_rename(),
            RequestKind::SemanticTokensFull => method_semantic_tokens_full(),
            RequestKind::SemanticTokensRange => method_semantic_tokens_range(),
            RequestKind::Hover => method_hover(),
        }
    }

    /// The request that goes by the name `method`, if there is one.
    pub open spec fn spec_from_method(method: Seq<char>) -> Option<RequestKind> {
        if exists|k: RequestKind| k.spec_method() == method {
            Some(choose|k: RequestKind| k.spec_method() == method)
        } else {
            None
        }
    }

    /// Every request has a name of its own.
    pub proof fn lemma_methods_differ(a: RequestKind, b: RequestKind)
        requires
            a.spec_method() == b.spec_method(),
        ensures
            a == b,
    {
        reveal_strlit("shutdown");
        reveal_strlit("textDocument/definition");
        reveal_strlit("textDocument/references");
        reveal_strlit("textDocument/completion");
        reveal_strlit("textDocument/selectionRange");
        reveal_strlit("textDocument/prepareRename");
        reveal_strlit("textDocument/rename");
        reveal_strlit("textDocument/semanticTokens/full");
        reveal_strlit("textDocument/semanticTokens/range");
        reveal_strlit("textDocument/hover");
        let x = a.spec_method();
        let y = b.spec_method();
        if a != b {
            assert(x.len() == y.len());
            assert(x[13] == y[13]);
            assert(x[14] == y[14]);
            assert(x[28] == y[28]);
        }
    }

    pub fn from_method(method: &str) -> (r: Option<RequestKind>)
        ensures
            r == Self::spec_from_method(method@),
            r matches Some(k) ==> k.spec_method() == method@,
            r is None ==> forall|k: RequestKind| k.spec_method() != method@,
    {
        let found = if str_eq(method, RequestKind::Shutdown.method()) {
            Some(RequestKind::Shutdown)
        } else if str_eq(method, RequestKind::GotoDefinition.method()) {
            Some(RequestKind::GotoDefinition)
        } else if str_eq(method, RequestKind::References.method()) {
            Some(RequestKind::References)
        } else if str_eq(method, RequestKind::Completion.method()) {
            Some(RequestKind::Completion)
        } else if str_eq(method, RequestKind::SelectionRange.method()) {
            Some(RequestKind::SelectionRange)
        } else if str_eq(method, RequestKind::PrepareRename.method()) {
            Some(RequestKind::PrepareRename)
        } else if str_eq(method, RequestKind::Rename.method()) {
            Some(RequestKind::Rename)
        } else if str_eq(method, RequestKind::SemanticTokensFull.method()) {
            Some(RequestKind::SemanticTokensFull)
        } else if str_eq(method, RequestKind::SemanticTokensRange.method()) {
            Some(RequestKind::SemanticTokensRange)
        } else if str_eq(method, RequestKind::Hover.method()) {
            Some(RequestKind::Hover)
        } else {
            None
        };
        proof {
            match found {
                Some(kind) => {
                    let other = choose|k: RequestKind| k.spec_method() == method@;
                    Self::lemma_methods_differ(other, kind);
                },
                None => {
                    assert forall|k: RequestKind| k.spec_method() != method@ by {
                        match k {
                            RequestKind::Shutdown => {},
                            RequestKind::GotoDefinition => {},
                            RequestKind::References => {},
                            RequestKind::Completion => {},
                            RequestKind::SelectionRange => {},
                            RequestKind::PrepareRename => {},
                            RequestKind::Rename => {},
                            RequestKind::SemanticTokensFull => {},
                            RequestKind::SemanticTokensRange => {},
                            RequestKind::Hover => {},
                        }
                    }
                },
            }
        }
        found
    }
}

/// `METHOD` of `lsp_types::request::Shutdown`, which is the text `shutdown`.
#[verifier::external_body]
fn method_shutdown() -> (r: &'static str)
    ensures
        r@ == "shutdown"@,
{
    lsp_types::request::Shutdown::METHOD
}

/// `METHOD` of `lsp_types::request::GotoDefinition`, which is the text `textDocument/definition`.
#[verifier::external_body]
fn method_goto_definition() -> (r: &'static str)
    ensures
        r@ == "textDocument/definition"@,
{
    lsp_types::request::GotoDefinition::METHOD
}

/// `METHOD` of `lsp_types::request::References`, which is the text `textDocument/references`.
#[verifier::external_body]
fn method_references() -> (r: &'static str)
    ensures
        r@ == "textDocument/references"@,
{
    lsp_types::request::References::METHOD
}

/// `METHOD` of `lsp_types::request::Completion`, which is the text `textDocument/completion`.
#[verifier::external_body]
fn method_completion() -> (r: &'static str)
    ensures
        r@ == "textDocument/completion"@,
{
    lsp_types::request::Completion::METHOD
}

/// `METHOD` of `lsp_types::request::SelectionRangeRequest`, which is the text `textDocument/selectionRange`.
#[verifier::external_body]
fn method_selection_range() -> (r: &'static str)
    ensures
        r@ == "textDocument/selectionRange"@,
{
    lsp_types::request::SelectionRangeRequest::METHOD
}

/// `METHOD` of `lsp_types::request::PrepareRenameRequest`, which is the text `textDocument/prepareRename`.
#[verifier::external_body]
fn method_prepare_rename() -> (r: &'static str)
    ensures
        r@ == "textDocument/prepareRename"@,
{
    lsp_types::request::PrepareRenameRequest::METHOD
}

/// `METHOD` of `lsp_types::request::Rename`, which is the text `textDocument/rename`.
#[verifier::external_body]
fn method_rename() -> (r: &'static str)
    ensures
        r@ == "textDocument/rename"@,
{
    lsp_types::request::Rename::METHOD
}

/// `METHOD` of `lsp_types::request::SemanticTokensFullRequest`, which is the text `textDocument/semanticTokens/full`.
#[verifier::external_body]
fn method_semantic_tokens_full() -> (r: &'static str)
    ensures
        r@ == "textDocument/semanticTokens/full"@,
{
    lsp_types::request::SemanticTokensFullRequest::METHOD
}

/// `METHOD` of `lsp_types::request::SemanticTokensRangeRequest`, which is the text `textDocument/semanticTokens/range`.
#[verifier::external_body]
fn method_semantic_tokens_range() -> (r: &'static str)
    ensures
        r@ == "textDocument/semanticTokens/range"@,
{
    lsp_types::request::SemanticTokensRangeRequest::METHOD
}

/// `METHOD` of `lsp_types::request::HoverRequest`, which is the text `textDocument/hover`.
#[verifier::external_body]
fn method_hover() -> (r: &'static str)
    ensures
        r@ == "textDocument/hover"@,
{
    lsp_types::request::HoverRequest::METHOD
}

/// A notification that the server acts on.
#[derive(Debug, Clone, Copy, PartialEq, Eq, Hash, Structural)]
pub enum NotificationKind {
    Exit,
    DidOpenTextDocument,
    DidCloseTextDocument,
    DidChangeTextDocument,
    DidChangeConfiguration,
}

impl NotificationKind {
    /// The name under which the client sends this.
    pub open spec fn spec_method(self) -> Seq<char> {
        match self {
            NotificationKind::Exit => "exit"@,
            NotificationKind::DidOpenTextDocument => "textDocument/didOpen"@,
            NotificationKind::DidCloseTextDocument => "textDocument/didClose"@,
            NotificationKind::DidChangeTextDocument => "textDocument/didChange"@,
            NotificationKind::DidChangeConfiguration => "workspace/didChangeConfiguration"@,
        }
    }

    pub fn method(self) -> (r: &'static str)
        ensures
            r@ == self.spec_method(),
    {
        match self {
            NotificationKind::Exit => method_exit(),
            NotificationKind::DidOpenTextDocument => method_did_open(),
            NotificationKind::DidCloseTextDocument => method_did_close(),
            NotificationKind::DidChangeTextDocument => method_did_change(),
            NotificationKind::DidChangeConfiguration => method_did_change_configuration(),
        }
    }

    /// The notification that goes by the name `method`, if there is one.
    pub open spec fn spec_from_method(method: Seq<char>) -> Option<NotificationKind> {
        if exists|k: NotificationKind| k.spec_method() == method {
            Some(choose|k: NotificationKind| k.spec_method() == method)
        } else {
            None
        }
    }

    /// Every notification has a name of its own.
    pub proof fn lemma_methods_differ(a: NotificationKind, b: NotificationKind)
        requires
            a.spec_method() == b.spec_method(),
        ensures
            a == b,
    {
        reveal_strlit("exit");
        reveal_strlit("textDocument/didOpen");
        reveal_strlit("textDocument/didClose");
        reveal_strlit("textDocument/didChange");
        reveal_strlit("workspace/didChangeConfiguration");
        let x = a.spec_method();
        let y = b.spec_method();
        if a != b {
            assert(x.len() == y.len());
        }
    }

    pub fn from_method(method: &str) -> (r: Option<NotificationKind>)
        ensures
            r == Self::spec_from_method(method@),
            r matches Some(k) ==> k.spec_method() == method@,
            r is None ==> forall|k: NotificationKind| k.spec_method() != method@,
    {
        let found = if str_eq(method, NotificationKind::Exit.method()) {
            Some(NotificationKind::Exit)
        } else if str_eq(method, NotificationKind::DidOpenTextDocument.method()) {
            Some(NotificationKind::DidOpenTextDocument)
        } else if str_eq(method, NotificationKind::DidCloseTextDocument.method()) {
            Some(NotificationKind::DidCloseTextDocument)
        } else if str_eq(method, NotificationKind::DidChangeTextDocument.method()) {
            Some(NotificationKind::DidChangeTextDocument)
        } else if str_eq(method, NotificationKind::DidChangeConfiguration.method()) {
            Some(NotificationKind::DidChangeConfiguration)
        } else {
            None
        };
        proof {
            match found {
                Some(kind) => {
                    let other = choose|k: NotificationKind| k.spec_method() == method@;
                    Self::lemma_methods_differ(other, kind);
                },
                None => {
                    assert forall|k: NotificationKind| k.spec_method() != method@ by {
                        match k {
                            NotificationKind::Exit => {},
                            NotificationKind::DidOpenTextDocument => {},
                            NotificationKind::DidCloseTextDocument => {},
                            NotificationKind::DidChangeTextDocument => {},
                            NotificationKind::DidChangeConfiguration => {},
                        }
                    }
                },
            }
        }
        found
    }
}

/// `METHOD` of `lsp_types::notification::Exit`, which is the text `exit`.
#[verifier::external_body]
fn method_exit() -> (r: &'static str)
    ensures
        r@ == "exit"@,
{
    lsp_types::notification::Exit::METHOD
}

/// `METHOD` of `lsp_types::notification::DidOpenTextDocument`, which is the text `textDocument/didOpen`.
#[verifier::external_body]
fn method_did_open() -> (r: &'static str)
    ensures
        r@ == "textDocument/didOpen"@,
{
    lsp_types::notification::DidOpenTextDocument::METHOD
}

/// `METHOD` of `lsp_types::notification::DidCloseTextDocument`, which is the text `textDocument/didClose`.
#[verifier::external_body]
fn method_did_close() -> (r: &'static str)
    ensures
        r@ == "textDocument/didClose"@,
{
    lsp_types::notification::DidCloseTextDocument::METHOD
}

/// `METHOD` of `lsp_types::notification::DidChangeTextDocument`, which is the text `textDocument/didChange`.
#[verifier::external_body]
fn method_did_change() -> (r: &'static str)
    ensures
        r@ == "textDocument/didChange"@,
{
    lsp_types::notification::DidChangeTextDocument::METHOD
}

/// `METHOD` of `lsp_types::notification::DidChangeConfiguration`, which is the text `workspace/didChangeConfiguration`.
#[verifier::external_body]
fn method_did_change_configuration() -> (r: &'static str)
    ensures
        r@ == "workspace/didChangeConfiguration"@,
{
    lsp_types::notification::DidChangeConfiguration::METHOD
}

/// Whether a method name is one of the protocol's own, which a server may
/// pass over: those start with `$/`.
pub open spec fn is_optional_method(method: Seq<char>) -> bool {
    method.len() >= 2 && method[0] == '$' && method[1] == '/'
}

pub fn optional_method(method: &str) -> (r: bool)
    ensures
        r == is_optional_method(method@),
{
    let mut seen: usize = 0;
    for c in it: method.chars()
        invariant
            it.seq() == method@,
            seen == it.index(),
            seen <= 2,
            seen >= 1 ==> method@[0] == '$',
            seen >= 2 ==> method@[1] == '/',
            seen < 2,
    {
        if seen == 0 {
            if c != '$' {
                return false;
            }
        } else {
            return c == '/';
        }
        seen = seen + 1;
    }
    false
}

} // verus!
