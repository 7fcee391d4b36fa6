//! The life of the server and what it decides about each message.

use crate::diagnostic::is_source_order_of;
use crate::diagnostic::sort_by_start;
use crate::diagnostic::Diagnostic;
use crate::protocol::optional_method;
use crate::protocol::str_eq;
use crate::protocol::ErrorCode;
use crate::protocol::NotificationKind;
use crate::protocol::RequestKind;
use vstd::prelude::*;
use vstd::string::StringExecFns;

verus! {

/// The most diagnostics that are published for one file.
pub const MAX_DIAGNOSTICS_CNT: usize = 128;

/// What the client can configure: nothing yet.
#[derive(Debug, Clone, Copy, PartialEq, Eq, Structural)]
pub struct Config {}

impl Default for Config {
    fn default() -> (r: Self) {
        Config {  }
    }
}

/// Where the server stands between its start and its end.
#[derive(Debug, Clone, Copy, PartialEq, Eq, Hash, Structural)]
pub enum Lifecycle {
    /// Made, and not yet serving.
    Fresh,
    /// Serving.
    Active,
    /// Asked to shut down: only the exit is still taken.
    Stopping,
    /// Done.
    Terminated,
}

impl Lifecycle {
    /// Requests and changes are taken until the shutdown is asked for.
    pub open spec fn is_serving(self) -> bool {
        self is Fresh || self is Active
    }
}

/// What is to be done about a request.
#[derive(Debug)]
pub enum RequestAction {
    /// Reply with a failure.
    Refuse { code: ErrorCode, message: String },
    /// Reply that the shutdown is granted.
    Shutdown,
    /// Answer the request from a snapshot of the analysis.
    Serve(RequestKind),
}

/// What is to be done about a notification.
#[derive(Debug, Clone, Copy, PartialEq, Eq, Hash, Structural)]
pub enum NotificationAction {
    /// Leave the loop, with success.
    Exit,
    /// A document was opened: mark it and take its text.
    Open,
    /// A document was closed: unmark it and keep its text.
    Close,
    /// A document was edited: splice the edits into its text.
    Change,
    /// The configuration changed: ask the client for it.
    PullConfiguration,
    /// Nothing is to be done.
    Ignore,
    /// Nothing can be done but to report the notification as unknown.
    Unhandled,
}

/// The action that a request calls for: the request that is to be served
/// or granted, or else the failure with which it is refused.
pub open spec fn request_action(lifecycle: Lifecycle, method: Seq<char>) -> Result<
    RequestKind,
    ErrorCode,
> {
    if !lifecycle.is_serving() {
        Err(ErrorCode::InvalidRequest)
    } else {
        match RequestKind::spec_from_method(method) {
            Some(kind) => Ok(kind),
            None => Err(ErrorCode::MethodNotFound),
        }
    }
}

/// The action that a notification calls for.
pub open spec fn notification_action(lifecycle: Lifecycle, method: Seq<char>) -> NotificationAction {
    match NotificationKind::spec_from_method(method) {
        Some(NotificationKind::Exit) => if lifecycle is Terminated {
            NotificationAction::Ignore
        } else {
            NotificationAction::Exit
        },
        Some(kind) => if !lifecycle.is_serving() {
            NotificationAction::Ignore
        } else {
            match kind {
                NotificationKind::DidOpenTextDocument => NotificationAction::Open,
                NotificationKind::DidCloseTextDocument => NotificationAction::Close,
                NotificationKind::DidChangeTextDocument => NotificationAction::Change,
                _ => NotificationAction::PullConfiguration,
            }
        },
        None => if !lifecycle.is_serving() || crate::protocol::is_optional_method(method) {
            NotificationAction::Ignore
        } else {
            NotificationAction::Unhandled
        },
    }
}

/// The texts of a list of strings, as a set.
pub open spec fn texts(list: Seq<String>) -> Set<Seq<char>> {
    Set::new(|t: Seq<char>| exists|i: int| 0 <= i < list.len() && (#[trigger] list[i])@ == t)
}

/// What the state of a server holds, as plain values.
pub struct StateModel {
    /// Where the server stands in its life.
    pub lifecycle: Lifecycle,
    /// The documents that the editor has open, by their URIs.
    pub opened: Set<Seq<char>>,
    /// The number of changes of the inputs so far.
    pub revision: nat,
    /// The configuration that the client sent last.
    pub config: Config,
}

impl StateModel {
    /// The state after a request: the shutdown, where it is granted, ends
    /// the serving.
    pub open spec fn after_request(self, method: Seq<char>) -> StateModel {
        if request_action(self.lifecycle, method) == Ok::<RequestKind, ErrorCode>(
            RequestKind::Shutdown,
        ) {
            StateModel { lifecycle: Lifecycle::Stopping, ..self }
        } else {
            self
        }
    }

    /// The state after a notification: the exit ends the server.
    pub open spec fn after_notification(self, method: Seq<char>) -> StateModel {
        if notification_action(self.lifecycle, method) is Exit {
            StateModel { lifecycle: Lifecycle::Terminated, ..self }
        } else {
            self
        }
    }

    /// The state after a change of the inputs, which counts while the
    /// server serves. The count stops at the largest number of 64 bits.
    pub open spec fn after_change(self) -> StateModel {
        if self.lifecycle.is_serving() && self.revision < u64::MAX {
            StateModel { revision: self.revision + 1, ..self }
        } else {
            self
        }
    }
}

/// What the server knows of itself and of its client: where it stands in
/// its life, which documents the editor has open, how often the inputs
/// changed, and the configuration.
#[derive(Debug)]
pub struct State {
    lifecycle: Lifecycle,
    opened_files: Vec<String>,
    revision: u64,
    config: Config,
}

impl View for State {
    type V = StateModel;

    closed spec fn view(&self) -> StateModel {
        StateModel {
            lifecycle: self.lifecycle,
            opened: texts(self.opened_files@),
            revision: self.revision as nat,
            config: self.config,
        }
    }
}

impl State {
    /// A server that has not yet begun to serve, with no document open, no
    /// change counted and nothing configured.
    pub fn new() -> (r: Self)
        ensures
            r@ == (StateModel {
                lifecycle: Lifecycle::Fresh,
                opened: Set::empty(),
                revision: 0,
                config: Config {  },
            }),
    {
        let r = State {
            lifecycle: Lifecycle::Fresh,
            opened_files: Vec::new(),
            revision: 0,
            config: Config {  },
        };
        assert(r@.opened =~= Set::empty());
        r
    }

    pub fn lifecycle(&self) -> (r: Lifecycle)
        ensures
            r == self@.lifecycle,
    {
        self.lifecycle
    }

    /// The number of changes of the inputs so far.
    pub fn revision(&self) -> (r: u64)
        ensures
            r == self@.revision,
    {
        self.revision
    }

    /// The configuration that the client sent last.
    pub fn config(&self) -> (r: Config)
        ensures
            r == self@.config,
    {
        self.config
    }

    /// Takes the configuration that the client sent: it is the
    /// configuration from now on, and nothing else changes.
    pub fn update_config(&mut self, config: Config)
        ensures
            final(self)@ == (StateModel { config, ..old(self)@ }),
    {
        self.config = config;
    }

    /// Begins to serve. A server that has begun before stays as it is.
    pub fn open(&mut self)
        ensures
            final(self)@ == (if old(self)@.lifecycle is Fresh {
                StateModel { lifecycle: Lifecycle::Active, ..old(self)@ }
            } else {
                old(self)@
            }),
    {
        if let Lifecycle::Fresh = self.lifecycle {
            self.lifecycle = Lifecycle::Active;
        }
    }

    /// Counts a change of the inputs, if the server still serves, and tells
    /// whether it does: a change that comes later is not to be carried out.
    pub fn change(&mut self) -> (accepted: bool)
        ensures
            accepted == old(self)@.lifecycle.is_serving(),
            final(self)@ == old(self)@.after_change(),
    {
        match self.lifecycle {
            Lifecycle::Fresh | Lifecycle::Active => {
                if self.revision < u64::MAX {
                    self.revision = self.revision + 1;
                }
                true
            },
            _ => false,
        }
    }

    /// Decides what a request calls for. Once the shutdown was asked for,
    /// every request is refused as invalid. Before that, a request for the
    /// shutdown is granted and ends the serving, a request that the server
    /// knows is to be served, and any other is refused as unknown.
    pub fn dispatch_request(&mut self, method: &str) -> (r: RequestAction)
        ensures
            final(self)@ == old(self)@.after_request(method@),
            match request_action(old(self)@.lifecycle, method@) {
                Ok(RequestKind::Shutdown) => r is Shutdown,
                Ok(kind) => r == RequestAction::Serve(kind),
                Err(code) => {
                    &&& r matches RequestAction::Refuse { code: c, message }
                    &&& c == code
                    &&& message@ == (if code == ErrorCode::InvalidRequest {
                        "Shutdown already requested."@
                    } else {
                        Seq::<char>::empty()
                    })
                },
            },
    {
        match self.lifecycle {
            Lifecycle::Stopping | Lifecycle::Terminated => {
                return RequestAction::Refuse {
                    code: ErrorCode::InvalidRequest,
                    message: String::from_str("Shutdown already requested."),
                };
            },
            _ => {},
        }
        match RequestKind::from_method(method) {
            Some(RequestKind::Shutdown) => {
                self.lifecycle = Lifecycle::Stopping;
                RequestAction::Shutdown
            },
            Some(kind) => RequestAction::Serve(kind),
            None => RequestAction::Refuse { code: ErrorCode::MethodNotFound, message: String::new() },
        }
    }

    /// Decides what a notification calls for. The exit ends the server
    /// whenever it comes. Once the shutdown was asked for, every other
    /// notification is passed over. Before that, the notifications that the
    /// server knows are acted on, those of the protocol's own that it does
    /// not know are passed over, and any other is reported.
    pub fn dispatch_notification(&mut self, method: &str) -> (r: NotificationAction)
        ensures
            r == notification_action(old(self)@.lifecycle, method@),
            final(self)@ == old(self)@.after_notification(method@),
    {
        let serving = match self.lifecycle {
            Lifecycle::Fresh | Lifecycle::Active => true,
            _ => false,
        };
        match NotificationKind::from_method(method) {
            Some(NotificationKind::Exit) => {
                if let Lifecycle::Terminated = self.lifecycle {
                    NotificationAction::Ignore
                } else {
                    self.lifecycle = Lifecycle::Terminated;
                    NotificationAction::Exit
                }
            },
            Some(kind) => {
                if !serving {
                    NotificationAction::Ignore
                } else {
                    match kind {
                        NotificationKind::DidOpenTextDocument => NotificationAction::Open,
                        NotificationKind::DidCloseTextDocument => NotificationAction::Close,
                        NotificationKind::DidChangeTextDocument => NotificationAction::Change,
                        _ => NotificationAction::PullConfiguration,
                    }
                }
            },
            None => {
                if !serving || optional_method(method) {
                    NotificationAction::Ignore
                } else {
                    NotificationAction::Unhandled
                }
            },
        }
    }

    /// The input has ended: the server is done, and the run has failed with
    /// the message that is returned.
    pub fn channel_closed(&mut self) -> (r: String)
        ensures
            r@ == "Channel closed"@,
            final(self)@ == (StateModel { lifecycle: Lifecycle::Terminated, ..old(self)@ }),
    {
        self.lifecycle = Lifecycle::Terminated;
        String::from_str("Channel closed")
    }

    /// Whether the editor has the document at `uri` open.
    pub fn is_opened(&self, uri: &str) -> (r: bool)
        ensures
            r == self@.opened.contains(uri@),
    {
        let n = self.opened_files.len();
        for i in 0..n
            invariant
                n == self.opened_files@.len(),
                forall|k: int| 0 <= k < i ==> (#[trigger] self.opened_files@[k])@ != uri@,
        {
            if str_eq(self.opened_files[i].as_str(), uri) {
                return true;
            }
        }
        false
    }

    /// Marks the document at `uri` as open.
    pub fn did_open(&mut self, uri: &str)
        ensures
            final(self)@ == (StateModel { opened: old(self)@.opened.insert(uri@), ..old(self)@ }),
    {
        if !self.is_opened(uri) {
            let ghost before = self.opened_files@;
            self.opened_files.push(uri.to_owned());
            proof {
                let after = self.opened_files@;
                assert(after[before.len() as int]@ == uri@);
                assert forall|t: Seq<char>| texts(after).contains(t) == texts(before).insert(
                    uri@,
                ).contains(t) by {
                    if texts(before).contains(t) {
                        let i = choose|i: int| 0 <= i < before.len() && (#[trigger] before[i])@ == t;
                        assert(after[i]@ == t);
                    }
                    if texts(after).contains(t) {
                        let i = choose|i: int| 0 <= i < after.len() && (#[trigger] after[i])@ == t;
                        if i < before.len() {
                            assert(before[i]@ == t);
                        }
                    }
                }
                assert(texts(after) =~= texts(before).insert(uri@));
            }
        } else {
            assert(self@.opened =~= old(self)@.opened.insert(uri@));
        }
    }

    /// Marks the document at `uri` as closed. Its text stays.
    pub fn did_close(&mut self, uri: &str)
        ensures
            final(self)@ == (StateModel { opened: old(self)@.opened.remove(uri@), ..old(self)@ }),
    {
        let ghost before = self.opened_files@;
        let mut all: Vec<String> = Vec::new();
        core::mem::swap(&mut self.opened_files, &mut all);
        let mut kept: Vec<String> = Vec::new();
        for s in it: all
            invariant
                it.seq() == before,
                forall|k: int| 0 <= k < kept@.len() ==> (#[trigger] kept@[k])@ != uri@ && texts(
                    before,
                ).contains(kept@[k]@),
                forall|k: int|
                    0 <= k < it.index() && (#[trigger] before[k])@ != uri@ ==> texts(kept@).contains(
                        before[k]@,
                    ),
        {
            let ghost was = kept@;
            let ghost at = it.index() as int;
            if !str_eq(s.as_str(), uri) {
                kept.push(s);
                proof {
                    assert(kept@[was.len() as int]@ == before[at]@);
                    assert forall|k: int| 0 <= k < at + 1 && (#[trigger] before[k])@
                        != uri@ implies texts(kept@).contains(before[k]@) by {
                        if k < at {
                            let j = choose|j: int| 0 <= j < was.len() && (#[trigger] was[j])@ == before[k]@;
                            assert(kept@[j]@ == before[k]@);
                        }
                    }
                }
            }
        }
        proof {
            assert forall|t: Seq<char>| texts(kept@).contains(t) == texts(before).remove(uri@).contains(
                t,
            ) by {
                if texts(before).remove(uri@).contains(t) {
                    let i = choose|i: int| 0 <= i < before.len() && (#[trigger] before[i])@ == t;
                    assert(texts(kept@).contains(before[i]@));
                }
            }
            assert(texts(kept@) =~= texts(before).remove(uri@));
        }
        self.opened_files = kept;
    }
}

/// Why a request got no result.
#[derive(Debug)]
pub enum Failure {
    /// Its parameters could not be read; the reader's message.
    InvalidParams(String),
    /// What it asks about is not there: the document is not in the
    /// workspace, the file is not known, or the position lies outside the
    /// text.
    Snapshot(String),
    /// A change came in while the analysis ran.
    Cancelled,
    /// The handler panicked: where, if that is known (else the empty text),
    /// and with which message, if it gave one.
    Panicked { location: String, reason: Option<String> },
    /// The handler failed with a message.
    Other(String),
}

/// What is replied to a request that failed.
#[derive(Debug)]
pub enum Reply {
    /// The request has no result: the reply is a success without a value.
    NoResult,
    /// The request failed.
    Error { code: ErrorCode, message: String },
}

/// The report of a panic in the handler of a request: the name of the
/// request, the place and the message, with `unknown` for what is not known.
pub open spec fn panic_report(method: Seq<char>, location: Seq<char>, reason: Option<Seq<char>>) -> Seq<
    char,
> {
    "Request handler of "@ + method + " panicked at "@ + (if location.len() == 0 {
        "unknown"@
    } else {
        location
    }) + ": "@ + (match reason {
        Some(text) => text,
        None => "unknown"@,
    })
}

/// The code of the reply to a request that failed, or nothing where the
/// reply is that there is no result.
pub open spec fn failure_code(failure: Failure) -> Option<ErrorCode> {
    match failure {
        Failure::InvalidParams(_) => Some(ErrorCode::InvalidParams),
        Failure::Snapshot(_) => None,
        Failure::Cancelled => Some(ErrorCode::RequestCanceled),
        Failure::Panicked { .. } => Some(ErrorCode::InternalError),
        Failure::Other(_) => Some(ErrorCode::InternalError),
    }
}

/// The message of the reply to a request that failed.
pub open spec fn failure_message(kind: RequestKind, failure: Failure) -> Seq<char> {
    match failure {
        Failure::InvalidParams(message) => message@,
        Failure::Snapshot(message) => message@,
        Failure::Cancelled => "request cancelled"@,
        Failure::Panicked { location, reason } => panic_report(
            kind.spec_method(),
            location@,
            match reason {
                Some(text) => Some(text@),
                None => None,
            },
        ),
        Failure::Other(message) => message@,
    }
}

/// The reply to a request that failed. Where what it asks about is not
/// there, the request has no result, which is no error. Parameters that
/// cannot be read are the client's fault, a cancellation is reported as
/// such, and everything else is an internal error of the server, which goes
/// on serving.
pub fn failure_reply(kind: RequestKind, failure: Failure) -> (r: Reply)
    ensures
        match failure_code(failure) {
            Some(code) => {
                &&& r matches Reply::Error { code: c, message }
                &&& c == code
                &&& message@ == failure_message(kind, failure)
            },
            None => r is NoResult,
        },
{
    match failure {
        Failure::InvalidParams(message) => Reply::Error { code: ErrorCode::InvalidParams, message },
        Failure::Snapshot(_) => Reply::NoResult,
        Failure::Cancelled => Reply::Error {
            code: ErrorCode::RequestCanceled,
            message: String::from_str("request cancelled"),
        },
        Failure::Panicked { location, reason } => {
            let mut out = String::from_str("Request handler of ");
            out.append(kind.method());
            out.append(" panicked at ");
            if location.as_str().is_empty() {
                out.append("unknown");
            } else {
                out.append(location.as_str());
            }
            out.append(": ");
            match &reason {
                Some(text) => out.append(text.as_str()),
                None => out.append("unknown"),
            }
            Reply::Error { code: ErrorCode::InternalError, message: out }
        },
        Failure::Other(message) => Reply::Error { code: ErrorCode::InternalError, message },
    }
}

/// At most the first `cap` diagnostics of a list, in their order.
pub fn cap_diagnostics(diagnostics: &mut Vec<Diagnostic>, cap: usize)
    ensures
        final(diagnostics)@ == old(diagnostics)@.take(
            if old(diagnostics)@.len() <= cap {
                old(diagnostics)@.len() as int
            } else {
                cap as int
            },
        ),
{
    let ghost before = diagnostics@;
    diagnostics.truncate(cap);
    assert(diagnostics@ =~= before.take(
        if before.len() <= cap {
            before.len() as int
        } else {
            cap as int
        },
    ));
}

/// `output` holds the first `cap` diagnostics of `input` in source order,
/// or all of them where they are fewer.
pub open spec fn is_capped_source_order(input: Seq<Diagnostic>, output: Seq<Diagnostic>, cap: int) -> bool {
    exists|sorted: Seq<Diagnostic>|
        #![trigger is_source_order_of(input, sorted)]
        is_source_order_of(input, sorted) && output == sorted.take(
            if sorted.len() <= cap {
                sorted.len() as int
            } else {
                cap
            },
        )
}

/// The diagnostics that are published for a changed file that the editor
/// has open: none for a file without text or without a result of the
/// analysis, else the result in source order, cut off behind the first
/// `MAX_DIAGNOSTICS_CNT`.
pub fn published_diagnostics(has_text: bool, result: Option<Vec<Diagnostic>>) -> (r: Vec<Diagnostic>)
    ensures
        match result {
            Some(found) if has_text => is_capped_source_order(found@, r@, MAX_DIAGNOSTICS_CNT as int),
            _ => r@ == Seq::<Diagnostic>::empty(),
        },
{
    match result {
        Some(found) => {
            if has_text {
                let mut sorted = sort_by_start(found);
                let ghost all = sorted@;
                cap_diagnostics(&mut sorted, MAX_DIAGNOSTICS_CNT);
                assert(is_source_order_of(found@, all));
                sorted
            } else {
                Vec::new()
            }
        },
        None => Vec::new(),
    }
}

} // verus!
