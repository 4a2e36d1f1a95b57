//! What is said to an executor, and what is made of its answers.

use vstd::prelude::*;
use vstd::string::*;

use crate::command::{args1, CommandLine};
use crate::config::Platform;
use crate::error::{parse_error_code, ErrorCode};
use crate::secret::Secret;
use crate::sessions::Browser;
use crate::text::{
    join3, parse_port, range_text, text_find, text_pieces, text_split_last, to_chars,
};
use crate::totp::totp;
use crate::wire::{
    ExecutorHelloResponse, ExecutorLeaseRequest, ExecutorLeaseResponse, ExecutorLoginRequest,
    ExecutorReleaseRequest, ExecutorResponse, ExecutorSecret, LoginParams,
};

verus! {

/// What follows the first `://` of an endpoint, up to the next slash.
pub open spec fn authority(endpoint: Seq<char>) -> Option<Seq<char>> {
    match crate::text::find(endpoint, "://"@) {
        Some(at) => Some(crate::text::pieces(endpoint.skip(at + 3), '/')[0]),
        None => None,
    }
}

/// The port of an endpoint: the number behind the last colon of its
/// authority, unless it is zero.
pub open spec fn endpoint_port(endpoint: Seq<char>) -> Option<nat> {
    match authority(endpoint) {
        Some(host) => match crate::text::split_last(host, ':') {
            Some((_, digits)) => match crate::text::parse_number(digits, 65535) {
                Some(port) => if port == 0 {
                    None
                } else {
                    Some(port)
                },
                None => None,
            },
            None => None,
        },
        None => None,
    }
}

/// The port of a browser endpoint such as `ws://127.0.0.1:9222/devtools`.
pub fn cdp_port_from_endpoint(endpoint: &str) -> (r: Option<u16>)
    ensures
        match r {
            Some(port) => endpoint_port(endpoint@) == Some(port as nat),
            None => endpoint_port(endpoint@) is None,
        },
{
    proof {
        reveal_strlit("://");
    }
    match text_find(endpoint, "://") {
        Some(at) => {
            let chars = to_chars(endpoint);
            let end: usize = chars.len();
            let rest = range_text(chars.as_slice(), at + 3, end);
            assert(rest@ =~= endpoint@.skip(at + 3));
            let parts = text_pieces(rest.as_str(), '/');
            assert(crate::text::texts(parts@)[0] == parts@[0]@);
            match text_split_last(parts[0].as_str(), ':') {
                Some((_, digits)) => match parse_port(digits.as_str()) {
                    Some(port) => if port == 0 {
                        None
                    } else {
                        Some(port)
                    },
                    None => None,
                },
                None => None,
            }
        },
        None => None,
    }
}

// ---------------------------------------------------------------------------
// Executors behind a socket
// ---------------------------------------------------------------------------

/// What is said of an executor socket that cannot be used.
pub open spec fn socket_error(path: Seq<char>, error: Seq<char>) -> Seq<char> {
    "executor socket \""@ + path + "\" is not connectable: "@ + error
}

/// What is said of an executor socket that cannot be used.
pub fn executor_socket_error(path: &str, error: &str) -> (r: String)
    ensures
        r@ == socket_error(path@, error@),
{
    let mut message = join3("executor socket \"", path, "\" is not connectable: ");
    message.append(error);
    message
}

/// What came back on the first message to an executor.
#[derive(Debug)]
pub enum HelloReply {
    /// Nothing.
    Empty,
    /// Not what was expected, or an error on the way.
    Unusable(String),
    /// An answer.
    Answer(ExecutorHelloResponse),
}

/// Accepts an executor that runs as a user of its own: neither as root nor as
/// the user of the daemon.
pub fn accept_hello(path: &str, reply: HelloReply, own_uid: u32) -> (r: Result<u32, String>)
    ensures
        match reply {
            HelloReply::Empty => r matches Err(m) && m@ == socket_error(path@, "empty response"@),
            HelloReply::Unusable(error) => r matches Err(m) && m@ == socket_error(path@, error@),
            HelloReply::Answer(answer) => if !answer.ok {
                r matches Err(m) && m@ == socket_error(path@, "executor reported ok=false"@)
            } else if answer.uid == Some(0u32) {
                r matches Err(m) && m@ == "executor must not run as root"@
            } else if answer.uid is None || answer.uid == Some(own_uid) {
                r matches Err(m) && m@ == "executor must not run as the daemon's own user"@
            } else {
                r matches Ok(uid) && answer.uid == Some(uid)
            },
        },
{
    match reply {
        HelloReply::Empty => Err(executor_socket_error(path, "empty response")),
        HelloReply::Unusable(error) => Err(executor_socket_error(path, error.as_str())),
        HelloReply::Answer(answer) => {
            if !answer.ok {
                return Err(executor_socket_error(path, "executor reported ok=false"));
            }
            match answer.uid {
                None => Err("executor must not run as the daemon's own user".to_owned()),
                Some(uid) => if uid == 0 {
                    Err("executor must not run as root".to_owned())
                } else if uid == own_uid {
                    Err("executor must not run as the daemon's own user".to_owned())
                } else {
                    Ok(uid)
                },
            }
        },
    }
}

// ---------------------------------------------------------------------------
// Requests
// ---------------------------------------------------------------------------

/// The request that logs in: the parameters of the client, and the values of
/// the credential with a code that is current now.
pub fn login_request(
    id: u64,
    params: LoginParams,
    username: &Secret,
    password: &Secret,
    totp_seed: &Option<Secret>,
    unix_time_secs: u64,
) -> (request: ExecutorLoginRequest)
    ensures
        request.op@ == "login"@,
        request.id == id,
        request.target_url == params.target_url,
        request.steps == params.steps,
        request.success_selector == params.success_selector,
        request.failure_selector == params.failure_selector,
        request.secret.username@ == username@,
        request.secret.password@ == password@,
        crate::text::opt_text(request.secret.totp) == (match *totp_seed {
            Some(seed) => Some(
                crate::totp::code_at(crate::totp::seed_key(seed@), unix_time_secs as nat),
            ),
            None => None,
        }),
{
    let code = match totp_seed {
        Some(seed) => {
            let (code, _) = totp(seed.as_str(), unix_time_secs);
            Some(code)
        },
        None => None,
    };
    ExecutorLoginRequest {
        op: "login",
        id,
        target_url: params.target_url,
        steps: params.steps,
        success_selector: params.success_selector,
        failure_selector: params.failure_selector,
        secret: ExecutorSecret {
            username: username.as_str().to_owned(),
            password: password.as_str().to_owned(),
            totp: code,
        },
    }
}

/// The request for one more tab.
pub fn lease_request(id: u64) -> (request: ExecutorLeaseRequest)
    ensures
        request.op@ == "lease"@,
        request.id == id,
{
    ExecutorLeaseRequest { op: "lease", id }
}

/// The request to close a tab.
pub fn release_request(id: u64, target_id: String) -> (request: ExecutorReleaseRequest)
    ensures
        request.op@ == "release"@,
        request.id == id,
        request.target_id == target_id,
{
    ExecutorReleaseRequest { op: "release", id, target_id }
}

// ---------------------------------------------------------------------------
// Replies
// ---------------------------------------------------------------------------

/// The code that an executor reported.
pub open spec fn reported(error: Option<Seq<char>>, code: ErrorCode) -> bool {
    match error {
        Some(text) => crate::error::is_executor_code(code) && (text == code.text() || (code
            is Internal && forall|c: ErrorCode|
            crate::error::is_executor_code(c) ==> text != #[trigger] c.text())),
        None => code is Internal,
    }
}

fn reported_code(error: &Option<String>) -> (code: ErrorCode)
    ensures
        reported(crate::text::opt_text(*error), code),
{
    match error {
        Some(text) => parse_error_code(text.as_str()),
        None => ErrorCode::Internal,
    }
}

/// What a login came to: the endpoint and the tab, or a code. No reply, or
/// one that cannot be read, is an internal error, and so is a success without
/// an endpoint or a tab.
pub fn login_outcome(reply: Option<ExecutorResponse>) -> (r: Result<(String, String), ErrorCode>)
    ensures
        match reply {
            None => r matches Err(code) && code is Internal,
            Some(response) => if response.ok {
                match (response.endpoint, response.target_id) {
                    (Some(endpoint), Some(target_id)) => r == Ok::<(String, String), ErrorCode>(
                        (endpoint, target_id),
                    ),
                    _ => r matches Err(code) && code is Internal,
                }
            } else {
                r matches Err(code) && reported(crate::text::opt_text(response.error), code)
            },
        },
{
    match reply {
        None => Err(ErrorCode::Internal),
        Some(response) => {
            if response.ok {
                match (response.endpoint, response.target_id) {
                    (Some(endpoint), Some(target_id)) => Ok((endpoint, target_id)),
                    _ => Err(ErrorCode::Internal),
                }
            } else {
                Err(reported_code(&response.error))
            }
        },
    }
}

/// What the request for a tab came to.
pub fn lease_outcome(reply: Option<ExecutorLeaseResponse>) -> (r: Result<String, ErrorCode>)
    ensures
        match reply {
            None => r matches Err(code) && code is Internal,
            Some(response) => if response.ok {
                match response.target_id {
                    Some(target_id) => r == Ok::<String, ErrorCode>(target_id),
                    None => r matches Err(code) && code is Internal,
                }
            } else {
                r matches Err(code) && reported(crate::text::opt_text(response.error), code)
            },
        },
{
    match reply {
        None => Err(ErrorCode::Internal),
        Some(response) => {
            if response.ok {
                match response.target_id {
                    Some(target_id) => Ok(target_id),
                    None => Err(ErrorCode::Internal),
                }
            } else {
                Err(reported_code(&response.error))
            }
        },
    }
}

/// What the request to close a tab came to.
pub fn release_outcome(reply: Option<ExecutorLeaseResponse>) -> (r: Result<(), ErrorCode>)
    ensures
        match reply {
            None => r matches Err(code) && code is Internal,
            Some(response) => if response.ok {
                r is Ok
            } else {
                r matches Err(code) && reported(crate::text::opt_text(response.error), code)
            },
        },
{
    match reply {
        None => Err(ErrorCode::Internal),
        Some(response) => {
            if response.ok {
                Ok(())
            } else {
                Err(reported_code(&response.error))
            }
        },
    }
}

/// Takes one byte of a line of an executor in; tells whether it ends the line.
pub fn push_executor_byte(line: &mut Vec<u8>, byte: u8) -> (complete: bool)
    ensures
        final(line)@ == old(line)@.push(byte),
        complete == (byte == 0x0a),
{
    line.push(byte);
    byte == 0x0a
}

// ---------------------------------------------------------------------------
// The start of a browser
// ---------------------------------------------------------------------------

/// The command that starts an executor. Nothing of a credential is in it.
pub fn executor_command(
    node_path: &str,
    entry: &str,
    browsers_path: &Option<String>,
    platform: Platform,
) -> (r: CommandLine)
    ensures
        r@ == (crate::command::CommandView {
            program: node_path@,
            args: seq![entry@],
            env: match (platform, *browsers_path) {
                (Platform::Windows, Some(path)) => seq![("PLAYWRIGHT_BROWSERS_PATH"@, path@)],
                _ => seq![],
            },
            cleared: seq![],
        }),
{
    let mut env: Vec<(String, String)> = Vec::new();
    let cleared: Vec<String> = Vec::new();
    assert(crate::command::env_views(env@) =~= seq![]);
    assert(crate::text::texts(cleared@) =~= seq![]);
    match (platform, browsers_path) {
        (Platform::Windows, Some(path)) => {
            env.push(("PLAYWRIGHT_BROWSERS_PATH".to_owned(), path.clone()));
            assert(crate::command::env_views(env@) =~= seq![
                ("PLAYWRIGHT_BROWSERS_PATH"@, path@),
            ]);
        },
        _ => {},
    }
    CommandLine { program: node_path.to_owned(), args: args1(entry), env, cleared }
}

/// Where the start of a browser stands.
#[derive(Clone, Copy, Debug, PartialEq, Eq, Structural)]
pub enum LaunchPhase {
    /// The executor is being started or connected to.
    Opening,
    /// The login request is being written.
    Writing,
    /// The answer is awaited.
    Awaiting,
    Over,
}

/// What happened.
pub enum LaunchEvent {
    /// The executor was started or connected to, or not.
    Opened(bool),
    /// The request was written, or not.
    Written(bool),
    /// The answer came, or nothing that can be read came in time.
    Reply(Option<ExecutorResponse>),
}

/// What is done next to start a browser.
#[derive(Debug)]
pub enum LaunchAction {
    /// Write the login request.
    Write,
    /// Wait for the answer.
    Await,
    /// The browser runs.
    Ready { endpoint: String, target_id: String },
    /// Stop the executor; the login failed.
    Stop(ErrorCode),
    /// There is no executor; the login failed.
    Fail(ErrorCode),
}

/// What follows an event is what it should be.
pub open spec fn is_launch_step(
    phase: LaunchPhase,
    event: LaunchEvent,
    next: LaunchPhase,
    action: LaunchAction,
) -> bool {
    match (phase, event) {
        (LaunchPhase::Opening, LaunchEvent::Opened(ok)) => if ok {
            next is Writing && action is Write
        } else {
            next is Over && action == LaunchAction::Fail(ErrorCode::Internal)
        },
        (LaunchPhase::Writing, LaunchEvent::Written(ok)) => if ok {
            next is Awaiting && action is Await
        } else {
            next is Over && action == LaunchAction::Stop(ErrorCode::Internal)
        },
        (LaunchPhase::Awaiting, LaunchEvent::Reply(reply)) => next is Over && match reply {
            None => action == LaunchAction::Stop(ErrorCode::Internal),
            Some(response) => if response.ok {
                match (response.endpoint, response.target_id) {
                    (Some(endpoint), Some(target_id)) => action == (LaunchAction::Ready {
                        endpoint,
                        target_id,
                    }),
                    _ => action == LaunchAction::Stop(ErrorCode::Internal),
                }
            } else {
                action matches LaunchAction::Stop(code) && reported(
                    crate::text::opt_text(response.error),
                    code,
                )
            },
        },
        _ => next is Over && (if phase is Opening || phase is Over {
            action == LaunchAction::Fail(ErrorCode::Internal)
        } else {
            action == LaunchAction::Stop(ErrorCode::Internal)
        }),
    }
}

impl LaunchPhase {
    /// Takes one event, and says what is done next.
    pub fn step(&mut self, event: LaunchEvent) -> (action: LaunchAction)
        ensures
            is_launch_step(*old(self), event, *final(self), action),
    {
        match (*self, event) {
            (LaunchPhase::Opening, LaunchEvent::Opened(ok)) => {
                if ok {
                    *self = LaunchPhase::Writing;
                    LaunchAction::Write
                } else {
                    *self = LaunchPhase::Over;
                    LaunchAction::Fail(ErrorCode::Internal)
                }
            },
            (LaunchPhase::Writing, LaunchEvent::Written(ok)) => {
                if ok {
                    *self = LaunchPhase::Awaiting;
                    LaunchAction::Await
                } else {
                    *self = LaunchPhase::Over;
                    LaunchAction::Stop(ErrorCode::Internal)
                }
            },
            (LaunchPhase::Awaiting, LaunchEvent::Reply(reply)) => {
                *self = LaunchPhase::Over;
                match login_outcome(reply) {
                    Ok((endpoint, target_id)) => LaunchAction::Ready { endpoint, target_id },
                    Err(code) => LaunchAction::Stop(code),
                }
            },
            (LaunchPhase::Opening, _) | (LaunchPhase::Over, _) => {
                *self = LaunchPhase::Over;
                LaunchAction::Fail(ErrorCode::Internal)
            },
            _ => {
                *self = LaunchPhase::Over;
                LaunchAction::Stop(ErrorCode::Internal)
            },
        }
    }
}

/// A failed start leaves no executor behind: once one was opened, every
/// failure stops it.
pub proof fn law_failed_starts_are_stopped(
    phase: LaunchPhase,
    event: LaunchEvent,
    next: LaunchPhase,
    action: LaunchAction,
)
    requires
        is_launch_step(phase, event, next, action),
        phase is Writing || phase is Awaiting,
    ensures
        !(action is Fail),
        next is Over ==> action is Stop || action is Ready,
{
}

// ---------------------------------------------------------------------------
// The end of a browser
// ---------------------------------------------------------------------------

/// An executor is shut down when its last lease is gone. A tab that cannot be
/// closed condemns the browser too, except when a peer was revoked.
pub fn must_shut_down(last: bool, release_failed: bool, revoked: bool) -> (r: bool)
    ensures
        r == (last || (release_failed && !revoked)),
{
    last || (release_failed && !revoked)
}

/// The stages of a shutdown.
#[derive(Clone, Copy, Debug, PartialEq, Eq, Structural)]
pub enum ShutdownStage {
    /// Wait until no request is under way.
    LockOperation,
    /// Wait for the executor.
    LockExecutor,
    /// Ask the executor to shut down.
    Ask,
    /// Wait for the process to end.
    WaitExit,
    /// Kill the process, or close the connection.
    Kill,
    /// Read what still comes until the connection closes.
    Drain,
    Done,
}

/// The stage that follows, depending on whether the last one succeeded in
/// time and on whether the daemon started the process itself.
pub open spec fn stage_after(stage: ShutdownStage, ok: bool, spawned: bool) -> ShutdownStage {
    match stage {
        ShutdownStage::LockOperation => if ok {
            ShutdownStage::LockExecutor
        } else {
            ShutdownStage::Kill
        },
        ShutdownStage::LockExecutor => if ok {
            ShutdownStage::Ask
        } else {
            ShutdownStage::Kill
        },
        ShutdownStage::Ask => if !ok {
            ShutdownStage::Kill
        } else if spawned {
            ShutdownStage::WaitExit
        } else {
            ShutdownStage::Drain
        },
        ShutdownStage::WaitExit => if ok {
            ShutdownStage::Done
        } else {
            ShutdownStage::Kill
        },
        ShutdownStage::Kill => ShutdownStage::Done,
        ShutdownStage::Drain => ShutdownStage::Done,
        ShutdownStage::Done => ShutdownStage::Done,
    }
}

/// The stage of a shutdown that follows.
pub fn next_shutdown_stage(stage: ShutdownStage, ok: bool, spawned: bool) -> (r: ShutdownStage)
    ensures
        r == stage_after(stage, ok, spawned),
{
    match stage {
        ShutdownStage::LockOperation => if ok {
            ShutdownStage::LockExecutor
        } else {
            ShutdownStage::Kill
        },
        ShutdownStage::LockExecutor => if ok {
            ShutdownStage::Ask
        } else {
            ShutdownStage::Kill
        },
        ShutdownStage::Ask => if !ok {
            ShutdownStage::Kill
        } else if spawned {
            ShutdownStage::WaitExit
        } else {
            ShutdownStage::Drain
        },
        ShutdownStage::WaitExit => if ok {
            ShutdownStage::Done
        } else {
            ShutdownStage::Kill
        },
        ShutdownStage::Kill => ShutdownStage::Done,
        ShutdownStage::Drain => ShutdownStage::Done,
        ShutdownStage::Done => ShutdownStage::Done,
    }
}

/// No process is left behind: the shutdown of a process that the daemon
/// started is only over once it was seen to end or was killed.
pub proof fn law_no_process_is_left_behind(stage: ShutdownStage, ok: bool)
    requires
        !(stage is Drain),
    ensures
        !(stage_after(stage, ok, true) is Drain),
        stage_after(stage, ok, true) is Done ==> stage is Done || stage is Kill || (stage
            is WaitExit && ok),
{
}

/// A shutdown is over after at most five stages.
pub proof fn law_shutdowns_end(a: bool, b: bool, c: bool, d: bool, e: bool, spawned: bool)
    ensures
        ({
            let first = stage_after(ShutdownStage::LockOperation, a, spawned);
            let second = stage_after(first, b, spawned);
            let third = stage_after(second, c, spawned);
            let fourth = stage_after(third, d, spawned);
            stage_after(fourth, e, spawned) is Done
        }),
{
}

/// What is done next to end a browser.
#[derive(Debug)]
pub enum TerminationAction {
    /// Close a tab.
    Release(String),
    /// Shut the executor down.
    Shutdown,
    /// Record the end of a session of a namespace.
    Audit { session_id: String, namespace: String },
    Done,
}

/// The end of a browser that still has leases: its tabs are closed, up to the
/// first that cannot be, then its executor is shut down, and then the end of
/// every session is recorded.
#[derive(Debug)]
pub struct Termination {
    browser: Browser,
    released: usize,
    shut_down: bool,
    audited: usize,
}

/// A termination, by the views of its parts.
#[verifier::ext_equal]
pub struct TerminationView {
    pub browser: crate::sessions::BrowserView,
    pub released: nat,
    pub shut_down: bool,
    pub audited: nat,
}

/// An action, by the views of its parts.
pub enum TerminationStep {
    Release(Seq<char>),
    Shutdown,
    Audit { session_id: Seq<char>, namespace: Seq<char> },
    Done,
}

impl View for TerminationAction {
    type V = TerminationStep;

    open spec fn view(&self) -> TerminationStep {
        match *self {
            TerminationAction::Release(t) => TerminationStep::Release(t@),
            TerminationAction::Shutdown => TerminationStep::Shutdown,
            TerminationAction::Audit { session_id, namespace } => TerminationStep::Audit {
                session_id: session_id@,
                namespace: namespace@,
            },
            TerminationAction::Done => TerminationStep::Done,
        }
    }
}

impl View for Termination {
    type V = TerminationView;

    closed spec fn view(&self) -> TerminationView {
        TerminationView {
            browser: self.browser@,
            released: self.released as nat,
            shut_down: self.shut_down,
            audited: self.audited as nat,
        }
    }
}

impl TerminationView {
    pub open spec fn step(self, ok: bool) -> (TerminationView, TerminationStep) {
        let leases = self.browser.leases;
        if !self.shut_down && ok && self.released < leases.len() {
            (
                TerminationView { released: self.released + 1, ..self },
                TerminationStep::Release(leases[self.released as int].target_id),
            )
        } else if !self.shut_down {
            (TerminationView { shut_down: true, ..self }, TerminationStep::Shutdown)
        } else if self.audited < leases.len() {
            (
                TerminationView { audited: self.audited + 1, ..self },
                TerminationStep::Audit {
                    session_id: leases[self.audited as int].session_id,
                    namespace: self.browser.key.namespace,
                },
            )
        } else {
            (self, TerminationStep::Done)
        }
    }
}

impl Termination {
    pub fn new(browser: Browser) -> (r: Termination)
        ensures
            r@ == (TerminationView {
                browser: browser@,
                released: 0,
                shut_down: false,
                audited: 0,
            }),
    {
        Termination { browser, released: 0, shut_down: false, audited: 0 }
    }

    /// Decides what comes next; `ok` tells whether the last tab was closed.
    pub fn step(&mut self, ok: bool) -> (action: TerminationAction)
        ensures
            (final(self)@, action@) == old(self)@.step(ok),
    {
        proof {
            assert(self@.browser.leases.len() == self.browser.leases@.len());
        }
        if !self.shut_down && ok && self.released < self.browser.leases.len() {
            let target_id = self.browser.leases[self.released].target_id.clone();
            self.released = self.released + 1;
            TerminationAction::Release(target_id)
        } else if !self.shut_down {
            self.shut_down = true;
            TerminationAction::Shutdown
        } else if self.audited < self.browser.leases.len() {
            let session_id = self.browser.leases[self.audited].session_id.clone();
            self.audited = self.audited + 1;
            TerminationAction::Audit { session_id, namespace: self.browser.key.namespace.clone() }
        } else {
            TerminationAction::Done
        }
    }
}

/// The end of every session is recorded, whatever went wrong, and only after
/// the executor was shut down.
pub proof fn law_every_ended_session_is_recorded(state: TerminationView, ok: bool)
    ensures
        state.step(ok).1 is Done ==> state.shut_down && state.audited >= state.browser.leases.len(),
        state.step(ok).1 is Audit ==> state.shut_down,
        state.step(false).1 is Release ==> false,
{
}

/// The port of a browser endpoint is the number behind the last colon of its
/// authority.
pub proof fn law_endpoints_name_their_port(
    endpoint: &str,
    found: Option<u16>,
    scheme: Seq<char>,
    host: Seq<char>,
    port: nat,
    path: Seq<char>,
)
    requires
        call_ensures(cdp_port_from_endpoint, (endpoint,), found),
        endpoint@ == scheme + seq![':', '/', '/'] + host + seq![':'] + crate::text::decimal(port)
            + seq!['/'] + path,
        !scheme.contains(':'),
        !host.contains('/'),
        0 < port <= 65535,
    ensures
        found matches Some(p) && p == port,
{
    reveal_strlit("://");
    let mark = "://"@;
    assert(mark =~= seq![':', '/', '/']);
    let at = scheme.len() as int;
    let digits = crate::text::decimal(port);
    crate::text::law_numbers_are_read_as_written(port);
    let authority_text = host + seq![':'] + digits;
    let rest = authority_text + seq!['/'] + path;
    assert(endpoint@.subrange(at, at + 3) =~= mark);
    assert(crate::text::occurs_at(endpoint@, mark, at));
    assert forall|j: int| 0 <= j < at implies !crate::text::occurs_at(endpoint@, mark, j) by {
        if crate::text::occurs_at(endpoint@, mark, j) {
            assert(endpoint@.subrange(j, j + 3)[0] == ':');
            assert(scheme[j] == ':');
        }
    }
    crate::text::lemma_find(endpoint@, mark, at);
    assert(endpoint@.skip(at + 3) =~= rest);
    assert(!digits.contains('/') && !digits.contains(':')) by {
        if digits.contains('/') {
            let i = choose|i: int| 0 <= i < digits.len() && digits[i] == '/';
            assert(crate::text::is_digit(digits[i]));
        }
        if digits.contains(':') {
            let i = choose|i: int| 0 <= i < digits.len() && digits[i] == ':';
            assert(crate::text::is_digit(digits[i]));
        }
    }
    assert(!authority_text.contains('/')) by {
        if authority_text.contains('/') {
            let i = choose|i: int| 0 <= i < authority_text.len() && authority_text[i] == '/';
            if i < host.len() {
                assert(host[i] == '/');
            } else if i > host.len() {
                assert(digits[i - host.len() - 1] == '/');
            }
        }
    }
    assert(rest =~= authority_text.push('/') + path);
    crate::text::lemma_split_first_unique(authority_text, '/', path);
    assert(crate::text::pieces(rest, '/')[0] == authority_text);
    assert(authority_text =~= host.push(':') + digits);
    crate::text::lemma_split_last_unique(host, ':', digits);
    assert(crate::text::is_digit(digits[0]));
    assert(crate::text::without_plus(digits) == digits);
}

/// The request that logs in carries what the client asked for and the values of
/// the credential, each in its place, and the code of the seed at that time.
pub proof fn law_login_requests_carry_the_credential(
    id: u64,
    params: LoginParams,
    username: &Secret,
    password: &Secret,
    totp_seed: &Option<Secret>,
    unix_time_secs: u64,
    request: ExecutorLoginRequest,
    seed: &str,
    code: (String, u64),
)
    requires
        call_ensures(
            login_request,
            (id, params, username, password, totp_seed, unix_time_secs),
            request,
        ),
        call_ensures(crate::totp::totp, (seed, unix_time_secs), code),
    ensures
        request.op@ == "login"@,
        request.id == id,
        request.target_url@ == params.target_url@,
        request.steps == params.steps,
        request.success_selector == params.success_selector,
        request.failure_selector == params.failure_selector,
        request.secret.username@ == username@,
        request.secret.password@ == password@,
        *totp_seed is None <==> request.secret.totp is None,
        *totp_seed matches Some(s) && s@ == seed@ ==> request.secret.totp->0@ == code.0@,
{
}

/// An executor reports success with the endpoint and the tab, and failure with
/// a code, which is passed on as it is; whatever cannot be understood is an
/// internal error.
pub proof fn law_executors_report_what_happened(
    reply: Option<ExecutorResponse>,
    outcome: Result<(String, String), ErrorCode>,
    code: ErrorCode,
)
    requires
        call_ensures(login_outcome, (reply,), outcome),
    ensures
        reply is None ==> outcome == Err::<(String, String), ErrorCode>(ErrorCode::Internal),
        reply matches Some(r) && r.ok && r.endpoint is Some && r.target_id is Some ==> (
        outcome matches Ok((endpoint, target_id)) && endpoint@ == reply->0.endpoint->0@
            && target_id@ == reply->0.target_id->0@),
        reply matches Some(r) && r.ok && (r.endpoint is None || r.target_id is None) ==> outcome
            == Err::<(String, String), ErrorCode>(ErrorCode::Internal),
        reply matches Some(r) && !r.ok && (r.error matches Some(text) && text@ == code.text())
            && !(code is Unauthorized || code is AdminRequired || code is AdminSealUnavailable)
            ==> outcome == Err::<(String, String), ErrorCode>(code),
        reply matches Some(r) && !r.ok && r.error is None ==> outcome == Err::<
            (String, String),
            ErrorCode,
        >(ErrorCode::Internal),
        reply matches Some(r) && !r.ok && (forall|c: ErrorCode|
            r.error matches Some(text) && text@ != #[trigger] c.text()) ==> outcome == Err::<
            (String, String),
            ErrorCode,
        >(ErrorCode::Internal),
{
    if outcome is Err {
        crate::error::law_codes_are_distinct(outcome->Err_0, code);
        let text = outcome->Err_0.text();
        assert(text == outcome->Err_0.text());
    }
}

/// A browser is started in three steps, and what the executor answers is what
/// comes out.
pub proof fn law_browsers_start_in_three_steps(
    first: LaunchPhase,
    second: LaunchPhase,
    third: LaunchPhase,
    last: LaunchPhase,
    one: LaunchAction,
    two: LaunchAction,
    three: LaunchAction,
    response: ExecutorResponse,
)
    requires
        first is Opening,
        is_launch_step(first, LaunchEvent::Opened(true), second, one),
        is_launch_step(second, LaunchEvent::Written(true), third, two),
        is_launch_step(third, LaunchEvent::Reply(Some(response)), last, three),
    ensures
        one is Write,
        two is Await,
        last is Over,
        response.ok && response.endpoint is Some && response.target_id is Some ==> three
            == (LaunchAction::Ready {
            endpoint: response.endpoint->0,
            target_id: response.target_id->0,
        }),
        !response.ok ==> three is Stop,
{
}

/// An executor is accepted where it answers and runs as a user of its own.
pub proof fn law_executors_run_as_themselves(
    path: &str,
    reply: HelloReply,
    own_uid: u32,
    accepted: Result<u32, String>,
)
    requires
        call_ensures(accept_hello, (path, reply, own_uid), accepted),
    ensures
        accepted matches Ok(uid) <==> (reply matches HelloReply::Answer(answer) && answer.ok && (
        answer.uid matches Some(u) && u != 0 && u != own_uid)),
        accepted matches Ok(uid) ==> uid != 0 && uid != own_uid && reply->Answer_0.uid == Some(uid),
{
}

/// A termination after a number of steps that all went well.
pub open spec fn after_terminations(state: TerminationView, n: nat) -> (
    TerminationView,
    TerminationStep,
)
    decreases n,
{
    if n == 0 {
        state.step(true)
    } else {
        after_terminations(state, (n - 1) as nat).0.step(true)
    }
}

/// The end of a browser closes each of its tabs, then shuts its executor down,
/// and then records the end of each of its sessions under its namespace.
pub proof fn law_terminations_close_every_tab(browser: Browser, start: Termination, n: nat)
    requires
        call_ensures(Termination::new, (browser,), start),
    ensures
        ({
            let leases = browser@.leases;
            let (state, step) = after_terminations(start@, n);
            &&& n < leases.len() ==> step == TerminationStep::Release(leases[n as int].target_id)
            &&& n == leases.len() ==> step is Shutdown
            &&& leases.len() < n <= 2 * leases.len() ==> step == (TerminationStep::Audit {
                session_id: leases[n - leases.len() - 1].session_id,
                namespace: browser.key.namespace@,
            })
            &&& n > 2 * leases.len() ==> step is Done
            &&& state.browser == browser@
            &&& state.released == if n < leases.len() {
                (n + 1) as nat
            } else {
                leases.len()
            }
            &&& state.shut_down <==> n >= leases.len()
            &&& state.audited == if n <= leases.len() {
                0
            } else if n <= 2 * leases.len() {
                (n - leases.len()) as nat
            } else {
                leases.len()
            }
        }),
    decreases n,
{
    if n > 0 {
        law_terminations_close_every_tab(browser, start, (n - 1) as nat);
    }
}

/// A tab that cannot be closed ends the closing of tabs, not the shutdown.
pub proof fn law_shutdowns_follow_failed_releases(state: TerminationView)
    requires
        !state.shut_down,
    ensures
        state.step(false).1 is Shutdown,
        state.step(false).0.shut_down,
        state.step(false).0.audited == state.audited,
{
}

/// A shared browser hands out a tab, or says why it does not; a tab is closed
/// under the name it was handed out with.
pub proof fn law_tabs_are_handed_out(
    id: u64,
    target: String,
    asked: ExecutorLeaseRequest,
    released: ExecutorReleaseRequest,
    reply: Option<ExecutorLeaseResponse>,
    lease: Result<String, ErrorCode>,
    release: Result<(), ErrorCode>,
    code: ErrorCode,
)
    requires
        call_ensures(lease_request, (id,), asked),
        call_ensures(release_request, (id, target), released),
        call_ensures(lease_outcome, (reply,), lease),
        call_ensures(release_outcome, (reply,), release),
    ensures
        asked.op@ == "lease"@ && asked.id == id,
        released.op@ == "release"@ && released.id == id && released.target_id@ == target@,
        reply is None ==> lease == Err::<String, ErrorCode>(ErrorCode::Internal) && release == Err::<
            (),
            ErrorCode,
        >(ErrorCode::Internal),
        reply is Some && reply->0.ok ==> release is Ok,
        reply is Some && reply->0.ok && reply->0.target_id is Some ==> (lease matches Ok(t) && t@
            == reply->0.target_id->0@),
        reply is Some && reply->0.ok && reply->0.target_id is None ==> lease == Err::<
            String,
            ErrorCode,
        >(ErrorCode::Internal),
        reply is Some && !reply->0.ok && reply->0.error is Some && reply->0.error->0@ == code.text()
            && !(code is Unauthorized || code is AdminRequired || code is AdminSealUnavailable)
            ==> lease == Err::<String, ErrorCode>(code) && release == Err::<(), ErrorCode>(code),
        reply is Some && !reply->0.ok && reply->0.error is None ==> lease == Err::<
            String,
            ErrorCode,
        >(ErrorCode::Internal) && release == Err::<(), ErrorCode>(ErrorCode::Internal),
{
    if lease is Err {
        crate::error::law_codes_are_distinct(lease->Err_0, code);
    }
    if release is Err {
        crate::error::law_codes_are_distinct(release->Err_0, code);
    }
}

/// The executor is run by its interpreter, and told where the browsers are on
/// Windows alone.
pub proof fn law_executors_are_run(
    node_path: &str,
    entry: &str,
    browsers_path: &Option<String>,
    platform: Platform,
    command: CommandLine,
    path: &str,
    error: &str,
    message: String,
)
    requires
        call_ensures(executor_command, (node_path, entry, browsers_path, platform), command),
        call_ensures(executor_socket_error, (path, error), message),
    ensures
        command.program@ == node_path@,
        command.args@.len() == 1,
        command.args@[0]@ == entry@,
        platform is Unix || *browsers_path is None ==> command.env@.len() == 0,
        platform is Windows && *browsers_path is Some ==> command.env@.len() == 1
            && command.env@[0].0@ == "PLAYWRIGHT_BROWSERS_PATH"@ && command.env@[0].1@
            == browsers_path->0@,
        message@ == "executor socket \""@ + path@ + "\" is not connectable: "@ + error@,
{
    let view = command@;
    assert(view.args.len() == command.args@.len());
    assert(view.args[0] == command.args@[0]@);
    assert(view.env.len() == command.env@.len());
    if command.env@.len() > 0 {
        assert(view.env[0] == (command.env@[0].0@, command.env@[0].1@));
    }
}

/// The lines of an executor are read to their line feed, byte by byte.
pub proof fn law_executor_lines_are_read(line: &mut Vec<u8>, byte: u8, complete: bool)
    requires
        call_ensures(push_executor_byte, (line, byte), complete),
    ensures
        complete <==> byte == 10,
        final(line)@ == old(line)@ + seq![byte],
{
}

/// A browser is shut down with its last session, and where a tab could not be
/// closed that nobody took away.
pub proof fn law_browsers_are_shut_down(
    last: bool,
    release_failed: bool,
    revoked: bool,
    down: bool,
)
    requires
        call_ensures(must_shut_down, (last, release_failed, revoked), down),
    ensures
        last ==> down,
        !last && !release_failed ==> !down,
        !last && release_failed ==> down == !revoked,
{
}

/// An executor that obeys is asked once, waited for where the daemon started
/// it, and never killed; one that does not obey is killed at once.
pub proof fn law_executors_are_asked_before_they_are_killed(
    spawned: bool,
    ok: bool,
    a: ShutdownStage,
    b: ShutdownStage,
    c: ShutdownStage,
    d: ShutdownStage,
    e: ShutdownStage,
    stage: ShutdownStage,
    failed: ShutdownStage,
)
    requires
        call_ensures(next_shutdown_stage, (ShutdownStage::LockOperation, true, spawned), a),
        call_ensures(next_shutdown_stage, (a, true, spawned), b),
        call_ensures(next_shutdown_stage, (b, true, spawned), c),
        call_ensures(next_shutdown_stage, (c, true, spawned), d),
        call_ensures(next_shutdown_stage, (stage, false, spawned), failed),
        call_ensures(next_shutdown_stage, (ShutdownStage::Kill, ok, spawned), e),
    ensures
        a is LockExecutor && b is Ask,
        spawned ==> c is WaitExit,
        !spawned ==> c is Drain,
        d is Done && e is Done,
        stage is LockOperation || stage is LockExecutor || stage is Ask || stage is WaitExit
            ==> failed is Kill,
{
}

} // verus!
