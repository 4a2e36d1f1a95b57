//! The course of a login, from the request to the lease.
//!
//! A login waits many times for the outside: for a tab of a running browser,
//! for its turn to start one, for the vault, for a human. Between two waits
//! [`LoginFlow::step`] decides what comes next.

use vstd::prelude::*;
use vstd::string::*;

use crate::error::ErrorCode;
use crate::executor::cdp_port_from_endpoint;
use crate::sessions::{BrowserKey, SessionTable, StartControl};
use crate::text::{list_has, text_split_first};

verus! {

/// What a login waits for.
#[derive(Clone, Copy, Debug, PartialEq, Eq, Structural)]
pub enum LoginPhase {
    /// It has not begun.
    Begin,
    /// The list of credentials, to confirm that the credential exists.
    Refs,
    /// The same list of a vault that was locked and knew none, once it is
    /// open.
    Unlock,
    /// The verdict of the approval command.
    Approval,
    /// A tab of a shared browser.
    Lease,
    /// The release of a tab whose browser went away meanwhile.
    Orphan,
    /// The turn of this key to start a browser.
    Gate,
    /// The credential.
    Resolve,
    /// The executor.
    Start,
    /// Nothing: it is over.
    Done,
}

/// How the approval command ended.
#[derive(Clone, Copy, Debug, PartialEq, Eq, Structural)]
pub enum ApprovalOutcome {
    Granted,
    Denied,
    TimedOut,
    Failed,
}

/// What the vault said of a credential.
#[derive(Clone, Copy, Debug, PartialEq, Eq, Structural)]
pub enum ResolveOutcome {
    Failed(ErrorCode),
    Unknown,
    Locked,
    Ready,
}

/// What happened while a login waited. Times are nanoseconds of a monotonic
/// clock.
#[derive(Debug)]
pub enum LoginEvent {
    Begin,
    GateHeld { now: u64 },
    Refs { ids: Result<Vec<String>, ErrorCode>, locked: bool },
    Approval { outcome: ApprovalOutcome, now: u64 },
    Leased { target: Result<String, ErrorCode>, session_id: String, now: u64, ttl_secs: u64 },
    Released { now: u64 },
    Resolved { found: ResolveOutcome, now: u64 },
    Started {
        result: Result<(String, String), ErrorCode>,
        readable: bool,
        session_id: String,
        browser_id: String,
        now: u64,
        ttl_secs: u64,
    },
}

/// A tab that a client may drive.
#[derive(Debug)]
pub struct Session {
    pub session_id: String,
    pub target_id: String,
    pub endpoint: String,
}

/// What is done next.
#[derive(Debug)]
pub enum LoginAction {
    /// Refuse the request.
    Reject(ErrorCode),
    /// Stop the executor that was just started, and refuse the request.
    StopAndReject(ErrorCode),
    /// List the credentials of the namespace.
    ListRefs,
    /// Open the vault of the namespace, and list its credentials.
    OpenRefs,
    /// Run the approval command.
    Approve,
    /// Ask the executor of a browser for a tab.
    Lease(String),
    /// Give a tab back to the executor of a browser that is gone.
    Release { browser_id: String, target_id: String },
    /// Wait for the turn of the key.
    TakeGate,
    /// Resolve the credential.
    Resolve,
    /// Start an executor and log in.
    Start,
    /// Answer with a tab of a browser that was running.
    Joined(Session),
    /// Answer with the tab of a browser that was started.
    Opened(Session),
}

// ---------------------------------------------------------------------------
// The model
// ---------------------------------------------------------------------------

/// A login, by the views of its parts.
#[verifier::ext_equal]
pub struct FlowView {
    pub key: crate::sessions::KeyView,
    pub entry_id: Seq<char>,
    pub exclusive: bool,
    pub needs_approval: bool,
    pub approved: bool,
    pub gated: bool,
    pub joining: bool,
    pub browser: Seq<char>,
    pub phase: LoginPhase,
}

/// An event, by the views of its parts.
pub enum EventView {
    Begin,
    GateHeld { now: u64 },
    Refs { ids: Result<Seq<Seq<char>>, ErrorCode>, locked: bool },
    Approval { outcome: ApprovalOutcome, now: u64 },
    Leased { target: Result<Seq<char>, ErrorCode>, session_id: Seq<char>, now: u64, ttl_secs: u64 },
    Released { now: u64 },
    Resolved { found: ResolveOutcome, now: u64 },
    Started {
        result: Result<(Seq<char>, Seq<char>), ErrorCode>,
        readable: bool,
        session_id: Seq<char>,
        browser_id: Seq<char>,
        now: u64,
        ttl_secs: u64,
    },
}

/// An action, by the views of its parts.
#[verifier::ext_equal]
pub enum ActionView {
    Reject(ErrorCode),
    StopAndReject(ErrorCode),
    ListRefs,
    OpenRefs,
    Approve,
    Lease(Seq<char>),
    Release { browser_id: Seq<char>, target_id: Seq<char> },
    TakeGate,
    Resolve,
    Start,
    Joined { session_id: Seq<char>, target_id: Seq<char>, endpoint: Seq<char> },
    Opened { session_id: Seq<char>, target_id: Seq<char>, endpoint: Seq<char> },
}

impl View for LoginEvent {
    type V = EventView;

    open spec fn view(&self) -> EventView {
        match *self {
            LoginEvent::Begin => EventView::Begin,
            LoginEvent::GateHeld { now } => EventView::GateHeld { now },
            LoginEvent::Refs { ids, locked } => EventView::Refs {
                ids: match ids {
                    Ok(list) => Ok(crate::text::texts(list@)),
                    Err(e) => Err(e),
                },
                locked,
            },
            LoginEvent::Approval { outcome, now } => EventView::Approval { outcome, now },
            LoginEvent::Leased { target, session_id, now, ttl_secs } => EventView::Leased {
                target: match target {
                    Ok(t) => Ok(t@),
                    Err(e) => Err(e),
                },
                session_id: session_id@,
                now,
                ttl_secs,
            },
            LoginEvent::Released { now } => EventView::Released { now },
            LoginEvent::Resolved { found, now } => EventView::Resolved { found, now },
            LoginEvent::Started { result, readable, session_id, browser_id, now, ttl_secs } =>
                EventView::Started {
                result: match result {
                    Ok((e, t)) => Ok((e@, t@)),
                    Err(e) => Err(e),
                },
                readable,
                session_id: session_id@,
                browser_id: browser_id@,
                now,
                ttl_secs,
            },
        }
    }
}

impl View for LoginAction {
    type V = ActionView;

    open spec fn view(&self) -> ActionView {
        match *self {
            LoginAction::Reject(e) => ActionView::Reject(e),
            LoginAction::StopAndReject(e) => ActionView::StopAndReject(e),
            LoginAction::ListRefs => ActionView::ListRefs,
            LoginAction::OpenRefs => ActionView::OpenRefs,
            LoginAction::Approve => ActionView::Approve,
            LoginAction::Lease(b) => ActionView::Lease(b@),
            LoginAction::Release { browser_id, target_id } => ActionView::Release {
                browser_id: browser_id@,
                target_id: target_id@,
            },
            LoginAction::TakeGate => ActionView::TakeGate,
            LoginAction::Resolve => ActionView::Resolve,
            LoginAction::Start => ActionView::Start,
            LoginAction::Joined(s) => ActionView::Joined {
                session_id: s.session_id@,
                target_id: s.target_id@,
                endpoint: s.endpoint@,
            },
            LoginAction::Opened(s) => ActionView::Opened {
                session_id: s.session_id@,
                target_id: s.target_id@,
                endpoint: s.endpoint@,
            },
        }
    }
}

/// A login, the browsers, the pace of its key, and what to do next.
#[verifier::ext_equal]
pub struct Step {
    pub flow: FlowView,
    pub table: Seq<crate::sessions::BrowserView>,
    pub control: crate::sessions::ControlView,
    pub action: ActionView,
}

/// When a lease ends that is given out now.
pub open spec fn expiry(now: u64, ttl_secs: u64) -> nat {
    (now + ttl_secs * 1_000_000_000) as nat
}

impl FlowView {
    /// Nothing stands in the way of a lease any more: a human has agreed, or
    /// none is asked.
    pub open spec fn cleared(self) -> bool {
        self.approved || !self.needs_approval
    }

    pub open spec fn at(self, phase: LoginPhase) -> FlowView {
        FlowView { phase, ..self }
    }

    /// The request is refused.
    pub open spec fn rejected(
        self,
        table: Seq<crate::sessions::BrowserView>,
        control: crate::sessions::ControlView,
        code: ErrorCode,
    ) -> Step {
        Step { flow: self.at(LoginPhase::Done), table, control, action: ActionView::Reject(code) }
    }

    /// A shared browser is looked for, and a lease on it is asked for once
    /// approval is given.
    pub open spec fn enter(
        self,
        table: Seq<crate::sessions::BrowserView>,
        control: crate::sessions::ControlView,
        now: u64,
    ) -> Step {
        match crate::sessions::shared_id(table, self.key) {
            Some(id) => if self.exclusive {
                self.miss(table, control, now)
            } else if self.cleared() {
                Step {
                    flow: FlowView { browser: id, ..self.at(LoginPhase::Lease) },
                    table,
                    control,
                    action: ActionView::Lease(id),
                }
            } else {
                Step {
                    flow: FlowView { joining: true, ..self.at(LoginPhase::Refs) },
                    table,
                    control,
                    action: ActionView::ListRefs,
                }
            },
            None => self.miss(table, control, now),
        }
    }

    /// There is no browser to share: one is started, when it is the turn of
    /// this login.
    pub open spec fn miss(
        self,
        table: Seq<crate::sessions::BrowserView>,
        control: crate::sessions::ControlView,
        now: u64,
    ) -> Step {
        if self.gated {
            self.open(table, control, now)
        } else {
            Step {
                flow: self.at(LoginPhase::Gate),
                table,
                control,
                action: ActionView::TakeGate,
            }
        }
    }

    /// A browser is started, unless the key was started too often, once
    /// approval is given.
    pub open spec fn open(
        self,
        table: Seq<crate::sessions::BrowserView>,
        control: crate::sessions::ControlView,
        now: u64,
    ) -> Step {
        if !control.admits(now) {
            self.rejected(table, control.pruned(now), ErrorCode::RateLimited)
        } else if self.cleared() {
            Step {
                flow: self.at(LoginPhase::Resolve),
                table,
                control: control.pruned(now),
                action: ActionView::Resolve,
            }
        } else {
            Step {
                flow: FlowView { joining: false, ..self.at(LoginPhase::Refs) },
                table,
                control: control.pruned(now),
                action: ActionView::ListRefs,
            }
        }
    }

    /// What follows a list of credentials. A human is asked about one that is
    /// listed; a vault that is locked and knows none is opened first, once.
    pub open spec fn listed(
        self,
        table: Seq<crate::sessions::BrowserView>,
        control: crate::sessions::ControlView,
        ids: Result<Seq<Seq<char>>, ErrorCode>,
        locked: bool,
    ) -> Step {
        match ids {
            Ok(list) => if list.contains(self.entry_id) {
                Step {
                    flow: self.at(LoginPhase::Approval),
                    table,
                    control,
                    action: ActionView::Approve,
                }
            } else if self.phase is Refs && locked && list.len() == 0 {
                Step {
                    flow: self.at(LoginPhase::Unlock),
                    table,
                    control,
                    action: ActionView::OpenRefs,
                }
            } else {
                self.rejected(table, control, ErrorCode::InvalidCredential)
            },
            Err(code) => self.rejected(table, control, code),
        }
    }

    /// What follows an event. Before the turn is held `control` is left alone.
    pub open spec fn step(
        self,
        table: Seq<crate::sessions::BrowserView>,
        control: crate::sessions::ControlView,
        event: EventView,
    ) -> Step {
        match (self.phase, event) {
            (LoginPhase::Begin, EventView::Begin) => self.enter(table, control, 0),
            (LoginPhase::Gate, EventView::GateHeld { now }) => (FlowView {
                gated: true,
                ..self
            }).enter(table, control, now),
            (LoginPhase::Refs, EventView::Refs { ids, locked }) => self.listed(
                table,
                control,
                ids,
                locked,
            ),
            (LoginPhase::Unlock, EventView::Refs { ids, locked }) => self.listed(
                table,
                control,
                ids,
                locked,
            ),
            (LoginPhase::Approval, EventView::Approval { outcome, now }) => match outcome {
                ApprovalOutcome::Granted => {
                    let approved = FlowView { approved: true, ..self };
                    if self.joining {
                        approved.enter(table, control, now)
                    } else {
                        Step {
                            flow: approved.at(LoginPhase::Resolve),
                            table,
                            control,
                            action: ActionView::Resolve,
                        }
                    }
                },
                ApprovalOutcome::Denied => self.rejected(table, control, ErrorCode::ApprovalDenied),
                ApprovalOutcome::TimedOut => self.rejected(
                    table,
                    control,
                    ErrorCode::ApprovalTimeout,
                ),
                ApprovalOutcome::Failed => self.rejected(table, control, ErrorCode::Internal),
            },
            (LoginPhase::Lease, EventView::Leased { target, session_id, now, ttl_secs }) =>
                match target {
                Ok(target_id) => match crate::sessions::index_of_id(table, self.browser) {
                    Some(i) => Step {
                        flow: self.at(LoginPhase::Done),
                        table: crate::sessions::joined_table(
                            table,
                            self.browser,
                            session_id,
                            target_id,
                            expiry(now, ttl_secs),
                        ),
                        control,
                        action: ActionView::Joined {
                            session_id,
                            target_id,
                            endpoint: table[i].endpoint,
                        },
                    },
                    None => Step {
                        flow: self.at(LoginPhase::Orphan),
                        table,
                        control,
                        action: ActionView::Release { browser_id: self.browser, target_id },
                    },
                },
                Err(code) => self.rejected(table, control, code),
            },
            (LoginPhase::Orphan, EventView::Released { now }) => self.miss(table, control, now),
            (LoginPhase::Resolve, EventView::Resolved { found, now }) => match found {
                ResolveOutcome::Failed(code) => self.rejected(table, control, code),
                ResolveOutcome::Unknown => self.rejected(
                    table,
                    control,
                    ErrorCode::InvalidCredential,
                ),
                ResolveOutcome::Locked => self.rejected(table, control, ErrorCode::VaultLocked),
                ResolveOutcome::Ready => Step {
                    flow: self.at(LoginPhase::Start),
                    table,
                    control: control.attempted(now),
                    action: ActionView::Start,
                },
            },
            (
                LoginPhase::Start,
                EventView::Started { result, readable, session_id, browser_id, now, ttl_secs },
            ) => match result {
                Ok((endpoint, target_id)) => match crate::executor::endpoint_port(endpoint) {
                    Some(port) => if readable {
                        Step {
                            flow: self.at(LoginPhase::Done),
                            table: table.push(
                                crate::sessions::started_browser(
                                    browser_id,
                                    self.key,
                                    port as u16,
                                    endpoint,
                                    self.exclusive,
                                    session_id,
                                    target_id,
                                    expiry(now, ttl_secs),
                                ),
                            ),
                            control: control.succeeded(),
                            action: ActionView::Opened { session_id, target_id, endpoint },
                        }
                    } else {
                        self.stopped(table, control.succeeded())
                    },
                    None => self.stopped(table, control.succeeded()),
                },
                Err(code) => self.rejected(table, control.failed(now), code),
            },
            _ => self.rejected(table, control, ErrorCode::Internal),
        }
    }

    /// The executor that was started is of no use.
    pub open spec fn stopped(
        self,
        table: Seq<crate::sessions::BrowserView>,
        control: crate::sessions::ControlView,
    ) -> Step {
        Step {
            flow: self.at(LoginPhase::Done),
            table,
            control,
            action: ActionView::StopAndReject(ErrorCode::Internal),
        }
    }

    /// A human is asked, or it is found out whether there is something to ask.
    pub open spec fn asking(self) -> bool {
        self.phase is Refs || self.phase is Unlock || self.phase is Approval
    }

    /// No lease is waited for without clearance, no credential and no
    /// executor without the turn, and no shared browser is waited for by an
    /// exclusive login.
    pub open spec fn wf(self) -> bool {
        &&& (self.phase is Lease || self.phase is Orphan || self.phase is Resolve
            || self.phase is Start ==> self.cleared())
        &&& (self.phase is Resolve || self.phase is Start ==> self.gated)
        &&& (self.phase is Lease || self.phase is Orphan ==> !self.exclusive)
        &&& (self.asking() ==> !self.cleared())
        &&& (self.asking() && !self.joining ==> self.gated)
        &&& (self.asking() && self.joining ==> !self.exclusive)
        &&& (self.phase is Begin || self.phase is Gate ==> !self.gated)
    }

    /// How far a login is from its end.
    pub open spec fn rank(self) -> nat {
        let rest: nat = match self.phase {
            LoginPhase::Begin => 10,
            LoginPhase::Refs => 9,
            LoginPhase::Unlock => 8,
            LoginPhase::Approval => 7,
            LoginPhase::Lease => 6,
            LoginPhase::Orphan => 5,
            LoginPhase::Gate => 4,
            LoginPhase::Resolve => 2,
            LoginPhase::Start => 1,
            LoginPhase::Done => 0,
        };
        if self.gated || self.phase is Done {
            rest
        } else {
            rest + 10
        }
    }
}

// ---------------------------------------------------------------------------
// The code
// ---------------------------------------------------------------------------

/// One login in progress.
#[derive(Debug)]
pub struct LoginFlow {
    key: BrowserKey,
    entry_id: String,
    exclusive: bool,
    needs_approval: bool,
    approved: bool,
    gated: bool,
    joining: bool,
    browser: String,
    phase: LoginPhase,
}

impl View for LoginFlow {
    type V = FlowView;

    closed spec fn view(&self) -> FlowView {
        FlowView {
            key: self.key@,
            entry_id: self.entry_id@,
            exclusive: self.exclusive,
            needs_approval: self.needs_approval,
            approved: self.approved,
            gated: self.gated,
            joining: self.joining,
            browser: self.browser@,
            phase: self.phase,
        }
    }
}

/// A login before its first step.
pub open spec fn begun(
    principal: Seq<char>,
    cred_id: Seq<char>,
    namespace: Seq<char>,
    entry_id: Seq<char>,
    exclusive: bool,
    needs_approval: bool,
) -> FlowView {
    FlowView {
        key: crate::sessions::KeyView { principal, namespace, cred_id },
        entry_id,
        exclusive,
        needs_approval,
        approved: false,
        gated: false,
        joining: false,
        browser: seq![],
        phase: LoginPhase::Begin,
    }
}

impl LoginFlow {
    /// Begins the login of a principal with a credential, which is named by a
    /// namespace, a colon and an entry of that namespace.
    pub fn new(
        principal: String,
        cred_id: String,
        exclusive: bool,
        needs_approval: bool,
    ) -> (r: Result<LoginFlow, ErrorCode>)
        ensures
            match crate::text::split_first(cred_id@, ':') {
                Some((namespace, entry_id)) => r matches Ok(flow) && flow@ == begun(
                    principal@,
                    cred_id@,
                    namespace,
                    entry_id,
                    exclusive,
                    needs_approval,
                ) && flow@.wf(),
                None => r matches Err(code) && code == ErrorCode::InvalidCredential,
            },
    {
        match text_split_first(cred_id.as_str(), ':') {
            Some((namespace, entry_id)) => {
                let flow = LoginFlow {
                    key: BrowserKey::new(principal, namespace, cred_id),
                    entry_id,
                    exclusive,
                    needs_approval,
                    approved: false,
                    gated: false,
                    joining: false,
                    browser: String::new(),
                    phase: LoginPhase::Begin,
                };
                assert(flow.browser@ =~= seq![]);
                Ok(flow)
            },
            None => Err(ErrorCode::InvalidCredential),
        }
    }

    /// The key under which browsers of this login are shared.
    pub fn key(&self) -> (key: &BrowserKey)
        ensures
            key@ == self@.key,
    {
        &self.key
    }

    /// The entry of the namespace that is logged in with.
    pub fn entry_id(&self) -> (id: &str)
        ensures
            id@ == self@.entry_id,
    {
        self.entry_id.as_str()
    }

    fn is_cleared(&self) -> (r: bool)
        ensures
            r == self@.cleared(),
    {
        self.approved || !self.needs_approval
    }

    fn reject(&mut self, code: ErrorCode) -> (action: LoginAction)
        ensures
            final(self)@ == old(self)@.at(LoginPhase::Done),
            action@ == ActionView::Reject(code),
    {
        self.phase = LoginPhase::Done;
        LoginAction::Reject(code)
    }

    fn stop(&mut self) -> (action: LoginAction)
        ensures
            final(self)@ == old(self)@.at(LoginPhase::Done),
            action@ == ActionView::StopAndReject(ErrorCode::Internal),
    {
        self.phase = LoginPhase::Done;
        LoginAction::StopAndReject(ErrorCode::Internal)
    }

    fn do_enter(&mut self, table: &SessionTable, control: &mut StartControl, now: u64) -> (action:
        LoginAction)
        ensures
            (Step { flow: final(self)@, table: table@, control: final(control)@, action: action@ })
                == old(self)@.enter(table@, old(control)@, now),
    {
        match table.shared_browser(&self.key) {
            Some(id) => {
                if self.exclusive {
                    self.do_miss(table, control, now)
                } else if self.is_cleared() {
                    self.browser = id.clone();
                    self.phase = LoginPhase::Lease;
                    LoginAction::Lease(id)
                } else {
                    self.joining = true;
                    self.phase = LoginPhase::Refs;
                    LoginAction::ListRefs
                }
            },
            None => self.do_miss(table, control, now),
        }
    }

    fn do_miss(&mut self, table: &SessionTable, control: &mut StartControl, now: u64) -> (action:
        LoginAction)
        ensures
            (Step { flow: final(self)@, table: table@, control: final(control)@, action: action@ })
                == old(self)@.miss(table@, old(control)@, now),
    {
        if self.gated {
            if !control.may_start(now) {
                self.reject(ErrorCode::RateLimited)
            } else if self.is_cleared() {
                self.phase = LoginPhase::Resolve;
                LoginAction::Resolve
            } else {
                self.joining = false;
                self.phase = LoginPhase::Refs;
                LoginAction::ListRefs
            }
        } else {
            self.phase = LoginPhase::Gate;
            LoginAction::TakeGate
        }
    }

    fn on_refs(
        &mut self,
        table: &SessionTable,
        control: &StartControl,
        ids: Result<Vec<String>, ErrorCode>,
        locked: bool,
    ) -> (action: LoginAction)
        ensures
            (Step { flow: final(self)@, table: table@, control: control@, action: action@ })
                == old(self)@.listed(
                table@,
                control@,
                match ids {
                    Ok(list) => Ok(crate::text::texts(list@)),
                    Err(e) => Err(e),
                },
                locked,
            ),
    {
        match ids {
            Ok(list) => {
                assert(crate::text::texts(list@).len() == list@.len());
                if list_has(&list, self.entry_id.as_str()) {
                    self.phase = LoginPhase::Approval;
                    LoginAction::Approve
                } else if matches!(self.phase, LoginPhase::Refs) && locked && list.len() == 0 {
                    self.phase = LoginPhase::Unlock;
                    LoginAction::OpenRefs
                } else {
                    self.reject(ErrorCode::InvalidCredential)
                }
            },
            Err(code) => self.reject(code),
        }
    }

    /// Decides what follows an event. `control` is that of the login's key; it
    /// is only looked at once the turn of the key is held.
    pub fn step(
        &mut self,
        table: &mut SessionTable,
        control: &mut StartControl,
        event: LoginEvent,
    ) -> (action: LoginAction)
        requires
            old(table).wf(),
        ensures
            final(table).wf(),
            (Step {
                flow: final(self)@,
                table: final(table)@,
                control: final(control)@,
                action: action@,
            }) == old(self)@.step(old(table)@, old(control)@, event@),
    {
        match (self.phase, event) {
            (LoginPhase::Begin, LoginEvent::Begin) => self.do_enter(table, control, 0),
            (LoginPhase::Gate, LoginEvent::GateHeld { now }) => {
                self.gated = true;
                self.do_enter(table, control, now)
            },
            (LoginPhase::Refs, LoginEvent::Refs { ids, locked }) => self.on_refs(
                table,
                control,
                ids,
                locked,
            ),
            (LoginPhase::Unlock, LoginEvent::Refs { ids, locked }) => self.on_refs(
                table,
                control,
                ids,
                locked,
            ),
            (LoginPhase::Approval, LoginEvent::Approval { outcome, now }) => match outcome {
                ApprovalOutcome::Granted => {
                    self.approved = true;
                    if self.joining {
                        self.do_enter(table, control, now)
                    } else {
                        self.phase = LoginPhase::Resolve;
                        LoginAction::Resolve
                    }
                },
                ApprovalOutcome::Denied => self.reject(ErrorCode::ApprovalDenied),
                ApprovalOutcome::TimedOut => self.reject(ErrorCode::ApprovalTimeout),
                ApprovalOutcome::Failed => self.reject(ErrorCode::Internal),
            },
            (LoginPhase::Lease, LoginEvent::Leased { target, session_id, now, ttl_secs }) =>
                match target {
                Ok(target_id) => {
                    let expires_at: u128 = now as u128 + ttl_secs as u128 * 1_000_000_000;
                    match table.endpoint(self.browser.as_str()) {
                        Some(endpoint) => {
                            let session = Session {
                                session_id: session_id.clone(),
                                target_id: target_id.clone(),
                                endpoint,
                            };
                            table.join(self.browser.as_str(), session_id, target_id, expires_at);
                            self.phase = LoginPhase::Done;
                            LoginAction::Joined(session)
                        },
                        None => {
                            self.phase = LoginPhase::Orphan;
                            LoginAction::Release { browser_id: self.browser.clone(), target_id }
                        },
                    }
                },
                Err(code) => self.reject(code),
            },
            (LoginPhase::Orphan, LoginEvent::Released { now }) => self.do_miss(table, control, now),
            (LoginPhase::Resolve, LoginEvent::Resolved { found, now }) => match found {
                ResolveOutcome::Failed(code) => self.reject(code),
                ResolveOutcome::Unknown => self.reject(ErrorCode::InvalidCredential),
                ResolveOutcome::Locked => self.reject(ErrorCode::VaultLocked),
                ResolveOutcome::Ready => {
                    control.record_attempt(now);
                    self.phase = LoginPhase::Start;
                    LoginAction::Start
                },
            },
            (
                LoginPhase::Start,
                LoginEvent::Started { result, readable, session_id, browser_id, now, ttl_secs },
            ) => match result {
                Ok((endpoint, target_id)) => {
                    control.record_success();
                    match cdp_port_from_endpoint(endpoint.as_str()) {
                        Some(port) => if readable {
                            let expires_at: u128 = now as u128 + ttl_secs as u128 * 1_000_000_000;
                            let session = Session {
                                session_id: session_id.clone(),
                                target_id: target_id.clone(),
                                endpoint: endpoint.clone(),
                            };
                            table.start(
                                browser_id,
                                self.key.copy(),
                                port,
                                endpoint,
                                self.exclusive,
                                session_id,
                                target_id,
                                expires_at,
                            );
                            self.phase = LoginPhase::Done;
                            LoginAction::Opened(session)
                        } else {
                            self.stop()
                        },
                        None => self.stop(),
                    }
                },
                Err(code) => {
                    control.record_failure(now);
                    self.reject(code)
                },
            },
            _ => self.reject(ErrorCode::Internal),
        }
    }
}

// ---------------------------------------------------------------------------
// Laws
// ---------------------------------------------------------------------------

/// Every step keeps a login well formed.
pub proof fn law_steps_keep_logins_well_formed(
    flow: FlowView,
    table: Seq<crate::sessions::BrowserView>,
    control: crate::sessions::ControlView,
    event: EventView,
)
    requires
        flow.wf(),
    ensures
        flow.step(table, control, event).flow.wf(),
{
}

/// Every login is gated on approval: where approval is needed and was not
/// given, no tab is asked for or handed out, no credential is resolved, and no
/// executor is started.
pub proof fn law_nothing_before_approval(
    flow: FlowView,
    table: Seq<crate::sessions::BrowserView>,
    control: crate::sessions::ControlView,
    event: EventView,
)
    requires
        flow.wf(),
    ensures
        ({
            let next = flow.step(table, control, event);
            next.action is Lease || next.action is Resolve || next.action is Start
                || next.action is Joined || next.action is Opened ==> next.flow.cleared()
        }),
        ({
            let next = flow.step(table, control, event);
            next.flow.approved && !flow.approved ==> (event matches EventView::Approval {
                outcome,
                ..
            } && outcome is Granted)
        }),
{
}

/// No prompt is raised for a credential that its vault does not list, and a
/// human is asked at most once for a login.
pub proof fn law_prompts_are_rare(
    flow: FlowView,
    table: Seq<crate::sessions::BrowserView>,
    control: crate::sessions::ControlView,
    event: EventView,
)
    requires
        flow.wf(),
    ensures
        ({
            let next = flow.step(table, control, event);
            next.action is Approve ==> {
                &&& flow.needs_approval
                &&& !flow.approved
                &&& (event matches EventView::Refs { ids, .. } && ids is Ok
                    && ids->Ok_0.contains(flow.entry_id))
            }
        }),
        flow.approved ==> flow.step(table, control, event).flow.approved,
        !flow.needs_approval ==> !(flow.step(table, control, event).action is Approve
            || flow.step(table, control, event).action is ListRefs
            || flow.step(table, control, event).action is OpenRefs),
{
}

/// A refused login is answered with a code and changes no browser; a login
/// that succeeds adds exactly one lease.
pub proof fn law_a_login_adds_one_lease_or_none(
    flow: FlowView,
    table: Seq<crate::sessions::BrowserView>,
    control: crate::sessions::ControlView,
    event: EventView,
)
    ensures
        ({
            let next = flow.step(table, control, event);
            if next.action is Joined || next.action is Opened {
                crate::sessions::lease_count(next.table) == crate::sessions::lease_count(table) + 1
            } else {
                next.table == table
            }
        }),
{
    let next = flow.step(table, control, event);
    if next.action is Opened {
        assert(next.table.drop_last() =~= table);
    }
    if next.action is Joined {
        crate::sessions::lemma_index_of_id(table, flow.browser);
        let i = crate::sessions::index_of_id(table, flow.browser)->0;
        lemma_count_update(table, i, next.table[i]);
    }
}

proof fn lemma_count_update(
    table: Seq<crate::sessions::BrowserView>,
    i: int,
    browser: crate::sessions::BrowserView,
)
    requires
        0 <= i < table.len(),
    ensures
        crate::sessions::lease_count(table.update(i, browser)) == crate::sessions::lease_count(
            table,
        ) - table[i].leases.len() + browser.leases.len(),
    decreases table.len(),
{
    let updated = table.update(i, browser);
    if i == table.len() - 1 {
        assert(updated.drop_last() =~= table.drop_last());
    } else {
        assert(updated.drop_last() =~= table.drop_last().update(i, browser));
        lemma_count_update(table.drop_last(), i, browser);
    }
}

/// An exclusive login is never lent a tab of a running browser, and any other
/// login only of the browser that is shared under its own key.
pub proof fn law_sharing_stays_within_the_key(
    flow: FlowView,
    table: Seq<crate::sessions::BrowserView>,
    control: crate::sessions::ControlView,
    event: EventView,
)
    requires
        flow.wf(),
    ensures
        ({
            let next = flow.step(table, control, event);
            &&& (next.action matches ActionView::Lease(id) ==> crate::sessions::shared_id(
                table,
                flow.key,
            ) == Some(id) && next.flow.browser == id)
            &&& (flow.exclusive ==> !(next.action is Lease || next.action is Joined))
            &&& next.flow.key == flow.key
            &&& next.flow.exclusive == flow.exclusive
        }),
{
}

/// A browser is only started with the turn held and within the pace of its
/// key: the pace is looked at when the turn comes, before a human is asked and
/// before the credential is resolved, and the start counts before it is tried.
pub proof fn law_starts_are_paced(
    flow: FlowView,
    table: Seq<crate::sessions::BrowserView>,
    control: crate::sessions::ControlView,
    event: EventView,
)
    requires
        flow.wf(),
    ensures
        ({
            let next = flow.step(table, control, event);
            &&& (next.action is Resolve || next.action is Start ==> next.flow.gated)
            &&& ((next.action is ListRefs || next.action is OpenRefs) && !next.flow.joining
                ==> next.flow.gated)
            &&& (next.action is Resolve || (next.action is ListRefs && !next.flow.joining) ==> {
                ||| (event matches EventView::GateHeld { now } && control.admits(now))
                ||| (event matches EventView::Released { now } && control.admits(now))
                ||| (event matches EventView::Approval { now, .. } && control.admits(now))
                ||| (event is Approval && flow.phase is Approval && !flow.joining)
            })
            &&& (next.action is Start ==> (event matches EventView::Resolved { now, .. }
                && next.control == control.attempted(now)))
        }),
{
}

/// A login comes to an end: every step brings it nearer.
pub proof fn law_logins_end(
    flow: FlowView,
    table: Seq<crate::sessions::BrowserView>,
    control: crate::sessions::ControlView,
    event: EventView,
)
    requires
        flow.wf(),
        !(flow.phase is Done),
    ensures
        flow.step(table, control, event).flow.rank() < flow.rank(),
{
}

/// The answer to a login that started a browser names what was handed over:
/// the session, the tab and the endpoint of the one lease of the one browser
/// that was added, which belongs to the principal and the credential of the
/// login and ends when its time is over.
pub proof fn law_opened_answers_name_their_lease(
    flow: FlowView,
    table: Seq<crate::sessions::BrowserView>,
    control: crate::sessions::ControlView,
    event: EventView,
)
    ensures
        ({
            let next = flow.step(table, control, event);
            next.action matches ActionView::Opened { session_id, target_id, endpoint } ==> {
                let browser = next.table.last();
                &&& next.table.len() == table.len() + 1
                &&& next.table.drop_last() == table
                &&& browser.key == flow.key
                &&& browser.exclusive == flow.exclusive
                &&& browser.endpoint == endpoint
                &&& crate::executor::endpoint_port(endpoint) == Some(browser.cdp_port as nat)
                &&& browser.leases.len() == 1
                &&& browser.leases[0].session_id == session_id
                &&& browser.leases[0].target_id == target_id
                &&& browser.leases[0].principal == flow.key.principal
                &&& event matches EventView::Started {
                    result,
                    session_id: chosen,
                    browser_id,
                    now,
                    ttl_secs,
                    ..
                }
                &&& result == Ok::<(Seq<char>, Seq<char>), ErrorCode>((endpoint, target_id))
                &&& session_id == chosen
                &&& browser.id == browser_id
                &&& browser.leases[0].expires_at == now + ttl_secs * 1_000_000_000
            }
        }),
{
    let next = flow.step(table, control, event);
    if next.action is Opened {
        assert(next.table.drop_last() =~= table);
    }
}

/// The answer to a login that was lent a tab of a running browser names what
/// was handed over: the session and the tab of the one lease that was added to
/// the browser it had waited for, and that browser's endpoint. No other
/// browser and no other lease changes.
pub proof fn law_joined_answers_name_their_lease(
    flow: FlowView,
    table: Seq<crate::sessions::BrowserView>,
    control: crate::sessions::ControlView,
    event: EventView,
)
    ensures
        ({
            let next = flow.step(table, control, event);
            next.action matches ActionView::Joined { session_id, target_id, endpoint } ==> exists|
                i: int,
            |
                #![trigger table[i]]
                {
                    &&& 0 <= i < table.len()
                    &&& next.table.len() == table.len()
                    &&& forall|j: int|
                        0 <= j < table.len() && j != i ==> (#[trigger] next.table[j]) == table[j]
                    &&& table[i].id == flow.browser
                    &&& next.table[i].id == flow.browser
                    &&& next.table[i].key == table[i].key
                    &&& next.table[i].cdp_port == table[i].cdp_port
                    &&& next.table[i].exclusive == table[i].exclusive
                    &&& next.table[i].endpoint == table[i].endpoint
                    &&& endpoint == table[i].endpoint
                    &&& next.table[i].leases.len() == table[i].leases.len() + 1
                    &&& next.table[i].leases.drop_last() == table[i].leases
                    &&& next.table[i].leases.last().session_id == session_id
                    &&& next.table[i].leases.last().target_id == target_id
                    &&& next.table[i].leases.last().principal == table[i].key.principal
                    &&& event matches EventView::Leased { target, session_id: chosen, now, ttl_secs }
                    &&& target == Ok::<Seq<char>, ErrorCode>(target_id)
                    &&& session_id == chosen
                    &&& next.table[i].leases.last().expires_at == now + ttl_secs * 1_000_000_000
                }
        }),
{
    let next = flow.step(table, control, event);
    if next.action is Joined {
        crate::sessions::lemma_index_of_id(table, flow.browser);
        let i = crate::sessions::index_of_id(table, flow.browser)->0;
        assert(next.table[i].leases.drop_last() =~= table[i].leases);
        assert(table[i].id == flow.browser);
    }
}

/// A logout with the session that a login answered, by the principal that
/// logged in, undoes the login: the browsers and leases are those from before.
/// Until then a tunnel for the session leads to the browser.
pub proof fn law_logout_undoes_login(
    flow: FlowView,
    table: Seq<crate::sessions::BrowserView>,
    control: crate::sessions::ControlView,
    event: EventView,
    session_id: Seq<char>,
)
    requires
        crate::sessions::table_wf(table),
        !crate::sessions::session_exists(table, session_id),
        forall|i: int|
            0 <= i < table.len() && (#[trigger] table[i]).id == flow.browser ==> table[i].key
                == flow.key,
        ({
            let action = flow.step(table, control, event).action;
            ||| action matches ActionView::Opened { session_id: s, .. } && s == session_id
            ||| action matches ActionView::Joined { session_id: s, .. } && s == session_id
        }),
    ensures
        ({
            let next = flow.step(table, control, event);
            let filter = crate::sessions::FilterView::Session(session_id, flow.key.principal);
            &&& crate::sessions::session_exists(next.table, session_id)
            &&& crate::sessions::port_of(next.table, session_id, flow.key.principal) is Some
            &&& crate::sessions::remaining(next.table, filter) == table
        }),
{
    let next = flow.step(table, control, event);
    let filter = crate::sessions::FilterView::Session(session_id, flow.key.principal);
    assert forall|i: int, j: int|
        0 <= i < table.len() && 0 <= j < table[i].leases.len() implies !filter.takes(
        #[trigger] table[i].leases[j],
    ) by {}
    if next.action is Opened {
        let browser = next.table.last();
        let n = next.table.len() - 1;
        assert(next.table.drop_last() =~= table);
        assert(next.table[n].leases[0].session_id == session_id);
        crate::sessions::lemma_untouched(table, filter);
        assert(browser.leases.drop_last() =~= seq![]);
        assert(crate::sessions::kept_leases(browser.leases, filter) =~= seq![]) by {
            reveal_with_fuel(crate::sessions::kept_leases, 2);
        }
        crate::sessions::lemma_leased_port(next.table, n, 0);
    } else {
        law_joined_answers_name_their_lease(flow, table, control, event);
        crate::sessions::lemma_index_of_id(table, flow.browser);
        let i = crate::sessions::index_of_id(table, flow.browser)->0;
        let j = table[i].leases.len() as int;
        assert(table[i].key == flow.key);
        assert(next.table[i].leases[j].session_id == session_id);
        crate::sessions::lemma_untouched_but_last(table, i, next.table[i].leases[j], filter);
        crate::sessions::lemma_leased_port(next.table, i, j);
    }
}

/// A login for which no browser runs, and no human is asked, takes its turn,
/// resolves the credential, starts a browser and is answered with it.
pub proof fn law_first_logins_open_a_browser(
    flow: FlowView,
    table: Seq<crate::sessions::BrowserView>,
    control: crate::sessions::ControlView,
    now: u64,
    later: u64,
    started: EventView,
)
    requires
        flow.phase is Begin,
        flow.wf(),
        !flow.needs_approval,
        flow.exclusive || forall|i: int|
            0 <= i < table.len() ==> (#[trigger] table[i]).exclusive || table[i].key != flow.key,
        control.admits(now),
        started matches EventView::Started { result: Ok((endpoint, _)), readable, .. } && readable
            && crate::executor::endpoint_port(endpoint) is Some,
    ensures
        ({
            let one = flow.step(table, control, EventView::Begin);
            let two = one.flow.step(one.table, one.control, EventView::GateHeld { now });
            let ready = EventView::Resolved { found: ResolveOutcome::Ready, now: later };
            let three = two.flow.step(two.table, two.control, ready);
            let four = three.flow.step(three.table, three.control, started);
            &&& one.action is TakeGate
            &&& two.action is Resolve
            &&& three.action is Start
            &&& four.action is Opened
            &&& three.table == table
        }),
{
    crate::sessions::lemma_shared_index(table, flow.key);
}

/// Where a human is asked, such a login asks about the credential that it
/// names once the vault lists it, and goes on once the human agrees.
pub proof fn law_first_logins_ask_and_go_on(
    flow: FlowView,
    table: Seq<crate::sessions::BrowserView>,
    control: crate::sessions::ControlView,
    now: u64,
    later: u64,
    ids: Seq<Seq<char>>,
    locked: bool,
)
    requires
        flow.phase is Begin,
        flow.wf(),
        flow.needs_approval,
        !flow.approved,
        flow.exclusive || forall|i: int|
            0 <= i < table.len() ==> (#[trigger] table[i]).exclusive || table[i].key != flow.key,
        control.admits(now),
        ids.contains(flow.entry_id),
    ensures
        ({
            let one = flow.step(table, control, EventView::Begin);
            let two = one.flow.step(one.table, one.control, EventView::GateHeld { now });
            let three = two.flow.step(
                two.table,
                two.control,
                EventView::Refs { ids: Ok(ids), locked },
            );
            let granted = EventView::Approval { outcome: ApprovalOutcome::Granted, now: later };
            let four = three.flow.step(three.table, three.control, granted);
            &&& one.action is TakeGate
            &&& two.action is ListRefs
            &&& three.action is Approve
            &&& four.action is Resolve
            &&& four.table == table
        }),
{
    crate::sessions::lemma_shared_index(table, flow.key);
}

/// A login that may share a running browser of its own principal and
/// credential is lent a tab of the latest of them, without a start; where a
/// human is asked, once the human agrees.
pub proof fn law_later_logins_share_the_browser(
    flow: FlowView,
    table: Seq<crate::sessions::BrowserView>,
    control: crate::sessions::ControlView,
    i: int,
    ids: Seq<Seq<char>>,
    locked: bool,
    now: u64,
    leased: EventView,
)
    requires
        flow.phase is Begin,
        flow.wf(),
        !flow.approved,
        !flow.exclusive,
        0 <= i < table.len(),
        !table[i].exclusive,
        table[i].key == flow.key,
        forall|j: int|
            i < j < table.len() ==> (#[trigger] table[j]).exclusive || table[j].key != flow.key,
        ids.contains(flow.entry_id),
        leased matches EventView::Leased { target, .. } && target is Ok,
    ensures
        ({
            let one = flow.step(table, control, EventView::Begin);
            let two = one.flow.step(
                one.table,
                one.control,
                EventView::Refs { ids: Ok(ids), locked },
            );
            let granted = EventView::Approval { outcome: ApprovalOutcome::Granted, now };
            let three = two.flow.step(two.table, two.control, granted);
            let asked = if flow.needs_approval {
                three
            } else {
                one
            };
            &&& flow.needs_approval ==> one.action is ListRefs && two.action is Approve
            &&& asked.action == ActionView::Lease(table[i].id)
            &&& asked.table == table
            &&& asked.flow.step(asked.table, asked.control, leased).action is Joined
        }),
{
    crate::sessions::lemma_latest_shared(table, flow.key, i);
    crate::sessions::lemma_index_of_id(table, table[i].id);
}

/// What stops a login is what it is answered with: a credential that does not
/// exist, a vault that is locked, a human who refuses or does not answer, and
/// whatever a vault, a browser or an executor reports. Nothing is left behind,
/// and a start that failed counts as one.
pub proof fn law_refusals_say_why(
    flow: FlowView,
    table: Seq<crate::sessions::BrowserView>,
    control: crate::sessions::ControlView,
    event: EventView,
)
    ensures
        ({
            let next = flow.step(table, control, event);
            let refused = |code: ErrorCode|
                next.action == ActionView::Reject(code) && next.flow.phase is Done && next.table
                    == table;
            match (flow.phase, event) {
                (LoginPhase::Resolve, EventView::Resolved { found, .. }) => match found {
                    ResolveOutcome::Failed(code) => refused(code) && next.control == control,
                    ResolveOutcome::Unknown => refused(ErrorCode::InvalidCredential)
                        && next.control == control,
                    ResolveOutcome::Locked => refused(ErrorCode::VaultLocked) && next.control
                        == control,
                    ResolveOutcome::Ready => next.action is Start,
                },
                (LoginPhase::Approval, EventView::Approval { outcome, .. }) => match outcome {
                    ApprovalOutcome::Denied => refused(ErrorCode::ApprovalDenied),
                    ApprovalOutcome::TimedOut => refused(ErrorCode::ApprovalTimeout),
                    ApprovalOutcome::Failed => refused(ErrorCode::Internal),
                    ApprovalOutcome::Granted => next.flow.approved,
                },
                (LoginPhase::Refs, EventView::Refs { ids: Err(code), .. }) => refused(code),
                (LoginPhase::Unlock, EventView::Refs { ids: Err(code), .. }) => refused(code),
                (LoginPhase::Unlock, EventView::Refs { ids: Ok(ids), .. }) => !ids.contains(
                    flow.entry_id,
                ) ==> refused(ErrorCode::InvalidCredential),
                (LoginPhase::Lease, EventView::Leased { target: Err(code), .. }) => refused(code),
                (LoginPhase::Gate, EventView::GateHeld { now }) => flow.exclusive
                    && !control.admits(now) ==> refused(ErrorCode::RateLimited),
                (LoginPhase::Start, EventView::Started { result, readable, now, .. }) =>
                    match result {
                    Err(code) => refused(code) && next.control.consecutive_failures > 0
                        && next.control.retry_at is Some,
                    Ok((endpoint, _)) => {
                        &&& next.control.consecutive_failures == 0
                        &&& next.control.retry_at is None
                        &&& !readable || crate::executor::endpoint_port(endpoint) is None
                            ==> next.action == ActionView::StopAndReject(ErrorCode::Internal)
                            && next.table == table
                    },
                },
                _ => true,
            }
        }),
{
    crate::sessions::lemma_shared_index(table, flow.key);
}

} // verus!
