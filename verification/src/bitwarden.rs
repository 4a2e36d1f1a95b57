//! A vault behind the Bitwarden command line client.
//!
//! Every access needs a session of the client. Opening one takes a number of
//! commands and a password; [`BitwardenCliProvider::step`] decides which comes
//! next.

use vstd::prelude::*;
use vstd::string::*;

use crate::command::{args1, args2, args3, CommandLine};
use crate::credential::{CredentialRef, ResolvedCredential, VaultTimer};
use crate::error::ErrorCode;
use crate::secret::Secret;
use crate::text::{
    copy_list, decode_text, list_has, same_text, text_lines, text_trim, text_trim_end, CharClass,
};

verus! {

// ---------------------------------------------------------------------------
// Items
// ---------------------------------------------------------------------------

/// An item of the vault.
pub struct BitwardenItem {
    pub id: String,
    pub name: String,
    pub login: Option<BitwardenLogin>,
}

/// The login of an item.
pub struct BitwardenLogin {
    pub uris: Vec<Option<String>>,
    pub username: Option<String>,
    pub password: Option<String>,
    pub totp: Option<String>,
}

/// An item, by the views of its parts.
#[verifier::ext_equal]
pub struct ItemView {
    pub id: Seq<char>,
    pub name: Seq<char>,
    pub login: Option<LoginView>,
}

/// A login, by the views of its parts.
#[verifier::ext_equal]
pub struct LoginView {
    pub uris: Seq<Option<Seq<char>>>,
    pub username: Option<Seq<char>>,
    pub password: Option<Seq<char>>,
    pub totp: Option<Seq<char>>,
}

impl View for BitwardenLogin {
    type V = LoginView;

    open spec fn view(&self) -> LoginView {
        LoginView {
            uris: self.uris@.map_values(|u: Option<String>| crate::text::opt_text(u)),
            username: crate::text::opt_text(self.username),
            password: crate::text::opt_text(self.password),
            totp: crate::text::opt_text(self.totp),
        }
    }
}

impl View for BitwardenItem {
    type V = ItemView;

    open spec fn view(&self) -> ItemView {
        ItemView {
            id: self.id@,
            name: self.name@,
            login: match self.login {
                Some(l) => Some(l@),
                None => None,
            },
        }
    }
}

/// Items, by their views.
pub open spec fn item_views(items: Seq<BitwardenItem>) -> Seq<ItemView> {
    items.map_values(|i: BitwardenItem| i@)
}

/// The first address of a login, or none.
pub open spec fn first_uri(login: LoginView) -> Seq<char> {
    if login.uris.len() > 0 {
        match login.uris[0] {
            Some(uri) => uri,
            None => seq![],
        }
    } else {
        seq![]
    }
}

/// How items are listed: those with a login, by id and name, with their first
/// address.
pub open spec fn item_refs(items: Seq<ItemView>) -> Seq<crate::credential::RefView>
    decreases items.len(),
{
    if items.len() == 0 {
        seq![]
    } else {
        let rest = item_refs(items.drop_last());
        match items.last().login {
            Some(login) => rest.push(
                crate::credential::RefView {
                    id: items.last().id,
                    name: items.last().name,
                    uri: Some(first_uri(login)),
                    kind: Some("login"@),
                },
            ),
            None => rest,
        }
    }
}

/// What is remembered of items: those with a login, by id and name.
pub open spec fn item_names(items: Seq<ItemView>) -> Seq<(Seq<char>, Seq<char>)>
    decreases items.len(),
{
    if items.len() == 0 {
        seq![]
    } else {
        let rest = item_names(items.drop_last());
        if items.last().login is Some {
            rest.push((items.last().id, items.last().name))
        } else {
            rest
        }
    }
}

// ---------------------------------------------------------------------------
// Commands
// ---------------------------------------------------------------------------

/// One run of the client.
pub struct BwRun {
    pub args: Vec<String>,
    /// The session is handed to the client.
    pub with_session: bool,
    /// The password is handed to the client.
    pub with_password: bool,
}

/// A run, by the views of its parts.
#[verifier::ext_equal]
pub struct RunView {
    pub args: Seq<Seq<char>>,
    pub with_session: bool,
    pub with_password: bool,
}

impl View for BwRun {
    type V = RunView;

    open spec fn view(&self) -> RunView {
        RunView {
            args: crate::text::texts(self.args@),
            with_session: self.with_session,
            with_password: self.with_password,
        }
    }
}

impl RunView {
    /// What a run is called where it is reported: neither the account nor the
    /// item is named.
    pub open spec fn operation(self) -> Seq<char> {
        if self.with_password {
            "login or unlock"@
        } else if self.args.len() == 0 {
            ""@
        } else if self.args[0] == "login"@ {
            "login check"@
        } else if self.args[0] == "config"@ {
            "config server"@
        } else if self.args[0] == "list"@ {
            "list items"@
        } else if self.args[0] == "get"@ {
            "get item"@
        } else {
            self.args[0]
        }
    }
}

impl BwRun {
    /// What the run is called where it is reported.
    pub fn operation(&self) -> (r: String)
        ensures
            r@ == self@.operation(),
    {
        if self.with_password {
            return "login or unlock".to_owned();
        }
        if self.args.len() == 0 {
            return "".to_owned();
        }
        assert(self@.args[0] == self.args@[0]@);
        let first = self.args[0].as_str();
        if same_text(first, "login") {
            "login check".to_owned()
        } else if same_text(first, "config") {
            "config server".to_owned()
        } else if same_text(first, "list") {
            "list items".to_owned()
        } else if same_text(first, "get") {
            "get item".to_owned()
        } else {
            first.to_owned()
        }
    }
}

pub open spec fn plain(args: Seq<Seq<char>>) -> RunView {
    RunView { args, with_session: false, with_password: false }
}

pub open spec fn in_session(args: Seq<Seq<char>>) -> RunView {
    RunView { args, with_session: true, with_password: false }
}

pub open spec fn with_password(args: Seq<Seq<char>>) -> RunView {
    RunView { args, with_session: false, with_password: true }
}

fn plain_run(args: Vec<String>) -> (r: BwRun)
    ensures
        r@ == plain(crate::text::texts(args@)),
{
    BwRun { args, with_session: false, with_password: false }
}

fn session_run(args: Vec<String>) -> (r: BwRun)
    ensures
        r@ == in_session(crate::text::texts(args@)),
{
    BwRun { args, with_session: true, with_password: false }
}

fn password_run(args: Vec<String>) -> (r: BwRun)
    ensures
        r@ == with_password(crate::text::texts(args@)),
{
    BwRun { args, with_session: false, with_password: true }
}

/// What came back from a run of the client.
pub enum BwReply {
    /// It could not be run, failed, or did not end in time.
    Failed,
    /// What it printed.
    Output(Vec<u8>),
    /// The status that it printed.
    Status(String),
}

// ---------------------------------------------------------------------------
// Opening a session
// ---------------------------------------------------------------------------

/// What the opening of a session waits for.
#[derive(Clone, Copy, Debug, PartialEq, Eq, Structural)]
pub enum BwPhase {
    /// Nothing.
    Idle,
    /// The lock of a session whose time is over.
    ExpiryLock,
    /// The password.
    Password,
    /// The server that the client is configured for.
    ReadServer,
    /// Whether the client is logged in at another server.
    CheckOld,
    /// The logout from that server.
    LogoutOld,
    /// The change of the server.
    Configure,
    /// Whether the client is logged in.
    CheckLogin,
    /// The session.
    Enter,
    /// Whether the session is unlocked.
    Verify,
    /// The synchronisation.
    Sync,
    /// The logout after a failed synchronisation.
    LogoutFailed,
}

/// What happened while the opening waited.
pub enum BwEvent {
    Begin { now: u64 },
    Password(Result<Secret, ErrorCode>),
    Ran { reply: BwReply, now: u64 },
}

/// What is done next.
pub enum BwAction {
    /// Ask for the password.
    AskPassword,
    /// Run the client.
    Run(BwRun),
    /// The session is open, or it could not be opened.
    Finished(Result<(), ErrorCode>),
}

/// An event, by the views of its parts.
pub enum BwEventView {
    Begin { now: u64 },
    Password(Result<Seq<char>, ErrorCode>),
    Ran { reply: BwReplyView, now: u64 },
}

/// A reply, by the views of its parts.
pub enum BwReplyView {
    Failed,
    Output(Seq<u8>),
    Status(Seq<char>),
}

/// An action, by the views of its parts.
pub enum BwActionView {
    AskPassword,
    Run(RunView),
    Finished(Result<(), ErrorCode>),
}

impl View for BwReply {
    type V = BwReplyView;

    open spec fn view(&self) -> BwReplyView {
        match *self {
            BwReply::Failed => BwReplyView::Failed,
            BwReply::Output(b) => BwReplyView::Output(b@),
            BwReply::Status(status) => BwReplyView::Status(status@),
        }
    }
}

impl View for BwEvent {
    type V = BwEventView;

    open spec fn view(&self) -> BwEventView {
        match *self {
            BwEvent::Begin { now } => BwEventView::Begin { now },
            BwEvent::Password(p) => BwEventView::Password(
                match p {
                    Ok(s) => Ok(s@),
                    Err(e) => Err(e),
                },
            ),
            BwEvent::Ran { reply, now } => BwEventView::Ran { reply: reply@, now },
        }
    }
}

impl View for BwAction {
    type V = BwActionView;

    open spec fn view(&self) -> BwActionView {
        match *self {
            BwAction::AskPassword => BwActionView::AskPassword,
            BwAction::Run(r) => BwActionView::Run(r@),
            BwAction::Finished(r) => BwActionView::Finished(r),
        }
    }
}

/// The first line of an output, where it is text and not empty.
pub open spec fn first_line(output: Seq<u8>) -> Option<Seq<char>> {
    match crate::text::decoded(output) {
        Some(text) => {
            let lines = crate::text::lines(text);
            if lines.len() == 0 {
                None
            } else {
                let line = crate::text::trim_end(lines[0], CharClass::One('\r'));
                if line.len() == 0 {
                    None
                } else {
                    Some(line)
                }
            }
        },
        None => None,
    }
}

/// The text of an output, without white space around it.
pub open spec fn trimmed_output(reply: BwReplyView) -> Option<Seq<char>> {
    match reply {
        BwReplyView::Output(output) => match crate::text::decoded(output) {
            Some(text) => Some(crate::text::trim(text)),
            None => None,
        },
        _ => None,
    }
}

/// The first line of an output, where it is text and not empty: a password
/// from the password command, or a session from the client.
pub fn output_line(output: Vec<u8>) -> (r: Option<String>)
    ensures
        crate::text::opt_text(r) == first_line(output@),
{
    match decode_text(output) {
        Ok(text) => {
            let lines = text_lines(text.as_str());
            assert(crate::text::lines(text@).len() == lines@.len());
            if lines.len() == 0 {
                return None;
            }
            assert(crate::text::lines(text@)[0] == lines@[0]@);
            let line = text_trim_end(lines[0].as_str(), CharClass::One('\r'));
            if line.as_str().is_empty() {
                None
            } else {
                Some(line)
            }
        },
        Err(_) => None,
    }
}

/// The password that the password command printed, where it succeeded.
pub fn askpass_outcome(success: bool, output: Vec<u8>) -> (r: Result<Secret, ErrorCode>)
    ensures
        match first_line(output@) {
            Some(line) => if success {
                r matches Ok(s) && s@ == line
            } else {
                r matches Err(code) && code is Internal
            },
            None => r matches Err(code) && code is Internal,
        },
{
    if !success {
        return Err(ErrorCode::Internal);
    }
    match output_line(output) {
        Some(line) => Ok(Secret::new(line)),
        None => Err(ErrorCode::Internal),
    }
}

/// A vault behind the client.
pub struct BitwardenCliProvider {
    server_url: String,
    email: String,
    askpass_cmd: String,
    appdata_dir: String,
    bw_path: Option<String>,
    totp_exposable: Vec<String>,
    session: Option<Secret>,
    timer: VaultTimer,
    catalog: Vec<(String, String)>,
    phase: BwPhase,
    password: Option<Secret>,
    retried: bool,
}

/// A vault, by the views of its parts.
#[verifier::ext_equal]
pub struct BwView {
    pub server_url: Seq<char>,
    pub email: Seq<char>,
    pub askpass_cmd: Seq<char>,
    pub appdata_dir: Seq<char>,
    pub bw_path: Option<Seq<char>>,
    pub totp_exposable: Seq<Seq<char>>,
    pub session: Option<Seq<char>>,
    pub timer: VaultTimer,
    pub catalog: Seq<(Seq<char>, Seq<char>)>,
    pub phase: BwPhase,
    pub password: Option<Seq<char>>,
    pub retried: bool,
}

/// Names of items, by their views.
pub open spec fn name_views(names: Seq<(String, String)>) -> Seq<(Seq<char>, Seq<char>)> {
    names.map_values(|n: (String, String)| (n.0@, n.1@))
}

impl View for BitwardenCliProvider {
    type V = BwView;

    closed spec fn view(&self) -> BwView {
        BwView {
            server_url: self.server_url@,
            email: self.email@,
            askpass_cmd: self.askpass_cmd@,
            appdata_dir: self.appdata_dir@,
            bw_path: crate::text::opt_text(self.bw_path),
            totp_exposable: crate::text::texts(self.totp_exposable@),
            session: crate::credential::opt_secret(self.session),
            timer: self.timer,
            catalog: name_views(self.catalog@),
            phase: self.phase,
            password: crate::credential::opt_secret(self.password),
            retried: self.retried,
        }
    }
}

impl BwView {
    pub open spec fn at(self, phase: BwPhase) -> BwView {
        BwView { phase, ..self }
    }

    /// The opening is over; the password is forgotten.
    pub open spec fn finished(self, result: Result<(), ErrorCode>) -> (BwView, BwActionView) {
        (
            BwView { phase: BwPhase::Idle, password: None, retried: false, ..self },
            BwActionView::Finished(result),
        )
    }

    /// There is no session.
    pub open spec fn without_session(self) -> BwView {
        BwView {
            session: None,
            timer: VaultTimer { unlocked_at: None, ..self.timer },
            ..self
        }
    }

    pub open spec fn run(self, phase: BwPhase, run: RunView) -> (BwView, BwActionView) {
        (self.at(phase), BwActionView::Run(run))
    }

    /// The command that logs in with the account.
    pub open spec fn login_run(self) -> RunView {
        with_password(seq!["login"@, self.email, "--raw"@])
    }

    /// What follows an event.
    pub open spec fn step(self, event: BwEventView) -> (BwView, BwActionView) {
        match (self.phase, event) {
            (BwPhase::Idle, BwEventView::Begin { now }) => if self.session is Some
                && self.timer.unlocked_at is Some {
                if self.timer.running(now) {
                    self.finished(Ok(()))
                } else {
                    self.run(BwPhase::ExpiryLock, in_session(seq!["lock"@]))
                }
            } else {
                (self.at(BwPhase::Password), BwActionView::AskPassword)
            },
            (BwPhase::ExpiryLock, BwEventView::Ran { .. }) => (
                BwView { session: None, timer: self.timer.autolocked(), ..self }.at(
                    BwPhase::Password,
                ),
                BwActionView::AskPassword,
            ),
            (BwPhase::Password, BwEventView::Password(result)) => match result {
                Err(code) => self.finished(Err(code)),
                Ok(password) => {
                    let known = BwView { password: Some(password), ..self };
                    if self.retried {
                        known.run(BwPhase::Enter, self.login_run())
                    } else {
                        known.run(BwPhase::ReadServer, plain(seq!["config"@, "server"@]))
                    }
                },
            },
            (BwPhase::ReadServer, BwEventView::Ran { reply, .. }) => if trimmed_output(reply)
                == Some(self.server_url) {
                self.run(BwPhase::CheckLogin, plain(seq!["login"@, "--check"@]))
            } else {
                self.run(BwPhase::CheckOld, plain(seq!["login"@, "--check"@]))
            },
            (BwPhase::CheckOld, BwEventView::Ran { reply, .. }) => if reply is Failed {
                self.run(BwPhase::Configure, plain(seq!["config"@, "server"@, self.server_url]))
            } else {
                self.run(BwPhase::LogoutOld, plain(seq!["logout"@]))
            },
            (BwPhase::LogoutOld, BwEventView::Ran { .. }) => self.run(
                BwPhase::Configure,
                plain(seq!["config"@, "server"@, self.server_url]),
            ),
            (BwPhase::Configure, BwEventView::Ran { reply, .. }) => if reply is Failed {
                self.finished(Err(ErrorCode::Internal))
            } else {
                self.run(BwPhase::CheckLogin, plain(seq!["login"@, "--check"@]))
            },
            (BwPhase::CheckLogin, BwEventView::Ran { reply, .. }) => if reply is Failed {
                self.run(BwPhase::Enter, self.login_run())
            } else {
                self.run(BwPhase::Enter, with_password(seq!["unlock"@, "--raw"@]))
            },
            (BwPhase::Enter, BwEventView::Ran { reply, .. }) => match reply {
                BwReplyView::Output(output) => match first_line(output) {
                    Some(session) => BwView { session: Some(session), ..self }.run(
                        BwPhase::Verify,
                        in_session(seq!["status"@]),
                    ),
                    None => self.finished(Err(ErrorCode::Internal)),
                },
                _ => self.finished(Err(ErrorCode::Internal)),
            },
            (BwPhase::Verify, BwEventView::Ran { reply, .. }) => match reply {
                BwReplyView::Status(status) => if status == "unlocked"@ {
                    BwView { password: None, ..self }.run(
                        BwPhase::Sync,
                        in_session(seq!["sync"@]),
                    )
                } else {
                    self.without_session().finished(Err(ErrorCode::Internal))
                },
                _ => self.without_session().finished(Err(ErrorCode::Internal)),
            },
            (BwPhase::Sync, BwEventView::Ran { reply, now }) => if !(reply is Failed) {
                BwView { timer: self.timer.opened(now), ..self }.finished(Ok(()))
            } else if self.retried {
                self.without_session().finished(Err(ErrorCode::Internal))
            } else {
                self.without_session().run(BwPhase::LogoutFailed, plain(seq!["logout"@]))
            },
            (BwPhase::LogoutFailed, BwEventView::Ran { .. }) => (
                BwView { retried: true, ..self }.at(BwPhase::Password),
                BwActionView::AskPassword,
            ),
            _ => self.without_session().finished(Err(ErrorCode::Internal)),
        }
    }

    /// Between two openings there is a session exactly while the vault is
    /// open, and no password is kept; during an opening there is a session
    /// only from where it was handed out.
    pub open spec fn wf(self) -> bool {
        &&& (self.phase is Idle ==> (self.session is Some <==> self.timer.unlocked_at is Some)
            && self.password is None && !self.retried)
        &&& (self.phase is ExpiryLock ==> self.session is Some && self.password is None
            && !self.retried)
        &&& (self.phase is Password || self.phase is ReadServer || self.phase is CheckOld
            || self.phase is LogoutOld || self.phase is Configure || self.phase is CheckLogin
            || self.phase is Enter || self.phase is LogoutFailed ==> self.session is None
            && self.timer.unlocked_at is None)
        &&& (self.phase is Verify || self.phase is Sync ==> self.session is Some
            && self.timer.unlocked_at is None)
        &&& (self.phase is Enter ==> self.password is Some)
        &&& (self.phase is ReadServer || self.phase is CheckOld || self.phase is LogoutOld
            || self.phase is Configure || self.phase is CheckLogin ==> self.password is Some
            && !self.retried)
        &&& (self.phase is LogoutFailed ==> !self.retried && self.password is None)
        &&& (self.phase is Sync ==> self.password is None)
    }

    /// How far an opening is from its end.
    pub open spec fn rank(self) -> nat {
        let rest: nat = match self.phase {
            BwPhase::Idle => 0,
            BwPhase::ExpiryLock => 12,
            BwPhase::Password => 11,
            BwPhase::ReadServer => 10,
            BwPhase::CheckOld => 9,
            BwPhase::LogoutOld => 8,
            BwPhase::Configure => 7,
            BwPhase::CheckLogin => 6,
            BwPhase::Enter => 5,
            BwPhase::Verify => 4,
            BwPhase::Sync => 3,
            BwPhase::LogoutFailed => 2,
        };
        if self.retried || self.phase is Idle {
            rest
        } else {
            rest + 20
        }
    }

    /// The command line of a run: neither the session nor the password stands
    /// among the arguments, both are handed over as variables.
    pub open spec fn command(self, run: RunView) -> crate::command::CommandView {
        let dirs = seq![
            ("BW_APPDATA_DIR"@, self.appdata_dir),
            ("BITWARDENCLI_APPDATA_DIR"@, self.appdata_dir),
        ];
        let session = match self.session {
            Some(s) => if run.with_session {
                seq![("BW_SESSION"@, s)]
            } else {
                seq![]
            },
            None => seq![],
        };
        let password = match self.password {
            Some(p) => if run.with_password {
                seq![("BW_PASSWORD"@, p)]
            } else {
                seq![]
            },
            None => seq![],
        };
        crate::command::CommandView {
            program: match self.bw_path {
                Some(path) => path,
                None => "bw"@,
            },
            args: if password.len() > 0 {
                run.args.push("--passwordenv"@).push("BW_PASSWORD"@)
            } else {
                run.args
            },
            env: dirs + session + password,
            cleared: seq!["BW_PASSWORD"@, "BW_SESSION"@],
        }
    }

    /// The vault after a session was locked, whether or not that succeeded.
    pub open spec fn lock_done(self, ok: bool) -> BwView {
        let dropped = self.without_session();
        if ok {
            BwView { timer: VaultTimer { locked: true, ..dropped.timer }, ..dropped }
        } else {
            dropped
        }
    }

    /// The vault after its time was found to be over.
    pub open spec fn expired(self) -> BwView {
        BwView { session: None, timer: self.timer.autolocked(), ..self }
    }
}

impl BitwardenCliProvider {
    pub fn new(
        server_url: String,
        email: String,
        askpass_cmd: String,
        appdata_dir: String,
        bw_path: Option<String>,
        totp_exposable: Vec<String>,
        ttl_secs: u64,
    ) -> (r: BitwardenCliProvider)
        ensures
            r@ == (BwView {
                server_url: server_url@,
                email: email@,
                askpass_cmd: askpass_cmd@,
                appdata_dir: appdata_dir@,
                bw_path: crate::text::opt_text(bw_path),
                totp_exposable: crate::text::texts(totp_exposable@),
                session: None,
                timer: VaultTimer {
                    ttl_secs,
                    unlocked_at: None,
                    locked: false,
                    autolock_event_pending: false,
                },
                catalog: seq![],
                phase: BwPhase::Idle,
                password: None,
                retried: false,
            }),
            r@.wf(),
    {
        let r = BitwardenCliProvider {
            server_url,
            email,
            askpass_cmd,
            appdata_dir,
            bw_path,
            totp_exposable,
            session: None,
            timer: VaultTimer::new(ttl_secs, false),
            catalog: Vec::new(),
            phase: BwPhase::Idle,
            password: None,
            retried: false,
        };
        assert(r@.catalog =~= seq![]);
        r
    }

    /// The directory in which the client keeps its state.
    pub fn appdata_dir(&self) -> (r: &str)
        ensures
            r@ == self@.appdata_dir,
    {
        self.appdata_dir.as_str()
    }

    fn finish(&mut self, result: Result<(), ErrorCode>) -> (action: BwAction)
        ensures
            (final(self)@, action@) == old(self)@.finished(result),
    {
        self.phase = BwPhase::Idle;
        self.password = None;
        self.retried = false;
        BwAction::Finished(result)
    }

    fn drop_session(&mut self)
        ensures
            final(self)@ == old(self)@.without_session(),
    {
        self.session = None;
        self.timer.unlocked_at = None;
    }

    fn enter_with_login(&mut self) -> (action: BwAction)
        ensures
            (final(self)@, action@) == old(self)@.run(BwPhase::Enter, old(self)@.login_run()),
    {
        self.phase = BwPhase::Enter;
        BwAction::Run(password_run(args3("login", self.email.as_str(), "--raw")))
    }

    fn configure(&mut self) -> (action: BwAction)
        ensures
            (final(self)@, action@) == old(self)@.run(
                BwPhase::Configure,
                plain(seq!["config"@, "server"@, old(self)@.server_url]),
            ),
    {
        self.phase = BwPhase::Configure;
        BwAction::Run(plain_run(args3("config", "server", self.server_url.as_str())))
    }

    fn on_reply(&mut self, reply: BwReply, now: u64) -> (action: BwAction)
        ensures
            (final(self)@, action@) == old(self)@.step(BwEventView::Ran { reply: reply@, now }),
    {
        let failed = matches!(reply, BwReply::Failed);
        match self.phase {
            BwPhase::ExpiryLock => {
                self.session = None;
                self.timer.autolock();
                self.phase = BwPhase::Password;
                BwAction::AskPassword
            },
            BwPhase::ReadServer => {
                let same = match reply {
                    BwReply::Output(output) => match decode_text(output) {
                        Ok(text) => {
                            let current = text_trim(text.as_str());
                            same_text(current.as_str(), self.server_url.as_str())
                        },
                        Err(_) => false,
                    },
                    _ => false,
                };
                if same {
                    self.phase = BwPhase::CheckLogin;
                } else {
                    self.phase = BwPhase::CheckOld;
                }
                BwAction::Run(plain_run(args2("login", "--check")))
            },
            BwPhase::CheckOld => {
                if failed {
                    self.configure()
                } else {
                    self.phase = BwPhase::LogoutOld;
                    BwAction::Run(plain_run(args1("logout")))
                }
            },
            BwPhase::LogoutOld => self.configure(),
            BwPhase::Configure => {
                if failed {
                    self.finish(Err(ErrorCode::Internal))
                } else {
                    self.phase = BwPhase::CheckLogin;
                    BwAction::Run(plain_run(args2("login", "--check")))
                }
            },
            BwPhase::CheckLogin => {
                if failed {
                    self.enter_with_login()
                } else {
                    self.phase = BwPhase::Enter;
                    BwAction::Run(password_run(args2("unlock", "--raw")))
                }
            },
            BwPhase::Enter => match reply {
                BwReply::Output(output) => match output_line(output) {
                    Some(session) => {
                        self.session = Some(Secret::new(session));
                        self.phase = BwPhase::Verify;
                        BwAction::Run(session_run(args1("status")))
                    },
                    None => self.finish(Err(ErrorCode::Internal)),
                },
                _ => self.finish(Err(ErrorCode::Internal)),
            },
            BwPhase::Verify => match reply {
                BwReply::Status(status) => {
                    if same_text(status.as_str(), "unlocked") {
                        self.password = None;
                        self.phase = BwPhase::Sync;
                        BwAction::Run(session_run(args1("sync")))
                    } else {
                        self.drop_session();
                        self.finish(Err(ErrorCode::Internal))
                    }
                },
                _ => {
                    self.drop_session();
                    self.finish(Err(ErrorCode::Internal))
                },
            },
            BwPhase::Sync => {
                if !failed {
                    self.timer.open(now);
                    self.finish(Ok(()))
                } else if self.retried {
                    self.drop_session();
                    self.finish(Err(ErrorCode::Internal))
                } else {
                    self.drop_session();
                    self.phase = BwPhase::LogoutFailed;
                    BwAction::Run(plain_run(args1("logout")))
                }
            },
            BwPhase::LogoutFailed => {
                self.retried = true;
                self.phase = BwPhase::Password;
                BwAction::AskPassword
            },
            _ => {
                self.drop_session();
                self.finish(Err(ErrorCode::Internal))
            },
        }
    }

    /// Decides what comes next in the opening of a session.
    pub fn step(&mut self, event: BwEvent) -> (action: BwAction)
        requires
            old(self)@.wf(),
        ensures
            (final(self)@, action@) == old(self)@.step(event@),
            final(self)@.wf(),
    {
        match (self.phase, event) {
            (BwPhase::Idle, BwEvent::Begin { now }) => {
                if self.session.is_some() && self.timer.unlocked_at.is_some() {
                    if self.timer.is_running(now) {
                        self.finish(Ok(()))
                    } else {
                        self.phase = BwPhase::ExpiryLock;
                        BwAction::Run(session_run(args1("lock")))
                    }
                } else {
                    self.phase = BwPhase::Password;
                    BwAction::AskPassword
                }
            },
            (BwPhase::Password, BwEvent::Password(result)) => match result {
                Err(code) => self.finish(Err(code)),
                Ok(password) => {
                    self.password = Some(password);
                    if self.retried {
                        self.enter_with_login()
                    } else {
                        self.phase = BwPhase::ReadServer;
                        BwAction::Run(plain_run(args2("config", "server")))
                    }
                },
            },
            (_, BwEvent::Ran { reply, now }) => self.on_reply(reply, now),
            _ => {
                self.drop_session();
                self.finish(Err(ErrorCode::Internal))
            },
        }
    }

    /// The command line of a run.
    pub fn command(&self, run: &BwRun) -> (r: CommandLine)
        ensures
            r@ == self@.command(run@),
    {
        let program = match &self.bw_path {
            Some(path) => path.clone(),
            None => "bw".to_owned(),
        };
        let mut args = copy_list(&run.args);
        let mut env = self.appdata_env();
        let ghost dirs = crate::command::env_views(env@);
        match &self.session {
            Some(session) => {
                if run.with_session {
                    env.push(("BW_SESSION".to_owned(), session.as_str().to_owned()));
                }
            },
            None => {},
        }
        match &self.password {
            Some(password) => {
                if run.with_password {
                    args.push("--passwordenv".to_owned());
                    args.push("BW_PASSWORD".to_owned());
                    env.push(("BW_PASSWORD".to_owned(), password.as_str().to_owned()));
                }
            },
            None => {},
        }
        let r = CommandLine { program, args, env, cleared: args2("BW_PASSWORD", "BW_SESSION") };
        proof {
            let want = self@.command(run@);
            assert(r@.args =~= want.args);
            assert(r@.env =~= want.env);
            assert(r@ =~= want);
        }
        r
    }

    fn appdata_env(&self) -> (r: Vec<(String, String)>)
        ensures
            crate::command::env_views(r@) == seq![
                ("BW_APPDATA_DIR"@, self@.appdata_dir),
                ("BITWARDENCLI_APPDATA_DIR"@, self@.appdata_dir),
            ],
    {
        let mut env: Vec<(String, String)> = Vec::new();
        env.push(("BW_APPDATA_DIR".to_owned(), self.appdata_dir.clone()));
        env.push(("BITWARDENCLI_APPDATA_DIR".to_owned(), self.appdata_dir.clone()));
        assert(crate::command::env_views(env@) =~= seq![
            ("BW_APPDATA_DIR"@, self@.appdata_dir),
            ("BITWARDENCLI_APPDATA_DIR"@, self@.appdata_dir),
        ]);
        env
    }

    /// The command that asks for the password.
    pub fn askpass_command(&self) -> (r: CommandLine)
        ensures
            r@ == (crate::command::CommandView {
                program: "sh"@,
                args: seq!["-c"@, self@.askpass_cmd],
                env: seq![
                    ("BW_APPDATA_DIR"@, self@.appdata_dir),
                    ("BITWARDENCLI_APPDATA_DIR"@, self@.appdata_dir),
                ],
                cleared: seq!["BW_PASSWORD"@, "BW_SESSION"@],
            }),
    {
        CommandLine {
            program: "sh".to_owned(),
            args: args2("-c", self.askpass_cmd.as_str()),
            env: self.appdata_env(),
            cleared: args2("BW_PASSWORD", "BW_SESSION"),
        }
    }

    /// The run that lists all items.
    pub fn list_run(&self) -> (r: BwRun)
        ensures
            r@ == in_session(seq!["list"@, "items"@]),
    {
        session_run(args2("list", "items"))
    }

    /// The run that reads an item.
    pub fn get_run(&self, item_id: &str) -> (r: BwRun)
        ensures
            r@ == in_session(seq!["get"@, "item"@, item_id@]),
    {
        session_run(args3("get", "item", item_id))
    }

    /// The run that locks the session, where there is one.
    pub fn lock_run(&self) -> (r: Option<BwRun>)
        ensures
            match r {
                Some(run) => self@.session is Some && run@ == in_session(seq!["lock"@]),
                None => self@.session is None,
            },
    {
        if self.session.is_some() {
            Some(session_run(args1("lock")))
        } else {
            None
        }
    }

    /// What a locked vault lists: what is known from before.
    pub fn locked_refs(&self) -> (r: Option<Vec<CredentialRef>>)
        ensures
            match r {
                Some(refs) => self@.timer.locked && crate::credential::ref_views(refs@)
                    == hidden_names(self@.catalog),
                None => !self@.timer.locked,
            },
    {
        if !self.timer.locked {
            return None;
        }
        let ghost all = hidden_names(self@.catalog);
        let mut refs: Vec<CredentialRef> = Vec::new();
        let mut i: usize = 0;
        assert(crate::credential::ref_views(refs@) =~= all.take(0));
        while i < self.catalog.len()
            invariant
                i <= self.catalog@.len(),
                self@.catalog == name_views(self.catalog@),
                all == hidden_names(self@.catalog),
                crate::credential::ref_views(refs@) == all.take(i as int),
            decreases self.catalog@.len() - i,
        {
            let ghost before = refs@;
            let r = CredentialRef {
                id: self.catalog[i].0.clone(),
                name: self.catalog[i].1.clone(),
                uri: None,
                kind: None,
            };
            refs.push(r);
            proof {
                assert(self@.catalog[i as int] == (
                    self.catalog@[i as int].0@,
                    self.catalog@[i as int].1@,
                ));
                assert(r@ == all[i as int]);
                assert(crate::credential::ref_views(refs@) =~= crate::credential::ref_views(
                    before,
                ).push(r@));
                assert(all.take(i + 1) =~= all.take(i as int).push(all[i as int]));
            }
            i += 1;
        }
        assert(all.take(i as int) =~= all);
        Some(refs)
    }

    /// Lists the items that the client printed, and remembers them.
    pub fn list_refs(&mut self, items: Option<Vec<BitwardenItem>>) -> (r: Result<
        Vec<CredentialRef>,
        ErrorCode,
    >)
        ensures
            match items {
                Some(list) => {
                    &&& r matches Ok(refs)
                    &&& crate::credential::ref_views(refs@) == item_refs(item_views(list@))
                    &&& final(self)@ == (BwView {
                        catalog: item_names(item_views(list@)),
                        ..old(self)@
                    })
                },
                None => r matches Err(code) && code is Internal && final(self)@ == old(self)@,
            },
    {
        match items {
            Some(list) => {
                let refs = refs_of(&list);
                self.catalog = names_of(&list);
                Ok(refs)
            },
            None => Err(ErrorCode::Internal),
        }
    }

    /// The values of the item that the client printed. An item that cannot be
    /// read, or has no login, is no credential.
    pub fn resolve(&mut self, item: Option<BitwardenItem>) -> (r: Result<
        ResolvedCredential,
        ErrorCode,
    >)
        ensures
            match item {
                Some(i) => match i@.login {
                    Some(login) => {
                        &&& r matches Ok(c)
                        &&& c@ == (crate::credential::CredentialView {
                            locked: old(self)@.timer.locked,
                            secrets_preregistered: false,
                            username: crate::rpc::or_empty(login.username),
                            password: crate::rpc::or_empty(login.password),
                            totp_seed: login.totp,
                            totp_exposable: old(self)@.totp_exposable.contains(i@.name),
                        })
                        &&& final(self)@ == (BwView {
                            catalog: with_name(old(self)@.catalog, i@.id, i@.name),
                            ..old(self)@
                        })
                    },
                    None => r matches Err(code) && code is InvalidCredential && final(self)@
                        == old(self)@,
                },
                None => r matches Err(code) && code is InvalidCredential && final(self)@
                    == old(self)@,
            },
    {
        match item {
            Some(item) => {
                let BitwardenItem { id, name, login } = item;
                match login {
                    Some(login) => {
                        let exposable = list_has(&self.totp_exposable, name.as_str());
                        self.remember(id, name);
                        let BitwardenLogin { uris: _, username, password, totp } = login;
                        let seed = match totp {
                            Some(text) => Some(Secret::new(text)),
                            None => None,
                        };
                        Ok(
                            ResolvedCredential {
                                locked: self.timer.locked,
                                secrets_preregistered: false,
                                username: Secret::new(unwrap_text(username)),
                                password: Secret::new(unwrap_text(password)),
                                totp_seed: seed,
                                totp_exposable: exposable,
                            },
                        )
                    },
                    None => Err(ErrorCode::InvalidCredential),
                }
            },
            None => Err(ErrorCode::InvalidCredential),
        }
    }

    fn remember(&mut self, id: String, name: String)
        ensures
            final(self)@ == (BwView {
                catalog: with_name(old(self)@.catalog, id@, name@),
                ..old(self)@
            }),
    {
        let ghost before = self@;
        let mut known = false;
        let mut i: usize = 0;
        while i < self.catalog.len()
            invariant
                i <= self.catalog@.len(),
                self@ == before,
                before.catalog == name_views(self.catalog@),
                known == knows(before.catalog.take(i as int), id@),
            decreases self.catalog@.len() - i,
        {
            proof {
                assert(before.catalog.take(i + 1).drop_last() =~= before.catalog.take(i as int));
                assert(before.catalog.take(i + 1).last().0 == self.catalog@[i as int].0@);
            }
            if same_text(self.catalog[i].0.as_str(), id.as_str()) {
                known = true;
            }
            i += 1;
        }
        assert(before.catalog.take(i as int) =~= before.catalog);
        if !known {
            let ghost pair = (id@, name@);
            self.catalog.push((id, name));
            assert(self@.catalog =~= before.catalog.push(pair));
        }
    }

    /// Forgets the session after it was locked, whether or not that
    /// succeeded.
    pub fn finish_lock(&mut self, ok: bool) -> (r: Result<(), ErrorCode>)
        requires
            old(self)@.wf(),
            old(self)@.phase is Idle,
        ensures
            final(self)@ == old(self)@.lock_done(ok),
            final(self)@.wf(),
            ok ==> r is Ok,
            !ok ==> (r matches Err(code) && code is Internal),
    {
        self.drop_session();
        if ok {
            self.timer.locked = true;
            Ok(())
        } else {
            Err(ErrorCode::Internal)
        }
    }

    /// Tells whether the time of an open session is over.
    pub fn is_due(&self, now: u64) -> (r: bool)
        ensures
            r == self@.timer.due(now),
    {
        self.timer.is_due(now)
    }

    /// Forgets the session whose time is over.
    pub fn finish_expiry(&mut self)
        requires
            old(self)@.wf(),
            old(self)@.phase is Idle,
        ensures
            final(self)@ == old(self)@.expired(),
            final(self)@.wf(),
    {
        self.session = None;
        self.timer.autolock();
    }

    /// Tells whether the vault is locked.
    pub fn locked(&self) -> (r: bool)
        ensures
            r == self@.timer.locked,
    {
        self.timer.locked
    }

    /// Tells, once, that the vault was closed because its time was over.
    pub fn take_autolock_event(&mut self) -> (r: bool)
        requires
            old(self)@.wf(),
        ensures
            r == old(self)@.timer.autolock_event_pending,
            final(self)@ == (BwView {
                timer: VaultTimer { autolock_event_pending: false, ..old(self)@.timer },
                ..old(self)@
            }),
            final(self)@.wf(),
    {
        self.timer.take_autolock_event()
    }
}

/// What is remembered of items, without addresses and kinds.
pub open spec fn hidden_names(names: Seq<(Seq<char>, Seq<char>)>) -> Seq<
    crate::credential::RefView,
> {
    names.map_values(
        |n: (Seq<char>, Seq<char>)|
            crate::credential::RefView { id: n.0, name: n.1, uri: None, kind: None },
    )
}

/// An id is remembered.
pub open spec fn knows(names: Seq<(Seq<char>, Seq<char>)>, id: Seq<char>) -> bool
    decreases names.len(),
{
    if names.len() == 0 {
        false
    } else {
        knows(names.drop_last(), id) || names.last().0 == id
    }
}

/// What is remembered once an item was read.
pub open spec fn with_name(
    names: Seq<(Seq<char>, Seq<char>)>,
    id: Seq<char>,
    name: Seq<char>,
) -> Seq<(Seq<char>, Seq<char>)> {
    if knows(names, id) {
        names
    } else {
        names.push((id, name))
    }
}

fn unwrap_text(s: Option<String>) -> (r: String)
    ensures
        r@ == crate::rpc::or_empty(crate::text::opt_text(s)),
{
    match s {
        Some(t) => t,
        None => {
            let empty = String::new();
            assert(empty@ =~= seq![]);
            empty
        },
    }
}

fn login_uri(login: &BitwardenLogin) -> (r: String)
    ensures
        r@ == first_uri(login@),
{
    assert(login@.uris.len() == login.uris@.len());
    let mut uri = String::new();
    assert(uri@ =~= seq![]);
    if login.uris.len() > 0 {
        assert(login@.uris[0] == crate::text::opt_text(login.uris@[0]));
        match &login.uris[0] {
            Some(text) => {
                uri = text.clone();
            },
            None => {},
        }
    }
    uri
}

fn refs_of(items: &Vec<BitwardenItem>) -> (refs: Vec<CredentialRef>)
    ensures
        crate::credential::ref_views(refs@) == item_refs(item_views(items@)),
{
    let ghost all = item_views(items@);
    let mut refs: Vec<CredentialRef> = Vec::new();
    let mut i: usize = 0;
    assert(crate::credential::ref_views(refs@) =~= item_refs(all.take(0)));
    while i < items.len()
        invariant
            i <= items@.len(),
            all == item_views(items@),
            crate::credential::ref_views(refs@) == item_refs(all.take(i as int)),
        decreases items@.len() - i,
    {
        let ghost before = refs@;
        proof {
            assert(all.take(i + 1).drop_last() =~= all.take(i as int));
            assert(all.take(i + 1).last() == items@[i as int]@);
        }
        match &items[i].login {
            Some(login) => {
                let r = CredentialRef {
                    id: items[i].id.clone(),
                    name: items[i].name.clone(),
                    uri: Some(login_uri(login)),
                    kind: Some("login".to_owned()),
                };
                refs.push(r);
                assert(crate::credential::ref_views(refs@) =~= crate::credential::ref_views(
                    before,
                ).push(r@));
            },
            None => {},
        }
        i += 1;
    }
    assert(all.take(i as int) =~= all);
    refs
}

fn names_of(items: &Vec<BitwardenItem>) -> (names: Vec<(String, String)>)
    ensures
        name_views(names@) == item_names(item_views(items@)),
{
    let ghost all = item_views(items@);
    let mut names: Vec<(String, String)> = Vec::new();
    let mut i: usize = 0;
    assert(name_views(names@) =~= item_names(all.take(0)));
    while i < items.len()
        invariant
            i <= items@.len(),
            all == item_views(items@),
            name_views(names@) == item_names(all.take(i as int)),
        decreases items@.len() - i,
    {
        let ghost before = names@;
        proof {
            assert(all.take(i + 1).drop_last() =~= all.take(i as int));
            assert(all.take(i + 1).last() == items@[i as int]@);
        }
        if items[i].login.is_some() {
            names.push((items[i].id.clone(), items[i].name.clone()));
            assert(name_views(names@) =~= name_views(before).push(
                (items@[i as int].id@, items@[i as int].name@),
            ));
        }
        i += 1;
    }
    assert(all.take(i as int) =~= all);
    names
}

// ---------------------------------------------------------------------------
// Laws
// ---------------------------------------------------------------------------

/// An opening that succeeds leaves a session that was seen to be unlocked and
/// was synchronised, and one that fails leaves none. Neither leaves the
/// password in memory.
pub proof fn law_openings_end_clean(vault: BwView, event: BwEventView)
    requires
        vault.wf(),
    ensures
        ({
            let (next, action) = vault.step(event);
            match action {
                BwActionView::Finished(Ok(())) => next.session is Some
                    && next.timer.unlocked_at is Some && next.password is None && next.phase
                    is Idle,
                BwActionView::Finished(Err(_)) => next.session is None
                    && next.timer.unlocked_at is None && next.password is None && next.phase
                    is Idle,
                _ => true,
            }
        }),
        ({
            let (next, _) = vault.step(event);
            next.phase is Sync ==> vault.phase is Verify
        }),
{
}

/// Every step keeps the vault well formed.
pub proof fn law_steps_keep_the_vault_well_formed(vault: BwView, event: BwEventView)
    requires
        vault.wf(),
    ensures
        vault.step(event).0.wf(),
{
}

/// An opening comes to an end: every step brings it nearer, and the password
/// is asked for at most twice.
pub proof fn law_openings_end(vault: BwView, event: BwEventView)
    requires
        vault.wf(),
        !(vault.phase is Idle),
    ensures
        vault.step(event).0.rank() < vault.rank(),
        vault.retried ==> !(vault.step(event).1 is AskPassword),
{
}

/// A run of an opening never has the session or the password among its
/// arguments.
pub proof fn law_secrets_stay_out_of_arguments(vault: BwView, run: RunView, i: int)
    requires
        0 <= i < vault.command(run).args.len(),
    ensures
        run.args.contains(vault.command(run).args[i]) || vault.command(run).args[i]
            == "--passwordenv"@ || vault.command(run).args[i] == "BW_PASSWORD"@,
{
    let args = vault.command(run).args;
    if i < run.args.len() {
        assert(args[i] == run.args[i]);
    }
}

/// The client is known to be at a server: it was before, it says so when it is
/// asked for its server, or it was told to change to the server and did. A new
/// opening knows nothing.
pub open spec fn server_confirmed(
    server_url: Seq<char>,
    known: bool,
    action: BwActionView,
    event: BwEventView,
) -> bool {
    match event {
        BwEventView::Begin { .. } => false,
        BwEventView::Password(_) => known,
        BwEventView::Ran { reply, .. } => {
            ||| known
            ||| (action matches BwActionView::Run(run) && run.args == seq!["config"@, "server"@]
                && (reply matches BwReplyView::Output(printed) && vstd::utf8::valid_utf8(printed)
                && crate::text::trim(vstd::utf8::decode_utf8(printed)) == server_url))
            ||| (action matches BwActionView::Run(run) && run.args == seq![
                "config"@,
                "server"@,
                server_url,
            ] && !(reply is Failed))
        },
    }
}

/// Whatever happens, no run hands the password over before the client is known
/// to be at the server of the vault.
pub open spec fn password_guarded(
    vault: BwView,
    action: BwActionView,
    known: bool,
    events: Seq<BwEventView>,
) -> bool
    decreases events.len(),
{
    if events.len() == 0 {
        true
    } else {
        let confirmed = server_confirmed(vault.server_url, known, action, events[0]);
        let (next, following) = vault.step(events[0]);
        &&& (following matches BwActionView::Run(run) && run.with_password ==> confirmed)
        &&& next.server_url == vault.server_url
        &&& password_guarded(next, following, confirmed, events.drop_first())
    }
}

/// The password is handed to the client only once the client is known to be at
/// the server of the vault: in every opening it either said so, or was told to
/// change to that server and did.
pub proof fn law_passwords_go_to_the_configured_server(vault: BwView, events: Seq<BwEventView>)
    requires
        vault.wf(),
        vault.phase is Idle,
    ensures
        password_guarded(vault, BwActionView::AskPassword, false, events),
{
    lemma_password_guarded(vault, BwActionView::AskPassword, false, events);
}

proof fn lemma_password_guarded(
    vault: BwView,
    action: BwActionView,
    known: bool,
    events: Seq<BwEventView>,
)
    requires
        vault.phase is ReadServer ==> action == BwActionView::Run(
            plain(seq!["config"@, "server"@]),
        ),
        vault.phase is Configure ==> action == BwActionView::Run(
            plain(seq!["config"@, "server"@, vault.server_url]),
        ),
        vault.phase is CheckLogin || vault.phase is Enter || vault.phase is Verify
            || vault.phase is Sync || vault.phase is LogoutFailed ==> known,
        vault.phase is Password && vault.retried ==> known,
        vault.phase is Idle || vault.phase is ExpiryLock ==> !vault.retried,
    ensures
        password_guarded(vault, action, known, events),
    decreases events.len(),
{
    if events.len() > 0 {
        let confirmed = server_confirmed(vault.server_url, known, action, events[0]);
        let (next, following) = vault.step(events[0]);
        lemma_password_guarded(next, following, confirmed, events.drop_first());
    }
}

/// The state of a client: the server it is at, and the account that is logged
/// in there.
#[verifier::ext_equal]
pub struct Client {
    pub server: Seq<char>,
    pub account: Option<Seq<char>>,
}

/// How a client answers while everything works: the password is the right one
/// or it is not, and a session is handed out as one line.
pub struct Surroundings {
    pub password: Result<Seq<char>, ErrorCode>,
    pub right: bool,
    pub session: Seq<char>,
    pub now: u64,
}

/// What a working client does. It refuses to change its server while an account
/// is logged in, logs an account in where none is, and unlocks where one is.
pub open spec fn worked(client: Client, around: Surroundings, run: RunView) -> (
    Client,
    BwReplyView,
) {
    let a = run.args;
    let done = BwReplyView::Output(seq![]);
    let line = BwReplyView::Output(vstd::utf8::encode_utf8(around.session));
    if a.len() == 2 && a[0] == "config"@ && a[1] == "server"@ {
        (client, BwReplyView::Output(vstd::utf8::encode_utf8(client.server)))
    } else if a.len() == 3 && a[0] == "config"@ && a[1] == "server"@ {
        if client.account is Some {
            (client, BwReplyView::Failed)
        } else {
            (Client { server: a[2], ..client }, done)
        }
    } else if a.len() == 2 && a[0] == "login"@ && a[1] == "--check"@ {
        (
            client,
            if client.account is Some {
                done
            } else {
                BwReplyView::Failed
            },
        )
    } else if a.len() == 1 && a[0] == "logout"@ {
        (Client { account: None, ..client }, done)
    } else if a.len() == 3 && a[0] == "login"@ && a[2] == "--raw"@ && run.with_password {
        if client.account is None && around.right {
            (Client { account: Some(a[1]), ..client }, line)
        } else {
            (client, BwReplyView::Failed)
        }
    } else if a.len() == 2 && a[0] == "unlock"@ && a[1] == "--raw"@ && run.with_password {
        if client.account is Some && around.right {
            (client, line)
        } else {
            (client, BwReplyView::Failed)
        }
    } else if a.len() == 1 && a[0] == "status"@ && run.with_session {
        (client, BwReplyView::Status("unlocked"@))
    } else if a.len() == 1 && a[0] == "sync"@ && run.with_session {
        (client, done)
    } else {
        (client, BwReplyView::Failed)
    }
}

/// An opening with a working client, for a number of steps.
pub open spec fn opening(
    vault: BwView,
    client: Client,
    around: Surroundings,
    action: BwActionView,
    steps: nat,
) -> (BwView, Client, BwActionView)
    decreases steps,
{
    if steps == 0 {
        (vault, client, action)
    } else {
        match action {
            BwActionView::Finished(_) => (vault, client, action),
            BwActionView::AskPassword => {
                let (next, following) = vault.step(BwEventView::Password(around.password));
                opening(next, client, around, following, (steps - 1) as nat)
            },
            BwActionView::Run(run) => {
                let (changed, reply) = worked(client, around, run);
                let (next, following) = vault.step(BwEventView::Ran { reply, now: around.now });
                opening(next, changed, around, following, (steps - 1) as nat)
            },
        }
    }
}

/// With a working client, a vault that has no session is opened whatever server
/// the client was at and whoever was logged in there: it ends at the server of
/// the vault, with an account logged in (that of the vault, unless one was
/// logged in at that server already), and with the session that was handed
/// out. With a wrong password, or none, there is no session.
pub proof fn law_vaults_open(vault: BwView, client: Client, around: Surroundings, begun_at: u64)
    requires
        vault.wf(),
        vault.phase is Idle,
        vault.session is None,
        crate::text::trim(client.server) == client.server,
        around.session.len() > 0,
        !around.session.contains('\n'),
        !around.session.contains('\r'),
    ensures
        ({
            let (started, first) = vault.step(BwEventView::Begin { now: begun_at });
            let (after, changed, last) = opening(started, client, around, first, 12);
            match around.password {
                Err(code) => last == BwActionView::Finished(Err(code)) && after.session is None
                    && changed == client,
                Ok(_) => {
                    &&& changed.server == vault.server_url
                    &&& if around.right {
                        &&& last == BwActionView::Finished(Ok(()))
                        &&& after.session == Some(around.session)
                        &&& after.timer.unlocked_at == Some(around.now)
                        &&& !after.timer.locked
                        &&& changed.account == (if client.server == vault.server_url
                            && client.account is Some {
                            client.account
                        } else {
                            Some(vault.email)
                        })
                    } else {
                        &&& last == BwActionView::Finished(Err(ErrorCode::Internal))
                        &&& after.session is None
                    }
                },
            }
        }),
{
    vstd::utf8::encode_utf8_decode_utf8(client.server);
    vstd::utf8::encode_utf8_valid_utf8(client.server);
    let (v1, a1) = vault.step(BwEventView::Begin { now: begun_at });
    let (v2, a2) = v1.step(BwEventView::Password(around.password));
    assert(opening(v1, client, around, a1, 12) == opening(v2, client, around, a2, 11));
    if around.password is Ok {
        lemma_commands_differ();
        let read = plain(seq!["config"@, "server"@]);
        let check = plain(seq!["login"@, "--check"@]);
        let change = plain(seq!["config"@, "server"@, vault.server_url]);
        assert(a2 == BwActionView::Run(read));
        let (c3, r3) = worked(client, around, read);
        let (v3, a3) = v2.step(BwEventView::Ran { reply: r3, now: around.now });
        assert(c3 == client);
        assert(opening(v2, client, around, a2, 11) == opening(v3, client, around, a3, 10));
        assert(a3 == BwActionView::Run(check));
        if client.server == vault.server_url {
            assert(v3.phase is CheckLogin);
            lemma_logged_in(v3, client, around, 10);
        } else {
            assert(v3.phase is CheckOld);
            let (c4, r4) = worked(client, around, check);
            let (v4, a4) = v3.step(BwEventView::Ran { reply: r4, now: around.now });
            assert(c4 == client);
            assert(opening(v3, client, around, a3, 10) == opening(v4, client, around, a4, 9));
            if client.account is Some {
                let leave = plain(seq!["logout"@]);
                assert(a4 == BwActionView::Run(leave));
                let (c5, r5) = worked(client, around, leave);
                let (v5, a5) = v4.step(BwEventView::Ran { reply: r5, now: around.now });
                assert(opening(v4, client, around, a4, 9) == opening(v5, c5, around, a5, 8));
                lemma_configured(v5, c5, around, 8);
            } else {
                lemma_configured(v4, client, around, 9);
            }
        }
    }
}

/// The commands of an opening are told apart.
proof fn lemma_commands_differ()
    ensures
        "config"@ != "login"@,
        "config"@ != "logout"@,
        "config"@ != "unlock"@,
        "config"@ != "status"@,
        "config"@ != "sync"@,
        "login"@ != "logout"@,
        "login"@ != "unlock"@,
        "login"@ != "status"@,
        "login"@ != "sync"@,
        "logout"@ != "status"@,
        "logout"@ != "sync"@,
        "status"@ != "sync"@,
        "unlock"@ != "status"@,
        "--check"@ != "--raw"@,
        "--check"@ != "server"@,
        "--raw"@ != "server"@,
{
    reveal_strlit("config");
    reveal_strlit("login");
    reveal_strlit("logout");
    reveal_strlit("unlock");
    reveal_strlit("status");
    reveal_strlit("sync");
    reveal_strlit("server");
    reveal_strlit("--check");
    reveal_strlit("--raw");
    assert("config"@[0] == 'c' && "logout"@[0] == 'l' && "unlock"@[0] == 'u' && "status"@[0]
        == 's');
    assert("config"@.len() == 6 && "login"@.len() == 5 && "sync"@.len() == 4);
    assert("--check"@.len() == 7 && "--raw"@.len() == 5 && "server"@.len() == 6);
}

/// A client where nobody is logged in changes to the server of the vault.
proof fn lemma_configured(vault: BwView, client: Client, around: Surroundings, steps: nat)
    requires
        vault.wf(),
        vault.phase is Configure,
        client.account is None,
        around.session.len() > 0,
        !around.session.contains('\n'),
        !around.session.contains('\r'),
        steps >= 6,
    ensures
        ({
            let change = plain(seq!["config"@, "server"@, vault.server_url]);
            let (after, changed, last) = opening(
                vault,
                client,
                around,
                BwActionView::Run(change),
                steps,
            );
            &&& changed.server == vault.server_url
            &&& if around.right {
                &&& last == BwActionView::Finished(Ok(()))
                &&& after.session == Some(around.session)
                &&& after.timer.unlocked_at == Some(around.now)
                &&& !after.timer.locked
                &&& changed.account == Some(vault.email)
            } else {
                &&& last == BwActionView::Finished(Err(ErrorCode::Internal))
                &&& after.session is None
            }
        }),
{
    lemma_commands_differ();
    let change = plain(seq!["config"@, "server"@, vault.server_url]);
    let (c1, r1) = worked(client, around, change);
    let (v1, a1) = vault.step(BwEventView::Ran { reply: r1, now: around.now });
    assert(c1 == (Client { server: vault.server_url, ..client }));
    assert(opening(vault, client, around, BwActionView::Run(change), steps) == opening(
        v1,
        c1,
        around,
        a1,
        (steps - 1) as nat,
    ));
    lemma_logged_in(v1, c1, around, (steps - 1) as nat);
}

/// A client at the server of the vault hands a session out.
proof fn lemma_logged_in(vault: BwView, client: Client, around: Surroundings, steps: nat)
    requires
        vault.wf(),
        vault.phase is CheckLogin,
        around.session.len() > 0,
        !around.session.contains('\n'),
        !around.session.contains('\r'),
        steps >= 5,
    ensures
        ({
            let check = plain(seq!["login"@, "--check"@]);
            let (after, changed, last) = opening(
                vault,
                client,
                around,
                BwActionView::Run(check),
                steps,
            );
            &&& changed.server == client.server
            &&& if around.right {
                &&& last == BwActionView::Finished(Ok(()))
                &&& after.session == Some(around.session)
                &&& after.timer.unlocked_at == Some(around.now)
                &&& !after.timer.locked
                &&& changed.account == (if client.account is Some {
                    client.account
                } else {
                    Some(vault.email)
                })
            } else {
                &&& last == BwActionView::Finished(Err(ErrorCode::Internal))
                &&& after.session is None
            }
        }),
{
    lemma_commands_differ();
    lemma_one_line_output(around.session);
    let check = plain(seq!["login"@, "--check"@]);
    let (c1, r1) = worked(client, around, check);
    let (v1, a1) = vault.step(BwEventView::Ran { reply: r1, now: around.now });
    assert(c1 == client);
    let n1 = (steps - 1) as nat;
    assert(opening(vault, client, around, BwActionView::Run(check), steps) == opening(
        v1,
        client,
        around,
        a1,
        n1,
    ));
    let enter = if client.account is Some {
        with_password(seq!["unlock"@, "--raw"@])
    } else {
        with_password(seq!["login"@, vault.email, "--raw"@])
    };
    assert(a1 == BwActionView::Run(enter));
    let (c2, r2) = worked(client, around, enter);
    let (v2, a2) = v1.step(BwEventView::Ran { reply: r2, now: around.now });
    let n2 = (steps - 2) as nat;
    assert(opening(v1, client, around, a1, n1) == opening(v2, c2, around, a2, n2));
    if around.right {
        let status = in_session(seq!["status"@]);
        assert(a2 == BwActionView::Run(status));
        let (c3, r3) = worked(c2, around, status);
        let (v3, a3) = v2.step(BwEventView::Ran { reply: r3, now: around.now });
        assert(c3 == c2);
        let n3 = (steps - 3) as nat;
        assert(opening(v2, c2, around, a2, n2) == opening(v3, c2, around, a3, n3));
        let sync = in_session(seq!["sync"@]);
        assert(a3 == BwActionView::Run(sync));
        let (c4, r4) = worked(c2, around, sync);
        let (v4, a4) = v3.step(BwEventView::Ran { reply: r4, now: around.now });
        assert(c4 == c2);
        assert(opening(v3, c2, around, a3, n3) == opening(v4, c2, around, a4, (n3 - 1) as nat));
    }
}

/// A single line is read as it was written.
proof fn lemma_one_line_output(line: Seq<char>)
    requires
        line.len() > 0,
        !line.contains('\n'),
        !line.contains('\r'),
    ensures
        first_line(vstd::utf8::encode_utf8(line)) == Some(line),
{
    vstd::utf8::encode_utf8_decode_utf8(line);
    vstd::utf8::encode_utf8_valid_utf8(line);
    crate::text::lemma_split_first(line, '\n');
    assert(line.contains(line.last()));
}

/// What a program prints on one line is read as that line, with or without a
/// line end behind it, and nothing is read where it prints nothing.
pub proof fn law_first_lines_are_read(line: Seq<char>, rest: Seq<char>)
    requires
        line.len() > 0,
        !line.contains('\n'),
        !line.contains('\r'),
    ensures
        first_line(vstd::utf8::encode_utf8(line)) == Some(line),
        first_line(vstd::utf8::encode_utf8(line.push('\n') + rest)) == Some(line),
        first_line(vstd::utf8::encode_utf8(line.push('\r').push('\n') + rest)) == Some(line),
        first_line(seq![]) is None,
{
    lemma_one_line_output(line);
    let feed = line.push('\n') + rest;
    vstd::utf8::encode_utf8_decode_utf8(feed);
    vstd::utf8::encode_utf8_valid_utf8(feed);
    crate::text::lemma_split_first_unique(line, '\n', rest);
    assert(line.contains(line.last()));
    let returned = line.push('\r');
    let both = returned.push('\n') + rest;
    vstd::utf8::encode_utf8_decode_utf8(both);
    vstd::utf8::encode_utf8_valid_utf8(both);
    assert(!returned.contains('\n')) by {
        if returned.contains('\n') {
            let i = choose|i: int| 0 <= i < returned.len() && returned[i] == '\n';
            assert(line[i] == '\n');
        }
    }
    crate::text::lemma_split_first_unique(returned, '\n', rest);
    assert(returned.drop_last() =~= line);
    let none = Seq::<char>::empty();
    vstd::utf8::encode_utf8_decode_utf8(none);
    vstd::utf8::encode_utf8_valid_utf8(none);
    assert(vstd::utf8::encode_utf8(none) =~= seq![]);
}

/// An open session is used as it is while its time runs, without a command and
/// without the password. Once its time is over it is locked first, the end is
/// announced, and the password is asked for again.
pub proof fn law_sessions_last_for_their_time(vault: BwView, at: u64, now: u64, reply: BwReplyView)
    requires
        vault.wf(),
        vault.phase is Idle,
        vault.session is Some,
        vault.timer.unlocked_at == Some(at),
        at <= now,
    ensures
        ({
            let (next, action) = vault.step(BwEventView::Begin { now });
            let (closed, following) = next.step(BwEventView::Ran { reply, now });
            if now - at < vault.timer.ttl_secs * 1_000_000_000 {
                action == BwActionView::Finished(Ok(())) && next == vault
            } else {
                &&& action matches BwActionView::Run(run)
                &&& run.args == seq!["lock"@]
                &&& run.with_session
                &&& !run.with_password
                &&& following is AskPassword
                &&& closed.session is None
                &&& closed.timer.locked
                &&& closed.timer.autolock_event_pending
            }
        }),
{
    let (next, _) = vault.step(BwEventView::Begin { now });
    if now - at < vault.timer.ttl_secs * 1_000_000_000 {
        assert(next =~= vault);
    }
}

/// A session that is not unlocked is not used: an opening goes on only where
/// the client says that the session is unlocked, and a synchronisation that
/// fails is tried once more with a new login, for which the password is asked
/// again.
pub proof fn law_sessions_are_verified_and_synchronised(vault: BwView, reply: BwReplyView, now: u64)
    ensures
        ({
            let (next, action) = vault.step(BwEventView::Ran { reply, now });
            &&& vault.phase is Verify ==> if reply == BwReplyView::Status("unlocked"@) {
                action == BwActionView::Run(
                    (RunView { args: seq!["sync"@], with_session: true, with_password: false }),
                ) && next.session
                    == vault.session && next.password is None
            } else {
                action == BwActionView::Finished(Err(ErrorCode::Internal)) && next.session is None
            }
            &&& vault.phase is Sync && reply is Failed ==> next.session is None && if vault.retried {
                action == BwActionView::Finished(Err(ErrorCode::Internal))
            } else {
                let (again, asked) = next.step(BwEventView::Ran { reply, now });
                &&& action == BwActionView::Run(
                    (RunView { args: seq!["logout"@], with_session: false, with_password: false }),
                )
                &&& asked is AskPassword
                &&& forall|p: Seq<char>|
                    #![trigger again.step(BwEventView::Password(Ok(p)))]
                    again.step(BwEventView::Password(Ok(p))).1 == BwActionView::Run(
                        (RunView {
                            args: seq!["login"@, vault.email, "--raw"@],
                            with_session: false,
                            with_password: true,
                        }),
                    )
            }
            &&& vault.phase is Sync && !(reply is Failed) ==> action == BwActionView::Finished(Ok(()))
                && next.session == vault.session && next.timer.unlocked_at == Some(now)
                && !next.timer.locked
        }),
{
}

proof fn lemma_item_is_listed(items: Seq<ItemView>, i: int)
    requires
        0 <= i < items.len(),
    ensures
        items[i].login matches Some(login) ==> item_refs(items).contains(
            crate::credential::RefView {
                id: items[i].id,
                name: items[i].name,
                uri: Some(first_uri(login)),
                kind: Some("login"@),
            },
        ) && item_names(items).contains((items[i].id, items[i].name)),
        item_refs(items).len() == item_names(items).len(),
        item_refs(items).len() <= items.len(),
    decreases items.len(),
{
    let refs = item_refs(items);
    let names = item_names(items);
    let rest = items.drop_last();
    if rest.len() > 0 {
        lemma_item_is_listed(
            rest,
            if i < rest.len() {
                i
            } else {
                0
            },
        );
    } else {
        assert(item_refs(rest).len() == 0 && item_names(rest).len() == 0);
    }
    if items[i].login is Some {
        let wanted = crate::credential::RefView {
            id: items[i].id,
            name: items[i].name,
            uri: Some(first_uri(items[i].login->0)),
            kind: Some("login"@),
        };
        if i == items.len() - 1 {
            assert(refs[refs.len() - 1] == wanted);
            assert(names[names.len() - 1] == (items[i].id, items[i].name));
        } else {
            let before = item_refs(rest);
            let k = choose|k: int| 0 <= k < before.len() && before[k] == wanted;
            assert(refs[k] == wanted);
            let known = item_names(rest);
            let m = choose|m: int| 0 <= m < known.len() && known[m] == (items[i].id, items[i].name);
            assert(names[m] == (items[i].id, items[i].name));
        }
    }
}

proof fn lemma_listed_is_item(items: Seq<ItemView>, k: int)
    requires
        0 <= k < item_refs(items).len(),
    ensures
        exists|i: int|
            0 <= i < items.len() && (#[trigger] items[i]).login is Some && item_refs(items)[k].id
                == items[i].id && item_refs(items)[k].name == items[i].name,
    decreases items.len(),
{
    let rest = items.drop_last();
    let n = items.len() - 1;
    if k < item_refs(rest).len() {
        lemma_listed_is_item(rest, k);
        let i = choose|i: int|
            0 <= i < rest.len() && (#[trigger] rest[i]).login is Some && item_refs(rest)[k].id
                == rest[i].id && item_refs(rest)[k].name == rest[i].name;
        assert(items[i] == rest[i]);
    } else {
        assert(items[n] == items.last());
    }
}

/// Every item with a login is listed, under its own id and name and with its
/// first address, and nothing else is. What was listed is remembered by id and
/// name.
pub proof fn law_items_with_a_login_are_listed(
    vault: &mut BitwardenCliProvider,
    items: Vec<BitwardenItem>,
    answer: Result<Vec<CredentialRef>, ErrorCode>,
    i: int,
    k: int,
)
    requires
        call_ensures(BitwardenCliProvider::list_refs, (vault, Some(items)), answer),
        0 <= i < items@.len(),
    ensures
        answer is Ok,
        answer->Ok_0@.len() <= items@.len(),
        final(vault)@.catalog.len() == answer->Ok_0@.len(),
        items@[i].login matches Some(login) ==> (exists|n: int|
            {
                &&& 0 <= n < answer->Ok_0@.len()
                &&& (#[trigger] answer->Ok_0@[n]).id@ == items@[i].id@
                &&& answer->Ok_0@[n].name@ == items@[i].name@
                &&& answer->Ok_0@[n].kind is Some
                &&& answer->Ok_0@[n].kind->0@ == "login"@
                &&& answer->Ok_0@[n].uri is Some
                &&& answer->Ok_0@[n].uri->0@ == (if login.uris@.len() > 0 && login.uris@[0]
                    is Some {
                    login.uris@[0]->0@
                } else {
                    seq![]
                })
            }) && final(vault)@.catalog.contains((items@[i].id@, items@[i].name@)),
        0 <= k < answer->Ok_0@.len() ==> exists|n: int|
            0 <= n < items@.len() && (#[trigger] items@[n]).login is Some && items@[n].id@
                == answer->Ok_0@[k].id@ && items@[n].name@ == answer->Ok_0@[k].name@,
{
    let views = item_views(items@);
    let refs = answer->Ok_0@;
    let listed = crate::credential::ref_views(refs);
    assert(listed.len() == refs.len());
    assert(views[i] == items@[i]@);
    lemma_item_is_listed(views, i);
    if items@[i].login is Some {
        let login = items@[i].login->0;
        let wanted = crate::credential::RefView {
            id: items@[i].id@,
            name: items@[i].name@,
            uri: Some(first_uri(login@)),
            kind: Some("login"@),
        };
        assert(login@.uris.len() == login.uris@.len());
        if login.uris@.len() > 0 {
            assert(login@.uris[0] == crate::text::opt_text(login.uris@[0]));
        }
        let n = choose|n: int| 0 <= n < listed.len() && listed[n] == wanted;
        assert(listed[n] == refs[n]@);
        assert(refs[n].id@ == items@[i].id@);
    }
    if 0 <= k < refs.len() {
        lemma_listed_is_item(views, k);
        let n = choose|n: int|
            0 <= n < views.len() && (#[trigger] views[n]).login is Some && item_refs(views)[k].id
                == views[n].id && item_refs(views)[k].name == views[n].name;
        assert(views[n] == items@[n]@);
        assert(listed[k] == refs[k]@);
        assert(items@[n].login is Some);
    }
}

/// While the vault is locked, what it listed before is still listed, by id and
/// name alone.
pub proof fn law_locked_vaults_list_names(
    vault: &BitwardenCliProvider,
    listed: Option<Vec<CredentialRef>>,
    i: int,
)
    requires
        call_ensures(BitwardenCliProvider::locked_refs, (vault,), listed),
        0 <= i < vault@.catalog.len(),
    ensures
        listed is Some <==> vault@.timer.locked,
        listed matches Some(refs) ==> refs@.len() == vault@.catalog.len() && refs@[i].id@
            == vault@.catalog[i].0 && refs@[i].name@ == vault@.catalog[i].1 && refs@[i].uri is None
            && refs@[i].kind is None,
{
    if listed is Some {
        let refs = listed->0@;
        assert(crate::credential::ref_views(refs).len() == refs.len());
        assert(crate::credential::ref_views(refs)[i] == refs[i]@);
    }
}

/// An item gives the values of its login; its codes may be handed out exactly
/// where its name is configured for that. An item without a login, or one that
/// could not be read, is no credential.
pub proof fn law_items_give_their_values(
    vault: &mut BitwardenCliProvider,
    item: Option<BitwardenItem>,
    answer: Result<ResolvedCredential, ErrorCode>,
)
    requires
        call_ensures(BitwardenCliProvider::resolve, (vault, item), answer),
    ensures
        answer is Ok <==> item is Some && item->0.login is Some,
        answer matches Err(code) ==> code is InvalidCredential && final(vault)@ == old(vault)@,
        answer matches Ok(c) ==> {
            let login = item->0.login->0;
            &&& login.username matches Some(text) ==> c.username@ == text@
            &&& login.username is None ==> c.username@ == Seq::<char>::empty()
            &&& login.password matches Some(text) ==> c.password@ == text@
            &&& login.password is None ==> c.password@ == Seq::<char>::empty()
            &&& login.totp is Some <==> c.totp_seed is Some
            &&& login.totp matches Some(text) ==> c.totp_seed->0@ == text@
            &&& c.totp_exposable <==> old(vault)@.totp_exposable.contains(item->0.name@)
            &&& c.locked == old(vault)@.timer.locked
            &&& !c.secrets_preregistered
            &&& final(vault)@.session == old(vault)@.session
            &&& final(vault)@.timer == old(vault)@.timer
        },
{
}

/// A run gets the session or the password exactly where it is meant to, as
/// variables of its own process, and always the directories of its own
/// namespace; inherited values of either are taken away.
pub proof fn law_runs_get_what_they_need(
    vault: &BitwardenCliProvider,
    run: &BwRun,
    command: CommandLine,
    value: Seq<char>,
)
    requires
        call_ensures(BitwardenCliProvider::command, (vault, run), command),
    ensures
        has_variable(command.env@, "BW_SESSION"@, value) <==> run.with_session
            && vault@.session == Some(value),
        has_variable(command.env@, "BW_PASSWORD"@, value) <==> run.with_password
            && vault@.password == Some(value),
        has_variable(command.env@, "BW_APPDATA_DIR"@, value) <==> value == vault@.appdata_dir,
        has_variable(command.env@, "BITWARDENCLI_APPDATA_DIR"@, value) <==> value
            == vault@.appdata_dir,
        command.program@ == (match vault@.bw_path {
            Some(path) => path,
            None => "bw"@,
        }),
        forall|i: int|
            0 <= i < run.args@.len() ==> i < command.args@.len() && (#[trigger] run.args@[i])@
                == command.args@[i]@,
        !(run.with_password && vault@.password is Some) ==> command.args@.len() == run.args@.len(),
        run.with_password && vault@.password is Some ==> command.args@.len() == run.args@.len() + 2
            && command.args@[command.args@.len() - 2]@ == "--passwordenv"@
            && command.args@[command.args@.len() - 1]@ == "BW_PASSWORD"@,
        crate::text::texts(command.cleared@) == seq!["BW_PASSWORD"@, "BW_SESSION"@],
{
    reveal_strlit("BW_SESSION");
    reveal_strlit("BW_PASSWORD");
    reveal_strlit("BW_APPDATA_DIR");
    reveal_strlit("BITWARDENCLI_APPDATA_DIR");
    assert("BW_SESSION"@.len() == 10 && "BW_PASSWORD"@.len() == 11 && "BW_APPDATA_DIR"@.len() == 14
        && "BITWARDENCLI_APPDATA_DIR"@.len() == 24);
    let want = vault@.command(run@);
    let env = crate::command::env_views(command.env@);
    assert(env == want.env);
    assert(env.len() == command.env@.len());
    assert forall|i: int| 0 <= i < env.len() implies env[i] == (
        (#[trigger] command.env@[i]).0@,
        command.env@[i].1@,
    ) by {}
    assert(env[0] == ("BW_APPDATA_DIR"@, vault@.appdata_dir));
    assert(env[1] == ("BITWARDENCLI_APPDATA_DIR"@, vault@.appdata_dir));
    assert(command.env@[0].1@ == vault@.appdata_dir && command.env@[1].1@ == vault@.appdata_dir);
    let sessions: int = if run.with_session && vault@.session is Some {
        1
    } else {
        0
    };
    if sessions == 1 {
        assert(env[2] == ("BW_SESSION"@, vault@.session->0));
        assert(command.env@[2].0@ == "BW_SESSION"@);
    }
    if run.with_password && vault@.password is Some {
        assert(env[2 + sessions] == ("BW_PASSWORD"@, vault@.password->0));
        assert(command.env@[2 + sessions].0@ == "BW_PASSWORD"@);
    }
    let args = crate::text::texts(command.args@);
    assert(args.len() == command.args@.len());
    assert forall|i: int| 0 <= i < run.args@.len() implies i < command.args@.len() && (
    #[trigger] run.args@[i])@ == command.args@[i]@ by {
        assert(run@.args[i] == run.args@[i]@);
        assert(args[i] == command.args@[i]@);
    }
    assert(run@.args.len() == run.args@.len());
    if run.with_password && vault@.password is Some {
        let n = args.len();
        assert(args[n - 2] == command.args@[n - 2]@);
        assert(args[n - 1] == command.args@[n - 1]@);
    }
}

/// A variable is set to a value.
pub open spec fn has_variable(
    env: Seq<(String, String)>,
    name: Seq<char>,
    value: Seq<char>,
) -> bool {
    exists|i: int| 0 <= i < env.len() && (#[trigger] env[i]).0@ == name && env[i].1@ == value
}

/// An opening that fails ends, with the error of whoever was asked for the
/// password, and else with an internal one; nothing of it is kept.
pub proof fn law_failed_openings_say_why(vault: BwView, code: ErrorCode, now: u64)
    ensures
        ({
            let (next, action) = vault.step(BwEventView::Password(Err(code)));
            vault.phase is Password ==> action == BwActionView::Finished(Err(code)) && next.phase
                is Idle && next.password is None && next.session == vault.session
        }),
        ({
            let (next, action) = vault.step(BwEventView::Ran { reply: BwReplyView::Failed, now });
            vault.phase is Configure || vault.phase is Enter || vault.phase is Verify ==> action
                == BwActionView::Finished(Err(ErrorCode::Internal)) && next.phase is Idle
                && next.password is None && !next.retried
        }),
{
}

/// What is asked of the client about items is asked in the session.
pub proof fn law_items_are_asked_for_in_the_session(
    vault: &BitwardenCliProvider,
    item_id: &str,
    list: BwRun,
    get: BwRun,
    lock: Option<BwRun>,
)
    requires
        call_ensures(BitwardenCliProvider::list_run, (vault,), list),
        call_ensures(BitwardenCliProvider::get_run, (vault, item_id), get),
        call_ensures(BitwardenCliProvider::lock_run, (vault,), lock),
    ensures
        list@.args == seq!["list"@, "items"@] && list@.with_session && !list@.with_password,
        get@.args == seq!["get"@, "item"@, item_id@] && get@.with_session && !get@.with_password,
        lock is Some <==> vault@.session is Some,
        lock matches Some(run) ==> run@.args == seq!["lock"@] && run@.with_session
            && !run@.with_password,
{
}

/// The command that asks for the password is run by the shell, with the
/// client's directory, and without the password and the session of anybody.
pub proof fn law_passwords_are_asked_for(vault: &BitwardenCliProvider, command: CommandLine)
    requires
        call_ensures(BitwardenCliProvider::askpass_command, (vault,), command),
    ensures
        command.program@ == "sh"@,
        command.args@.len() == 2,
        command.args@[0]@ == "-c"@,
        command.args@[1]@ == vault@.askpass_cmd,
        command.env@.len() == 2,
        command.env@[0].0@ == "BW_APPDATA_DIR"@ && command.env@[0].1@ == vault@.appdata_dir,
        command.env@[1].0@ == "BITWARDENCLI_APPDATA_DIR"@ && command.env@[1].1@
            == vault@.appdata_dir,
        crate::text::texts(command.cleared@).contains("BW_PASSWORD"@),
        crate::text::texts(command.cleared@).contains("BW_SESSION"@),
{
    let view = command@;
    assert(view.args.len() == command.args@.len());
    assert(view.args[0] == command.args@[0]@ && view.args[1] == command.args@[1]@);
    assert(view.env.len() == command.env@.len());
    assert(view.env[0] == (command.env@[0].0@, command.env@[0].1@));
    assert(view.env[1] == (command.env@[1].0@, command.env@[1].1@));
    assert(view.cleared[0] == "BW_PASSWORD"@ && view.cleared[1] == "BW_SESSION"@);
}

/// The password is the first line of what the command printed, where it
/// succeeded.
pub proof fn law_printed_passwords_are_taken(
    line: Seq<char>,
    rest: Seq<char>,
    output: Vec<u8>,
    good: Result<Secret, ErrorCode>,
    bad: Result<Secret, ErrorCode>,
)
    requires
        line.len() > 0,
        !line.contains('\n'),
        !line.contains('\r'),
        output@ == vstd::utf8::encode_utf8(line.push('\n') + rest),
        call_ensures(askpass_outcome, (true, output), good),
        call_ensures(askpass_outcome, (false, output), bad),
    ensures
        good matches Ok(secret) && secret@ == line,
        bad is Err && bad->Err_0 is Internal,
{
    law_first_lines_are_read(line, rest);
}

/// A vault that is locked has no session; it counts as locked where the client
/// locked it. One whose time is over says so.
pub proof fn law_locked_vaults_have_no_session(
    vault: &mut BitwardenCliProvider,
    expiring: &mut BitwardenCliProvider,
    ok: bool,
    outcome: Result<(), ErrorCode>,
    done: (),
)
    requires
        call_ensures(BitwardenCliProvider::finish_lock, (vault, ok), outcome),
        call_ensures(BitwardenCliProvider::finish_expiry, (expiring,), done),
    ensures
        final(vault)@.session is None && final(vault)@.timer.unlocked_at is None,
        ok ==> outcome is Ok && final(vault)@.timer.locked,
        !ok ==> outcome == Err::<(), ErrorCode>(ErrorCode::Internal) && final(vault)@.timer.locked
            == old(vault)@.timer.locked,
        final(vault)@.catalog == old(vault)@.catalog,
        final(vault)@.server_url == old(vault)@.server_url && final(vault)@.email
            == old(vault)@.email,
        final(expiring)@.session is None && final(expiring)@.timer.unlocked_at is None,
        final(expiring)@.timer.locked && final(expiring)@.timer.autolock_event_pending,
        final(expiring)@.catalog == old(expiring)@.catalog,
{
}

proof fn lemma_known(names: Seq<(Seq<char>, Seq<char>)>, id: Seq<char>)
    ensures
        knows(names, id) <==> (exists|k: int| 0 <= k < names.len() && (#[trigger] names[k]).0 == id),
    decreases names.len(),
{
    if names.len() > 0 {
        let rest = names.drop_last();
        lemma_known(rest, id);
        if knows(rest, id) {
            let k = choose|k: int| 0 <= k < rest.len() && (#[trigger] rest[k]).0 == id;
            assert(names[k].0 == id);
        }
        if exists|k: int| 0 <= k < names.len() && (#[trigger] names[k]).0 == id {
            let k = choose|k: int| 0 <= k < names.len() && (#[trigger] names[k]).0 == id;
            if k < rest.len() {
                assert(rest[k].0 == id);
            }
        }
    }
}

/// An item that was read is listed from then on while the vault is locked: its
/// name is remembered once, and no other name is lost.
pub proof fn law_read_items_are_remembered(
    vault: &mut BitwardenCliProvider,
    item: BitwardenItem,
    resolved: Result<ResolvedCredential, ErrorCode>,
    i: int,
)
    requires
        call_ensures(BitwardenCliProvider::resolve, (vault, Some(item)), resolved),
        item@.login is Some,
    ensures
        0 <= i < old(vault)@.catalog.len() ==> i < final(vault)@.catalog.len()
            && final(vault)@.catalog[i] == old(vault)@.catalog[i],
        (forall|k: int|
            0 <= k < old(vault)@.catalog.len() ==> (#[trigger] old(vault)@.catalog[k]).0 != item@.id)
            ==> final(vault)@.catalog.len() == old(vault)@.catalog.len() + 1
            && final(vault)@.catalog.last() == (item@.id, item@.name),
        0 <= i < old(vault)@.catalog.len() && old(vault)@.catalog[i].0 == item@.id
            ==> final(vault)@.catalog == old(vault)@.catalog,
{
    lemma_known(old(vault)@.catalog, item@.id);
}

/// A run is called by what it does, and never by what it hands over.
pub proof fn law_runs_are_named(run: &BwRun, name: String)
    requires
        call_ensures(BwRun::operation, (run,), name),
    ensures
        run.with_password ==> name@ == "login or unlock"@,
        !run.with_password && run.args@.len() > 0 ==> {
            &&& run.args@[0]@ == "login"@ ==> name@ == "login check"@
            &&& run.args@[0]@ == "config"@ ==> name@ == "config server"@
            &&& run.args@[0]@ == "list"@ ==> name@ == "list items"@
            &&& run.args@[0]@ == "get"@ ==> name@ == "get item"@
            &&& run.args@[0]@ == "lock"@ ==> name@ == "lock"@
            &&& run.args@[0]@ == "logout"@ ==> name@ == "logout"@
            &&& run.args@[0]@ == "status"@ ==> name@ == "status"@
            &&& run.args@[0]@ == "sync"@ ==> name@ == "sync"@
        },
{
    reveal_strlit("login");
    reveal_strlit("config");
    reveal_strlit("list");
    reveal_strlit("get");
    reveal_strlit("lock");
    reveal_strlit("logout");
    reveal_strlit("status");
    reveal_strlit("sync");
    assert("config"@[0] == 'c' && "list"@[1] == 'i' && "get"@[0] == 'g');
    assert("login"@.len() == 5 && "config"@.len() == 6 && "list"@.len() == 4 && "get"@.len() == 3);
    assert("lock"@.len() == 4 && "lock"@[1] == 'o' && "logout"@.len() == 6 && "logout"@[0] == 'l');
    assert("status"@.len() == 6 && "status"@[0] == 's' && "sync"@.len() == 4 && "sync"@[0] == 's');
    assert("list"@[0] == 'l');
    if run.args@.len() > 0 {
        assert(run@.args[0] == run.args@[0]@);
    }
}

} // verus!
