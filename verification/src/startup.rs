//! The order in which the daemon starts.

use vstd::prelude::*;
use vstd::string::*;

use crate::config::{
    check_platform, check_state_dir, join_path, resolve_state_paths, Config, Platform, StateDir,
    StateDirPlan,
};
use crate::text::{decimal_text, join3};

verus! {

/// Where the start stands.
#[derive(Clone, Copy, Debug, PartialEq, Eq, Structural)]
pub enum StartupPhase {
    /// The configuration is being read.
    Reading,
    /// What an older daemon left behind is being removed.
    Cleaning,
    /// The executor behind a socket is being asked who it is.
    Asking,
    /// The state directory is being looked at.
    Inspecting,
    /// The state directory is being created.
    Creating,
    /// The peers are being loaded.
    Loading,
    /// The listeners are being opened.
    Binding,
    /// The daemon serves.
    Serving,
    Failed,
}

/// What happened. An error is given by its text.
#[derive(Debug)]
pub enum StartupEvent {
    /// The configuration and its listeners were read, or not.
    Read(Option<String>),
    Cleaned,
    /// The executor said which user it runs as, or cannot be used.
    Executor(Result<u32, String>),
    /// What is found where the state directory should be.
    Found(StateDir),
    /// The state directory was created, or not.
    Created(Option<String>),
    /// The peers were loaded and the vaults made, or not.
    Loaded(Option<String>),
    /// The listeners are open, or not.
    Bound(Option<String>),
}

/// What is done next.
#[derive(Debug)]
pub enum StartupAction {
    /// Remove the directory that an older daemon kept passwords in.
    RemovePasswords(String),
    /// Ask the executor behind a socket who it is.
    AskExecutor(String),
    /// Say how executors run, and look at the state directory.
    Inspect { announce: String, path: String },
    /// Create the state directory.
    Create(String),
    /// Load the peers from a file, and from the digest of an older token.
    LoadPeers { peers_path: String, token_hash_path: String },
    /// Open the listeners.
    Bind,
    /// Serve; first say so, where that was asked for.
    Serve { ready_line: Option<String> },
    /// Do not start.
    Fail(String),
}

/// What is done next, by the views of its parts.
#[verifier::ext_equal]
pub enum StartupView {
    RemovePasswords(Seq<char>),
    AskExecutor(Seq<char>),
    Inspect { announce: Seq<char>, path: Seq<char> },
    Create(Seq<char>),
    LoadPeers { peers_path: Seq<char>, token_hash_path: Seq<char> },
    Bind,
    Serve { ready_line: Option<Seq<char>> },
    Fail(Seq<char>),
}

impl View for StartupAction {
    type V = StartupView;

    open spec fn view(&self) -> StartupView {
        match *self {
            StartupAction::RemovePasswords(path) => StartupView::RemovePasswords(path@),
            StartupAction::AskExecutor(path) => StartupView::AskExecutor(path@),
            StartupAction::Inspect { announce, path } => StartupView::Inspect {
                announce: announce@,
                path: path@,
            },
            StartupAction::Create(path) => StartupView::Create(path@),
            StartupAction::LoadPeers { peers_path, token_hash_path } => StartupView::LoadPeers {
                peers_path: peers_path@,
                token_hash_path: token_hash_path@,
            },
            StartupAction::Bind => StartupView::Bind,
            StartupAction::Serve { ready_line } => StartupView::Serve {
                ready_line: crate::text::opt_text(ready_line),
            },
            StartupAction::Fail(m) => StartupView::Fail(m@),
        }
    }
}

/// What is said where the daemon starts executors itself.
pub open spec fn spawned_banner() -> Seq<char> {
    "executor: spawned by the daemon (browser is not isolated)"@
}

/// What is said where executors run behind a socket.
pub open spec fn socket_banner(path: Seq<char>, uid: u32) -> Seq<char> {
    "executor: socket "@ + path + " (uid "@ + crate::text::decimal(uid as nat) + ")"@
}

/// Loading the peers.
pub open spec fn load_view(config: Config, platform: Platform) -> StartupView {
    StartupView::LoadPeers {
        peers_path: crate::config::joined(config.state_dir@, "peers.json"@, platform),
        token_hash_path: crate::config::state_path(
            crate::text::opt_text(config.transport.token_hash_path),
            config.state_dir@,
            "token_hash"@,
            platform,
        ),
    }
}

/// The next phase, unless there is an error.
pub open spec fn unless_failed(
    error: Option<Seq<char>>,
    next: StartupPhase,
    action: StartupView,
) -> (StartupPhase, StartupView) {
    match error {
        Some(m) => (StartupPhase::Failed, StartupView::Fail(m)),
        None => (next, action),
    }
}

/// What comes after an event.
pub open spec fn startup_next(
    phase: StartupPhase,
    config: Config,
    platform: Platform,
    ready: bool,
    event: StartupEvent,
) -> (StartupPhase, StartupView) {
    match (phase, event) {
        (StartupPhase::Reading, StartupEvent::Read(error)) => unless_failed(
            crate::text::opt_text(error),
            StartupPhase::Cleaning,
            StartupView::RemovePasswords(
                crate::config::joined(config.state_dir@, ".bw-passwords"@, platform),
            ),
        ),
        (StartupPhase::Cleaning, StartupEvent::Cleaned) => match crate::config::refusal(
            config,
            platform,
        ) {
            Some(m) => (StartupPhase::Failed, StartupView::Fail(m)),
            None => match (platform, config.executor_socket) {
                (Platform::Unix, Some(path)) => (
                    StartupPhase::Asking,
                    StartupView::AskExecutor(path@),
                ),
                _ => (
                    StartupPhase::Inspecting,
                    StartupView::Inspect { announce: spawned_banner(), path: config.state_dir@ },
                ),
            },
        },
        (StartupPhase::Asking, StartupEvent::Executor(answer)) => match answer {
            Err(m) => (StartupPhase::Failed, StartupView::Fail(m@)),
            Ok(uid) => (
                StartupPhase::Inspecting,
                StartupView::Inspect {
                    announce: match config.executor_socket {
                        Some(path) => socket_banner(path@, uid),
                        None => spawned_banner(),
                    },
                    path: config.state_dir@,
                },
            ),
        },
        (StartupPhase::Inspecting, StartupEvent::Found(found)) => match found {
            StateDir::Missing => (
                StartupPhase::Creating,
                StartupView::Create(config.state_dir@),
            ),
            StateDir::Symlink => if platform is Windows {
                (StartupPhase::Loading, load_view(config, platform))
            } else {
                (
                    StartupPhase::Failed,
                    StartupView::Fail(
                        "state_dir "@ + config.state_dir@ + " must not be a symlink"@,
                    ),
                )
            },
            StateDir::Present { mode, own } => if platform is Windows || (mode % 0o1000 == 0o700
                && own) {
                (StartupPhase::Loading, load_view(config, platform))
            } else if mode % 0o1000 != 0o700 {
                (
                    StartupPhase::Failed,
                    StartupView::Fail(
                        "state_dir "@ + config.state_dir@ + " must have permissions 0700"@,
                    ),
                )
            } else {
                (
                    StartupPhase::Failed,
                    StartupView::Fail(
                        "state_dir "@ + config.state_dir@
                            + " must belong to the daemon's own user"@,
                    ),
                )
            },
        },
        (StartupPhase::Creating, StartupEvent::Created(error)) => unless_failed(
            crate::text::opt_text(error),
            StartupPhase::Loading,
            load_view(config, platform),
        ),
        (StartupPhase::Loading, StartupEvent::Loaded(error)) => unless_failed(
            crate::text::opt_text(error),
            StartupPhase::Binding,
            StartupView::Bind,
        ),
        (StartupPhase::Binding, StartupEvent::Bound(error)) => unless_failed(
            crate::text::opt_text(error),
            StartupPhase::Serving,
            StartupView::Serve {
                ready_line: if ready {
                    Some("{\"ready\":true}"@)
                } else {
                    None
                },
            },
        ),
        _ => (StartupPhase::Failed, StartupView::Fail("the daemon is not starting"@)),
    }
}

fn load_action(config: &Config, platform: Platform) -> (r: StartupAction)
    ensures
        r@ == load_view(*config, platform),
{
    let (token_hash_path, _) = resolve_state_paths(config, platform);
    StartupAction::LoadPeers {
        peers_path: join_path(config.state_dir.as_str(), "peers.json", platform),
        token_hash_path,
    }
}

impl StartupPhase {
    /// Takes one event, and says what is done next. `ready` tells whether
    /// somebody waits for the word that the daemon is ready.
    pub fn step(
        &mut self,
        config: &Config,
        platform: Platform,
        ready: bool,
        event: StartupEvent,
    ) -> (action: StartupAction)
        ensures
            (*final(self), action@) == startup_next(*old(self), *config, platform, ready, event),
    {
        match (*self, event) {
            (StartupPhase::Reading, StartupEvent::Read(None)) => {
                *self = StartupPhase::Cleaning;
                StartupAction::RemovePasswords(
                    join_path(config.state_dir.as_str(), ".bw-passwords", platform),
                )
            },
            (StartupPhase::Cleaning, StartupEvent::Cleaned) => {
                match check_platform(config, platform) {
                    Err(m) => {
                        *self = StartupPhase::Failed;
                        return StartupAction::Fail(m);
                    },
                    Ok(()) => {},
                }
                match (platform, &config.executor_socket) {
                    (Platform::Unix, Some(path)) => {
                        *self = StartupPhase::Asking;
                        StartupAction::AskExecutor(path.clone())
                    },
                    _ => {
                        *self = StartupPhase::Inspecting;
                        StartupAction::Inspect {
                            announce: "executor: spawned by the daemon (browser is not isolated)".to_owned(),
                            path: config.state_dir.clone(),
                        }
                    },
                }
            },
            (StartupPhase::Asking, StartupEvent::Executor(answer)) => match answer {
                Err(m) => {
                    *self = StartupPhase::Failed;
                    StartupAction::Fail(m)
                },
                Ok(uid) => {
                    *self = StartupPhase::Inspecting;
                    let announce = match &config.executor_socket {
                        Some(path) => {
                            let mut text = join3("executor: socket ", path.as_str(), " (uid ");
                            text.append(decimal_text(uid as u64).as_str());
                            text.append(")");
                            text
                        },
                        None => "executor: spawned by the daemon (browser is not isolated)".to_owned(),
                    };
                    StartupAction::Inspect { announce, path: config.state_dir.clone() }
                },
            },
            (StartupPhase::Inspecting, StartupEvent::Found(found)) => {
                match check_state_dir(config.state_dir.as_str(), found, platform) {
                    StateDirPlan::Create => {
                        *self = StartupPhase::Creating;
                        StartupAction::Create(config.state_dir.clone())
                    },
                    StateDirPlan::Use => {
                        *self = StartupPhase::Loading;
                        load_action(config, platform)
                    },
                    StateDirPlan::Refuse(m) => {
                        *self = StartupPhase::Failed;
                        StartupAction::Fail(m)
                    },
                }
            },
            (StartupPhase::Creating, StartupEvent::Created(None)) => {
                *self = StartupPhase::Loading;
                load_action(config, platform)
            },
            (StartupPhase::Loading, StartupEvent::Loaded(None)) => {
                *self = StartupPhase::Binding;
                StartupAction::Bind
            },
            (StartupPhase::Binding, StartupEvent::Bound(None)) => {
                *self = StartupPhase::Serving;
                let ready_line = if ready {
                    Some("{\"ready\":true}".to_owned())
                } else {
                    None
                };
                StartupAction::Serve { ready_line }
            },
            (StartupPhase::Reading, StartupEvent::Read(Some(m))) => {
                *self = StartupPhase::Failed;
                StartupAction::Fail(m)
            },
            (StartupPhase::Creating, StartupEvent::Created(Some(m))) => {
                *self = StartupPhase::Failed;
                StartupAction::Fail(m)
            },
            (StartupPhase::Loading, StartupEvent::Loaded(Some(m))) => {
                *self = StartupPhase::Failed;
                StartupAction::Fail(m)
            },
            (StartupPhase::Binding, StartupEvent::Bound(Some(m))) => {
                *self = StartupPhase::Failed;
                StartupAction::Fail(m)
            },
            _ => {
                *self = StartupPhase::Failed;
                StartupAction::Fail("the daemon is not starting".to_owned())
            },
        }
    }
}

/// How many steps may still follow.
pub open spec fn steps_left(phase: StartupPhase) -> nat {
    match phase {
        StartupPhase::Reading => 7,
        StartupPhase::Cleaning => 6,
        StartupPhase::Asking => 5,
        StartupPhase::Inspecting => 4,
        StartupPhase::Creating => 3,
        StartupPhase::Loading => 2,
        StartupPhase::Binding => 1,
        StartupPhase::Serving => 0,
        StartupPhase::Failed => 0,
    }
}

/// Every start comes to its end: each event brings it nearer.
pub proof fn law_starts_end(
    phase: StartupPhase,
    config: Config,
    platform: Platform,
    ready: bool,
    event: StartupEvent,
)
    ensures
        steps_left(phase) > 0 ==> steps_left(
            startup_next(phase, config, platform, ready, event).0,
        ) < steps_left(phase),
{
}

/// Nothing is served from a state directory that is not the daemon's own: the
/// peers are loaded only from one that was just created or passed the check,
/// and the listeners open only after that.
pub proof fn law_the_state_directory_is_checked_first(
    phase: StartupPhase,
    config: Config,
    ready: bool,
    event: StartupEvent,
)
    ensures
        startup_next(phase, config, Platform::Unix, ready, event).0 is Loading ==> (phase
            is Creating && event == StartupEvent::Created(None)) || (phase is Inspecting && (
        event matches StartupEvent::Found(StateDir::Present { mode, own }) && own && mode % 0o1000
            == 0o700)),
        startup_next(phase, config, Platform::Unix, ready, event).0 is Binding ==> phase is Loading,
        startup_next(phase, config, Platform::Unix, ready, event).0 is Serving ==> phase is Binding,
{
}

/// A configuration that the platform does not support never starts, and is
/// refused before anything but left-over passwords is touched.
pub proof fn law_unsupported_configurations_do_not_start(
    config: Config,
    platform: Platform,
    ready: bool,
)
    requires
        crate::config::refusal(config, platform) is Some,
    ensures
        startup_next(
            StartupPhase::Cleaning,
            config,
            platform,
            ready,
            StartupEvent::Cleaned,
        ).1 is Fail,
{
}

/// A start that meets no error goes through its steps in their order: what an
/// older daemon left is removed, the state directory is looked at, the peers
/// are loaded from it, the listeners open, and the daemon says that it is ready
/// where somebody waits for that.
pub proof fn law_starts_go_through_their_steps(
    config: &Config,
    platform: Platform,
    ready: bool,
    one: &mut StartupPhase,
    two: &mut StartupPhase,
    three: &mut StartupPhase,
    four: &mut StartupPhase,
    five: &mut StartupPhase,
    found: StateDir,
    removal: StartupAction,
    inspection: StartupAction,
    loading: StartupAction,
    binding: StartupAction,
    serving: StartupAction,
)
    requires
        *old(one) is Reading,
        call_ensures(
            StartupPhase::step,
            (one, config, platform, ready, StartupEvent::Read(None)),
            removal,
        ),
        *old(two) == *final(one),
        call_ensures(
            StartupPhase::step,
            (two, config, platform, ready, StartupEvent::Cleaned),
            inspection,
        ),
        config.executor_socket is None,
        platform is Unix || (config.approve_cmd is None && config.providers@.len() == 0),
        *old(three) == *final(two),
        found matches StateDir::Present { mode, own } && own && mode % 512 == 448,
        call_ensures(
            StartupPhase::step,
            (three, config, platform, ready, StartupEvent::Found(found)),
            loading,
        ),
        *old(four) == *final(three),
        call_ensures(
            StartupPhase::step,
            (four, config, platform, ready, StartupEvent::Loaded(None)),
            binding,
        ),
        *old(five) == *final(four),
        call_ensures(
            StartupPhase::step,
            (five, config, platform, ready, StartupEvent::Bound(None)),
            serving,
        ),
    ensures
        removal matches StartupAction::RemovePasswords(path) && path@ == crate::config::joined(
            config.state_dir@,
            ".bw-passwords"@,
            platform,
        ),
        inspection matches StartupAction::Inspect { announce, path } && path@ == config.state_dir@
            && announce@ == "executor: spawned by the daemon (browser is not isolated)"@,
        loading matches StartupAction::LoadPeers { peers_path, .. } && peers_path@
            == crate::config::joined(config.state_dir@, "peers.json"@, platform),
        loading matches StartupAction::LoadPeers { token_hash_path, .. } && (platform is Unix
            || config.transport.token_hash_path is None ==> token_hash_path@
            == crate::config::joined(config.state_dir@, "token_hash"@, platform)),
        binding is Bind,
        serving matches StartupAction::Serve { ready_line } && (ready_line is Some <==> ready)
            && (ready ==> ready_line->0@ == "{\"ready\":true}"@),
        *final(five) is Serving,
{
    assert(crate::config::refusal(*config, platform) is None);
    assert(removal@ is RemovePasswords);
    assert(inspection@ is Inspect);
    assert(loading@ is LoadPeers);
    assert(binding@ is Bind);
    assert(serving@ is Serve);
}

/// An executor behind a socket is asked first, and named with its user where it
/// can be used.
pub proof fn law_executors_behind_sockets_are_asked(
    config: &Config,
    ready: bool,
    one: &mut StartupPhase,
    two: &mut StartupPhase,
    asking: StartupAction,
    answer: Result<u32, String>,
    next: StartupAction,
)
    requires
        *old(one) is Cleaning,
        config.executor_socket is Some,
        call_ensures(
            StartupPhase::step,
            (one, config, Platform::Unix, ready, StartupEvent::Cleaned),
            asking,
        ),
        *old(two) == *final(one),
        call_ensures(
            StartupPhase::step,
            (two, config, Platform::Unix, ready, StartupEvent::Executor(answer)),
            next,
        ),
    ensures
        asking matches StartupAction::AskExecutor(path) && path@ == config.executor_socket->0@,
        answer matches Err(m) ==> (next matches StartupAction::Fail(e) && e@ == m@),
        answer matches Ok(uid) ==> (next matches StartupAction::Inspect { announce, path } && path@
            == config.state_dir@ && announce@ == "executor: socket "@ + config.executor_socket->0@
            + " (uid "@ + crate::text::decimal(uid as nat) + ")"@),
{
    assert(asking@ is AskExecutor);
    assert(answer is Ok ==> next@ is Inspect);
    assert(answer is Err ==> next@ is Fail);
}

/// An error of any step ends the start, and is what is said.
pub proof fn law_errors_end_the_start(
    config: &Config,
    platform: Platform,
    ready: bool,
    phase: &mut StartupPhase,
    error: String,
    event: StartupEvent,
    action: StartupAction,
)
    requires
        call_ensures(StartupPhase::step, (phase, config, platform, ready, event), action),
        ({
            ||| *old(phase) is Reading && event == StartupEvent::Read(Some(error))
            ||| *old(phase) is Creating && event == StartupEvent::Created(Some(error))
            ||| *old(phase) is Loading && event == StartupEvent::Loaded(Some(error))
            ||| *old(phase) is Binding && event == StartupEvent::Bound(Some(error))
        }),
    ensures
        *final(phase) is Failed,
        action matches StartupAction::Fail(m) && m@ == error@,
{
    assert(action@ is Fail);
}

/// A directory that is missing is created, and the start goes on from there.
pub proof fn law_missing_directories_are_created(
    config: &Config,
    platform: Platform,
    ready: bool,
    one: &mut StartupPhase,
    two: &mut StartupPhase,
    creation: StartupAction,
    loading: StartupAction,
)
    requires
        *old(one) is Inspecting,
        call_ensures(
            StartupPhase::step,
            (one, config, platform, ready, StartupEvent::Found(StateDir::Missing)),
            creation,
        ),
        *old(two) == *final(one),
        call_ensures(
            StartupPhase::step,
            (two, config, platform, ready, StartupEvent::Created(None)),
            loading,
        ),
    ensures
        creation matches StartupAction::Create(path) && path@ == config.state_dir@,
        loading is LoadPeers,
        *final(two) is Loading,
{
    assert(creation@ is Create);
    assert(loading@ is LoadPeers);
}

} // verus!
