//! The Windows service: its command line, its installation, and its life.

use vstd::prelude::*;
use vstd::string::*;

use crate::command::{args2, args3, CommandLine};
use crate::config::{join_path, tcp_port_of, Config, ListenConfig, Platform};
use crate::text::{
    copy_opt, decimal_text, join2, join3, range_text, same_text, text_find, text_lines,
    text_starts_with, text_strip_prefix, text_trim, to_chars,
};
use crate::windows_instance::{
    firewall_rule_name, install_root_under, service_account, validate_service_name,
};

verus! {

// ---------------------------------------------------------------------------
// The command line
// ---------------------------------------------------------------------------

/// What follows the first `--config` that is not the last argument.
pub open spec fn config_argument(args: Seq<Seq<char>>) -> Option<Seq<char>>
    decreases args.len(),
{
    if args.len() < 2 {
        None
    } else if args[0] == "--config"@ {
        Some(args[1])
    } else {
        config_argument(args.drop_first())
    }
}

/// What follows the equals sign in the first argument that has one after
/// `--config`.
pub open spec fn config_assignment(args: Seq<Seq<char>>) -> Option<Seq<char>>
    decreases args.len(),
{
    if args.len() == 0 {
        None
    } else {
        match crate::text::strip_prefix(args[0], "--config="@) {
            Some(path) => Some(path),
            None => config_assignment(args.drop_first()),
        }
    }
}

fn find_config_argument(args: &Vec<String>) -> (r: Option<String>)
    ensures
        crate::text::opt_text(r) == config_argument(crate::text::texts(args@)),
{
    let ghost all = crate::text::texts(args@);
    let n = args.len();
    let mut i: usize = 0;
    assert(all.skip(0) =~= all);
    while i < n && n - i >= 2
        invariant
            n == args@.len(),
            i <= n,
            all == crate::text::texts(args@),
            config_argument(all) == config_argument(all.skip(i as int)),
        decreases n - i,
    {
        proof {
            assert(all.skip(i as int)[0] == args@[i as int]@);
            assert(all.skip(i as int)[1] == args@[i + 1]@);
            assert(all.skip(i as int).drop_first() =~= all.skip(i + 1));
        }
        if same_text(args[i].as_str(), "--config") {
            return Some(args[i + 1].clone());
        }
        i += 1;
    }
    None
}

fn find_config_assignment(args: &Vec<String>) -> (r: Option<String>)
    ensures
        crate::text::opt_text(r) == config_assignment(crate::text::texts(args@)),
{
    let ghost all = crate::text::texts(args@);
    let mut i: usize = 0;
    assert(all.skip(0) =~= all);
    while i < args.len()
        invariant
            i <= args@.len(),
            all == crate::text::texts(args@),
            config_assignment(all) == config_assignment(all.skip(i as int)),
        decreases args@.len() - i,
    {
        proof {
            assert(all.skip(i as int)[0] == args@[i as int]@);
            assert(all.skip(i as int).drop_first() =~= all.skip(i + 1));
        }
        match text_strip_prefix(args[i].as_str(), "--config=") {
            Some(path) => {
                return Some(path);
            },
            None => {},
        }
        i += 1;
    }
    None
}

/// The configuration that the command line of the process names.
///
/// The service control manager hands the arguments of the registered image to
/// the process, and not to the entry point of the service.
pub fn config_path_from_command_line(args: &Vec<String>) -> (r: Option<String>)
    ensures
        crate::text::opt_text(r) == (match config_argument(crate::text::texts(args@)) {
            Some(path) => Some(path),
            None => config_assignment(crate::text::texts(args@)),
        }),
{
    match find_config_argument(args) {
        Some(path) => Some(path),
        None => find_config_assignment(args),
    }
}

/// A path without the prefix that marks it as verbatim.
pub open spec fn plain_path(path: Seq<char>) -> Seq<char> {
    match crate::text::strip_prefix(path, "\\\\?\\UNC\\"@) {
        Some(rest) => "\\\\"@ + rest,
        None => match crate::text::strip_prefix(path, "\\\\?\\"@) {
            Some(rest) => rest,
            None => path,
        },
    }
}

/// A path without the prefix that marks it as verbatim.
pub fn strip_verbatim_prefix(path: &str) -> (r: String)
    ensures
        r@ == plain_path(path@),
{
    match text_strip_prefix(path, "\\\\?\\UNC\\") {
        Some(rest) => {
            return join2("\\\\", rest.as_str());
        },
        None => {},
    }
    match text_strip_prefix(path, "\\\\?\\") {
        Some(rest) => rest,
        None => path.to_owned(),
    }
}

// ---------------------------------------------------------------------------
// Installation
// ---------------------------------------------------------------------------

/// What a service is registered as.
pub struct InstallPlan {
    pub name: String,
    pub account: String,
    pub launch_arguments: Vec<String>,
    pub tcp_port: u16,
    pub root: String,
    pub operator_sid: Option<String>,
}

/// What a service is registered as, given the listeners of its configuration.
/// `program_data` and `canonical_path` are the canonical paths of
/// `%ProgramData%` and of the configuration; `config_path` is the path of the
/// configuration that the service is started with.
pub fn plan_install(
    config: &Config,
    listeners: &Vec<ListenConfig>,
    program_data: &str,
    canonical_path: &str,
    config_path: &str,
) -> (r: Result<InstallPlan, String>)
    ensures
        ({
            let name = config.transport.service_name@;
            let under = plain_path(program_data@);
            let path = plain_path(canonical_path@);
            match r {
                Ok(plan) => {
                    &&& crate::windows_instance::is_service_name(name)
                    &&& crate::windows_instance::is_under(under, path)
                    &&& plan.name@ == name
                    &&& plan.account@ == "NT SERVICE\\"@ + name
                    &&& crate::text::texts(plan.launch_arguments@) == seq![
                        "--config"@,
                        config_path@,
                    ]
                    &&& plan.tcp_port == crate::config::first_tcp_port(
                        crate::config::listen_views(listeners@),
                    )
                    &&& plan.root@ == crate::windows_instance::parent(path)
                    &&& plan.operator_sid == config.transport.operator_sid
                },
                Err(m) => if !crate::windows_instance::is_service_name(name) {
                    m@ == crate::windows_instance::bad_service_name()
                } else {
                    &&& !crate::windows_instance::is_under(under, path)
                    &&& m@ == crate::windows_instance::bad_configuration_path()
                },
            }
        }),
{
    let tcp_port = tcp_port_of(listeners);
    match validate_service_name(config.transport.service_name.as_str()) {
        Ok(()) => {},
        Err(m) => {
            return Err(m);
        },
    }
    let under = strip_verbatim_prefix(program_data);
    let path = strip_verbatim_prefix(canonical_path);
    let root = match install_root_under(under.as_str(), path.as_str()) {
        Ok(root) => root,
        Err(m) => {
            return Err(m);
        },
    };
    Ok(
        InstallPlan {
            name: config.transport.service_name.clone(),
            account: service_account(config.transport.service_name.as_str()),
            launch_arguments: args2("--config", config_path),
            tcp_port,
            root,
            operator_sid: copy_opt(&config.transport.operator_sid),
        },
    )
}

/// The directories that are made for a service and closed to everybody but
/// its account and the system.
pub fn service_directories(root: &str, state_dir: &str, browsers_path: &Option<String>) -> (r: Vec<
    String,
>)
    ensures
        ({
            let browsers = crate::config::joined(root@, "browsers"@, Platform::Windows);
            crate::text::texts(r@) == seq![
                root@,
                crate::config::joined(root@, "state"@, Platform::Windows),
                browsers,
                state_dir@,
                match *browsers_path {
                    Some(path) => path@,
                    None => browsers,
                },
            ]
        }),
{
    let state = join_path(root, "state", Platform::Windows);
    let browsers = join_path(root, "browsers", Platform::Windows);
    let configured = match browsers_path {
        Some(path) => path.clone(),
        None => browsers.clone(),
    };
    let mut out: Vec<String> = Vec::new();
    out.push(root.to_owned());
    out.push(state);
    out.push(browsers);
    out.push(state_dir.to_owned());
    out.push(configured);
    assert(crate::text::texts(out@) =~= seq![
        root@,
        state@,
        browsers@,
        state_dir@,
        configured@,
    ]);
    out
}

// ---------------------------------------------------------------------------
// The firewall
// ---------------------------------------------------------------------------

/// The script that opens the port to the WSL guests of the host; none where
/// the service does not listen on TCP.
pub fn firewall_script(name: &str, tcp_port: u16) -> (r: Option<String>)
    ensures
        crate::text::opt_text(r) == (if tcp_port == 0 {
            None
        } else {
            Some(
                "New-NetFirewallRule -DisplayName '"@ + (name@ + " WSL TCP"@)
                    + "' -Direction Inbound -Action Allow -Protocol TCP -LocalPort "@
                    + crate::text::decimal(tcp_port as nat)
                    + " -InterfaceAlias 'vEthernet (WSL*' -Profile Any"@,
            )
        }),
{
    if tcp_port == 0 {
        return None;
    }
    let rule = firewall_rule_name(name);
    let mut script = join3(
        "New-NetFirewallRule -DisplayName '",
        rule.as_str(),
        "' -Direction Inbound -Action Allow -Protocol TCP -LocalPort ",
    );
    script.append(decimal_text(tcp_port as u64).as_str());
    script.append(" -InterfaceAlias 'vEthernet (WSL*' -Profile Any");
    Some(script)
}

/// The script that closes the port again.
pub fn firewall_removal_script(name: &str) -> (r: String)
    ensures
        r@ == "Get-NetFirewallRule -DisplayName '"@ + (name@ + " WSL TCP"@)
            + "' -ErrorAction SilentlyContinue | Remove-NetFirewallRule"@,
{
    let rule = firewall_rule_name(name);
    join3(
        "Get-NetFirewallRule -DisplayName '",
        rule.as_str(),
        "' -ErrorAction SilentlyContinue | Remove-NetFirewallRule",
    )
}

/// The command that runs a script.
pub fn powershell_command(script: &str) -> (r: CommandLine)
    ensures
        r@ == (crate::command::CommandView {
            program: "powershell.exe"@,
            args: seq!["-NoProfile"@, "-NonInteractive"@, "-Command"@, script@],
            env: seq![],
            cleared: seq![],
        }),
{
    let mut args = args3("-NoProfile", "-NonInteractive", "-Command");
    let ghost before = args@;
    args.push(script.to_owned());
    let env: Vec<(String, String)> = Vec::new();
    let cleared: Vec<String> = Vec::new();
    proof {
        assert(crate::text::texts(args@) =~= crate::text::texts(before).push(script@));
        assert(crate::text::texts(args@) =~= seq![
            "-NoProfile"@,
            "-NonInteractive"@,
            "-Command"@,
            script@,
        ]);
        assert(crate::command::env_views(env@) =~= seq![]);
        assert(crate::text::texts(cleared@) =~= seq![]);
    }
    CommandLine { program: "powershell.exe".to_owned(), args, env, cleared }
}

/// The name of the rule stays inside the quotes that the scripts put it in.
pub proof fn law_rule_names_stay_quoted(name: Seq<char>, i: int)
    requires
        crate::windows_instance::is_service_name(name),
        0 <= i < (name + " WSL TCP"@).len(),
    ensures
        (name + " WSL TCP"@)[i] != '\'',
        (name + " WSL TCP"@)[i] != '\n',
{
    reveal_strlit(" WSL TCP");
    if i < name.len() {
        assert(crate::windows_instance::is_name_char(name[i]));
    }
}

// ---------------------------------------------------------------------------
// Control by the operator
// ---------------------------------------------------------------------------

/// The operator must be named by a Windows SID.
pub fn check_operator_sid(operator_sid: &str) -> (r: Result<(), String>)
    ensures
        match r {
            Ok(()) => "S-1-"@.is_prefix_of(operator_sid@),
            Err(m) => !"S-1-"@.is_prefix_of(operator_sid@) && m@
                == "operator_sid must be a Windows SID"@,
        },
{
    if text_starts_with(operator_sid, "S-1-") {
        Ok(())
    } else {
        Err("operator_sid must be a Windows SID".to_owned())
    }
}

fn sc_command(args: Vec<String>) -> (r: CommandLine)
    ensures
        r@ == (crate::command::CommandView {
            program: "sc.exe"@,
            args: crate::text::texts(args@),
            env: seq![],
            cleared: seq![],
        }),
{
    let env: Vec<(String, String)> = Vec::new();
    let cleared: Vec<String> = Vec::new();
    assert(crate::command::env_views(env@) =~= seq![]);
    assert(crate::text::texts(cleared@) =~= seq![]);
    CommandLine { program: "sc.exe".to_owned(), args, env, cleared }
}

/// The command that shows who may control a service.
pub fn show_descriptor_command(name: &str) -> (r: CommandLine)
    ensures
        r@ == (crate::command::CommandView {
            program: "sc.exe"@,
            args: seq!["sdshow"@, name@],
            env: seq![],
            cleared: seq![],
        }),
{
    sc_command(args2("sdshow", name))
}

/// The command that sets who may control a service.
pub fn set_descriptor_command(name: &str, descriptor: &str) -> (r: CommandLine)
    ensures
        r@ == (crate::command::CommandView {
            program: "sc.exe"@,
            args: seq!["sdset"@, name@, descriptor@],
            env: seq![],
            cleared: seq![],
        }),
{
    sc_command(args3("sdset", name, descriptor))
}

/// What is said of a command that failed.
pub fn command_failure(program: &str, stderr: &str) -> (r: String)
    ensures
        r@ == program@ + " failed: "@ + stderr@,
{
    join3(program, " failed: ", stderr)
}

/// The first line that starts a descriptor, without the white space around it.
pub open spec fn descriptor_line(lines: Seq<Seq<char>>) -> Option<Seq<char>>
    decreases lines.len(),
{
    if lines.len() == 0 {
        None
    } else if "D:"@.is_prefix_of(crate::text::trim(lines[0])) {
        Some(crate::text::trim(lines[0]))
    } else {
        descriptor_line(lines.drop_first())
    }
}

fn find_descriptor(lines: &Vec<String>) -> (r: Option<String>)
    ensures
        crate::text::opt_text(r) == descriptor_line(crate::text::texts(lines@)),
{
    let ghost all = crate::text::texts(lines@);
    let mut i: usize = 0;
    assert(all.skip(0) =~= all);
    while i < lines.len()
        invariant
            i <= lines@.len(),
            all == crate::text::texts(lines@),
            descriptor_line(all) == descriptor_line(all.skip(i as int)),
        decreases lines@.len() - i,
    {
        proof {
            assert(all.skip(i as int)[0] == lines@[i as int]@);
            assert(all.skip(i as int).drop_first() =~= all.skip(i + 1));
        }
        let line = text_trim(lines[i].as_str());
        if text_starts_with(line.as_str(), "D:") {
            return Some(line);
        }
        i += 1;
    }
    None
}

/// What lets an operator query, start and stop the service.
pub open spec fn control_entry(operator_sid: Seq<char>) -> Seq<char> {
    "(A;;LCRPWP;;;"@ + operator_sid + ")"@
}

/// Where the audit part of a descriptor starts, or its end.
pub open spec fn access_end(descriptor: Seq<char>) -> int {
    match crate::text::find(descriptor, "S:"@) {
        Some(at) => at,
        None => descriptor.len() as int,
    }
}

/// A descriptor that lets the operator control the service too.
pub open spec fn with_control(descriptor: Seq<char>, operator_sid: Seq<char>) -> Seq<char> {
    descriptor.take(access_end(descriptor)) + control_entry(operator_sid) + descriptor.skip(
        access_end(descriptor),
    )
}

/// The descriptor that lets the operator control the service, given what
/// `sc.exe sdshow` printed.
pub fn granted_descriptor(output: &str, operator_sid: &str) -> (r: Result<String, String>)
    ensures
        match descriptor_line(crate::text::lines(output@)) {
            Some(descriptor) => r matches Ok(d) && d@ == with_control(descriptor, operator_sid@),
            None => r matches Err(m) && m@ == "sc.exe sdshow returned no security descriptor"@,
        },
{
    let lines = text_lines(output);
    match find_descriptor(&lines) {
        Some(descriptor) => {
            let chars = to_chars(descriptor.as_str());
            let at = match text_find(descriptor.as_str(), "S:") {
                Some(at) => at,
                None => chars.len(),
            };
            let mut out = range_text(chars.as_slice(), 0, at);
            assert(out@ =~= descriptor@.take(at as int));
            let entry = join3("(A;;LCRPWP;;;", operator_sid, ")");
            out.append(entry.as_str());
            let rest = range_text(chars.as_slice(), at, chars.len());
            assert(rest@ =~= descriptor@.skip(at as int));
            out.append(rest.as_str());
            Ok(out)
        },
        None => Err("sc.exe sdshow returned no security descriptor".to_owned()),
    }
}

/// A grant takes nothing away: what it adds stands in one place, and without
/// it the descriptor is as it was.
pub proof fn law_grants_only_add(descriptor: Seq<char>, operator_sid: Seq<char>)
    ensures
        ({
            let at = access_end(descriptor);
            let granted = with_control(descriptor, operator_sid);
            let entry = control_entry(operator_sid);
            &&& 0 <= at <= descriptor.len()
            &&& granted.subrange(at, at + entry.len()) == entry
            &&& granted.take(at) + granted.skip(at + entry.len()) == descriptor
        }),
{
    let at = access_end(descriptor);
    let granted = with_control(descriptor, operator_sid);
    let entry = control_entry(operator_sid);
    if exists|i: int| crate::text::occurs_at(descriptor, "S:"@, i) {
        let i = choose|i: int| crate::text::occurs_at(descriptor, "S:"@, i);
        lemma_first_occurrence(descriptor, "S:"@, i);
    }
    assert(granted.subrange(at, at + entry.len()) =~= entry);
    assert(granted.take(at) + granted.skip(at + entry.len()) =~= descriptor);
}

proof fn lemma_first_occurrence(s: Seq<char>, p: Seq<char>, at: int)
    requires
        crate::text::occurs_at(s, p, at),
    ensures
        crate::text::find(s, p) matches Some(i) && crate::text::occurs_at(s, p, i),
    decreases at,
{
    if exists|j: int| 0 <= j < at && crate::text::occurs_at(s, p, j) {
        let j = choose|j: int| 0 <= j < at && crate::text::occurs_at(s, p, j);
        lemma_first_occurrence(s, p, j);
    } else {
        assert(crate::text::first_occurrence(s, p, at));
        crate::text::lemma_find(s, p, at);
    }
}

// ---------------------------------------------------------------------------
// The life of the service
// ---------------------------------------------------------------------------

/// Where a running service stands.
#[derive(Clone, Copy, Debug, PartialEq, Eq, Structural)]
pub enum ServicePhase {
    /// The entry point was called.
    Entered,
    /// The daemon is starting.
    Starting,
    /// The daemon said that it is ready, or that it is not.
    Started,
    /// The end was reported.
    Stopped,
}

/// What happened.
#[derive(Clone, Copy, Debug, PartialEq, Eq, Structural)]
pub enum ServiceEvent {
    /// The command line was read.
    Entered { config_found: bool },
    /// The daemon said whether it is ready, or went without a word.
    Startup { ready: bool },
    /// The daemon ended.
    Ended { clean: bool },
}

/// What the service reports.
#[derive(Clone, Copy, Debug, PartialEq, Eq, Structural)]
pub enum ServiceReport {
    Nothing,
    StartPending,
    Running,
    /// Stopped, with the exit code of the service.
    Stopped { exit_code: u32 },
}

/// A service between its start and its end.
#[derive(Clone, Copy, Debug, PartialEq, Eq, Structural)]
pub struct ServiceRun {
    pub phase: ServicePhase,
    pub failed: bool,
}

/// What comes after an event.
pub open spec fn service_next(run: ServiceRun, event: ServiceEvent) -> (ServiceRun, ServiceReport) {
    match (run.phase, event) {
        (ServicePhase::Entered, ServiceEvent::Entered { config_found }) => if config_found {
            (
                ServiceRun { phase: ServicePhase::Starting, failed: run.failed },
                ServiceReport::StartPending,
            )
        } else {
            (
                ServiceRun { phase: ServicePhase::Stopped, failed: true },
                ServiceReport::Stopped { exit_code: 1 },
            )
        },
        (ServicePhase::Starting, ServiceEvent::Startup { ready }) => (
            ServiceRun { phase: ServicePhase::Started, failed: run.failed || !ready },
            if ready {
                ServiceReport::Running
            } else {
                ServiceReport::Nothing
            },
        ),
        (ServicePhase::Started, ServiceEvent::Ended { clean }) => (
            ServiceRun { phase: ServicePhase::Stopped, failed: run.failed || !clean },
            ServiceReport::Stopped {
                exit_code: if run.failed || !clean {
                    1
                } else {
                    0
                },
            },
        ),
        _ => (run, ServiceReport::Nothing),
    }
}

impl ServiceRun {
    /// A service whose entry point was called.
    pub fn new() -> (r: Self)
        ensures
            r == (ServiceRun { phase: ServicePhase::Entered, failed: false }),
    {
        ServiceRun { phase: ServicePhase::Entered, failed: false }
    }

    /// Takes one event, and says what is reported.
    pub fn step(&mut self, event: ServiceEvent) -> (report: ServiceReport)
        ensures
            (*final(self), report) == service_next(*old(self), event),
    {
        match (self.phase, event) {
            (ServicePhase::Entered, ServiceEvent::Entered { config_found }) => {
                if config_found {
                    self.phase = ServicePhase::Starting;
                    ServiceReport::StartPending
                } else {
                    self.phase = ServicePhase::Stopped;
                    self.failed = true;
                    ServiceReport::Stopped { exit_code: 1 }
                }
            },
            (ServicePhase::Starting, ServiceEvent::Startup { ready }) => {
                self.phase = ServicePhase::Started;
                if ready {
                    ServiceReport::Running
                } else {
                    self.failed = true;
                    ServiceReport::Nothing
                }
            },
            (ServicePhase::Started, ServiceEvent::Ended { clean }) => {
                self.phase = ServicePhase::Stopped;
                if !clean {
                    self.failed = true;
                }
                let exit_code: u32 = if self.failed {
                    1
                } else {
                    0
                };
                ServiceReport::Stopped { exit_code }
            },
            _ => ServiceReport::Nothing,
        }
    }
}

/// A service never leaves the control manager waiting: one without a
/// configuration is reported as stopped at once, and one with a configuration
/// is reported as stopped when the daemon ends. It ends with 0 only where the
/// daemon became ready and ended cleanly.
pub proof fn law_services_report_their_end(ready: bool, clean: bool)
    ensures
        ({
            let start = ServiceRun { phase: ServicePhase::Entered, failed: false };
            let (a, starting) = service_next(start, ServiceEvent::Entered { config_found: true });
            let (b, started) = service_next(a, ServiceEvent::Startup { ready });
            let (_, ended) = service_next(b, ServiceEvent::Ended { clean });
            let (_, refused) = service_next(start, ServiceEvent::Entered { config_found: false });
            &&& starting is StartPending
            &&& started is Running <==> ready
            &&& ended matches ServiceReport::Stopped { exit_code }
            &&& exit_code == 0 <==> ready && clean
            &&& refused == (ServiceReport::Stopped { exit_code: 1 })
        }),
{
}

/// The configuration is what follows the first `--config` that something
/// follows; without one, what follows the equals sign of the first
/// `--config=`.
pub proof fn law_configurations_are_named_on_the_command_line(
    args: &Vec<String>,
    found: Option<String>,
    i: int,
    path: Seq<char>,
)
    requires
        call_ensures(config_path_from_command_line, (args,), found),
        0 <= i < args@.len(),
    ensures
        (i + 1 < args@.len() && args@[i]@ == "--config"@ && (forall|k: int|
            0 <= k < i ==> (#[trigger] args@[k])@ != "--config"@)) ==> (found matches Some(p) && p@
            == args@[i + 1]@),
        ((forall|k: int| 0 <= k < args@.len() ==> (#[trigger] args@[k])@ != "--config"@)
            && args@[i]@ == "--config="@ + path && (forall|k: int|
            0 <= k < i ==> !"--config="@.is_prefix_of((#[trigger] args@[k])@))) ==> (
        found matches Some(p) && p@ == path),
        ((forall|k: int| 0 <= k < args@.len() ==> (#[trigger] args@[k])@ != "--config"@) && (forall|
            k: int,
        |
            0 <= k < args@.len() ==> !"--config="@.is_prefix_of((#[trigger] args@[k])@)))
            ==> found is None,
{
    let texts = crate::text::texts(args@);
    assert forall|k: int| 0 <= k < texts.len() implies #[trigger] texts[k] == args@[k]@ by {}
    lemma_config_argument(texts, i);
    lemma_config_assignment(texts, i, path);
}

proof fn lemma_config_argument(args: Seq<Seq<char>>, i: int)
    ensures
        (0 <= i && i + 1 < args.len() && args[i] == "--config"@ && (forall|k: int|
            0 <= k < i ==> (#[trigger] args[k]) != "--config"@)) ==> config_argument(args) == Some(
            args[i + 1],
        ),
        (forall|k: int| 0 <= k < args.len() ==> (#[trigger] args[k]) != "--config"@)
            ==> config_argument(args) is None,
    decreases args.len(),
{
    if args.len() >= 2 {
        let rest = args.drop_first();
        lemma_config_argument(rest, i - 1);
        if 0 < i && i + 1 < args.len() {
            assert(rest[i - 1] == args[i] && rest[i] == args[i + 1]);
            if forall|k: int| 0 <= k < i ==> (#[trigger] args[k]) != "--config"@ {
                assert(args[0] != "--config"@);
                assert forall|k: int| 0 <= k < i - 1 implies (#[trigger] rest[k])
                    != "--config"@ by {
                    assert(rest[k] == args[k + 1]);
                }
            }
        }
        if forall|k: int| 0 <= k < args.len() ==> (#[trigger] args[k]) != "--config"@ {
            assert(args[0] != "--config"@);
            assert forall|k: int| 0 <= k < rest.len() implies (#[trigger] rest[k]) != "--config"@ by {
                assert(rest[k] == args[k + 1]);
            }
        }
    }
}

proof fn lemma_config_assignment(args: Seq<Seq<char>>, i: int, path: Seq<char>)
    ensures
        (0 <= i < args.len() && args[i] == "--config="@ + path && (forall|k: int|
            0 <= k < i ==> !"--config="@.is_prefix_of(#[trigger] args[k]))) ==> config_assignment(
            args,
        ) == Some(path),
        (forall|k: int| 0 <= k < args.len() ==> !"--config="@.is_prefix_of(#[trigger] args[k]))
            ==> config_assignment(args) is None,
    decreases args.len(),
{
    if args.len() > 0 {
        let rest = args.drop_first();
        lemma_config_assignment(rest, i - 1, path);
        lemma_prefix_taken("--config="@, path);
        if 0 < i < args.len() {
            assert(rest[i - 1] == args[i]);
            if forall|k: int| 0 <= k < i ==> !"--config="@.is_prefix_of(#[trigger] args[k]) {
                assert(!"--config="@.is_prefix_of(args[0]));
                assert forall|k: int| 0 <= k < i - 1 implies !"--config="@.is_prefix_of(
                    #[trigger] rest[k],
                ) by {
                    assert(rest[k] == args[k + 1]);
                }
            }
        }
        if forall|k: int| 0 <= k < args.len() ==> !"--config="@.is_prefix_of(#[trigger] args[k]) {
            assert(!"--config="@.is_prefix_of(args[0]));
            assert forall|k: int| 0 <= k < rest.len() implies !"--config="@.is_prefix_of(
                #[trigger] rest[k],
            ) by {
                assert(rest[k] == args[k + 1]);
            }
        }
    }
}

proof fn lemma_prefix_taken(prefix: Seq<char>, rest: Seq<char>)
    ensures
        crate::text::strip_prefix(prefix + rest, prefix) == Some(rest),
{
    assert((prefix + rest).subrange(0, prefix.len() as int) =~= prefix);
    assert((prefix + rest).skip(prefix.len() as int) =~= rest);
    assert((prefix + rest).subrange(prefix.len() as int, (prefix + rest).len() as int) =~= rest);
}

/// Verbatim paths lose their prefix: a share keeps the two backslashes that it
/// starts with, and any other path is left as it is.
pub proof fn law_paths_lose_their_prefix(
    rest: Seq<char>,
    share: &str,
    local: &str,
    plain: &str,
    of_share: String,
    of_local: String,
    of_plain: String,
)
    requires
        share@ == "\\\\?\\UNC\\"@ + rest,
        local@ == "\\\\?\\"@ + rest,
        rest.len() == 0 || rest[0] != 'U',
        !"\\\\?\\"@.is_prefix_of(plain@),
        call_ensures(strip_verbatim_prefix, (share,), of_share),
        call_ensures(strip_verbatim_prefix, (local,), of_local),
        call_ensures(strip_verbatim_prefix, (plain,), of_plain),
    ensures
        of_share@ == "\\\\"@ + rest,
        of_local@ == rest,
        of_plain@ == plain@,
{
    reveal_strlit("\\\\?\\UNC\\");
    reveal_strlit("\\\\?\\");
    lemma_prefix_taken("\\\\?\\UNC\\"@, rest);
    lemma_prefix_taken("\\\\?\\"@, rest);
    if "\\\\?\\UNC\\"@.is_prefix_of(plain@) {
        assert(plain@.subrange(0, 4) =~= "\\\\?\\"@) by {
            let head = plain@.subrange(0, "\\\\?\\UNC\\"@.len() as int);
            assert(head == "\\\\?\\UNC\\"@);
            assert forall|k: int| 0 <= k < 4 implies plain@[k] == "\\\\?\\"@[k] by {
                assert(plain@[k] == head[k]);
            }
        }
        assert("\\\\?\\"@.is_prefix_of(plain@));
    }
    if "\\\\?\\UNC\\"@.is_prefix_of(local@) {
        let head = local@.subrange(0, "\\\\?\\UNC\\"@.len() as int);
        assert(head == "\\\\?\\UNC\\"@);
        assert(local@[4] == head[4]);
        assert(local@[4] == rest[0]);
    }
}

/// An installed service runs under its own account, is started with its
/// configuration, and is opened in the firewall for the port it listens on.
pub proof fn law_services_are_installed_as_configured(
    config: &Config,
    listeners: &Vec<ListenConfig>,
    program_data: &str,
    canonical_path: &str,
    config_path: &str,
    planned: Result<InstallPlan, String>,
    port: u16,
    checked: Result<(), String>,
    name: &str,
    root: Result<String, String>,
    data: &str,
    path: &str,
)
    requires
        call_ensures(
            plan_install,
            (config, listeners, program_data, canonical_path, config_path),
            planned,
        ),
        call_ensures(tcp_port_of, (listeners,), port),
        name@ == config.transport.service_name@,
        call_ensures(validate_service_name, (name,), checked),
        data@ == program_data@,
        path@ == canonical_path@,
        !"\\\\?\\"@.is_prefix_of(data@) && !"\\\\?\\"@.is_prefix_of(path@),
        call_ensures(install_root_under, (data, path), root),
    ensures
        planned is Ok <==> checked is Ok && root is Ok,
        planned matches Ok(plan) ==> {
            &&& plan.name@ == name@
            &&& plan.account@ == "NT SERVICE\\"@ + name@
            &&& plan.launch_arguments@.len() == 2
            &&& plan.launch_arguments@[0]@ == "--config"@
            &&& plan.launch_arguments@[1]@ == config_path@
            &&& plan.tcp_port == port
            &&& plan.root@ == root->Ok_0@
            &&& (plan.operator_sid is Some <==> config.transport.operator_sid is Some)
            &&& config.transport.operator_sid matches Some(sid) ==> plan.operator_sid->0@ == sid@
        },
{
    lemma_plain(data@);
    lemma_plain(path@);
    if planned is Ok {
        let args = planned->Ok_0.launch_arguments@;
        let texts = crate::text::texts(args);
        assert(texts.len() == args.len());
        assert(texts[0] == args[0]@ && texts[1] == args[1]@);
    }
}

proof fn lemma_plain(path: Seq<char>)
    requires
        !"\\\\?\\"@.is_prefix_of(path),
    ensures
        plain_path(path) == path,
{
    reveal_strlit("\\\\?\\UNC\\");
    reveal_strlit("\\\\?\\");
    if "\\\\?\\UNC\\"@.is_prefix_of(path) {
        let head = path.subrange(0, "\\\\?\\UNC\\"@.len() as int);
        assert(head == "\\\\?\\UNC\\"@);
        assert forall|k: int| 0 <= k < 4 implies path[k] == "\\\\?\\"@[k] by {
            assert(path[k] == head[k]);
        }
        assert(path.subrange(0, 4) =~= "\\\\?\\"@);
    }
}

/// The firewall is opened for the rule and the port of the service alone, and
/// not at all where it listens on none; the rule is removed by its name.
pub proof fn law_firewalls_are_opened_for_one_port(
    name: &str,
    port: u16,
    script: Option<String>,
    removal: String,
)
    requires
        call_ensures(firewall_script, (name, port), script),
        call_ensures(firewall_removal_script, (name,), removal),
    ensures
        script is Some <==> port != 0,
        script matches Some(text) ==> crate::text::has_part(
            text@,
            "New-NetFirewallRule -DisplayName '"@ + (name@ + " WSL TCP"@),
        ),
        script matches Some(text) ==> crate::text::has_part(
            text@,
            " -LocalPort "@ + crate::text::decimal(port as nat) + " -InterfaceAlias 'vEthernet (WSL*'"@,
        ),
        crate::text::has_part(removal@, name@ + " WSL TCP"@),
        crate::text::has_part(removal@, "Remove-NetFirewallRule"@),
{
    let empty = Seq::<char>::empty();
    if script is Some {
        let text = script->0@;
        let head = "New-NetFirewallRule -DisplayName '"@ + (name@ + " WSL TCP"@);
        let middle = "' -Direction Inbound -Action Allow -Protocol TCP -LocalPort "@;
        let number = crate::text::decimal(port as nat);
        let tail = " -InterfaceAlias 'vEthernet (WSL*' -Profile Any"@;
        let before = "' -Direction Inbound -Action Allow -Protocol TCP"@;
        reveal_strlit("' -Direction Inbound -Action Allow -Protocol TCP -LocalPort ");
        reveal_strlit("' -Direction Inbound -Action Allow -Protocol TCP");
        reveal_strlit(" -LocalPort ");
        reveal_strlit(" -InterfaceAlias 'vEthernet (WSL*' -Profile Any");
        reveal_strlit(" -InterfaceAlias 'vEthernet (WSL*'");
        reveal_strlit(" -Profile Any");
        assert(text =~= empty + head + (middle + number + tail));
        crate::text::lemma_has_part(empty, head, middle + number + tail);
        assert(middle =~= before + " -LocalPort "@);
        assert(tail =~= " -InterfaceAlias 'vEthernet (WSL*'"@ + " -Profile Any"@);
        let wanted = " -LocalPort "@ + number + " -InterfaceAlias 'vEthernet (WSL*'"@;
        assert(text =~= (head + before) + wanted + " -Profile Any"@);
        crate::text::lemma_has_part(head + before, wanted, " -Profile Any"@);
    }
    let head = "Get-NetFirewallRule -DisplayName '"@;
    let tail = "' -ErrorAction SilentlyContinue | Remove-NetFirewallRule"@;
    crate::text::lemma_has_part(head, name@ + " WSL TCP"@, tail);
    reveal_strlit("' -ErrorAction SilentlyContinue | Remove-NetFirewallRule");
    reveal_strlit("Remove-NetFirewallRule");
    reveal_strlit("' -ErrorAction SilentlyContinue | ");
    assert(tail =~= "' -ErrorAction SilentlyContinue | "@ + "Remove-NetFirewallRule"@);
    let before = head + (name@ + " WSL TCP"@) + "' -ErrorAction SilentlyContinue | "@;
    assert(removal@ =~= before + "Remove-NetFirewallRule"@ + empty);
    crate::text::lemma_has_part(before, "Remove-NetFirewallRule"@, empty);
}

/// The operator is let in where the service shows a descriptor: the entry
/// stands at the end of the access part, and the rest stays as it is.
pub proof fn law_operators_are_granted_control(
    access: Seq<char>,
    output: &str,
    operator_sid: &str,
    granted: Result<String, String>,
    checked: Result<(), String>,
)
    requires
        crate::text::lines(output@) == seq![access],
        crate::text::trim(access) == access,
        "D:"@.is_prefix_of(access),
        crate::text::find(access, "S:"@) is None,
        call_ensures(granted_descriptor, (output, operator_sid), granted),
        call_ensures(check_operator_sid, (operator_sid,), checked),
    ensures
        granted matches Ok(text) && text@ == access + "(A;;LCRPWP;;;"@ + operator_sid@ + ")"@,
        checked is Ok <==> "S-1-"@.is_prefix_of(operator_sid@),
{
    let lines = seq![access];
    assert(lines[0] == access);
    assert(descriptor_line(lines) == Some(access));
    assert(granted->Ok_0@ =~= access + "(A;;LCRPWP;;;"@ + operator_sid@ + ")"@);
}

/// A service ends with zero exactly where it became ready and ended cleanly; it
/// is reported as running once it is ready.
pub proof fn law_services_go_through_their_life(
    one: &mut ServiceRun,
    two: &mut ServiceRun,
    three: &mut ServiceRun,
    new: ServiceRun,
    config_found: bool,
    ready: bool,
    clean: bool,
    a: ServiceReport,
    b: ServiceReport,
    c: ServiceReport,
)
    requires
        call_ensures(ServiceRun::new, (), new),
        *old(one) == new,
        call_ensures(ServiceRun::step, (one, ServiceEvent::Entered { config_found }), a),
        *old(two) == *final(one),
        call_ensures(ServiceRun::step, (two, ServiceEvent::Startup { ready }), b),
        *old(three) == *final(two),
        call_ensures(ServiceRun::step, (three, ServiceEvent::Ended { clean }), c),
    ensures
        config_found ==> a is StartPending,
        !config_found ==> a == (ServiceReport::Stopped { exit_code: 1 }) && b is Nothing && c
            is Nothing,
        config_found ==> (b is Running <==> ready),
        config_found ==> (c matches ServiceReport::Stopped { exit_code } && (exit_code == 0 <==>
            ready && clean) && (exit_code == 0 || exit_code == 1)),
{
}

/// The directories of a service are its root, the state and the browsers in it,
/// and those that the configuration names.
pub proof fn law_service_directories_are_listed(
    root: &str,
    state_dir: &str,
    browsers_path: &Option<String>,
    listed: Vec<String>,
    state: String,
    browsers: String,
    state_name: &str,
    browsers_name: &str,
)
    requires
        call_ensures(service_directories, (root, state_dir, browsers_path), listed),
        state_name@ == "state"@,
        browsers_name@ == "browsers"@,
        call_ensures(join_path, (root, state_name, Platform::Windows), state),
        call_ensures(join_path, (root, browsers_name, Platform::Windows), browsers),
    ensures
        listed@.len() == 5,
        listed@[0]@ == root@,
        listed@[1]@ == state@,
        listed@[2]@ == browsers@,
        listed@[3]@ == state_dir@,
        *browsers_path matches Some(path) ==> listed@[4]@ == path@,
        *browsers_path is None ==> listed@[4]@ == browsers@,
{
    let texts = crate::text::texts(listed@);
    assert(texts.len() == listed@.len());
    assert(texts[0] == listed@[0]@ && texts[1] == listed@[1]@ && texts[2] == listed@[2]@);
    assert(texts[3] == listed@[3]@ && texts[4] == listed@[4]@);
}

/// Where a descriptor has an audit part, the operator's entry stands before it.
pub proof fn law_grants_stand_before_the_audit_part(
    access: Seq<char>,
    audit: Seq<char>,
    output: &str,
    operator_sid: &str,
    granted: Result<String, String>,
)
    requires
        crate::text::find(access, "S:"@) is None,
        "D:"@.is_prefix_of(access),
        crate::text::lines(output@) == seq![access + "S:"@ + audit],
        crate::text::trim(access + "S:"@ + audit) == access + "S:"@ + audit,
        call_ensures(granted_descriptor, (output, operator_sid), granted),
    ensures
        granted matches Ok(text) && text@ == access + ("(A;;LCRPWP;;;"@ + operator_sid@ + ")"@)
            + "S:"@ + audit,
{
    reveal_strlit("S:");
    reveal_strlit("D:");
    let whole = access + "S:"@ + audit;
    let at = access.len() as int;
    let lines = seq![whole];
    assert(lines[0] == whole);
    assert(whole.subrange(0, 2) =~= access.subrange(0, 2));
    assert("D:"@.is_prefix_of(whole));
    assert(descriptor_line(lines) == Some(whole));
    assert(whole.subrange(at, at + 2) =~= "S:"@);
    assert forall|j: int| 0 <= j < at implies !crate::text::occurs_at(whole, "S:"@, j) by {
        if crate::text::occurs_at(whole, "S:"@, j) {
            let there = whole.subrange(j, j + 2);
            assert(there == "S:"@);
            assert(whole[j + 1] == there[1]);
            if j == at - 1 {
                assert(whole[j + 1] == "S:"@[0]);
            } else {
                assert(access.subrange(j, j + 2) =~= there);
                assert(crate::text::occurs_at(access, "S:"@, j));
            }
        }
    }
    crate::text::lemma_find(whole, "S:"@, at);
    assert(whole.take(at) =~= access);
    assert(whole.skip(at) =~= "S:"@ + audit);
    assert(granted->Ok_0@ =~= access + ("(A;;LCRPWP;;;"@ + operator_sid@ + ")"@) + "S:"@ + audit);
}

} // verus!
