//! Configuration, start, transports, the Windows service, the bridge, and the
//! command line.

use tegata::bridge::{
    bridge_error, bridge_preamble, check_token_mode, default_daemon_addr, ends_inside_line,
    first_request_id, opens_tunnel, push_line_byte, refusal_message, serves_client,
    splice_decision, token_of_file, tunnel_opened, BridgeConfig, LineRead, RelayAction,
    RelayEvent, RelayPhase, SpliceDecision, TunnelAction, TunnelEvent, TunnelPhase,
};
use tegata::cli::{cli_output, cli_request, CliCommand, CliReply};
use tegata::config::{
    build_state, check_platform, check_state_dir, choose_listeners, default_service_name,
    default_tcp_bind, join_path, normalize_listeners, provider_ttl_secs, resolve_executor_entry,
    resolve_state_paths, safe_path_component, session_ttl, tcp_port_of, uses_sealed_password,
    Config, ListenConfig, Platform, PlatformConfig, ProviderConfig, ProviderConfigKind, StateDir,
    StateDirPlan, UnlockMode, Vault, DEFAULT_MAX_PENDING_CONNECTIONS, DEFAULT_TCP_PORT,
};
use tegata::secure_fs::{
    blob_length, daemon_principals, is_restricted, plaintext_length, protected_dacl_sddl,
    sealed_blob, typed_password, unsealed_password, SealError,
};
use tegata::startup::{StartupAction, StartupEvent, StartupPhase};
use tegata::static_provider::EntryConfig;
use tegata::transport::{
    admits_sid, admits_uid, check_listener, check_tcp_bind, decide_tunnel, drain_length,
    pipe_descriptor, pipe_path, push_preamble_byte, reserve_pending_connection,
    socket_activation_enabled, valid_sid, windows_tcp_bind, wsl_address, Adapter, Ipv4,
    PeerIdentity, PreambleRead, TunnelDecision, MAX_PREAMBLE_BYTES,
};
use tegata::windows_service::{
    check_operator_sid, command_failure, config_path_from_command_line, firewall_removal_script,
    firewall_script, granted_descriptor, plan_install, powershell_command, service_directories,
    set_descriptor_command, show_descriptor_command, strip_verbatim_prefix, ServiceEvent,
    ServiceReport, ServiceRun,
};
use tegata::wire::{
    Params, Preamble, PreambleError, PreambleResponse, PreambleTunnel, RpcRequest, RpcResult,
};

fn texts(list: &[&str]) -> Vec<String> {
    list.iter().map(|s| (*s).to_owned()).collect()
}

fn config() -> Config {
    Config {
        state_dir: "/state".to_owned(),
        audit_log_path: "/state/audit.log".to_owned(),
        audit_log_max_bytes: None,
        approve_cmd: None,
        approve_timeout_secs: None,
        executor_entry: None,
        executor_socket: None,
        session_ttl_secs: None,
        unlock_mode: UnlockMode::Sealed,
        providers: vec![],
        listen: None,
        max_pending_connections: DEFAULT_MAX_PENDING_CONNECTIONS,
        transport: PlatformConfig {
            socket_path: Some("/run/tegatad.sock".to_owned()),
            allowed_uids: Some(vec![1000]),
            service_name: default_service_name(),
            pipe_name: default_service_name(),
            tcp_port: DEFAULT_TCP_PORT,
            tcp_bind: default_tcp_bind(),
            allowed_sids: texts(&["S-1-5-21-1"]),
            operator_sid: None,
            token_hash_path: None,
            sealed_blob_path: None,
            browsers_path: None,
            bw_path: None,
            node_path: None,
        },
    }
}

fn pass(namespace: &str) -> ProviderConfig {
    ProviderConfig {
        namespace: namespace.to_owned(),
        kind: ProviderConfigKind::Pass {
            store_dir: "/store".to_owned(),
            gnupghome: None,
            pass_bin: Some("/bin/pass".to_owned()),
            totp_exposable: texts(&["a", "b\"c"]),
            session_ttl_secs: Some(5),
        },
    }
}

// ---------------------------------------------------------------------------
// Configuration
// ---------------------------------------------------------------------------

#[test]
fn listen_and_legacy_socket_key_are_mutually_exclusive() {
    let mut mixed = config();
    mixed.listen =
        Some(vec![ListenConfig::Tcp { bind: "127.0.0.1".to_owned(), port: 1 }]);
    let text = "state_dir = \"/s\"\naudit_log_path = \"/a\"\nsocket_path = \"/l.sock\"\n\n[[listen]]\nkind = \"tcp\"\nbind = \"127.0.0.1\"\nport = 1\n";
    let refused = normalize_listeners(text, &mixed, Platform::Unix).err().expect("refused");
    assert!(refused.contains("listen cannot be combined"));
    // The key belongs to the other platform.
    assert!(normalize_listeners(text, &mixed, Platform::Windows).is_ok());
    let clean = "state_dir = \"/s\"\n\n[[listen]]\nkind = \"tcp\"\n[providers]\nsocket_path = 1\n";
    let listeners = normalize_listeners(clean, &mixed, Platform::Unix).ok().expect("accepted");
    assert_eq!(listeners.len(), 1);
    assert_eq!(tcp_port_of(&listeners), 1);
    let broken = normalize_listeners("a = ", &mixed, Platform::Unix).err().expect("broken");
    assert!(broken.starts_with("could not parse config: "));
}

#[test]
fn listeners_come_from_the_list_or_from_the_platform() {
    let none: Vec<String> = vec![];
    let legacy = choose_listeners(&none, &config(), Platform::Unix).ok().expect("legacy");
    match &legacy[0] {
        ListenConfig::Unix { path, allowed_uids, operator_uids } => {
            assert_eq!(path, "/run/tegatad.sock");
            assert_eq!(allowed_uids, &[1000]);
            assert!(operator_uids.is_empty());
        }
        _ => panic!("expected a socket"),
    }
    let mut missing = config();
    missing.transport.allowed_uids = None;
    let message = choose_listeners(&none, &missing, Platform::Unix).err();
    assert_eq!(message.as_deref(), Some("allowed_uids is required"));
    missing.transport.socket_path = None;
    let message = choose_listeners(&none, &missing, Platform::Unix).err();
    assert_eq!(message.as_deref(), Some("socket_path is required"));
    missing.listen = Some(vec![]);
    let message = choose_listeners(&none, &missing, Platform::Unix).err();
    assert_eq!(message.as_deref(), Some("listen must contain at least one listener"));
    let windows = choose_listeners(&none, &config(), Platform::Windows).ok().expect("windows");
    assert_eq!(windows.len(), 2);
    assert_eq!(tcp_port_of(&windows), 21575);
    let mut pipe_only = config();
    pipe_only.transport.tcp_port = 0;
    let windows = choose_listeners(&none, &pipe_only, Platform::Windows).ok().expect("windows");
    assert_eq!(windows.len(), 1);
    assert_eq!(tcp_port_of(&windows), 0);
}

#[test]
fn paths_are_joined_as_the_standard_library_does() {
    for base in ["", "/", "/state", "/state/", "state"] {
        let joined = std::path::Path::new(base).join("x/y");
        assert_eq!(join_path(base, "x/y", Platform::Unix), joined.to_string_lossy());
    }
    assert_eq!(join_path(r"C:\s", "x", Platform::Windows), r"C:\s\x");
    assert_eq!(join_path(r"C:\s\", "x", Platform::Windows), r"C:\s\x");
    assert_eq!(join_path("C:/s/", "x", Platform::Windows), "C:/s/x");
    assert_eq!(join_path("C:", "x", Platform::Windows), "C:x");
    assert_eq!(safe_path_component("a/../b c-d_é9"), "a____b_c-d__9");
}

#[test]
fn executors_are_found() {
    let entry = |a: Option<&str>, b: Option<&str>, c: Option<&str>| {
        resolve_executor_entry(
            &a.map(str::to_owned),
            &b.map(str::to_owned),
            &c.map(str::to_owned),
            Platform::Unix,
        )
    };
    assert_eq!(entry(Some("/a.js"), Some("/b.js"), None), "/a.js");
    assert_eq!(entry(None, Some("/b.js"), None), "/b.js");
    assert_eq!(
        entry(None, Some(""), Some("/opt/tegatad")),
        "/opt/tegatad/../../../packages/tegata-executor/dist/index.js"
    );
    assert_eq!(
        entry(None, None, None),
        "tegatad/../../../packages/tegata-executor/dist/index.js"
    );
    let mut custom = config();
    custom.transport.token_hash_path = Some("/elsewhere".to_owned());
    assert_eq!(
        resolve_state_paths(&custom, Platform::Unix),
        ("/state/token_hash".to_owned(), "/state/sealed.blob".to_owned())
    );
    assert_eq!(
        resolve_state_paths(&custom, Platform::Windows),
        ("/elsewhere".to_owned(), r"/state\sealed.blob".to_owned())
    );
}

#[test]
fn windows_refuses_what_it_cannot_do() {
    let mut refused = config();
    refused.providers = vec![pass("ns")];
    assert!(check_platform(&refused, Platform::Unix).is_ok());
    assert_eq!(
        check_platform(&refused, Platform::Windows),
        Err(
            "pass provider is only supported on Unix (namespace=ns, store_dir=/store, gnupghome=None, pass_bin=Some(\"/bin/pass\"), totp_exposable=[\"a\", \"b\\\"c\"], session_ttl_secs=Some(5))"
                .to_owned()
        )
    );
    refused.approve_cmd = Some("yes".to_owned());
    assert_eq!(
        check_platform(&refused, Platform::Windows),
        Err("approve_cmd is only supported on Unix".to_owned())
    );
    let mut fine = config();
    fine.providers = vec![ProviderConfig {
        namespace: "ci".to_owned(),
        kind: ProviderConfigKind::AgeFile {
            entries_path: "e".to_owned(),
            identity_path: "i".to_owned(),
            session_ttl_secs: None,
        },
    }];
    assert!(check_platform(&fine, Platform::Windows).is_ok());
    assert!(uses_sealed_password(Platform::Windows, UnlockMode::Sealed));
    assert!(!uses_sealed_password(Platform::Windows, UnlockMode::Askpass));
    assert!(!uses_sealed_password(Platform::Unix, UnlockMode::Sealed));
}

#[test]
fn the_state_is_built_from_the_configuration() {
    let mut full = config();
    full.session_ttl_secs = Some(120);
    full.approve_cmd = Some("ask".to_owned());
    full.executor_socket = Some("/e.sock".to_owned());
    full.transport.node_path = Some("n.exe".to_owned());
    full.providers = vec![
        ProviderConfig {
            namespace: "mock".to_owned(),
            kind: ProviderConfigKind::Mock {
                entries: vec![EntryConfig {
                    id: "site".to_owned(),
                    name: "Site".to_owned(),
                    uri: "u".to_owned(),
                    kind: "login".to_owned(),
                    username: "me".to_owned(),
                    password: "pw".to_owned(),
                    totp_seed: None,
                    totp_exposable: None,
                }],
            },
        },
        ProviderConfig {
            namespace: "v w".to_owned(),
            kind: ProviderConfigKind::BitwardenCli {
                server_url: "s".to_owned(),
                email: "e".to_owned(),
                askpass_cmd: "a".to_owned(),
                totp_exposable: vec![],
                session_ttl_secs: Some(7),
            },
        },
        pass("p"),
    ];
    assert_eq!(provider_ttl_secs(&full.providers[0].kind, Platform::Unix), None);
    assert_eq!(provider_ttl_secs(&full.providers[2].kind, Platform::Unix), Some(5));
    assert_eq!(provider_ttl_secs(&full.providers[2].kind, Platform::Windows), None);
    let plan = build_state(full, &None, &None, Platform::Unix);
    assert_eq!(plan.registry, ["me", "pw"]);
    assert_eq!(plan.session_ttl_secs, 120);
    assert_eq!(plan.approve_timeout_secs, 60);
    assert_eq!(plan.approve_cmd.as_deref(), Some("ask"));
    assert_eq!(plan.executor_socket.as_deref(), Some("/e.sock"));
    assert_eq!(plan.node_path, "node");
    assert!(plan.browsers_path.is_none());
    assert_eq!(plan.providers.len(), 3);
    assert!(matches!(plan.providers[0].vault, Vault::Static(_)));
    match &plan.providers[1].vault {
        Vault::Bitwarden(vault) => {
            assert!(!vault.locked());
            assert!(vault.locked_refs().is_none());
            let command = vault.command(&vault.list_run());
            assert_eq!(
                command.env[0],
                ("BW_APPDATA_DIR".to_owned(), "/state/bw-v_w".to_owned())
            );
        }
        _ => panic!("expected a client"),
    }
    match &plan.providers[2].vault {
        Vault::Pass(vault) => {
            assert!(vault.locked());
            assert!(vault.list_refs().is_empty());
        }
        _ => panic!("expected a password store"),
    }
    assert_eq!(session_ttl(&plan.provider_ttls, "v w", 120), 7);
    assert_eq!(session_ttl(&plan.provider_ttls, "p", 120), 5);
    assert_eq!(session_ttl(&plan.provider_ttls, "mock", 120), 120);
    let default = build_state(config(), &Some("/x.js".to_owned()), &None, Platform::Windows);
    assert_eq!(default.session_ttl_secs, 300);
    assert_eq!(default.executor_entry, "/x.js");
}

#[test]
fn state_directories_must_be_private() {
    let check = |found: StateDir| check_state_dir("/state", found, Platform::Unix);
    assert!(matches!(check(StateDir::Missing), StateDirPlan::Create));
    assert!(matches!(
        check(StateDir::Present { mode: 0o40700, own: true }),
        StateDirPlan::Use
    ));
    match check(StateDir::Present { mode: 0o40755, own: true }) {
        StateDirPlan::Refuse(m) => assert_eq!(m, "state_dir /state must have permissions 0700"),
        other => panic!("{other:?}"),
    }
    match check(StateDir::Symlink) {
        StateDirPlan::Refuse(m) => assert_eq!(m, "state_dir /state must not be a symlink"),
        other => panic!("{other:?}"),
    }
    assert!(matches!(
        check(StateDir::Present { mode: 0o40700, own: false }),
        StateDirPlan::Refuse(_)
    ));
    assert!(matches!(
        check_state_dir("s", StateDir::Present { mode: 0, own: false }, Platform::Windows),
        StateDirPlan::Use
    ));
}

// ---------------------------------------------------------------------------
// The start
// ---------------------------------------------------------------------------

#[test]
fn a_start_goes_through_its_phases() {
    let mut custom = config();
    custom.executor_socket = Some("/e.sock".to_owned());
    let mut phase = StartupPhase::Reading;
    let mut step = |event: StartupEvent| phase.step(&custom, Platform::Unix, true, event);
    match step(StartupEvent::Read(None)) {
        StartupAction::RemovePasswords(path) => assert_eq!(path, "/state/.bw-passwords"),
        other => panic!("{other:?}"),
    }
    match step(StartupEvent::Cleaned) {
        StartupAction::AskExecutor(path) => assert_eq!(path, "/e.sock"),
        other => panic!("{other:?}"),
    }
    match step(StartupEvent::Executor(Ok(1001))) {
        StartupAction::Inspect { announce, path } => {
            assert_eq!(announce, "executor: socket /e.sock (uid 1001)");
            assert_eq!(path, "/state");
        }
        other => panic!("{other:?}"),
    }
    assert!(matches!(step(StartupEvent::Found(StateDir::Missing)), StartupAction::Create(_)));
    match step(StartupEvent::Created(None)) {
        StartupAction::LoadPeers { peers_path, token_hash_path } => {
            assert_eq!(peers_path, "/state/peers.json");
            assert_eq!(token_hash_path, "/state/token_hash");
        }
        other => panic!("{other:?}"),
    }
    assert!(matches!(step(StartupEvent::Loaded(None)), StartupAction::Bind));
    match step(StartupEvent::Bound(None)) {
        StartupAction::Serve { ready_line } => {
            assert_eq!(ready_line.as_deref(), Some("{\"ready\":true}"));
        }
        other => panic!("{other:?}"),
    }
}

#[test]
fn starts_fail_with_their_reasons() {
    let plain = config();
    let fails = |phase: StartupPhase, event: StartupEvent| {
        let mut phase = phase;
        match phase.step(&plain, Platform::Unix, false, event) {
            StartupAction::Fail(m) => m,
            other => panic!("{other:?}"),
        }
    };
    let reason = || Some("broken".to_owned());
    assert_eq!(fails(StartupPhase::Reading, StartupEvent::Read(reason())), "broken");
    assert_eq!(fails(StartupPhase::Creating, StartupEvent::Created(reason())), "broken");
    assert_eq!(fails(StartupPhase::Loading, StartupEvent::Loaded(reason())), "broken");
    assert_eq!(fails(StartupPhase::Binding, StartupEvent::Bound(reason())), "broken");
    let no = StartupEvent::Executor(Err("executor must not run as root".to_owned()));
    assert_eq!(fails(StartupPhase::Asking, no), "executor must not run as root");
    let open = StartupEvent::Found(StateDir::Present { mode: 0o755, own: true });
    assert!(fails(StartupPhase::Inspecting, open).contains("0700"));
    let mut phase = StartupPhase::Cleaning;
    match phase.step(&plain, Platform::Unix, false, StartupEvent::Cleaned) {
        StartupAction::Inspect { announce, .. } => {
            assert_eq!(announce, "executor: spawned by the daemon (browser is not isolated)");
        }
        other => panic!("{other:?}"),
    }
    let mut windows = config();
    windows.approve_cmd = Some("ask".to_owned());
    let mut phase = StartupPhase::Cleaning;
    let action = phase.step(&windows, Platform::Windows, false, StartupEvent::Cleaned);
    assert!(matches!(action, StartupAction::Fail(_)));
}

// ---------------------------------------------------------------------------
// Transports
// ---------------------------------------------------------------------------

#[test]
fn clients_are_let_in_by_who_they_are() {
    assert!(matches!(admits_uid(Some(5), &[5], &[]), Some(PeerIdentity::Uid(5))));
    assert!(matches!(admits_uid(Some(6), &[5], &[6]), Some(PeerIdentity::Uid(6))));
    assert!(admits_uid(Some(0), &[], &[]).is_some());
    assert!(admits_uid(Some(7), &[5], &[6]).is_none());
    assert!(admits_uid(None, &[5], &[]).is_none());
    let allowed = texts(&["S-1-5-21-1"]);
    let sid = |name: &str, elevated: bool, administrator: bool| {
        admits_sid(name.to_owned(), elevated, administrator, &allowed)
    };
    let normal = sid("S-1-5-21-1", false, false).expect("allowed");
    assert!(normal.allows_normal_rpc(&[]));
    assert!(!normal.allows_admin_rpc(&[]));
    assert_eq!(normal.principal(), "sid:S-1-5-21-1");
    let admin = sid("S-1-5-21-2", true, true).expect("administrator");
    assert!(!admin.allows_normal_rpc(&[]));
    assert!(admin.allows_admin_rpc(&[]));
    assert!(sid("S-1-5-21-2", true, false).is_none());
    assert!(sid("S-1-5-21-2", false, true).is_none());
    let token = PeerIdentity::Peer { peer_id: "p_1".to_owned(), label: "ci".to_owned() };
    assert!(token.allows_normal_rpc(&[]));
    assert!(!token.allows_admin_rpc(&[0]));
    assert_eq!(token.copy().approval_name(), "peer:p_1");
    assert!(!PeerIdentity::System.allows_normal_rpc(&[]));
    assert_eq!(PeerIdentity::System.principal(), "system");
}

#[test]
fn preamble_lines_have_a_limit() {
    let mut line = vec![];
    for _ in 1..MAX_PREAMBLE_BYTES {
        assert_eq!(push_preamble_byte(&mut line, b'a'), PreambleRead::More);
    }
    let mut longest = line.clone();
    assert_eq!(push_preamble_byte(&mut longest, b'\n'), PreambleRead::Complete);
    assert_eq!(push_preamble_byte(&mut line, b'a'), PreambleRead::TooLong);
    assert_eq!(reserve_pending_connection(7, 8), Some(8));
    assert_eq!(reserve_pending_connection(8, 8), None);
    assert_eq!(drain_length(100, 4096), 100);
    assert_eq!(drain_length(65536, 4096), 4096);
}

#[test]
fn tunnels_are_decided_by_port() {
    let tunnel = |port: u16| Some(PreambleTunnel { session_id: "s".to_owned(), port });
    assert_eq!(decide_tunnel(&None, Some(9222)), TunnelDecision::Rpc);
    assert_eq!(decide_tunnel(&tunnel(9222), Some(9222)), TunnelDecision::Tunnel(9222));
    assert_eq!(
        decide_tunnel(&tunnel(9223), Some(9222)),
        TunnelDecision::Refuse(PreambleError::Forbidden)
    );
    assert_eq!(
        decide_tunnel(&tunnel(9222), None),
        TunnelDecision::Refuse(PreambleError::NotFound)
    );
}

#[test]
fn refusals_are_fixed_lines() {
    assert_eq!(
        PreambleError::Unauthorized.refusal_line(),
        "{\"ok\":false,\"error\":\"UNAUTHORIZED\"}\n"
    );
    assert_eq!(
        PreambleError::Forbidden.refusal_line(),
        "{\"ok\":false,\"error\":\"FORBIDDEN\"}\n"
    );
    assert_eq!(
        PreambleError::NotFound.refusal_line(),
        "{\"ok\":false,\"error\":\"NOT_FOUND\"}\n"
    );
    assert!(PreambleResponse::accepted().ok);
    let refused = PreambleResponse::refused(PreambleError::Forbidden);
    assert!(!refused.ok);
    assert_eq!(refused.error.as_deref(), Some("FORBIDDEN"));
    let secret = Preamble { v: 1, auth: "token".to_owned(), tunnel: None };
    assert_eq!(secret.redacted().auth, "<redacted>");
}

#[test]
fn unspecified_tcp_bind_is_rejected() {
    let refused = check_tcp_bind(Some(&[0, 0, 0, 0])).expect_err("unspecified");
    assert!(refused.contains("unspecified address"));
    assert!(check_tcp_bind(Some(&[127, 0, 0, 1])).is_ok());
    assert_eq!(
        check_tcp_bind(None),
        Err("tcp bind must be an explicit IP address".to_owned())
    );
}

#[test]
fn listeners_belong_to_platforms() {
    let pipe =
        ListenConfig::Pipe { name: "p".to_owned(), allowed_sids: vec![], operator_sid: None };
    assert_eq!(
        check_listener(&pipe, Platform::Unix),
        Err("pipe listeners are only supported on Windows".to_owned())
    );
    assert!(check_listener(&pipe, Platform::Windows).is_ok());
    let tcp = ListenConfig::Tcp { bind: "x".to_owned(), port: 1 };
    assert!(check_listener(&tcp, Platform::Unix).is_ok());
    let some = |s: &str| Some(s.to_owned());
    assert!(socket_activation_enabled(&some("1"), &some("42"), 42));
    assert!(!socket_activation_enabled(&some("2"), &some("42"), 42));
    assert!(!socket_activation_enabled(&some("1"), &some("43"), 42));
    assert!(!socket_activation_enabled(&None, &some("42"), 42));
}

#[test]
fn pipes_have_names_and_descriptors() {
    assert_eq!(pipe_path("tegatad"), Ok(r"\\.\pipe\tegatad".to_owned()));
    for bad in ["", ".", r"a\b", "a/b", "a\0"] {
        assert!(pipe_path(bad).is_err());
    }
    assert!(valid_sid("S-1-5-21-1"));
    assert!(valid_sid("S-1-x"));
    for bad in ["S-1", "S-2-5", "s-1-5", "S-1-5-", "S-1-5-x"] {
        assert!(!valid_sid(bad), "{bad}");
    }
    assert_eq!(
        pipe_descriptor(&texts(&["S-1-5-21-1"]), "S-1-5-80-2"),
        Ok("D:(A;;GA;;;S-1-5-80-2)(A;;GA;;;BA)(A;;GA;;;SY)(A;;GA;;;S-1-5-21-1)".to_owned())
    );
    assert_eq!(
        pipe_descriptor(&texts(&["me"]), "S-1-5-80-2"),
        Err("allowed_sids must contain Windows SIDs".to_owned())
    );
    assert_eq!(
        pipe_descriptor(&vec![], "me"),
        Err("the daemon account must resolve to a Windows SID".to_owned())
    );
}

#[test]
fn windows_listens_where_wsl_is() {
    let address = |d: u8| Ipv4 { a: 172, b: 20, c: 0, d };
    let adapter = |name: &str, addresses: Vec<Ipv4>| Adapter {
        friendly_name: name.to_owned(),
        addresses,
    };
    let adapters = vec![
        adapter("Ethernet", vec![address(1)]),
        adapter("vEthernet (WSL)", vec![]),
        adapter("vEthernet (WSL (Hyper-V firewall))", vec![address(2), address(3)]),
    ];
    assert_eq!(wsl_address(&adapters), Some(address(2)));
    assert_eq!(windows_tcp_bind("auto", None, &adapters), Ok(address(2)));
    assert_eq!(
        windows_tcp_bind("auto", None, &vec![]),
        Err("could not resolve an IPv4 address for a vEthernet (WSL adapter)".to_owned())
    );
    assert_eq!(windows_tcp_bind("172.20.0.9", Some(address(9)), &adapters), Ok(address(9)));
    assert_eq!(
        windows_tcp_bind("here", None, &adapters),
        Err("tcp_bind must be `auto` or an IPv4 address".to_owned())
    );
}

// ---------------------------------------------------------------------------
// The Windows service
// ---------------------------------------------------------------------------

#[test]
fn strips_verbatim_drive_prefix() {
    assert_eq!(
        strip_verbatim_prefix(r"\\?\C:\ProgramData\tegata"),
        r"C:\ProgramData\tegata"
    );
}

#[test]
fn strips_verbatim_unc_prefix() {
    assert_eq!(
        strip_verbatim_prefix(r"\\?\UNC\server\share\x"),
        r"\\server\share\x"
    );
    assert_eq!(strip_verbatim_prefix(r"C:\x"), r"C:\x");
}

#[test]
fn the_configuration_is_named_on_the_command_line() {
    let path = |args: &[&str]| config_path_from_command_line(&texts(args));
    assert_eq!(path(&["d", "--config", "c.toml"]), Some("c.toml".to_owned()));
    assert_eq!(path(&["d", "--config=c.toml"]), Some("c.toml".to_owned()));
    assert_eq!(
        path(&["d", "--config=first", "--config", "second"]),
        Some("second".to_owned())
    );
    assert_eq!(path(&["d", "--config"]), None);
    assert_eq!(path(&[]), None);
}

#[test]
fn services_are_installed_under_program_data() {
    let custom = config();
    let listeners = vec![ListenConfig::Tcp { bind: "auto".to_owned(), port: 21575 }];
    let plan = plan_install(
        &custom,
        &listeners,
        r"\\?\C:\ProgramData",
        r"\\?\C:\ProgramData\tegata\config.toml",
        r"C:\ProgramData\tegata\config.toml",
    )
    .ok()
    .expect("plan");
    assert_eq!(plan.name, "tegatad");
    assert_eq!(plan.account, r"NT SERVICE\tegatad");
    assert_eq!(
        plan.launch_arguments,
        ["--config", r"C:\ProgramData\tegata\config.toml"]
    );
    assert_eq!(plan.tcp_port, 21575);
    assert_eq!(plan.root, r"C:\ProgramData\tegata");
    let outside =
        plan_install(&custom, &listeners, r"C:\ProgramData", r"C:\Users\a\c.toml", "c.toml");
    assert!(outside.err().expect("outside").contains("%ProgramData%"));
    let mut named = config();
    named.transport.service_name = "a'b".to_owned();
    let bad = plan_install(&named, &listeners, r"C:\ProgramData", r"C:\Users\a\c.toml", "c.toml");
    assert!(bad.err().expect("name").contains("letters"));
    assert_eq!(
        service_directories(r"C:\r", r"C:\s", &None),
        [r"C:\r", r"C:\r\state", r"C:\r\browsers", r"C:\s", r"C:\r\browsers"]
    );
}

#[test]
fn scripts_open_and_close_the_firewall() {
    assert_eq!(
        firewall_script("tegatad", 21575).expect("script"),
        "New-NetFirewallRule -DisplayName 'tegatad WSL TCP' -Direction Inbound -Action Allow -Protocol TCP -LocalPort 21575 -InterfaceAlias 'vEthernet (WSL*' -Profile Any"
    );
    assert_eq!(firewall_script("tegatad", 0), None);
    assert_eq!(
        firewall_removal_script("tegatad"),
        "Get-NetFirewallRule -DisplayName 'tegatad WSL TCP' -ErrorAction SilentlyContinue | Remove-NetFirewallRule"
    );
    let command = powershell_command("x");
    assert_eq!(command.program, "powershell.exe");
    assert_eq!(command.args, ["-NoProfile", "-NonInteractive", "-Command", "x"]);
    assert_eq!(command_failure("sc.exe", "no"), "sc.exe failed: no");
}

#[test]
fn operators_are_granted_control() {
    assert!(check_operator_sid("S-1-5-21-1").is_ok());
    assert_eq!(
        check_operator_sid("me"),
        Err("operator_sid must be a Windows SID".to_owned())
    );
    assert_eq!(
        granted_descriptor("\r\n D:(A;;CC;;;SY)S:(AU;FA;WD) \r\n", "S-1-5-9"),
        Ok("D:(A;;CC;;;SY)(A;;LCRPWP;;;S-1-5-9)S:(AU;FA;WD)".to_owned())
    );
    assert_eq!(
        granted_descriptor("D:(A;;CC;;;SY)", "S-1-5-9"),
        Ok("D:(A;;CC;;;SY)(A;;LCRPWP;;;S-1-5-9)".to_owned())
    );
    assert_eq!(
        granted_descriptor("nothing", "S-1-5-9"),
        Err("sc.exe sdshow returned no security descriptor".to_owned())
    );
    assert_eq!(show_descriptor_command("t").args, ["sdshow", "t"]);
    assert_eq!(set_descriptor_command("t", "D:").args, ["sdset", "t", "D:"]);
}

#[test]
fn services_report_their_end() {
    let mut run = ServiceRun::new();
    assert_eq!(
        run.step(ServiceEvent::Entered { config_found: false }),
        ServiceReport::Stopped { exit_code: 1 }
    );
    for (ready, clean, exit_code) in [(true, true, 0), (true, false, 1), (false, true, 1)] {
        let mut run = ServiceRun::new();
        assert_eq!(
            run.step(ServiceEvent::Entered { config_found: true }),
            ServiceReport::StartPending
        );
        let report = run.step(ServiceEvent::Startup { ready });
        assert_eq!(report == ServiceReport::Running, ready);
        assert_eq!(
            run.step(ServiceEvent::Ended { clean }),
            ServiceReport::Stopped { exit_code }
        );
    }
}

#[test]
fn access_lists_name_the_daemon_and_the_system() {
    let principals = daemon_principals("S-1-5-80-1".to_owned());
    assert_eq!(
        protected_dacl_sddl(true, &principals),
        "D:P(A;OICI;FA;;;S-1-5-80-1)(A;OICI;FA;;;SY)"
    );
    assert_eq!(
        protected_dacl_sddl(false, &principals),
        "D:P(A;;FA;;;S-1-5-80-1)(A;;FA;;;SY)"
    );
    let some = |s: &str| Some(s.to_owned());
    assert!(is_restricted(true, &None, &None));
    assert!(is_restricted(false, &some("a"), &some("a")));
    assert!(!is_restricted(false, &some("a"), &some("b")));
    assert!(!is_restricted(false, &some("a"), &None));
}

#[test]
fn passwords_are_sealed_and_unsealed() {
    assert_eq!(plaintext_length(0), Err(SealError::InvalidPlaintext));
    assert_eq!(plaintext_length(5), Ok(5));
    assert_eq!(blob_length(0), Err(SealError::InvalidBlob));
    assert_eq!(blob_length(7), Ok(7));
    assert_eq!(sealed_blob(None), Err(SealError::Protect));
    assert_eq!(sealed_blob(Some(vec![])), Err(SealError::InvalidBlob));
    assert_eq!(sealed_blob(Some(vec![1])), Ok(vec![1]));
    assert_eq!(unsealed_password(None).err(), Some(SealError::Unprotect));
    assert_eq!(unsealed_password(Some(vec![])).err(), Some(SealError::InvalidBlob));
    assert_eq!(
        unsealed_password(Some(vec![0xff])).err(),
        Some(SealError::InvalidPlaintext)
    );
    let password = unsealed_password(Some(b"pw".to_vec())).ok().expect("password");
    assert_eq!(password.as_str(), "pw");
    assert_eq!(typed_password(" pw \r\n\n".to_owned()), " pw ");
}

// ---------------------------------------------------------------------------
// The bridge
// ---------------------------------------------------------------------------

#[test]
fn the_daemon_is_behind_the_default_route() {
    let heading = "Iface\tDestination\tGateway\tFlags\n";
    let address = |lines: &str| default_daemon_addr(&format!("{heading}{lines}"));
    assert_eq!(
        address("eth0\t00000000\t011014AC\t0003\n"),
        Ok("172.20.16.1:21575".to_owned())
    );
    assert_eq!(
        address("eth0\t00000000\t00000000\t0001\neth0\t00000000\tzz1014AC\t3\neth1\t00000000\t0100007f\t3\n"),
        Ok("127.0.0.1:21575".to_owned())
    );
    assert_eq!(
        address("eth0\t00001014\t011014AC\t0003\n"),
        Err("no default route in /proc/net/route".to_owned())
    );
    assert_eq!(address("eth0 00000000 +f+f+f+f"), Ok("15.15.15.15:21575".to_owned()));
    assert!(address("eth0 00000000 -f000000").is_err());
    assert!(default_daemon_addr("").is_err());
    assert!(default_daemon_addr("eth0\t00000000\t011014AC").is_err());
}

#[test]
fn tokens_of_the_bridge_are_private() {
    assert!(check_token_mode(0o100600).is_ok());
    assert_eq!(
        check_token_mode(0o100644),
        Err("token file must have permissions 0600".to_owned())
    );
    assert!(check_token_mode(0o104600).is_err());
    assert_eq!(token_of_file("test-token\n"), "test-token");
    assert!(serves_client(Some(5), 5));
    assert!(!serves_client(Some(5), 6));
    assert!(!serves_client(None, 6));
    let bridge = BridgeConfig {
        socket_path: "/b.sock".to_owned(),
        token_file: "/t".to_owned(),
        daemon_addr: "127.0.0.1:21575".to_owned(),
    };
    assert_eq!(bridge.socket_path, "/b.sock");
    let preamble = bridge_preamble("test-token", None);
    assert_eq!((preamble.v, preamble.auth.as_str()), (1, "test-token"));
    assert!(preamble.tunnel.is_none());
}

fn refusal(code: &str) -> PreambleResponse {
    PreambleResponse { ok: false, error: Some(code.to_owned()) }
}

#[test]
fn failures_before_the_first_answer_are_told() {
    let fails = |events: Vec<RelayEvent>| {
        let mut phase = RelayPhase::Connecting;
        let mut last = RelayAction::Close;
        for event in events {
            last = phase.step(event);
        }
        match last {
            RelayAction::Fail(m) => m,
            other => panic!("{other:?}"),
        }
    };
    let open = || {
        vec![RelayEvent::Connected(true), RelayEvent::Greeted(true), RelayEvent::Sent(true)]
    };
    assert_eq!(fails(vec![RelayEvent::Connected(false)]), "INTERNAL");
    assert_eq!(
        fails(vec![RelayEvent::Connected(true), RelayEvent::Greeted(false)]),
        "INTERNAL"
    );
    let mut unsent = open();
    unsent[2] = RelayEvent::Sent(false);
    assert_eq!(fails(unsent), "INTERNAL");
    for (code, told) in
        [("UNAUTHORIZED", "UNAUTHORIZED"), ("FORBIDDEN", "FORBIDDEN"), ("NOT_FOUND", "INTERNAL")]
    {
        let mut events = open();
        events.push(RelayEvent::Line(Some(refusal(code))));
        assert_eq!(fails(events), told);
    }
    let mut ended = open();
    ended.push(RelayEvent::End);
    assert_eq!(fails(ended), "INTERNAL");
    assert_eq!(refusal_message(&None), "INTERNAL");
}

#[test]
fn later_lines_are_passed_on() {
    let mut phase = RelayPhase::Connecting;
    assert!(matches!(phase.step(RelayEvent::Connected(true)), RelayAction::Greet));
    assert!(matches!(phase.step(RelayEvent::Greeted(true)), RelayAction::Send));
    assert!(matches!(phase.step(RelayEvent::Sent(true)), RelayAction::Relay));
    assert!(matches!(phase.step(RelayEvent::Line(None)), RelayAction::PassOn));
    let line = RelayEvent::Line(Some(refusal("UNAUTHORIZED")));
    assert!(matches!(phase.step(line), RelayAction::PassOn));
    assert!(matches!(phase.step(RelayEvent::End), RelayAction::Close));
}

#[test]
fn tunnels_open_after_the_daemon_agreed() {
    let mut phase = TunnelPhase::Reading;
    assert!(matches!(phase.step(TunnelEvent::Params(true)), TunnelAction::Connect));
    assert!(matches!(phase.step(TunnelEvent::Connected(true)), TunnelAction::Greet));
    assert!(matches!(phase.step(TunnelEvent::Greeted(true)), TunnelAction::Await));
    let accepted = TunnelEvent::Reply(Some(PreambleResponse::accepted()));
    assert!(matches!(phase.step(accepted), TunnelAction::Bind));
    assert!(matches!(phase.step(TunnelEvent::Bound(Some(4000))), TunnelAction::Serve(4000)));
    let told = |phase: TunnelPhase, event: TunnelEvent| {
        let mut phase = phase;
        match phase.step(event) {
            TunnelAction::Fail(m) => m,
            other => panic!("{other:?}"),
        }
    };
    assert_eq!(told(TunnelPhase::Reading, TunnelEvent::Params(false)), "INTERNAL");
    assert_eq!(told(TunnelPhase::Connecting, TunnelEvent::Connected(false)), "INTERNAL");
    assert_eq!(told(TunnelPhase::Greeting, TunnelEvent::Greeted(false)), "INTERNAL");
    assert_eq!(told(TunnelPhase::AwaitingReply, TunnelEvent::Reply(None)), "INTERNAL");
    let refused = TunnelEvent::Reply(Some(refusal("FORBIDDEN")));
    assert_eq!(told(TunnelPhase::AwaitingReply, refused), "FORBIDDEN");
    let mut phase = TunnelPhase::Binding;
    assert!(matches!(phase.step(TunnelEvent::Bound(None)), TunnelAction::Close));
    assert_eq!(
        splice_decision(true, &Some(PreambleResponse::accepted())),
        SpliceDecision::Splice
    );
    assert_eq!(splice_decision(true, &Some(refusal("x"))), SpliceDecision::Close);
    assert_eq!(splice_decision(true, &None), SpliceDecision::Invalid);
    assert_eq!(splice_decision(false, &None), SpliceDecision::Close);
}

#[test]
fn the_bridge_answers_for_itself() {
    let request = |method: &str| {
        Some(RpcRequest {
            jsonrpc: "2.0".to_owned(),
            id: "7".to_owned(),
            method: method.to_owned(),
            params: Params::Null,
        })
    };
    assert!(opens_tunnel(&request("bridge_open_tunnel")));
    assert!(!opens_tunnel(&request("status")));
    assert!(!opens_tunnel(&None));
    assert_eq!(first_request_id(&request("status")), "7");
    assert_eq!(first_request_id(&None), "null");
    let failed = bridge_error("7".to_owned(), "INTERNAL".to_owned());
    let error = failed.error.expect("error");
    assert_eq!((error.code, error.message.as_str()), (-32000, "INTERNAL"));
    let opened = tunnel_opened("7".to_owned(), 4000);
    assert!(matches!(opened.result, Some(RpcResult::Tunnel { local_port: 4000 })));
}

#[test]
fn lines_are_read_byte_by_byte() {
    let mut bytes = vec![];
    assert!(matches!(push_line_byte(&mut bytes, b'o'), LineRead::More));
    assert!(ends_inside_line(&bytes));
    assert!(matches!(push_line_byte(&mut bytes, b'\n'), LineRead::Line(l) if l == "o\n"));
    assert!(!ends_inside_line(&bytes));
    push_line_byte(&mut bytes, 0xff);
    assert!(matches!(push_line_byte(&mut bytes, b'\n'), LineRead::NotText));
}

// ---------------------------------------------------------------------------
// The command line
// ---------------------------------------------------------------------------

fn reply(result: Option<&str>, token: Option<&str>, peer_id: Option<&str>) -> CliReply {
    CliReply {
        response: "{}".to_owned(),
        error: None,
        result: result.map(str::to_owned),
        token: token.map(str::to_owned),
        peer_id: peer_id.map(str::to_owned),
    }
}

#[test]
fn commands_make_requests() {
    let issue = CliCommand::IssuePeer { label: "ci".to_owned() };
    let request = cli_request(&issue);
    assert_eq!(request.method, "admin_peer_issue");
    assert_eq!(request.param, Some(("label", "ci".to_owned())));
    assert_eq!(cli_request(&CliCommand::Status).method, "status");
    assert_eq!(cli_request(&CliCommand::ListPeers).method, "admin_peer_list");
    let revoke = CliCommand::RevokePeer { peer_id: "p".to_owned() };
    assert_eq!(cli_request(&revoke).param, Some(("peer_id", "p".to_owned())));
    let seal = CliCommand::Seal { master_password: "pw".to_owned() };
    assert_eq!(cli_request(&seal).method, "admin_seal");
}

#[test]
fn commands_print_what_came_back() {
    let issue = CliCommand::IssuePeer { label: "ci".to_owned() };
    let printed = cli_output(&issue, reply(Some("{}"), Some("tok"), Some("p_1"))).ok().expect("ok");
    assert_eq!(printed.stdout.as_deref(), Some("tok"));
    assert_eq!(printed.stderr.as_deref(), Some("p_1"));
    let error = |command: &CliCommand, reply: CliReply| cli_output(command, reply).err();
    assert_eq!(
        error(&issue, reply(None, None, None)).as_deref(),
        Some("admin_peer_issue returned no result")
    );
    assert_eq!(
        error(&issue, reply(Some("{}"), None, None)).as_deref(),
        Some("admin_peer_issue returned no token")
    );
    assert_eq!(
        error(&issue, reply(Some("{}"), Some("t"), None)).as_deref(),
        Some("admin_peer_issue returned no peer_id")
    );
    assert_eq!(
        error(&CliCommand::IssueToken, reply(Some("{}"), None, None)).as_deref(),
        Some("admin_token_issue returned no token")
    );
    assert_eq!(
        error(&CliCommand::ListPeers, reply(None, None, None)).as_deref(),
        Some("admin_peer_list returned no result")
    );
    let mut failed = reply(Some("[]"), None, None);
    failed.error = Some("ADMIN_REQUIRED".to_owned());
    assert_eq!(error(&CliCommand::ListPeers, failed).as_deref(), Some("ADMIN_REQUIRED"));
    let status = cli_output(&CliCommand::Status, reply(None, None, None)).ok().expect("ok");
    assert_eq!(status.stdout.as_deref(), Some("{}"));
}
