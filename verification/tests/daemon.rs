//! Requests, logins, sessions, executors, and peers.

use sha2::Digest;
use tegata::admission::{admit_preamble, decide_admission, Admission};
use tegata::audit::{
    audit_fields, audit_record, must_rotate, no_fields, rotated_path, system_record, timestamp,
    AuditLog, LogAction, LogEvent, LogFailure,
};
use tegata::config::Platform;
use tegata::credential::{ref_ids, ResolvedCredential};
use tegata::error::{parse_error_code, ErrorCode};
use tegata::executor::{
    accept_hello, cdp_port_from_endpoint, executor_command, lease_outcome, lease_request,
    login_outcome, login_request, must_shut_down, next_shutdown_stage, push_executor_byte,
    release_outcome, release_request, HelloReply, LaunchAction, LaunchEvent, LaunchPhase,
    ShutdownStage, Termination, TerminationAction,
};
use tegata::login::{ApprovalOutcome, LoginAction, LoginEvent, LoginFlow, ResolveOutcome};
use tegata::peers::{
    constant_time_equal, generate_ulid, imported_path, parse_token_digest, IssuedPeer, PeerRecord,
    PeerStore,
};
use tegata::rpc::{
    append_entries, approval_env, audit_of, credential_target, done_handled, issued_handled,
    login_answer, logout_answer, method_not_found, optional_namespace, required_string_param,
    revoked_handled, route, selected_providers, status_answer, totp_answer, totp_handled,
    unreadable_request, Route, TotpLog,
};
use tegata::secret::Secret;
use tegata::sessions::{
    BrowserKey, LeaseFilter, LogoutOutcome, SessionTable, StartControl, ATTEMPT_WINDOW,
    MAX_ATTEMPTS,
};
use tegata::static_provider::{EntryConfig, StaticProvider};
use tegata::transport::PeerIdentity;
use tegata::vault_requests::{CatalogAction, CatalogRun, LockAction, LockRun};
use tegata::wire::{
    ExecutorHelloResponse, ExecutorLeaseResponse, ExecutorResponse, LoginParams, ParamValue,
    Params, Preamble, PreambleError, PreambleResponse, PreambleTunnel, RpcRequest, RpcResult,
    PREAMBLE_VERSION,
};

const SECOND: u64 = 1_000_000_000;
const USERNAME: &str = "integration-user-secret";
const PASSWORD: &str = "integration-password-secret";
const TOTP_SEED: &str = "invalid-base32-canary-$";
const ENDPOINT: &str = "ws://127.0.0.1:38999/devtools/browser/test";

fn mock() -> StaticProvider {
    let entry = |id: &str, name: &str, seed: Option<&str>, exposable: Option<bool>| EntryConfig {
        id: id.to_owned(),
        name: name.to_owned(),
        uri: "http://127.0.0.1".to_owned(),
        kind: "login".to_owned(),
        username: USERNAME.to_owned(),
        password: PASSWORD.to_owned(),
        totp_seed: seed.map(str::to_owned),
        totp_exposable: exposable,
    };
    StaticProvider::new(vec![
        entry("site", "Integration Site", Some(TOTP_SEED), Some(true)),
        entry("site-no-totp", "Integration Site Without TOTP", None, None),
    ])
}

fn params(fields: &[(&str, &str)]) -> Params {
    Params::Fields(
        fields
            .iter()
            .map(|(name, value)| ((*name).to_owned(), ParamValue::Text((*value).to_owned())))
            .collect(),
    )
}

fn request(method: &str, fields: &[(&str, &str)]) -> RpcRequest {
    RpcRequest {
        jsonrpc: "2.0".to_owned(),
        id: "1".to_owned(),
        method: method.to_owned(),
        params: params(fields),
    }
}

fn flow(exclusive: bool, needs_approval: bool) -> LoginFlow {
    LoginFlow::new("uid:1000".to_owned(), "mock:site".to_owned(), exclusive, needs_approval)
        .ok()
        .expect("a credential id with a namespace")
}

fn started(session: &str, browser: &str) -> LoginEvent {
    LoginEvent::Started {
        result: Ok((ENDPOINT.to_owned(), "test-target".to_owned())),
        readable: true,
        session_id: session.to_owned(),
        browser_id: browser.to_owned(),
        now: 0,
        ttl_secs: 300,
    }
}

/// Logs in without approval and starts a browser.
fn open_browser(table: &mut SessionTable, control: &mut StartControl, session: &str, browser: &str) {
    let mut login = flow(false, false);
    assert!(matches!(login.step(table, control, LoginEvent::Begin), LoginAction::TakeGate));
    assert!(matches!(
        login.step(table, control, LoginEvent::GateHeld { now: 0 }),
        LoginAction::Resolve
    ));
    let found = LoginEvent::Resolved { found: ResolveOutcome::Ready, now: 0 };
    assert!(matches!(login.step(table, control, found), LoginAction::Start));
    let action = login.step(table, control, started(session, browser));
    assert!(matches!(action, LoginAction::Opened(_)));
}

// ---------------------------------------------------------------------------
// Requests
// ---------------------------------------------------------------------------

#[test]
fn status_returns_ok() {
    let table = SessionTable::new();
    let status = request("status", &[]);
    let peer = PeerIdentity::Uid(1000);
    assert_eq!(route(&status, &peer, &[1000], &[], Platform::Unix), Route::Status);
    let handled = status_answer("1".to_owned(), &table);
    assert_eq!(handled.outcome, "ok");
    assert!(matches!(
        handled.response.result,
        Some(RpcResult::Status { browsers: 0, leases: 0 })
    ));
}

#[test]
fn shared_login_requires_approval_for_each_lease() {
    let mut table = SessionTable::new();
    let mut control = StartControl::new();
    let ids = || Ok(vec!["site".to_owned(), "site-no-totp".to_owned()]);
    let mut first = flow(false, true);
    first.step(&mut table, &mut control, LoginEvent::Begin);
    let action = first.step(&mut table, &mut control, LoginEvent::GateHeld { now: 0 });
    assert!(matches!(action, LoginAction::ListRefs));
    let action =
        first.step(&mut table, &mut control, LoginEvent::Refs { ids: ids(), locked: false });
    assert!(matches!(action, LoginAction::Approve));
    let granted = LoginEvent::Approval { outcome: ApprovalOutcome::Granted, now: 0 };
    assert!(matches!(first.step(&mut table, &mut control, granted), LoginAction::Resolve));
    let ready = LoginEvent::Resolved { found: ResolveOutcome::Ready, now: 0 };
    assert!(matches!(first.step(&mut table, &mut control, ready), LoginAction::Start));
    let action = first.step(&mut table, &mut control, started("s1", "b1"));
    assert!(matches!(action, LoginAction::Opened(_)));

    let mut second = flow(false, true);
    let action = second.step(&mut table, &mut control, LoginEvent::Begin);
    assert!(matches!(action, LoginAction::ListRefs));
    let action =
        second.step(&mut table, &mut control, LoginEvent::Refs { ids: ids(), locked: false });
    assert!(matches!(action, LoginAction::Approve));
    let denied = LoginEvent::Approval { outcome: ApprovalOutcome::Denied, now: 0 };
    let action = second.step(&mut table, &mut control, denied);
    let handled = login_answer("1".to_owned(), action).expect("an answer");
    assert_eq!(handled.response.error.expect("error").message, "APPROVAL_DENIED");
    assert_eq!(table.counts(), (1, 1));
}

#[test]
fn catalog_projects_metadata_only() {
    let vault = mock();
    let mut catalog = vec![];
    append_entries(&mut catalog, "mock", &vault.list_refs(), vault.locked());
    assert_eq!(catalog.len(), 2);
    assert_eq!(catalog[0].id, "mock:site");
    assert_eq!(catalog[0].source, "mock");
    for entry in &catalog {
        assert_eq!(
            entry.details,
            Some(("http://127.0.0.1".to_owned(), "login".to_owned()))
        );
        let shown = format!("{entry:?}");
        assert!(!shown.contains(PASSWORD));
        assert!(!shown.contains(TOTP_SEED));
    }
}

#[test]
fn non_allowlisted_method_is_rejected() {
    let peer = PeerIdentity::Uid(1000);
    let resolve = request("resolve", &[]);
    assert_eq!(route(&resolve, &peer, &[1000], &[], Platform::Unix), Route::MethodNotFound);
    let handled = method_not_found("1".to_owned());
    let error = handled.response.error.expect("error");
    assert_eq!(error.code, -32601);
    assert_eq!(error.message, "method not found");
    assert_eq!(handled.outcome, "method_not_found");
}

#[test]
fn totp_is_exposable_once_and_rate_limited() {
    let vault = mock();
    let mut log = TotpLog::new();
    let found = Ok(vault.resolve("site"));
    let (code, expires_in) =
        totp_answer(&mut log, "mock:site", &found, 0, 59).ok().expect("a code");
    assert_eq!(code.len(), 6);
    assert!(code.chars().all(|c| c.is_ascii_digit()));
    assert_eq!(expires_in, 1);

    let second = totp_answer(&mut log, "mock:site", &found, 29 * SECOND, 88);
    assert_eq!(second, Err(ErrorCode::RateLimited));
    let refused = Ok(vault.resolve("site-no-totp"));
    let third = totp_answer(&mut log, "mock:site-no-totp", &refused, 0, 59);
    assert_eq!(third, Err(ErrorCode::TotpNotExposable));
    assert!(totp_answer(&mut log, "mock:site", &found, 30 * SECOND, 89).is_ok());

    assert_eq!(
        totp_answer(&mut log, "mock:x", &Ok(None), 0, 0),
        Err(ErrorCode::TotpNotExposable)
    );
    assert_eq!(
        totp_answer(&mut log, "mock:x", &Err(ErrorCode::Internal), 0, 0),
        Err(ErrorCode::Internal)
    );
}

#[test]
fn lock_hides_metadata_and_blocks_login() {
    let mut vault = mock();
    vault.lock();
    let mut catalog = vec![];
    append_entries(&mut catalog, "mock", &vault.list_refs(), vault.locked());
    for entry in &catalog {
        assert!(entry.details.is_none());
    }
    let mut table = SessionTable::new();
    let mut control = StartControl::new();
    let mut login = flow(false, false);
    login.step(&mut table, &mut control, LoginEvent::Begin);
    login.step(&mut table, &mut control, LoginEvent::GateHeld { now: 0 });
    assert!(vault.resolve("site").expect("entry").locked);
    let locked = LoginEvent::Resolved { found: ResolveOutcome::Locked, now: 0 };
    let action = login.step(&mut table, &mut control, locked);
    assert!(matches!(action, LoginAction::Reject(ErrorCode::VaultLocked)));
}

#[test]
fn unknown_login_credential_is_rejected() {
    let mut table = SessionTable::new();
    let mut control = StartControl::new();
    let mut login =
        LoginFlow::new("uid:1000".to_owned(), "mock:missing".to_owned(), false, false)
            .ok()
            .expect("flow");
    assert_eq!(login.entry_id(), "missing");
    assert!(mock().resolve(login.entry_id()).is_none());
    login.step(&mut table, &mut control, LoginEvent::Begin);
    login.step(&mut table, &mut control, LoginEvent::GateHeld { now: 0 });
    let unknown = LoginEvent::Resolved { found: ResolveOutcome::Unknown, now: 0 };
    let action = login.step(&mut table, &mut control, unknown);
    let handled = login_answer("1".to_owned(), action).expect("an answer");
    let error = handled.response.error.expect("error");
    assert_eq!(error.code, -32000);
    assert_eq!(error.message, "INVALID_CREDENTIAL");
    assert!(handled.response.result.is_none());
    let refused = LoginFlow::new("uid:1000".to_owned(), "missing".to_owned(), false, false);
    assert!(matches!(refused, Err(ErrorCode::InvalidCredential)));
}

#[test]
fn login_failure_reaps_the_executor() {
    let mut launch = LaunchPhase::Opening;
    assert!(matches!(launch.step(LaunchEvent::Opened(true)), LaunchAction::Write));
    assert!(matches!(launch.step(LaunchEvent::Written(true)), LaunchAction::Await));
    let reply = ExecutorResponse {
        id: Some(1),
        ok: false,
        endpoint: None,
        error: Some("INVALID_CREDENTIAL".to_owned()),
        target_id: None,
    };
    let action = launch.step(LaunchEvent::Reply(Some(reply)));
    assert!(matches!(action, LaunchAction::Stop(ErrorCode::InvalidCredential)));
}

#[test]
fn operator_uid_can_use_admin_rpc_but_not_normal_rpc() {
    let operator = PeerIdentity::Uid(1000);
    let issue = request("admin_peer_issue", &[("label", "ops")]);
    assert_eq!(route(&issue, &operator, &[], &[1000], Platform::Unix), Route::PeerIssue);
    for method in ["status", "login"] {
        assert_eq!(
            route(&request(method, &[]), &operator, &[], &[1000], Platform::Unix),
            Route::Reject(ErrorCode::Unauthorized)
        );
    }
    let plain = PeerIdentity::Uid(1001);
    assert_eq!(
        route(&issue, &plain, &[1001], &[1000], Platform::Unix),
        Route::Reject(ErrorCode::AdminRequired)
    );
}

#[test]
fn routes_follow_the_methods() {
    let root = PeerIdentity::Uid(0);
    let to = |method: &str| route(&request(method, &[]), &root, &[0], &[], Platform::Windows);
    assert_eq!(to("list_credentials"), Route::ListCredentials);
    assert_eq!(to("login"), Route::Login);
    assert_eq!(to("logout"), Route::Logout);
    assert_eq!(to("get_totp"), Route::GetTotp);
    assert_eq!(to("lock_vault"), Route::LockVault);
    assert_eq!(to("admin_peer_list"), Route::PeerList);
    assert_eq!(to("admin_peer_revoke"), Route::PeerRevoke);
    assert_eq!(to("admin_token_issue"), Route::TokenIssue);
    assert_eq!(to("admin_seal"), Route::Seal);
    assert_eq!(to("admin_else"), Route::MethodNotFound);
    assert_eq!(to("else"), Route::MethodNotFound);
    let seal = request("admin_seal", &[]);
    assert_eq!(route(&seal, &root, &[0], &[], Platform::Unix), Route::MethodNotFound);
    let mut old = request("status", &[]);
    old.jsonrpc = "1.0".to_owned();
    assert_eq!(
        route(&old, &root, &[0], &[], Platform::Unix),
        Route::Reject(ErrorCode::Internal)
    );
}

#[test]
fn parameters_are_looked_up() {
    let given = params(&[("namespace", "mock"), ("session_id", "s")]);
    assert_eq!(required_string_param(&given, "session_id"), Ok("s".to_owned()));
    assert_eq!(required_string_param(&given, "cred_id"), Err(ErrorCode::Internal));
    assert_eq!(optional_namespace(&given), Ok(Some("mock".to_owned())));
    assert_eq!(optional_namespace(&Params::Null), Ok(None));
    assert_eq!(optional_namespace(&params(&[])), Ok(None));
    let null = Params::Fields(vec![("namespace".to_owned(), ParamValue::Null)]);
    assert_eq!(optional_namespace(&null), Ok(None));
    let number = Params::Fields(vec![("namespace".to_owned(), ParamValue::Other)]);
    assert_eq!(optional_namespace(&number), Err(ErrorCode::Internal));
    let namespaces = vec!["a".to_owned(), "b".to_owned(), "a".to_owned()];
    assert_eq!(selected_providers(&namespaces, &None), [0, 1, 2]);
    assert_eq!(selected_providers(&namespaces, &Some("a".to_owned())), [0, 2]);
    assert_eq!(credential_target("b:x:y", &namespaces), Some((1, "x:y".to_owned())));
    assert_eq!(credential_target("c:x", &namespaces), None);
    assert_eq!(credential_target("b", &namespaces), None);
}

#[test]
fn answers_are_audited() {
    let login = request("login", &[("cred_id", "mock:site"), ("target_url", "http://t")]);
    let session = tegata::login::Session {
        session_id: "s1".to_owned(),
        target_id: "t".to_owned(),
        endpoint: ENDPOINT.to_owned(),
    };
    let handled = login_answer("1".to_owned(), LoginAction::Joined(session)).expect("an answer");
    let fields = audit_of(&login, &handled);
    assert_eq!(fields.cred_id.as_deref(), Some("mock:site"));
    assert_eq!(fields.target_url.as_deref(), Some("http://t"));
    assert_eq!(fields.session_id.as_deref(), Some("s1"));
    assert_eq!(fields.namespace.as_deref(), Some("mock"));
    assert_eq!(fields.shared, Some(true));
    assert!(login_answer("1".to_owned(), LoginAction::Start).is_none());
    let broken = unreadable_request();
    assert_eq!(broken.response.id, "null");
    assert_eq!(broken.outcome, "INTERNAL");
    let done = done_handled("7".to_owned(), Err(ErrorCode::VaultLocked));
    assert_eq!(done.response.error.expect("error").message, "VAULT_LOCKED");
    let code = totp_handled("7".to_owned(), Ok(("123456".to_owned(), 4)));
    assert!(matches!(code.response.result, Some(RpcResult::Totp { .. })));
}

#[test]
fn approvers_are_told_of_the_peer() {
    let login = LoginParams {
        cred_id: "mock:site".to_owned(),
        target_url: "http://t".to_owned(),
        steps: None,
        success_selector: None,
        failure_selector: None,
    };
    let pair = |a: &str, b: &str| (a.to_owned(), b.to_owned());
    assert_eq!(
        approval_env(&login, &PeerIdentity::Uid(7)),
        [
            pair("TEGATA_CRED_ID", "mock:site"),
            pair("TEGATA_TARGET_URL", "http://t"),
            pair("TEGATA_PEER", "7")
        ]
    );
    let peer = PeerIdentity::Peer { peer_id: "p_1".to_owned(), label: "ci".to_owned() };
    assert_eq!(approval_env(&login, &peer)[2], pair("TEGATA_PEER", "peer:p_1"));
}

// ---------------------------------------------------------------------------
// Logins and sessions
// ---------------------------------------------------------------------------

#[test]
fn a_second_login_shares_the_browser() {
    let mut table = SessionTable::new();
    let mut control = StartControl::new();
    open_browser(&mut table, &mut control, "s1", "b1");
    let mut login = flow(false, false);
    let action = login.step(&mut table, &mut control, LoginEvent::Begin);
    assert!(matches!(action, LoginAction::Lease(id) if id == "b1"));
    let leased = LoginEvent::Leased {
        target: Ok("lease-target".to_owned()),
        session_id: "s2".to_owned(),
        now: 0,
        ttl_secs: 300,
    };
    match login.step(&mut table, &mut control, leased) {
        LoginAction::Joined(session) => {
            assert_eq!(session.session_id, "s2");
            assert_eq!(session.target_id, "lease-target");
            assert_eq!(session.endpoint, ENDPOINT);
        }
        other => panic!("{other:?}"),
    }
    assert_eq!(table.counts(), (1, 2));
    let mut exclusive = flow(true, false);
    let action = exclusive.step(&mut table, &mut control, LoginEvent::Begin);
    assert!(matches!(action, LoginAction::TakeGate));
}

#[test]
fn a_lease_on_a_browser_that_went_away_is_given_back() {
    let mut table = SessionTable::new();
    let mut control = StartControl::new();
    open_browser(&mut table, &mut control, "s1", "b1");
    let mut login = flow(false, false);
    login.step(&mut table, &mut control, LoginEvent::Begin);
    assert!(table.executor_gone("b1").is_some());
    let leased = LoginEvent::Leased {
        target: Ok("t".to_owned()),
        session_id: "s2".to_owned(),
        now: 0,
        ttl_secs: 300,
    };
    let action = login.step(&mut table, &mut control, leased);
    assert!(matches!(action, LoginAction::Release { .. }));
    let action = login.step(&mut table, &mut control, LoginEvent::Released { now: 0 });
    assert!(matches!(action, LoginAction::TakeGate));
}

#[test]
fn approvals_and_starts_fail_in_their_ways() {
    for (outcome, code) in [
        (ApprovalOutcome::TimedOut, ErrorCode::ApprovalTimeout),
        (ApprovalOutcome::Failed, ErrorCode::Internal),
        (ApprovalOutcome::Denied, ErrorCode::ApprovalDenied),
    ] {
        let mut table = SessionTable::new();
        let mut control = StartControl::new();
        let mut login = flow(false, true);
        login.step(&mut table, &mut control, LoginEvent::Begin);
        login.step(&mut table, &mut control, LoginEvent::GateHeld { now: 0 });
        let refs = LoginEvent::Refs { ids: Ok(vec!["site".to_owned()]), locked: true };
        assert!(matches!(login.step(&mut table, &mut control, refs), LoginAction::Approve));
        let event = LoginEvent::Approval { outcome, now: 0 };
        match login.step(&mut table, &mut control, event) {
            LoginAction::Reject(e) => assert_eq!(e, code),
            other => panic!("{other:?}"),
        }
    }
    let mut table = SessionTable::new();
    let mut control = StartControl::new();
    let mut login = flow(false, false);
    login.step(&mut table, &mut control, LoginEvent::Begin);
    login.step(&mut table, &mut control, LoginEvent::GateHeld { now: 0 });
    let ready = LoginEvent::Resolved { found: ResolveOutcome::Ready, now: 0 };
    login.step(&mut table, &mut control, ready);
    let useless = LoginEvent::Started {
        result: Ok(("ws://127.0.0.1:0/x".to_owned(), "t".to_owned())),
        readable: true,
        session_id: "s".to_owned(),
        browser_id: "b".to_owned(),
        now: 0,
        ttl_secs: 1,
    };
    let action = login.step(&mut table, &mut control, useless);
    assert!(matches!(action, LoginAction::StopAndReject(ErrorCode::Internal)));
    assert_eq!(table.counts(), (0, 0));
}

#[test]
fn nobody_is_asked_about_a_credential_that_is_not_listed() {
    let second = |ids: Result<Vec<String>, ErrorCode>, locked: bool| {
        let mut table = SessionTable::new();
        let mut control = StartControl::new();
        let mut login = flow(false, true);
        login.step(&mut table, &mut control, LoginEvent::Begin);
        let action = login.step(&mut table, &mut control, LoginEvent::GateHeld { now: 0 });
        assert!(matches!(action, LoginAction::ListRefs));
        let silent = LoginEvent::Refs { ids: Ok(vec![]), locked: true };
        let action = login.step(&mut table, &mut control, silent);
        assert!(matches!(action, LoginAction::OpenRefs));
        login.step(&mut table, &mut control, LoginEvent::Refs { ids, locked })
    };
    assert!(matches!(second(Ok(vec!["site".to_owned()]), false), LoginAction::Approve));
    assert!(matches!(
        second(Ok(vec!["other".to_owned()]), false),
        LoginAction::Reject(ErrorCode::InvalidCredential)
    ));
    assert!(matches!(
        second(Ok(vec![]), true),
        LoginAction::Reject(ErrorCode::InvalidCredential)
    ));
    assert!(matches!(
        second(Err(ErrorCode::Internal), true),
        LoginAction::Reject(ErrorCode::Internal)
    ));
    let mut table = SessionTable::new();
    let mut control = StartControl::new();
    let mut login = flow(false, true);
    login.step(&mut table, &mut control, LoginEvent::Begin);
    login.step(&mut table, &mut control, LoginEvent::GateHeld { now: 0 });
    let open = LoginEvent::Refs { ids: Ok(vec![]), locked: false };
    let action = login.step(&mut table, &mut control, open);
    assert!(matches!(action, LoginAction::Reject(ErrorCode::InvalidCredential)));
}

#[test]
fn starts_are_paced() {
    assert_eq!(MAX_ATTEMPTS, 3);
    assert_eq!(ATTEMPT_WINDOW, 600 * SECOND);
    let mut control = StartControl::new();
    for n in 0..3 {
        assert!(control.may_start(n * SECOND));
        control.record_attempt(n * SECOND);
        control.record_success();
    }
    assert!(!control.may_start(3 * SECOND));
    assert!(!control.may_start(599 * SECOND));
    assert!(control.may_start(601 * SECOND));
    let mut failing = StartControl::new();
    failing.record_failure(0);
    assert!(!failing.may_start(SECOND));
    assert!(failing.may_start(2 * SECOND));
    failing.record_failure(0);
    assert!(!failing.may_start(4 * SECOND));
    assert!(failing.may_start(5 * SECOND));
    failing.record_failure(0);
    assert!(!failing.may_start(14 * SECOND));
    assert!(failing.may_start(15 * SECOND));
    failing.record_success();
    assert!(failing.may_start(0));
}

#[test]
fn leases_expire_and_take_the_browser_with_them() {
    let mut table = SessionTable::new();
    let mut control = StartControl::new();
    open_browser(&mut table, &mut control, "s1", "b1");
    assert_eq!(table.resolve_port("s1", "uid:1000"), Some(38999));
    assert_eq!(table.resolve_port("s1", "uid:1001"), None);
    assert!(table.take(&LeaseFilter::Expired(299 * SECOND)).is_empty());
    let removed = table.take(&LeaseFilter::Expired(300 * SECOND));
    assert_eq!(removed.len(), 1);
    assert_eq!(removed[0].session_id, "s1");
    assert_eq!(removed[0].namespace, "mock");
    assert!(removed[0].last);
    assert_eq!(table.counts(), (0, 0));
    assert_eq!(table.resolve_port("s1", "uid:1000"), None);
    assert!(!table.session_alive("s1"));
}

#[test]
fn logouts_belong_to_the_owner() {
    let mut table = SessionTable::new();
    let mut control = StartControl::new();
    open_browser(&mut table, &mut control, "s1", "b1");
    let other = table.logout("s1", "uid:1001");
    assert!(matches!(other, LogoutOutcome::NotOwner));
    let answer = logout_answer("1".to_owned(), &other);
    assert_eq!(answer.response.error.expect("error").message, "NOT_FOUND");
    let own = table.logout("s1", "uid:1000");
    assert!(matches!(&own, LogoutOutcome::Released(list) if list.len() == 1 && list[0].last));
    assert_eq!(logout_answer("1".to_owned(), &own).outcome, "ok");
    let again = table.logout("s1", "uid:1000");
    assert!(matches!(again, LogoutOutcome::Unknown));
    assert_eq!(logout_answer("1".to_owned(), &again).outcome, "ok");
}

#[test]
fn revoked_peers_lose_their_leases() {
    let mut table = SessionTable::new();
    let key = |principal: &str| {
        BrowserKey::new(principal.to_owned(), "mock".to_owned(), "mock:site".to_owned())
    };
    for (browser, principal) in [("b1", "peer:p_1"), ("b2", "peer:p_2")] {
        table.start(
            browser.to_owned(),
            key(principal),
            9222,
            ENDPOINT.to_owned(),
            false,
            format!("s-{browser}"),
            "t".to_owned(),
            u128::MAX,
        );
    }
    assert_eq!(table.shared_browser(&key("peer:p_1")), Some("b1".to_owned()));
    let removed = table.take(&LeaseFilter::Principal("peer:p_1".to_owned()));
    assert_eq!(removed.len(), 1);
    assert_eq!(removed[0].browser_id, "b1");
    assert_eq!(table.shared_browser(&key("peer:p_1")), None);
    assert_eq!(table.endpoint("b2"), Some(ENDPOINT.to_owned()));
    assert!(key("a").same(&key("a")));
    assert!(!key("a").same(&key("b").copy()));
}

#[test]
fn locking_a_namespace_drains_its_browsers() {
    let mut table = SessionTable::new();
    for namespace in ["a", "b"] {
        table.start(
            format!("browser-{namespace}"),
            BrowserKey::new("uid:1".to_owned(), namespace.to_owned(), format!("{namespace}:x")),
            9222,
            ENDPOINT.to_owned(),
            false,
            format!("session-{namespace}"),
            "t".to_owned(),
            u128::MAX,
        );
    }
    let drained = table.drain(&Some("a".to_owned()));
    assert_eq!(drained.len(), 1);
    assert_eq!(drained[0].id, "browser-a");
    assert_eq!(table.counts(), (1, 1));
    assert!(!table.session_alive("session-a"));
    assert_eq!(table.drain(&None).len(), 1);
    assert_eq!(table.counts(), (0, 0));
}

// ---------------------------------------------------------------------------
// Executors
// ---------------------------------------------------------------------------

#[test]
fn endpoints_have_ports() {
    assert_eq!(cdp_port_from_endpoint(ENDPOINT), Some(38999));
    assert_eq!(cdp_port_from_endpoint("ws://[::1]:9222/x"), Some(9222));
    assert_eq!(cdp_port_from_endpoint("ws://127.0.0.1/x"), None);
    assert_eq!(cdp_port_from_endpoint("ws://127.0.0.1:0/x"), None);
    assert_eq!(cdp_port_from_endpoint("ws://127.0.0.1:65536"), None);
    assert_eq!(cdp_port_from_endpoint("127.0.0.1:9222"), None);
}

#[test]
fn executors_behind_a_socket_must_be_somebody_else() {
    let hello = |ok: bool, uid: Option<u32>| {
        accept_hello("/e.sock", HelloReply::Answer(ExecutorHelloResponse { ok, uid, pid: 1 }), 1000)
    };
    assert_eq!(hello(true, Some(1001)), Ok(1001));
    let own = "executor must not run as the daemon's own user".to_owned();
    assert_eq!(hello(true, Some(1000)), Err(own.clone()));
    assert_eq!(hello(true, None), Err(own));
    assert_eq!(hello(true, Some(0)), Err("executor must not run as root".to_owned()));
    assert_eq!(
        hello(false, None),
        Err("executor socket \"/e.sock\" is not connectable: executor reported ok=false".to_owned())
    );
    assert_eq!(
        accept_hello("/e.sock", HelloReply::Empty, 1000),
        Err("executor socket \"/e.sock\" is not connectable: empty response".to_owned())
    );
    assert_eq!(
        accept_hello("/e.sock", HelloReply::Unusable("refused".to_owned()), 1000),
        Err("executor socket \"/e.sock\" is not connectable: refused".to_owned())
    );
}

#[test]
fn requests_to_executors_carry_the_values() {
    let login = LoginParams {
        cred_id: "mock:site".to_owned(),
        target_url: "http://t".to_owned(),
        steps: None,
        success_selector: Some("#ok".to_owned()),
        failure_selector: None,
    };
    let seed = Some(Secret::new("12345678901234567890".to_owned()));
    let sent = login_request(
        5,
        login,
        &Secret::new("me".to_owned()),
        &Secret::new("pw".to_owned()),
        &seed,
        59,
    );
    assert_eq!(sent.op, "login");
    assert_eq!(sent.id, 5);
    assert_eq!(sent.secret.username, "me");
    assert_eq!(sent.secret.password, "pw");
    assert_eq!(sent.secret.totp.as_deref(), Some("287082"));
    assert_eq!(lease_request(6).op, "lease");
    assert_eq!(release_request(7, "t".to_owned()).target_id, "t");
    let command = executor_command("node", "index.js", &Some("/b".to_owned()), Platform::Windows);
    assert_eq!(command.args, ["index.js"]);
    assert_eq!(command.env, [("PLAYWRIGHT_BROWSERS_PATH".to_owned(), "/b".to_owned())]);
    let command = executor_command("node", "index.js", &Some("/b".to_owned()), Platform::Unix);
    assert!(command.env.is_empty());
}

#[test]
fn replies_of_executors_are_classified() {
    let login = |ok: bool, endpoint: Option<&str>, target: Option<&str>, error: Option<&str>| {
        login_outcome(Some(ExecutorResponse {
            id: None,
            ok,
            endpoint: endpoint.map(str::to_owned),
            error: error.map(str::to_owned),
            target_id: target.map(str::to_owned),
        }))
    };
    assert_eq!(login(true, Some("e"), Some("t"), None), Ok(("e".to_owned(), "t".to_owned())));
    assert_eq!(login(true, Some("e"), None, None), Err(ErrorCode::Internal));
    assert_eq!(login(true, None, Some("t"), None), Err(ErrorCode::Internal));
    assert_eq!(login(false, None, None, Some("MFA_REQUIRED")), Err(ErrorCode::MfaRequired));
    assert_eq!(login(false, None, None, Some("else")), Err(ErrorCode::Internal));
    assert_eq!(login(false, None, None, None), Err(ErrorCode::Internal));
    assert_eq!(login_outcome(None), Err(ErrorCode::Internal));
    let lease = |ok: bool, target: Option<&str>, error: Option<&str>| ExecutorLeaseResponse {
        id: None,
        ok,
        target_id: target.map(str::to_owned),
        error: error.map(str::to_owned),
    };
    assert_eq!(lease_outcome(Some(lease(true, Some("t"), None))), Ok("t".to_owned()));
    assert_eq!(lease_outcome(Some(lease(true, None, None))), Err(ErrorCode::Internal));
    assert_eq!(
        lease_outcome(Some(lease(false, None, Some("NOT_FOUND")))),
        Err(ErrorCode::NotFound)
    );
    assert_eq!(release_outcome(Some(lease(true, None, None))), Ok(()));
    assert_eq!(release_outcome(None), Err(ErrorCode::Internal));
}

#[test]
fn error_codes_are_read_back() {
    for code in [
        ErrorCode::InvalidCredential,
        ErrorCode::MfaRequired,
        ErrorCode::SelectorNotFound,
        ErrorCode::VaultLocked,
        ErrorCode::RateLimited,
        ErrorCode::TotpNotExposable,
        ErrorCode::ApprovalDenied,
        ErrorCode::ApprovalTimeout,
        ErrorCode::Internal,
        ErrorCode::NotFound,
    ] {
        assert_eq!(parse_error_code(code.as_str()), code);
    }
    // An executor cannot speak for the daemon.
    assert_eq!(parse_error_code("UNAUTHORIZED"), ErrorCode::Internal);
    assert_eq!(ErrorCode::AdminSealUnavailable.as_str(), "ADMIN_SEAL_UNAVAILABLE");
}

#[test]
fn launches_that_were_not_opened_are_not_stopped() {
    let mut launch = LaunchPhase::Opening;
    let action = launch.step(LaunchEvent::Opened(false));
    assert!(matches!(action, LaunchAction::Fail(ErrorCode::Internal)));
    let mut launch = LaunchPhase::Opening;
    launch.step(LaunchEvent::Opened(true));
    let action = launch.step(LaunchEvent::Written(false));
    assert!(matches!(action, LaunchAction::Stop(ErrorCode::Internal)));
    let mut launch = LaunchPhase::Opening;
    launch.step(LaunchEvent::Opened(true));
    launch.step(LaunchEvent::Written(true));
    let reply = ExecutorResponse {
        id: Some(1),
        ok: true,
        endpoint: Some(ENDPOINT.to_owned()),
        error: None,
        target_id: Some("t".to_owned()),
    };
    let action = launch.step(LaunchEvent::Reply(Some(reply)));
    assert!(matches!(action, LaunchAction::Ready { .. }));
}

#[test]
fn shutdowns_go_through_their_stages() {
    let next = next_shutdown_stage;
    assert_eq!(next(ShutdownStage::LockOperation, true, true), ShutdownStage::LockExecutor);
    assert_eq!(next(ShutdownStage::LockOperation, false, true), ShutdownStage::Kill);
    assert_eq!(next(ShutdownStage::Ask, true, true), ShutdownStage::WaitExit);
    assert_eq!(next(ShutdownStage::Ask, true, false), ShutdownStage::Drain);
    assert_eq!(next(ShutdownStage::WaitExit, false, true), ShutdownStage::Kill);
    assert_eq!(next(ShutdownStage::Kill, true, true), ShutdownStage::Done);
    assert!(must_shut_down(true, false, true));
    assert!(must_shut_down(false, true, false));
    assert!(!must_shut_down(false, true, true));
    let mut line = vec![];
    assert!(!push_executor_byte(&mut line, b'{'));
    assert!(push_executor_byte(&mut line, b'\n'));
    assert_eq!(line, b"{\n".to_vec());
}

#[test]
fn every_session_of_an_ended_browser_is_recorded() {
    let mut table = SessionTable::new();
    let mut control = StartControl::new();
    open_browser(&mut table, &mut control, "s1", "b1");
    assert!(table.join("b1", "s2".to_owned(), "t2".to_owned(), 0));
    let browser = table.drain(&None).remove(0);
    let mut end = Termination::new(browser);
    assert!(matches!(end.step(true), TerminationAction::Release(t) if t == "test-target"));
    assert!(matches!(end.step(false), TerminationAction::Shutdown));
    for session in ["s1", "s2"] {
        match end.step(true) {
            TerminationAction::Audit { session_id, namespace } => {
                assert_eq!(session_id, session);
                assert_eq!(namespace, "mock");
            }
            other => panic!("{other:?}"),
        }
    }
    assert!(matches!(end.step(true), TerminationAction::Done));
}

// ---------------------------------------------------------------------------
// The audit log
// ---------------------------------------------------------------------------

#[test]
fn records_name_the_peer() {
    let record = audit_record(
        1,
        PeerIdentity::Uid(1000),
        "status".to_owned(),
        no_fields(),
        "ok".to_owned(),
    );
    assert_eq!(record.ts, "unix:1");
    assert_eq!(record.principal, "uid:1000");
    assert_eq!(timestamp(0), "unix:0");
    let system = system_record(7, "session_expired", Some("s".to_owned()), "mock".to_owned());
    assert_eq!(system.principal, "system");
    assert!(matches!(system.peer, PeerIdentity::System));
    assert_eq!(system.fields.session_id.as_deref(), Some("s"));
    assert_eq!(system.outcome, "ok");
    let fields = audit_fields(&params(&[("cred_id", "vw:a1"), ("namespace", "other")]));
    assert_eq!(fields.namespace.as_deref(), Some("other"));
    assert!(audit_fields(&params(&[("cred_id", "a1")])).namespace.is_none());
}

#[test]
fn full_logs_are_moved_aside_once() {
    assert!(must_rotate(Some(100), false, 90, 11));
    assert!(!must_rotate(Some(100), false, 90, 10));
    assert!(must_rotate(Some(100), false, 101, 0));
    assert!(!must_rotate(Some(100), true, 500, 10));
    assert!(!must_rotate(Some(100), false, 0, 500));
    assert!(!must_rotate(None, false, 500, 500));
    assert!(must_rotate(Some(100), false, u64::MAX, 1));
    assert_eq!(rotated_path("/a/audit.log"), "/a/audit.log.1");
}

/// Appends a record to files that are held in memory.
fn append(log: &mut AuditLog, method: &str, file: &mut Option<Vec<u8>>, aside: &mut Option<Vec<u8>>) {
    let record = system_record(7, method, None, "mock".to_owned());
    let mut action = log.begin(&record);
    loop {
        let event = match action {
            LogAction::ReadSize => match file {
                Some(bytes) => LogEvent::Size(bytes.len() as u64),
                None => LogEvent::Missing,
            },
            LogAction::Remove(path) => {
                assert_eq!(path, "/a/audit.log.1");
                if aside.take().is_some() { LogEvent::Done } else { LogEvent::Missing }
            }
            LogAction::Rename(path) => {
                assert_eq!(path, "/a/audit.log.1");
                *aside = file.take();
                LogEvent::Done
            }
            LogAction::Create => {
                if file.is_some() {
                    LogEvent::Exists
                } else {
                    *file = Some(vec![]);
                    LogEvent::Done
                }
            }
            LogAction::Open => LogEvent::Done,
            LogAction::Write(bytes) => {
                file.as_mut().expect("a file").extend(bytes);
                LogEvent::Done
            }
            LogAction::Finished => return,
            LogAction::Failed(failure) => panic!("{failure:?}"),
        };
        action = log.step(event);
    }
}

fn log_line(method: &str) -> Vec<u8> {
    let record = system_record(7, method, None, "mock".to_owned());
    let mut line = record.line().expect("a line").into_bytes();
    line.push(b'\n');
    line
}

#[test]
fn logs_keep_every_line_of_a_process() {
    let (mut file, mut aside) = (Some(b"before\n".to_vec()), Some(b"older\n".to_vec()));
    let size = log_line("first").len() as u64;
    let mut log = AuditLog::new("/a/audit.log".to_owned(), Some(7 + size));
    append(&mut log, "first", &mut file, &mut aside);
    assert_eq!(file, Some([b"before\n".to_vec(), log_line("first")].concat()));
    assert_eq!(aside, Some(b"older\n".to_vec()));
    append(&mut log, "second", &mut file, &mut aside);
    assert_eq!(file, Some(log_line("second")));
    assert_eq!(aside, Some([b"before\n".to_vec(), log_line("first")].concat()));
    append(&mut log, "third", &mut file, &mut aside);
    assert_eq!(file, Some([log_line("second"), log_line("third")].concat()));
    assert_eq!(aside, Some([b"before\n".to_vec(), log_line("first")].concat()));
    let (mut fresh, mut none) = (None, None);
    let mut unbounded = AuditLog::new("/a/audit.log".to_owned(), None);
    append(&mut unbounded, "first", &mut fresh, &mut none);
    assert_eq!(fresh, Some(log_line("first")));
    assert_eq!(none, None);
}

#[test]
fn a_record_ends_where_an_operation_fails() {
    let record = system_record(7, "first", None, "mock".to_owned());
    let full = || {
        let mut log = AuditLog::new("/a/audit.log".to_owned(), Some(1));
        assert!(matches!(log.begin(&record), LogAction::ReadSize));
        log
    };
    let mut log = full();
    let action = log.step(LogEvent::Failed);
    assert!(matches!(action, LogAction::Failed(LogFailure::Open)));
    let mut log = full();
    assert!(matches!(log.step(LogEvent::Size(9)), LogAction::Remove(_)));
    assert!(matches!(log.step(LogEvent::Failed), LogAction::Failed(LogFailure::Open)));
    // The log was not moved aside, so the next record tries again.
    log.begin(&record);
    assert!(matches!(log.step(LogEvent::Size(9)), LogAction::Remove(_)));
    assert!(matches!(log.step(LogEvent::Missing), LogAction::Rename(_)));
    assert!(matches!(log.step(LogEvent::Done), LogAction::Create));
    assert!(matches!(log.step(LogEvent::Exists), LogAction::Open));
    match log.step(LogEvent::Done) {
        LogAction::Write(bytes) => assert_eq!(bytes, log_line("first")),
        other => panic!("{other:?}"),
    }
    assert!(matches!(log.step(LogEvent::Failed), LogAction::Failed(LogFailure::Write)));
    log.begin(&record);
    assert!(matches!(log.step(LogEvent::Size(9)), LogAction::Create));
}

// ---------------------------------------------------------------------------
// Peers
// ---------------------------------------------------------------------------

/// The digest of the token `legacy-peer-test-token`, through the sha2 crate.
fn digest_line(token: &str) -> Vec<u8> {
    let mut line = String::new();
    for byte in sha2::Sha256::digest(token.as_bytes()) {
        line.push_str(&format!("{byte:02x}"));
    }
    line.push('\n');
    line.into_bytes()
}

#[test]
fn issued_tokens_authenticate_until_they_are_revoked() {
    let mut store = PeerStore::load_or_import(vec![], None, 1).expect("empty store");
    let issued = store.issue("ci", &[7; 32], 1000, &[1; 10], 5).ok().expect("issue");
    assert!(issued.peer_id.starts_with("p_"));
    assert_eq!(issued.token.len(), 43);
    let peer = store.authenticate(&issued.token).expect("known token");
    assert_eq!(peer.principal(), format!("peer:{}", issued.peer_id));
    assert!(store.authenticate("wrong").is_none());
    assert!(store.still_admits(&peer));
    assert!(store.is_active(&issued.peer_id));
    assert!(store.revoke(&issued.peer_id, 9));
    assert!(store.authenticate(&issued.token).is_none());
    assert!(!store.still_admits(&peer));
    assert!(!store.revoke("p_missing", 9));
    let listed = store.list();
    assert_eq!(listed[0].label, "ci");
    assert_eq!(listed[0].issued_at, "unix:5");
    assert_eq!(listed[0].revoked_at.as_deref(), Some("unix:9"));
    assert!(store.still_admits(&PeerIdentity::Uid(1)));
    assert!(store.issue("", &[7; 32], 0, &[1; 10], 5).is_err());
}

#[test]
fn a_new_default_token_replaces_the_old_one() {
    let mut store = PeerStore::load_or_import(vec![], None, 1).expect("empty store");
    let (first, revoked) = store.issue_default(&[1; 32], 1, &[1; 10], 1);
    let first = first.ok().expect("issue");
    assert!(revoked.is_empty());
    let (second, revoked) = store.issue_default(&[2; 32], 2, &[2; 10], 2);
    let second = second.ok().expect("issue");
    assert_eq!(revoked, [first.peer_id.clone()]);
    assert!(store.authenticate(&first.token).is_none());
    assert!(store.authenticate(&second.token).is_some());
}

#[test]
fn old_tokens_are_imported() {
    let legacy = digest_line("legacy-peer-test-token");
    let store = PeerStore::load_or_import(vec![], Some(legacy.as_slice()), 1).expect("import");
    let peer = store.authenticate("legacy-peer-test-token").expect("imported token");
    assert_eq!(peer.principal(), "peer:legacy");
    let known = PeerRecord {
        peer_id: "legacy".to_owned(),
        label: "legacy".to_owned(),
        token_sha256: "00".repeat(32),
        issued_at: "unix:0".to_owned(),
        revoked_at: None,
    };
    let store = PeerStore::load_or_import(vec![known], Some(legacy.as_slice()), 1).expect("known");
    assert_eq!(store.records().len(), 1);
    assert_eq!(store.records()[0].token_sha256, "00".repeat(32));
    let broken = PeerRecord {
        peer_id: "p".to_owned(),
        label: "l".to_owned(),
        token_sha256: "00".to_owned(),
        issued_at: "unix:0".to_owned(),
        revoked_at: None,
    };
    assert!(PeerStore::load_or_import(vec![broken], None, 1).is_err());
    assert!(PeerStore::load_or_import(vec![], Some(b"no digest".as_slice()), 1).is_err());
    let aside = Some("/s/token_hash.imported".to_owned());
    assert_eq!(imported_path("/s/token_hash", Some(legacy.as_slice())), aside);
    assert_eq!(imported_path("/s/token_hash", Some(b"".as_slice())), aside);
    assert_eq!(imported_path("/s/token_hash", None), None);
}

#[test]
fn digests_are_read_from_hexadecimal() {
    let line = digest_line("x");
    assert_eq!(parse_token_digest(&line).expect("digest").len(), 32);
    assert!(parse_token_digest(&line[1..]).is_err());
    assert!(parse_token_digest(b"zz").is_err());
    assert!(constant_time_equal(b"ab", b"ab"));
    assert!(!constant_time_equal(b"ab", b"ac"));
    assert!(!constant_time_equal(b"ab", b"abc"));
}

#[test]
fn identifiers_are_ordered_by_time() {
    assert_eq!(generate_ulid(0, &[0; 10]), "00000000000000000000000000");
    assert_eq!(generate_ulid(1, &[0; 10]), "00000000010000000000000000");
    assert_eq!(generate_ulid(1469918176385, &[0xff; 10]), "01ARYZ6S41ZZZZZZZZZZZZZZZZ");
}

fn preamble(v: u32, auth: &str, tunnel: Option<(&str, u16)>) -> Option<Preamble> {
    Some(Preamble {
        v,
        auth: auth.to_owned(),
        tunnel: tunnel
            .map(|(session, port)| PreambleTunnel { session_id: session.to_owned(), port }),
    })
}

#[test]
fn preambles_are_admitted_by_token() {
    let mut store = PeerStore::load_or_import(vec![], None, 1).expect("store");
    let issued = store.issue("ci", &[7; 32], 0, &[1; 10], 1).ok().expect("issue");
    let mut table = SessionTable::new();
    let principal = format!("peer:{}", issued.peer_id);
    table.start(
        "b".to_owned(),
        BrowserKey::new(principal, "mock".to_owned(), "mock:site".to_owned()),
        9222,
        ENDPOINT.to_owned(),
        false,
        "s".to_owned(),
        "t".to_owned(),
        u128::MAX,
    );
    let outcome = |p: Option<Preamble>| admit_preamble(&store, &table, &p);
    let refused = |a: Admission, e: PreambleError| matches!(a, Admission::Refuse(x) if x == e);
    assert!(matches!(outcome(preamble(1, &issued.token, None)), Admission::Rpc(_)));
    assert!(refused(outcome(None), PreambleError::Unauthorized));
    assert!(refused(outcome(preamble(2, &issued.token, None)), PreambleError::Unauthorized));
    assert!(refused(outcome(preamble(1, "wrong", None)), PreambleError::Unauthorized));
    let tunnel = outcome(preamble(1, &issued.token, Some(("s", 9222))));
    assert!(matches!(tunnel, Admission::Tunnel { port: 9222, .. }));
    let other_port = outcome(preamble(1, &issued.token, Some(("s", 9223))));
    assert!(refused(other_port, PreambleError::Forbidden));
    let no_session = outcome(preamble(1, &issued.token, Some(("x", 9222))));
    assert!(refused(no_session, PreambleError::NotFound));
    let stranger = decide_admission(
        &preamble(1, "", Some(("s", 9222))),
        Some(PeerIdentity::Peer { peer_id: "other".to_owned(), label: String::new() }),
        &table,
    );
    assert!(refused(stranger, PreambleError::NotFound));
}

#[test]
fn listed_references_have_ids() {
    let refs = mock().list_refs();
    assert_eq!(ref_ids(&refs), ["site", "site-no-totp"]);
    let resolved: Option<ResolvedCredential> = mock().resolve("site");
    assert_eq!(resolved.expect("entry").username.as_str(), USERNAME);
}

fn names() -> Vec<String> {
    vec!["mock".to_owned(), "work".to_owned(), "mock".to_owned()]
}

#[test]
fn catalogs_go_through_the_vaults_in_order() {
    let mut run = CatalogRun::new(names(), &None);
    assert!(matches!(run.ask(), CatalogAction::List(0)));
    assert!(matches!(run.listed(Ok(mock().list_refs()), false), CatalogAction::List(1)));
    assert!(matches!(run.listed(Ok(vec![]), false), CatalogAction::List(2)));
    let CatalogAction::Show(catalog) = run.listed(Ok(mock().list_refs()), true) else {
        panic!("expected the catalog");
    };
    let ids: Vec<&str> = catalog.iter().map(|entry| entry.id.as_str()).collect();
    assert_eq!(ids, ["mock:site", "mock:site-no-totp", "mock:site", "mock:site-no-totp"]);
    assert!(catalog[0].details.is_some());
    assert!(catalog[2].details.is_none());
    assert!(matches!(run.ask(), CatalogAction::Reject(ErrorCode::Internal)));

    let mut run = CatalogRun::new(names(), &Some("work".to_owned()));
    assert!(matches!(run.ask(), CatalogAction::List(1)));
    assert!(matches!(
        run.listed(Err(ErrorCode::VaultLocked), true),
        CatalogAction::Reject(ErrorCode::VaultLocked)
    ));

    let mut run = CatalogRun::new(names(), &Some("none".to_owned()));
    assert!(matches!(run.ask(), CatalogAction::Show(catalog) if catalog.is_empty()));
}

#[test]
fn browsers_end_after_the_vaults_are_locked() {
    let mut run = LockRun::new(&names(), Some("mock".to_owned()));
    assert!(matches!(run.ask(), LockAction::Lock(0)));
    assert!(matches!(run.lock_tried(Ok(())), LockAction::Lock(2)));
    let LockAction::Drain(requested) = run.lock_tried(Ok(())) else {
        panic!("expected the browsers to end");
    };
    assert_eq!(requested.as_deref(), Some("mock"));
    assert!(matches!(run.drained(), LockAction::Finish));
    assert!(matches!(run.drained(), LockAction::Reject(ErrorCode::Internal)));

    let mut run = LockRun::new(&names(), None);
    assert!(matches!(run.ask(), LockAction::Lock(0)));
    assert!(matches!(
        run.lock_tried(Err(ErrorCode::Internal)),
        LockAction::Reject(ErrorCode::Internal)
    ));

    let mut run = LockRun::new(&vec![], None);
    assert!(matches!(run.ask(), LockAction::Drain(None)));
}

#[test]
fn administrators_are_answered() {
    let issued = IssuedPeer { peer_id: "p_1".to_owned(), token: "t".to_owned() };
    let handled = issued_handled("7".to_owned(), Ok(issued));
    assert!(matches!(
        handled.response.result,
        Some(RpcResult::Issued { peer_id, token }) if peer_id == "p_1" && token == "t"
    ));
    assert_eq!(issued_handled("7".to_owned(), Err(ErrorCode::Internal)).outcome, "INTERNAL");
    assert!(matches!(
        revoked_handled("7".to_owned(), Ok(true)).response.result,
        Some(RpcResult::Done)
    ));
    assert_eq!(revoked_handled("7".to_owned(), Ok(false)).outcome, "NOT_FOUND");
    assert_eq!(revoked_handled("7".to_owned(), Err(ErrorCode::Internal)).outcome, "INTERNAL");
}

#[test]
fn rpc_preamble_matches_the_pinned_line() {
    let preamble = Preamble { v: PREAMBLE_VERSION, auth: "token".to_owned(), tunnel: None };
    assert_eq!(preamble.line().expect("a line"), r#"{"v":1,"auth":"token"}"#);
}

#[test]
fn tunnel_preamble_matches_the_pinned_line() {
    let preamble = Preamble {
        v: PREAMBLE_VERSION,
        auth: "token".to_owned(),
        tunnel: Some(PreambleTunnel { session_id: "session".to_owned(), port: 9222 }),
    };
    assert_eq!(
        preamble.line().expect("a line"),
        r#"{"v":1,"auth":"token","tunnel":{"session_id":"session","port":9222}}"#
    );
}

#[test]
fn preamble_responses_match_the_pinned_lines() {
    assert_eq!(PreambleResponse::accepted().line().expect("a line"), r#"{"ok":true}"#);
    assert_eq!(
        PreambleResponse::refused(PreambleError::Unauthorized).line().expect("a line"),
        r#"{"ok":false,"error":"UNAUTHORIZED"}"#
    );
    assert_eq!(
        PreambleResponse::refused(PreambleError::Forbidden).line().expect("a line"),
        r#"{"ok":false,"error":"FORBIDDEN"}"#
    );
    for error in [
        PreambleError::Unauthorized,
        PreambleError::NotFound,
        PreambleError::Forbidden,
    ] {
        let line = PreambleResponse::refused(error).line().expect("a line");
        assert_eq!(error.refusal_line(), format!("{line}\n"));
    }
}

#[test]
fn audit_record_names_the_peer_by_its_transport_identity() {
    let record =
        audit_record(1, PeerIdentity::Uid(1000), "status".to_owned(), no_fields(), "ok".to_owned());
    assert_eq!(
        record.line().expect("a line"),
        r#"{"ts":"unix:1","peer_uid":1000,"principal":"uid:1000","method":"status","cred_id":null,"target_url":null,"session_id":null,"namespace":null,"outcome":"ok"}"#
    );

    let mut fields = no_fields();
    fields.cred_id = Some("mock:a\nb\"c".to_owned());
    fields.shared = Some(true);
    let peer = PeerIdentity::Peer { peer_id: "p_1".to_owned(), label: "ci".to_owned() };
    let record = audit_record(2, peer, "login".to_owned(), fields, "ok".to_owned());
    assert_eq!(
        record.line().expect("a line"),
        r#"{"ts":"unix:2","peer_token":true,"peer_id":"p_1","peer_label":"ci","principal":"peer:p_1","method":"login","cred_id":"mock:a\nb\"c","target_url":null,"session_id":null,"namespace":null,"shared":true,"outcome":"ok"}"#
    );

    let peer = PeerIdentity::Sid {
        sid: "S-1-5-21-1".to_owned(),
        elevated: true,
        administrator: false,
        normal_allowed: true,
    };
    let record = audit_record(3, peer, "status".to_owned(), no_fields(), "ok".to_owned());
    let line = record.line().expect("a line");
    assert!(line.starts_with(
        r#"{"ts":"unix:3","peer_sid":"S-1-5-21-1","elevated":true,"administrator":false,"principal":"sid:S-1-5-21-1","#
    ));

    let record = system_record(4, "session_expired", Some("s".to_owned()), "mock".to_owned());
    assert_eq!(
        record.line().expect("a line"),
        r#"{"ts":"unix:4","peer_system":true,"principal":"system","method":"session_expired","cred_id":null,"target_url":null,"session_id":"s","namespace":"mock","outcome":"ok"}"#
    );
}
