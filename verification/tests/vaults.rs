//! The vaults: static, age file, pass, and the Bitwarden client.

use age::secrecy::ExposeSecret;
use tegata::bitwarden::{
    askpass_outcome, output_line, BitwardenCliProvider, BitwardenItem, BitwardenLogin, BwAction,
    BwEvent, BwReply, BwRun,
};
use tegata::credential::VaultTimer;
use tegata::error::ErrorCode;
use tegata::file_provider::{
    check_identity_mode, decrypt_entries, identity_candidates, FileProvider,
};
use tegata::login::{LoginEvent, LoginFlow, ResolveOutcome};
use tegata::pass_provider::{
    entry_name, extract_totp_seed, parse_entry, pass_output, PassProvider, PassRunError,
};
use tegata::rpc::login_answer;
use tegata::secret::Secret;
use tegata::sessions::{SessionTable, StartControl};
use tegata::static_provider::{EntryConfig, StaticProvider};

const SECOND: u64 = 1_000_000_000;

fn entry(id: &str) -> EntryConfig {
    EntryConfig {
        id: id.to_owned(),
        name: format!("Name of {id}"),
        uri: "http://127.0.0.1".to_owned(),
        kind: "login".to_owned(),
        username: "user".to_owned(),
        password: "password".to_owned(),
        totp_seed: Some("JBSWY3DPEHPK3PXP".to_owned()),
        totp_exposable: None,
    }
}

#[test]
fn static_vaults_hide_everything_once_locked() {
    let mut registry = vec!["before".to_owned()];
    let mut vault = StaticProvider::from_config(vec![entry("site")], &mut registry);
    assert_eq!(registry, ["before", "user", "password", "JBSWY3DPEHPK3PXP"]);
    let refs = vault.list_refs();
    assert_eq!(refs.len(), 1);
    assert_eq!(refs[0].id, "site");
    assert_eq!(refs[0].uri.as_deref(), Some("http://127.0.0.1"));
    let credential = vault.resolve("site").expect("entry");
    assert_eq!(credential.password.as_str(), "password");
    assert!(credential.secrets_preregistered);
    assert!(!credential.totp_exposable);
    assert!(vault.resolve("missing").is_none());
    assert!(!vault.locked());
    vault.lock();
    assert!(vault.locked());
    assert!(vault.resolve("site").expect("entry").locked);
}

#[test]
fn timers_close_vaults_once() {
    let mut timer = VaultTimer::new(10, true);
    assert!(!timer.is_due(0));
    timer.open(5 * SECOND);
    assert!(!timer.locked);
    assert!(timer.is_running(14 * SECOND));
    assert!(!timer.is_due(14 * SECOND));
    assert!(timer.is_due(15 * SECOND));
    timer.autolock();
    assert!(timer.locked);
    assert!(timer.take_autolock_event());
    assert!(!timer.take_autolock_event());
    timer.open(0);
    timer.close();
    assert!(timer.locked);
    assert!(!timer.take_autolock_event());
}

#[test]
fn age_files_are_opened_with_the_first_identity() {
    let identity = age::x25519::Identity::generate();
    let other = age::x25519::Identity::generate();
    let encrypted = age::encrypt(&identity.to_public(), b"[]").expect("encrypt");
    let text = format!("# created\n\n  {}  \n", identity.to_string().expose_secret());
    assert_eq!(decrypt_entries(&encrypted, &text), Some(b"[]".to_vec()));
    let wrong = format!("{}\n{}\n", other.to_string().expose_secret(), text);
    assert_eq!(decrypt_entries(&encrypted, &wrong), None);
    assert_eq!(decrypt_entries(b"not an age file", &text), None);
    assert_eq!(decrypt_entries(&encrypted, "# nothing\n"), None);
    let noise = format!("garbage\n{text}");
    assert_eq!(decrypt_entries(&encrypted, &noise), Some(b"[]".to_vec()));
}

#[test]
fn identity_files_may_hold_comments() {
    assert_eq!(identity_candidates("# a\n\n AGE-1 \r\nAGE-2"), ["AGE-1", "AGE-2"]);
    check_identity_mode(0o100600).expect("private identity");
    check_identity_mode(0o100640).expect_err("identity that others may read");
}

#[test]
fn file_vaults_forget_their_entries() {
    let mut vault = FileProvider::new(60);
    assert!(vault.locked());
    assert!(vault.needs_unlock(0));
    assert!(vault.resolve("site").is_none());
    assert!(vault.locked_refs().is_none());
    vault.unlock(vec![entry("site")], 0);
    assert!(!vault.locked());
    assert!(!vault.needs_unlock(59 * SECOND));
    assert_eq!(vault.list_refs().expect("open").len(), 1);
    let credential = vault.resolve("site").expect("entry");
    assert_eq!(credential.username.as_str(), "user");
    assert!(!credential.secrets_preregistered);
    assert!(vault.needs_unlock(60 * SECOND));
    assert!(vault.locked());
    assert!(vault.take_autolock_event());
    assert!(vault.resolve("site").is_none());
    let hidden = vault.locked_refs().expect("known from before");
    assert_eq!(hidden[0].name, "Name of site");
    assert!(hidden[0].uri.is_none());
    vault.unlock(vec![entry("site")], 0);
    vault.lock();
    assert!(vault.locked());
    assert!(!vault.take_autolock_event());
}

#[test]
fn pass_entries_are_read() {
    let exposable = vec!["web/site".to_owned()];
    let output = "hunter2\r\nlogin: first\nusername:  me \nlogin: last\notpauth://totp/x?issuer=y&secret=ABC#z\n";
    let read = parse_entry(output, &exposable, "web/site").expect("entry");
    assert_eq!(read.password.as_str(), "hunter2");
    assert_eq!(read.username.as_str(), "me");
    assert_eq!(read.totp_seed.expect("seed").as_str(), "ABC");
    assert!(read.totp_exposable);
    let read = parse_entry("pw\nlogin: me", &exposable, "other").expect("entry");
    assert_eq!(read.username.as_str(), "me");
    assert!(read.totp_seed.is_none());
    assert!(!read.totp_exposable);
    assert!(parse_entry("", &exposable, "web/site").is_none());
    assert_eq!(extract_totp_seed("totp: otpauth://totp/a?secret=S&x=1"), Some("S".to_owned()));
    assert_eq!(extract_totp_seed("otpauth://totp/a"), None);
    assert_eq!(entry_name("web/site.gpg"), Some("web/site".to_owned()));
    assert_eq!(entry_name("web/.gpg"), None);
    assert_eq!(entry_name(".gpg-id"), None);
}

#[test]
fn pass_runs_fail_in_their_ways() {
    assert_eq!(pass_output(true, b"pw\n".to_vec()), Ok("pw\n".to_owned()));
    assert_eq!(pass_output(false, b"pw\n".to_vec()), Err(PassRunError::NonZeroExit));
    assert_eq!(pass_output(true, vec![0xff]), Err(PassRunError::InvalidOutput));
}

#[test]
fn pass_vaults_keep_entries_for_a_time() {
    let mut vault = PassProvider::new(
        "/store".to_owned(),
        Some("/gnupg".to_owned()),
        None,
        vec![],
        30,
    );
    assert!(vault.locked());
    vault.set_catalog(vec!["b".to_owned(), "a".to_owned()]);
    let names: Vec<String> = vault.list_refs().into_iter().map(|r| r.name).collect();
    assert_eq!(names, ["a", "b"]);
    let command = vault.show("a");
    assert_eq!(command.program, "pass");
    assert_eq!(command.args, ["show", "a"]);
    assert_eq!(
        command.env,
        [
            ("PASSWORD_STORE_DIR".to_owned(), "/store".to_owned()),
            ("GNUPGHOME".to_owned(), "/gnupg".to_owned())
        ]
    );
    assert!(vault.kept("a", 0).is_none());
    let read = vault
        .store("a".to_owned(), Ok("pw\n".to_owned()), true, 0)
        .ok()
        .expect("no failure")
        .expect("entry");
    assert_eq!(read.password.as_str(), "pw");
    assert!(!vault.locked());
    assert_eq!(vault.kept("a", 29 * SECOND).expect("kept").password.as_str(), "pw");
    assert!(vault.kept("a", 30 * SECOND).is_none());
    assert!(vault.take_autolock_event());
    assert!(vault.store("b".to_owned(), Err(PassRunError::Timeout), true, 0).is_err());
    assert!(vault.store("b".to_owned(), Err(PassRunError::Timeout), false, 0).is_err());
    assert!(vault.store("b".to_owned(), Err(PassRunError::NonZeroExit), true, 0).is_err());
    assert!(vault.store("b".to_owned(), Ok(String::new()), true, 0).is_err());
    let _ = vault.store("b".to_owned(), Ok("pw".to_owned()), true, 0);
    vault.lock();
    assert!(vault.kept("b", 0).is_none());
}

#[test]
fn a_login_with_an_entry_that_the_store_lacks_is_an_invalid_credential() {
    let mut vault = PassProvider::new("/store".to_owned(), None, None, vec![], 30);
    assert_eq!(vault.entry_path("web/gone"), "/store/web/gone.gpg");
    let mut table = SessionTable::new();
    let mut control = StartControl::new();
    let mut login =
        LoginFlow::new("uid:1000".to_owned(), "pass:web/gone".to_owned(), false, false)
            .ok()
            .expect("flow");
    login.step(&mut table, &mut control, LoginEvent::Begin);
    login.step(&mut table, &mut control, LoginEvent::GateHeld { now: 0 });
    let output = pass_output(false, b"Error: web/gone is not in the password store.\n".to_vec());
    let found = match vault.store(login.entry_id().to_owned(), output, false, 0) {
        Err(code) => ResolveOutcome::Failed(code),
        Ok(None) => ResolveOutcome::Unknown,
        Ok(Some(_)) => ResolveOutcome::Ready,
    };
    assert!(vault.locked());
    assert!(vault.kept("web/gone", 0).is_none());
    let action = login.step(&mut table, &mut control, LoginEvent::Resolved { found, now: 0 });
    let handled = login_answer("1".to_owned(), action).expect("an answer");
    assert_eq!(handled.outcome, "INVALID_CREDENTIAL");
    assert_eq!(handled.response.error.expect("error").message, "INVALID_CREDENTIAL");
}

fn client() -> BitwardenCliProvider {
    BitwardenCliProvider::new(
        "https://vault".to_owned(),
        "me@example.com".to_owned(),
        "ask".to_owned(),
        "/state/bw-vw".to_owned(),
        None,
        vec!["Site".to_owned()],
        300,
    )
}

fn run_of(action: BwAction) -> BwRun {
    match action {
        BwAction::Run(run) => run,
        _ => panic!("expected a run of the client"),
    }
}

fn ran(vault: &mut BitwardenCliProvider, reply: BwReply) -> BwAction {
    vault.step(BwEvent::Ran { reply, now: 0 })
}

fn open(vault: &mut BitwardenCliProvider) {
    assert!(matches!(vault.step(BwEvent::Begin { now: 0 }), BwAction::AskPassword));
    let read = vault.step(BwEvent::Password(Ok(Secret::new("master".to_owned()))));
    assert_eq!(run_of(read).args, ["config", "server"]);
    let check = ran(vault, BwReply::Output(b"https://vault\n".to_vec()));
    assert_eq!(run_of(check).args, ["login", "--check"]);
    let enter = run_of(ran(vault, BwReply::Output(vec![])));
    assert_eq!(enter.args, ["unlock", "--raw"]);
    let command = vault.command(&enter);
    assert_eq!(command.program, "bw");
    assert_eq!(command.args, ["unlock", "--raw", "--passwordenv", "BW_PASSWORD"]);
    assert!(command.env.contains(&("BW_PASSWORD".to_owned(), "master".to_owned())));
    assert_eq!(command.cleared, ["BW_PASSWORD", "BW_SESSION"]);
    let status = run_of(ran(vault, BwReply::Output(b"session-key\n".to_vec())));
    assert_eq!(status.args, ["status"]);
    let command = vault.command(&status);
    assert!(command.env.contains(&("BW_SESSION".to_owned(), "session-key".to_owned())));
    let sync = ran(vault, BwReply::Status("unlocked".to_owned()));
    assert_eq!(run_of(sync).args, ["sync"]);
    assert!(matches!(ran(vault, BwReply::Output(vec![])), BwAction::Finished(Ok(()))));
}

#[test]
fn a_session_of_the_client_is_opened_and_expires() {
    let mut vault = client();
    open(&mut vault);
    assert!(!vault.locked());
    assert!(matches!(
        vault.step(BwEvent::Begin { now: 299 * SECOND }),
        BwAction::Finished(Ok(()))
    ));
    assert!(!vault.is_due(299 * SECOND));
    assert!(vault.is_due(300 * SECOND));
    vault.finish_expiry();
    assert!(vault.locked());
    assert!(vault.take_autolock_event());
    assert!(matches!(vault.step(BwEvent::Begin { now: 300 * SECOND }), BwAction::AskPassword));
    assert!(matches!(
        vault.step(BwEvent::Password(Err(ErrorCode::Internal))),
        BwAction::Finished(Err(ErrorCode::Internal))
    ));
}

#[test]
fn the_client_is_moved_to_the_configured_server() {
    let mut vault = client();
    vault.step(BwEvent::Begin { now: 0 });
    vault.step(BwEvent::Password(Ok(Secret::new("master".to_owned()))));
    let check = ran(&mut vault, BwReply::Output(b"https://elsewhere".to_vec()));
    assert_eq!(run_of(check).args, ["login", "--check"]);
    let logout = ran(&mut vault, BwReply::Output(vec![]));
    assert_eq!(run_of(logout).args, ["logout"]);
    let configure = ran(&mut vault, BwReply::Output(vec![]));
    assert_eq!(run_of(configure).args, ["config", "server", "https://vault"]);
    let check = ran(&mut vault, BwReply::Output(vec![]));
    assert_eq!(run_of(check).args, ["login", "--check"]);
    let login = ran(&mut vault, BwReply::Failed);
    assert_eq!(run_of(login).args, ["login", "me@example.com", "--raw"]);
    assert!(matches!(
        ran(&mut vault, BwReply::Output(b"\n".to_vec())),
        BwAction::Finished(Err(ErrorCode::Internal))
    ));
}

#[test]
fn a_failed_synchronisation_is_tried_once_more() {
    let mut vault = client();
    vault.step(BwEvent::Begin { now: 0 });
    vault.step(BwEvent::Password(Ok(Secret::new("master".to_owned()))));
    ran(&mut vault, BwReply::Output(b"https://vault".to_vec()));
    ran(&mut vault, BwReply::Failed);
    ran(&mut vault, BwReply::Output(b"key".to_vec()));
    ran(&mut vault, BwReply::Status("unlocked".to_owned()));
    let logout = ran(&mut vault, BwReply::Failed);
    assert_eq!(run_of(logout).args, ["logout"]);
    assert!(matches!(ran(&mut vault, BwReply::Output(vec![])), BwAction::AskPassword));
    let login = vault.step(BwEvent::Password(Ok(Secret::new("master".to_owned()))));
    assert_eq!(run_of(login).args, ["login", "me@example.com", "--raw"]);
    ran(&mut vault, BwReply::Output(b"key".to_vec()));
    ran(&mut vault, BwReply::Status("unlocked".to_owned()));
    assert!(matches!(
        ran(&mut vault, BwReply::Failed),
        BwAction::Finished(Err(ErrorCode::Internal))
    ));
    assert!(vault.lock_run().is_none());
}

#[test]
fn a_session_that_is_not_unlocked_is_dropped() {
    let mut vault = client();
    vault.step(BwEvent::Begin { now: 0 });
    vault.step(BwEvent::Password(Ok(Secret::new("master".to_owned()))));
    ran(&mut vault, BwReply::Output(b"https://vault".to_vec()));
    let login = run_of(ran(&mut vault, BwReply::Failed));
    assert_eq!(login.operation(), "login or unlock");
    ran(&mut vault, BwReply::Output(b"key".to_vec()));
    assert!(matches!(
        ran(&mut vault, BwReply::Status("locked".to_owned())),
        BwAction::Finished(Err(ErrorCode::Internal))
    ));
    assert!(vault.lock_run().is_none());
}

#[test]
fn items_of_the_client_become_credentials() {
    let mut vault = client();
    open(&mut vault);
    let item = |name: &str, login: Option<BitwardenLogin>| BitwardenItem {
        id: "a1".to_owned(),
        name: name.to_owned(),
        login,
    };
    let login = || BitwardenLogin {
        uris: vec![None, Some("https://site".to_owned())],
        username: Some("me".to_owned()),
        password: None,
        totp: Some("SEED".to_owned()),
    };
    assert_eq!(vault.list_run().args, ["list", "items"]);
    assert_eq!(vault.get_run("a1").args, ["get", "item", "a1"]);
    assert_eq!(vault.list_run().operation(), "list items");
    assert_eq!(vault.get_run("a1").operation(), "get item");
    let refs = vault.list_refs(Some(vec![item("Site", Some(login()))])).ok().expect("list");
    assert_eq!(refs[0].id, "a1");
    let credential = vault.resolve(Some(item("Site", Some(login())))).ok().expect("item");
    assert_eq!(credential.username.as_str(), "me");
    assert_eq!(credential.password.as_str(), "");
    assert!(credential.totp_exposable);
    assert_eq!(vault.resolve(Some(item("Site", None))).err(), Some(ErrorCode::InvalidCredential));
    assert_eq!(vault.resolve(None).err(), Some(ErrorCode::InvalidCredential));
    assert_eq!(vault.list_refs(None).err(), Some(ErrorCode::Internal));
    assert_eq!(vault.lock_run().expect("session").args, ["lock"]);
    assert!(vault.finish_lock(true).is_ok());
    assert!(vault.locked());
    let hidden = vault.locked_refs().expect("locked");
    assert_eq!(hidden[0].name, "Site");
    assert!(hidden[0].uri.is_none());
    open(&mut vault);
    assert_eq!(vault.finish_lock(false), Err(ErrorCode::Internal));
}

#[test]
fn passwords_are_the_first_line() {
    assert_eq!(output_line(b"one\r\ntwo".to_vec()), Some("one".to_owned()));
    assert_eq!(output_line(b"\ntwo".to_vec()), None);
    assert_eq!(output_line(vec![0xff]), None);
    assert_eq!(askpass_outcome(true, b"pw\n".to_vec()).ok().expect("pw").as_str(), "pw");
    assert_eq!(askpass_outcome(false, b"pw\n".to_vec()).err(), Some(ErrorCode::Internal));
    assert_eq!(askpass_outcome(true, vec![]).err(), Some(ErrorCode::Internal));
    let command = client().askpass_command();
    assert_eq!(command.program, "sh");
    assert_eq!(command.args, ["-c", "ask"]);
}
