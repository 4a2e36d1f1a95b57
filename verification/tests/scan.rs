//! Canaries in bytes, and the guard on responses.

use tegata::credential::ResolvedCredential;
use tegata::encoding::{base64url_text, hex_encode, hex_text, percent_encode};
use tegata::leakscan::{
    append_hits, entry_action, find_matches, read_failure, scan_bytes, EntryAction, Hit,
    ReadFailure, ReadKind, ReportHit,
};
use tegata::registry::Registry;
use tegata::secret::Secret;

fn hit(canary_index: usize, encoding: &str, byte_offset: usize) -> Hit {
    Hit { canary_index, encoding: encoding.to_owned(), byte_offset }
}

#[test]
fn every_encoding_of_a_canary_is_found() {
    let canaries = vec!["ab\"c".to_owned()];
    assert_eq!(scan_bytes(b"..ab\"c", &canaries), [hit(0, "raw", 2)]);
    assert_eq!(scan_bytes(b"x YWIiYw== y", &canaries), [hit(0, "base64", 2)]);
    assert_eq!(scan_bytes(b"%61%62%22%63", &canaries), [hit(0, "url", 0)]);
    assert_eq!(scan_bytes(b"61622263", &canaries), [hit(0, "hex", 0)]);
    assert_eq!(scan_bytes(b"\"ab\\\"c\"", &canaries), [hit(0, "json", 0)]);
    assert_eq!(scan_bytes(b"nothing", &canaries), []);
}

#[test]
fn percent_and_hex_ignore_case() {
    let canaries = vec!["\u{ff}".to_owned()];
    assert_eq!(scan_bytes(b"%C3%BF", &canaries), [hit(0, "url", 0)]);
    assert_eq!(scan_bytes(b"%c3%bf", &canaries), [hit(0, "url", 0)]);
    assert_eq!(scan_bytes(b"C3bF", &canaries), [hit(0, "hex", 0)]);
}

#[test]
fn hits_come_by_canary_then_encoding_then_offset() {
    let canaries = vec!["aa".to_owned(), "".to_owned(), "b".to_owned()];
    assert_eq!(
        scan_bytes(b"aaab6161", &canaries),
        [hit(0, "raw", 0), hit(0, "raw", 1), hit(0, "hex", 4), hit(2, "raw", 3)]
    );
    // The JSON form of the empty string is two quotes.
    assert_eq!(scan_bytes(b"x\"\"", &["".to_owned()]), [hit(0, "json", 1)]);
}

#[test]
fn matches_may_overlap() {
    assert_eq!(find_matches(b"aaaa", b"aa", false), [0, 1, 2]);
    assert_eq!(find_matches(b"AbaB", b"ab", true), [0, 2]);
    assert_eq!(find_matches(b"AbaB", b"ab", false), Vec::<usize>::new());
    assert_eq!(find_matches(b"a", b"", false), Vec::<usize>::new());
    assert_eq!(find_matches(b"a", b"aa", false), Vec::<usize>::new());
}

#[test]
fn bytes_are_encoded() {
    assert_eq!(percent_encode(b"a\xff"), b"%61%FF".to_vec());
    assert_eq!(hex_encode(b"a\xff"), b"61ff".to_vec());
    assert_eq!(hex_text(b"a\xff"), "61ff");
    assert_eq!(base64url_text(b""), "");
    assert_eq!(base64url_text(b"\xfb\xff"), "-_8");
    assert_eq!(base64url_text(b"abc"), "YWJj");
    assert_eq!(base64url_text(b"abcd"), "YWJjZA");
}

#[test]
fn reports_name_the_target() {
    let mut hits = vec![];
    append_hits("log", b"x secret", &["secret".to_owned()], &mut hits);
    append_hits("core", b"secret", &["secret".to_owned()], &mut hits);
    assert_eq!(
        hits,
        [
            ReportHit {
                path: "log".to_owned(),
                canary_index: 0,
                encoding: "raw".to_owned(),
                byte_offset: 2
            },
            ReportHit {
                path: "core".to_owned(),
                canary_index: 0,
                encoding: "raw".to_owned(),
                byte_offset: 0
            },
        ]
    );
}

#[test]
fn directories_are_walked_and_files_are_scanned() {
    assert_eq!(entry_action(true, false), EntryAction::Walk);
    assert_eq!(entry_action(false, true), EntryAction::Scan);
    assert_eq!(entry_action(false, false), EntryAction::Skip);
    assert_eq!(
        read_failure(ReadKind::File, "a", "gone", true),
        ReadFailure::Fatal("failed to read target a: gone".to_owned())
    );
    assert_eq!(
        read_failure(ReadKind::Directory, "a", "gone", false),
        ReadFailure::Warning("warning: failed to read directory a: gone".to_owned())
    );
}

fn credential(preregistered: bool) -> ResolvedCredential {
    ResolvedCredential {
        locked: false,
        secrets_preregistered: preregistered,
        username: Secret::new("the-user".to_owned()),
        password: Secret::new("the-password".to_owned()),
        totp_seed: Some(Secret::new("the-seed".to_owned())),
        totp_exposable: false,
    }
}

#[test]
fn a_response_with_a_resolved_value_never_leaves() {
    let mut registry = Registry::new(vec![]);
    assert!(!registry.leaks(b"the-password"));
    registry.register_credential(&credential(false));
    assert!(registry.leaks(b"{\"x\":\"the-password\"}"));
    assert!(registry.leaks(b"dGhlLXNlZWQ="));
    assert!(registry.leaks(b"the-user"));
    let guarded =
        registry.guard("7", b"{\"x\":\"the-password\"}".to_vec(), "ok".to_owned());
    assert!(guarded.leaked);
    let line = "{\"jsonrpc\":\"2.0\",\"id\":7,\"error\":{\"code\":-32000,\"message\":\"INTERNAL\"}}\n";
    assert_eq!(guarded.bytes, line.as_bytes().to_vec());
    assert_eq!(guarded.outcome, "INTERNAL");
    let clean = registry.guard("7", b"fine".to_vec(), "ok".to_owned());
    assert!(!clean.leaked);
    assert_eq!(clean.bytes, b"fine\n".to_vec());
    assert_eq!(clean.outcome, "ok");
}

#[test]
fn values_of_the_configuration_are_registered_beforehand() {
    let mut registry = Registry::new(vec!["configured".to_owned()]);
    registry.register_credential(&credential(true));
    assert!(registry.leaks(b"configured"));
    assert!(!registry.leaks(b"the-password"));
    registry.register(&Secret::new("late".to_owned()));
    assert!(registry.leaks(b"bGF0ZQ=="));
}
