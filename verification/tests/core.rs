//! Secrets, one-time codes, and names of Windows instances.

use tegata::secret::Secret;
use tegata::text::{
    char_is_white, decimal_text, decode_text, parse_port, sort_texts, text_find, text_lines,
    text_pieces, text_split_first, text_split_last, text_trim, text_words,
};
use tegata::totp::{code_of_digest, decode_seed, extract_secret, pick_key, totp};
use tegata::windows_instance::{
    firewall_rule_name, install_root_under, service_account, validate_service_name,
};

#[test]
fn secret_formatting_is_constant() {
    let secret = Secret::new("hidden".to_owned());
    assert_eq!(secret.to_string(), "***");
    assert_eq!(secret.as_str(), "hidden");
}

#[test]
fn totp_matches_rfc_6238_vector() {
    let (code, expires_in) = totp("12345678901234567890", 59);
    assert_eq!(code, "287082");
    assert_eq!(expires_in, 1);
}

#[test]
fn totp_accepts_otpauth_uri_seed() {
    let (plain, _) = totp("JBSWY3DPEHPK3PXP", 59);
    let (from_uri, _) = totp(
        "otpauth://totp/GitHub:user?secret=JBSWY3DPEHPK3PXP&issuer=GitHub&period=30",
        59,
    );
    assert_eq!(from_uri, plain);
}

#[test]
fn totp_accepts_whitespace_grouped_seed() {
    let (plain, _) = totp("JBSWY3DPEHPK3PXP", 59);
    let (grouped, _) = totp("jbsw y3dp ehpk 3pxp", 59);
    assert_eq!(grouped, plain);
}

#[test]
fn totp_codes_stay_for_a_period() {
    assert_eq!(totp("12345678901234567890", 30).0, "287082");
    assert_eq!(totp("12345678901234567890", 30).1, 30);
    assert_eq!(totp("12345678901234567890", 1111111109).0, "081804");
    assert_eq!(totp("12345678901234567890", 1111111111).0, "050471");
    assert_eq!(totp("12345678901234567890", 20000000000).0, "353130");
    assert_ne!(totp("12345678901234567890", 60).0, "287082");
}

#[test]
fn seeds_are_decoded_from_base32() {
    assert_eq!(decode_seed("GEZDGNBVGY3TQOJQ"), b"1234567890".to_vec());
    assert_eq!(decode_seed("gezd gnbv gy3t qojq"), b"1234567890".to_vec());
    assert_eq!(decode_seed("MFRGG==="), b"abc".to_vec());
    assert_eq!(decode_seed("MFRGG"), b"abc".to_vec());
    // What is no base32 is its own key.
    assert_eq!(decode_seed("12345678901234567890"), b"12345678901234567890".to_vec());
    assert_eq!(extract_secret("otpauth://totp/x?issuer=y&secret=ABC"), "ABC");
    assert_eq!(extract_secret("a b\tc"), "abc");
}

#[test]
fn a_secret_has_one_code_however_it_is_written() {
    for secret in ["JBSWY3DPEHPK3PXP", "MFRGG===", "MFRGG"] {
        let plain = totp(secret, 1_111_111_109);
        let lower = secret.to_ascii_lowercase();
        let grouped = format!(" {} {}\n", &lower[..3], &lower[3..]);
        for written in [
            lower.clone(),
            grouped.clone(),
            format!("otpauth://totp/x?secret={secret}&issuer=y"),
            format!("OTPAUTH://totp/x?secret={grouped}&issuer=y"),
            format!("otpauth://totp/x?issuer=y&secret={lower}"),
        ] {
            assert_eq!(totp(&written, 1_111_111_109), plain, "{written:?}");
        }
    }
    assert_eq!(decode_seed("mfrgg==="), b"abc".to_vec());
}

#[test]
fn the_first_key_that_was_decoded_is_picked() {
    assert_eq!(pick_key(Some(vec![1]), Some(vec![2]), None, None, "x"), vec![1]);
    assert_eq!(pick_key(None, None, Some(vec![3]), Some(vec![4]), "x"), vec![3]);
    assert_eq!(pick_key(None, None, None, None, "seed"), b"seed".to_vec());
}

#[test]
fn digests_are_truncated_to_six_digits() {
    // The example of RFC 4226, section 5.4.
    let digest: [u8; 20] = [
        0x1f, 0x86, 0x98, 0x69, 0x0e, 0x02, 0xca, 0x16, 0x61, 0x85, 0x50, 0xef, 0x7f, 0x19, 0xda,
        0x8e, 0x94, 0x5b, 0x55, 0x5a,
    ];
    assert_eq!(code_of_digest(&digest), "872921");
    let mut small = [0u8; 20];
    small[3] = 7;
    assert_eq!(code_of_digest(&small), "000007");
}

#[test]
fn service_name_with_letters_digits_and_dashes_is_accepted() {
    validate_service_name("tegatad-rig").expect("a plain service name is accepted");
}

#[test]
fn service_name_with_shell_metacharacters_is_refused() {
    let error = validate_service_name("tegatad'; Remove-Item -Recurse C:\\ #")
        .expect_err("shell metacharacters are refused");
    assert!(
        error.to_string().contains("letters"),
        "error should name the allowed characters: {error}"
    );
}

#[test]
fn empty_service_name_is_refused() {
    validate_service_name("").expect_err("an empty service name is refused");
}

#[test]
fn service_name_with_a_path_separator_is_refused() {
    validate_service_name(r"tegatad\rig").expect_err("a backslash is refused");
    validate_service_name("tegatad/rig").expect_err("a slash is refused");
}

#[test]
fn service_names_have_a_limit() {
    validate_service_name(&"a".repeat(256)).expect("256 characters are accepted");
    validate_service_name(&"a".repeat(257)).expect_err("257 characters are refused");
}

#[test]
fn service_name_derives_the_account_and_the_firewall_rule() {
    assert_eq!(service_account("tegatad-rig"), r"NT SERVICE\tegatad-rig");
    assert_eq!(firewall_rule_name("tegatad-rig"), "tegatad-rig WSL TCP");
}

#[test]
fn install_root_of_the_default_configuration_is_the_default_directory() {
    let root = install_root_under(r"C:\ProgramData", r"C:\ProgramData\tegata\config.toml")
        .expect("default configuration path is accepted");
    assert_eq!(root, r"C:\ProgramData\tegata");
}

#[test]
fn install_root_of_a_named_instance_is_its_own_directory() {
    let root = install_root_under(r"C:\ProgramData", r"C:\ProgramData\tegata-rig\config.toml")
        .expect("named instance path is accepted");
    assert_eq!(root, r"C:\ProgramData\tegata-rig");
}

#[test]
fn install_root_comparison_ignores_case() {
    let root = install_root_under(r"C:\ProgramData", r"c:\programdata\Tegata\config.toml")
        .expect("case differences do not reject the path");
    assert_eq!(root, r"c:\programdata\Tegata");
}

#[test]
fn install_root_normalises_a_trailing_separator_on_program_data() {
    let root = install_root_under(r"C:\ProgramData\", r"C:\ProgramData\tegata\config.toml")
        .expect("trailing separator is normalised");
    assert_eq!(root, r"C:\ProgramData\tegata");
}

#[test]
fn install_root_refuses_a_configuration_outside_program_data() {
    let error = install_root_under(r"C:\ProgramData", r"C:\Users\alice\config.toml")
        .expect_err("a user profile path is refused");
    assert!(
        error.to_string().contains("%ProgramData%"),
        "error should name %ProgramData%: {error}"
    );
}

#[test]
fn install_root_collapses_repeated_separators_before_judging() {
    let error = install_root_under(r"C:\ProgramData", r"C:\ProgramData\\config.toml")
        .expect_err("a doubled separator does not create a directory level");
    assert!(
        error.to_string().contains("%ProgramData%"),
        "error should name %ProgramData%: {error}"
    );
    let root = install_root_under(r"C:\ProgramData", r"C:\ProgramData\tegata\\config.toml")
        .expect("a doubled separator inside an accepted path is tolerated");
    assert_eq!(root, r"C:\ProgramData\tegata");
}

#[test]
fn install_root_refuses_a_configuration_directly_under_program_data() {
    let error = install_root_under(r"C:\ProgramData", r"C:\ProgramData\config.toml")
        .expect_err("a configuration directly under %ProgramData% is refused");
    assert!(
        error.to_string().contains("%ProgramData%"),
        "error should name %ProgramData%: {error}"
    );
}

#[test]
fn white_space_is_that_of_the_standard_library() {
    for n in 0..0x11_0000u32 {
        if let Some(c) = char::from_u32(n) {
            assert_eq!(char_is_white(c), c.is_whitespace(), "{n:x}");
        }
    }
}

#[test]
fn strings_are_split_and_trimmed_as_the_standard_library_does() {
    for s in ["", " ", "a", " a\u{a0}", "a:b:c", ":", "a\r\nb\n\nc\r", "x  y\tz\n", "\u{3000}é "] {
        assert_eq!(text_trim(s), s.trim());
        assert_eq!(text_lines(s), s.lines().collect::<Vec<_>>());
        assert_eq!(text_words(s), s.split_whitespace().collect::<Vec<_>>());
        assert_eq!(text_pieces(s, ':'), s.split(':').collect::<Vec<_>>());
        let first = text_split_first(s, ':');
        assert_eq!(
            first,
            s.split_once(':').map(|(a, b)| (a.to_owned(), b.to_owned()))
        );
        let last = text_split_last(s, ':');
        assert_eq!(
            last,
            s.rsplit_once(':').map(|(a, b)| (a.to_owned(), b.to_owned()))
        );
    }
    assert_eq!(text_find("aaab", "ab"), Some(2));
    assert_eq!(text_find("aaab", "ba"), None);
}

#[test]
fn numbers_are_written_and_read_as_the_standard_library_does() {
    for n in [0u64, 7, 10, 99, 100, 65535, 65536, u64::MAX] {
        assert_eq!(decimal_text(n), n.to_string());
    }
    for s in ["", "0", "7", "007", "+8", "-1", "65535", "65536", "99999999999", "1a", "+", " 1"] {
        assert_eq!(parse_port(s), s.parse::<u16>().ok(), "{s}");
    }
}

#[test]
fn bytes_are_decoded_where_they_are_text() {
    assert_eq!(decode_text("tégata".as_bytes().to_vec()), Ok("tégata".to_owned()));
    assert_eq!(decode_text(vec![0xff, 0x41]), Err(vec![0xff, 0x41]));
}

#[test]
fn names_are_sorted() {
    let names = vec!["b".to_owned(), "a/c".to_owned(), "a".to_owned(), "B".to_owned()];
    assert_eq!(sort_texts(names), ["B", "a", "a/c", "b"]);
}
