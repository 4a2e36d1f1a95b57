//! Time-based one-time passwords.

use data_encoding::{BASE32, BASE32_NOPAD};
use hmac::{Hmac, KeyInit, Mac};
use sha1::Sha1;
use vstd::prelude::*;
use vstd::slice::*;
use vstd::string::*;
use vstd::utf8::*;

use crate::text::{
    char_is_white, same_text, text_lower, text_pieces, text_split_first, text_trim, text_upper,
    to_chars, range_text,
};

verus! {

// ---------------------------------------------------------------------------
// Outside computations
// ---------------------------------------------------------------------------

/// What the padded base32 encoding of the `data_encoding` crate decodes.
pub uninterp spec fn base32_decoded(input: Seq<u8>) -> Option<Seq<u8>>;

/// What the unpadded base32 encoding of the `data_encoding` crate decodes.
pub uninterp spec fn base32_nopad_decoded(input: Seq<u8>) -> Option<Seq<u8>>;

/// The HMAC-SHA1 of a message under a key.
pub uninterp spec fn hmac_sha1(key: Seq<u8>, message: Seq<u8>) -> Seq<u8>;

/// An optional byte string, as an optional sequence.
pub open spec fn opt_bytes(bytes: Option<Vec<u8>>) -> Option<Seq<u8>> {
    match bytes {
        Some(b) => Some(b@),
        None => None,
    }
}

/// The digits of base32: the upper case letters, and the digits from two to
/// seven.
pub open spec fn is_base32_digit(b: u32) -> bool {
    0x41 <= b <= 0x5a || 0x32 <= b <= 0x37
}

/// Only digits of base32, and perhaps the padding character.
pub open spec fn in_alphabet(input: Seq<u8>, padded: bool) -> bool {
    forall|i: int|
        0 <= i < input.len() ==> is_base32_digit((#[trigger] input[i]) as u32) || (padded
            && input[i] == 0x3d)
}

/// Input that is not too long to be looked at by the decoder.
pub open spec fn is_decodable(input: Seq<u8>) -> bool {
    input.len() <= usize::MAX / 8
}

/// `BASE32.decode`: the decoded bytes, or nothing where the input is not
/// padded base32. The result depends on the input alone, and input with a byte
/// that is neither an upper case letter, a digit from two to seven nor `=` is
/// not decoded. The decoder does not take more than an eighth of the address
/// space.
#[verifier::external_body]
fn decode_base32(input: &[u8]) -> (r: Option<Vec<u8>>)
    requires
        is_decodable(input@),
    ensures
        opt_bytes(r) == (if in_alphabet(input@, true) {
            base32_decoded(input@)
        } else {
            None
        }),
{
    BASE32.decode(input).ok()
}

/// `BASE32_NOPAD.decode`: the decoded bytes, or nothing where the input is not
/// unpadded base32. The result depends on the input alone, and input with a
/// byte that is neither an upper case letter nor a digit from two to seven is
/// not decoded. The decoder does not take more than an eighth of the address
/// space.
#[verifier::external_body]
fn decode_base32_nopad(input: &[u8]) -> (r: Option<Vec<u8>>)
    requires
        is_decodable(input@),
    ensures
        opt_bytes(r) == (if in_alphabet(input@, false) {
            base32_nopad_decoded(input@)
        } else {
            None
        }),
{
    BASE32_NOPAD.decode(input).ok()
}

/// `Hmac::<Sha1>`, fed the message once: a digest of 20 bytes that depends on
/// the key and the message alone. A key of any length is accepted.
#[verifier::external_body]
fn hmac_sha1_digest(key: &[u8], message: &[u8]) -> (r: Vec<u8>)
    ensures
        r@ == hmac_sha1(key@, message@),
        r@.len() == 20,
{
    let mut mac = Hmac::<Sha1>::new_from_slice(key).expect("HMAC accepts every key length");
    mac.update(message);
    mac.finalize().into_bytes().to_vec()
}

// ---------------------------------------------------------------------------
// Seeds
// ---------------------------------------------------------------------------

/// `s` without its white space.
pub open spec fn without_white(s: Seq<char>) -> Seq<char>
    decreases s.len(),
{
    if s.len() == 0 {
        seq![]
    } else if crate::text::is_white(s.last()) {
        without_white(s.drop_last())
    } else {
        without_white(s.drop_last()).push(s.last())
    }
}

/// `s` starts with the scheme of key URIs, in any case.
pub open spec fn is_key_uri(s: Seq<char>) -> bool {
    s.len() >= 10 && crate::text::lower_all(s.take(10)) == "otpauth://"@
}

/// The value of the first `secret` parameter among `pairs`.
pub open spec fn secret_param(pairs: Seq<Seq<char>>) -> Option<Seq<char>>
    decreases pairs.len(),
{
    if pairs.len() == 0 {
        None
    } else {
        match crate::text::split_first(pairs[0], '=') {
            Some((key, value)) => if crate::text::lower_all(key) == "secret"@ {
                Some(value)
            } else {
                secret_param(pairs.drop_first())
            },
            None => secret_param(pairs.drop_first()),
        }
    }
}

/// The part of a trimmed seed that carries the secret.
pub open spec fn seed_body(trimmed: Seq<char>) -> Seq<char> {
    if is_key_uri(trimmed) {
        match crate::text::split_first(trimmed, '?') {
            Some((_, query)) => match secret_param(crate::text::pieces(query, '&')) {
                Some(value) => value,
                None => trimmed,
            },
            None => trimmed,
        }
    } else {
        trimmed
    }
}

/// The secret of a stored seed.
pub open spec fn seed_secret(seed: Seq<char>) -> Seq<char> {
    without_white(seed_body(crate::text::trim(seed)))
}

/// What a text decodes to, with or without padding.
pub open spec fn base32_value(text: Seq<char>, padded: bool) -> Option<Seq<u8>> {
    let input = encode_utf8(text);
    if !is_decodable(input) || !in_alphabet(input, padded) {
        None
    } else if padded {
        base32_decoded(input)
    } else {
        base32_nopad_decoded(input)
    }
}

/// A text is base32 as it stands, with or without padding.
pub open spec fn is_base32(text: Seq<char>) -> bool {
    base32_value(text, true) is Some || base32_value(text, false) is Some
}

/// The first of four decodings that succeeded, or the fallback.
pub open spec fn first_decoded(
    first: Option<Seq<u8>>,
    second: Option<Seq<u8>>,
    third: Option<Seq<u8>>,
    fourth: Option<Seq<u8>>,
    fallback: Seq<u8>,
) -> Seq<u8> {
    match (first, second, third, fourth) {
        (Some(b), _, _, _) => b,
        (None, Some(b), _, _) => b,
        (None, None, Some(b), _) => b,
        (None, None, None, Some(b)) => b,
        (None, None, None, None) => fallback,
    }
}

/// The key of a stored seed: its secret decoded as base32, as it stands or in
/// upper case, with or without padding; else the bytes of the seed itself.
pub open spec fn seed_key(seed: Seq<char>) -> Seq<u8> {
    let secret = seed_secret(seed);
    let raised = crate::text::upper_all(secret);
    first_decoded(
        base32_value(secret, true),
        base32_value(secret, false),
        base32_value(raised, true),
        base32_value(raised, false),
        encode_utf8(seed),
    )
}

fn find_secret_param(pairs: &Vec<String>) -> (r: Option<String>)
    ensures
        crate::text::opt_text(r) == secret_param(crate::text::texts(pairs@)),
{
    let ghost views = crate::text::texts(pairs@);
    let mut i: usize = 0;
    assert(views.skip(0) =~= views);
    while i < pairs.len()
        invariant
            i <= pairs@.len(),
            views == crate::text::texts(pairs@),
            secret_param(views) == secret_param(views.skip(i as int)),
        decreases pairs@.len() - i,
    {
        assert(views.skip(i as int)[0] == pairs@[i as int]@);
        assert(views.skip(i as int).drop_first() =~= views.skip(i + 1));
        match text_split_first(pairs[i].as_str(), '=') {
            Some((key, value)) => {
                let folded = text_lower(key.as_str());
                if same_text(folded.as_str(), "secret") {
                    return Some(value);
                }
            },
            None => {},
        }
        i += 1;
    }
    None
}

fn starts_as_key_uri(s: &str) -> (r: bool)
    ensures
        r == is_key_uri(s@),
{
    let chars = to_chars(s);
    if chars.len() < 10 {
        return false;
    }
    let scheme = range_text(chars.as_slice(), 0, 10);
    assert(scheme@ =~= s@.take(10));
    let folded = text_lower(scheme.as_str());
    same_text(folded.as_str(), "otpauth://")
}

/// Extracts the shared secret from a stored seed value.
///
/// Vault providers commonly store the TOTP seed as a full `otpauth://` URI
/// (Bitwarden does when the key was enrolled from a QR code) or as base32
/// grouped with white space for readability (the format most setup pages
/// display). Both carry the same secret, so both are reduced to it here.
pub fn extract_secret(seed: &str) -> (secret: String)
    ensures
        secret@ == seed_secret(seed@),
{
    let trimmed = text_trim(seed);
    let body = if starts_as_key_uri(trimmed.as_str()) {
        match text_split_first(trimmed.as_str(), '?') {
            Some((_, query)) => {
                let pairs = text_pieces(query.as_str(), '&');
                match find_secret_param(&pairs) {
                    Some(value) => value,
                    None => trimmed.clone(),
                }
            },
            None => trimmed.clone(),
        }
    } else {
        trimmed.clone()
    };
    let chars = to_chars(body.as_str());
    let mut secret = String::new();
    let mut i: usize = 0;
    assert(secret@ =~= without_white(chars@.take(0)));
    while i < chars.len()
        invariant
            i <= chars@.len(),
            secret@ == without_white(chars@.take(i as int)),
        decreases chars@.len() - i,
    {
        assert(chars@.take(i + 1).drop_last() =~= chars@.take(i as int));
        if !char_is_white(chars[i]) {
            secret.push(chars[i]);
        }
        i += 1;
    }
    assert(chars@.take(i as int) =~= chars@);
    secret
}

/// Picks the key from the four decodings of a secret, in order of preference.
pub fn pick_key(
    first: Option<Vec<u8>>,
    second: Option<Vec<u8>>,
    third: Option<Vec<u8>>,
    fourth: Option<Vec<u8>>,
    seed: &str,
) -> (key: Vec<u8>)
    ensures
        key@ == first_decoded(
            opt_bytes(first),
            opt_bytes(second),
            opt_bytes(third),
            opt_bytes(fourth),
            encode_utf8(seed@),
        ),
{
    match first {
        Some(b) => b,
        None => match second {
            Some(b) => b,
            None => match third {
                Some(b) => b,
                None => match fourth {
                    Some(b) => b,
                    None => slice_to_vec(seed.as_bytes()),
                },
            },
        },
    }
}

fn read_base32(text: &str, padded: bool) -> (r: Option<Vec<u8>>)
    ensures
        opt_bytes(r) == base32_value(text@, padded),
{
    let input = text.as_bytes();
    if input.len() > usize::MAX / 8 {
        None
    } else if padded {
        decode_base32(input)
    } else {
        decode_base32_nopad(input)
    }
}

/// The key bytes of a stored seed.
pub fn decode_seed(seed: &str) -> (key: Vec<u8>)
    ensures
        key@ == seed_key(seed@),
{
    let secret = extract_secret(seed);
    let raised = text_upper(secret.as_str());
    pick_key(
        read_base32(secret.as_str(), true),
        read_base32(secret.as_str(), false),
        read_base32(raised.as_str(), true),
        read_base32(raised.as_str(), false),
        seed,
    )
}

// ---------------------------------------------------------------------------
// Codes
// ---------------------------------------------------------------------------

/// `n` as eight bytes, the most significant first.
pub open spec fn big_endian(n: nat) -> Seq<u8> {
    seq![
        (n / 0x100_0000_0000_0000 % 256) as u8,
        (n / 0x1_0000_0000_0000 % 256) as u8,
        (n / 0x100_0000_0000 % 256) as u8,
        (n / 0x1_0000_0000 % 256) as u8,
        (n / 0x100_0000 % 256) as u8,
        (n / 0x1_0000 % 256) as u8,
        (n / 0x100 % 256) as u8,
        (n % 256) as u8,
    ]
}

/// The 31 bits of a digest that its last byte points to.
pub open spec fn truncated(digest: Seq<u8>) -> nat {
    let at = digest[19] as int % 16;
    ((digest[at] % 128) * 0x100_0000 + digest[at + 1] * 0x1_0000 + digest[at + 2] * 0x100
        + digest[at + 3]) as nat
}

/// The last six decimal digits of `n`.
pub open spec fn six_digits(n: nat) -> Seq<char> {
    seq![
        crate::text::digit(n / 100000 % 10),
        crate::text::digit(n / 10000 % 10),
        crate::text::digit(n / 1000 % 10),
        crate::text::digit(n / 100 % 10),
        crate::text::digit(n / 10 % 10),
        crate::text::digit(n % 10),
    ]
}

/// The code of a key at a time.
pub open spec fn code_at(key: Seq<u8>, unix_time_secs: nat) -> Seq<char> {
    six_digits(truncated(hmac_sha1(key, big_endian(unix_time_secs / 30))))
}

/// How many seconds a code that is generated now stays current.
pub open spec fn seconds_left(unix_time_secs: nat) -> nat {
    (30 - unix_time_secs % 30) as nat
}

fn counter_bytes(n: u64) -> (r: Vec<u8>)
    ensures
        r@ == big_endian(n as nat),
{
    let mut out: Vec<u8> = Vec::new();
    out.push((n / 0x100_0000_0000_0000 % 256) as u8);
    out.push((n / 0x1_0000_0000_0000 % 256) as u8);
    out.push((n / 0x100_0000_0000 % 256) as u8);
    out.push((n / 0x1_0000_0000 % 256) as u8);
    out.push((n / 0x100_0000 % 256) as u8);
    out.push((n / 0x1_0000 % 256) as u8);
    out.push((n / 0x100 % 256) as u8);
    out.push((n % 256) as u8);
    assert(out@ =~= big_endian(n as nat));
    out
}

fn digit_char(d: u32) -> (c: char)
    requires
        d < 10,
    ensures
        c == crate::text::digit(d as nat),
{
    (0x30u8 + d as u8) as char
}

/// The six digits that a digest stands for.
pub fn code_of_digest(digest: &[u8]) -> (code: String)
    requires
        digest@.len() == 20,
    ensures
        code@ == six_digits(truncated(digest@)),
{
    let at: usize = (digest[19] % 16) as usize;
    let n: u32 = (digest[at] % 128) as u32 * 0x100_0000 + digest[at + 1] as u32 * 0x1_0000
        + digest[at + 2] as u32 * 0x100 + digest[at + 3] as u32;
    let mut code = String::new();
    code.push(digit_char(n / 100000 % 10));
    code.push(digit_char(n / 10000 % 10));
    code.push(digit_char(n / 1000 % 10));
    code.push(digit_char(n / 100 % 10));
    code.push(digit_char(n / 10 % 10));
    code.push(digit_char(n % 10));
    assert(code@ =~= six_digits(truncated(digest@)));
    code
}

/// Generates a six-digit RFC 6238 TOTP and its remaining lifetime.
pub fn totp(seed: &str, unix_time_secs: u64) -> (r: (String, u64))
    ensures
        r.0@ == code_at(seed_key(seed@), unix_time_secs as nat),
        r.1 == seconds_left(unix_time_secs as nat),
{
    let key = decode_seed(seed);
    let message = counter_bytes(unix_time_secs / 30);
    let digest = hmac_sha1_digest(key.as_slice(), message.as_slice());
    let code = code_of_digest(digest.as_slice());
    (code, 30 - (unix_time_secs % 30))
}

// ---------------------------------------------------------------------------
// Laws
// ---------------------------------------------------------------------------

/// A code is six decimal digits, and it is current for 1 to 30 seconds.
pub proof fn law_code_shape(key: Seq<u8>, unix_time_secs: nat)
    ensures
        code_at(key, unix_time_secs).len() == 6,
        crate::text::all_digits(code_at(key, unix_time_secs)),
        1 <= seconds_left(unix_time_secs) <= 30,
{
}

/// A code stays the same for as long as it was said to be current.
pub proof fn law_code_stays_current(key: Seq<u8>, unix_time_secs: nat, later: nat)
    requires
        unix_time_secs <= later < unix_time_secs + seconds_left(unix_time_secs),
    ensures
        code_at(key, later) == code_at(key, unix_time_secs),
{
    assert(later / 30 == unix_time_secs / 30);
}

proof fn lemma_without_white_append(a: Seq<char>, b: Seq<char>)
    ensures
        without_white(a + b) == without_white(a) + without_white(b),
    decreases b.len(),
{
    if b.len() == 0 {
        assert(a + b =~= a);
    } else {
        assert((a + b).drop_last() =~= a + b.drop_last());
        lemma_without_white_append(a, b.drop_last());
        if !crate::text::is_white(b.last()) {
            assert(without_white(a + b) =~= without_white(a) + without_white(b));
        }
    }
}

proof fn lemma_without_white_trim_start(s: Seq<char>)
    ensures
        without_white(crate::text::trim_start(s, crate::text::CharClass::White)) == without_white(
            s,
        ),
    decreases s.len(),
{
    if s.len() > 0 && crate::text::is_white(s[0]) {
        lemma_without_white_trim_start(s.drop_first());
        assert(s =~= seq![s[0]] + s.drop_first());
        lemma_without_white_append(seq![s[0]], s.drop_first());
        assert(seq![s[0]].drop_last() =~= seq![]);
        assert(without_white(seq![s[0]]) =~= seq![]) by {
            reveal_with_fuel(without_white, 2);
        }
        assert(without_white(s) =~= without_white(s.drop_first()));
    }
}

proof fn lemma_without_white_trim_end(s: Seq<char>)
    ensures
        without_white(crate::text::trim_end(s, crate::text::CharClass::White)) == without_white(s),
    decreases s.len(),
{
    if s.len() > 0 && crate::text::is_white(s.last()) {
        lemma_without_white_trim_end(s.drop_last());
    }
}

/// White space around and inside a seed that is not a URI does not matter for
/// its secret.
pub proof fn law_white_space_is_ignored(seed: Seq<char>)
    requires
        !is_key_uri(crate::text::trim(seed)),
    ensures
        seed_secret(seed) == without_white(seed),
{
    let start = crate::text::trim_start(seed, crate::text::CharClass::White);
    lemma_without_white_trim_end(start);
    lemma_without_white_trim_start(seed);
}

/// Two seeds whose secrets are the same and are base32 have the same key, and
/// so the same code at every time.
pub proof fn law_same_secret_same_code(a: Seq<char>, b: Seq<char>, unix_time_secs: nat)
    requires
        seed_secret(a) == seed_secret(b),
        is_base32(seed_secret(a)) || is_base32(crate::text::upper_all(seed_secret(a))),
    ensures
        code_at(seed_key(a), unix_time_secs) == code_at(seed_key(b), unix_time_secs),
{
}

/// A key URI carries its `secret` parameter: with any label, and with any
/// parameters after it, its secret is that of the parameter's value.
pub proof fn law_key_uri_carries_secret(label: Seq<char>, value: Seq<char>, rest: Seq<char>)
    requires
        !label.contains('?'),
        !value.contains('&'),
        rest.len() > 0,
        !crate::text::is_white(rest.last()),
    ensures
        seed_secret("otpauth://"@ + label + "?secret="@ + value + "&"@ + rest) == without_white(
            value,
        ),
{
    reveal_strlit("otpauth://");
    reveal_strlit("?secret=");
    reveal_strlit("secret");
    reveal_strlit("&");
    let scheme = "otpauth://"@;
    let seed = scheme + label + "?secret="@ + value + "&"@ + rest;
    let white = crate::text::CharClass::White;
    assert(seed[0] == 'o');
    assert(crate::text::trim_start(seed, white) == seed);
    assert(seed.last() == rest.last());
    assert(crate::text::trim(seed) == seed);
    assert(seed.take(10) =~= scheme);
    assert(crate::text::lower_all(scheme) =~= scheme);
    let head = scheme + label;
    let query = "secret="@ + value + "&"@ + rest;
    reveal_strlit("secret=");
    assert(!head.contains('?')) by {
        if head.contains('?') {
            let i = choose|i: int| 0 <= i < head.len() && head[i] == '?';
            if i >= 10 {
                assert(label[i - 10] == '?');
            } else {
                assert(scheme[i] == '?');
            }
        }
    }
    assert(seed =~= head.push('?') + query);
    crate::text::lemma_split_first_unique(head, '?', query);
    let pair = "secret="@ + value;
    assert(!pair.contains('&')) by {
        if pair.contains('&') {
            let i = choose|i: int| 0 <= i < pair.len() && pair[i] == '&';
            if i >= 7 {
                assert(value[i - 7] == '&');
            } else {
                assert("secret="@[i] == '&');
            }
        }
    }
    assert(query =~= pair.push('&') + rest);
    crate::text::lemma_split_first_unique(pair, '&', rest);
    let pairs = crate::text::pieces(query, '&');
    assert(pairs[0] == pair);
    assert(!"secret"@.contains('='));
    assert(pair =~= "secret"@.push('=') + value);
    crate::text::lemma_split_first_unique("secret"@, '=', value);
    assert(crate::text::lower_all("secret"@) =~= "secret"@);
    assert(secret_param(pairs) == Some(value));
}

/// The first byte of a character of ASCII is the character, and that of any
/// other is not of ASCII.
proof fn lemma_encoded_char(c: char)
    ensures
        encode_scalar(c as u32).len() > 0,
        if c as u32 <= 0x7f {
            encode_scalar(c as u32)[0] as u32 == c as u32
        } else {
            encode_scalar(c as u32)[0] >= 0x80
        },
        c as u32 == 0x3d ==> c == '=',
{
    let n: u32 = c as u32;
    let two: u8 = ((n >> 6) & 0x1F) as u8;
    let three: u8 = ((n >> 12) & 0x0F) as u8;
    let four: u8 = ((n >> 18) & 0x7) as u8;
    assert(n <= 0x7f ==> (n & 0x7F) as u8 == n) by (bit_vector);
    assert(0xC0u8 | two >= 0x80 && 0xE0u8 | three >= 0x80 && 0xF0u8 | four >= 0x80)
        by (bit_vector);
}

/// A text whose bytes are all of the alphabet holds no other character.
proof fn lemma_alphabet(text: Seq<char>, padded: bool)
    requires
        in_alphabet(encode_utf8(text), padded),
    ensures
        forall|i: int|
            0 <= i < text.len() ==> is_base32_digit((#[trigger] text[i]) as u32) || text[i] == '=',
    decreases text.len(),
{
    if text.len() > 0 {
        let bytes = encode_utf8(text);
        let head = encode_scalar(text[0] as u32);
        let rest = text.drop_first();
        lemma_encoded_char(text[0]);
        assert(bytes[0] == head[0]);
        assert forall|i: int| 0 <= i < encode_utf8(rest).len() implies is_base32_digit(
            (#[trigger] encode_utf8(rest)[i]) as u32,
        ) || (padded && encode_utf8(rest)[i] == 0x3d) by {
            assert(bytes[head.len() + i] == encode_utf8(rest)[i]);
        }
        lemma_alphabet(rest, padded);
        assert forall|i: int| 0 <= i < text.len() implies is_base32_digit(
            (#[trigger] text[i]) as u32,
        ) || text[i] == '=' by {
            if i > 0 {
                assert(text[i] == rest[i - 1]);
            }
        }
    }
}

/// Text of the alphabet stands as it is, in upper case and without white
/// space.
proof fn lemma_base32_text(text: Seq<char>)
    requires
        is_base32(text),
    ensures
        forall|i: int|
            0 <= i < text.len() ==> is_base32_digit((#[trigger] text[i]) as u32) || text[i] == '=',
        crate::text::upper_all(text) == text,
        without_white(text) == text,
{
    lemma_alphabet(text, base32_value(text, true) is Some);
    assert(crate::text::upper_all(text) =~= text);
    lemma_no_white(text);
}

proof fn lemma_no_white(text: Seq<char>)
    requires
        forall|i: int| 0 <= i < text.len() ==> !crate::text::is_white(#[trigger] text[i]),
    ensures
        without_white(text) == text,
    decreases text.len(),
{
    if text.len() > 0 {
        lemma_no_white(text.drop_last());
        assert(text.drop_last().push(text.last()) =~= text);
    }
}

/// A character that is no white space stays.
proof fn lemma_without_white_keeps(s: Seq<char>, i: int)
    requires
        0 <= i < s.len(),
        !crate::text::is_white(s[i]),
    ensures
        without_white(s).contains(s[i]),
    decreases s.len(),
{
    let kept = without_white(s);
    if i == s.len() - 1 {
        assert(kept[kept.len() - 1] == s[i]);
    } else {
        lemma_without_white_keeps(s.drop_last(), i);
        let before = without_white(s.drop_last());
        let j = choose|j: int| 0 <= j < before.len() && before[j] == s[i];
        assert(kept[j] == s[i]);
    }
}

/// What is base32 once it is in upper case and without white space holds no
/// character that neither changes.
proof fn lemma_written_base32(written: Seq<char>, c: char)
    requires
        is_base32(crate::text::upper_all(without_white(written))),
        c == ':' || c == '&',
    ensures
        !written.contains(c),
{
    if written.contains(c) {
        let i = choose|i: int| 0 <= i < written.len() && written[i] == c;
        lemma_without_white_keeps(written, i);
        let kept = without_white(written);
        let j = choose|j: int| 0 <= j < kept.len() && kept[j] == c;
        lemma_base32_text(crate::text::upper_all(kept));
        assert(crate::text::upper_all(kept)[j] == c);
    }
}

/// The case of a secret does not matter: one that is base32 in upper case has
/// the same code, at every time, however its letters are written.
pub proof fn law_case_does_not_matter(plain: Seq<char>, written: Seq<char>, unix_time_secs: nat)
    requires
        is_base32(seed_secret(plain)),
        crate::text::upper_all(seed_secret(written)) == seed_secret(plain),
    ensures
        code_at(seed_key(written), unix_time_secs) == code_at(seed_key(plain), unix_time_secs),
{
    let secret = seed_secret(written);
    if is_base32(secret) {
        lemma_base32_text(secret);
    }
}

/// A secret that is base32 has the same code, at every time, as that secret
/// written in lower case and grouped with white space.
pub proof fn law_grouped_seeds_have_one_code(
    secret: Seq<char>,
    written: Seq<char>,
    unix_time_secs: nat,
)
    requires
        is_base32(secret),
        crate::text::upper_all(without_white(written)) == secret,
    ensures
        code_at(seed_key(written), unix_time_secs) == code_at(seed_key(secret), unix_time_secs),
{
    lemma_plain_secret(secret);
    lemma_plain_seed(written);
    law_case_does_not_matter(secret, written, unix_time_secs);
}

/// A secret that is base32 has the same code, at every time, as a key URI that
/// carries it, in any case and grouping, before other parameters.
pub proof fn law_key_uris_have_one_code(
    secret: Seq<char>,
    label: Seq<char>,
    written: Seq<char>,
    rest: Seq<char>,
    unix_time_secs: nat,
)
    requires
        is_base32(secret),
        crate::text::upper_all(without_white(written)) == secret,
        !label.contains('?'),
        rest.len() > 0,
        !crate::text::is_white(rest.last()),
    ensures
        code_at(
            seed_key("otpauth://"@ + label + "?secret="@ + written + "&"@ + rest),
            unix_time_secs,
        ) == code_at(seed_key(secret), unix_time_secs),
{
    lemma_plain_secret(secret);
    lemma_written_base32(written, '&');
    law_key_uri_carries_secret(label, written, rest);
    law_case_does_not_matter(
        secret,
        "otpauth://"@ + label + "?secret="@ + written + "&"@ + rest,
        unix_time_secs,
    );
}

/// A secret that is base32 has the same code, at every time, as a key URI whose
/// first `secret` parameter it is, in any case and grouping, wherever in the
/// query that parameter stands.
pub proof fn law_secrets_may_stand_anywhere(
    secret: Seq<char>,
    label: Seq<char>,
    query: Seq<char>,
    unix_time_secs: nat,
)
    requires
        is_base32(secret),
        !label.contains('?'),
        query.len() > 0,
        !crate::text::is_white(query.last()),
        secret_param(crate::text::pieces(query, '&')) matches Some(written)
            && crate::text::upper_all(without_white(written)) == secret,
    ensures
        code_at(seed_key("otpauth://"@ + label + "?"@ + query), unix_time_secs) == code_at(
            seed_key(secret),
            unix_time_secs,
        ),
{
    reveal_strlit("otpauth://");
    reveal_strlit("?");
    let scheme = "otpauth://"@;
    let head = scheme + label;
    let seed = head + "?"@ + query;
    let white = crate::text::CharClass::White;
    assert(seed[0] == 'o');
    assert(crate::text::trim_start(seed, white) == seed);
    assert(seed.last() == query.last());
    assert(crate::text::trim(seed) == seed);
    assert(seed.take(10) =~= scheme);
    assert(crate::text::lower_all(scheme) =~= scheme);
    assert(!head.contains('?')) by {
        if head.contains('?') {
            let i = choose|i: int| 0 <= i < head.len() && head[i] == '?';
            if i >= 10 {
                assert(label[i - 10] == '?');
            } else {
                assert(scheme[i] == '?');
            }
        }
    }
    assert(seed =~= head.push('?') + query);
    crate::text::lemma_split_first_unique(head, '?', query);
    lemma_plain_secret(secret);
    law_case_does_not_matter(secret, seed, unix_time_secs);
}

/// What is base32 once it is in upper case and without white space is no key
/// URI: all of it is the secret.
proof fn lemma_plain_seed(written: Seq<char>)
    requires
        is_base32(crate::text::upper_all(without_white(written))),
    ensures
        seed_secret(written) == without_white(written),
{
    let trimmed = crate::text::trim(written);
    lemma_without_white_trim_end(
        crate::text::trim_start(written, crate::text::CharClass::White),
    );
    lemma_without_white_trim_start(written);
    if is_key_uri(trimmed) {
        reveal_strlit("otpauth://");
        assert(crate::text::lower_all(trimmed.take(10))[7] == ':');
        assert(trimmed[7] == ':');
        lemma_written_base32(trimmed, ':');
    }
}

proof fn lemma_plain_secret(secret: Seq<char>)
    requires
        is_base32(secret),
    ensures
        seed_secret(secret) == secret,
{
    lemma_base32_text(secret);
    lemma_plain_seed(secret);
}

/// The key of a seed is what the decoders of `data_encoding` make of its
/// secret, however long it is: that of padded base32 where it reads the secret,
/// else that of unpadded base32 where it does. The decoders are only given
/// what they are made for.
pub proof fn law_keys_are_what_the_decoders_give(
    seed: &str,
    key: Vec<u8>,
    secret: Seq<char>,
    bytes: Seq<u8>,
)
    requires
        call_ensures(decode_seed, (seed,), key),
        seed_secret(seed@) == secret,
        encode_utf8(secret).len() <= usize::MAX / 8,
    ensures
        (forall|i: int|
            #![trigger encode_utf8(secret)[i]]
            0 <= i < encode_utf8(secret).len() ==> 0x41 <= encode_utf8(secret)[i] <= 0x5a || 0x32
                <= encode_utf8(secret)[i] <= 0x37 || encode_utf8(secret)[i] == 0x3d)
            && base32_decoded(encode_utf8(secret)) == Some(bytes) ==> key@ == bytes,
        (forall|i: int|
            #![trigger encode_utf8(secret)[i]]
            0 <= i < encode_utf8(secret).len() ==> 0x41 <= encode_utf8(secret)[i] <= 0x5a || 0x32
                <= encode_utf8(secret)[i] <= 0x37) && base32_nopad_decoded(encode_utf8(secret))
            == Some(bytes) && base32_decoded(encode_utf8(secret)) is None ==> key@ == bytes,
        (exists|i: int|
            #![trigger encode_utf8(secret)[i]]
            0 <= i < encode_utf8(secret).len() && !(0x41 <= encode_utf8(secret)[i] <= 0x5a || 0x32
                <= encode_utf8(secret)[i] <= 0x37 || encode_utf8(secret)[i] == 0x3d || 0x61
                <= encode_utf8(secret)[i] <= 0x7a || encode_utf8(secret)[i] >= 0x80))
            && encode_utf8(crate::text::upper_all(secret)).len() <= usize::MAX / 8 ==> key@
            == encode_utf8(seed@),
{
    let input = encode_utf8(secret);
    if exists|i: int|
        #![trigger input[i]]
        0 <= i < input.len() && !(0x41 <= input[i] <= 0x5a || 0x32 <= input[i] <= 0x37 || input[i]
            == 0x3d || 0x61 <= input[i] <= 0x7a || input[i] >= 0x80) {
        let i = choose|i: int|
            #![trigger input[i]]
            0 <= i < input.len() && !(0x41 <= input[i] <= 0x5a || 0x32 <= input[i] <= 0x37
                || input[i] == 0x3d || 0x61 <= input[i] <= 0x7a || input[i] >= 0x80);
        lemma_foreign_stays(secret, i);
        let raised = encode_utf8(crate::text::upper_all(secret));
        let j = choose|j: int| 0 <= j < raised.len() && raised[j] == input[i];
        assert(!in_alphabet(raised, true));
        assert(!in_alphabet(raised, false));
        assert(!in_alphabet(input, true));
        assert(!in_alphabet(input, false));
    }
    if base32_decoded(input) is Some {
        assert(base32_value(secret, true) == (if in_alphabet(input, true) {
            base32_decoded(input)
        } else {
            None
        }));
    }
}

/// A byte of ASCII that is no letter is still there in upper case.
proof fn lemma_foreign_stays(text: Seq<char>, i: int)
    requires
        0 <= i < encode_utf8(text).len(),
        encode_utf8(text)[i] < 0x80,
        !(0x61 <= encode_utf8(text)[i] <= 0x7a),
    ensures
        encode_utf8(crate::text::upper_all(text)).contains(encode_utf8(text)[i]),
    decreases text.len(),
{
    let upper = crate::text::upper_all(text);
    let bytes = encode_utf8(text);
    let raised = encode_utf8(upper);
    let head = encode_scalar(text[0] as u32);
    let first = encode_scalar(upper[0] as u32);
    let rest = text.drop_first();
    assert(upper.drop_first() =~= crate::text::upper_all(rest));
    if i < head.len() {
        lemma_ascii_byte(text[0], i);
        assert(upper[0] == text[0]);
        assert(raised[i] == bytes[i]);
    } else {
        assert(bytes[i] == encode_utf8(rest)[i - head.len()]);
        lemma_foreign_stays(rest, i - head.len());
        let later = encode_utf8(upper.drop_first());
        let j = choose|j: int| 0 <= j < later.len() && later[j] == bytes[i];
        assert(raised[first.len() + j] == bytes[i]);
    }
}

/// A byte of ASCII only stands for a character of ASCII.
proof fn lemma_ascii_byte(c: char, i: int)
    requires
        0 <= i < encode_scalar(c as u32).len(),
        encode_scalar(c as u32)[i] < 0x80,
    ensures
        c as u32 <= 0x7f,
        encode_scalar(c as u32)[i] as u32 == c as u32,
{
    let n: u32 = c as u32;
    let two: u8 = ((n >> 6) & 0x1F) as u8;
    let three: u8 = ((n >> 12) & 0x0F) as u8;
    let four: u8 = ((n >> 18) & 0x7) as u8;
    let x: u8 = (n & 0x3F) as u8;
    let y: u8 = ((n >> 6) & 0x3F) as u8;
    let z: u8 = ((n >> 12) & 0x3F) as u8;
    assert(n <= 0x7f ==> (n & 0x7F) as u8 == n) by (bit_vector);
    assert(0xC0u8 | two >= 0x80 && 0xE0u8 | three >= 0x80 && 0xF0u8 | four >= 0x80)
        by (bit_vector);
    assert(0x80u8 | x >= 0x80 && 0x80u8 | y >= 0x80 && 0x80u8 | z >= 0x80) by (bit_vector);
}

/// A code is the truncated HMAC of the number of half minutes, as RFC 6238 and
/// RFC 4226 have it: the 31 bits behind the position that the last four bits of
/// the digest name, modulo a million, in six digits; and it is current until
/// the half minute is over.
pub proof fn law_codes_follow_the_standard(
    seed: &str,
    unix_time_secs: u64,
    answer: (String, u64),
    key: Vec<u8>,
    counter: Seq<u8>,
)
    requires
        call_ensures(totp, (seed, unix_time_secs), answer),
        call_ensures(decode_seed, (seed,), key),
        counter.len() == 8,
        crate::peers::number_of(counter) == unix_time_secs / 30,
        hmac_sha1(key@, counter).len() == 20,
    ensures
        ({
            let digest = hmac_sha1(key@, counter);
            let at = digest[19] as int % 16;
            let bits = (digest[at] as int * 0x100_0000 + digest[at + 1] as int * 0x1_0000
                + digest[at + 2] as int * 0x100 + digest[at + 3] as int) % 0x8000_0000;
            let code = answer.0@;
            &&& code.len() == 6
            &&& forall|i: int| 0 <= i < 6 ==> '0' <= #[trigger] code[i] <= '9'
            &&& (code[0] as int - 48) * 100000 + (code[1] as int - 48) * 10000 + (code[2] as int
                - 48) * 1000 + (code[3] as int - 48) * 100 + (code[4] as int - 48) * 10 + (
            code[5] as int - 48) == bits % 1000000
        }),
        (unix_time_secs + answer.1) % 30 == 0,
        0 < answer.1 <= 30,
{
    let digest = hmac_sha1(key@, counter);
    lemma_counter(counter, unix_time_secs as nat / 30);
    lemma_truncated(digest);
    lemma_six_digits(truncated(digest));
}

#[verifier::spinoff_prover]
#[verifier::rlimit(40)]
proof fn lemma_truncated(digest: Seq<u8>)
    requires
        digest.len() == 20,
    ensures
        ({
            let at = digest[19] as int % 16;
            truncated(digest) == (digest[at] as int * 0x100_0000 + digest[at + 1] as int * 0x1_0000
                + digest[at + 2] as int * 0x100 + digest[at + 3] as int) % 0x8000_0000
        }),
{
    let at = digest[19] as int % 16;
    let high = digest[at] as int;
    let low = digest[at + 1] as int * 0x1_0000 + digest[at + 2] as int * 0x100 + digest[at
        + 3] as int;
    let turns = high / 128;
    assert(high == turns * 128 + high % 128);
    assert(high * 0x100_0000 + low == turns * 0x8000_0000 + ((high % 128) * 0x100_0000 + low));
    assert(0 <= (high % 128) * 0x100_0000 + low < 0x8000_0000);
}

#[verifier::spinoff_prover]
#[verifier::rlimit(40)]
proof fn lemma_six_digits(n: nat)
    ensures
        ({
            let code = six_digits(n);
            &&& code.len() == 6
            &&& forall|i: int| 0 <= i < 6 ==> '0' <= #[trigger] code[i] <= '9'
            &&& (code[0] as int - 48) * 100000 + (code[1] as int - 48) * 10000 + (code[2] as int
                - 48) * 1000 + (code[3] as int - 48) * 100 + (code[4] as int - 48) * 10 + (
            code[5] as int - 48) == n % 1000000
        }),
{
    let a = n / 10;
    let b = n / 100;
    let c = n / 1000;
    let d = n / 10000;
    let e = n / 100000;
    let f = n / 1000000;
    assert(n == a * 10 + n % 10);
    assert(a == b * 10 + a % 10);
    assert(b == c * 10 + b % 10);
    assert(c == d * 10 + c % 10);
    assert(d == e * 10 + d % 10);
    assert(e == f * 10 + e % 10);
}

proof fn lemma_next_byte(n: nat, d: nat, rest: nat, byte: u8)
    requires
        d > 0,
        n / d == rest * 256 + byte,
    ensures
        n / (d * 256) == rest,
        n / d % 256 == byte,
{
    vstd::arithmetic::div_mod::lemma_div_denominator(n as int, d as int, 256);
}

/// Eight bytes are known by the number that they stand for.
#[verifier::spinoff_prover]
#[verifier::rlimit(40)]
proof fn lemma_counter(bytes: Seq<u8>, n: nat)
    requires
        bytes.len() == 8,
        crate::peers::number_of(bytes) == n,
    ensures
        bytes == big_endian(n),
{
    let b1 = bytes.drop_last();
    let b2 = b1.drop_last();
    let b3 = b2.drop_last();
    let b4 = b3.drop_last();
    let b5 = b4.drop_last();
    let b6 = b5.drop_last();
    let b7 = b6.drop_last();
    assert(b7.drop_last() =~= seq![]);
    let n1 = crate::peers::number_of(b1);
    let n2 = crate::peers::number_of(b2);
    let n3 = crate::peers::number_of(b3);
    let n4 = crate::peers::number_of(b4);
    let n5 = crate::peers::number_of(b5);
    let n6 = crate::peers::number_of(b6);
    let n7 = crate::peers::number_of(b7);
    assert(n7 == bytes[0]) by {
        assert(crate::peers::number_of(b7.drop_last()) == 0);
    }
    lemma_next_byte(n, 1, n1, bytes[7]);
    lemma_next_byte(n, 0x100, n2, bytes[6]);
    lemma_next_byte(n, 0x1_0000, n3, bytes[5]);
    lemma_next_byte(n, 0x100_0000, n4, bytes[4]);
    lemma_next_byte(n, 0x1_0000_0000, n5, bytes[3]);
    lemma_next_byte(n, 0x100_0000_0000, n6, bytes[2]);
    lemma_next_byte(n, 0x1_0000_0000_0000, n7, bytes[1]);
    assert(n7 % 256 == bytes[0]);
    assert(bytes =~= big_endian(n));
}

} // verus!
