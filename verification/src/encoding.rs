//! Textual encodings of byte strings and of character strings.

use base64::engine::general_purpose::STANDARD;
use base64::Engine;
use vstd::prelude::*;
use vstd::utf8::*;

verus! {

/// The lower case hexadecimal digit of a value below 16.
pub open spec fn hex_lower(v: int) -> u8 {
    if v < 10 {
        (0x30 + v) as u8
    } else {
        (0x61 + v - 10) as u8
    }
}

/// The upper case hexadecimal digit of a value below 16.
pub open spec fn hex_upper(v: int) -> u8 {
    if v < 10 {
        (0x30 + v) as u8
    } else {
        (0x41 + v - 10) as u8
    }
}

/// Two lower case hexadecimal digits for each byte.
pub open spec fn hex(bytes: Seq<u8>) -> Seq<u8> {
    Seq::new(
        2 * bytes.len(),
        |i: int|
            if i % 2 == 0 {
                hex_lower(bytes[i / 2] as int / 16)
            } else {
                hex_lower(bytes[i / 2] as int % 16)
            },
    )
}

/// A percent sign and two upper case hexadecimal digits for each byte.
pub open spec fn percent(bytes: Seq<u8>) -> Seq<u8> {
    Seq::new(
        3 * bytes.len(),
        |i: int|
            if i % 3 == 0 {
                0x25
            } else if i % 3 == 1 {
                hex_upper(bytes[i / 3] as int / 16)
            } else {
                hex_upper(bytes[i / 3] as int % 16)
            },
    )
}

fn lower_digit(v: u8) -> (r: u8)
    requires
        v < 16,
    ensures
        r == hex_lower(v as int),
{
    if v < 10 {
        0x30 + v
    } else {
        0x61 + (v - 10)
    }
}

fn upper_digit(v: u8) -> (r: u8)
    requires
        v < 16,
    ensures
        r == hex_upper(v as int),
{
    if v < 10 {
        0x30 + v
    } else {
        0x41 + (v - 10)
    }
}

/// Writes each byte as `%` and two upper case hexadecimal digits.
pub fn percent_encode(bytes: &[u8]) -> (encoded: Vec<u8>)
    ensures
        encoded@ == percent(bytes@),
{
    let mut encoded: Vec<u8> = Vec::new();
    let mut i: usize = 0;
    while i < bytes.len()
        invariant
            i <= bytes@.len(),
            encoded@.len() == 3 * i,
            forall|j: int| 0 <= j < 3 * i ==> encoded@[j] == #[trigger] percent(bytes@)[j],
        decreases bytes@.len() - i,
    {
        let byte: u8 = bytes[i];
        encoded.push(0x25);
        encoded.push(upper_digit(byte / 16));
        encoded.push(upper_digit(byte % 16));
        i += 1;
    }
    assert(encoded@ =~= percent(bytes@));
    encoded
}

/// Writes each byte as two lower case hexadecimal digits.
pub fn hex_encode(bytes: &[u8]) -> (encoded: Vec<u8>)
    ensures
        encoded@ == hex(bytes@),
{
    let mut encoded: Vec<u8> = Vec::new();
    let mut i: usize = 0;
    while i < bytes.len()
        invariant
            i <= bytes@.len(),
            encoded@.len() == 2 * i,
            forall|j: int| 0 <= j < 2 * i ==> encoded@[j] == #[trigger] hex(bytes@)[j],
        decreases bytes@.len() - i,
    {
        let byte: u8 = bytes[i];
        encoded.push(lower_digit(byte / 16));
        encoded.push(lower_digit(byte % 16));
        i += 1;
    }
    assert(encoded@ =~= hex(bytes@));
    encoded
}

/// The text of the lower case hexadecimal form of `bytes`.
pub open spec fn hex_chars(bytes: Seq<u8>) -> Seq<char> {
    hex(bytes).map_values(|b: u8| b as char)
}

/// Writes `bytes` as lower case hexadecimal text.
pub fn hex_text(bytes: &[u8]) -> (r: String)
    ensures
        r@ == hex_chars(bytes@),
{
    let digits = hex_encode(bytes);
    let mut out = String::new();
    let mut i: usize = 0;
    while i < digits.len()
        invariant
            i <= digits@.len(),
            digits@ == hex(bytes@),
            out@ == hex_chars(bytes@).take(i as int),
        decreases digits@.len() - i,
    {
        out.push(digits[i] as char);
        assert(hex_chars(bytes@).take(i + 1) =~= hex_chars(bytes@).take(i as int).push(
            digits@[i as int] as char,
        ));
        i += 1;
    }
    assert(hex_chars(bytes@).take(i as int) =~= hex_chars(bytes@));
    out
}

// ---------------------------------------------------------------------------
// Base64
// ---------------------------------------------------------------------------

/// The base64 character of a value below 64; `url` selects the alphabet that
/// is safe in URLs.
pub open spec fn base64_char(v: int, url: bool) -> char {
    if v < 26 {
        (0x41 + v) as char
    } else if v < 52 {
        (0x61 + v - 26) as char
    } else if v < 62 {
        (0x30 + v - 52) as char
    } else if v == 62 {
        if url {
            '-'
        } else {
            '+'
        }
    } else {
        if url {
            '_'
        } else {
            '/'
        }
    }
}

/// The base64 form of `bytes`: four characters for each three bytes, and the
/// rest in two or three characters that `padded` fills up to four with `=`.
pub open spec fn base64_chars(bytes: Seq<u8>, url: bool, padded: bool) -> Seq<char>
    decreases bytes.len(),
{
    if bytes.len() == 0 {
        seq![]
    } else if bytes.len() == 1 {
        seq![
            base64_char(bytes[0] as int / 4, url),
            base64_char(bytes[0] as int % 4 * 16, url),
        ] + if padded {
            seq!['=', '=']
        } else {
            seq![]
        }
    } else if bytes.len() == 2 {
        seq![
            base64_char(bytes[0] as int / 4, url),
            base64_char(bytes[0] as int % 4 * 16 + bytes[1] as int / 16, url),
            base64_char(bytes[1] as int % 16 * 4, url),
        ] + if padded {
            seq!['=']
        } else {
            seq![]
        }
    } else {
        seq![
            base64_char(bytes[0] as int / 4, url),
            base64_char(bytes[0] as int % 4 * 16 + bytes[1] as int / 16, url),
            base64_char(bytes[1] as int % 16 * 4 + bytes[2] as int / 64, url),
            base64_char(bytes[2] as int % 64, url),
        ] + base64_chars(bytes.skip(3), url, padded)
    }
}

/// `Engine::encode` of `base64::engine::general_purpose::STANDARD`: the base64
/// form of the bytes in the standard alphabet, with padding. The call panics
/// where the encoded text would not fit in memory.
#[verifier::external_body]
pub(crate) fn base64_standard(bytes: &[u8]) -> (r: String)
    requires
        2 * bytes@.len() + 4 <= isize::MAX,
    ensures
        r@ == base64_chars(bytes@, false, true),
{
    STANDARD.encode(bytes)
}

fn base64url_digit(v: u8) -> (r: char)
    requires
        v < 64,
    ensures
        r == base64_char(v as int, true),
{
    let b: u8 = if v < 26 {
        0x41 + v
    } else if v < 52 {
        0x61 + (v - 26)
    } else if v < 62 {
        0x30 + (v - 52)
    } else if v == 62 {
        0x2d
    } else {
        0x5f
    };
    b as char
}

/// Writes `bytes` in base64 with the alphabet that is safe in URLs, without
/// padding.
pub fn base64url_text(bytes: &[u8]) -> (r: String)
    ensures
        r@ == base64_chars(bytes@, true, false),
{
    let mut out = String::new();
    let mut i: usize = 0;
    assert(bytes@.skip(0) =~= bytes@);
    assert(base64_chars(bytes@, true, false) =~= out@ + base64_chars(bytes@.skip(0), true, false));
    while bytes.len() - i >= 3
        invariant
            i <= bytes@.len(),
            base64_chars(bytes@, true, false) == out@ + base64_chars(
                bytes@.skip(i as int),
                true,
                false,
            ),
        decreases bytes@.len() - i,
    {
        let ghost rest = bytes@.skip(i as int);
        let ghost before = out@;
        let a: u8 = bytes[i];
        let b: u8 = bytes[i + 1];
        let c: u8 = bytes[i + 2];
        out.push(base64url_digit(a / 4));
        out.push(base64url_digit(a % 4 * 16 + b / 16));
        out.push(base64url_digit(b % 16 * 4 + c / 64));
        out.push(base64url_digit(c % 64));
        proof {
            assert(rest.skip(3) =~= bytes@.skip(i + 3));
            assert(out@ + base64_chars(rest.skip(3), true, false) =~= before + base64_chars(
                rest,
                true,
                false,
            ));
        }
        i += 3;
    }
    let ghost rest = bytes@.skip(i as int);
    let ghost before = out@;
    if bytes.len() - i == 1 {
        let a: u8 = bytes[i];
        out.push(base64url_digit(a / 4));
        out.push(base64url_digit(a % 4 * 16));
    } else if bytes.len() - i == 2 {
        let a: u8 = bytes[i];
        let b: u8 = bytes[i + 1];
        out.push(base64url_digit(a / 4));
        out.push(base64url_digit(a % 4 * 16 + b / 16));
        out.push(base64url_digit(b % 16 * 4));
    }
    assert(out@ =~= before + base64_chars(rest, true, false));
    out
}

// ---------------------------------------------------------------------------
// JSON strings
// ---------------------------------------------------------------------------

/// How a character is written inside a JSON string.
pub open spec fn json_char(c: char) -> Seq<char> {
    if c == '"' {
        seq!['\\', '"']
    } else if c == '\\' {
        seq!['\\', '\\']
    } else if c as u32 == 0x08 {
        seq!['\\', 'b']
    } else if c == '\t' {
        seq!['\\', 't']
    } else if c == '\n' {
        seq!['\\', 'n']
    } else if c as u32 == 0x0c {
        seq!['\\', 'f']
    } else if c == '\r' {
        seq!['\\', 'r']
    } else if (c as u32) < 0x20 {
        seq!['\\', 'u', '0', '0', hex_lower(c as int / 16) as char, hex_lower(c as int % 16) as char]
    } else {
        seq![c]
    }
}

/// The characters of a JSON string that holds `s`, without the quotes.
pub open spec fn json_inner(s: Seq<char>) -> Seq<char>
    decreases s.len(),
{
    if s.len() == 0 {
        seq![]
    } else {
        json_inner(s.drop_last()) + json_char(s.last())
    }
}

/// The JSON string that holds `s`.
pub open spec fn json_string(s: Seq<char>) -> Seq<char> {
    seq!['"'] + json_inner(s) + seq!['"']
}

/// A text whose encoded forms fit in memory.
pub open spec fn encodable(s: Seq<char>) -> bool {
    6 * encode_utf8(s).len() + 2 <= isize::MAX
}

/// Tells whether the encoded forms of a text fit in memory.
pub fn is_encodable(s: &str) -> (r: bool)
    ensures
        r == encodable(s@),
{
    let limit: usize = isize::MAX as usize;
    s.as_bytes().len() <= (limit - 2) / 6
}

/// A text without a line feed.
pub open spec fn one_line(s: Seq<char>) -> bool {
    forall|i: int| 0 <= i < s.len() ==> #[trigger] s[i] != '\n'
}

/// Two texts without a line feed make one.
pub proof fn lemma_one_line_add(a: Seq<char>, b: Seq<char>)
    requires
        one_line(a),
        one_line(b),
    ensures
        one_line(a + b),
{
    assert forall|i: int| 0 <= i < (a + b).len() implies #[trigger] (a + b)[i] != '\n' by {
        if i < a.len() {
            assert((a + b)[i] == a[i]);
        } else {
            assert((a + b)[i] == b[i - a.len()]);
        }
    }
}

/// A number takes one line.
pub proof fn lemma_decimal_is_one_line(n: nat)
    ensures
        one_line(crate::text::decimal(n)),
    decreases n,
{
    if n >= 10 {
        lemma_decimal_is_one_line(n / 10);
    }
}

proof fn lemma_json_char_is_one_line(c: char)
    ensures
        one_line(json_char(c)),
{
    if (c as u32) < 0x20 {
        assert(hex_lower(c as int / 16) as char != '\n');
        assert(hex_lower(c as int % 16) as char != '\n');
    }
}

proof fn lemma_json_inner_is_one_line(s: Seq<char>)
    ensures
        one_line(json_inner(s)),
    decreases s.len(),
{
    if s.len() > 0 {
        lemma_json_inner_is_one_line(s.drop_last());
        lemma_json_char_is_one_line(s.last());
        let before = json_inner(s.drop_last());
        let last = json_char(s.last());
        assert forall|i: int| 0 <= i < json_inner(s).len() implies #[trigger] json_inner(s)[i]
            != '\n' by {
            if i < before.len() {
                assert(json_inner(s)[i] == before[i]);
            } else {
                assert(json_inner(s)[i] == last[i - before.len()]);
            }
        }
    }
}

/// A JSON string stands in one line, whatever it holds.
pub proof fn law_json_strings_are_one_line(s: Seq<char>)
    ensures
        one_line(json_string(s)),
{
    lemma_json_inner_is_one_line(s);
    lemma_one_line_add(seq!['"'], json_inner(s));
    lemma_one_line_add(seq!['"'] + json_inner(s), seq!['"']);
}

/// `serde_json::to_string` of a string: the string in quotes, with quotes,
/// backslashes and control characters escaped. The call does not fail; it
/// panics where the escaped text would not fit in memory.
#[verifier::external_body]
pub(crate) fn json_text(s: &String) -> (r: String)
    requires
        encodable(s@),
    ensures
        r@ == json_string(s@),
{
    serde_json::to_string(s).expect("serializing a string cannot fail")
}

/// Each byte stands as two hexadecimal digits, the more significant first.
pub proof fn law_hex_keeps_every_byte(bytes: &[u8], written: Vec<u8>, i: int)
    requires
        call_ensures(hex_encode, (bytes,), written),
        0 <= i < bytes@.len(),
    ensures
        written@.len() == 2 * bytes@.len(),
        "0123456789abcdef"@[bytes@[i] as int / 16] as int == written@[2 * i],
        "0123456789abcdef"@[bytes@[i] as int % 16] as int == written@[2 * i + 1],
{
    reveal_strlit("0123456789abcdef");
    lemma_hex_alphabet(bytes@[i] as int / 16);
    lemma_hex_alphabet(bytes@[i] as int % 16);
}

proof fn lemma_hex_alphabet(v: int)
    requires
        0 <= v < 16,
    ensures
        "0123456789abcdef"@[v] as int == hex_lower(v),
        "0123456789ABCDEF"@[v] as int == hex_upper(v),
{
    reveal_strlit("0123456789abcdef");
    reveal_strlit("0123456789ABCDEF");
}

/// Each byte stands as a percent sign and two hexadecimal digits in upper case.
pub proof fn law_percent_keeps_every_byte(bytes: &[u8], written: Vec<u8>, i: int)
    requires
        call_ensures(percent_encode, (bytes,), written),
        0 <= i < bytes@.len(),
    ensures
        written@.len() == 3 * bytes@.len(),
        written@[3 * i] == 0x25,
        "0123456789ABCDEF"@[bytes@[i] as int / 16] as int == written@[3 * i + 1],
        "0123456789ABCDEF"@[bytes@[i] as int % 16] as int == written@[3 * i + 2],
{
    lemma_hex_alphabet(bytes@[i] as int / 16);
    lemma_hex_alphabet(bytes@[i] as int % 16);
}

/// The alphabets of base64.
pub open spec fn base64_alphabet(url: bool) -> Seq<char> {
    if url {
        "ABCDEFGHIJKLMNOPQRSTUVWXYZabcdefghijklmnopqrstuvwxyz0123456789-_"@
    } else {
        "ABCDEFGHIJKLMNOPQRSTUVWXYZabcdefghijklmnopqrstuvwxyz0123456789+/"@
    }
}

#[verifier::spinoff_prover]
#[verifier::rlimit(40)]
proof fn lemma_base64_alphabet(v: int, url: bool)
    requires
        0 <= v < 64,
    ensures
        base64_char(v, url) == base64_alphabet(url)[v],
{
    reveal_strlit("ABCDEFGHIJKLMNOPQRSTUVWXYZabcdefghijklmnopqrstuvwxyz0123456789-_");
    reveal_strlit("ABCDEFGHIJKLMNOPQRSTUVWXYZabcdefghijklmnopqrstuvwxyz0123456789+/");
}

#[verifier::spinoff_prover]
#[verifier::rlimit(40)]
proof fn lemma_sixes(first: int, second: int, third: int)
    requires
        0 <= first < 256,
        0 <= second < 256,
        0 <= third < 256,
    ensures
        ({
            let bits = first * 0x1_0000 + second * 0x100 + third;
            &&& bits / 0x4_0000 == first / 4
            &&& bits / 0x1000 % 64 == first % 4 * 16 + second / 16
            &&& bits / 64 % 64 == second % 16 * 4 + third / 64
            &&& bits % 64 == third % 64
        }),
{
    let bits = first * 0x1_0000 + second * 0x100 + third;
    assert(bits / 0x1000 == first * 16 + second / 16);
    assert(bits / 64 == first * 1024 + second * 4 + third / 64);
}

/// Base64 cuts the bytes into groups of six bits, three bytes into four
/// characters; the rest is filled with zero bits, and padded to four characters
/// where padding is wanted.
#[verifier::spinoff_prover]
#[verifier::rlimit(40)]
pub proof fn law_base64_keeps_every_bit(bytes: Seq<u8>, url: bool, padded: bool)
    requires
        bytes.len() > 0,
    ensures
        ({
            let text = base64_chars(bytes, url, padded);
            let alphabet = base64_alphabet(url);
            let first = bytes[0] as int;
            let second = if bytes.len() > 1 {
                bytes[1] as int
            } else {
                0
            };
            let third = if bytes.len() > 2 {
                bytes[2] as int
            } else {
                0
            };
            let bits = first * 0x1_0000 + second * 0x100 + third;
            &&& text[0] == alphabet[bits / 0x4_0000]
            &&& text[1] == alphabet[bits / 0x1000 % 64]
            &&& bytes.len() > 1 ==> text[2] == alphabet[bits / 64 % 64]
            &&& bytes.len() > 2 ==> text[3] == alphabet[bits % 64] && text.skip(4)
                == base64_chars(bytes.skip(3), url, padded)
            &&& bytes.len() == 1 ==> text.skip(2) == if padded {
                seq!['=', '=']
            } else {
                seq![]
            }
            &&& bytes.len() == 2 ==> text.skip(3) == if padded {
                seq!['=']
            } else {
                seq![]
            }
        }),
{
    let text = base64_chars(bytes, url, padded);
    let first = bytes[0] as int;
    let second: int = if bytes.len() > 1 {
        bytes[1] as int
    } else {
        0
    };
    let third: int = if bytes.len() > 2 {
        bytes[2] as int
    } else {
        0
    };
    lemma_sixes(first, second, third);
    lemma_base64_alphabet(first / 4, url);
    lemma_base64_alphabet(first % 4 * 16 + second / 16, url);
    lemma_base64_alphabet(second % 16 * 4 + third / 64, url);
    lemma_base64_alphabet(third % 64, url);
    if bytes.len() > 2 {
        assert(text.skip(4) =~= base64_chars(bytes.skip(3), url, padded));
    } else if bytes.len() == 1 {
        assert(text.skip(2) =~= if padded {
            seq!['=', '=']
        } else {
            seq![]
        });
    } else {
        assert(text.skip(3) =~= if padded {
            seq!['=']
        } else {
            seq![]
        });
    }
}

/// The texts of bytes are those of the encodings: hexadecimal digits, and the
/// alphabet of addresses without padding.
pub proof fn law_bytes_are_written_as_text(bytes: &[u8], hexed: String, url: String, i: int)
    requires
        call_ensures(hex_text, (bytes,), hexed),
        call_ensures(base64url_text, (bytes,), url),
    ensures
        hexed@.len() == 2 * bytes@.len(),
        0 <= i < bytes@.len() ==> hexed@[2 * i] == "0123456789abcdef"@[bytes@[i] as int / 16]
            && hexed@[2 * i + 1] == "0123456789abcdef"@[bytes@[i] as int % 16],
        url@ == base64_chars(bytes@, true, false),
{
    if 0 <= i < bytes@.len() {
        reveal_strlit("0123456789abcdef");
        lemma_hex_char(bytes@[i] as int / 16);
        lemma_hex_char(bytes@[i] as int % 16);
        assert(hexed@[2 * i] == hex(bytes@)[2 * i] as char);
        assert(hexed@[2 * i + 1] == hex(bytes@)[2 * i + 1] as char);
    }
}

proof fn lemma_hex_char(v: int)
    requires
        0 <= v < 16,
    ensures
        hex_lower(v) as char == "0123456789abcdef"@[v],
{
    reveal_strlit("0123456789abcdef");
}

} // verus!
