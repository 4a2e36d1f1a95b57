//! Who may read the files of the daemon on Windows, and the sealed password.

use vstd::prelude::*;
use vstd::string::*;

use crate::secret::{wipe, wipe_bytes, Secret};
use crate::text::{decode_text, same_text, text_trim_end, CharClass};

verus! {

// ---------------------------------------------------------------------------
// Access lists
// ---------------------------------------------------------------------------

/// Full access for one principal.
pub open spec fn full_access(directory: bool, principal: Seq<char>) -> Seq<char> {
    "(A;"@ + (if directory {
        "OICI"@
    } else {
        ""@
    }) + ";FA;;;"@ + principal + ")"@
}

/// Full access for each of the principals, in their order.
pub open spec fn access_entries(directory: bool, principals: Seq<Seq<char>>) -> Seq<char>
    decreases principals.len(),
{
    if principals.len() == 0 {
        seq![]
    } else {
        access_entries(directory, principals.drop_last()) + full_access(
            directory,
            principals.last(),
        )
    }
}

/// The descriptor that grants full access to `principals` and to nobody else,
/// whatever the parent directory grants. Directories hand it on to what is in
/// them.
pub fn protected_dacl_sddl(directory: bool, principals: &Vec<String>) -> (r: String)
    ensures
        r@ == "D:P"@ + access_entries(directory, crate::text::texts(principals@)),
{
    let ghost all = crate::text::texts(principals@);
    let mut out = "D:P".to_owned();
    let mut i: usize = 0;
    assert(out@ =~= "D:P"@ + access_entries(directory, all.take(0)));
    while i < principals.len()
        invariant
            i <= principals@.len(),
            all == crate::text::texts(principals@),
            out@ == "D:P"@ + access_entries(directory, all.take(i as int)),
        decreases principals@.len() - i,
    {
        let ghost before = out@;
        out.append("(A;");
        if directory {
            out.append("OICI");
        } else {
            out.append("");
        }
        out.append(";FA;;;");
        out.append(principals[i].as_str());
        out.append(")");
        proof {
            assert(all.take(i + 1).drop_last() =~= all.take(i as int));
            assert(all.take(i + 1).last() == principals@[i as int]@);
            assert(out@ =~= before + full_access(directory, principals@[i as int]@));
            assert(out@ =~= "D:P"@ + access_entries(directory, all.take(i + 1)));
        }
        i += 1;
    }
    assert(all.take(i as int) =~= all);
    out
}

/// The principals of the daemon's own files: its account and the system.
///
/// Administrators are not among them. The file server through which a WSL
/// guest reads the host's drives uses a token in which their group is enabled.
pub fn daemon_principals(account_sid: String) -> (r: Vec<String>)
    ensures
        crate::text::texts(r@) == seq![account_sid@, "SY"@],
{
    let mut out: Vec<String> = Vec::new();
    out.push(account_sid);
    out.push("SY".to_owned());
    assert(crate::text::texts(out@) =~= seq![account_sid@, "SY"@]);
    out
}

/// Whether a path is restricted as requested: the access list was set, or the
/// one that the path has is the requested one. `requested` and `current` are
/// rendered by the system, where it can.
pub fn is_restricted(set: bool, requested: &Option<String>, current: &Option<String>) -> (r: bool)
    ensures
        r == (set || (requested matches Some(a) && current matches Some(b) && a@ == b@)),
{
    if set {
        return true;
    }
    match (requested, current) {
        (Some(a), Some(b)) => same_text(a.as_str(), b.as_str()),
        _ => false,
    }
}

proof fn lemma_entries_push(directory: bool, principals: Seq<Seq<char>>, last: Seq<char>)
    ensures
        access_entries(directory, principals.push(last)) == access_entries(directory, principals)
            + full_access(directory, last),
{
    assert(principals.push(last).drop_last() =~= principals);
}

/// The descriptor of the daemon's own files names its account and the system,
/// and nobody else.
pub proof fn law_only_the_daemon_is_named(directory: bool, account: Seq<char>)
    ensures
        access_entries(directory, seq![account, "SY"@]) == full_access(directory, account)
            + full_access(directory, "SY"@),
{
    let none = Seq::<Seq<char>>::empty();
    assert(none.push(account).push("SY"@) =~= seq![account, "SY"@]);
    lemma_entries_push(directory, none.push(account), "SY"@);
    lemma_entries_push(directory, none, account);
    assert(access_entries(directory, none) =~= seq![]);
    assert(Seq::<char>::empty() + full_access(directory, account) =~= full_access(
        directory,
        account,
    ));
}

// ---------------------------------------------------------------------------
// The sealed password
// ---------------------------------------------------------------------------

/// Why a password could not be sealed or unsealed.
#[derive(Clone, Copy, Debug, PartialEq, Eq, Structural)]
pub enum SealError {
    Read,
    Write,
    InvalidBlob,
    Protect,
    Unprotect,
    InvalidPlaintext,
}

/// A length that the system's data protection takes: not empty, and no more
/// than 32 bits can say.
pub open spec fn is_protectable(len: nat) -> bool {
    0 < len <= u32::MAX
}

fn protectable_length(len: usize, error: SealError) -> (r: Result<u32, SealError>)
    ensures
        match r {
            Ok(n) => is_protectable(len as nat) && n == len,
            Err(e) => !is_protectable(len as nat) && e == error,
        },
{
    let wide: u64 = len as u64;
    if wide == 0 || wide > 0xffff_ffff {
        Err(error)
    } else {
        Ok(wide as u32)
    }
}

/// The length of a password that is to be sealed, in bytes.
pub fn plaintext_length(len: usize) -> (r: Result<u32, SealError>)
    ensures
        match r {
            Ok(n) => is_protectable(len as nat) && n == len,
            Err(e) => !is_protectable(len as nat) && e == SealError::InvalidPlaintext,
        },
{
    protectable_length(len, SealError::InvalidPlaintext)
}

/// The length of a file that is to be unsealed.
pub fn blob_length(len: usize) -> (r: Result<u32, SealError>)
    ensures
        match r {
            Ok(n) => is_protectable(len as nat) && n == len,
            Err(e) => !is_protectable(len as nat) && e == SealError::InvalidBlob,
        },
{
    protectable_length(len, SealError::InvalidBlob)
}

/// What sealing gives, given what the system returned: nothing where it
/// failed, an empty result is no result.
pub fn sealed_blob(protected: Option<Vec<u8>>) -> (r: Result<Vec<u8>, SealError>)
    ensures
        match protected {
            None => r == Err::<Vec<u8>, SealError>(SealError::Protect),
            Some(bytes) => if bytes@.len() == 0 {
                r == Err::<Vec<u8>, SealError>(SealError::InvalidBlob)
            } else {
                r matches Ok(blob) && blob@ == bytes@
            },
        },
{
    match protected {
        None => Err(SealError::Protect),
        Some(bytes) => if bytes.len() == 0 {
            Err(SealError::InvalidBlob)
        } else {
            Ok(bytes)
        },
    }
}

/// The password that was unsealed, given what the system returned. Bytes that
/// are no text are overwritten.
pub fn unsealed_password(unprotected: Option<Vec<u8>>) -> (r: Result<Secret, SealError>)
    ensures
        match unprotected {
            None => r matches Err(e) && e == SealError::Unprotect,
            Some(bytes) => if bytes@.len() == 0 {
                r matches Err(e) && e == SealError::InvalidBlob
            } else {
                match crate::text::decoded(bytes@) {
                    Some(text) => r matches Ok(secret) && secret@ == text,
                    None => r matches Err(e) && e == SealError::InvalidPlaintext,
                }
            },
        },
{
    match unprotected {
        None => Err(SealError::Unprotect),
        Some(bytes) => {
            if bytes.len() == 0 {
                return Err(SealError::InvalidBlob);
            }
            match decode_text(bytes) {
                Ok(text) => Ok(Secret::new(text)),
                Err(rest) => {
                    let mut rest = rest;
                    wipe_bytes(&mut rest);
                    Err(SealError::InvalidPlaintext)
                },
            }
        },
    }
}

/// The password that was typed or piped in: without the line ends at its end.
/// The input is overwritten.
pub fn typed_password(input: String) -> (r: String)
    ensures
        r@ == crate::text::trim_end(input@, CharClass::LineEnd),
{
    let mut input = input;
    let password = text_trim_end(input.as_str(), CharClass::LineEnd);
    wipe(&mut input);
    password
}

/// The descriptor grants full access to each of the principals, and closes the
/// path to what its parent grants; that of a directory is handed on.
pub proof fn law_every_principal_has_access(
    directory: bool,
    principals: &Vec<String>,
    descriptor: String,
    i: int,
)
    requires
        call_ensures(protected_dacl_sddl, (directory, principals), descriptor),
    ensures
        "D:P"@.is_prefix_of(descriptor@),
        principals@.len() == 0 ==> descriptor@ == "D:P"@,
        0 <= i < principals@.len() && directory ==> crate::text::has_part(
            descriptor@,
            "(A;OICI;FA;;;"@ + principals@[i]@ + ")"@,
        ),
        0 <= i < principals@.len() && !directory ==> crate::text::has_part(
            descriptor@,
            "(A;;FA;;;"@ + principals@[i]@ + ")"@,
        ),
{
    let texts = crate::text::texts(principals@);
    let entries = access_entries(directory, texts);
    let empty = Seq::<char>::empty();
    assert(descriptor@.subrange(0, "D:P"@.len() as int) =~= "D:P"@);
    if principals@.len() == 0 {
        assert(descriptor@ =~= "D:P"@);
    }
    if 0 <= i < principals@.len() {
        reveal_strlit("(A;");
        reveal_strlit("OICI");
        reveal_strlit("");
        reveal_strlit(";FA;;;");
        reveal_strlit("(A;OICI;FA;;;");
        reveal_strlit("(A;;FA;;;");
        let entry = full_access(directory, texts[i]);
        if directory {
            assert(entry =~= "(A;OICI;FA;;;"@ + texts[i] + ")"@);
        } else {
            assert(entry =~= "(A;;FA;;;"@ + texts[i] + ")"@);
        }
        lemma_entry_is_part(directory, texts, i);
        crate::text::lemma_part_follows("D:P"@, entries, entry);
    }
}

proof fn lemma_entry_is_part(directory: bool, principals: Seq<Seq<char>>, i: int)
    requires
        0 <= i < principals.len(),
    ensures
        crate::text::has_part(
            access_entries(directory, principals),
            full_access(directory, principals[i]),
        ),
    decreases principals.len(),
{
    let before = access_entries(directory, principals.drop_last());
    crate::text::lemma_part_stays(before, full_access(directory, principals.last()));
    if i < principals.len() - 1 {
        assert(principals.drop_last()[i] == principals[i]);
        lemma_entry_is_part(directory, principals.drop_last(), i);
    }
}

/// A password that was sealed is the one that is unsealed.
pub proof fn law_unsealed_passwords_are_those_sealed(
    password: Seq<char>,
    bytes: Vec<u8>,
    unsealed: Result<Secret, SealError>,
)
    requires
        bytes@ == vstd::utf8::encode_utf8(password),
        bytes@.len() > 0,
        call_ensures(unsealed_password, (Some(bytes),), unsealed),
    ensures
        unsealed matches Ok(secret) && secret@ == password,
{
    vstd::utf8::encode_utf8_valid_utf8(password);
    vstd::utf8::encode_utf8_decode_utf8(password);
}

/// What is sealed is what the system protected, and nothing is sealed where it
/// failed; lengths are handed on as they are.
pub proof fn law_blobs_are_what_was_protected(
    bytes: Vec<u8>,
    sealed: Result<Vec<u8>, SealError>,
    refused: Result<Vec<u8>, SealError>,
    unreadable: Result<Secret, SealError>,
    len: usize,
    plain: Result<u32, SealError>,
    blob: Result<u32, SealError>,
)
    requires
        call_ensures(sealed_blob, (Some(bytes),), sealed),
        call_ensures(sealed_blob, (None,), refused),
        call_ensures(unsealed_password, (None,), unreadable),
        call_ensures(plaintext_length, (len,), plain),
        call_ensures(blob_length, (len,), blob),
    ensures
        sealed is Ok <==> bytes@.len() > 0,
        sealed matches Ok(b) ==> b@ == bytes@,
        sealed is Err ==> sealed->Err_0 == SealError::InvalidBlob,
        refused is Err && refused->Err_0 == SealError::Protect,
        unreadable is Err && unreadable->Err_0 == SealError::Unprotect,
        plain is Ok <==> 0 < len <= 0xffff_ffff,
        blob is Ok <==> 0 < len <= 0xffff_ffff,
        plain matches Ok(n) ==> n == len,
        blob matches Ok(n) ==> n == len,
        plain matches Err(e) ==> e == SealError::InvalidPlaintext,
        blob matches Err(e) ==> e == SealError::InvalidBlob,
{
}

/// A typed password loses the line ends at its end, and nothing else.
pub proof fn law_passwords_lose_their_line_ends(
    password: Seq<char>,
    ends: Seq<char>,
    input: String,
    typed: String,
)
    requires
        input@ == password + ends,
        forall|i: int| 0 <= i < ends.len() ==> (#[trigger] ends[i] == '\r' || ends[i] == '\n'),
        password.len() > 0 ==> password.last() != '\r' && password.last() != '\n',
        call_ensures(typed_password, (input,), typed),
    ensures
        typed@ == password,
{
    crate::text::lemma_trimmed_is(password, ends, CharClass::LineEnd);
}

} // verus!
