//! The values that may not leave the daemon.

use vstd::prelude::*;
use vstd::slice::*;
use vstd::string::*;

use crate::credential::ResolvedCredential;
use crate::error::ErrorCode;
use crate::leakscan::scan_bytes;
use crate::rpc::error_text;
use crate::secret::Secret;
use crate::text::list_has;

verus! {

/// The values that may not leave the daemon.
pub struct Registry {
    secrets: Vec<String>,
}

impl View for Registry {
    type V = Seq<Seq<char>>;

    closed spec fn view(&self) -> Seq<Seq<char>> {
        crate::text::texts(self.secrets@)
    }
}

/// The registry with one more value, unless it holds it already.
pub open spec fn with_secret(secrets: Seq<Seq<char>>, secret: Seq<char>) -> Seq<Seq<char>> {
    if secrets.contains(secret) {
        secrets
    } else {
        secrets.push(secret)
    }
}

/// The registry with the values of a credential.
pub open spec fn with_credential(
    secrets: Seq<Seq<char>>,
    credential: crate::credential::CredentialView,
) -> Seq<Seq<char>> {
    if credential.secrets_preregistered {
        secrets
    } else {
        let both = with_secret(with_secret(secrets, credential.username), credential.password);
        match credential.totp_seed {
            Some(seed) => with_secret(both, seed),
            None => both,
        }
    }
}

/// A response as it is sent, and how it is recorded.
pub struct Guarded {
    pub bytes: Vec<u8>,
    pub outcome: String,
    pub leaked: bool,
}

impl Registry {
    /// All values are short enough to be looked for in every encoding.
    pub open spec fn wf(&self) -> bool {
        forall|i: int| 0 <= i < self@.len() ==> crate::encoding::encodable(#[trigger] self@[i])
    }

    /// A registry of the given values.
    pub fn new(secrets: Vec<String>) -> (r: Registry)
        requires
            crate::leakscan::all_encodable(secrets@),
        ensures
            r@ == crate::text::texts(secrets@),
            r.wf(),
    {
        let r = Registry { secrets };
        assert forall|i: int| 0 <= i < r@.len() implies crate::encoding::encodable(
            #[trigger] r@[i],
        ) by {
            assert(r@[i] == secrets@[i]@);
        }
        r
    }

    /// Adds a value, unless it is known.
    pub fn register(&mut self, secret: &Secret)
        requires
            old(self).wf(),
            crate::encoding::encodable(secret@),
        ensures
            final(self).wf(),
            final(self)@ == with_secret(old(self)@, secret@),
    {
        if !list_has(&self.secrets, secret.as_str()) {
            let ghost before = self@;
            self.secrets.push(secret.as_str().to_owned());
            assert(self@ =~= before.push(secret@));
        }
    }

    /// Adds the values of a credential, unless they were added when its vault
    /// was opened.
    pub fn register_credential(&mut self, credential: &ResolvedCredential)
        requires
            old(self).wf(),
            crate::encoding::encodable(credential.username@),
            crate::encoding::encodable(credential.password@),
            credential.totp_seed matches Some(seed) ==> crate::encoding::encodable(seed@),
        ensures
            final(self).wf(),
            final(self)@ == with_credential(old(self)@, credential@),
    {
        if !credential.secrets_preregistered {
            self.register(&credential.username);
            self.register(&credential.password);
            match &credential.totp_seed {
                Some(seed) => self.register(seed),
                None => {},
            }
        }
    }

    /// Tells whether bytes hold a registered value in any encoding.
    pub fn leaks(&self, bytes: &[u8]) -> (r: bool)
        requires
            self.wf(),
        ensures
            r == (crate::leakscan::scan(bytes@, self@).len() > 0),
    {
        assert forall|i: int| 0 <= i < self.secrets@.len() implies crate::encoding::encodable(
            (#[trigger] self.secrets@[i])@,
        ) by {
            assert(self@[i] == self.secrets@[i]@);
        }
        let hits = scan_bytes(bytes, self.secrets.as_slice());
        assert(crate::leakscan::hit_views(hits@).len() == hits@.len());
        hits.len() > 0
    }

    /// Turns the response to the request of an id into the line that is sent.
    /// A response that holds a registered value is not sent: an internal error
    /// of the same id goes out in its place, and is what is recorded.
    pub fn guard(&self, id: &str, response: Vec<u8>, outcome: String) -> (r: Guarded)
        requires
            self.wf(),
        ensures
            r.leaked == (crate::leakscan::scan(response@, self@).len() > 0),
            r.bytes@ == (if r.leaked {
                vstd::utf8::encode_utf8(crate::rpc::error_json(id@, ErrorCode::Internal))
            } else {
                response@
            }).push(0x0a),
            r.outcome@ == (if r.leaked {
                "INTERNAL"@
            } else {
                outcome@
            }),
    {
        if self.leaks(response.as_slice()) {
            let text = error_text(id, ErrorCode::Internal);
            let mut bytes = slice_to_vec(text.as_str().as_bytes());
            bytes.push(0x0a);
            Guarded { bytes, outcome: "INTERNAL".to_owned(), leaked: true }
        } else {
            let mut bytes = response;
            bytes.push(0x0a);
            Guarded { bytes, outcome, leaked: false }
        }
    }
}

/// A response that holds a registered value as it stands is never sent.
pub proof fn law_registered_values_are_caught(
    secrets: Seq<Seq<char>>,
    index: int,
    before: Seq<u8>,
    after: Seq<u8>,
)
    requires
        0 <= index < secrets.len(),
        secrets[index].len() > 0,
    ensures
        crate::leakscan::scan(
            before + vstd::utf8::encode_utf8(secrets[index]) + after,
            secrets,
        ).len() > 0,
{
    crate::leakscan::law_raw_canary_is_found(before, secrets, index, after);
}

/// Values that are registered stay registered, and a credential that was
/// resolved is registered.
pub proof fn law_resolved_values_are_registered(
    secrets: Seq<Seq<char>>,
    credential: crate::credential::CredentialView,
)
    requires
        !credential.secrets_preregistered,
    ensures
        with_credential(secrets, credential).contains(credential.username),
        with_credential(secrets, credential).contains(credential.password),
        credential.totp_seed matches Some(seed) ==> with_credential(secrets, credential).contains(
            seed,
        ),
        forall|s: Seq<char>| secrets.contains(s) ==> #[trigger] with_credential(
            secrets,
            credential,
        ).contains(s),
{
    let one = with_secret(secrets, credential.username);
    let two = with_secret(one, credential.password);
    lemma_with_secret(secrets, credential.username);
    lemma_with_secret(one, credential.password);
    match credential.totp_seed {
        Some(seed) => {
            lemma_with_secret(two, seed);
        },
        None => {},
    }
}

proof fn lemma_with_secret(secrets: Seq<Seq<char>>, secret: Seq<char>)
    ensures
        with_secret(secrets, secret).contains(secret),
        forall|s: Seq<char>| secrets.contains(s) ==> #[trigger] with_secret(
            secrets,
            secret,
        ).contains(s),
{
    let new = with_secret(secrets, secret);
    if !secrets.contains(secret) {
        assert(new[secrets.len() as int] == secret);
        assert forall|s: Seq<char>| secrets.contains(s) implies #[trigger] new.contains(s) by {
            let i = choose|i: int| 0 <= i < secrets.len() && secrets[i] == s;
            assert(new[i] == s);
        }
    }
}

/// A response that holds a registered value in any of its forms is replaced by
/// an internal error of the same request, and recorded as one; any other
/// response is sent as it is, on a line of its own.
pub proof fn law_guarded_responses_hold_no_value(
    registry: &Registry,
    id: &str,
    response: Vec<u8>,
    outcome: String,
    guarded: Guarded,
    i: int,
    before: Seq<u8>,
    form: Seq<u8>,
    after: Seq<u8>,
)
    requires
        call_ensures(Registry::guard, (registry, id, response, outcome), guarded),
        0 <= i < registry@.len(),
        registry@[i].len() > 0,
        ({
            let bytes = vstd::utf8::encode_utf8(registry@[i]);
            ||| form == bytes
            ||| form == vstd::utf8::encode_utf8(crate::encoding::base64_chars(bytes, false, true))
            ||| form == crate::encoding::percent(bytes)
            ||| form == crate::encoding::hex(bytes)
            ||| form == vstd::utf8::encode_utf8(crate::encoding::json_string(registry@[i]))
        }),
    ensures
        response@ == before + form + after ==> guarded.leaked,
        guarded.leaked ==> guarded.bytes@ == vstd::utf8::encode_utf8(
            "{\"jsonrpc\":\"2.0\",\"id\":"@ + id@
                + ",\"error\":{\"code\":-32000,\"message\":\""@ + "INTERNAL"@ + "\"}}"@,
        ).push(0x0a) && guarded.outcome@ == "INTERNAL"@,
        !guarded.leaked ==> guarded.bytes@ == response@.push(0x0a) && guarded.outcome@ == outcome@,
{
    if response@ == before + form + after {
        crate::leakscan::lemma_form_is_found(before, registry@, i, form, after);
    }
}

/// After a credential was registered, its user name, its password and its seed
/// are among the values, and none was forgotten, unless its vault registered
/// them before.
pub proof fn law_registering_keeps_every_value(
    registry: &mut Registry,
    credential: &ResolvedCredential,
    done: (),
    i: int,
)
    requires
        call_ensures(Registry::register_credential, (registry, credential), done),
    ensures
        0 <= i < old(registry)@.len() ==> final(registry)@.contains(old(registry)@[i]),
        !credential.secrets_preregistered ==> {
            &&& final(registry)@.contains(credential.username@)
            &&& final(registry)@.contains(credential.password@)
            &&& credential.totp_seed matches Some(seed) ==> final(registry)@.contains(seed@)
        },
{
    let before = old(registry)@;
    if !credential.secrets_preregistered {
        law_resolved_values_are_registered(before, credential@);
    }
    if 0 <= i < before.len() {
        assert(before.contains(before[i]));
        assert(final(registry)@ == with_credential(before, credential@));
    }
}

} // verus!
