//! Requests: who may make them, and what they are answered.

use vstd::prelude::*;
use vstd::string::*;

use crate::audit::{audit_fields, AuditFields};
use crate::config::Platform;
use crate::credential::{CredentialRef, ResolvedCredential};
use crate::error::ErrorCode;
use crate::login::LoginAction;
use crate::peers::IssuedPeer;
use crate::sessions::{LogoutOutcome, SessionTable};
use crate::text::{join3, same_text, text_split_first, text_starts_with};
use crate::totp::totp;
use crate::transport::PeerIdentity;
use crate::wire::{
    CatalogEntry, LoginParams, ParamValue, Params, RpcError, RpcRequest, RpcResponse, RpcResult,
};

verus! {

/// The code of a method that does not exist.
pub const METHOD_NOT_FOUND: i32 = -32601;

/// The code of every classified error.
pub const CLASSIFICATION_ERROR: i32 = -32000;

/// A request that was dealt with.
#[derive(Debug)]
pub struct HandledRequest {
    pub response: RpcResponse,
    pub outcome: String,
    /// Whether a login was lent a tab of a running browser.
    pub audit_shared: Option<bool>,
}

impl HandledRequest {
    /// The request succeeded with a result.
    pub open spec fn succeeded(self, id: Seq<char>, result: RpcResult) -> bool {
        &&& self.response.jsonrpc@ == "2.0"@
        &&& self.response.id@ == id
        &&& self.response.result == Some(result)
        &&& self.response.error is None
        &&& self.outcome@ == "ok"@
    }

    /// The request failed with a code, and says no more than the code.
    pub open spec fn failed(self, id: Seq<char>, code: ErrorCode) -> bool {
        &&& self.response.failed(id, code)
        &&& self.outcome@ == code.text()
        &&& self.audit_shared is None
    }
}

impl RpcResponse {
    /// The response is an error of a code.
    pub open spec fn failed(self, id: Seq<char>, code: ErrorCode) -> bool {
        &&& self.jsonrpc@ == "2.0"@
        &&& self.id@ == id
        &&& self.result is None
        &&& self.error matches Some(e) && e.code == CLASSIFICATION_ERROR && e.message@
            == code.text()
    }
}

/// Answers with a result.
pub fn success(id: String, result: RpcResult) -> (r: HandledRequest)
    ensures
        r.succeeded(id@, result),
        r.audit_shared is None,
{
    HandledRequest {
        response: RpcResponse { jsonrpc: "2.0", id, result: Some(result), error: None },
        outcome: "ok".to_owned(),
        audit_shared: None,
    }
}

/// Answers with a code.
pub fn classified(id: String, error: ErrorCode) -> (r: HandledRequest)
    ensures
        r.failed(id@, error),
{
    HandledRequest {
        response: error_response(id, error),
        outcome: error.as_str().to_owned(),
        audit_shared: None,
    }
}

/// A response that holds a code.
pub fn error_response(id: String, error: ErrorCode) -> (r: RpcResponse)
    ensures
        r.failed(id@, error),
{
    RpcResponse {
        jsonrpc: "2.0",
        id,
        result: None,
        error: Some(RpcError { code: CLASSIFICATION_ERROR, message: error.as_str().to_owned() }),
    }
}

/// The JSON text of an error, where the id is the JSON text of an id.
pub open spec fn error_json(id: Seq<char>, code: ErrorCode) -> Seq<char> {
    "{\"jsonrpc\":\"2.0\",\"id\":"@ + id + ",\"error\":{\"code\":-32000,\"message\":\""@
        + code.text() + "\"}}"@
}

/// Writes the response that holds a code.
pub fn error_text(id: &str, error: ErrorCode) -> (r: String)
    ensures
        r@ == error_json(id@, error),
{
    let mut text = join3(
        "{\"jsonrpc\":\"2.0\",\"id\":",
        id,
        ",\"error\":{\"code\":-32000,\"message\":\"",
    );
    text.append(error.as_str());
    text.append("\"}}");
    text
}

/// Answers a request for a method that does not exist.
pub fn method_not_found(id: String) -> (r: HandledRequest)
    ensures
        r.response.jsonrpc@ == "2.0"@,
        r.response.id@ == id@,
        r.response.result is None,
        r.response.error matches Some(e) && e.code == METHOD_NOT_FOUND && e.message@
            == "method not found"@,
        r.outcome@ == "method_not_found"@,
        r.audit_shared is None,
{
    HandledRequest {
        response: RpcResponse {
            jsonrpc: "2.0",
            id,
            result: None,
            error: Some(RpcError { code: METHOD_NOT_FOUND, message: "method not found".to_owned() }),
        },
        outcome: "method_not_found".to_owned(),
        audit_shared: None,
    }
}

/// Answers a line that is no request.
pub fn unreadable_request() -> (r: HandledRequest)
    ensures
        r.failed("null"@, ErrorCode::Internal),
{
    classified("null".to_owned(), ErrorCode::Internal)
}

// ---------------------------------------------------------------------------
// Routing
// ---------------------------------------------------------------------------

/// What deals with a request.
#[derive(Clone, Copy, Debug, PartialEq, Eq, Structural)]
pub enum Route {
    Reject(ErrorCode),
    MethodNotFound,
    PeerIssue,
    PeerRevoke,
    PeerList,
    TokenIssue,
    Seal,
    Status,
    ListCredentials,
    Login,
    Logout,
    GetTotp,
    LockVault,
}

impl Route {
    /// An administrative request that is carried out.
    pub open spec fn administers(self) -> bool {
        self is PeerIssue || self is PeerRevoke || self is PeerList || self is TokenIssue
            || self is Seal
    }

    /// An ordinary request that is carried out.
    pub open spec fn serves(self) -> bool {
        self is Status || self is ListCredentials || self is Login || self is Logout
            || self is GetTotp || self is LockVault
    }
}

/// The administrative methods.
pub open spec fn admin_route(method: Seq<char>, platform: Platform) -> Route {
    if method == "admin_peer_issue"@ {
        Route::PeerIssue
    } else if method == "admin_peer_revoke"@ {
        Route::PeerRevoke
    } else if method == "admin_peer_list"@ {
        Route::PeerList
    } else if method == "admin_token_issue"@ {
        Route::TokenIssue
    } else if method == "admin_seal"@ && platform is Windows {
        Route::Seal
    } else {
        Route::MethodNotFound
    }
}

/// The ordinary methods.
pub open spec fn normal_route(method: Seq<char>) -> Route {
    if method == "status"@ {
        Route::Status
    } else if method == "list_credentials"@ {
        Route::ListCredentials
    } else if method == "login"@ {
        Route::Login
    } else if method == "logout"@ {
        Route::Logout
    } else if method == "get_totp"@ {
        Route::GetTotp
    } else if method == "lock_vault"@ {
        Route::LockVault
    } else {
        Route::MethodNotFound
    }
}

/// What deals with a request of a peer.
pub open spec fn route_of(
    jsonrpc: Seq<char>,
    method: Seq<char>,
    admin: bool,
    normal: bool,
    platform: Platform,
) -> Route {
    if jsonrpc != "2.0"@ {
        Route::Reject(ErrorCode::Internal)
    } else if "admin_"@.is_prefix_of(method) {
        if admin {
            admin_route(method, platform)
        } else {
            Route::Reject(ErrorCode::AdminRequired)
        }
    } else if !normal {
        Route::Reject(ErrorCode::Unauthorized)
    } else {
        normal_route(method)
    }
}

/// Decides what deals with a request.
pub fn route(
    request: &RpcRequest,
    peer: &PeerIdentity,
    allowed_uids: &[u32],
    operator_uids: &[u32],
    platform: Platform,
) -> (r: Route)
    ensures
        r == route_of(
            request.jsonrpc@,
            request.method@,
            peer.admin(operator_uids@),
            peer.normal(allowed_uids@),
            platform,
        ),
{
    let method = request.method.as_str();
    if !same_text(request.jsonrpc.as_str(), "2.0") {
        return Route::Reject(ErrorCode::Internal);
    }
    if text_starts_with(method, "admin_") {
        if !peer.allows_admin_rpc(operator_uids) {
            return Route::Reject(ErrorCode::AdminRequired);
        }
        return if same_text(method, "admin_peer_issue") {
            Route::PeerIssue
        } else if same_text(method, "admin_peer_revoke") {
            Route::PeerRevoke
        } else if same_text(method, "admin_peer_list") {
            Route::PeerList
        } else if same_text(method, "admin_token_issue") {
            Route::TokenIssue
        } else if same_text(method, "admin_seal") && platform.is_windows() {
            Route::Seal
        } else {
            Route::MethodNotFound
        };
    }
    if !peer.allows_normal_rpc(allowed_uids) {
        return Route::Reject(ErrorCode::Unauthorized);
    }
    if same_text(method, "status") {
        Route::Status
    } else if same_text(method, "list_credentials") {
        Route::ListCredentials
    } else if same_text(method, "login") {
        Route::Login
    } else if same_text(method, "logout") {
        Route::Logout
    } else if same_text(method, "get_totp") {
        Route::GetTotp
    } else if same_text(method, "lock_vault") {
        Route::LockVault
    } else {
        Route::MethodNotFound
    }
}

/// Administrative requests are carried out for administrators alone, ordinary
/// ones for those alone who may make them, and a refusal does not depend on
/// whether the administrative method exists.
pub proof fn law_requests_need_rights(
    jsonrpc: Seq<char>,
    method: Seq<char>,
    other: Seq<char>,
    admin: bool,
    normal: bool,
    platform: Platform,
)
    ensures
        route_of(jsonrpc, method, admin, normal, platform).administers() ==> admin,
        route_of(jsonrpc, method, admin, normal, platform).serves() ==> normal,
        !admin && "admin_"@.is_prefix_of(method) && "admin_"@.is_prefix_of(other) ==> route_of(
            jsonrpc,
            method,
            admin,
            normal,
            platform,
        ) == route_of(jsonrpc, other, admin, normal, platform),
{
}

/// Dispatch is an allowlist: to a peer with the rights, whatever is not on it
/// does not exist.
pub proof fn law_other_methods_do_not_exist(
    method: Seq<char>,
    admin: bool,
    normal: bool,
    platform: Platform,
)
    requires
        if "admin_"@.is_prefix_of(method) {
            admin
        } else {
            normal
        },
    ensures
        ({
            let to = route_of("2.0"@, method, admin, normal, platform);
            to.administers() || to.serves() || to is MethodNotFound
        }),
{
}

// ---------------------------------------------------------------------------
// Parameters
// ---------------------------------------------------------------------------

/// A parameter that must be a text.
pub fn required_string_param(params: &Params, key: &str) -> (r: Result<String, ErrorCode>)
    ensures
        match params.text(key@) {
            Some(text) => r matches Ok(s) && s@ == text,
            None => r matches Err(code) && code is Internal,
        },
{
    match params.get_text(key) {
        Some(text) => Ok(text),
        None => Err(ErrorCode::Internal),
    }
}

/// The namespace that a request is limited to, if any.
pub fn optional_namespace(params: &Params) -> (r: Result<Option<String>, ErrorCode>)
    ensures
        match params.lookup("namespace"@) {
            crate::wire::ParamView::Missing => r matches Ok(n) && n is None,
            crate::wire::ParamView::Null => r matches Ok(n) && n is None,
            crate::wire::ParamView::Text(text) => r matches Ok(n) && crate::text::opt_text(n)
                == Some(text),
            crate::wire::ParamView::Other => r matches Err(code) && code is Internal,
        },
{
    match params.get("namespace") {
        None => Ok(None),
        Some(ParamValue::Null) => Ok(None),
        Some(ParamValue::Text(namespace)) => Ok(Some(namespace.clone())),
        Some(ParamValue::Other) => Err(ErrorCode::Internal),
    }
}

// ---------------------------------------------------------------------------
// Providers
// ---------------------------------------------------------------------------

/// The positions below `n` of the namespaces that a request is about.
pub open spec fn selection(
    namespaces: Seq<Seq<char>>,
    requested: Option<Seq<char>>,
    n: nat,
) -> Seq<int>
    decreases n,
{
    if n == 0 {
        seq![]
    } else {
        let before = selection(namespaces, requested, (n - 1) as nat);
        if requested is None || requested == Some(namespaces[n - 1]) {
            before.push(n - 1)
        } else {
            before
        }
    }
}

/// Picks the providers that a request is about: all of them, or those of one
/// namespace.
pub fn selected_providers(namespaces: &Vec<String>, requested: &Option<String>) -> (r: Vec<usize>)
    ensures
        r@.map_values(|i: usize| i as int) == selection(
            crate::text::texts(namespaces@),
            crate::text::opt_text(*requested),
            namespaces@.len(),
        ),
{
    let ghost views = crate::text::texts(namespaces@);
    let ghost wanted = crate::text::opt_text(*requested);
    let mut out: Vec<usize> = Vec::new();
    let mut i: usize = 0;
    assert(out@.map_values(|i: usize| i as int) =~= selection(views, wanted, 0));
    while i < namespaces.len()
        invariant
            i <= namespaces@.len(),
            views == crate::text::texts(namespaces@),
            wanted == crate::text::opt_text(*requested),
            out@.map_values(|i: usize| i as int) == selection(views, wanted, i as nat),
        decreases namespaces@.len() - i,
    {
        let ghost before = out@;
        assert(views[i as int] == namespaces@[i as int]@);
        let chosen = match requested {
            Some(name) => same_text(name.as_str(), namespaces[i].as_str()),
            None => true,
        };
        if chosen {
            out.push(i);
            assert(out@.map_values(|i: usize| i as int) =~= before.map_values(
                |i: usize| i as int,
            ).push(i as int));
        }
        i += 1;
    }
    out
}

/// The position of the first namespace of a name.
pub open spec fn provider_of(namespaces: Seq<Seq<char>>, name: Seq<char>) -> Option<int>
    decreases namespaces.len(),
{
    if namespaces.len() == 0 {
        None
    } else {
        match provider_of(namespaces.drop_last(), name) {
            Some(i) => Some(i),
            None => if namespaces.last() == name {
                Some(namespaces.len() - 1)
            } else {
                None
            },
        }
    }
}

proof fn lemma_provider_of_prefix(namespaces: Seq<Seq<char>>, name: Seq<char>, n: int)
    requires
        0 <= n <= namespaces.len(),
        provider_of(namespaces.take(n), name) is Some,
    ensures
        provider_of(namespaces, name) == provider_of(namespaces.take(n), name),
    decreases namespaces.len() - n,
{
    if n < namespaces.len() {
        assert(namespaces.take(n + 1).drop_last() =~= namespaces.take(n));
        lemma_provider_of_prefix(namespaces, name, n + 1);
    } else {
        assert(namespaces.take(n) =~= namespaces);
    }
}

/// The provider and the entry that a credential id names.
pub fn credential_target(cred_id: &str, namespaces: &Vec<String>) -> (r: Option<(usize, String)>)
    ensures
        match crate::text::split_first(cred_id@, ':') {
            Some((namespace, entry_id)) => match provider_of(
                crate::text::texts(namespaces@),
                namespace,
            ) {
                Some(i) => r matches Some((at, entry)) && at == i && entry@ == entry_id,
                None => r is None,
            },
            None => r is None,
        },
{
    match text_split_first(cred_id, ':') {
        Some((namespace, entry_id)) => match find_provider(namespaces, namespace.as_str()) {
            Some(i) => Some((i, entry_id)),
            None => None,
        },
        None => None,
    }
}

fn find_provider(namespaces: &Vec<String>, name: &str) -> (r: Option<usize>)
    ensures
        match r {
            Some(i) => provider_of(crate::text::texts(namespaces@), name@) == Some(i as int),
            None => provider_of(crate::text::texts(namespaces@), name@) is None,
        },
{
    let ghost views = crate::text::texts(namespaces@);
    let mut i: usize = 0;
    assert(views.take(0) =~= seq![]);
    while i < namespaces.len()
        invariant
            i <= namespaces@.len(),
            views == crate::text::texts(namespaces@),
            provider_of(views.take(i as int), name@) is None,
        decreases namespaces@.len() - i,
    {
        proof {
            assert(views.take(i + 1).drop_last() =~= views.take(i as int));
            assert(views.take(i + 1).last() == namespaces@[i as int]@);
        }
        if same_text(namespaces[i].as_str(), name) {
            proof {
                lemma_provider_of_prefix(views, name@, i + 1);
            }
            return Some(i);
        }
        i += 1;
    }
    assert(views.take(i as int) =~= views);
    None
}

// ---------------------------------------------------------------------------
// The catalog
// ---------------------------------------------------------------------------

/// A catalog entry, by the views of its parts.
#[verifier::ext_equal]
pub struct EntryShown {
    pub id: Seq<char>,
    pub name: Seq<char>,
    pub details: Option<(Seq<char>, Seq<char>)>,
    pub source: Seq<char>,
}

impl View for CatalogEntry {
    type V = EntryShown;

    open spec fn view(&self) -> EntryShown {
        EntryShown {
            id: self.id@,
            name: self.name@,
            details: match self.details {
                Some((uri, kind)) => Some((uri@, kind@)),
                None => None,
            },
            source: self.source@,
        }
    }
}

/// The entries of a catalog, by their views.
pub open spec fn shown(entries: Seq<CatalogEntry>) -> Seq<EntryShown> {
    entries.map_values(|e: CatalogEntry| e@)
}

/// A text, or an empty one.
pub open spec fn or_empty(s: Option<Seq<char>>) -> Seq<char> {
    match s {
        Some(t) => t,
        None => seq![],
    }
}

/// How a credential is shown: by its namespace and its id, and with its
/// address and its kind where the vault is unlocked.
pub open spec fn shown_entry(
    namespace: Seq<char>,
    credential: crate::credential::RefView,
    locked: bool,
) -> EntryShown {
    EntryShown {
        id: namespace + ":"@ + credential.id,
        name: credential.name,
        details: if locked {
            None
        } else {
            Some((or_empty(credential.uri), or_empty(credential.kind)))
        },
        source: namespace,
    }
}

/// How the credentials of a namespace are shown.
pub open spec fn shown_entries(
    namespace: Seq<char>,
    refs: Seq<crate::credential::RefView>,
    locked: bool,
) -> Seq<EntryShown> {
    refs.map_values(|r: crate::credential::RefView| shown_entry(namespace, r, locked))
}

fn text_or_empty(s: &Option<String>) -> (r: String)
    ensures
        r@ == or_empty(crate::text::opt_text(*s)),
{
    match s {
        Some(t) => t.clone(),
        None => {
            let empty = String::new();
            assert(empty@ =~= seq![]);
            empty
        },
    }
}

/// Appends the credentials of a namespace to the catalog.
pub fn append_entries(
    catalog: &mut Vec<CatalogEntry>,
    namespace: &str,
    refs: &Vec<CredentialRef>,
    locked: bool,
)
    ensures
        shown(final(catalog)@) == shown(old(catalog)@) + shown_entries(
            namespace@,
            crate::credential::ref_views(refs@),
            locked,
        ),
{
    let ghost before = shown(catalog@);
    let ghost new = shown_entries(namespace@, crate::credential::ref_views(refs@), locked);
    let mut i: usize = 0;
    assert(before + new.take(0) =~= before);
    while i < refs.len()
        invariant
            i <= refs@.len(),
            new == shown_entries(namespace@, crate::credential::ref_views(refs@), locked),
            shown(catalog@) == before + new.take(i as int),
        decreases refs@.len() - i,
    {
        let ghost earlier = catalog@;
        let details = if locked {
            None
        } else {
            Some((text_or_empty(&refs[i].uri), text_or_empty(&refs[i].kind)))
        };
        let entry = CatalogEntry {
            id: join3(namespace, ":", refs[i].id.as_str()),
            name: refs[i].name.clone(),
            details,
            source: namespace.to_owned(),
        };
        catalog.push(entry);
        proof {
            assert(new[i as int] == shown_entry(namespace@, refs@[i as int]@, locked));
            assert(entry@ =~= new[i as int]);
            assert(shown(catalog@) =~= shown(earlier).push(entry@));
            assert(new.take(i + 1) =~= new.take(i as int).push(new[i as int]));
            assert(before + new.take(i + 1) =~= (before + new.take(i as int)).push(new[i as int]));
        }
        i += 1;
    }
    assert(new.take(i as int) =~= new);
}

/// A locked vault is shown by ids and names alone.
pub proof fn law_locked_entries_show_names_only(
    namespace: Seq<char>,
    credential: crate::credential::RefView,
)
    ensures
        shown_entry(namespace, credential, true).details is None,
        shown_entry(namespace, credential, true) == shown_entry(
            namespace,
            credential.hidden(),
            true,
        ),
{
}

/// A catalog id leads back to its namespace and entry, where the namespace
/// holds no colon.
pub proof fn law_catalog_ids_name_their_entries(namespace: Seq<char>, entry_id: Seq<char>)
    requires
        !namespace.contains(':'),
    ensures
        crate::text::split_first(namespace + ":"@ + entry_id, ':') == Some((namespace, entry_id)),
{
    reveal_strlit(":");
    assert(namespace + ":"@ + entry_id =~= namespace.push(':') + entry_id);
    crate::text::lemma_split_first_unique(namespace, ':', entry_id);
}

// ---------------------------------------------------------------------------
// One-time passwords
// ---------------------------------------------------------------------------

/// How long no second code of a credential is handed out, in nanoseconds.
pub const TOTP_PAUSE: u64 = 30_000_000_000;

/// When a code of each credential was last handed out.
#[derive(Debug)]
pub struct TotpLog {
    entries: Vec<(String, u64)>,
}

spec fn log_map(entries: Seq<(String, u64)>) -> Map<Seq<char>, u64>
    decreases entries.len(),
{
    if entries.len() == 0 {
        Map::empty()
    } else {
        log_map(entries.drop_last()).insert(entries.last().0@, entries.last().1)
    }
}

spec fn distinct_keys(entries: Seq<(String, u64)>) -> bool {
    forall|i: int, j: int|
        0 <= i < j < entries.len() ==> (#[trigger] entries[i]).0@ != (#[trigger] entries[j]).0@
}

impl View for TotpLog {
    type V = Map<Seq<char>, u64>;

    closed spec fn view(&self) -> Map<Seq<char>, u64> {
        log_map(self.entries@)
    }
}

proof fn lemma_log_map(entries: Seq<(String, u64)>, key: Seq<char>)
    requires
        distinct_keys(entries),
    ensures
        log_map(entries).contains_key(key) <==> exists|i: int|
            0 <= i < entries.len() && (#[trigger] entries[i]).0@ == key,
        forall|i: int|
            0 <= i < entries.len() && (#[trigger] entries[i]).0@ == key ==> log_map(entries)[key]
                == entries[i].1,
    decreases entries.len(),
{
    if entries.len() > 0 {
        let rest = entries.drop_last();
        let last = entries.len() - 1;
        assert(distinct_keys(rest)) by {
            assert forall|i: int, j: int| 0 <= i < j < rest.len() implies (#[trigger] rest[i]).0@
                != (#[trigger] rest[j]).0@ by {
                assert(entries[i].0@ != entries[j].0@);
            }
        }
        lemma_log_map(rest, key);
        assert forall|i: int| 0 <= i < rest.len() implies #[trigger] entries[i] == rest[i] by {}
        if entries[last].0@ == key {
            assert forall|i: int| 0 <= i < entries.len() && (#[trigger] entries[i]).0@
                == key implies i == last by {
                if i < last {
                    assert(entries[i].0@ != entries[last].0@);
                }
            }
        }
    }
}

proof fn lemma_log_map_remove(entries: Seq<(String, u64)>, i: int)
    requires
        distinct_keys(entries),
        0 <= i < entries.len(),
    ensures
        log_map(entries.remove(i)) == log_map(entries).remove(entries[i].0@),
        distinct_keys(entries.remove(i)),
    decreases entries.len(),
{
    let rest = entries.drop_last();
    let last = entries.len() - 1;
    let removed = entries.remove(i);
    assert forall|a: int, b: int| 0 <= a < b < removed.len() implies (#[trigger] removed[a]).0@ != (
    #[trigger] removed[b]).0@ by {
        let x = if a < i {
            a
        } else {
            a + 1
        };
        let y = if b < i {
            b
        } else {
            b + 1
        };
        assert(removed[a] == entries[x] && removed[b] == entries[y]);
        assert(entries[x].0@ != entries[y].0@);
    }
    assert(distinct_keys(rest)) by {
        assert forall|a: int, b: int| 0 <= a < b < rest.len() implies (#[trigger] rest[a]).0@ != (
        #[trigger] rest[b]).0@ by {
            assert(entries[a].0@ != entries[b].0@);
        }
    }
    if i == last {
        assert(removed =~= rest);
        lemma_log_map(rest, entries[last].0@);
        assert(!log_map(rest).contains_key(entries[last].0@)) by {
            if log_map(rest).contains_key(entries[last].0@) {
                let k = choose|k: int|
                    0 <= k < rest.len() && (#[trigger] rest[k]).0@ == entries[last].0@;
                assert(entries[k].0@ != entries[last].0@);
            }
        }
        assert(log_map(entries).remove(entries[i].0@) =~= log_map(rest));
    } else {
        lemma_log_map_remove(rest, i);
        assert(removed.drop_last() =~= rest.remove(i));
        assert(removed.last() == entries[last]);
        assert(rest[i] == entries[i]);
        assert(entries[i].0@ != entries[last].0@);
        assert(log_map(removed) =~= log_map(entries).remove(entries[i].0@));
    }
}

/// No code of a credential may be handed out at `now`.
pub open spec fn paused(log: Map<Seq<char>, u64>, cred_id: Seq<char>, now: u64) -> bool {
    log.contains_key(cred_id) && now - log[cred_id] < TOTP_PAUSE
}

impl TotpLog {
    /// No credential stands in the log twice.
    pub closed spec fn wf(&self) -> bool {
        distinct_keys(self.entries@)
    }

    pub fn new() -> (log: TotpLog)
        ensures
            log.wf(),
            log@ == Map::<Seq<char>, u64>::empty(),
    {
        TotpLog { entries: Vec::new() }
    }

    fn find(&self, cred_id: &str) -> (r: Option<usize>)
        requires
            self.wf(),
        ensures
            match r {
                Some(i) => i < self.entries@.len() && self.entries@[i as int].0@ == cred_id@
                    && self@.contains_key(cred_id@) && self@[cred_id@] == self.entries@[i as int].1,
                None => !self@.contains_key(cred_id@),
            },
    {
        proof {
            lemma_log_map(self.entries@, cred_id@);
        }
        let mut i: usize = 0;
        while i < self.entries.len()
            invariant
                i <= self.entries@.len(),
                forall|j: int| 0 <= j < i ==> (#[trigger] self.entries@[j]).0@ != cred_id@,
                self@.contains_key(cred_id@) <==> exists|k: int|
                    0 <= k < self.entries@.len() && (#[trigger] self.entries@[k]).0@ == cred_id@,
                forall|k: int|
                    0 <= k < self.entries@.len() && (#[trigger] self.entries@[k]).0@ == cred_id@
                        ==> self@[cred_id@] == self.entries@[k].1,
            decreases self.entries@.len() - i,
        {
            if same_text(self.entries[i].0.as_str(), cred_id) {
                return Some(i);
            }
            i += 1;
        }
        None
    }

    /// Tells whether a code of a credential was handed out a moment ago.
    pub fn is_paused(&self, cred_id: &str, now: u64) -> (r: bool)
        requires
            self.wf(),
        ensures
            r == paused(self@, cred_id@, now),
    {
        match self.find(cred_id) {
            Some(i) => {
                let last: u64 = self.entries[i].1;
                now < last || now - last < TOTP_PAUSE
            },
            None => false,
        }
    }

    /// Records that a code of a credential is handed out.
    pub fn record(&mut self, cred_id: &str, now: u64)
        requires
            old(self).wf(),
        ensures
            final(self).wf(),
            final(self)@ == old(self)@.insert(cred_id@, now),
    {
        let ghost before = self.entries@;
        match self.find(cred_id) {
            Some(i) => {
                proof {
                    lemma_log_map_remove(before, i as int);
                }
                self.entries.remove(i);
            },
            None => {},
        }
        let ghost cleared = self.entries@;
        self.entries.push((cred_id.to_owned(), now));
        proof {
            assert(self.entries@.drop_last() =~= cleared);
            assert(!log_map(cleared).contains_key(cred_id@));
            lemma_log_map(cleared, cred_id@);
            assert forall|a: int, b: int| 0 <= a < b < self.entries@.len() implies (
            #[trigger] self.entries@[a]).0@ != (#[trigger] self.entries@[b]).0@ by {
                assert(self.entries@[a] == cleared[a]);
                if b < cleared.len() {
                    assert(self.entries@[b] == cleared[b]);
                    assert(cleared[a].0@ != cleared[b].0@);
                }
            }
            assert(self@ =~= log_map(before).insert(cred_id@, now));
        }
    }
}

/// What is done about a request for a code, given what the vault said.
pub open spec fn totp_rule(
    found: Result<Option<crate::credential::CredentialView>, ErrorCode>,
    log: Map<Seq<char>, u64>,
    cred_id: Seq<char>,
    now: u64,
) -> Result<Seq<char>, ErrorCode> {
    match found {
        Err(code) => Err(code),
        Ok(None) => Err(ErrorCode::TotpNotExposable),
        Ok(Some(credential)) => if credential.locked {
            Err(ErrorCode::VaultLocked)
        } else if !credential.totp_exposable {
            Err(ErrorCode::TotpNotExposable)
        } else {
            match credential.totp_seed {
                None => Err(ErrorCode::TotpNotExposable),
                Some(seed) => if paused(log, cred_id, now) {
                    Err(ErrorCode::RateLimited)
                } else {
                    Ok(seed)
                },
            }
        },
    }
}

/// What the vault said of a credential, by its view.
pub open spec fn found_view(found: Result<Option<ResolvedCredential>, ErrorCode>) -> Result<
    Option<crate::credential::CredentialView>,
    ErrorCode,
> {
    match found {
        Ok(c) => Ok(crate::credential::opt_credential(c)),
        Err(code) => Err(code),
    }
}

/// Answers a request for a code: only of a credential that is marked for it,
/// and once in half a minute.
pub fn totp_answer(
    log: &mut TotpLog,
    cred_id: &str,
    found: &Result<Option<ResolvedCredential>, ErrorCode>,
    now: u64,
    unix_time_secs: u64,
) -> (r: Result<(String, u64), ErrorCode>)
    requires
        old(log).wf(),
    ensures
        final(log).wf(),
        match totp_rule(found_view(*found), old(log)@, cred_id@, now) {
            Ok(seed) => {
                &&& r matches Ok((code, expires_in))
                &&& code@ == crate::totp::code_at(
                    crate::totp::seed_key(seed),
                    unix_time_secs as nat,
                )
                &&& expires_in == crate::totp::seconds_left(unix_time_secs as nat)
                &&& final(log)@ == old(log)@.insert(cred_id@, now)
            },
            Err(e) => r == Err::<(String, u64), ErrorCode>(e) && final(log)@ == old(log)@,
        },
{
    match found {
        Err(code) => Err(*code),
        Ok(None) => Err(ErrorCode::TotpNotExposable),
        Ok(Some(credential)) => {
            if credential.locked {
                return Err(ErrorCode::VaultLocked);
            }
            if !credential.totp_exposable {
                return Err(ErrorCode::TotpNotExposable);
            }
            match &credential.totp_seed {
                None => Err(ErrorCode::TotpNotExposable),
                Some(seed) => {
                    if log.is_paused(cred_id, now) {
                        return Err(ErrorCode::RateLimited);
                    }
                    let answer = totp(seed.as_str(), unix_time_secs);
                    log.record(cred_id, now);
                    Ok(answer)
                },
            }
        },
    }
}

/// No code of a credential that is not marked for it leaves the daemon, and
/// none of a locked vault.
pub proof fn law_codes_are_exposed_by_choice(
    credential: crate::credential::CredentialView,
    log: Map<Seq<char>, u64>,
    cred_id: Seq<char>,
    now: u64,
)
    ensures
        totp_rule(Ok(Some(credential)), log, cred_id, now) is Ok ==> credential.totp_exposable
            && !credential.locked && credential.totp_seed is Some,
{
}

/// A second code of a credential within half a minute is refused.
pub proof fn law_codes_are_rate_limited(
    found: Result<Option<crate::credential::CredentialView>, ErrorCode>,
    log: Map<Seq<char>, u64>,
    cred_id: Seq<char>,
    first: u64,
    second: u64,
)
    requires
        totp_rule(found, log, cred_id, first) is Ok,
        first <= second < first + TOTP_PAUSE,
    ensures
        totp_rule(found, log.insert(cred_id, first), cred_id, second) == Err::<
            Seq<char>,
            ErrorCode,
        >(ErrorCode::RateLimited),
{
}

// ---------------------------------------------------------------------------
// Answers
// ---------------------------------------------------------------------------

/// Answers a request for the state of the daemon.
pub fn status_answer(id: String, table: &SessionTable) -> (r: HandledRequest)
    ensures
        r.response.result matches Some(RpcResult::Status { browsers, leases }) && browsers
            == table@.len() && leases == crate::sessions::lease_count(table@) && r.succeeded(
            id@,
            RpcResult::Status { browsers, leases },
        ),
        r.audit_shared is None,
{
    let (browsers, leases) = table.counts();
    success(id, RpcResult::Status { browsers, leases })
}

/// Answers a login that is over; one that is not has no answer yet.
pub fn login_answer(id: String, action: LoginAction) -> (r: Option<HandledRequest>)
    ensures
        match action {
            LoginAction::Reject(code) => r matches Some(h) && h.failed(id@, code),
            LoginAction::StopAndReject(code) => r matches Some(h) && h.failed(id@, code),
            LoginAction::Joined(s) => r matches Some(h) && h.succeeded(
                id@,
                RpcResult::Session {
                    session_id: s.session_id,
                    target_id: s.target_id,
                    endpoint: s.endpoint,
                },
            ) && h.audit_shared == Some(true),
            LoginAction::Opened(s) => r matches Some(h) && h.succeeded(
                id@,
                RpcResult::Session {
                    session_id: s.session_id,
                    target_id: s.target_id,
                    endpoint: s.endpoint,
                },
            ) && h.audit_shared == Some(false),
            _ => r is None,
        },
{
    match action {
        LoginAction::Reject(code) => Some(classified(id, code)),
        LoginAction::StopAndReject(code) => Some(classified(id, code)),
        LoginAction::Joined(s) => {
            let mut handled = success(
                id,
                RpcResult::Session {
                    session_id: s.session_id,
                    target_id: s.target_id,
                    endpoint: s.endpoint,
                },
            );
            handled.audit_shared = Some(true);
            Some(handled)
        },
        LoginAction::Opened(s) => {
            let mut handled = success(
                id,
                RpcResult::Session {
                    session_id: s.session_id,
                    target_id: s.target_id,
                    endpoint: s.endpoint,
                },
            );
            handled.audit_shared = Some(false);
            Some(handled)
        },
        _ => None,
    }
}

/// Answers a logout: it succeeds for the owner and for a session that is not
/// alive, and a session of another principal does not seem to exist.
pub fn logout_answer(id: String, outcome: &LogoutOutcome) -> (r: HandledRequest)
    ensures
        match *outcome {
            LogoutOutcome::Unknown => r.succeeded(id@, RpcResult::Done),
            LogoutOutcome::NotOwner => r.failed(id@, ErrorCode::NotFound),
            LogoutOutcome::Released(_) => r.succeeded(id@, RpcResult::Done),
        },
        r.audit_shared is None,
{
    match outcome {
        LogoutOutcome::Unknown => success(id, RpcResult::Done),
        LogoutOutcome::NotOwner => classified(id, ErrorCode::NotFound),
        LogoutOutcome::Released(_) => success(id, RpcResult::Done),
    }
}

/// Answers a request for a code.
pub fn totp_handled(id: String, answer: Result<(String, u64), ErrorCode>) -> (r: HandledRequest)
    ensures
        match answer {
            Ok((code, expires_in)) => r.succeeded(id@, RpcResult::Totp { code, expires_in }),
            Err(e) => r.failed(id@, e),
        },
        r.audit_shared is None,
{
    match answer {
        Ok((code, expires_in)) => success(id, RpcResult::Totp { code, expires_in }),
        Err(e) => classified(id, e),
    }
}

/// Answers a request that has nothing to say but whether it succeeded.
pub fn done_handled(id: String, outcome: Result<(), ErrorCode>) -> (r: HandledRequest)
    ensures
        match outcome {
            Ok(()) => r.succeeded(id@, RpcResult::Done),
            Err(e) => r.failed(id@, e),
        },
        r.audit_shared is None,
{
    match outcome {
        Ok(()) => success(id, RpcResult::Done),
        Err(e) => classified(id, e),
    }
}

/// Answers a request for a new peer. Its token is shown this once.
pub fn issued_handled(id: String, issued: Result<IssuedPeer, ErrorCode>) -> (r: HandledRequest)
    ensures
        match issued {
            Ok(peer) => r.succeeded(
                id@,
                RpcResult::Issued { peer_id: peer.peer_id, token: peer.token },
            ),
            Err(e) => r.failed(id@, e),
        },
        r.audit_shared is None,
{
    match issued {
        Ok(peer) => success(id, RpcResult::Issued { peer_id: peer.peer_id, token: peer.token }),
        Err(e) => classified(id, e),
    }
}

/// Answers a request to revoke a peer, given whether there is one.
pub fn revoked_handled(id: String, found: Result<bool, ErrorCode>) -> (r: HandledRequest)
    ensures
        match found {
            Ok(true) => r.succeeded(id@, RpcResult::Done),
            Ok(false) => r.failed(id@, ErrorCode::NotFound),
            Err(e) => r.failed(id@, e),
        },
        r.audit_shared is None,
{
    match found {
        Ok(true) => success(id, RpcResult::Done),
        Ok(false) => classified(id, ErrorCode::NotFound),
        Err(e) => classified(id, e),
    }
}

/// The variables that describe a login to the approval command: references,
/// never values.
pub fn approval_env(params: &LoginParams, peer: &PeerIdentity) -> (r: Vec<(String, String)>)
    ensures
        r@.len() == 3,
        r@[0].0@ == "TEGATA_CRED_ID"@ && r@[0].1@ == params.cred_id@,
        r@[1].0@ == "TEGATA_TARGET_URL"@ && r@[1].1@ == params.target_url@,
        r@[2].0@ == "TEGATA_PEER"@ && r@[2].1@ == (match *peer {
            PeerIdentity::Uid(uid) => crate::text::decimal(uid as nat),
            _ => peer.name(),
        }),
{
    let mut env: Vec<(String, String)> = Vec::new();
    env.push(("TEGATA_CRED_ID".to_owned(), params.cred_id.clone()));
    env.push(("TEGATA_TARGET_URL".to_owned(), params.target_url.clone()));
    env.push(("TEGATA_PEER".to_owned(), peer.approval_name()));
    env
}

/// What is recorded of a call: its parameters, and of a login that succeeded
/// also the session and whether its browser is shared.
pub fn audit_of(request: &RpcRequest, handled: &HandledRequest) -> (fields: AuditFields)
    ensures
        ({
            let plain = crate::audit::fields_of(request.params);
            match handled.response.result {
                Some(RpcResult::Session { session_id, .. }) => if request.method@ == "login"@
                    && handled.outcome@ == "ok"@ {
                    fields@ == (crate::audit::FieldsView {
                        session_id: Some(session_id@),
                        shared: handled.audit_shared,
                        ..plain
                    })
                } else {
                    fields@ == plain
                },
                _ => fields@ == plain,
            }
        }),
{
    let mut fields = audit_fields(&request.params);
    match &handled.response.result {
        Some(RpcResult::Session { session_id, .. }) => {
            if same_text(request.method.as_str(), "login") && same_text(
                handled.outcome.as_str(),
                "ok",
            ) {
                fields.session_id = Some(session_id.clone());
                fields.shared = handled.audit_shared;
            }
        },
        _ => {},
    }
    fields
}

/// The catalog is extended by one entry for each credential, in order: under
/// its own name, with an id that names the namespace and the credential, and
/// with the namespace as its source. The address and the kind are shown exactly
/// while the vault is unlocked. What the catalog held before stays.
pub proof fn law_catalog_entries_show_their_credentials(
    catalog: &mut Vec<CatalogEntry>,
    namespace: &str,
    refs: &Vec<CredentialRef>,
    locked: bool,
    done: (),
    i: int,
)
    requires
        call_ensures(append_entries, (catalog, namespace, refs, locked), done),
        0 <= i < refs@.len(),
    ensures
        final(catalog)@.len() == old(catalog)@.len() + refs@.len(),
        forall|k: int|
            0 <= k < old(catalog)@.len() ==> (#[trigger] final(catalog)@[k])@ == old(catalog)@[k]@,
        ({
            let entry = final(catalog)@[old(catalog)@.len() + i];
            &&& entry.name@ == refs@[i].name@
            &&& entry.id@ == namespace@ + seq![':'] + refs@[i].id@
            &&& entry.source@ == namespace@
            &&& locked ==> entry.details is None
            &&& !locked ==> (entry.details matches Some((uri, kind)) && uri@ == (
            match refs@[i].uri {
                Some(text) => text@,
                None => seq![],
            }) && kind@ == (match refs@[i].kind {
                Some(text) => text@,
                None => seq![],
            }))
        }),
{
    reveal_strlit(":");
    assert(":"@ =~= seq![':']);
    let before = shown(old(catalog)@);
    let after = shown(final(catalog)@);
    let views = crate::credential::ref_views(refs@);
    let n = old(catalog)@.len();
    assert(after.len() == final(catalog)@.len());
    assert(before.len() == n);
    assert(views[i] == refs@[i]@);
    assert(after[n + i] == final(catalog)@[n + i]@);
    assert forall|k: int| 0 <= k < n implies (#[trigger] final(catalog)@[k])@ == old(catalog)@[k]@ by {
        assert(after[k] == before[k]);
        assert(before[k] == old(catalog)@[k]@);
    }
}

/// A request is about every vault of the namespace that it names, or about all
/// vaults where it names none, in the order of the configuration.
pub proof fn law_requests_pick_their_vaults(
    namespaces: &Vec<String>,
    requested: &Option<String>,
    picked: Vec<usize>,
    i: usize,
)
    requires
        call_ensures(selected_providers, (namespaces, requested), picked),
    ensures
        picked@.contains(i) <==> i < namespaces@.len() && (match *requested {
            Some(name) => namespaces@[i as int]@ == name@,
            None => true,
        }),
        forall|a: int, b: int|
            0 <= a < b < picked@.len() ==> (#[trigger] picked@[a]) < (#[trigger] picked@[b]),
{
    let views = crate::text::texts(namespaces@);
    let wanted = crate::text::opt_text(*requested);
    let chosen = selection(views, wanted, namespaces@.len());
    let ints = picked@.map_values(|i: usize| i as int);
    lemma_selection(views, wanted, namespaces@.len(), i as int);
    assert(ints == chosen);
    if i < namespaces@.len() {
        assert(views[i as int] == namespaces@[i as int]@);
    }
    if picked@.contains(i) {
        let k = choose|k: int| 0 <= k < picked@.len() && picked@[k] == i;
        assert(ints[k] == i);
    }
    if chosen.contains(i as int) {
        let k = choose|k: int| 0 <= k < chosen.len() && chosen[k] == i as int;
        assert(ints[k] == picked@[k] as int);
        assert(picked@[k] == i);
    }
    assert forall|a: int, b: int| 0 <= a < b < picked@.len() implies (#[trigger] picked@[a]) < (
    #[trigger] picked@[b]) by {
        assert(ints[a] == picked@[a] && ints[b] == picked@[b]);
        assert(chosen[a] < chosen[b]);
    }
}

/// Which positions a selection holds.
pub proof fn lemma_selection(
    namespaces: Seq<Seq<char>>,
    requested: Option<Seq<char>>,
    n: nat,
    i: int,
)
    ensures
        selection(namespaces, requested, n).contains(i) <==> 0 <= i < n && (requested is None
            || requested == Some(namespaces[i])),
        forall|k: int|
            0 <= k < selection(namespaces, requested, n).len() ==> 0 <= #[trigger] selection(
                namespaces,
                requested,
                n,
            )[k] < n,
        forall|a: int, b: int|
            0 <= a < b < selection(namespaces, requested, n).len() ==> (#[trigger] selection(
                namespaces,
                requested,
                n,
            )[a]) < (#[trigger] selection(namespaces, requested, n)[b]),
    decreases n,
{
    if n > 0 {
        let m = (n - 1) as nat;
        lemma_selection(namespaces, requested, m, i);
        let before = selection(namespaces, requested, m);
        let after = selection(namespaces, requested, n);
        if before.contains(i) {
            let k = choose|k: int| 0 <= k < before.len() && before[k] == i;
            assert(after[k] == i);
        }
        if after.contains(i) {
            let k = choose|k: int| 0 <= k < after.len() && after[k] == i;
            if k < before.len() {
                assert(before[k] == i);
            }
        }
        if i == n - 1 && (requested is None || requested == Some(namespaces[i])) {
            assert(after[after.len() - 1] == i);
        }
    }
}

/// A credential id is taken apart into the first vault of its namespace and an
/// entry of it, and put together again they are the id.
pub proof fn law_ids_lead_to_their_vault(
    cred_id: &str,
    namespaces: &Vec<String>,
    target: Option<(usize, String)>,
    namespace: Seq<char>,
    entry: Seq<char>,
)
    requires
        call_ensures(credential_target, (cred_id, namespaces), target),
        !namespace.contains(':'),
    ensures
        target matches Some((at, id)) ==> at < namespaces@.len() && cred_id@
            == namespaces@[at as int]@ + seq![':'] + id@ && (forall|k: int|
            0 <= k < at ==> (#[trigger] namespaces@[k])@ != namespaces@[at as int]@),
        cred_id@ == namespace + seq![':'] + entry ==> match target {
            Some((at, id)) => namespaces@[at as int]@ == namespace && id@ == entry,
            None => forall|k: int|
                0 <= k < namespaces@.len() ==> (#[trigger] namespaces@[k])@ != namespace,
        },
        !cred_id@.contains(':') ==> target is None,
{
    let views = crate::text::texts(namespaces@);
    assert forall|k: int| 0 <= k < namespaces@.len() implies #[trigger] namespaces@[k]@
        == views[k] by {}
    crate::text::lemma_split_first(cred_id@, ':');
    match crate::text::split_first(cred_id@, ':') {
        Some((ns, id)) => {
            lemma_provider_of(views, ns);
            assert(ns.push(':') + id =~= ns + seq![':'] + id);
        },
        None => {},
    }
    if cred_id@ == namespace + seq![':'] + entry {
        assert(namespace + seq![':'] + entry =~= namespace.push(':') + entry);
        crate::text::lemma_split_first_unique(namespace, ':', entry);
    }
}

proof fn lemma_provider_of(namespaces: Seq<Seq<char>>, name: Seq<char>)
    ensures
        match provider_of(namespaces, name) {
            Some(i) => 0 <= i < namespaces.len() && namespaces[i] == name && forall|k: int|
                0 <= k < i ==> #[trigger] namespaces[k] != name,
            None => forall|k: int| 0 <= k < namespaces.len() ==> #[trigger] namespaces[k] != name,
        },
    decreases namespaces.len(),
{
    if namespaces.len() > 0 {
        let rest = namespaces.drop_last();
        lemma_provider_of(rest, name);
        assert forall|k: int| 0 <= k < rest.len() implies #[trigger] namespaces[k] == rest[k] by {}
    }
}

/// A code is handed out for a credential that is unlocked, marked for it and
/// has a seed: the code of that seed at that time. It is refused where one was
/// handed out within the last half minute, for that credential and no other,
/// and every other refusal says why.
pub proof fn law_codes_are_handed_out(
    log: &mut TotpLog,
    cred_id: &str,
    found: &Result<Option<ResolvedCredential>, ErrorCode>,
    now: u64,
    unix_time_secs: u64,
    answer: Result<(String, u64), ErrorCode>,
    seed: &str,
    code: (String, u64),
)
    requires
        call_ensures(totp_answer, (log, cred_id, found, now, unix_time_secs), answer),
        call_ensures(totp, (seed, unix_time_secs), code),
    ensures
        *found matches Err(error) ==> answer == Err::<(String, u64), ErrorCode>(error),
        *found matches Ok(None) ==> answer == Err::<(String, u64), ErrorCode>(
            ErrorCode::TotpNotExposable,
        ),
        *found matches Ok(Some(c)) && c.locked ==> answer == Err::<(String, u64), ErrorCode>(
            ErrorCode::VaultLocked,
        ),
        *found matches Ok(Some(c)) && !c.locked && (!c.totp_exposable || c.totp_seed is None)
            ==> answer == Err::<(String, u64), ErrorCode>(ErrorCode::TotpNotExposable),
        *found matches Ok(Some(c)) && !c.locked && c.totp_exposable && (c.totp_seed matches Some(
            s,
        ) && s@ == seed@) ==> if old(log)@.contains_key(cred_id@) && now - old(log)@[cred_id@]
            < 30_000_000_000 {
            answer == Err::<(String, u64), ErrorCode>(ErrorCode::RateLimited)
        } else {
            answer matches Ok((text, expires_in)) && text@ == code.0@ && expires_in == code.1
        },
        answer is Ok ==> final(log)@ == old(log)@.insert(cred_id@, now),
        answer is Err ==> final(log)@ == old(log)@,
{
}

/// Every method of the allowlist has its own handler, for a peer with the
/// rights to it: one of the ordinary methods for whoever may use the daemon,
/// and the administrative methods for root, an operator, or an elevated
/// administrator. Others are refused, and told no more.
pub proof fn law_methods_have_their_handlers(
    request: &RpcRequest,
    peer: &PeerIdentity,
    allowed_uids: &[u32],
    operator_uids: &[u32],
    platform: Platform,
    to: Route,
)
    requires
        call_ensures(route, (request, peer, allowed_uids, operator_uids, platform), to),
        request.jsonrpc@ == "2.0"@,
    ensures
        ({
            let normal = match *peer {
                PeerIdentity::Uid(uid) => allowed_uids@.contains(uid),
                PeerIdentity::Sid { normal_allowed, .. } => normal_allowed,
                PeerIdentity::Peer { .. } => true,
                PeerIdentity::System => false,
            };
            let admin = match *peer {
                PeerIdentity::Uid(uid) => uid == 0 || operator_uids@.contains(uid),
                PeerIdentity::Sid { elevated, administrator, .. } => elevated && administrator,
                _ => false,
            };
            let ordinary = |method: Seq<char>, handler: Route|
                request.method@ == method ==> to == if normal {
                    handler
                } else {
                    Route::Reject(ErrorCode::Unauthorized)
                };
            let administrative = |method: Seq<char>, handler: Route|
                request.method@ == method ==> to == if admin {
                    handler
                } else {
                    Route::Reject(ErrorCode::AdminRequired)
                };
            &&& ordinary("status"@, Route::Status)
            &&& ordinary("list_credentials"@, Route::ListCredentials)
            &&& ordinary("login"@, Route::Login)
            &&& ordinary("logout"@, Route::Logout)
            &&& ordinary("get_totp"@, Route::GetTotp)
            &&& ordinary("lock_vault"@, Route::LockVault)
            &&& administrative("admin_peer_issue"@, Route::PeerIssue)
            &&& administrative("admin_peer_revoke"@, Route::PeerRevoke)
            &&& administrative("admin_peer_list"@, Route::PeerList)
            &&& administrative("admin_token_issue"@, Route::TokenIssue)
            &&& platform is Windows ==> administrative("admin_seal"@, Route::Seal)
            &&& !(platform is Windows) ==> administrative("admin_seal"@, Route::MethodNotFound)
        }),
{
    lemma_ordinary_methods();
    lemma_administrative_methods();
}

proof fn lemma_ordinary_methods()
    ensures
        !"admin_"@.is_prefix_of("status"@),
        !"admin_"@.is_prefix_of("list_credentials"@),
        !"admin_"@.is_prefix_of("login"@),
        !"admin_"@.is_prefix_of("logout"@),
        !"admin_"@.is_prefix_of("get_totp"@),
        !"admin_"@.is_prefix_of("lock_vault"@),
        "list_credentials"@ != "status"@,
        "login"@ != "status"@,
        "login"@ != "list_credentials"@,
        "logout"@ != "status"@,
        "logout"@ != "list_credentials"@,
        "logout"@ != "login"@,
        "get_totp"@ != "status"@,
        "get_totp"@ != "list_credentials"@,
        "get_totp"@ != "login"@,
        "get_totp"@ != "logout"@,
        "lock_vault"@ != "status"@,
        "lock_vault"@ != "list_credentials"@,
        "lock_vault"@ != "login"@,
        "lock_vault"@ != "logout"@,
        "lock_vault"@ != "get_totp"@,
{
    reveal_strlit("admin_");
    reveal_strlit("status");
    reveal_strlit("list_credentials");
    reveal_strlit("login");
    reveal_strlit("logout");
    reveal_strlit("get_totp");
    reveal_strlit("lock_vault");
    assert("admin_"@[0] == 'a' && "status"@[0] == 's' && "list_credentials"@[0] == 'l'
        && "login"@[0] == 'l' && "logout"@[0] == 'l' && "get_totp"@[0] == 'g' && "lock_vault"@[0]
        == 'l');
    assert("status"@.len() == 6 && "list_credentials"@.len() == 16 && "login"@.len() == 5
        && "logout"@.len() == 6 && "get_totp"@.len() == 8 && "lock_vault"@.len() == 10);
}

proof fn lemma_administrative_methods()
    ensures
        "admin_"@.is_prefix_of("admin_peer_issue"@),
        "admin_"@.is_prefix_of("admin_peer_revoke"@),
        "admin_"@.is_prefix_of("admin_peer_list"@),
        "admin_"@.is_prefix_of("admin_token_issue"@),
        "admin_"@.is_prefix_of("admin_seal"@),
        "admin_peer_revoke"@ != "admin_peer_issue"@,
        "admin_peer_list"@ != "admin_peer_issue"@,
        "admin_peer_list"@ != "admin_peer_revoke"@,
        "admin_token_issue"@ != "admin_peer_issue"@,
        "admin_token_issue"@ != "admin_peer_revoke"@,
        "admin_token_issue"@ != "admin_peer_list"@,
        "admin_seal"@ != "admin_peer_issue"@,
        "admin_seal"@ != "admin_peer_revoke"@,
        "admin_seal"@ != "admin_peer_list"@,
        "admin_seal"@ != "admin_token_issue"@,
{
    reveal_strlit("admin_");
    reveal_strlit("admin_peer_issue");
    reveal_strlit("admin_peer_revoke");
    reveal_strlit("admin_peer_list");
    reveal_strlit("admin_token_issue");
    reveal_strlit("admin_seal");
    assert("admin_token_issue"@[6] == 't' && "admin_peer_revoke"@[6] == 'p');
    assert("admin_peer_issue"@.len() == 16 && "admin_peer_revoke"@.len() == 17
        && "admin_peer_list"@.len() == 15 && "admin_token_issue"@.len() == 17
        && "admin_seal"@.len() == 10);
}

/// A login that is over is answered with the session, the tab and the endpoint
/// that it came to, or with its code; the record says whether the browser was
/// shared.
pub proof fn law_logins_are_answered(
    id: String,
    action: LoginAction,
    answer: Option<HandledRequest>,
)
    requires
        call_ensures(login_answer, (id, action), answer),
    ensures
        answer matches Some(handled) ==> handled.response.id@ == id@ && handled.response.jsonrpc@
            == "2.0"@,
        (action is Opened || action is Joined) ==> {
            let session = match action {
                LoginAction::Opened(s) => s,
                LoginAction::Joined(s) => s,
                _ => arbitrary(),
            };
            &&& answer matches Some(handled)
            &&& handled.response.error is None
            &&& handled.response.result matches Some(
                RpcResult::Session { session_id, target_id, endpoint },
            )
            &&& session_id@ == session.session_id@
            &&& target_id@ == session.target_id@
            &&& endpoint@ == session.endpoint@
            &&& handled.outcome@ == "ok"@
            &&& handled.audit_shared == Some(action is Joined)
        },
        (action is Reject || action is StopAndReject) ==> {
            let code = match action {
                LoginAction::Reject(code) => code,
                LoginAction::StopAndReject(code) => code,
                _ => arbitrary(),
            };
            &&& answer matches Some(handled)
            &&& handled.response.result is None
            &&& handled.response.error matches Some(error)
            &&& error.code == -32000
            &&& error.message@ == code.text()
            &&& handled.outcome@ == code.text()
            &&& handled.audit_shared is None
        },
        !(action is Opened || action is Joined || action is Reject || action is StopAndReject)
            ==> answer is None,
{
}

/// A logout is answered as done by the owner and for a session that is not
/// alive, and as not found by anybody else.
pub proof fn law_logouts_are_answered(
    id: String,
    outcome: &LogoutOutcome,
    answer: HandledRequest,
)
    requires
        call_ensures(logout_answer, (id, outcome), answer),
    ensures
        answer.response.id@ == id@,
        *outcome is NotOwner <==> answer.response.error is Some,
        *outcome is NotOwner ==> answer.response.error->0.message@ == "NOT_FOUND"@
            && answer.response.result is None && answer.outcome@ == "NOT_FOUND"@,
        !(*outcome is NotOwner) ==> answer.response.result == Some(RpcResult::Done)
            && answer.outcome@ == "ok"@,
{
}

/// The approval command is told who logs in, with which credential, and where,
/// and nothing else.
pub proof fn law_approvals_name_the_login(
    params: &LoginParams,
    peer: &PeerIdentity,
    told: Vec<(String, String)>,
    name: Seq<char>,
    value: Seq<char>,
)
    requires
        call_ensures(approval_env, (params, peer), told),
    ensures
        (exists|i: int|
            0 <= i < told@.len() && (#[trigger] told@[i]).0@ == name && told@[i].1@ == value) <==> {
            ||| name == "TEGATA_CRED_ID"@ && value == params.cred_id@
            ||| name == "TEGATA_TARGET_URL"@ && value == params.target_url@
            ||| name == "TEGATA_PEER"@ && value == (match *peer {
                PeerIdentity::Uid(uid) => crate::text::decimal(uid as nat),
                PeerIdentity::Sid { sid, .. } => "sid:"@ + sid@,
                PeerIdentity::Peer { peer_id, .. } => "peer:"@ + peer_id@,
                PeerIdentity::System => "system"@,
            })
        },
{
    assert(told@[0].0@ == "TEGATA_CRED_ID"@);
    assert(told@[1].0@ == "TEGATA_TARGET_URL"@);
    assert(told@[2].0@ == "TEGATA_PEER"@);
}

/// Every answer carries the id of its request, and either the result or the
/// code of the error, which is also what is recorded.
pub proof fn law_answers_carry_their_request(
    id: String,
    result: RpcResult,
    code: ErrorCode,
    good: HandledRequest,
    bad: HandledRequest,
    response: RpcResponse,
    unknown: HandledRequest,
    unread: HandledRequest,
    text: &'static str,
)
    requires
        call_ensures(success, (id, result), good),
        call_ensures(classified, (id, code), bad),
        call_ensures(error_response, (id, code), response),
        call_ensures(method_not_found, (id,), unknown),
        call_ensures(unreadable_request, (), unread),
        call_ensures(ErrorCode::as_str, (code,), text),
    ensures
        good.response.id@ == id@ && good.response.result == Some(result) && good.response.error
            is None && good.outcome@ == "ok"@ && good.audit_shared is None,
        bad.response.id@ == id@ && bad.response.result is None && bad.response.error is Some
            && bad.audit_shared is None,
        (bad.response.error->0).code == -32000 && (bad.response.error->0).message@ == text@
            && bad.outcome@ == text@,
        response.id@ == id@ && response.result is None && response.error is Some,
        (response.error->0).code == -32000 && (response.error->0).message@ == text@,
        unknown.response.id@ == id@ && unknown.response.result is None && unknown.response.error
            is Some,
        (unknown.response.error->0).code == -32601 && unknown.outcome@ == "method_not_found"@,
        unread.response.id@ == "null"@ && unread.response.result is None && unread.outcome@
            == "INTERNAL"@,
        good.response.jsonrpc@ == "2.0"@ && bad.response.jsonrpc@ == "2.0"@,
{
}

/// What a handler came to is what is answered: a code with its time, a new peer
/// with its token, that it is done, or the error; a peer that nobody knows is
/// not found.
pub proof fn law_outcomes_are_answered(
    id: String,
    totp: Result<(String, u64), ErrorCode>,
    of_totp: HandledRequest,
    done: Result<(), ErrorCode>,
    of_done: HandledRequest,
    issued: Result<IssuedPeer, ErrorCode>,
    of_issued: HandledRequest,
    found: Result<bool, ErrorCode>,
    of_revoked: HandledRequest,
)
    requires
        call_ensures(totp_handled, (id, totp), of_totp),
        call_ensures(done_handled, (id, done), of_done),
        call_ensures(issued_handled, (id, issued), of_issued),
        call_ensures(revoked_handled, (id, found), of_revoked),
    ensures
        of_totp.response.id@ == id@ && of_done.response.id@ == id@ && of_issued.response.id@ == id@
            && of_revoked.response.id@ == id@,
        totp matches Ok((code, expires_in)) ==> of_totp.outcome@ == "ok"@
            && of_totp.response.result == Some(RpcResult::Totp { code, expires_in }),
        totp matches Err(e) ==> of_totp.response.result is None && of_totp.outcome@ == e.text(),
        done is Ok ==> of_done.outcome@ == "ok"@ && of_done.response.result == Some(
            RpcResult::Done,
        ),
        done matches Err(e) ==> of_done.response.result is None && of_done.outcome@ == e.text(),
        issued matches Ok(peer) ==> of_issued.outcome@ == "ok"@ && of_issued.response.result == Some(
            RpcResult::Issued { peer_id: peer.peer_id, token: peer.token },
        ),
        issued matches Err(e) ==> of_issued.response.result is None && of_issued.outcome@
            == e.text(),
        found matches Ok(true) ==> of_revoked.outcome@ == "ok"@ && of_revoked.response.result
            == Some(RpcResult::Done),
        found matches Ok(false) ==> of_revoked.response.result is None && of_revoked.outcome@
            == "NOT_FOUND"@,
        found matches Err(e) ==> of_revoked.response.result is None && of_revoked.outcome@
            == e.text(),
{
}

/// The status tells how many browsers there are, and how many sessions.
pub proof fn law_statuses_count_browsers_and_sessions(
    id: String,
    table: &SessionTable,
    handled: HandledRequest,
)
    requires
        call_ensures(status_answer, (id, table), handled),
    ensures
        handled.response.id@ == id@ && handled.outcome@ == "ok"@,
        handled.response.result matches Some(RpcResult::Status { browsers, leases }) && browsers
            == table@.len() && leases == crate::sessions::lease_count(table@),
{
}

/// A parameter that a request needs is the text that it gives; the namespace
/// may be missing or null, but nothing else than a text.
pub proof fn law_parameters_are_checked(
    params: &Params,
    key: &str,
    given: Option<String>,
    required: Result<String, ErrorCode>,
    namespace: Result<Option<String>, ErrorCode>,
    value: Option<&crate::wire::ParamValue>,
    name: &str,
)
    requires
        call_ensures(Params::get_text, (params, key), given),
        call_ensures(required_string_param, (params, key), required),
        call_ensures(optional_namespace, (params,), namespace),
        name@ == "namespace"@,
        call_ensures(Params::get, (params, name), value),
    ensures
        given matches Some(text) ==> (required matches Ok(t) && t@ == text@),
        given is None ==> required == Err::<String, ErrorCode>(ErrorCode::Internal),
        value is None ==> (namespace matches Ok(n) && n is None),
        value matches Some(v) ==> match *v {
            crate::wire::ParamValue::Null => namespace matches Ok(n) && n is None,
            crate::wire::ParamValue::Text(text) => namespace matches Ok(n) && n is Some && n->0@
                == text@,
            crate::wire::ParamValue::Other => namespace is Err && namespace->Err_0 is Internal,
        },
{
}

/// A credential whose code was handed out is paused for half a minute, and no
/// other credential is.
pub proof fn law_codes_pause_their_own_credential(
    log: &mut TotpLog,
    done: (),
    cred_id: &str,
    other: &str,
    at: u64,
    now: u64,
    before: bool,
    after: bool,
    own: bool,
)
    requires
        call_ensures(TotpLog::record, (log, cred_id, at), done),
        call_ensures(TotpLog::is_paused, (&*final(log), cred_id, now), own),
        other@ != cred_id@,
        call_ensures(TotpLog::is_paused, (&*old(log), other, now), before),
        call_ensures(TotpLog::is_paused, (&*final(log), other, now), after),
    ensures
        own <==> now - at < 30_000_000_000,
        after == before,
{
}

/// A login that opened a session is recorded with the session and whether its
/// browser is shared; any other request with the references that it names.
pub proof fn law_opened_sessions_are_recorded(
    request: &RpcRequest,
    handled: &HandledRequest,
    recorded: AuditFields,
    named: AuditFields,
)
    requires
        call_ensures(audit_of, (request, handled), recorded),
        call_ensures(audit_fields, (&request.params,), named),
    ensures
        crate::text::opt_text(recorded.cred_id) == crate::text::opt_text(named.cred_id),
        crate::text::opt_text(recorded.target_url) == crate::text::opt_text(named.target_url),
        crate::text::opt_text(recorded.namespace) == crate::text::opt_text(named.namespace),
        request.method@ == "login"@ && handled.outcome@ == "ok"@ ==> (
        handled.response.result matches Some(RpcResult::Session { session_id, .. })
            ==> recorded.session_id is Some && recorded.session_id->0@ == session_id@
            && recorded.shared == handled.audit_shared),
        request.method@ != "login"@ || handled.outcome@ != "ok"@ ==> crate::text::opt_text(
            recorded.session_id,
        ) == crate::text::opt_text(named.session_id),
{
    let r = recorded@;
    let n = named@;
    assert(r.cred_id == n.cred_id);
    assert(r.target_url == n.target_url);
    assert(r.namespace == n.namespace);
}

} // verus!
