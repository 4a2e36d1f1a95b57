//! Wire types shared by the daemon and its clients.

use vstd::prelude::*;
use vstd::string::*;

use crate::encoding::{is_encodable, json_text};
use crate::text::{decimal_text, join3, same_text};

verus! {

/// A parameter of a request, as far as the daemon looks at it itself.
#[derive(Debug)]
pub enum ParamValue {
    Null,
    Text(String),
    /// A number, a boolean, an array or an object.
    Other,
}

/// The parameters of a request.
#[derive(Debug)]
pub enum Params {
    Null,
    /// An object, by its members. No name occurs twice.
    Fields(Vec<(String, ParamValue)>),
    /// Neither null nor an object.
    Other,
}

/// One request. The id is kept as the JSON text that the client sent.
#[derive(Debug)]
pub struct RpcRequest {
    pub jsonrpc: String,
    pub id: String,
    pub method: String,
    pub params: Params,
}

/// A credential as the catalog shows it: never more than metadata.
#[derive(Debug)]
pub struct CatalogEntry {
    pub id: String,
    pub name: String,
    /// The address and the kind, which a locked vault does not show.
    pub details: Option<(String, String)>,
    pub source: String,
}

/// A peer as the administrator sees it.
#[derive(Debug)]
pub struct PeerSummary {
    pub peer_id: String,
    pub label: String,
    pub issued_at: String,
    pub revoked_at: Option<String>,
}

/// What a request that succeeded is answered.
#[derive(Debug)]
pub enum RpcResult {
    /// Nothing but that it succeeded.
    Done,
    Status { browsers: usize, leases: u128 },
    Catalog(Vec<CatalogEntry>),
    Session { session_id: String, target_id: String, endpoint: String },
    Totp { code: String, expires_in: u64 },
    Issued { peer_id: String, token: String },
    Peers(Vec<PeerSummary>),
    Tunnel { local_port: u16 },
}

/// One response: a result or an error, never both.
#[derive(Debug)]
pub struct RpcResponse {
    pub jsonrpc: &'static str,
    pub id: String,
    pub result: Option<RpcResult>,
    pub error: Option<RpcError>,
}

/// Why a request failed.
#[derive(Debug)]
pub struct RpcError {
    pub code: i32,
    pub message: String,
}

/// Parameters of a login request.
#[derive(Debug)]
pub struct LoginParams {
    pub cred_id: String,
    pub target_url: String,
    pub steps: Option<Vec<LoginStep>>,
    pub success_selector: Option<String>,
    pub failure_selector: Option<String>,
}

/// One step of a scripted login.
#[derive(Debug)]
pub struct LoginStep {
    pub action: String,
    pub selector: String,
    pub value: Option<String>,
}

/// First message to an executor behind a socket.
#[derive(Debug)]
pub struct ExecutorHelloRequest {
    pub op: &'static str,
}

/// What an executor behind a socket says of itself.
#[derive(Debug)]
pub struct ExecutorHelloResponse {
    pub ok: bool,
    pub uid: Option<u32>,
    pub pid: u32,
}

/// Login request written as one JSON line to the executor sidecar.
///
/// The sidecar is started as `node <executor_entry>` and receives secrets only
/// through this stdin message, never through argv or environment variables.
/// The response is either `{"ok":true,"endpoint":"ws://..."}` or
/// `{"ok":false,"error":"<classification code>"}`.
pub struct ExecutorLoginRequest {
    pub op: &'static str,
    pub id: u64,
    pub target_url: String,
    pub steps: Option<Vec<LoginStep>>,
    pub success_selector: Option<String>,
    pub failure_selector: Option<String>,
    pub secret: ExecutorSecret,
}

/// The values that an executor types.
pub struct ExecutorSecret {
    pub username: String,
    pub password: String,
    pub totp: Option<String>,
}

/// Executor response returned as one JSON line after a login attempt. A
/// successful response contains a browser endpoint; a failed response carries
/// a classification code.
#[derive(Debug)]
pub struct ExecutorResponse {
    pub id: Option<u64>,
    pub ok: bool,
    pub endpoint: Option<String>,
    pub error: Option<String>,
    pub target_id: Option<String>,
}

/// Asks an executor for a new tab.
#[derive(Debug)]
pub struct ExecutorLeaseRequest {
    pub op: &'static str,
    pub id: u64,
}

/// Asks an executor to close a tab.
#[derive(Debug)]
pub struct ExecutorReleaseRequest {
    pub op: &'static str,
    pub id: u64,
    pub target_id: String,
}

/// What an executor answers to a lease or a release.
#[derive(Debug)]
pub struct ExecutorLeaseResponse {
    pub id: Option<u64>,
    pub ok: bool,
    pub target_id: Option<String>,
    pub error: Option<String>,
}

/// Preamble version understood by this build.
pub const PREAMBLE_VERSION: u32 = 1;

/// First line a client writes on a transport that authenticates by token
/// instead of by operating system peer credentials.
///
/// Without `tunnel` the connection continues as JSON-RPC, in the same wire
/// format as the UNIX domain socket transport, and the daemon stays silent on
/// success. With `tunnel` the daemon answers `{"ok":true}` and then splices
/// the connection to the requested loopback port on its own side.
///
/// The `auth` token is plain text on the wire. A daemon must compare it
/// against the stored hash and drop it immediately; it must never be logged.
pub struct Preamble {
    pub v: u32,
    pub auth: String,
    pub tunnel: Option<PreambleTunnel>,
}

impl Preamble {
    /// The preamble as it may be shown: the token is replaced.
    pub fn redacted(&self) -> (shown: Preamble)
        ensures
            shown.v == self.v,
            shown.auth@ == "<redacted>"@,
            match (shown.tunnel, self.tunnel) {
                (Some(a), Some(b)) => a.session_id@ == b.session_id@ && a.port == b.port,
                (None, None) => true,
                _ => false,
            },
    {
        let tunnel = match &self.tunnel {
            Some(tunnel) => Some(
                PreambleTunnel { session_id: tunnel.session_id.clone(), port: tunnel.port },
            ),
            None => None,
        };
        Preamble { v: self.v, auth: "<redacted>".to_owned(), tunnel }
    }

    /// The texts of the preamble can be written as JSON strings.
    pub open spec fn writable(self) -> bool {
        &&& crate::encoding::encodable(self.auth@)
        &&& (self.tunnel matches Some(tunnel) ==> crate::encoding::encodable(tunnel.session_id@))
    }

    /// The preamble as it stands on the wire, without the line feed.
    pub open spec fn text(self) -> Seq<char> {
        "{\"v\":"@ + crate::text::decimal(self.v as nat) + ",\"auth\":"@
            + crate::encoding::json_string(self.auth@) + (match self.tunnel {
            Some(tunnel) => tunnel_member(tunnel.session_id@, tunnel.port),
            None => seq![],
        }) + "}"@
    }

    fn is_writable(&self) -> (r: bool)
        ensures
            r == self.writable(),
    {
        let tunnel = match &self.tunnel {
            Some(tunnel) => is_encodable(tunnel.session_id.as_str()),
            None => true,
        };
        tunnel && is_encodable(self.auth.as_str())
    }

    /// The preamble as it stands on the wire, without the line feed; nothing
    /// where it does not fit in memory.
    pub fn line(&self) -> (r: Option<String>)
        ensures
            match r {
                Some(line) => self.writable() && line@ == self.text(),
                None => !self.writable(),
            },
    {
        if !self.is_writable() {
            return None;
        }
        let mut line = join3("{\"v\":", decimal_text(self.v as u64).as_str(), ",\"auth\":");
        line.append(json_text(&self.auth).as_str());
        match &self.tunnel {
            Some(tunnel) => {
                let ghost before = line@;
                line.append(",\"tunnel\":{\"session_id\":");
                line.append(json_text(&tunnel.session_id).as_str());
                line.append(",\"port\":");
                line.append(decimal_text(tunnel.port as u64).as_str());
                line.append("}");
                assert(line@ =~= before + tunnel_member(tunnel.session_id@, tunnel.port));
            },
            None => {
                assert(line@ =~= line@ + seq![]);
            },
        }
        line.append("}");
        Some(line)
    }
}

/// A tunnel request as a member of the preamble.
pub open spec fn tunnel_member(session_id: Seq<char>, port: u16) -> Seq<char> {
    ",\"tunnel\":{\"session_id\":"@ + crate::encoding::json_string(session_id) + ",\"port\":"@
        + crate::text::decimal(port as nat) + "}"@
}

/// A preamble takes one line, whatever the token and the session are.
pub proof fn law_preambles_take_one_line(preamble: Preamble)
    ensures
        crate::encoding::one_line(preamble.text()),
{
    reveal_strlit("{\"v\":");
    reveal_strlit(",\"auth\":");
    reveal_strlit(",\"tunnel\":{\"session_id\":");
    reveal_strlit(",\"port\":");
    reveal_strlit("}");
    let v = crate::text::decimal(preamble.v as nat);
    let auth = crate::encoding::json_string(preamble.auth@);
    crate::encoding::lemma_decimal_is_one_line(preamble.v as nat);
    crate::encoding::law_json_strings_are_one_line(preamble.auth@);
    crate::encoding::lemma_one_line_add("{\"v\":"@, v);
    crate::encoding::lemma_one_line_add("{\"v\":"@ + v, ",\"auth\":"@);
    crate::encoding::lemma_one_line_add("{\"v\":"@ + v + ",\"auth\":"@, auth);
    let start = "{\"v\":"@ + v + ",\"auth\":"@ + auth;
    let member = match preamble.tunnel {
        Some(tunnel) => tunnel_member(tunnel.session_id@, tunnel.port),
        None => Seq::<char>::empty(),
    };
    match preamble.tunnel {
        Some(tunnel) => {
            let id = crate::encoding::json_string(tunnel.session_id@);
            let port = crate::text::decimal(tunnel.port as nat);
            let a = ",\"tunnel\":{\"session_id\":"@ + id;
            crate::encoding::law_json_strings_are_one_line(tunnel.session_id@);
            crate::encoding::lemma_decimal_is_one_line(tunnel.port as nat);
            crate::encoding::lemma_one_line_add(",\"tunnel\":{\"session_id\":"@, id);
            crate::encoding::lemma_one_line_add(a, ",\"port\":"@);
            crate::encoding::lemma_one_line_add(a + ",\"port\":"@, port);
            crate::encoding::lemma_one_line_add(a + ",\"port\":"@ + port, "}"@);
        },
        None => {},
    }
    crate::encoding::lemma_one_line_add(start, member);
    crate::encoding::lemma_one_line_add(start + member, "}"@);
}

/// Tunnel request carried by a preamble. The port must be the CDP port of the
/// named active session; any other port is refused.
#[derive(Debug)]
pub struct PreambleTunnel {
    pub session_id: String,
    pub port: u16,
}

/// Preamble reply written as one JSON line. It is emitted only when a tunnel
/// is accepted (`{"ok":true}`) or when the preamble is refused
/// (`{"ok":false,"error":"<code>"}`); accepting an RPC connection is silent.
#[derive(Debug)]
pub struct PreambleResponse {
    pub ok: bool,
    pub error: Option<String>,
}

impl PreambleResponse {
    /// Reply that accepts a tunnel request.
    pub fn accepted() -> (r: Self)
        ensures
            r.ok,
            r.error is None,
    {
        Self { ok: true, error: None }
    }

    /// Reply that refuses a preamble with a transport-level error code.
    pub fn refused(error: PreambleError) -> (r: Self)
        ensures
            !r.ok,
            r.error matches Some(code) && code@ == error.text(),
    {
        Self { ok: false, error: Some(error.as_str().to_owned()) }
    }

    /// The reply can be written as JSON.
    pub open spec fn writable(self) -> bool {
        self.error matches Some(error) ==> crate::encoding::encodable(error@)
    }

    /// The reply as it stands on the wire, without the line feed.
    pub open spec fn text(self) -> Seq<char> {
        (if self.ok {
            "{\"ok\":true"@
        } else {
            "{\"ok\":false"@
        }) + (match self.error {
            Some(error) => ",\"error\":"@ + crate::encoding::json_string(error@),
            None => seq![],
        }) + "}"@
    }

    /// The reply as it stands on the wire, without the line feed; nothing
    /// where it does not fit in memory.
    pub fn line(&self) -> (r: Option<String>)
        ensures
            match r {
                Some(line) => self.writable() && line@ == self.text(),
                None => !self.writable(),
            },
    {
        match &self.error {
            Some(error) => {
                if !is_encodable(error.as_str()) {
                    return None;
                }
            },
            None => {},
        }
        let mut line = if self.ok {
            "{\"ok\":true".to_owned()
        } else {
            "{\"ok\":false".to_owned()
        };
        match &self.error {
            Some(error) => {
                let ghost before = line@;
                line.append(",\"error\":");
                line.append(json_text(error).as_str());
                assert(line@ =~= before + (",\"error\":"@ + crate::encoding::json_string(error@)));
            },
            None => {
                assert(line@ =~= line@ + seq![]);
            },
        }
        line.append("}");
        Some(line)
    }
}

/// Transport level failures of the preamble exchange. These are distinct from
/// the JSON-RPC classification codes and never reach the RPC layer.
#[derive(Clone, Copy, Debug, PartialEq, Eq, Structural)]
pub enum PreambleError {
    /// The preamble was malformed, unsupported, or carried a wrong token.
    Unauthorized,
    /// The requested tunnel is not owned by the authenticated peer.
    NotFound,
    /// The token was accepted but the requested tunnel target is not allowed.
    Forbidden,
}

impl PreambleError {
    /// The code as it stands in a reply.
    pub open spec fn text(self) -> Seq<char> {
        match self {
            PreambleError::Unauthorized => "UNAUTHORIZED"@,
            PreambleError::NotFound => "NOT_FOUND"@,
            PreambleError::Forbidden => "FORBIDDEN"@,
        }
    }

    pub fn as_str(self) -> (r: &'static str)
        ensures
            r@ == self.text(),
    {
        match self {
            PreambleError::Unauthorized => "UNAUTHORIZED",
            PreambleError::NotFound => "NOT_FOUND",
            PreambleError::Forbidden => "FORBIDDEN",
        }
    }

    /// The line that refuses a connection.
    pub fn refusal_line(self) -> (line: String)
        ensures
            line@ == "{\"ok\":false,\"error\":\""@ + self.text() + "\"}\n"@,
    {
        join3("{\"ok\":false,\"error\":\"", self.as_str(), "\"}\n")
    }
}

/// Parameters of the `admin_seal` administrative RPC, which hands a master
/// password to the daemon so that the daemon itself can seal it.
pub struct AdminSealParams {
    pub master_password: String,
}

/// Result of the `admin_token_issue` administrative RPC. The plain token is
/// returned once and only the hash is retained by the daemon.
pub struct AdminTokenIssueResult {
    pub token: String,
}

// ---------------------------------------------------------------------------
// Parameters
// ---------------------------------------------------------------------------

/// A parameter, by what it holds.
pub enum ParamView {
    Missing,
    Null,
    Text(Seq<char>),
    Other,
}

impl ParamValue {
    pub open spec fn held(self) -> ParamView {
        match self {
            ParamValue::Null => ParamView::Null,
            ParamValue::Text(t) => ParamView::Text(t@),
            ParamValue::Other => ParamView::Other,
        }
    }
}

/// The first member of a name.
pub open spec fn member(fields: Seq<(String, ParamValue)>, key: Seq<char>) -> ParamView
    decreases fields.len(),
{
    if fields.len() == 0 {
        ParamView::Missing
    } else if fields[0].0@ == key {
        fields[0].1.held()
    } else {
        member(fields.drop_first(), key)
    }
}

impl Params {
    /// The parameter of a name; parameters that are no object have none.
    pub open spec fn lookup(self, key: Seq<char>) -> ParamView {
        match self {
            Params::Fields(fields) => member(fields@, key),
            _ => ParamView::Missing,
        }
    }

    /// The text of a parameter, where it is a text.
    pub open spec fn text(self, key: Seq<char>) -> Option<Seq<char>> {
        match self.lookup(key) {
            ParamView::Text(t) => Some(t),
            _ => None,
        }
    }

    /// The parameter of a name.
    pub fn get(&self, key: &str) -> (r: Option<&ParamValue>)
        ensures
            match r {
                Some(value) => self.lookup(key@) == value.held() && !(self.lookup(key@) is Missing),
                None => self.lookup(key@) is Missing,
            },
    {
        match self {
            Params::Fields(fields) => find_member(fields, key),
            _ => None,
        }
    }

    /// The text of a parameter, where it is a text.
    pub fn get_text(&self, key: &str) -> (r: Option<String>)
        ensures
            crate::text::opt_text(r) == self.text(key@),
    {
        match self.get(key) {
            Some(ParamValue::Text(t)) => Some(t.clone()),
            _ => None,
        }
    }
}

fn find_member<'a>(fields: &'a Vec<(String, ParamValue)>, key: &str) -> (r: Option<&'a ParamValue>)
    ensures
        match r {
            Some(value) => member(fields@, key@) == value.held(),
            None => member(fields@, key@) is Missing,
        },
{
    let mut i: usize = 0;
    assert(fields@.skip(0) =~= fields@);
    while i < fields.len()
        invariant
            i <= fields@.len(),
            member(fields@, key@) == member(fields@.skip(i as int), key@),
        decreases fields@.len() - i,
    {
        assert(fields@.skip(i as int).drop_first() =~= fields@.skip(i + 1));
        if same_text(fields[i].0.as_str(), key) {
            return Some(&fields[i].1);
        }
        i += 1;
    }
    None
}

/// Every refusal has its own code.
pub proof fn law_refusals_are_distinct(a: PreambleError, b: PreambleError)
    ensures
        a.text() == b.text() ==> a == b,
{
    reveal_strlit("UNAUTHORIZED");
    reveal_strlit("NOT_FOUND");
    reveal_strlit("FORBIDDEN");
    if a.text() == b.text() {
        assert(a.text()[0] == b.text()[0]);
    }
}

proof fn lemma_member(fields: Seq<(String, ParamValue)>, key: Seq<char>, i: int)
    requires
        0 <= i < fields.len(),
        fields[i].0@ == key,
        forall|k: int| 0 <= k < i ==> (#[trigger] fields[k]).0@ != key,
    ensures
        member(fields, key) == fields[i].1.held(),
    decreases fields.len(),
{
    if i > 0 {
        assert(fields[0].0@ != key);
        let rest = fields.drop_first();
        assert forall|k: int| 0 <= k < i - 1 implies (#[trigger] rest[k]).0@ != key by {
            assert(rest[k] == fields[k + 1]);
        }
        assert(rest[i - 1] == fields[i]);
        lemma_member(rest, key, i - 1);
    }
}

proof fn lemma_no_member(fields: Seq<(String, ParamValue)>, key: Seq<char>)
    requires
        forall|k: int| 0 <= k < fields.len() ==> (#[trigger] fields[k]).0@ != key,
    ensures
        member(fields, key) is Missing,
    decreases fields.len(),
{
    if fields.len() > 0 {
        assert(fields[0].0@ != key);
        let rest = fields.drop_first();
        assert forall|k: int| 0 <= k < rest.len() implies (#[trigger] rest[k]).0@ != key by {
            assert(rest[k] == fields[k + 1]);
        }
        lemma_no_member(rest, key);
    }
}

/// A parameter is the text that the client gave under its name, and nothing
/// where it gave none, or something else.
pub proof fn law_parameters_are_found_by_name(
    params: &Params,
    key: &str,
    found: Option<String>,
    i: int,
)
    requires
        call_ensures(Params::get_text, (params, key), found),
    ensures
        !(*params is Fields) ==> found is None,
        *params matches Params::Fields(fields) ==> {
            &&& (0 <= i < fields@.len() && fields@[i].0@ == key@ && (forall|k: int|
                0 <= k < i ==> (#[trigger] fields@[k]).0@ != key@)) ==> match fields@[i].1 {
                ParamValue::Text(text) => found is Some && found->0@ == text@,
                _ => found is None,
            }
            &&& (forall|k: int| 0 <= k < fields@.len() ==> (#[trigger] fields@[k]).0@ != key@)
                ==> found is None
        },
{
    match *params {
        Params::Fields(fields) => {
            if 0 <= i < fields@.len() && fields@[i].0@ == key@ && (forall|k: int|
                0 <= k < i ==> (#[trigger] fields@[k]).0@ != key@) {
                lemma_member(fields@, key@, i);
            }
            if forall|k: int| 0 <= k < fields@.len() ==> (#[trigger] fields@[k]).0@ != key@ {
                lemma_no_member(fields@, key@);
            }
        },
        _ => {},
    }
}

/// A preamble says its version, its token, and the tunnel that it asks for.
pub proof fn law_preambles_say_what_they_ask(preamble: &Preamble, line: Option<String>)
    requires
        call_ensures(Preamble::line, (preamble,), line),
        crate::encoding::encodable(preamble.auth@),
        preamble.tunnel matches Some(tunnel) ==> crate::encoding::encodable(tunnel.session_id@),
    ensures
        line is Some,
        crate::text::has_part(
            line->0@,
            "{\"v\":"@ + crate::text::decimal(preamble.v as nat) + ",\"auth\":"@
                + crate::encoding::json_string(preamble.auth@),
        ),
        preamble.tunnel matches Some(tunnel) ==> crate::text::has_part(
            line->0@,
            ",\"tunnel\":{\"session_id\":"@ + crate::encoding::json_string(tunnel.session_id@)
                + ",\"port\":"@ + crate::text::decimal(tunnel.port as nat) + "}}"@,
        ),
        preamble.tunnel is None ==> line->0@ == "{\"v\":"@ + crate::text::decimal(
            preamble.v as nat,
        ) + ",\"auth\":"@ + crate::encoding::json_string(preamble.auth@) + "}"@,
{
    reveal_strlit("}");
    reveal_strlit("}}");
    let head = "{\"v\":"@ + crate::text::decimal(preamble.v as nat) + ",\"auth\":"@
        + crate::encoding::json_string(preamble.auth@);
    let empty = Seq::<char>::empty();
    match preamble.tunnel {
        Some(tunnel) => {
            let asked = ",\"tunnel\":{\"session_id\":"@ + crate::encoding::json_string(
                tunnel.session_id@,
            ) + ",\"port\":"@ + crate::text::decimal(tunnel.port as nat);
            let member = tunnel_member(tunnel.session_id@, tunnel.port);
            assert(line->0@ =~= empty + head + (member + "}"@));
            crate::text::lemma_has_part(empty, head, member + "}"@);
            assert(line->0@ =~= head + (asked + "}}"@) + empty);
            crate::text::lemma_has_part(head, asked + "}}"@, empty);
        },
        None => {
            assert(line->0@ =~= head + "}"@);
            assert(line->0@ =~= empty + head + "}"@);
            crate::text::lemma_has_part(empty, head, "}"@);
        },
    }
}

/// What is shown of a preamble is everything but its token.
pub proof fn law_tokens_are_not_shown(preamble: &Preamble, shown: Preamble)
    requires
        call_ensures(Preamble::redacted, (preamble,), shown),
    ensures
        shown.v == preamble.v,
        shown.auth@ == "<redacted>"@,
        shown.tunnel is Some <==> preamble.tunnel is Some,
        shown.tunnel matches Some(t) ==> t.session_id@ == preamble.tunnel->0.session_id@ && t.port
            == preamble.tunnel->0.port,
{
}

/// A refusal says its code, and is written as a line of its own.
pub proof fn law_refusals_say_their_code(
    error: PreambleError,
    code: &'static str,
    refusal: PreambleResponse,
    acceptance: PreambleResponse,
    line: String,
)
    requires
        call_ensures(PreambleError::as_str, (error,), code),
        call_ensures(PreambleResponse::refused, (error,), refusal),
        call_ensures(PreambleResponse::accepted, (), acceptance),
        call_ensures(PreambleError::refusal_line, (error,), line),
    ensures
        error is Unauthorized ==> code@ == "UNAUTHORIZED"@,
        error is NotFound ==> code@ == "NOT_FOUND"@,
        error is Forbidden ==> code@ == "FORBIDDEN"@,
        !refusal.ok && refusal.error is Some && refusal.error->0@ == code@,
        acceptance.ok && acceptance.error is None,
        line@ == "{\"ok\":false,\"error\":\""@ + code@ + "\"}\n"@,
{
}

/// An answer says whether it accepts, and why it does not.
pub proof fn law_answers_are_written(response: &PreambleResponse, line: Option<String>)
    requires
        call_ensures(PreambleResponse::line, (response,), line),
    ensures
        response.ok && response.error is None ==> line is Some && line->0@ == "{\"ok\":true}"@,
        !response.ok && response.error is Some && crate::encoding::encodable(response.error->0@)
            ==> line is Some && line->0@ == "{\"ok\":false,\"error\":"@
            + crate::encoding::json_string(response.error->0@) + "}"@,
{
    reveal_strlit("{\"ok\":true}");
    reveal_strlit("{\"ok\":true");
    reveal_strlit("{\"ok\":false,\"error\":");
    reveal_strlit("{\"ok\":false");
    reveal_strlit("{\"ok\":");
    reveal_strlit("true");
    reveal_strlit("false");
    reveal_strlit(",\"error\":");
    reveal_strlit("}");
    if response.ok && response.error is None {
        assert(line->0@ =~= "{\"ok\":true}"@);
    }
    if !response.ok && response.error is Some && crate::encoding::encodable(response.error->0@) {
        assert(line->0@ =~= "{\"ok\":false,\"error\":"@ + crate::encoding::json_string(
            response.error->0@,
        ) + "}"@);
    }
}

} // verus!
