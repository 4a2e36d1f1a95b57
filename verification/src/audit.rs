//! What is recorded of every call.

use vstd::prelude::*;
use vstd::slice::*;
use vstd::string::*;

use crate::encoding::{is_encodable, json_text};
use crate::text::{decimal_text, join2, text_split_first};
use crate::transport::PeerIdentity;
use crate::wire::Params;

verus! {

/// The parts of a record that depend on the call.
#[derive(Debug)]
pub struct AuditFields {
    pub cred_id: Option<String>,
    pub target_url: Option<String>,
    pub session_id: Option<String>,
    pub namespace: Option<String>,
    pub shared: Option<bool>,
}

/// The parts of a record, by their views.
#[verifier::ext_equal]
pub struct FieldsView {
    pub cred_id: Option<Seq<char>>,
    pub target_url: Option<Seq<char>>,
    pub session_id: Option<Seq<char>>,
    pub namespace: Option<Seq<char>>,
    pub shared: Option<bool>,
}

impl View for AuditFields {
    type V = FieldsView;

    open spec fn view(&self) -> FieldsView {
        FieldsView {
            cred_id: crate::text::opt_text(self.cred_id),
            target_url: crate::text::opt_text(self.target_url),
            session_id: crate::text::opt_text(self.session_id),
            namespace: crate::text::opt_text(self.namespace),
            shared: self.shared,
        }
    }
}

impl FieldsView {
    pub open spec fn blank() -> FieldsView {
        FieldsView {
            cred_id: None,
            target_url: None,
            session_id: None,
            namespace: None,
            shared: None,
        }
    }
}

/// The namespace of a call: the one it names, else that of its credential.
pub open spec fn call_namespace(
    namespace: Option<Seq<char>>,
    cred_id: Option<Seq<char>>,
) -> Option<Seq<char>> {
    match (namespace, cred_id) {
        (Some(n), _) => Some(n),
        (None, Some(id)) => match crate::text::split_first(id, ':') {
            Some((prefix, _)) => Some(prefix),
            None => None,
        },
        (None, None) => None,
    }
}

/// What is recorded of the parameters of a call.
pub open spec fn fields_of(params: Params) -> FieldsView {
    FieldsView {
        cred_id: params.text("cred_id"@),
        target_url: params.text("target_url"@),
        session_id: params.text("session_id"@),
        namespace: call_namespace(params.text("namespace"@), params.text("cred_id"@)),
        shared: None,
    }
}

/// What is recorded of the parameters of a call: references, never values.
pub fn audit_fields(params: &Params) -> (fields: AuditFields)
    ensures
        fields@ == fields_of(*params),
{
    let cred_id = params.get_text("cred_id");
    let namespace = match params.get_text("namespace") {
        Some(namespace) => Some(namespace),
        None => match &cred_id {
            Some(id) => match text_split_first(id.as_str(), ':') {
                Some((prefix, _)) => Some(prefix),
                None => None,
            },
            None => None,
        },
    };
    AuditFields {
        cred_id,
        target_url: params.get_text("target_url"),
        session_id: params.get_text("session_id"),
        namespace,
        shared: None,
    }
}

/// Nothing is known of the parameters of a call.
pub fn no_fields() -> (fields: AuditFields)
    ensures
        fields@ == FieldsView::blank(),
{
    AuditFields { cred_id: None, target_url: None, session_id: None, namespace: None, shared: None }
}

/// What is recorded of an act of the daemon itself.
pub fn system_fields(session_id: Option<String>, namespace: String) -> (fields: AuditFields)
    ensures
        fields@ == (FieldsView {
            session_id: crate::text::opt_text(session_id),
            namespace: Some(namespace@),
            ..FieldsView::blank()
        }),
{
    AuditFields {
        cred_id: None,
        target_url: None,
        session_id,
        namespace: Some(namespace),
        shared: None,
    }
}

/// One record.
#[derive(Debug)]
pub struct AuditRecord {
    pub ts: String,
    pub peer: PeerIdentity,
    pub principal: String,
    pub method: String,
    pub fields: AuditFields,
    pub outcome: String,
}

/// The time stamp of records and peers.
pub fn timestamp(unix_time_secs: u64) -> (r: String)
    ensures
        r@ == "unix:"@ + crate::text::decimal(unix_time_secs as nat),
{
    join2("unix:", decimal_text(unix_time_secs).as_str())
}

/// The record of a call.
pub fn audit_record(
    unix_time_secs: u64,
    peer: PeerIdentity,
    method: String,
    fields: AuditFields,
    outcome: String,
) -> (r: AuditRecord)
    ensures
        r.ts@ == "unix:"@ + crate::text::decimal(unix_time_secs as nat),
        r.peer == peer,
        r.principal@ == peer.name(),
        r.method == method,
        r.fields == fields,
        r.outcome == outcome,
{
    let principal = peer.principal();
    AuditRecord { ts: timestamp(unix_time_secs), peer, principal, method, fields, outcome }
}

/// The record of an act of the daemon itself, which always succeeds.
pub fn system_record(
    unix_time_secs: u64,
    method: &str,
    session_id: Option<String>,
    namespace: String,
) -> (r: AuditRecord)
    ensures
        r.ts@ == "unix:"@ + crate::text::decimal(unix_time_secs as nat),
        r.peer is System,
        r.principal@ == "system"@,
        r.method@ == method@,
        r.fields@ == (FieldsView {
            session_id: crate::text::opt_text(session_id),
            namespace: Some(namespace@),
            ..FieldsView::blank()
        }),
        r.outcome@ == "ok"@,
{
    audit_record(
        unix_time_secs,
        PeerIdentity::System,
        method.to_owned(),
        system_fields(session_id, namespace),
        "ok".to_owned(),
    )
}

// ---------------------------------------------------------------------------
// Lines of the log
// ---------------------------------------------------------------------------

/// A member of a record that holds a text.
pub open spec fn text_member(name: Seq<char>, value: Seq<char>) -> Seq<char> {
    ",\""@ + name + "\":"@ + crate::encoding::json_string(value)
}

/// A member of a record that holds a text or nothing.
pub open spec fn opt_member(name: Seq<char>, value: Option<Seq<char>>) -> Seq<char> {
    match value {
        Some(text) => text_member(name, text),
        None => ",\""@ + name + "\":null"@,
    }
}

/// A member of a record that holds a truth value.
pub open spec fn bool_member(name: Seq<char>, value: bool) -> Seq<char> {
    ",\""@ + name + (if value {
        "\":true"@
    } else {
        "\":false"@
    })
}

/// The peer, in the vocabulary of its transport.
pub open spec fn peer_members(peer: PeerIdentity) -> Seq<char> {
    match peer {
        PeerIdentity::Uid(uid) => ",\"peer_uid\":"@ + crate::text::decimal(uid as nat),
        PeerIdentity::Sid { sid, elevated, administrator, .. } => text_member("peer_sid"@, sid@)
            + bool_member("elevated"@, elevated) + bool_member("administrator"@, administrator),
        PeerIdentity::Peer { peer_id, label } => bool_member("peer_token"@, true) + text_member(
            "peer_id"@,
            peer_id@,
        ) + text_member("peer_label"@, label@),
        PeerIdentity::System => bool_member("peer_system"@, true),
    }
}

/// A text, where there is one, can be written as a JSON string.
pub open spec fn opt_encodable(s: Option<Seq<char>>) -> bool {
    s matches Some(text) ==> crate::encoding::encodable(text)
}

/// The texts of a peer can be written as JSON strings.
pub open spec fn peer_writable(peer: PeerIdentity) -> bool {
    match peer {
        PeerIdentity::Sid { sid, .. } => crate::encoding::encodable(sid@),
        PeerIdentity::Peer { peer_id, label } => crate::encoding::encodable(peer_id@)
            && crate::encoding::encodable(label@),
        _ => true,
    }
}

impl AuditRecord {
    /// The texts of the record can be written as JSON strings.
    pub open spec fn writable(self) -> bool {
        &&& crate::encoding::encodable(self.ts@)
        &&& peer_writable(self.peer)
        &&& crate::encoding::encodable(self.principal@)
        &&& crate::encoding::encodable(self.method@)
        &&& opt_encodable(self.fields@.cred_id)
        &&& opt_encodable(self.fields@.target_url)
        &&& opt_encodable(self.fields@.session_id)
        &&& opt_encodable(self.fields@.namespace)
        &&& crate::encoding::encodable(self.outcome@)
    }

    /// The record as it stands in the log, without the line feed.
    pub open spec fn text(self) -> Seq<char> {
        "{\"ts\":"@ + crate::encoding::json_string(self.ts@) + peer_members(self.peer)
            + text_member("principal"@, self.principal@) + text_member("method"@, self.method@)
            + opt_member("cred_id"@, self.fields@.cred_id) + opt_member(
            "target_url"@,
            self.fields@.target_url,
        ) + opt_member("session_id"@, self.fields@.session_id) + opt_member(
            "namespace"@,
            self.fields@.namespace,
        ) + (match self.fields@.shared {
            Some(shared) => bool_member("shared"@, shared),
            None => seq![],
        }) + text_member("outcome"@, self.outcome@) + "}"@
    }

    fn is_writable(&self) -> (r: bool)
        ensures
            r == self.writable(),
    {
        let peer = match &self.peer {
            PeerIdentity::Sid { sid, .. } => is_encodable(sid.as_str()),
            PeerIdentity::Peer { peer_id, label } => is_encodable(peer_id.as_str())
                && is_encodable(label.as_str()),
            _ => true,
        };
        peer && is_encodable(self.ts.as_str()) && is_encodable(self.principal.as_str())
            && is_encodable(self.method.as_str()) && is_opt_encodable(&self.fields.cred_id)
            && is_opt_encodable(&self.fields.target_url) && is_opt_encodable(
            &self.fields.session_id,
        ) && is_opt_encodable(&self.fields.namespace) && is_encodable(self.outcome.as_str())
    }

    /// The record as it stands in the log, without the line feed; nothing
    /// where it does not fit in memory.
    pub fn line(&self) -> (r: Option<String>)
        ensures
            match r {
                Some(line) => self.writable() && line@ == self.text(),
                None => !self.writable(),
            },
    {
        if !self.is_writable() {
            return None;
        }
        let mut line = join2("{\"ts\":", json_text(&self.ts).as_str());
        append_peer(&mut line, &self.peer);
        append_text(&mut line, "principal", &self.principal);
        append_text(&mut line, "method", &self.method);
        append_opt(&mut line, "cred_id", &self.fields.cred_id);
        append_opt(&mut line, "target_url", &self.fields.target_url);
        append_opt(&mut line, "session_id", &self.fields.session_id);
        append_opt(&mut line, "namespace", &self.fields.namespace);
        match self.fields.shared {
            Some(shared) => append_bool(&mut line, "shared", shared),
            None => {
                assert(line@ =~= line@ + seq![]);
            },
        }
        append_text(&mut line, "outcome", &self.outcome);
        line.append("}");
        Some(line)
    }
}

fn is_opt_encodable(s: &Option<String>) -> (r: bool)
    ensures
        r == opt_encodable(crate::text::opt_text(*s)),
{
    match s {
        Some(text) => is_encodable(text.as_str()),
        None => true,
    }
}

fn append_text(line: &mut String, name: &str, value: &String)
    requires
        crate::encoding::encodable(value@),
    ensures
        final(line)@ == old(line)@ + text_member(name@, value@),
{
    let ghost before = line@;
    line.append(",\"");
    line.append(name);
    line.append("\":");
    line.append(json_text(value).as_str());
    assert(line@ =~= before + text_member(name@, value@));
}

fn append_opt(line: &mut String, name: &str, value: &Option<String>)
    requires
        opt_encodable(crate::text::opt_text(*value)),
    ensures
        final(line)@ == old(line)@ + opt_member(name@, crate::text::opt_text(*value)),
{
    match value {
        Some(text) => append_text(line, name, text),
        None => {
            let ghost before = line@;
            line.append(",\"");
            line.append(name);
            line.append("\":null");
            assert(line@ =~= before + opt_member(name@, None));
        },
    }
}

fn append_bool(line: &mut String, name: &str, value: bool)
    ensures
        final(line)@ == old(line)@ + bool_member(name@, value),
{
    let ghost before = line@;
    line.append(",\"");
    line.append(name);
    if value {
        line.append("\":true");
    } else {
        line.append("\":false");
    }
    assert(line@ =~= before + bool_member(name@, value));
}

fn append_peer(line: &mut String, peer: &PeerIdentity)
    requires
        peer_writable(*peer),
    ensures
        final(line)@ == old(line)@ + peer_members(*peer),
{
    let ghost before = line@;
    match peer {
        PeerIdentity::Uid(uid) => {
            line.append(",\"peer_uid\":");
            line.append(decimal_text(*uid as u64).as_str());
        },
        PeerIdentity::Sid { sid, elevated, administrator, .. } => {
            append_text(line, "peer_sid", sid);
            append_bool(line, "elevated", *elevated);
            append_bool(line, "administrator", *administrator);
        },
        PeerIdentity::Peer { peer_id, label } => {
            append_bool(line, "peer_token", true);
            append_text(line, "peer_id", peer_id);
            append_text(line, "peer_label", label);
        },
        PeerIdentity::System => {
            append_bool(line, "peer_system", true);
        },
    }
    assert(line@ =~= before + peer_members(*peer));
}

proof fn lemma_text_member_is_one_line(name: Seq<char>, value: Seq<char>)
    requires
        crate::encoding::one_line(name),
    ensures
        crate::encoding::one_line(text_member(name, value)),
{
    reveal_strlit(",\"");
    reveal_strlit("\":");
    crate::encoding::law_json_strings_are_one_line(value);
    crate::encoding::lemma_one_line_add(",\""@, name);
    crate::encoding::lemma_one_line_add(",\""@ + name, "\":"@);
    crate::encoding::lemma_one_line_add(",\""@ + name + "\":"@, crate::encoding::json_string(value));
}

proof fn lemma_opt_member_is_one_line(name: Seq<char>, value: Option<Seq<char>>)
    requires
        crate::encoding::one_line(name),
    ensures
        crate::encoding::one_line(opt_member(name, value)),
{
    reveal_strlit(",\"");
    reveal_strlit("\":null");
    match value {
        Some(text) => lemma_text_member_is_one_line(name, text),
        None => {
            crate::encoding::lemma_one_line_add(",\""@, name);
            crate::encoding::lemma_one_line_add(",\""@ + name, "\":null"@);
        },
    }
}

proof fn lemma_bool_member_is_one_line(name: Seq<char>, value: bool)
    requires
        crate::encoding::one_line(name),
    ensures
        crate::encoding::one_line(bool_member(name, value)),
{
    reveal_strlit(",\"");
    reveal_strlit("\":true");
    reveal_strlit("\":false");
    crate::encoding::lemma_one_line_add(",\""@, name);
    crate::encoding::lemma_one_line_add(
        ",\""@ + name,
        if value {
            "\":true"@
        } else {
            "\":false"@
        },
    );
}

proof fn lemma_peer_is_one_line(peer: PeerIdentity)
    ensures
        crate::encoding::one_line(peer_members(peer)),
{
    reveal_strlit(",\"peer_uid\":");
    reveal_strlit("peer_sid");
    reveal_strlit("elevated");
    reveal_strlit("administrator");
    reveal_strlit("peer_token");
    reveal_strlit("peer_id");
    reveal_strlit("peer_label");
    reveal_strlit("peer_system");
    match peer {
        PeerIdentity::Uid(uid) => {
            crate::encoding::lemma_decimal_is_one_line(uid as nat);
            crate::encoding::lemma_one_line_add(",\"peer_uid\":"@, crate::text::decimal(uid as nat));
        },
        PeerIdentity::Sid { sid, elevated, administrator, .. } => {
            let a = text_member("peer_sid"@, sid@);
            let b = bool_member("elevated"@, elevated);
            lemma_text_member_is_one_line("peer_sid"@, sid@);
            lemma_bool_member_is_one_line("elevated"@, elevated);
            lemma_bool_member_is_one_line("administrator"@, administrator);
            crate::encoding::lemma_one_line_add(a, b);
            crate::encoding::lemma_one_line_add(a + b, bool_member("administrator"@, administrator));
        },
        PeerIdentity::Peer { peer_id, label } => {
            let a = bool_member("peer_token"@, true);
            let b = text_member("peer_id"@, peer_id@);
            lemma_bool_member_is_one_line("peer_token"@, true);
            lemma_text_member_is_one_line("peer_id"@, peer_id@);
            lemma_text_member_is_one_line("peer_label"@, label@);
            crate::encoding::lemma_one_line_add(a, b);
            crate::encoding::lemma_one_line_add(a + b, text_member("peer_label"@, label@));
        },
        PeerIdentity::System => {
            lemma_bool_member_is_one_line("peer_system"@, true);
        },
    }
}

/// A record takes one line of the log, whatever a client has sent: nobody can
/// add a record by what is recorded of a call.
pub proof fn law_records_take_one_line(record: AuditRecord)
    ensures
        crate::encoding::one_line(record.text()),
{
    reveal_strlit("{\"ts\":");
    reveal_strlit("principal");
    reveal_strlit("method");
    reveal_strlit("cred_id");
    reveal_strlit("target_url");
    reveal_strlit("session_id");
    reveal_strlit("namespace");
    reveal_strlit("shared");
    reveal_strlit("outcome");
    reveal_strlit("}");
    let fields = record.fields@;
    let a = "{\"ts\":"@ + crate::encoding::json_string(record.ts@);
    crate::encoding::law_json_strings_are_one_line(record.ts@);
    crate::encoding::lemma_one_line_add("{\"ts\":"@, crate::encoding::json_string(record.ts@));
    lemma_peer_is_one_line(record.peer);
    crate::encoding::lemma_one_line_add(a, peer_members(record.peer));
    let b = a + peer_members(record.peer);
    lemma_text_member_is_one_line("principal"@, record.principal@);
    crate::encoding::lemma_one_line_add(b, text_member("principal"@, record.principal@));
    let c = b + text_member("principal"@, record.principal@);
    lemma_text_member_is_one_line("method"@, record.method@);
    crate::encoding::lemma_one_line_add(c, text_member("method"@, record.method@));
    let d = c + text_member("method"@, record.method@);
    lemma_opt_member_is_one_line("cred_id"@, fields.cred_id);
    crate::encoding::lemma_one_line_add(d, opt_member("cred_id"@, fields.cred_id));
    let e = d + opt_member("cred_id"@, fields.cred_id);
    lemma_opt_member_is_one_line("target_url"@, fields.target_url);
    crate::encoding::lemma_one_line_add(e, opt_member("target_url"@, fields.target_url));
    let f = e + opt_member("target_url"@, fields.target_url);
    lemma_opt_member_is_one_line("session_id"@, fields.session_id);
    crate::encoding::lemma_one_line_add(f, opt_member("session_id"@, fields.session_id));
    let g = f + opt_member("session_id"@, fields.session_id);
    lemma_opt_member_is_one_line("namespace"@, fields.namespace);
    crate::encoding::lemma_one_line_add(g, opt_member("namespace"@, fields.namespace));
    let h = g + opt_member("namespace"@, fields.namespace);
    let shared = match fields.shared {
        Some(shared) => bool_member("shared"@, shared),
        None => Seq::<char>::empty(),
    };
    match fields.shared {
        Some(value) => lemma_bool_member_is_one_line("shared"@, value),
        None => {},
    }
    crate::encoding::lemma_one_line_add(h, shared);
    lemma_text_member_is_one_line("outcome"@, record.outcome@);
    crate::encoding::lemma_one_line_add(h + shared, text_member("outcome"@, record.outcome@));
    crate::encoding::lemma_one_line_add(h + shared + text_member("outcome"@, record.outcome@), "}"@);
}

// ---------------------------------------------------------------------------
// Rotation
// ---------------------------------------------------------------------------

/// The log is full: it holds something, and the next record would make it
/// longer than it may be. A process rotates it at most once.
pub open spec fn log_is_full(
    max_bytes: Option<u64>,
    rotated: bool,
    current_size: u64,
    record: u64,
) -> bool {
    match max_bytes {
        Some(max) => {
            let sum = if current_size + record > u64::MAX {
                u64::MAX as int
            } else {
                current_size + record
            };
            !rotated && current_size > 0 && sum > max
        },
        None => false,
    }
}

/// Tells whether the log is moved aside before a record is appended.
pub fn must_rotate(max_bytes: Option<u64>, rotated: bool, current_size: u64, record: u64) -> (r:
    bool)
    ensures
        r == log_is_full(max_bytes, rotated, current_size, record),
{
    match max_bytes {
        Some(max) => {
            let sum: u64 = if current_size > u64::MAX - record {
                u64::MAX
            } else {
                current_size + record
            };
            !rotated && current_size > 0 && sum > max
        },
        None => false,
    }
}

/// Where the log is moved to.
pub fn rotated_path(path: &str) -> (r: String)
    ensures
        r@ == path@ + ".1"@,
{
    join2(path, ".1")
}

// ---------------------------------------------------------------------------
// The log
// ---------------------------------------------------------------------------

/// What the log waits for.
#[derive(Clone, Copy, Debug, PartialEq, Eq, Structural)]
pub enum LogPhase {
    /// Nothing: no record is being written.
    Idle,
    /// The size of the file.
    Size,
    /// The removal of the file that was moved aside earlier.
    Remove,
    /// The file to be moved aside.
    Rename,
    /// The file to be there.
    Create,
    /// The file to be open.
    Open,
    /// The line to be written.
    Write,
}

/// How an operation on a file ended.
#[derive(Clone, Copy, Debug, PartialEq, Eq, Structural)]
pub enum LogEvent {
    /// It succeeded.
    Done,
    /// It succeeded, and this is the size.
    Size(u64),
    /// There is no such file.
    Missing,
    /// There is such a file already.
    Exists,
    /// It failed in another way.
    Failed,
}

/// Why a record was not written.
#[derive(Clone, Copy, Debug, PartialEq, Eq, Structural)]
pub enum LogFailure {
    Serialize,
    Open,
    Write,
}

/// What is done next.
#[derive(Debug)]
pub enum LogAction {
    /// Read the size of the log.
    ReadSize,
    /// Remove a file.
    Remove(String),
    /// Move the log to a path.
    Rename(String),
    /// Create the log, unless it is there.
    Create,
    /// Open the log, to append to it.
    Open,
    /// Append bytes to the log.
    Write(Vec<u8>),
    /// Nothing: the record is written.
    Finished,
    /// Nothing: the record is lost.
    Failed(LogFailure),
}

/// An action, by the views of its parts.
#[verifier::ext_equal]
pub enum LogActionView {
    ReadSize,
    Remove(Seq<char>),
    Rename(Seq<char>),
    Create,
    Open,
    Write(Seq<u8>),
    Finished,
    Failed(LogFailure),
}

impl View for LogAction {
    type V = LogActionView;

    open spec fn view(&self) -> LogActionView {
        match *self {
            LogAction::ReadSize => LogActionView::ReadSize,
            LogAction::Remove(path) => LogActionView::Remove(path@),
            LogAction::Rename(path) => LogActionView::Rename(path@),
            LogAction::Create => LogActionView::Create,
            LogAction::Open => LogActionView::Open,
            LogAction::Write(bytes) => LogActionView::Write(bytes@),
            LogAction::Finished => LogActionView::Finished,
            LogAction::Failed(failure) => LogActionView::Failed(failure),
        }
    }
}

/// The log of a process: where it is, how long it may be, whether this process
/// has moved it aside already, and how far the present record is.
#[derive(Debug)]
pub struct AuditLog {
    path: String,
    max_bytes: Option<u64>,
    rotated: bool,
    phase: LogPhase,
    line: Vec<u8>,
}

/// A log, by the views of its parts.
#[verifier::ext_equal]
pub struct LogView {
    pub path: Seq<char>,
    pub max_bytes: Option<u64>,
    pub rotated: bool,
    pub phase: LogPhase,
    pub line: Seq<u8>,
}

impl View for AuditLog {
    type V = LogView;

    closed spec fn view(&self) -> LogView {
        LogView {
            path: self.path@,
            max_bytes: self.max_bytes,
            rotated: self.rotated,
            phase: self.phase,
            line: self.line@,
        }
    }
}

/// A log after an event, and what is done next.
#[verifier::ext_equal]
pub struct LogStep {
    pub log: LogView,
    pub action: LogActionView,
}

impl LogView {
    pub open spec fn at(self, phase: LogPhase) -> LogView {
        LogView { phase, ..self }
    }

    pub open spec fn moved(self, phase: LogPhase, action: LogActionView) -> LogStep {
        LogStep { log: self.at(phase), action }
    }

    /// The log is only moved aside where it may be.
    pub open spec fn wf(self) -> bool {
        self.phase is Remove || self.phase is Rename ==> !self.rotated && self.max_bytes is Some
    }

    /// A line is to be appended.
    pub open spec fn begun(self, line: Seq<u8>) -> LogView {
        LogView { line, ..self.at(LogPhase::Size) }
    }

    /// The size is known: the log is moved aside first if it is full.
    pub open spec fn sized(self, size: u64) -> LogStep {
        if log_is_full(self.max_bytes, self.rotated, size, self.line.len() as u64) {
            self.moved(LogPhase::Remove, LogActionView::Remove(self.path + ".1"@))
        } else {
            self.moved(LogPhase::Create, LogActionView::Create)
        }
    }

    /// What follows an event. A file that is to be removed may be missing, and
    /// one that is to be created may exist; any other failure ends the record.
    pub open spec fn step(self, event: LogEvent) -> LogStep {
        match (self.phase, event) {
            (LogPhase::Size, LogEvent::Size(size)) => self.sized(size),
            (LogPhase::Size, LogEvent::Missing) => self.sized(0),
            (LogPhase::Remove, LogEvent::Done) => self.moved(
                LogPhase::Rename,
                LogActionView::Rename(self.path + ".1"@),
            ),
            (LogPhase::Remove, LogEvent::Missing) => self.moved(
                LogPhase::Rename,
                LogActionView::Rename(self.path + ".1"@),
            ),
            (LogPhase::Rename, LogEvent::Done) => (LogView { rotated: true, ..self }).moved(
                LogPhase::Create,
                LogActionView::Create,
            ),
            (LogPhase::Create, LogEvent::Done) => self.moved(LogPhase::Open, LogActionView::Open),
            (LogPhase::Create, LogEvent::Exists) => self.moved(LogPhase::Open, LogActionView::Open),
            (LogPhase::Open, LogEvent::Done) => self.moved(
                LogPhase::Write,
                LogActionView::Write(self.line),
            ),
            (LogPhase::Write, LogEvent::Done) => self.moved(LogPhase::Idle, LogActionView::Finished),
            (LogPhase::Write, _) => self.moved(
                LogPhase::Idle,
                LogActionView::Failed(LogFailure::Write),
            ),
            _ => self.moved(LogPhase::Idle, LogActionView::Failed(LogFailure::Open)),
        }
    }
}

impl AuditRecord {
    /// The line that the log holds of the record.
    pub open spec fn log_line(self) -> Seq<u8> {
        vstd::utf8::encode_utf8(self.text()).push(0x0a)
    }
}

impl AuditLog {
    /// The log at a path, before the first record of this process.
    pub fn new(path: String, max_bytes: Option<u64>) -> (r: AuditLog)
        ensures
            r@ == (LogView {
                path: path@,
                max_bytes,
                rotated: false,
                phase: LogPhase::Idle,
                line: seq![],
            }),
            r@.wf(),
    {
        let r = AuditLog {
            path,
            max_bytes,
            rotated: false,
            phase: LogPhase::Idle,
            line: Vec::new(),
        };
        assert(r@.line =~= seq![]);
        r
    }

    /// Begins to append a record.
    pub fn begin(&mut self, record: &AuditRecord) -> (action: LogAction)
        ensures
            if record.writable() {
                final(self)@ == old(self)@.begun(record.log_line()) && action@
                    == LogActionView::ReadSize
            } else {
                final(self)@ == old(self)@.at(LogPhase::Idle) && action@
                    == LogActionView::Failed(LogFailure::Serialize)
            },
    {
        match record.line() {
            Some(text) => {
                let mut line = slice_to_vec(text.as_str().as_bytes());
                line.push(0x0a);
                self.line = line;
                self.phase = LogPhase::Size;
                LogAction::ReadSize
            },
            None => {
                self.phase = LogPhase::Idle;
                LogAction::Failed(LogFailure::Serialize)
            },
        }
    }

    fn take_size(&mut self, size: u64) -> (action: LogAction)
        ensures
            (LogStep { log: final(self)@, action: action@ }) == old(self)@.sized(size),
    {
        if must_rotate(self.max_bytes, self.rotated, size, self.line.len() as u64) {
            self.phase = LogPhase::Remove;
            LogAction::Remove(rotated_path(self.path.as_str()))
        } else {
            self.phase = LogPhase::Create;
            LogAction::Create
        }
    }

    /// Decides what follows an event.
    pub fn step(&mut self, event: LogEvent) -> (action: LogAction)
        ensures
            (LogStep { log: final(self)@, action: action@ }) == old(self)@.step(event),
    {
        match (self.phase, event) {
            (LogPhase::Size, LogEvent::Size(size)) => self.take_size(size),
            (LogPhase::Size, LogEvent::Missing) => self.take_size(0),
            (LogPhase::Remove, LogEvent::Done) | (LogPhase::Remove, LogEvent::Missing) => {
                self.phase = LogPhase::Rename;
                LogAction::Rename(rotated_path(self.path.as_str()))
            },
            (LogPhase::Rename, LogEvent::Done) => {
                self.rotated = true;
                self.phase = LogPhase::Create;
                LogAction::Create
            },
            (LogPhase::Create, LogEvent::Done) | (LogPhase::Create, LogEvent::Exists) => {
                self.phase = LogPhase::Open;
                LogAction::Open
            },
            (LogPhase::Open, LogEvent::Done) => {
                self.phase = LogPhase::Write;
                LogAction::Write(slice_to_vec(self.line.as_slice()))
            },
            (LogPhase::Write, LogEvent::Done) => {
                self.phase = LogPhase::Idle;
                LogAction::Finished
            },
            (LogPhase::Write, _) => {
                self.phase = LogPhase::Idle;
                LogAction::Failed(LogFailure::Write)
            },
            _ => {
                self.phase = LogPhase::Idle;
                LogAction::Failed(LogFailure::Open)
            },
        }
    }
}

// ---------------------------------------------------------------------------
// Laws of the log
// ---------------------------------------------------------------------------

/// What may happen to a log: a record comes, or an operation ends.
pub enum LogInput {
    Record(Seq<u8>),
    Event(LogEvent),
}

/// A log after something happened.
pub open spec fn log_after(log: LogView, input: LogInput) -> LogView {
    match input {
        LogInput::Record(line) => log.begun(line),
        LogInput::Event(event) => log.step(event).log,
    }
}

/// How many times a log is moved aside.
pub open spec fn rotations(log: LogView, inputs: Seq<LogInput>) -> nat
    decreases inputs.len(),
{
    if inputs.len() == 0 {
        0
    } else {
        let moved: nat = if log.phase is Rename && inputs[0] == LogInput::Event(LogEvent::Done) {
            1
        } else {
            0
        };
        moved + rotations(log_after(log, inputs[0]), inputs.drop_first())
    }
}

/// Whatever comes and whatever fails, a process moves its log aside at most
/// once, and never where no limit is set.
pub proof fn law_one_rotation(log: LogView, inputs: Seq<LogInput>)
    requires
        log.wf(),
    ensures
        rotations(log, inputs) <= 1,
        log.rotated || log.max_bytes is None ==> rotations(log, inputs) == 0,
    decreases inputs.len(),
{
    if inputs.len() > 0 {
        law_one_rotation(log_after(log, inputs[0]), inputs.drop_first());
    }
}

/// Every step keeps a log well formed, nothing is ever written but the line of
/// the present record, and no file is removed or replaced but the one beside
/// the log.
pub proof fn law_only_records_are_written(log: LogView, input: LogInput)
    requires
        log.wf(),
    ensures
        log_after(log, input).wf(),
        input matches LogInput::Event(event) ==> {
            let next = log.step(event);
            &&& next.log.line == log.line
            &&& (next.action matches LogActionView::Write(bytes) ==> bytes == log.line)
            &&& (next.action matches LogActionView::Remove(path) ==> path == log.path + ".1"@)
            &&& (next.action matches LogActionView::Rename(path) ==> path == log.path + ".1"@)
        },
{
}

/// The log and the file beside it, where they exist.
#[verifier::ext_equal]
pub struct Disk {
    pub log: Option<Seq<u8>>,
    pub aside: Option<Seq<u8>>,
}

impl Disk {
    /// What the log holds; nothing where it does not exist.
    pub open spec fn contents(self) -> Seq<u8> {
        match self.log {
            Some(bytes) => bytes,
            None => seq![],
        }
    }

    /// What an action does to the files, and how it ends, where nothing stands
    /// in its way.
    pub open spec fn perform(self, action: LogActionView) -> (Disk, LogEvent) {
        match action {
            LogActionView::ReadSize => (
                self,
                match self.log {
                    Some(bytes) => LogEvent::Size(bytes.len() as u64),
                    None => LogEvent::Missing,
                },
            ),
            LogActionView::Remove(_) => (
                Disk { aside: None, ..self },
                if self.aside is Some {
                    LogEvent::Done
                } else {
                    LogEvent::Missing
                },
            ),
            LogActionView::Rename(_) => if self.log is Some {
                (Disk { log: None, aside: self.log }, LogEvent::Done)
            } else {
                (self, LogEvent::Missing)
            },
            LogActionView::Create => if self.log is Some {
                (self, LogEvent::Exists)
            } else {
                (Disk { log: Some(seq![]), ..self }, LogEvent::Done)
            },
            LogActionView::Open => if self.log is Some {
                (self, LogEvent::Done)
            } else {
                (self, LogEvent::Missing)
            },
            LogActionView::Write(bytes) => (
                Disk { log: Some(self.contents() + bytes), ..self },
                LogEvent::Done,
            ),
            _ => (self, LogEvent::Failed),
        }
    }
}

impl LogPhase {
    /// How far a record is from its end.
    pub open spec fn rank(self) -> nat {
        match self {
            LogPhase::Idle => 0,
            LogPhase::Write => 1,
            LogPhase::Open => 2,
            LogPhase::Create => 3,
            LogPhase::Rename => 4,
            LogPhase::Remove => 5,
            LogPhase::Size => 6,
        }
    }
}

/// A log and its files once a record is over: every action is performed, and
/// every event is handed back.
pub open spec fn settled(log: LogView, disk: Disk, action: LogActionView) -> (LogView, Disk)
    decreases log.phase.rank(),
{
    if log.phase is Idle {
        (log, disk)
    } else {
        let (changed, event) = disk.perform(action);
        let next = log.step(event);
        settled(next.log, changed, next.action)
    }
}

/// A log and its files after a line was appended.
pub open spec fn recorded(log: LogView, disk: Disk, line: Seq<u8>) -> (LogView, Disk) {
    settled(log.begun(line), disk, LogActionView::ReadSize)
}

/// The log is moved aside, in place of what was there, exactly where a limit
/// is set, this process has not done so before, and the log holds something
/// and would exceed the limit. It then holds the new line and nothing else;
/// otherwise the line follows what the log held before. Sizes past the largest
/// number count as that number, so a limit of the largest number is left out
/// where the size would be past it.
pub proof fn law_records_are_appended(log: LogView, disk: Disk, line: Seq<u8>)
    requires
        disk.contents().len() <= u64::MAX,
        line.len() <= u64::MAX,
        log.max_bytes == Some(u64::MAX) ==> disk.contents().len() + line.len() <= u64::MAX,
    ensures
        ({
            let (after, on_disk) = recorded(log, disk, line);
            let size = disk.contents().len();
            let rotates = (log.max_bytes matches Some(max) && size + line.len() > max)
                && !log.rotated && size > 0;
            &&& after == (LogView {
                rotated: log.rotated || rotates,
                line,
                ..log.at(LogPhase::Idle)
            })
            &&& on_disk == if rotates {
                Disk { log: Some(line), aside: disk.log }
            } else {
                Disk { log: Some(disk.contents() + line), aside: disk.aside }
            }
        }),
{
    reveal_with_fuel(settled, 7);
    assert(seq![] + line =~= line);
}

/// Lines one after another.
pub open spec fn joined_lines(lines: Seq<Seq<u8>>) -> Seq<u8>
    decreases lines.len(),
{
    if lines.len() == 0 {
        seq![]
    } else {
        joined_lines(lines.drop_last()) + lines.last()
    }
}

/// A log and its files after lines were appended in turn.
pub open spec fn all_recorded(log: LogView, disk: Disk, lines: Seq<Seq<u8>>) -> (LogView, Disk)
    decreases lines.len(),
{
    if lines.len() == 0 {
        (log, disk)
    } else {
        let (before, on_disk) = all_recorded(log, disk, lines.drop_last());
        recorded(before, on_disk, lines.last())
    }
}

/// Over the life of a process no line is lost. Either the log was never moved
/// aside and holds what it held and every line, or it was moved aside once: the
/// file beside it holds what it held and the lines up to then, and the log
/// itself the lines since.
pub proof fn law_no_line_is_lost(log: LogView, disk: Disk, lines: Seq<Seq<u8>>)
    requires
        disk.contents().len() + joined_lines(lines).len() <= u64::MAX,
    ensures
        ({
            let (after, on_disk) = all_recorded(log, disk, lines);
            &&& log.rotated ==> after.rotated
            &&& after.max_bytes == log.max_bytes
            &&& if after.rotated == log.rotated {
                on_disk.aside == disk.aside && on_disk.contents() == disk.contents()
                    + joined_lines(lines)
            } else {
                &&& log.max_bytes is Some
                &&& exists|k: int|
                    #![trigger lines.take(k)]
                    0 <= k < lines.len() && on_disk.aside == Some(
                        disk.contents() + joined_lines(lines.take(k)),
                    ) && on_disk.contents() == joined_lines(lines.skip(k))
            }
        }),
    decreases lines.len(),
{
    if lines.len() == 0 {
        assert(disk.contents() + joined_lines(lines) =~= disk.contents());
    } else {
        let earlier = lines.drop_last();
        let line = lines.last();
        law_no_line_is_lost(log, disk, earlier);
        let (before, on_disk) = all_recorded(log, disk, earlier);
        let (after, at_last) = all_recorded(log, disk, lines);
        if before.rotated == log.rotated {
            law_records_are_appended(before, on_disk, line);
            assert(disk.contents() + joined_lines(earlier) + line =~= disk.contents()
                + joined_lines(lines));
            if after.rotated != log.rotated {
                let k = lines.len() - 1;
                assert(lines.take(k) =~= earlier);
                assert(lines.skip(k) =~= seq![line]);
                assert(seq![line].drop_last() =~= seq![]);
                reveal_with_fuel(joined_lines, 2);
                assert(joined_lines(lines.skip(k)) =~= line);
            }
        } else {
            let k = choose|k: int|
                #![trigger earlier.take(k)]
                0 <= k < earlier.len() && on_disk.aside == Some(
                    disk.contents() + joined_lines(earlier.take(k)),
                ) && on_disk.contents() == joined_lines(earlier.skip(k));
            lemma_joined_split(earlier, k);
            law_records_are_appended(before, on_disk, line);
            assert(lines.take(k) =~= earlier.take(k));
            assert(lines.skip(k).drop_last() =~= earlier.skip(k));
        }
    }
}

proof fn lemma_joined_split(lines: Seq<Seq<u8>>, k: int)
    requires
        0 <= k <= lines.len(),
    ensures
        joined_lines(lines) == joined_lines(lines.take(k)) + joined_lines(lines.skip(k)),
    decreases lines.len(),
{
    if k == lines.len() {
        assert(lines.take(k) =~= lines);
        assert(joined_lines(lines.skip(k)) =~= seq![]);
    } else {
        lemma_joined_split(lines.drop_last(), k);
        assert(lines.drop_last().take(k) =~= lines.take(k));
        assert(lines.drop_last().skip(k) =~= lines.skip(k).drop_last());
        assert(joined_lines(lines) =~= joined_lines(lines.take(k)) + joined_lines(lines.skip(k)));
    }
}

/// The record of a call holds who made it, what was called, with which
/// references, and how it ended.
pub proof fn law_records_say_what_happened(
    unix_time_secs: u64,
    peer: PeerIdentity,
    method: String,
    fields: AuditFields,
    outcome: String,
    record: AuditRecord,
    line: Option<String>,
)
    requires
        call_ensures(audit_record, (unix_time_secs, peer, method, fields, outcome), record),
        call_ensures(AuditRecord::line, (&record,), line),
        line is Some,
    ensures
        record.ts@ == "unix:"@ + crate::text::decimal(unix_time_secs as nat),
        crate::text::has_part(line->0@, "{\"ts\":"@ + crate::encoding::json_string(record.ts@)),
        crate::text::has_part(
            line->0@,
            ",\"principal\":"@ + crate::encoding::json_string(peer.name()),
        ),
        crate::text::has_part(line->0@, ",\"method\":"@ + crate::encoding::json_string(method@)),
        crate::text::has_part(line->0@, ",\"outcome\":"@ + crate::encoding::json_string(outcome@)),
        fields.cred_id matches Some(text) ==> crate::text::has_part(
            line->0@,
            ",\"cred_id\":"@ + crate::encoding::json_string(text@),
        ),
        fields.target_url matches Some(text) ==> crate::text::has_part(
            line->0@,
            ",\"target_url\":"@ + crate::encoding::json_string(text@),
        ),
        fields.session_id matches Some(text) ==> crate::text::has_part(
            line->0@,
            ",\"session_id\":"@ + crate::encoding::json_string(text@),
        ),
        fields.namespace matches Some(text) ==> crate::text::has_part(
            line->0@,
            ",\"namespace\":"@ + crate::encoding::json_string(text@),
        ),
        fields.shared == Some(true) ==> crate::text::has_part(line->0@, ",\"shared\":true"@),
        fields.shared == Some(false) ==> crate::text::has_part(line->0@, ",\"shared\":false"@),
        peer matches PeerIdentity::Uid(uid) ==> crate::text::has_part(
            line->0@,
            ",\"peer_uid\":"@ + crate::text::decimal(uid as nat),
        ),
        peer matches PeerIdentity::Peer { peer_id, .. } ==> crate::text::has_part(
            line->0@,
            ",\"peer_id\":"@ + crate::encoding::json_string(peer_id@),
        ),
        peer matches PeerIdentity::Sid { sid, .. } ==> crate::text::has_part(
            line->0@,
            ",\"peer_sid\":"@ + crate::encoding::json_string(sid@),
        ),
{
    let f = record.fields@;
    let ts = "{\"ts\":"@ + crate::encoding::json_string(record.ts@);
    let who = peer_members(peer);
    let principal = text_member("principal"@, record.principal@);
    let called = text_member("method"@, method@);
    let cred = opt_member("cred_id"@, f.cred_id);
    let target = opt_member("target_url"@, f.target_url);
    let session = opt_member("session_id"@, f.session_id);
    let namespace = opt_member("namespace"@, f.namespace);
    let shared = match f.shared {
        Some(shared) => bool_member("shared"@, shared),
        None => Seq::<char>::empty(),
    };
    let ended = text_member("outcome"@, outcome@);
    lemma_all_parts(
        seq![ts, who, principal, called, cred, target, session, namespace, shared, ended, "}"@],
    );
    lemma_member_names();
    let parts = seq![
        ts,
        who,
        principal,
        called,
        cred,
        target,
        session,
        namespace,
        shared,
        ended,
        "}"@,
    ];
    assert(line->0@ == after_parts(parts));
    assert(parts[0] == ts && parts[1] == who && parts[2] == principal && parts[3] == called);
    assert(parts[4] == cred && parts[5] == target && parts[6] == session);
    assert(parts[7] == namespace && parts[8] == shared && parts[9] == ended);
    lemma_parts_of_peers(peer, line->0@);
}

spec fn after_parts(p: Seq<Seq<char>>) -> Seq<char> {
    p[0] + p[1] + p[2] + p[3] + p[4] + p[5] + p[6] + p[7] + p[8] + p[9] + p[10]
}

proof fn lemma_all_parts(p: Seq<Seq<char>>)
    ensures
        forall|i: int|
            0 <= i <= 9 ==> crate::text::has_part(after_parts(p), #[trigger] p[i]),
{
    let s1 = p[0] + p[1];
    let s2 = s1 + p[2];
    let s3 = s2 + p[3];
    let s4 = s3 + p[4];
    let s5 = s4 + p[5];
    let s6 = s5 + p[6];
    let s7 = s6 + p[7];
    let s8 = s7 + p[8];
    let s9 = s8 + p[9];
    let empty = Seq::<char>::empty();
    assert(empty + p[0] =~= p[0]);
    assert(p[0] + empty =~= p[0]);
    crate::text::lemma_has_part(empty, p[0], empty);
    crate::text::lemma_part_stays(p[0], p[1]);
    crate::text::lemma_part_stays(s1, p[2]);
    crate::text::lemma_part_stays(s2, p[3]);
    crate::text::lemma_part_stays(s3, p[4]);
    crate::text::lemma_part_stays(s4, p[5]);
    crate::text::lemma_part_stays(s5, p[6]);
    crate::text::lemma_part_stays(s6, p[7]);
    crate::text::lemma_part_stays(s7, p[8]);
    crate::text::lemma_part_stays(s8, p[9]);
    crate::text::lemma_part_stays(s9, p[10]);
}

proof fn lemma_parts_of_peers(peer: PeerIdentity, whole: Seq<char>)
    requires
        crate::text::has_part(whole, peer_members(peer)),
    ensures
        peer matches PeerIdentity::Uid(uid) ==> crate::text::has_part(
            whole,
            ",\"peer_uid\":"@ + crate::text::decimal(uid as nat),
        ),
        peer matches PeerIdentity::Peer { peer_id, .. } ==> crate::text::has_part(
            whole,
            text_member("peer_id"@, peer_id@),
        ),
        peer matches PeerIdentity::Sid { sid, .. } ==> crate::text::has_part(
            whole,
            text_member("peer_sid"@, sid@),
        ),
{
    let empty = Seq::<char>::empty();
    match peer {
        PeerIdentity::Peer { peer_id, label } => {
            crate::text::lemma_part_within(
                whole,
                bool_member("peer_token"@, true),
                text_member("peer_id"@, peer_id@),
                text_member("peer_label"@, label@),
            );
        },
        PeerIdentity::Sid { sid, elevated, administrator, .. } => {
            let id = text_member("peer_sid"@, sid@);
            let marks = bool_member("elevated"@, elevated) + bool_member(
                "administrator"@,
                administrator,
            );
            assert(peer_members(peer) =~= empty + id + marks);
            crate::text::lemma_part_within(whole, empty, id, marks);
        },
        _ => {},
    }
}

proof fn lemma_member_names()
    ensures
        ",\""@ + "principal"@ + "\":"@ == ",\"principal\":"@,
        ",\""@ + "method"@ + "\":"@ == ",\"method\":"@,
        ",\""@ + "cred_id"@ + "\":"@ == ",\"cred_id\":"@,
        ",\""@ + "target_url"@ + "\":"@ == ",\"target_url\":"@,
        ",\""@ + "session_id"@ + "\":"@ == ",\"session_id\":"@,
        ",\""@ + "namespace"@ + "\":"@ == ",\"namespace\":"@,
        ",\""@ + "outcome"@ + "\":"@ == ",\"outcome\":"@,
        ",\""@ + "peer_id"@ + "\":"@ == ",\"peer_id\":"@,
        ",\""@ + "peer_sid"@ + "\":"@ == ",\"peer_sid\":"@,
        ",\""@ + "shared"@ + "\":true"@ == ",\"shared\":true"@,
        ",\""@ + "shared"@ + "\":false"@ == ",\"shared\":false"@,
{
    reveal_strlit(",\"");
    reveal_strlit("\":");
    reveal_strlit("\":true");
    reveal_strlit("\":false");
    reveal_strlit("principal");
    reveal_strlit("method");
    reveal_strlit("cred_id");
    reveal_strlit("target_url");
    reveal_strlit("session_id");
    reveal_strlit("namespace");
    reveal_strlit("outcome");
    reveal_strlit("peer_id");
    reveal_strlit("peer_sid");
    reveal_strlit("shared");
    reveal_strlit(",\"principal\":");
    reveal_strlit(",\"method\":");
    reveal_strlit(",\"cred_id\":");
    reveal_strlit(",\"target_url\":");
    reveal_strlit(",\"session_id\":");
    reveal_strlit(",\"namespace\":");
    reveal_strlit(",\"outcome\":");
    reveal_strlit(",\"peer_id\":");
    reveal_strlit(",\"peer_sid\":");
    reveal_strlit(",\"shared\":true");
    reveal_strlit(",\"shared\":false");
    assert(",\""@ + "principal"@ + "\":"@ =~= ",\"principal\":"@);
    assert(",\""@ + "method"@ + "\":"@ =~= ",\"method\":"@);
    assert(",\""@ + "cred_id"@ + "\":"@ =~= ",\"cred_id\":"@);
    assert(",\""@ + "target_url"@ + "\":"@ =~= ",\"target_url\":"@);
    assert(",\""@ + "session_id"@ + "\":"@ =~= ",\"session_id\":"@);
    assert(",\""@ + "namespace"@ + "\":"@ =~= ",\"namespace\":"@);
    assert(",\""@ + "outcome"@ + "\":"@ =~= ",\"outcome\":"@);
    assert(",\""@ + "peer_id"@ + "\":"@ =~= ",\"peer_id\":"@);
    assert(",\""@ + "peer_sid"@ + "\":"@ =~= ",\"peer_sid\":"@);
    assert(",\""@ + "shared"@ + "\":true"@ =~= ",\"shared\":true"@);
    assert(",\""@ + "shared"@ + "\":false"@ =~= ",\"shared\":false"@);
}

/// What is recorded of a call are the references that it names: the credential,
/// the destination, the session, and the namespace, which is that of the
/// credential where none is named.
pub proof fn law_calls_are_recorded_by_reference(
    params: &Params,
    fields: AuditFields,
    key: &str,
    given: Option<String>,
    namespace: Option<String>,
    prefix: Seq<char>,
    entry: Seq<char>,
)
    requires
        call_ensures(audit_fields, (params,), fields),
        call_ensures(Params::get_text, (params, key), given),
    ensures
        key@ == "cred_id"@ ==> crate::text::opt_text(fields.cred_id) == crate::text::opt_text(
            given,
        ),
        key@ == "target_url"@ ==> crate::text::opt_text(fields.target_url)
            == crate::text::opt_text(given),
        key@ == "session_id"@ ==> crate::text::opt_text(fields.session_id)
            == crate::text::opt_text(given),
        key@ == "namespace"@ && given is Some ==> crate::text::opt_text(fields.namespace)
            == crate::text::opt_text(given),
        key@ == "namespace"@ && given is None && (fields.cred_id matches Some(id) && id@
            == prefix.push(':') + entry) && !prefix.contains(':') ==> fields.namespace is Some
            && fields.namespace->0@ == prefix,
        fields.shared is None,
{
    if !prefix.contains(':') {
        crate::text::lemma_split_first_unique(prefix, ':', entry);
    }
}

/// An act of the daemon itself is recorded as such, with the session and the
/// namespace that it is about.
pub proof fn law_own_acts_are_recorded(
    unix_time_secs: u64,
    method: &str,
    session_id: Option<String>,
    namespace: String,
    record: AuditRecord,
)
    requires
        call_ensures(system_record, (unix_time_secs, method, session_id, namespace), record),
    ensures
        record.peer is System,
        record.principal@ == "system"@,
        record.method@ == method@,
        record.outcome@ == "ok"@,
        record.fields.namespace is Some && record.fields.namespace->0@ == namespace@,
        session_id is Some <==> record.fields.session_id is Some,
        session_id matches Some(id) ==> record.fields.session_id->0@ == id@,
        record.fields.cred_id is None && record.fields.target_url is None,
{
    let f = record.fields@;
    assert(f.namespace == Some(namespace@));
    assert(f.session_id == crate::text::opt_text(session_id));
    assert(f.cred_id is None && f.target_url is None);
}

/// A log is moved aside where a limit is set that the record would exceed,
/// where it holds something, and only once.
pub proof fn law_full_logs_are_moved_aside(
    max_bytes: Option<u64>,
    rotated: bool,
    current_size: u64,
    record: u64,
    full: bool,
    path: &str,
    aside: String,
)
    requires
        call_ensures(must_rotate, (max_bytes, rotated, current_size, record), full),
        call_ensures(rotated_path, (path,), aside),
        current_size + record <= u64::MAX,
    ensures
        full <==> max_bytes is Some && current_size + record > max_bytes->0 && !rotated
            && current_size > 0,
        aside@ == path@ + ".1"@,
{
}

/// The record that is begun is the one that is written, as a line of its own.
pub proof fn law_begun_records_are_written(
    log: &mut AuditLog,
    opened: &mut AuditLog,
    record: &AuditRecord,
    begun: LogAction,
    written: LogAction,
    line: Option<String>,
)
    requires
        call_ensures(AuditLog::begin, (log, record), begun),
        call_ensures(AuditRecord::line, (record,), line),
        line is Some,
        old(opened)@.phase is Open,
        old(opened)@.line == final(log)@.line,
        call_ensures(AuditLog::step, (opened, LogEvent::Done), written),
    ensures
        begun is ReadSize,
        written matches LogAction::Write(bytes) && bytes@ == vstd::utf8::encode_utf8(line->0@).push(
            10,
        ),
        final(log)@.path == old(log)@.path,
{
    assert(begun@ is ReadSize);
    assert(written@ is Write);
}

/// Every record whose texts fit in memory is written.
pub proof fn law_records_can_be_written(record: &AuditRecord, line: Option<String>)
    requires
        call_ensures(AuditRecord::line, (record,), line),
        crate::encoding::encodable(record.ts@),
        crate::encoding::encodable(record.principal@),
        crate::encoding::encodable(record.method@),
        crate::encoding::encodable(record.outcome@),
        record.fields.cred_id matches Some(text) ==> crate::encoding::encodable(text@),
        record.fields.target_url matches Some(text) ==> crate::encoding::encodable(text@),
        record.fields.session_id matches Some(text) ==> crate::encoding::encodable(text@),
        record.fields.namespace matches Some(text) ==> crate::encoding::encodable(text@),
        match record.peer {
            PeerIdentity::Sid { sid, .. } => crate::encoding::encodable(sid@),
            PeerIdentity::Peer { peer_id, label } => crate::encoding::encodable(peer_id@)
                && crate::encoding::encodable(label@),
            _ => true,
        },
    ensures
        line is Some,
{
}

} // verus!
