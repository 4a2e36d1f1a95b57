//! The bridge: a local socket whose clients reach a daemon over TCP.

use vstd::prelude::*;
use vstd::string::*;

use crate::text::{
    decimal_text, decode_text, same_text, text_lines, text_trim_end, text_words, to_chars,
    CharClass,
};
use crate::wire::{
    Preamble, PreambleResponse, PreambleTunnel, RpcError, RpcRequest, RpcResponse, RpcResult,
    PREAMBLE_VERSION,
};

verus! {

/// Where a bridge listens, and where it leads.
#[derive(Debug)]
pub struct BridgeConfig {
    pub socket_path: String,
    pub token_file: String,
    pub daemon_addr: String,
}

// ---------------------------------------------------------------------------
// The default route
// ---------------------------------------------------------------------------

/// The value of a hexadecimal digit.
pub open spec fn hex_value(c: char) -> Option<nat> {
    if '0' <= c <= '9' {
        Some((c as u32 - '0' as u32) as nat)
    } else if 'a' <= c <= 'f' {
        Some((c as u32 - 'a' as u32 + 10) as nat)
    } else if 'A' <= c <= 'F' {
        Some((c as u32 - 'A' as u32 + 10) as nat)
    } else {
        None
    }
}

/// The number that two characters write in hexadecimal; a plus sign may stand
/// for the first digit.
pub open spec fn hex_pair(a: char, b: char) -> Option<nat> {
    match hex_value(b) {
        None => None,
        Some(low) => if a == '+' {
            Some(low)
        } else {
            match hex_value(a) {
                Some(high) => Some(16 * high + low),
                None => None,
            }
        },
    }
}

fn digit_of(c: char) -> (r: Option<u8>)
    ensures
        match r {
            Some(v) => hex_value(c) == Some(v as nat) && v < 16,
            None => hex_value(c) is None,
        },
{
    let n: u32 = c as u32;
    if '0' <= c && c <= '9' {
        Some((n - 0x30) as u8)
    } else if 'a' <= c && c <= 'f' {
        Some((n - 0x61 + 10) as u8)
    } else if 'A' <= c && c <= 'F' {
        Some((n - 0x41 + 10) as u8)
    } else {
        None
    }
}

fn octet_of(a: char, b: char) -> (r: Option<u8>)
    ensures
        match r {
            Some(v) => hex_pair(a, b) == Some(v as nat),
            None => hex_pair(a, b) is None,
        },
{
    match digit_of(b) {
        None => None,
        Some(low) => if a == '+' {
            Some(low)
        } else {
            match digit_of(a) {
                Some(high) => Some(16 * high + low),
                None => None,
            }
        },
    }
}

/// The octets of a gateway as the kernel writes it, the last octet of the
/// address first.
pub open spec fn gateway_octets(gateway: Seq<char>) -> Option<(nat, nat, nat, nat)> {
    if gateway.len() != 8 {
        None
    } else {
        match (
            hex_pair(gateway[0], gateway[1]),
            hex_pair(gateway[2], gateway[3]),
            hex_pair(gateway[4], gateway[5]),
            hex_pair(gateway[6], gateway[7]),
        ) {
            (Some(a), Some(b), Some(c), Some(d)) => Some((a, b, c, d)),
            _ => None,
        }
    }
}

/// The address of the daemon behind a gateway.
pub open spec fn daemon_address(octets: (nat, nat, nat, nat)) -> Seq<char> {
    crate::text::decimal(octets.3).push('.') + crate::text::decimal(octets.2).push('.')
        + crate::text::decimal(octets.1).push('.') + crate::text::decimal(octets.0) + ":21575"@
}

/// The address that one line of the routing table leads to: that of the
/// gateway, where the line is a default route with one.
pub open spec fn route_address(line: Seq<char>) -> Option<Seq<char>> {
    let columns = crate::text::words(line);
    if columns.len() < 3 || columns[1] != "00000000"@ || columns[2] == "00000000"@ {
        None
    } else {
        match gateway_octets(columns[2]) {
            Some(octets) => Some(daemon_address(octets)),
            None => None,
        }
    }
}

/// The first address that a list of lines leads to.
pub open spec fn first_address(lines: Seq<Seq<char>>) -> Option<Seq<char>>
    decreases lines.len(),
{
    if lines.len() == 0 {
        None
    } else {
        match route_address(lines[0]) {
            Some(address) => Some(address),
            None => first_address(lines.drop_first()),
        }
    }
}

fn address_of_gateway(gateway: &str) -> (r: Option<String>)
    ensures
        crate::text::opt_text(r) == (match gateway_octets(gateway@) {
            Some(octets) => Some(daemon_address(octets)),
            None => None,
        }),
{
    let chars = to_chars(gateway);
    if chars.len() != 8 {
        return None;
    }
    match (
        octet_of(chars[0], chars[1]),
        octet_of(chars[2], chars[3]),
        octet_of(chars[4], chars[5]),
        octet_of(chars[6], chars[7]),
    ) {
        (Some(a), Some(b), Some(c), Some(d)) => {
            let mut out = decimal_text(d as u64);
            out.push('.');
            let mut second = decimal_text(c as u64);
            second.push('.');
            out.append(second.as_str());
            let mut third = decimal_text(b as u64);
            third.push('.');
            out.append(third.as_str());
            out.append(decimal_text(a as u64).as_str());
            out.append(":21575");
            Some(out)
        },
        _ => None,
    }
}

fn address_of_line(line: &str) -> (r: Option<String>)
    ensures
        crate::text::opt_text(r) == route_address(line@),
{
    let columns = text_words(line);
    let ghost views = crate::text::words(line@);
    assert(views.len() == columns@.len());
    if columns.len() < 3 {
        return None;
    }
    proof {
        assert(views[1] == columns@[1]@);
        assert(views[2] == columns@[2]@);
    }
    if !same_text(columns[1].as_str(), "00000000") || same_text(columns[2].as_str(), "00000000") {
        return None;
    }
    address_of_gateway(columns[2].as_str())
}

/// The address of the daemon on the host of a WSL guest: that of the default
/// gateway, with the daemon's port. `route` is the routing table of the
/// kernel, whose first line is a heading.
pub fn default_daemon_addr(route: &str) -> (r: Result<String, String>)
    ensures
        ({
            let lines = crate::text::lines(route@);
            match first_address(
                if lines.len() == 0 {
                    lines
                } else {
                    lines.drop_first()
                },
            ) {
                Some(address) => r matches Ok(a) && a@ == address,
                None => r matches Err(m) && m@ == "no default route in /proc/net/route"@,
            }
        }),
{
    let lines = text_lines(route);
    let ghost all = crate::text::lines(route@);
    assert(all.len() == lines@.len());
    let mut i: usize = 1;
    assert(all.len() > 0 ==> all.skip(1) =~= all.drop_first());
    while i < lines.len()
        invariant
            1 <= i,
            all == crate::text::lines(route@),
            all == crate::text::texts(lines@),
            lines@.len() >= 1 ==> i <= lines@.len() && first_address(all.drop_first())
                == first_address(all.skip(i as int)),
        decreases lines@.len() - i,
    {
        proof {
            assert(all.skip(i as int)[0] == lines@[i as int]@);
            assert(all.skip(i as int).drop_first() =~= all.skip(i + 1));
        }
        match address_of_line(lines[i].as_str()) {
            Some(address) => {
                return Ok(address);
            },
            None => {},
        }
        i += 1;
    }
    Err("no default route in /proc/net/route".to_owned())
}

// ---------------------------------------------------------------------------
// Tokens and clients
// ---------------------------------------------------------------------------

/// The token file must be open to its owner alone.
pub fn check_token_mode(mode: u32) -> (r: Result<(), String>)
    ensures
        match r {
            Ok(()) => mode % 0o10000 == 0o600,
            Err(m) => mode % 0o10000 != 0o600 && m@ == "token file must have permissions 0600"@,
        },
{
    if mode % 0o10000 == 0o600 {
        Ok(())
    } else {
        Err("token file must have permissions 0600".to_owned())
    }
}

/// The token that a file holds: without the white space at its end.
pub fn token_of_file(contents: &str) -> (r: String)
    ensures
        r@ == crate::text::trim_end(contents@, CharClass::White),
{
    text_trim_end(contents, CharClass::White)
}

/// The bridge serves its own user, where the kernel names the user at all.
pub fn serves_client(peer_uid: Option<u32>, own_uid: u32) -> (r: bool)
    ensures
        r == (peer_uid == Some(own_uid)),
{
    match peer_uid {
        Some(uid) => uid == own_uid,
        None => false,
    }
}

/// The preamble that the bridge sends for a client.
pub fn bridge_preamble(token: &str, tunnel: Option<PreambleTunnel>) -> (r: Preamble)
    ensures
        r.v == PREAMBLE_VERSION,
        r.auth@ == token@,
        r.tunnel == tunnel,
{
    Preamble { v: PREAMBLE_VERSION, auth: token.to_owned(), tunnel }
}

/// What a refusal of the daemon is passed on as.
pub open spec fn passed_on(error: Option<Seq<char>>) -> Seq<char> {
    if error == Some("UNAUTHORIZED"@) {
        "UNAUTHORIZED"@
    } else if error == Some("FORBIDDEN"@) {
        "FORBIDDEN"@
    } else {
        "INTERNAL"@
    }
}

/// What a refusal of the daemon is passed on as.
pub fn refusal_message(error: &Option<String>) -> (r: String)
    ensures
        r@ == passed_on(crate::text::opt_text(*error)),
{
    match error {
        Some(code) => if same_text(code.as_str(), "UNAUTHORIZED") {
            "UNAUTHORIZED".to_owned()
        } else if same_text(code.as_str(), "FORBIDDEN") {
            "FORBIDDEN".to_owned()
        } else {
            "INTERNAL".to_owned()
        },
        None => "INTERNAL".to_owned(),
    }
}

/// The response that tells a client of a failure.
pub fn bridge_error(id: String, message: String) -> (r: RpcResponse)
    ensures
        r.jsonrpc@ == "2.0"@,
        r.id == id,
        r.result is None,
        r.error matches Some(e) && e.code == -32000 && e.message == message,
{
    RpcResponse {
        jsonrpc: "2.0",
        id,
        result: None,
        error: Some(RpcError { code: -32000, message }),
    }
}

/// The response that tells a client of its tunnel.
pub fn tunnel_opened(id: String, local_port: u16) -> (r: RpcResponse)
    ensures
        r.jsonrpc@ == "2.0"@,
        r.id == id,
        r.result == Some(RpcResult::Tunnel { local_port }),
        r.error is None,
{
    RpcResponse { jsonrpc: "2.0", id, result: Some(RpcResult::Tunnel { local_port }), error: None }
}

/// The id that a failure is answered with: that of the first request, where it
/// is one.
pub fn first_request_id(request: &Option<RpcRequest>) -> (r: String)
    ensures
        r@ == (match *request {
            Some(request) => request.id@,
            None => "null"@,
        }),
{
    match request {
        Some(request) => request.id.clone(),
        None => "null".to_owned(),
    }
}

/// Whether the first request is for the bridge itself.
pub fn opens_tunnel(request: &Option<RpcRequest>) -> (r: bool)
    ensures
        r == (*request matches Some(request) && request.method@ == "bridge_open_tunnel"@),
{
    match request {
        Some(request) => same_text(request.method.as_str(), "bridge_open_tunnel"),
        None => false,
    }
}

// ---------------------------------------------------------------------------
// Lines
// ---------------------------------------------------------------------------

/// Where the reading of a line stands.
#[derive(Debug)]
pub enum LineRead {
    /// The line is not complete.
    More,
    /// The line is complete.
    Line(String),
    /// The line is complete, and no text.
    NotText,
}

/// Takes one byte of a line in.
pub fn push_line_byte(bytes: &mut Vec<u8>, byte: u8) -> (r: LineRead)
    ensures
        if byte == 0x0a {
            &&& final(bytes)@.len() == 0
            &&& match crate::text::decoded(old(bytes)@.push(byte)) {
                Some(text) => r matches LineRead::Line(line) && line@ == text,
                None => r is NotText,
            }
        } else {
            final(bytes)@ == old(bytes)@.push(byte) && r is More
        },
{
    bytes.push(byte);
    if byte != 0x0a {
        return LineRead::More;
    }
    let mut whole: Vec<u8> = Vec::new();
    std::mem::swap(&mut whole, bytes);
    match decode_text(whole) {
        Ok(line) => LineRead::Line(line),
        Err(_) => LineRead::NotText,
    }
}

/// Whether a stream that ends here ends inside a line.
pub fn ends_inside_line(bytes: &Vec<u8>) -> (r: bool)
    ensures
        r == (bytes@.len() > 0),
{
    bytes.len() > 0
}

// ---------------------------------------------------------------------------
// Relaying requests
// ---------------------------------------------------------------------------

/// Where the relay of a client's requests stands.
#[derive(Clone, Copy, Debug, PartialEq, Eq, Structural)]
pub enum RelayPhase {
    /// The connection to the daemon is being made.
    Connecting,
    /// The preamble is being sent.
    Greeting,
    /// The first request is being sent.
    Sending,
    /// The daemon has not answered yet.
    AwaitingReply,
    /// The daemon has answered.
    Relaying,
    Closed,
}

/// What happened.
pub enum RelayEvent {
    /// The connection was made, or not.
    Connected(bool),
    /// The preamble was sent, or not.
    Greeted(bool),
    /// The first request was sent, or not.
    Sent(bool),
    /// The daemon sent a line, which may be the refusal of the preamble.
    Line(Option<PreambleResponse>),
    /// The daemon closed the connection.
    End,
}

/// What the bridge does.
#[derive(Debug)]
pub enum RelayAction {
    /// Send the preamble.
    Greet,
    /// Send the first request.
    Send,
    /// Pass requests on to the daemon, and wait for its lines.
    Relay,
    /// Pass the line on to the client.
    PassOn,
    /// Tell the client of a failure, and close.
    Fail(String),
    /// Close.
    Close,
}

/// What the bridge does, by the view of its message.
#[verifier::ext_equal]
pub enum RelayView {
    Greet,
    Send,
    Relay,
    PassOn,
    Fail(Seq<char>),
    Close,
}

impl View for RelayAction {
    type V = RelayView;

    open spec fn view(&self) -> RelayView {
        match *self {
            RelayAction::Greet => RelayView::Greet,
            RelayAction::Send => RelayView::Send,
            RelayAction::Relay => RelayView::Relay,
            RelayAction::PassOn => RelayView::PassOn,
            RelayAction::Fail(m) => RelayView::Fail(m@),
            RelayAction::Close => RelayView::Close,
        }
    }
}

/// The code of a refusal.
pub open spec fn refusal_of(reply: Option<PreambleResponse>) -> Option<Option<Seq<char>>> {
    match reply {
        Some(response) => if response.ok {
            None
        } else {
            Some(crate::text::opt_text(response.error))
        },
        None => None,
    }
}

/// What comes after an event.
pub open spec fn relay_next(phase: RelayPhase, event: RelayEvent) -> (RelayPhase, RelayView) {
    match (phase, event) {
        (RelayPhase::Connecting, RelayEvent::Connected(true)) => (
            RelayPhase::Greeting,
            RelayView::Greet,
        ),
        (RelayPhase::Greeting, RelayEvent::Greeted(true)) => (RelayPhase::Sending, RelayView::Send),
        (RelayPhase::Sending, RelayEvent::Sent(true)) => (
            RelayPhase::AwaitingReply,
            RelayView::Relay,
        ),
        (RelayPhase::Connecting, RelayEvent::Connected(false)) => (
            RelayPhase::Closed,
            RelayView::Fail("INTERNAL"@),
        ),
        (RelayPhase::Greeting, RelayEvent::Greeted(false)) => (
            RelayPhase::Closed,
            RelayView::Fail("INTERNAL"@),
        ),
        (RelayPhase::Sending, RelayEvent::Sent(false)) => (
            RelayPhase::Closed,
            RelayView::Fail("INTERNAL"@),
        ),
        (RelayPhase::AwaitingReply, RelayEvent::Line(reply)) => match refusal_of(reply) {
            Some(error) => (RelayPhase::Closed, RelayView::Fail(passed_on(error))),
            None => (RelayPhase::Relaying, RelayView::PassOn),
        },
        (RelayPhase::AwaitingReply, RelayEvent::End) => (
            RelayPhase::Closed,
            RelayView::Fail("INTERNAL"@),
        ),
        (RelayPhase::Relaying, RelayEvent::Line(_)) => (RelayPhase::Relaying, RelayView::PassOn),
        _ => (RelayPhase::Closed, RelayView::Close),
    }
}

impl RelayPhase {
    /// Takes one event, and says what the bridge does.
    pub fn step(&mut self, event: RelayEvent) -> (action: RelayAction)
        ensures
            (*final(self), action@) == relay_next(*old(self), event),
    {
        match (*self, event) {
            (RelayPhase::Connecting, RelayEvent::Connected(true)) => {
                *self = RelayPhase::Greeting;
                RelayAction::Greet
            },
            (RelayPhase::Greeting, RelayEvent::Greeted(true)) => {
                *self = RelayPhase::Sending;
                RelayAction::Send
            },
            (RelayPhase::Sending, RelayEvent::Sent(true)) => {
                *self = RelayPhase::AwaitingReply;
                RelayAction::Relay
            },
            (RelayPhase::Connecting, RelayEvent::Connected(false)) => {
                *self = RelayPhase::Closed;
                RelayAction::Fail("INTERNAL".to_owned())
            },
            (RelayPhase::Greeting, RelayEvent::Greeted(false)) => {
                *self = RelayPhase::Closed;
                RelayAction::Fail("INTERNAL".to_owned())
            },
            (RelayPhase::Sending, RelayEvent::Sent(false)) => {
                *self = RelayPhase::Closed;
                RelayAction::Fail("INTERNAL".to_owned())
            },
            (RelayPhase::AwaitingReply, RelayEvent::Line(reply)) => match reply {
                Some(response) => if response.ok {
                    *self = RelayPhase::Relaying;
                    RelayAction::PassOn
                } else {
                    *self = RelayPhase::Closed;
                    RelayAction::Fail(refusal_message(&response.error))
                },
                None => {
                    *self = RelayPhase::Relaying;
                    RelayAction::PassOn
                },
            },
            (RelayPhase::AwaitingReply, RelayEvent::End) => {
                *self = RelayPhase::Closed;
                RelayAction::Fail("INTERNAL".to_owned())
            },
            (RelayPhase::Relaying, RelayEvent::Line(_)) => {
                *self = RelayPhase::Relaying;
                RelayAction::PassOn
            },
            _ => {
                *self = RelayPhase::Closed;
                RelayAction::Close
            },
        }
    }
}

/// A client is told of a failure as long as the daemon has not answered, and
/// only then; after that nothing but lines of the daemon reach it.
pub proof fn law_failures_are_told_once(phase: RelayPhase, event: RelayEvent)
    ensures
        relay_next(phase, event).1 is Fail ==> relay_next(phase, event).0 is Closed && phase
            != RelayPhase::Relaying && phase != RelayPhase::Closed,
        phase is Relaying ==> relay_next(phase, event).1 is PassOn || relay_next(phase, event).1
            is Close,
        phase is Closed ==> relay_next(phase, event) == (RelayPhase::Closed, RelayView::Close),
{
}

/// The refusal of the preamble never reaches a client as it is: it becomes an
/// error of the first request.
pub proof fn law_refusals_become_errors(response: PreambleResponse)
    requires
        !response.ok,
    ensures
        relay_next(RelayPhase::AwaitingReply, RelayEvent::Line(Some(response))) == (
            RelayPhase::Closed,
            RelayView::Fail(passed_on(crate::text::opt_text(response.error))),
        ),
{
}

// ---------------------------------------------------------------------------
// Opening tunnels
// ---------------------------------------------------------------------------

/// Where the opening of a tunnel stands.
#[derive(Clone, Copy, Debug, PartialEq, Eq, Structural)]
pub enum TunnelPhase {
    /// The parameters are being read.
    Reading,
    /// The connection to the daemon is being made.
    Connecting,
    /// The preamble is being sent.
    Greeting,
    /// The daemon has not answered yet.
    AwaitingReply,
    /// The local port is being opened.
    Binding,
    /// The tunnel is open.
    Open,
    Closed,
}

/// What happened.
pub enum TunnelEvent {
    /// The parameters were read, or not.
    Params(bool),
    /// The connection was made, or not.
    Connected(bool),
    /// The preamble was sent, or not.
    Greeted(bool),
    /// The daemon answered, or something else came, or nothing.
    Reply(Option<PreambleResponse>),
    /// The local port is open, or not.
    Bound(Option<u16>),
}

/// What the bridge does.
#[derive(Debug)]
pub enum TunnelAction {
    /// Connect to the daemon.
    Connect,
    /// Send the preamble with the tunnel.
    Greet,
    /// Wait for the answer of the daemon.
    Await,
    /// Close this connection to the daemon and open a local port.
    Bind,
    /// Tell the client of the port and serve it.
    Serve(u16),
    /// Tell the client of a failure, and close.
    Fail(String),
    /// Close.
    Close,
}

/// What the bridge does, by the view of its message.
#[verifier::ext_equal]
pub enum TunnelView {
    Connect,
    Greet,
    Await,
    Bind,
    Serve(u16),
    Fail(Seq<char>),
    Close,
}

impl View for TunnelAction {
    type V = TunnelView;

    open spec fn view(&self) -> TunnelView {
        match *self {
            TunnelAction::Connect => TunnelView::Connect,
            TunnelAction::Greet => TunnelView::Greet,
            TunnelAction::Await => TunnelView::Await,
            TunnelAction::Bind => TunnelView::Bind,
            TunnelAction::Serve(port) => TunnelView::Serve(port),
            TunnelAction::Fail(m) => TunnelView::Fail(m@),
            TunnelAction::Close => TunnelView::Close,
        }
    }
}

/// What comes after an event.
pub open spec fn tunnel_next(phase: TunnelPhase, event: TunnelEvent) -> (TunnelPhase, TunnelView) {
    match (phase, event) {
        (TunnelPhase::Reading, TunnelEvent::Params(ok)) => if ok {
            (TunnelPhase::Connecting, TunnelView::Connect)
        } else {
            (TunnelPhase::Closed, TunnelView::Fail("INTERNAL"@))
        },
        (TunnelPhase::Connecting, TunnelEvent::Connected(ok)) => if ok {
            (TunnelPhase::Greeting, TunnelView::Greet)
        } else {
            (TunnelPhase::Closed, TunnelView::Fail("INTERNAL"@))
        },
        (TunnelPhase::Greeting, TunnelEvent::Greeted(ok)) => if ok {
            (TunnelPhase::AwaitingReply, TunnelView::Await)
        } else {
            (TunnelPhase::Closed, TunnelView::Fail("INTERNAL"@))
        },
        (TunnelPhase::AwaitingReply, TunnelEvent::Reply(reply)) => match reply {
            None => (TunnelPhase::Closed, TunnelView::Fail("INTERNAL"@)),
            Some(response) => if response.ok {
                (TunnelPhase::Binding, TunnelView::Bind)
            } else {
                (
                    TunnelPhase::Closed,
                    TunnelView::Fail(passed_on(crate::text::opt_text(response.error))),
                )
            },
        },
        (TunnelPhase::Binding, TunnelEvent::Bound(port)) => match port {
            Some(local_port) => (TunnelPhase::Open, TunnelView::Serve(local_port)),
            None => (TunnelPhase::Closed, TunnelView::Close),
        },
        _ => (TunnelPhase::Closed, TunnelView::Close),
    }
}

impl TunnelPhase {
    /// Takes one event, and says what the bridge does.
    pub fn step(&mut self, event: TunnelEvent) -> (action: TunnelAction)
        ensures
            (*final(self), action@) == tunnel_next(*old(self), event),
    {
        match (*self, event) {
            (TunnelPhase::Reading, TunnelEvent::Params(ok)) => {
                if ok {
                    *self = TunnelPhase::Connecting;
                    TunnelAction::Connect
                } else {
                    *self = TunnelPhase::Closed;
                    TunnelAction::Fail("INTERNAL".to_owned())
                }
            },
            (TunnelPhase::Connecting, TunnelEvent::Connected(ok)) => {
                if ok {
                    *self = TunnelPhase::Greeting;
                    TunnelAction::Greet
                } else {
                    *self = TunnelPhase::Closed;
                    TunnelAction::Fail("INTERNAL".to_owned())
                }
            },
            (TunnelPhase::Greeting, TunnelEvent::Greeted(ok)) => {
                if ok {
                    *self = TunnelPhase::AwaitingReply;
                    TunnelAction::Await
                } else {
                    *self = TunnelPhase::Closed;
                    TunnelAction::Fail("INTERNAL".to_owned())
                }
            },
            (TunnelPhase::AwaitingReply, TunnelEvent::Reply(reply)) => match reply {
                None => {
                    *self = TunnelPhase::Closed;
                    TunnelAction::Fail("INTERNAL".to_owned())
                },
                Some(response) => if response.ok {
                    *self = TunnelPhase::Binding;
                    TunnelAction::Bind
                } else {
                    *self = TunnelPhase::Closed;
                    TunnelAction::Fail(refusal_message(&response.error))
                },
            },
            (TunnelPhase::Binding, TunnelEvent::Bound(port)) => match port {
                Some(local_port) => {
                    *self = TunnelPhase::Open;
                    TunnelAction::Serve(local_port)
                },
                None => {
                    *self = TunnelPhase::Closed;
                    TunnelAction::Close
                },
            },
            _ => {
                *self = TunnelPhase::Closed;
                TunnelAction::Close
            },
        }
    }
}

/// A local port is opened only after the daemon has accepted the tunnel.
pub proof fn law_ports_open_after_acceptance(phase: TunnelPhase, event: TunnelEvent)
    ensures
        tunnel_next(phase, event).1 is Bind ==> phase is AwaitingReply && (
        event matches TunnelEvent::Reply(Some(response)) && response.ok),
        tunnel_next(phase, event).1 is Serve ==> phase is Binding,
{
}

/// What is done with a connection to an open tunnel.
#[derive(Clone, Copy, Debug, PartialEq, Eq, Structural)]
pub enum SpliceDecision {
    /// The two connections are spliced.
    Splice,
    /// The connection is closed.
    Close,
    /// The answer of the daemon is no answer.
    Invalid,
}

/// What is done with a connection to an open tunnel, given the line that the
/// daemon answered, where it answered, and what it says, where it says
/// anything.
pub fn splice_decision(answered: bool, reply: &Option<PreambleResponse>) -> (r: SpliceDecision)
    ensures
        r == (if !answered {
            SpliceDecision::Close
        } else {
            match *reply {
                None => SpliceDecision::Invalid,
                Some(response) => if response.ok {
                    SpliceDecision::Splice
                } else {
                    SpliceDecision::Close
                },
            }
        }),
{
    if !answered {
        return SpliceDecision::Close;
    }
    match reply {
        None => SpliceDecision::Invalid,
        Some(response) => if response.ok {
            SpliceDecision::Splice
        } else {
            SpliceDecision::Close
        },
    }
}

// ---------------------------------------------------------------------------
// What the bridge comes to
// ---------------------------------------------------------------------------

/// One octet, written with two hexadecimal digits.
pub open spec fn writes_octet(a: char, b: char, octet: u8) -> bool {
    a == "0123456789ABCDEF"@[octet as int / 16] && b == "0123456789ABCDEF"@[octet as int % 16]
}

proof fn lemma_octet(a: char, b: char, octet: u8)
    requires
        writes_octet(a, b, octet),
    ensures
        hex_pair(a, b) == Some(octet as nat),
{
    reveal_strlit("0123456789ABCDEF");
    lemma_hex_digit(a, octet as int / 16);
    lemma_hex_digit(b, octet as int % 16);
}

proof fn lemma_hex_digit(c: char, v: int)
    requires
        0 <= v < 16,
        c == "0123456789ABCDEF"@[v],
    ensures
        hex_value(c) == Some(v as nat),
        c != '+',
{
    reveal_strlit("0123456789ABCDEF");
}

/// The daemon is reached at the gateway of the first default route that has
/// one, whose octets the kernel writes from the last to the first, and at the
/// daemon's port. The heading of the table is no route.
pub proof fn law_the_gateway_of_the_default_route_is_taken(
    route: &str,
    address: Result<String, String>,
    i: int,
    a: u8,
    b: u8,
    c: u8,
    d: u8,
)
    requires
        call_ensures(default_daemon_addr, (route,), address),
        ({
            let lines = crate::text::lines(route@);
            &&& 1 <= i < lines.len()
            &&& forall|k: int|
                1 <= k < i ==> crate::text::words(#[trigger] lines[k]).len() < 3
                    || crate::text::words(lines[k])[1] != "00000000"@ || crate::text::words(
                    lines[k],
                )[2] == "00000000"@
            &&& crate::text::words(lines[i]).len() >= 3
            &&& crate::text::words(lines[i])[1] == "00000000"@
            &&& crate::text::words(lines[i])[2] != "00000000"@
            &&& crate::text::words(lines[i])[2].len() == 8
            &&& writes_octet(
                crate::text::words(lines[i])[2][0],
                crate::text::words(lines[i])[2][1],
                d,
            )
            &&& writes_octet(
                crate::text::words(lines[i])[2][2],
                crate::text::words(lines[i])[2][3],
                c,
            )
            &&& writes_octet(
                crate::text::words(lines[i])[2][4],
                crate::text::words(lines[i])[2][5],
                b,
            )
            &&& writes_octet(
                crate::text::words(lines[i])[2][6],
                crate::text::words(lines[i])[2][7],
                a,
            )
        }),
    ensures
        address matches Ok(text) && text@ == crate::text::decimal(a as nat) + seq!['.']
            + crate::text::decimal(b as nat) + seq!['.'] + crate::text::decimal(c as nat)
            + seq!['.'] + crate::text::decimal(d as nat) + ":21575"@,
{
    let lines = crate::text::lines(route@);
    let gateway = crate::text::words(lines[i])[2];
    lemma_octet(gateway[0], gateway[1], d);
    lemma_octet(gateway[2], gateway[3], c);
    lemma_octet(gateway[4], gateway[5], b);
    lemma_octet(gateway[6], gateway[7], a);
    let octets = (d as nat, c as nat, b as nat, a as nat);
    assert(route_address(lines[i]) == Some(daemon_address(octets)));
    assert(daemon_address(octets) =~= crate::text::decimal(a as nat) + seq!['.']
        + crate::text::decimal(b as nat) + seq!['.'] + crate::text::decimal(c as nat) + seq!['.']
        + crate::text::decimal(d as nat) + ":21575"@);
    let rest = lines.drop_first();
    assert(rest[i - 1] == lines[i]);
    assert forall|k: int| 0 <= k < i - 1 implies route_address(#[trigger] rest[k]) is None by {
        assert(rest[k] == lines[k + 1]);
    }
    lemma_first_route(rest, i - 1);
}

proof fn lemma_first_route(lines: Seq<Seq<char>>, i: int)
    requires
        0 <= i < lines.len(),
        route_address(lines[i]) is Some,
        forall|k: int| 0 <= k < i ==> route_address(#[trigger] lines[k]) is None,
    ensures
        first_address(lines) == route_address(lines[i]),
    decreases lines.len(),
{
    if i > 0 {
        assert(route_address(lines[0]) is None);
        let rest = lines.drop_first();
        assert(rest[i - 1] == lines[i]);
        assert forall|k: int| 0 <= k < i - 1 implies route_address(#[trigger] rest[k]) is None by {
            assert(rest[k] == lines[k + 1]);
        }
        lemma_first_route(rest, i - 1);
    }
}

/// The token is what the file holds before the white space at its end; the
/// file must be open to its owner alone, and only the owner is served.
pub proof fn law_tokens_are_read_from_their_file(
    token: Seq<char>,
    rest: Seq<char>,
    contents: &str,
    read: String,
    mode: u32,
    checked: Result<(), String>,
    uid: Option<u32>,
    own_uid: u32,
    served: bool,
)
    requires
        contents@ == token + rest,
        forall|i: int| 0 <= i < rest.len() ==> crate::text::is_white(#[trigger] rest[i]),
        token.len() > 0 ==> !crate::text::is_white(token.last()),
        call_ensures(token_of_file, (contents,), read),
        call_ensures(check_token_mode, (mode,), checked),
        call_ensures(serves_client, (uid, own_uid), served),
    ensures
        read@ == token,
        checked is Ok <==> mode % 4096 == 384,
        served <==> uid is Some && uid->0 == own_uid,
{
    crate::text::lemma_trimmed_is(token, rest, CharClass::White);
}

/// A client is told of a refusal that concerns it; any other failure is an
/// internal one.
pub proof fn law_refusals_are_passed_on(
    error: &Option<String>,
    message: String,
    id: String,
    response: RpcResponse,
    token: &str,
    tunnel: Option<PreambleTunnel>,
    preamble: Preamble,
    opened: RpcResponse,
    port: u16,
)
    requires
        call_ensures(refusal_message, (error,), message),
        call_ensures(bridge_error, (id, message), response),
        call_ensures(bridge_preamble, (token, tunnel), preamble),
        call_ensures(tunnel_opened, (id, port), opened),
    ensures
        response.id@ == id@,
        response.result is None && response.error is Some,
        (response.error->0).code == -32000,
        *error is Some && (error->0@ == "UNAUTHORIZED"@ || error->0@ == "FORBIDDEN"@) ==> (
        response.error->0).message@ == error->0@,
        *error is None || (error->0@ != "UNAUTHORIZED"@ && error->0@ != "FORBIDDEN"@) ==> (
        response.error->0).message@ == "INTERNAL"@,
        preamble.v == 1,
        preamble.auth@ == token@,
        preamble.tunnel == tunnel,
        opened.id@ == id@,
        opened.error is None,
        opened.result == Some(RpcResult::Tunnel { local_port: port }),
{
}

/// The first request is answered under its own id, and is for the bridge where
/// it asks for a tunnel.
pub proof fn law_first_requests_are_told_apart(
    request: &Option<RpcRequest>,
    id: String,
    opens: bool,
)
    requires
        call_ensures(first_request_id, (request,), id),
        call_ensures(opens_tunnel, (request,), opens),
    ensures
        *request matches Some(r) ==> id@ == r.id@ && (opens <==> r.method@
            == "bridge_open_tunnel"@),
        *request is None ==> id@ == "null"@ && !opens,
{
}

/// The bytes of a line are kept until its line feed, and give the line with it.
pub proof fn law_lines_are_read_to_their_end(
    text: Seq<char>,
    bytes: &mut Vec<u8>,
    byte: u8,
    read: LineRead,
)
    requires
        call_ensures(push_line_byte, (bytes, byte), read),
    ensures
        byte != 10 ==> read is More && final(bytes)@ == old(bytes)@ + seq![byte],
        byte == 10 ==> final(bytes)@.len() == 0,
        byte == 10 && old(bytes)@ + seq![byte] == vstd::utf8::encode_utf8(text) ==> (
        read matches LineRead::Line(line) && line@ == text),
{
    vstd::utf8::encode_utf8_valid_utf8(text);
    vstd::utf8::encode_utf8_decode_utf8(text);
    assert(old(bytes)@ + seq![byte] =~= old(bytes)@.push(byte));
}

/// A client whose connection is made gets its preamble sent before its request,
/// and the lines of the daemon back; whatever fails before the daemon answered
/// is told to the client as an internal failure, and a refusal as one.
pub proof fn law_requests_are_relayed(
    one: &mut RelayPhase,
    two: &mut RelayPhase,
    three: &mut RelayPhase,
    four: &mut RelayPhase,
    five: &mut RelayPhase,
    connected: bool,
    greeted: bool,
    sent: bool,
    reply: Option<PreambleResponse>,
    later: Option<PreambleResponse>,
    a: RelayAction,
    b: RelayAction,
    c: RelayAction,
    d: RelayAction,
    e: RelayAction,
)
    requires
        *old(one) is Connecting,
        call_ensures(RelayPhase::step, (one, RelayEvent::Connected(connected)), a),
        *old(two) == *final(one),
        call_ensures(RelayPhase::step, (two, RelayEvent::Greeted(greeted)), b),
        *old(three) == *final(two),
        call_ensures(RelayPhase::step, (three, RelayEvent::Sent(sent)), c),
        *old(four) == *final(three),
        call_ensures(RelayPhase::step, (four, RelayEvent::Line(reply)), d),
        *old(five) == *final(four),
        call_ensures(RelayPhase::step, (five, RelayEvent::Line(later)), e),
    ensures
        connected ==> a is Greet,
        !connected ==> (a matches RelayAction::Fail(m) && m@ == "INTERNAL"@) && b is Close && c
            is Close && d is Close,
        connected && greeted ==> b is Send,
        connected && !greeted ==> (b matches RelayAction::Fail(m) && m@ == "INTERNAL"@) && c
            is Close && d is Close,
        connected && greeted && sent ==> c is Relay,
        connected && greeted && !sent ==> (c matches RelayAction::Fail(m) && m@ == "INTERNAL"@)
            && d is Close,
        connected && greeted && sent && (reply is None || reply->0.ok) ==> d is PassOn && e
            is PassOn,
        connected && greeted && sent && reply is Some && !reply->0.ok ==> d is Fail && e is Close,
        connected && greeted && sent && reply is Some && !reply->0.ok && reply->0.error is Some
            && reply->0.error->0@ == "UNAUTHORIZED"@ ==> d->0@ == "UNAUTHORIZED"@,
{
    assert(connected ==> a@ is Greet);
    assert(!connected ==> a@ is Fail && b@ is Close && c@ is Close && d@ is Close);
    if connected {
        assert(greeted ==> b@ is Send);
        assert(!greeted ==> b@ is Fail && c@ is Close && d@ is Close);
        if greeted {
            assert(sent ==> c@ is Relay);
            assert(!sent ==> c@ is Fail && d@ is Close);
            if sent {
                if reply is Some && !reply->0.ok {
                    assert(d@ is Fail && e@ is Close);
                } else {
                    assert(d@ is PassOn && e@ is PassOn);
                }
            }
        }
    }
}

/// A tunnel whose daemon accepts it is served on the local port that was
/// opened; whatever fails before is told to the client.
pub proof fn law_tunnels_are_opened(
    one: &mut TunnelPhase,
    two: &mut TunnelPhase,
    three: &mut TunnelPhase,
    four: &mut TunnelPhase,
    five: &mut TunnelPhase,
    response: PreambleResponse,
    port: u16,
    a: TunnelAction,
    b: TunnelAction,
    c: TunnelAction,
    d: TunnelAction,
    e: TunnelAction,
)
    requires
        *old(one) is Reading,
        call_ensures(TunnelPhase::step, (one, TunnelEvent::Params(true)), a),
        *old(two) == *final(one),
        call_ensures(TunnelPhase::step, (two, TunnelEvent::Connected(true)), b),
        *old(three) == *final(two),
        call_ensures(TunnelPhase::step, (three, TunnelEvent::Greeted(true)), c),
        *old(four) == *final(three),
        call_ensures(TunnelPhase::step, (four, TunnelEvent::Reply(Some(response))), d),
        *old(five) == *final(four),
        call_ensures(TunnelPhase::step, (five, TunnelEvent::Bound(Some(port))), e),
    ensures
        a is Connect,
        b is Greet,
        c is Await,
        response.ok ==> d is Bind && e == TunnelAction::Serve(port) && *final(five) is Open,
        !response.ok ==> d is Fail && e is Close,
        !response.ok && response.error is Some && (response.error->0@ == "UNAUTHORIZED"@
            || response.error->0@ == "FORBIDDEN"@) ==> d->Fail_0@ == response.error->0@,
{
    assert(a@ is Connect);
    assert(b@ is Greet);
    assert(c@ is Await);
    if response.ok {
        assert(d@ is Bind);
        assert(e@ == TunnelView::Serve(port));
    } else {
        assert(d@ is Fail);
        assert(e@ is Close);
    }
}

/// What fails while a tunnel is being opened is told as an internal failure,
/// and the tunnel is closed; a port that cannot be opened closes it silently.
pub proof fn law_failed_tunnels_are_told(
    phase: &mut TunnelPhase,
    event: TunnelEvent,
    action: TunnelAction,
)
    requires
        call_ensures(TunnelPhase::step, (phase, event), action),
    ensures
        ({
            ||| *old(phase) is Reading && event == TunnelEvent::Params(false)
            ||| *old(phase) is Connecting && event == TunnelEvent::Connected(false)
            ||| *old(phase) is Greeting && event == TunnelEvent::Greeted(false)
            ||| *old(phase) is AwaitingReply && event == TunnelEvent::Reply(None)
        }) ==> *final(phase) is Closed && (action matches TunnelAction::Fail(m) && m@
            == "INTERNAL"@),
        *old(phase) is Binding && event == TunnelEvent::Bound(None) ==> *final(phase) is Closed
            && action is Close,
{
    if *old(phase) is Binding && event == TunnelEvent::Bound(None) {
        assert(action@ is Close);
    }
    if (*old(phase) is Reading && event == TunnelEvent::Params(false)) || (*old(phase) is Connecting && event == TunnelEvent::Connected(false)) {
        assert(action@ is Fail);
    }
    if (*old(phase) is Greeting && event == TunnelEvent::Greeted(false)) || (*old(phase) is AwaitingReply && event == TunnelEvent::Reply(None)) {
        assert(action@ is Fail);
    }
}

/// A connection to an open tunnel is spliced where the daemon accepts it, and
/// nowhere else.
pub proof fn law_accepted_connections_are_spliced(
    answered: bool,
    reply: &Option<PreambleResponse>,
    decision: SpliceDecision,
)
    requires
        call_ensures(splice_decision, (answered, reply), decision),
    ensures
        decision is Splice <==> answered && *reply is Some && reply->0.ok,
        decision is Invalid <==> answered && *reply is None,
{
}

/// The bridge looks for the daemon on the port that the daemon listens on where
/// none is configured.
pub proof fn law_bridges_know_the_default_port(octets: (nat, nat, nat, nat))
    ensures
        daemon_address(octets) == crate::text::decimal(octets.3).push('.') + crate::text::decimal(
            octets.2,
        ).push('.') + crate::text::decimal(octets.1).push('.') + crate::text::decimal(octets.0)
            + seq![':'] + crate::text::decimal(crate::config::DEFAULT_TCP_PORT as nat),
{
    reveal_strlit(":21575");
    reveal_with_fuel(crate::text::decimal, 6);
    let port = crate::text::decimal(21575);
    assert(port =~= seq!['2', '1', '5', '7', '5']);
    assert(":21575"@ =~= seq![':'] + port);
    let head = crate::text::decimal(octets.3).push('.') + crate::text::decimal(octets.2).push('.')
        + crate::text::decimal(octets.1).push('.') + crate::text::decimal(octets.0);
    assert(head + ":21575"@ =~= head + seq![':'] + port);
}

/// A daemon that closes the connection without an answer is told to the client
/// as an internal failure; one that closes it afterwards just ends it.
pub proof fn law_closed_connections_end_the_relay(phase: &mut RelayPhase, action: RelayAction)
    requires
        call_ensures(RelayPhase::step, (phase, RelayEvent::End), action),
    ensures
        *final(phase) is Closed,
        *old(phase) is AwaitingReply ==> (action matches RelayAction::Fail(m) && m@ == "INTERNAL"@),
        *old(phase) is Relaying ==> action is Close,
{
    assert(*old(phase) is AwaitingReply ==> action@ is Fail);
    assert(*old(phase) is Relaying ==> action@ is Close);
}

} // verus!
