//! Who a client is, and which connections are let in.

use vstd::prelude::*;
use vstd::string::*;

use crate::config::{ListenConfig, Platform};
use crate::text::{
    char_is_digit, decimal_text, join2, join3, list_has, same_text, text_pieces, text_starts_with,
    to_chars,
};
use crate::wire::{PreambleError, PreambleTunnel};

verus! {

/// Identity of an authenticated peer, as established by the transport.
#[derive(Debug)]
pub enum PeerIdentity {
    /// Peer credentials of a UNIX domain socket client.
    Uid(u32),
    /// Named pipe client, identified by the SID of its access token. The
    /// elevation flag gates the administrative RPC surface.
    Sid { sid: String, elevated: bool, administrator: bool, normal_allowed: bool },
    /// TCP client that presented a valid preamble token.
    Peer { peer_id: String, label: String },
    /// The daemon itself, where it acts of its own accord.
    System,
}

impl PeerIdentity {
    /// The peer may use the ordinary requests.
    pub open spec fn normal(self, allowed_uids: Seq<u32>) -> bool {
        match self {
            PeerIdentity::Uid(uid) => allowed_uids.contains(uid),
            PeerIdentity::Sid { normal_allowed, .. } => normal_allowed,
            PeerIdentity::Peer { .. } => true,
            PeerIdentity::System => false,
        }
    }

    /// The peer may use the administrative requests.
    pub open spec fn admin(self, operator_uids: Seq<u32>) -> bool {
        match self {
            PeerIdentity::Uid(uid) => uid == 0 || operator_uids.contains(uid),
            PeerIdentity::Sid { elevated, administrator, .. } => elevated && administrator,
            PeerIdentity::Peer { .. } => false,
            PeerIdentity::System => false,
        }
    }

    /// The name under which leases and audit records are kept.
    pub open spec fn name(self) -> Seq<char> {
        match self {
            PeerIdentity::Uid(uid) => "uid:"@ + crate::text::decimal(uid as nat),
            PeerIdentity::Sid { sid, .. } => "sid:"@ + sid@,
            PeerIdentity::Peer { peer_id, .. } => "peer:"@ + peer_id@,
            PeerIdentity::System => "system"@,
        }
    }

    pub fn allows_normal_rpc(&self, allowed_uids: &[u32]) -> (r: bool)
        ensures
            r == self.normal(allowed_uids@),
    {
        match self {
            PeerIdentity::Uid(uid) => contains_uid(allowed_uids, *uid),
            PeerIdentity::Sid { normal_allowed, .. } => *normal_allowed,
            PeerIdentity::Peer { .. } => true,
            PeerIdentity::System => false,
        }
    }

    pub fn allows_admin_rpc(&self, operator_uids: &[u32]) -> (r: bool)
        ensures
            r == self.admin(operator_uids@),
    {
        match self {
            PeerIdentity::Uid(uid) => *uid == 0 || contains_uid(operator_uids, *uid),
            PeerIdentity::Sid { elevated, administrator, .. } => *elevated && *administrator,
            PeerIdentity::Peer { .. } => false,
            PeerIdentity::System => false,
        }
    }

    pub fn principal(&self) -> (r: String)
        ensures
            r@ == self.name(),
    {
        match self {
            PeerIdentity::Uid(uid) => join2("uid:", decimal_text(*uid as u64).as_str()),
            PeerIdentity::Sid { sid, .. } => join2("sid:", sid.as_str()),
            PeerIdentity::Peer { peer_id, .. } => peer_principal(peer_id.as_str()),
            PeerIdentity::System => "system".to_owned(),
        }
    }

    /// The peer as the approval command is told of it: the bare uid of a
    /// UNIX client, the principal of any other.
    pub fn approval_name(&self) -> (r: String)
        ensures
            r@ == (match *self {
                PeerIdentity::Uid(uid) => crate::text::decimal(uid as nat),
                _ => self.name(),
            }),
    {
        match self {
            PeerIdentity::Uid(uid) => decimal_text(*uid as u64),
            _ => self.principal(),
        }
    }

    /// A copy of the identity.
    pub fn copy(&self) -> (r: PeerIdentity)
        ensures
            r == *self,
    {
        match self {
            PeerIdentity::Uid(uid) => PeerIdentity::Uid(*uid),
            PeerIdentity::Sid { sid, elevated, administrator, normal_allowed } =>
                PeerIdentity::Sid {
                sid: sid.clone(),
                elevated: *elevated,
                administrator: *administrator,
                normal_allowed: *normal_allowed,
            },
            PeerIdentity::Peer { peer_id, label } => PeerIdentity::Peer {
                peer_id: peer_id.clone(),
                label: label.clone(),
            },
            PeerIdentity::System => PeerIdentity::System,
        }
    }
}

/// The principal of a peer that authenticates by token.
pub fn peer_principal(peer_id: &str) -> (r: String)
    ensures
        r@ == "peer:"@ + peer_id@,
{
    join2("peer:", peer_id)
}

fn contains_uid(uids: &[u32], uid: u32) -> (r: bool)
    ensures
        r == uids@.contains(uid),
{
    let mut i: usize = 0;
    while i < uids.len()
        invariant
            i <= uids@.len(),
            forall|j: int| 0 <= j < i ==> uids@[j] != uid,
        decreases uids@.len() - i,
    {
        if uids[i] == uid {
            assert(uids@[i as int] == uid);
            return true;
        }
        i += 1;
    }
    false
}

/// Lets a UNIX client in that may use either kind of request. Where the
/// kernel does not name the client's user it stays out.
pub fn admits_uid(uid: Option<u32>, allowed_uids: &[u32], operator_uids: &[u32]) -> (r: Option<
    PeerIdentity,
>)
    ensures
        match uid {
            Some(u) => if PeerIdentity::Uid(u).normal(allowed_uids@) || PeerIdentity::Uid(u).admin(
                operator_uids@,
            ) {
                r == Some(PeerIdentity::Uid(u))
            } else {
                r is None
            },
            None => r is None,
        },
{
    match uid {
        Some(u) => {
            let peer = PeerIdentity::Uid(u);
            if peer.allows_normal_rpc(allowed_uids) || peer.allows_admin_rpc(operator_uids) {
                Some(peer)
            } else {
                None
            }
        },
        None => None,
    }
}

/// Lets a named pipe client in that may use either kind of request.
pub fn admits_sid(
    sid: String,
    elevated: bool,
    administrator: bool,
    allowed_sids: &Vec<String>,
) -> (r: Option<PeerIdentity>)
    ensures
        ({
            let normal_allowed = crate::text::texts(allowed_sids@).contains(sid@);
            if normal_allowed || (administrator && elevated) {
                r == Some(PeerIdentity::Sid { sid, elevated, administrator, normal_allowed })
            } else {
                r is None
            }
        }),
{
    let normal_allowed = list_has(allowed_sids, sid.as_str());
    if !normal_allowed && !(administrator && elevated) {
        return None;
    }
    Some(PeerIdentity::Sid { sid, elevated, administrator, normal_allowed })
}

// ---------------------------------------------------------------------------
// Token connections
// ---------------------------------------------------------------------------

/// How long a preamble line may be, with its line feed.
pub const MAX_PREAMBLE_BYTES: usize = 4096;

/// How much of a refused client's input is read and thrown away.
pub const MAX_REFUSAL_DRAIN_BYTES: usize = 65536;

/// Where the reading of a preamble stands.
#[derive(Clone, Copy, Debug, PartialEq, Eq, Structural)]
pub enum PreambleRead {
    /// The line is not complete.
    More,
    /// The line is complete.
    Complete,
    /// The line is longer than a preamble may be.
    TooLong,
}

/// Takes one byte of a preamble line in.
pub fn push_preamble_byte(line: &mut Vec<u8>, byte: u8) -> (r: PreambleRead)
    ensures
        final(line)@ == old(line)@.push(byte),
        r == (if byte == 0x0a {
            PreambleRead::Complete
        } else if old(line)@.len() + 1 >= MAX_PREAMBLE_BYTES {
            PreambleRead::TooLong
        } else {
            PreambleRead::More
        }),
{
    line.push(byte);
    if byte == 0x0a {
        PreambleRead::Complete
    } else if line.len() >= MAX_PREAMBLE_BYTES {
        PreambleRead::TooLong
    } else {
        PreambleRead::More
    }
}

/// Counts a connection whose preamble is awaited, unless there are too many.
pub fn reserve_pending_connection(pending: usize, limit: usize) -> (r: Option<usize>)
    ensures
        r == (if pending < limit {
            Some((pending + 1) as usize)
        } else {
            None
        }),
{
    if pending < limit {
        Some(pending + 1)
    } else {
        None
    }
}

/// How much of a refused client's input is read next, given what was read so
/// far and the size of the buffer.
pub fn drain_length(remaining: usize, buffer: usize) -> (r: usize)
    ensures
        r == (if remaining < buffer {
            remaining
        } else {
            buffer
        }),
{
    if remaining < buffer {
        remaining
    } else {
        buffer
    }
}

/// What becomes of a connection whose token was accepted.
#[derive(Clone, Copy, Debug, PartialEq, Eq, Structural)]
pub enum TunnelDecision {
    /// The connection goes on with requests.
    Rpc,
    /// The connection is spliced to a port of the loopback interface.
    Tunnel(u16),
    /// The connection is refused.
    Refuse(PreambleError),
}

/// What a tunnel request is answered, given the port of the session.
pub open spec fn tunnel_rule(wanted: Option<u16>, owned: Option<u16>) -> TunnelDecision {
    match wanted {
        None => TunnelDecision::Rpc,
        Some(port) => match owned {
            None => TunnelDecision::Refuse(PreambleError::NotFound),
            Some(cdp_port) => if port == 0 || cdp_port != port {
                TunnelDecision::Refuse(PreambleError::Forbidden)
            } else {
                TunnelDecision::Tunnel(port)
            },
        },
    }
}

/// The port that a preamble asks for.
pub open spec fn wanted_port(tunnel: Option<PreambleTunnel>) -> Option<u16> {
    match tunnel {
        Some(t) => Some(t.port),
        None => None,
    }
}

/// A tunnel leads to the browser port of a session that the peer owns, and
/// nowhere else.
pub fn decide_tunnel(tunnel: &Option<PreambleTunnel>, owned: Option<u16>) -> (r: TunnelDecision)
    ensures
        r == tunnel_rule(wanted_port(*tunnel), owned),
{
    match tunnel {
        None => TunnelDecision::Rpc,
        Some(tunnel) => match owned {
            None => TunnelDecision::Refuse(PreambleError::NotFound),
            Some(cdp_port) => if tunnel.port == 0 || cdp_port != tunnel.port {
                TunnelDecision::Refuse(PreambleError::Forbidden)
            } else {
                TunnelDecision::Tunnel(tunnel.port)
            },
        },
    }
}

// ---------------------------------------------------------------------------
// Listeners
// ---------------------------------------------------------------------------

/// All octets of an address are zero.
pub open spec fn unspecified(octets: Seq<u8>) -> bool {
    forall|i: int| 0 <= i < octets.len() ==> #[trigger] octets[i] == 0
}

/// Checks the address that a TCP listener binds, given its octets where the
/// configured text is an address at all.
pub fn check_tcp_bind(octets: Option<&[u8]>) -> (r: Result<(), String>)
    ensures
        match octets {
            None => r matches Err(m) && m@ == "tcp bind must be an explicit IP address"@,
            Some(o) => if unspecified(o@) {
                r matches Err(m) && m@ == "tcp bind must not be an unspecified address"@
            } else {
                r is Ok
            },
        },
{
    match octets {
        None => Err("tcp bind must be an explicit IP address".to_owned()),
        Some(octets) => if all_zero(octets) {
            Err("tcp bind must not be an unspecified address".to_owned())
        } else {
            Ok(())
        },
    }
}

fn all_zero(octets: &[u8]) -> (r: bool)
    ensures
        r == unspecified(octets@),
{
    let mut i: usize = 0;
    while i < octets.len()
        invariant
            i <= octets@.len(),
            forall|j: int| 0 <= j < i ==> #[trigger] octets@[j] == 0,
        decreases octets@.len() - i,
    {
        if octets[i] != 0 {
            assert(octets@[i as int] != 0);
            return false;
        }
        i += 1;
    }
    true
}

/// Reports whether systemd handed exactly one listening socket to a process.
pub fn socket_activation_enabled(
    listen_fds: &Option<String>,
    listen_pid: &Option<String>,
    pid: u32,
) -> (r: bool)
    ensures
        r == (crate::text::opt_text(*listen_fds) == Some("1"@) && crate::text::opt_text(*listen_pid)
            == Some(crate::text::decimal(pid as nat))),
{
    match (listen_fds, listen_pid) {
        (Some(fds), Some(owner)) => same_text(fds.as_str(), "1") && same_text(
            owner.as_str(),
            decimal_text(pid as u64).as_str(),
        ),
        _ => false,
    }
}

/// A name of a pipe, without separators.
pub open spec fn is_pipe_name(name: Seq<char>) -> bool {
    &&& name.len() > 0
    &&& name != "."@
    &&& forall|i: int|
        0 <= i < name.len() ==> (#[trigger] name[i]) != '\\' && name[i] != '/' && name[i]
            as u32 != 0
}

/// The path of a named pipe.
pub fn pipe_path(pipe_name: &str) -> (r: Result<String, String>)
    ensures
        match r {
            Ok(path) => is_pipe_name(pipe_name@) && path@ == "\\\\.\\pipe\\"@ + pipe_name@,
            Err(m) => !is_pipe_name(pipe_name@) && m@
                == "pipe name must be a non-empty name without path separators"@,
        },
{
    let chars = to_chars(pipe_name);
    let mut valid = chars.len() > 0 && !same_text(pipe_name, ".");
    let mut i: usize = 0;
    while i < chars.len()
        invariant
            i <= chars@.len(),
            chars@ == pipe_name@,
            valid == (chars@.len() > 0 && pipe_name@ != "."@ && forall|j: int|
                0 <= j < i ==> (#[trigger] chars@[j]) != '\\' && chars@[j] != '/' && chars@[j]
                    as u32 != 0),
        decreases chars@.len() - i,
    {
        let c = chars[i];
        if c == '\\' || c == '/' || c as u32 == 0 {
            valid = false;
        }
        i += 1;
    }
    if valid {
        Ok(join2("\\\\.\\pipe\\", pipe_name))
    } else {
        Err("pipe name must be a non-empty name without path separators".to_owned())
    }
}

/// A component of a SID behind its authority.
pub open spec fn is_sid_number(s: Seq<char>) -> bool {
    s.len() > 0 && crate::text::all_digits(s)
}

/// A text that starts as a SID does, with decimal numbers behind the
/// authority.
pub open spec fn is_sid(sid: Seq<char>) -> bool {
    let parts = crate::text::pieces(sid, '-');
    &&& parts.len() >= 3
    &&& parts[0] == "S"@
    &&& parts[1] == "1"@
    &&& forall|i: int| 3 <= i < parts.len() ==> is_sid_number(#[trigger] parts[i])
}

fn is_number(s: &str) -> (r: bool)
    ensures
        r == is_sid_number(s@),
{
    let chars = to_chars(s);
    let mut i: usize = 0;
    while i < chars.len()
        invariant
            i <= chars@.len(),
            chars@ == s@,
            forall|j: int| 0 <= j < i ==> crate::text::is_digit(#[trigger] chars@[j]),
        decreases chars@.len() - i,
    {
        if !char_is_digit(chars[i]) {
            return false;
        }
        i += 1;
    }
    chars.len() > 0
}

/// Tells whether a text names a Windows account.
pub fn valid_sid(sid: &str) -> (r: bool)
    ensures
        r == is_sid(sid@),
{
    let parts = text_pieces(sid, '-');
    let ghost views = crate::text::pieces(sid@, '-');
    assert(views.len() == parts@.len());
    assert forall|i: int| 0 <= i < parts@.len() implies views[i] == (#[trigger] parts@[i])@ by {}
    if parts.len() < 3 || !same_text(parts[0].as_str(), "S") || !same_text(
        parts[1].as_str(),
        "1",
    ) {
        assert(views[0] == parts@[0]@);
        return false;
    }
    let mut i: usize = 3;
    while i < parts.len()
        invariant
            3 <= i,
            parts@.len() >= 3,
            i <= parts@.len(),
            views.len() == parts@.len(),
            views == crate::text::pieces(sid@, '-'),
            forall|j: int| 0 <= j < parts@.len() ==> views[j] == (#[trigger] parts@[j])@,
            forall|j: int| 3 <= j < i ==> is_sid_number(#[trigger] views[j]),
        decreases parts@.len() - i,
    {
        if !is_number(parts[i].as_str()) {
            assert(!is_sid_number(views[i as int]));
            return false;
        }
        i += 1;
    }
    assert(views[0] == parts@[0]@);
    assert(views[1] == parts@[1]@);
    true
}

/// One access control entry for each SID.
pub open spec fn allow_entries(sids: Seq<Seq<char>>) -> Seq<char>
    decreases sids.len(),
{
    if sids.len() == 0 {
        seq![]
    } else {
        allow_entries(sids.drop_last()) + "(A;;GA;;;"@ + sids.last() + ")"@
    }
}

/// Every SID of a list is one.
pub open spec fn all_sids(sids: Seq<Seq<char>>) -> bool {
    forall|i: int| 0 <= i < sids.len() ==> is_sid(#[trigger] sids[i])
}

/// The security descriptor of the pipe: the daemon's own account, the
/// administrators, the system, and each allowed account.
///
/// The daemon account needs the right to create instances of its own pipe:
/// every instance after the first is created against the security descriptor
/// of the existing instance.
pub fn pipe_descriptor(allowed_sids: &Vec<String>, daemon_sid: &str) -> (r: Result<String, String>)
    ensures
        match r {
            Ok(sddl) => {
                &&& all_sids(crate::text::texts(allowed_sids@))
                &&& is_sid(daemon_sid@)
                &&& sddl@ == "D:(A;;GA;;;"@ + daemon_sid@ + ")(A;;GA;;;BA)(A;;GA;;;SY)"@
                    + allow_entries(crate::text::texts(allowed_sids@))
            },
            Err(m) => if !all_sids(crate::text::texts(allowed_sids@)) {
                m@ == "allowed_sids must contain Windows SIDs"@
            } else {
                !is_sid(daemon_sid@) && m@ == "the daemon account must resolve to a Windows SID"@
            },
        },
{
    let ghost views = crate::text::texts(allowed_sids@);
    let mut entries = String::new();
    let mut i: usize = 0;
    assert(entries@ =~= allow_entries(views.take(0)));
    while i < allowed_sids.len()
        invariant
            i <= allowed_sids@.len(),
            views == crate::text::texts(allowed_sids@),
            entries@ == allow_entries(views.take(i as int)),
            forall|j: int| 0 <= j < i ==> is_sid(#[trigger] views[j]),
        decreases allowed_sids@.len() - i,
    {
        assert(views[i as int] == allowed_sids@[i as int]@);
        if !valid_sid(allowed_sids[i].as_str()) {
            assert(!all_sids(views));
            return Err("allowed_sids must contain Windows SIDs".to_owned());
        }
        proof {
            assert(views.take(i + 1).drop_last() =~= views.take(i as int));
        }
        entries.append("(A;;GA;;;");
        entries.append(allowed_sids[i].as_str());
        entries.append(")");
        i += 1;
    }
    assert(views.take(i as int) =~= views);
    if !valid_sid(daemon_sid) {
        return Err("the daemon account must resolve to a Windows SID".to_owned());
    }
    let mut sddl = join3("D:(A;;GA;;;", daemon_sid, ")(A;;GA;;;BA)(A;;GA;;;SY)");
    sddl.append(entries.as_str());
    Ok(sddl)
}

/// An IPv4 address.
#[derive(Clone, Copy, Debug, PartialEq, Eq, Structural)]
pub struct Ipv4 {
    pub a: u8,
    pub b: u8,
    pub c: u8,
    pub d: u8,
}

/// A network adapter: its name, and its IPv4 addresses in their order.
#[derive(Debug)]
pub struct Adapter {
    pub friendly_name: String,
    pub addresses: Vec<Ipv4>,
}

/// An adapter that leads to the WSL guests and has an address.
pub open spec fn is_wsl_adapter(adapter: Adapter) -> bool {
    "vEthernet (WSL"@.is_prefix_of(adapter.friendly_name@) && adapter.addresses@.len() > 0
}

/// The first address of the first adapter that leads to the WSL guests.
pub open spec fn wsl_address_of(adapters: Seq<Adapter>) -> Option<Ipv4>
    decreases adapters.len(),
{
    if adapters.len() == 0 {
        None
    } else if is_wsl_adapter(adapters[0]) {
        Some(adapters[0].addresses@[0])
    } else {
        wsl_address_of(adapters.drop_first())
    }
}

/// The address through which the WSL guests reach the host.
pub fn wsl_address(adapters: &Vec<Adapter>) -> (r: Option<Ipv4>)
    ensures
        r == wsl_address_of(adapters@),
{
    let mut i: usize = 0;
    assert(adapters@.skip(0) =~= adapters@);
    while i < adapters.len()
        invariant
            i <= adapters@.len(),
            wsl_address_of(adapters@) == wsl_address_of(adapters@.skip(i as int)),
        decreases adapters@.len() - i,
    {
        assert(adapters@.skip(i as int).drop_first() =~= adapters@.skip(i + 1));
        if text_starts_with(adapters[i].friendly_name.as_str(), "vEthernet (WSL")
            && adapters[i].addresses.len() > 0 {
            return Some(adapters[i].addresses[0]);
        }
        i += 1;
    }
    None
}

/// The address of the TCP listener on Windows: that of the WSL adapter, or the
/// configured one. `parsed` is the configured text as an IPv4 address, where
/// it is one.
pub fn windows_tcp_bind(bind: &str, parsed: Option<Ipv4>, adapters: &Vec<Adapter>) -> (r: Result<
    Ipv4,
    String,
>)
    ensures
        if bind@ == "auto"@ {
            match wsl_address_of(adapters@) {
                Some(address) => r == Ok::<Ipv4, String>(address),
                None => r matches Err(m) && m@
                    == "could not resolve an IPv4 address for a vEthernet (WSL adapter)"@,
            }
        } else {
            match parsed {
                Some(address) => r == Ok::<Ipv4, String>(address),
                None => r matches Err(m) && m@ == "tcp_bind must be `auto` or an IPv4 address"@,
            }
        },
{
    if same_text(bind, "auto") {
        match wsl_address(adapters) {
            Some(address) => Ok(address),
            None => Err(
                "could not resolve an IPv4 address for a vEthernet (WSL adapter)".to_owned(),
            ),
        }
    } else {
        match parsed {
            Some(address) => Ok(address),
            None => Err("tcp_bind must be `auto` or an IPv4 address".to_owned()),
        }
    }
}

/// Refuses listeners that the platform does not have.
pub fn check_listener(listener: &ListenConfig, platform: Platform) -> (r: Result<(), String>)
    ensures
        match (*listener, platform) {
            (ListenConfig::Pipe { .. }, Platform::Unix) => r matches Err(m) && m@
                == "pipe listeners are only supported on Windows"@,
            (ListenConfig::Unix { .. }, Platform::Windows) => r matches Err(m) && m@
                == "unix listeners are only supported on Unix"@,
            _ => r is Ok,
        },
{
    match (listener, platform) {
        (ListenConfig::Pipe { .. }, Platform::Unix) => Err(
            "pipe listeners are only supported on Windows".to_owned(),
        ),
        (ListenConfig::Unix { .. }, Platform::Windows) => Err(
            "unix listeners are only supported on Unix".to_owned(),
        ),
        _ => Ok(()),
    }
}

// ---------------------------------------------------------------------------
// Laws
// ---------------------------------------------------------------------------

/// A client that authenticated by token never has administrative rights, and
/// the daemon itself is no client.
pub proof fn law_token_peers_are_no_administrators(
    peer_id: String,
    label: String,
    operator_uids: Seq<u32>,
    allowed_uids: Seq<u32>,
)
    ensures
        !(PeerIdentity::Peer { peer_id, label }).admin(operator_uids),
        !PeerIdentity::System.admin(operator_uids),
        !PeerIdentity::System.normal(allowed_uids),
{
}

/// A tunnel only ever leads to the port that the session of the peer has.
pub proof fn law_tunnels_lead_to_owned_ports(wanted: Option<u16>, owned: Option<u16>)
    ensures
        tunnel_rule(wanted, owned) matches TunnelDecision::Tunnel(port) ==> owned == Some(port)
            && wanted == Some(port) && port != 0,
        wanted is Some && owned is None ==> tunnel_rule(wanted, owned) == TunnelDecision::Refuse(
            PreambleError::NotFound,
        ),
{
}

/// Peers of different transports never share a principal.
pub proof fn law_transports_do_not_share_principals(uid: u32, sid: Seq<char>, peer_id: Seq<char>)
    ensures
        "uid:"@ + crate::text::decimal(uid as nat) != "sid:"@ + sid,
        "uid:"@ + crate::text::decimal(uid as nat) != "peer:"@ + peer_id,
        "sid:"@ + sid != "peer:"@ + peer_id,
        "system"@ != "uid:"@ + crate::text::decimal(uid as nat),
        "system"@ != "sid:"@ + sid,
        "system"@ != "peer:"@ + peer_id,
{
    reveal_strlit("uid:");
    reveal_strlit("sid:");
    reveal_strlit("peer:");
    reveal_strlit("system");
    let u = "uid:"@ + crate::text::decimal(uid as nat);
    let s = "sid:"@ + sid;
    let p = "peer:"@ + peer_id;
    assert(u[0] == 'u' && s[0] == 's' && p[0] == 'p' && "system"@[0] == 's');
    assert(s[1] == 'i' && "system"@[1] == 'y');
}

/// Two token peers with different ids have different principals.
pub proof fn law_peer_principals_are_distinct(a: Seq<char>, b: Seq<char>)
    ensures
        "peer:"@ + a == "peer:"@ + b ==> a == b,
{
    if "peer:"@ + a == "peer:"@ + b {
        assert(("peer:"@ + a).skip("peer:"@.len() as int) =~= a);
        assert(("peer:"@ + b).skip("peer:"@.len() as int) =~= b);
    }
}

/// Who may call what: a configured user, or account, and every token peer may
/// make ordinary requests; root, an operator and an elevated administrator may
/// make administrative ones; a token peer never may.
pub proof fn law_rights_follow_from_identities(
    peer: &PeerIdentity,
    allowed_uids: &[u32],
    operator_uids: &[u32],
    normal: bool,
    admin: bool,
    i: int,
)
    requires
        call_ensures(PeerIdentity::allows_normal_rpc, (peer, allowed_uids), normal),
        call_ensures(PeerIdentity::allows_admin_rpc, (peer, operator_uids), admin),
    ensures
        *peer matches PeerIdentity::Uid(uid) ==> {
            &&& 0 <= i < allowed_uids@.len() && allowed_uids@[i] == uid ==> normal
            &&& (forall|k: int| 0 <= k < allowed_uids@.len() ==> #[trigger] allowed_uids@[k] != uid)
                ==> !normal
            &&& uid == 0 ==> admin
            &&& 0 <= i < operator_uids@.len() && operator_uids@[i] == uid ==> admin
            &&& uid != 0 && (forall|k: int|
                0 <= k < operator_uids@.len() ==> #[trigger] operator_uids@[k] != uid) ==> !admin
        },
        *peer matches PeerIdentity::Sid { elevated, administrator, normal_allowed, .. } ==> normal
            == normal_allowed && (admin <==> elevated && administrator),
        *peer is Peer ==> normal && !admin,
        *peer is System ==> !normal && !admin,
{
}

/// The principal names the transport and the client, and tells any two
/// clients of token connections, and of pipes, apart.
pub proof fn law_principals_name_their_client(
    one: &PeerIdentity,
    other: &PeerIdentity,
    a: String,
    b: String,
)
    requires
        call_ensures(PeerIdentity::principal, (one,), a),
        call_ensures(PeerIdentity::principal, (other,), b),
    ensures
        *one matches PeerIdentity::Uid(uid) ==> a@ == "uid:"@ + crate::text::decimal(uid as nat),
        *one matches PeerIdentity::Sid { sid, .. } ==> a@ == "sid:"@ + sid@,
        *one matches PeerIdentity::Peer { peer_id, .. } ==> a@ == "peer:"@ + peer_id@,
        *one is System ==> a@ == "system"@,
        (*one matches PeerIdentity::Peer { peer_id: p, .. } && *other matches PeerIdentity::Peer {
            peer_id: q,
            ..
        } && p@ != q@) ==> a@ != b@,
        (*one matches PeerIdentity::Sid { sid: p, .. } && *other matches PeerIdentity::Sid {
            sid: q,
            ..
        } && p@ != q@) ==> a@ != b@,
        (*one is Peer && *other is Uid) ==> a@ != b@,
        (*one is Peer && *other is Sid) ==> a@ != b@,
        (*one is Uid && *other is Sid) ==> a@ != b@,
{
    match (*one, *other) {
        (PeerIdentity::Peer { peer_id: p, .. }, PeerIdentity::Peer { peer_id: q, .. }) => {
            law_peer_principals_are_distinct(p@, q@);
        },
        (PeerIdentity::Sid { sid: p, .. }, PeerIdentity::Sid { sid: q, .. }) => {
            if a@ == b@ {
                let n = "sid:"@.len() as int;
                assert(("sid:"@ + p@).skip(n) =~= p@);
                assert(("sid:"@ + q@).skip(n) =~= q@);
            }
        },
        (PeerIdentity::Peer { peer_id, .. }, PeerIdentity::Uid(uid)) => {
            law_transports_do_not_share_principals(uid, seq![], peer_id@);
        },
        (PeerIdentity::Peer { peer_id, .. }, PeerIdentity::Sid { sid, .. }) => {
            law_transports_do_not_share_principals(0, sid@, peer_id@);
        },
        (PeerIdentity::Uid(uid), PeerIdentity::Sid { sid, .. }) => {
            law_transports_do_not_share_principals(uid, sid@, seq![]);
        },
        _ => {},
    }
}

/// A local client is let in exactly where it may make some request, as the
/// user or account that the system names.
pub proof fn law_clients_with_rights_are_let_in(
    uid: u32,
    allowed_uids: &[u32],
    operator_uids: &[u32],
    by_uid: Option<PeerIdentity>,
    unnamed: Option<PeerIdentity>,
    sid: String,
    elevated: bool,
    administrator: bool,
    allowed_sids: &Vec<String>,
    by_sid: Option<PeerIdentity>,
    i: int,
)
    requires
        call_ensures(admits_uid, (Some(uid), allowed_uids, operator_uids), by_uid),
        call_ensures(admits_uid, (None, allowed_uids, operator_uids), unnamed),
        call_ensures(admits_sid, (sid, elevated, administrator, allowed_sids), by_sid),
    ensures
        unnamed is None,
        by_uid matches Some(peer) ==> peer == PeerIdentity::Uid(uid),
        uid == 0 ==> by_uid is Some,
        0 <= i < allowed_uids@.len() && allowed_uids@[i] == uid ==> by_uid is Some,
        0 <= i < operator_uids@.len() && operator_uids@[i] == uid ==> by_uid is Some,
        by_uid is Some ==> uid == 0 || (exists|k: int|
            0 <= k < allowed_uids@.len() && #[trigger] allowed_uids@[k] == uid) || (exists|k: int|
            0 <= k < operator_uids@.len() && #[trigger] operator_uids@[k] == uid),
        elevated && administrator ==> by_sid is Some,
        0 <= i < allowed_sids@.len() && allowed_sids@[i]@ == sid@ ==> by_sid is Some,
        by_sid matches Some(peer) ==> (peer matches PeerIdentity::Sid {
            sid: named,
            elevated: e,
            administrator: a,
            normal_allowed,
        } && named@ == sid@ && e == elevated && a == administrator && (normal_allowed <==> (exists|
            k: int,
        |
            0 <= k < allowed_sids@.len() && (#[trigger] allowed_sids@[k])@ == sid@))),
        by_sid is Some ==> (elevated && administrator) || (exists|k: int|
            0 <= k < allowed_sids@.len() && (#[trigger] allowed_sids@[k])@ == sid@),
{
    let texts = crate::text::texts(allowed_sids@);
    if 0 <= i < allowed_sids@.len() && allowed_sids@[i]@ == sid@ {
        assert(texts[i] == sid@);
    }
    if texts.contains(sid@) {
        let k = choose|k: int| 0 <= k < texts.len() && texts[k] == sid@;
        assert(allowed_sids@[k]@ == sid@);
    } else {
        assert forall|k: int| 0 <= k < allowed_sids@.len() implies (#[trigger] allowed_sids@[k])@
            != sid@ by {
            assert(texts[k] == allowed_sids@[k]@);
        }
    }
}

/// A tunnel is opened where the port that is asked for is that of the session,
/// and is no other port; a session of nobody, or of another, is not found.
pub proof fn law_tunnels_are_decided_by_the_session(
    tunnel: &Option<PreambleTunnel>,
    owned: Option<u16>,
    decision: TunnelDecision,
)
    requires
        call_ensures(decide_tunnel, (tunnel, owned), decision),
    ensures
        *tunnel is None ==> decision is Rpc,
        *tunnel matches Some(t) ==> {
            &&& owned is None ==> decision == TunnelDecision::Refuse(PreambleError::NotFound)
            &&& owned is Some && t.port != 0 && owned == Some(t.port) ==> decision
                == TunnelDecision::Tunnel(t.port)
            &&& owned is Some && (t.port == 0 || owned != Some(t.port)) ==> decision
                == TunnelDecision::Refuse(PreambleError::Forbidden)
        },
{
}

/// A preamble line is read to its line feed, and no further than it may be
/// long; no byte of it is lost.
pub proof fn law_preambles_are_read_to_their_end(line: &mut Vec<u8>, byte: u8, read: PreambleRead)
    requires
        call_ensures(push_preamble_byte, (line, byte), read),
    ensures
        final(line)@ == old(line)@ + seq![byte],
        read is Complete <==> byte == 10,
        read is TooLong <==> byte != 10 && final(line)@.len() >= 4096,
{
}

/// No more connections wait than may, and each of them is counted once.
pub proof fn law_waiting_connections_are_limited(
    pending: usize,
    limit: usize,
    reserved: Option<usize>,
    remaining: usize,
    buffer: usize,
    drained: usize,
)
    requires
        call_ensures(reserve_pending_connection, (pending, limit), reserved),
        call_ensures(drain_length, (remaining, buffer), drained),
    ensures
        reserved is Some <==> pending < limit,
        reserved matches Some(n) ==> n == pending + 1 && n <= limit,
        drained <= remaining && drained <= buffer,
        drained == remaining || drained == buffer,
{
}

/// A listener binds any address but the one that means all of them.
pub proof fn law_addresses_are_explicit(octets: &[u8], bound: Result<(), String>, i: int)
    requires
        call_ensures(check_tcp_bind, (Some(octets),), bound),
    ensures
        0 <= i < octets@.len() && octets@[i] != 0 ==> bound is Ok,
        (forall|k: int| 0 <= k < octets@.len() ==> #[trigger] octets@[k] == 0) ==> bound is Err,
{
}

/// The pipe is open to the daemon, the administrators, the system and each
/// allowed account, and to nobody else.
pub proof fn law_descriptors_name_every_account(
    allowed_sids: &Vec<String>,
    daemon_sid: &str,
    descriptor: Result<String, String>,
    i: int,
)
    requires
        call_ensures(pipe_descriptor, (allowed_sids, daemon_sid), descriptor),
        descriptor is Ok,
    ensures
        crate::text::has_part(descriptor->Ok_0@, "D:(A;;GA;;;"@ + daemon_sid@ + ")"@),
        crate::text::has_part(descriptor->Ok_0@, "(A;;GA;;;BA)"@),
        crate::text::has_part(descriptor->Ok_0@, "(A;;GA;;;SY)"@),
        0 <= i < allowed_sids@.len() ==> crate::text::has_part(
            descriptor->Ok_0@,
            "(A;;GA;;;"@ + allowed_sids@[i]@ + ")"@,
        ),
        allowed_sids@.len() == 0 ==> descriptor->Ok_0@ == "D:(A;;GA;;;"@ + daemon_sid@
            + ")(A;;GA;;;BA)(A;;GA;;;SY)"@,
{
    reveal_strlit("D:(A;;GA;;;");
    reveal_strlit(")(A;;GA;;;BA)(A;;GA;;;SY)");
    reveal_strlit(")");
    reveal_strlit("(A;;GA;;;BA)");
    reveal_strlit("(A;;GA;;;SY)");
    let whole = descriptor->Ok_0@;
    let texts = crate::text::texts(allowed_sids@);
    let entries = allow_entries(texts);
    let own = "D:(A;;GA;;;"@ + daemon_sid@ + ")"@;
    let empty = Seq::<char>::empty();
    assert(whole =~= empty + own + ("(A;;GA;;;BA)"@ + "(A;;GA;;;SY)"@ + entries));
    crate::text::lemma_has_part(empty, own, "(A;;GA;;;BA)"@ + "(A;;GA;;;SY)"@ + entries);
    assert(whole =~= own + "(A;;GA;;;BA)"@ + ("(A;;GA;;;SY)"@ + entries));
    crate::text::lemma_has_part(own, "(A;;GA;;;BA)"@, "(A;;GA;;;SY)"@ + entries);
    assert(whole =~= (own + "(A;;GA;;;BA)"@) + "(A;;GA;;;SY)"@ + entries);
    crate::text::lemma_has_part(own + "(A;;GA;;;BA)"@, "(A;;GA;;;SY)"@, entries);
    if 0 <= i < allowed_sids@.len() {
        let head = own + "(A;;GA;;;BA)"@ + "(A;;GA;;;SY)"@;
        assert(whole =~= head + entries + empty);
        crate::text::lemma_has_part(head, entries, empty);
        lemma_entry_of(texts, i);
        let entry = "(A;;GA;;;"@ + texts[i] + ")"@;
        let at = choose|at: int|
            0 <= at && at + entry.len() <= entries.len() && #[trigger] entries.subrange(
                at,
                at + entry.len(),
            ) == entry;
        let before = entries.subrange(0, at);
        let after = entries.subrange(at + entry.len(), entries.len() as int);
        assert(entries =~= before + entry + after);
        crate::text::lemma_part_within(whole, before, entry, after);
    }
}

proof fn lemma_entry_of(sids: Seq<Seq<char>>, i: int)
    requires
        0 <= i < sids.len(),
    ensures
        crate::text::has_part(allow_entries(sids), "(A;;GA;;;"@ + sids[i] + ")"@),
    decreases sids.len(),
{
    let before = allow_entries(sids.drop_last());
    let last = "(A;;GA;;;"@ + sids.last() + ")"@;
    assert(allow_entries(sids) =~= before + last);
    crate::text::lemma_part_stays(before, last);
    if i < sids.len() - 1 {
        assert(sids.drop_last()[i] == sids[i]);
        lemma_entry_of(sids.drop_last(), i);
    }
}

/// The address of the host towards the guests is the first one of the first
/// adapter that leads to them and has one.
pub proof fn law_the_first_guest_adapter_is_taken(
    adapters: &Vec<Adapter>,
    address: Option<Ipv4>,
    i: int,
)
    requires
        call_ensures(wsl_address, (adapters,), address),
    ensures
        (0 <= i < adapters@.len() && "vEthernet (WSL"@.is_prefix_of(adapters@[i].friendly_name@)
            && adapters@[i].addresses@.len() > 0 && (forall|k: int|
            0 <= k < i ==> !("vEthernet (WSL"@.is_prefix_of(
                (#[trigger] adapters@[k]).friendly_name@,
            ) && adapters@[k].addresses@.len() > 0))) ==> address == Some(
            adapters@[i].addresses@[0],
        ),
        (forall|k: int|
            0 <= k < adapters@.len() ==> !("vEthernet (WSL"@.is_prefix_of(
                (#[trigger] adapters@[k]).friendly_name@,
            ) && adapters@[k].addresses@.len() > 0)) ==> address is None,
{
    lemma_guest_adapter(adapters@, i);
}

proof fn lemma_guest_adapter(adapters: Seq<Adapter>, i: int)
    ensures
        (0 <= i < adapters.len() && is_wsl_adapter(adapters[i]) && (forall|k: int|
            0 <= k < i ==> !is_wsl_adapter(#[trigger] adapters[k]))) ==> wsl_address_of(adapters)
            == Some(adapters[i].addresses@[0]),
        (forall|k: int| 0 <= k < adapters.len() ==> !is_wsl_adapter(#[trigger] adapters[k]))
            ==> wsl_address_of(adapters) is None,
    decreases adapters.len(),
{
    if adapters.len() > 0 && !is_wsl_adapter(adapters[0]) {
        let rest = adapters.drop_first();
        assert forall|k: int| 0 <= k < rest.len() implies #[trigger] rest[k] == adapters[k + 1] by {}
        lemma_guest_adapter(rest, i - 1);
        if i < adapters.len() && (forall|k: int|
            0 <= k < i ==> !is_wsl_adapter(#[trigger] adapters[k])) {
            assert forall|k: int| 0 <= k < i - 1 implies !is_wsl_adapter(#[trigger] rest[k]) by {
                assert(rest[k] == adapters[k + 1]);
            }
        }
        if forall|k: int| 0 <= k < adapters.len() ==> !is_wsl_adapter(#[trigger] adapters[k]) {
            assert forall|k: int| 0 <= k < rest.len() implies !is_wsl_adapter(
                #[trigger] rest[k],
            ) by {
                assert(rest[k] == adapters[k + 1]);
            }
        }
    }
}

/// Approvals name a local user by its number alone, and anybody else by the
/// principal.
pub proof fn law_approvals_name_the_client(
    peer: &PeerIdentity,
    name: String,
    principal: String,
    copied: PeerIdentity,
    peer_id: &str,
    of_peer: String,
)
    requires
        call_ensures(PeerIdentity::approval_name, (peer,), name),
        call_ensures(PeerIdentity::principal, (peer,), principal),
        call_ensures(PeerIdentity::copy, (peer,), copied),
        call_ensures(peer_principal, (peer_id,), of_peer),
    ensures
        *peer matches PeerIdentity::Uid(uid) ==> name@ == crate::text::decimal(uid as nat),
        !(*peer is Uid) ==> name@ == principal@,
        copied == *peer,
        of_peer@ == "peer:"@ + peer_id@,
        *peer matches PeerIdentity::Peer { peer_id: id, .. } ==> id@ == peer_id@ ==> principal@
            == of_peer@,
{
}

/// A pipe has a plain name, an account a well-formed one, and a listener is one
/// of its platform.
pub proof fn law_listeners_are_checked(
    name: &str,
    path: Result<String, String>,
    listener: &ListenConfig,
    platform: Platform,
    checked: Result<(), String>,
    listen_fds: &Option<String>,
    listen_pid: &Option<String>,
    pid: u32,
    activated: bool,
    i: int,
)
    requires
        call_ensures(pipe_path, (name,), path),
        call_ensures(check_listener, (listener, platform), checked),
        call_ensures(socket_activation_enabled, (listen_fds, listen_pid, pid), activated),
    ensures
        path matches Ok(p) ==> p@ == "\\\\.\\pipe\\"@ + name@,
        name@.len() == 0 || name@ == "."@ ==> path is Err,
        0 <= i < name@.len() && (name@[i] == '\\' || name@[i] == '/') ==> path is Err,
        name@.len() > 0 && name@ != "."@ && (forall|k: int|
            0 <= k < name@.len() ==> (#[trigger] name@[k]) != '\\' && name@[k] != '/' && name@[k]
                as u32 != 0) ==> path is Ok,
        checked is Err <==> (*listener is Pipe && platform is Unix) || (*listener is Unix
            && platform is Windows),
        activated <==> (*listen_fds is Some && listen_fds->0@ == "1"@ && *listen_pid is Some
            && listen_pid->0@ == crate::text::decimal(pid as nat)),
{
}

/// The address of the loopback listener on Windows is the configured one, or
/// that of the adapter towards the guests where it is left to the daemon.
pub proof fn law_windows_addresses_are_found(
    bind: &str,
    parsed: Option<Ipv4>,
    adapters: &Vec<Adapter>,
    bound: Result<Ipv4, String>,
    guest: Option<Ipv4>,
)
    requires
        call_ensures(windows_tcp_bind, (bind, parsed, adapters), bound),
        call_ensures(wsl_address, (adapters,), guest),
    ensures
        bind@ == "auto"@ ==> (bound is Ok <==> guest is Some),
        bind@ == "auto"@ && guest is Some ==> bound->Ok_0 == guest->0,
        bind@ != "auto"@ ==> (bound is Ok <==> parsed is Some),
        bind@ != "auto"@ && parsed is Some ==> bound->Ok_0 == parsed->0,
{
}

/// Accounts are named by an authority and by decimal numbers behind it: one
/// more number names an account too, and anything else does not.
pub proof fn law_accounts_are_named_by_numbers(
    authority: Seq<char>,
    short: &str,
    of_short: bool,
    account: &str,
    of_account: bool,
    last: Seq<char>,
    longer: &str,
    of_longer: bool,
    i: int,
)
    requires
        !authority.contains('-') && !last.contains('-'),
        short@ == "S-1-"@ + authority,
        call_ensures(valid_sid, (short,), of_short),
        call_ensures(valid_sid, (account,), of_account),
        longer@ == account@.push('-') + last,
        call_ensures(valid_sid, (longer,), of_longer),
    ensures
        of_short,
        of_account && last.len() > 0 && (forall|k: int|
            0 <= k < last.len() ==> '0' <= #[trigger] last[k] <= '9') ==> of_longer,
        of_account && last.len() == 0 ==> !of_longer,
        of_account && 0 <= i < last.len() && !('0' <= last[i] <= '9') ==> !of_longer,
{
    reveal_strlit("S-1-");
    reveal_strlit("S");
    reveal_strlit("1");
    let s = "S"@;
    let one = "1"@;
    assert(!s.contains('-') && !one.contains('-'));
    crate::text::lemma_split_first(s, '-');
    assert(crate::text::pieces(s, '-') == seq![s]);
    crate::text::lemma_pieces_push(s, '-', one);
    let two = s.push('-') + one;
    crate::text::lemma_pieces_push(two, '-', authority);
    assert(short@ =~= two.push('-') + authority);
    let parts = crate::text::pieces(short@, '-');
    assert(parts =~= seq![s, one, authority]);
    crate::text::lemma_pieces_push(account@, '-', last);
    let before = crate::text::pieces(account@, '-');
    let after = crate::text::pieces(longer@, '-');
    assert(after == before.push(last));
    if of_account {
        assert(after[0] == before[0] && after[1] == before[1]);
        assert(after[before.len() as int] == last);
        if is_sid_number(last) {
            assert forall|k: int| 3 <= k < after.len() implies is_sid_number(
                #[trigger] after[k],
            ) by {
                if k < before.len() {
                    assert(after[k] == before[k]);
                }
            }
        }
        if 0 <= i < last.len() && !('0' <= last[i] <= '9') {
            assert(!is_sid_number(last));
            assert(!is_sid_number(after[before.len() as int]));
        }
    }
}

} // verus!
