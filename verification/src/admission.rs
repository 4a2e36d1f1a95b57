//! What becomes of a connection that starts with a preamble.

use vstd::prelude::*;
use vstd::string::*;

use crate::peers::PeerStore;
use crate::sessions::SessionTable;
use crate::transport::{decide_tunnel, PeerIdentity, TunnelDecision};
use crate::wire::{Preamble, PreambleError, PREAMBLE_VERSION};

verus! {

/// What becomes of a connection.
#[derive(Debug)]
pub enum Admission {
    /// It goes on with requests of the peer.
    Rpc(PeerIdentity),
    /// It is spliced to a port of the loopback interface.
    Tunnel { peer: PeerIdentity, port: u16 },
    /// It is refused.
    Refuse(PreambleError),
}

/// What becomes of a connection, given whom its token belongs to.
pub open spec fn admission_of(
    preamble: Option<Preamble>,
    identity: Option<PeerIdentity>,
    browsers: Seq<crate::sessions::BrowserView>,
) -> Admission {
    match preamble {
        None => Admission::Refuse(PreambleError::Unauthorized),
        Some(preamble) => if preamble.v != PREAMBLE_VERSION {
            Admission::Refuse(PreambleError::Unauthorized)
        } else {
            match identity {
                None => Admission::Refuse(PreambleError::Unauthorized),
                Some(peer) => match preamble.tunnel {
                    None => Admission::Rpc(peer),
                    Some(tunnel) => match crate::transport::tunnel_rule(
                        Some(tunnel.port),
                        crate::sessions::port_of(browsers, tunnel.session_id@, peer.name()),
                    ) {
                        TunnelDecision::Rpc => Admission::Rpc(peer),
                        TunnelDecision::Tunnel(port) => Admission::Tunnel { peer, port },
                        TunnelDecision::Refuse(error) => Admission::Refuse(error),
                    },
                },
            }
        },
    }
}

/// What becomes of a connection, given whom its token belongs to. A preamble
/// that could not be read in time is none.
pub fn decide_admission(
    preamble: &Option<Preamble>,
    identity: Option<PeerIdentity>,
    table: &SessionTable,
) -> (r: Admission)
    ensures
        r == admission_of(*preamble, identity, table@),
{
    match preamble {
        None => Admission::Refuse(PreambleError::Unauthorized),
        Some(preamble) => {
            if preamble.v != PREAMBLE_VERSION {
                return Admission::Refuse(PreambleError::Unauthorized);
            }
            match identity {
                None => Admission::Refuse(PreambleError::Unauthorized),
                Some(peer) => {
                    let owned = match &preamble.tunnel {
                        None => None,
                        Some(tunnel) => table.resolve_port(
                            tunnel.session_id.as_str(),
                            peer.principal().as_str(),
                        ),
                    };
                    match decide_tunnel(&preamble.tunnel, owned) {
                        TunnelDecision::Rpc => Admission::Rpc(peer),
                        TunnelDecision::Tunnel(port) => Admission::Tunnel { peer, port },
                        TunnelDecision::Refuse(error) => Admission::Refuse(error),
                    }
                },
            }
        },
    }
}

/// What becomes of a connection. The token of a preamble of another version
/// is not looked at.
pub fn admit_preamble(store: &PeerStore, table: &SessionTable, preamble: &Option<Preamble>) -> (r:
    Admission)
    ensures
        exists|identity: Option<PeerIdentity>|
            {
                &&& r == #[trigger] admission_of(*preamble, identity, table@)
                &&& match *preamble {
                    Some(p) => if p.v == PREAMBLE_VERSION {
                        crate::peers::is_identity_of(
                            store@,
                            crate::peers::sha256(vstd::utf8::encode_utf8(p.auth@)),
                            identity,
                        )
                    } else {
                        identity is None
                    },
                    None => identity is None,
                }
            },
{
    let identity = match preamble {
        Some(preamble) => if preamble.v == PREAMBLE_VERSION {
            store.authenticate(preamble.auth.as_str())
        } else {
            None
        },
        None => None,
    };
    let ghost found = identity;
    let r = decide_admission(preamble, identity, table);
    assert(r == admission_of(*preamble, found, table@));
    r
}

/// A preamble that is malformed, of another version, or with a token of
/// nobody is always answered `UNAUTHORIZED`.
pub proof fn law_strangers_are_unauthorized(
    preamble: Option<Preamble>,
    identity: Option<PeerIdentity>,
    browsers: Seq<crate::sessions::BrowserView>,
)
    requires
        preamble is None || preamble->0.v != PREAMBLE_VERSION || identity is None,
    ensures
        admission_of(preamble, identity, browsers) == Admission::Refuse(
            PreambleError::Unauthorized,
        ),
{
}

/// A tunnel leads to the browser port of a session that the authenticated
/// peer owns, and it is the port that was asked for.
pub proof fn law_tunnels_stay_with_their_owner(
    preamble: Option<Preamble>,
    identity: Option<PeerIdentity>,
    browsers: Seq<crate::sessions::BrowserView>,
)
    ensures
        admission_of(preamble, identity, browsers) matches Admission::Tunnel { peer, port } ==> {
            &&& identity == Some(peer)
            &&& preamble matches Some(p)
            &&& p.tunnel matches Some(tunnel)
            &&& tunnel.port == port
            &&& port != 0
            &&& crate::sessions::port_of(browsers, tunnel.session_id@, peer.name()) == Some(port)
        },
{
}

/// A connection with the token of a peer, of the version in use, goes on: with
/// requests of that peer, or with a tunnel to the port that it names where that
/// is the port of a session of its own. A session of nobody or of somebody else
/// does not exist for it, and no other port is open to it.
pub proof fn law_tokens_admit_their_peer(
    store: &PeerStore,
    table: &SessionTable,
    preamble: &Option<Preamble>,
    admission: Admission,
    port: Option<u16>,
    i: int,
)
    requires
        call_ensures(admit_preamble, (store, table, preamble), admission),
        0 <= i < store@.len(),
    ensures
        match admission {
            Admission::Rpc(peer) => *preamble matches Some(p) && p.v == 1 && p.tunnel is None
                && speaks_for(store@, p.auth@, peer),
            Admission::Tunnel { peer, port } => {
                &&& *preamble matches Some(p)
                &&& p.v == 1
                &&& p.tunnel matches Some(tunnel)
                &&& speaks_for(store@, p.auth@, peer)
                &&& tunnel.port == port
                &&& peer matches PeerIdentity::Peer { peer_id, .. }
                &&& exists|a: int, b: int|
                    0 <= a < table@.len() && 0 <= b < table@[a].leases.len()
                        && (#[trigger] table@[a].leases[b]).session_id == tunnel.session_id@
                        && table@[a].leases[b].principal == "peer:"@ + peer_id@
                        && table@[a].cdp_port == port
            },
            Admission::Refuse(error) => {
                &&& (error is Unauthorized <==> !(*preamble matches Some(p) && p.v == 1
                    && holds_token(store@, p.auth@)))
                &&& (*preamble matches Some(p) ==> (p.v == 1 && holds_token(store@, p.auth@)
                    ==> p.tunnel is Some))
            },
        },
        (*preamble matches Some(p) && p.v == 1 && p.tunnel is None && store@[i].revoked_at is None
            && vstd::utf8::encode_utf8(store@[i].token_sha256) == crate::encoding::hex(
            crate::peers::sha256(vstd::utf8::encode_utf8(p.auth@)),
        )) ==> admission is Rpc,
{
    if *preamble is Some {
        let p = preamble->0;
        let digest = crate::peers::sha256(vstd::utf8::encode_utf8(p.auth@));
        crate::peers::lemma_identities(store@, digest);
        let identity = choose|identity: Option<PeerIdentity>|
            {
                &&& admission == #[trigger] admission_of(*preamble, identity, table@)
                &&& match *preamble {
                    Some(p) => if p.v == PREAMBLE_VERSION {
                        crate::peers::is_identity_of(
                            store@,
                            crate::peers::sha256(vstd::utf8::encode_utf8(p.auth@)),
                            identity,
                        )
                    } else {
                        identity is None
                    },
                    None => identity is None,
                }
            };
        if p.v == PREAMBLE_VERSION && identity is Some && p.tunnel is Some {
            crate::sessions::lemma_port_is_leased(
                table@,
                p.tunnel->0.session_id@,
                identity->0.name(),
            );
        }
    }
}

/// A peer that was not revoked holds a token.
pub open spec fn holds_token(peers: Seq<crate::peers::PeerView>, token: Seq<char>) -> bool {
    exists|i: int|
        0 <= i < peers.len() && (#[trigger] peers[i]).revoked_at is None
            && vstd::utf8::encode_utf8(peers[i].token_sha256) == crate::encoding::hex(
            crate::peers::sha256(vstd::utf8::encode_utf8(token)),
        )
}

/// An identity is that of a peer that was not revoked and holds a token.
pub open spec fn speaks_for(
    peers: Seq<crate::peers::PeerView>,
    token: Seq<char>,
    identity: PeerIdentity,
) -> bool {
    exists|i: int|
        0 <= i < peers.len() && (#[trigger] peers[i]).revoked_at is None
            && vstd::utf8::encode_utf8(peers[i].token_sha256) == crate::encoding::hex(
            crate::peers::sha256(vstd::utf8::encode_utf8(token)),
        ) && (identity matches PeerIdentity::Peer { peer_id, label } && peer_id@
            == peers[i].peer_id && label@ == peers[i].label)
}

/// A peer that asks for a tunnel is told apart: no such session of its own, or
/// a port that is not that of the session.
pub proof fn law_refused_tunnels_say_why(
    preamble: &Option<Preamble>,
    identity: Option<PeerIdentity>,
    table: &SessionTable,
    admission: Admission,
)
    requires
        call_ensures(decide_admission, (preamble, identity, table), admission),
        *preamble matches Some(p) && p.v == 1 && p.tunnel is Some,
        identity is Some,
    ensures
        ({
            let tunnel = preamble->0.tunnel->0;
            let peer = identity->0;
            let leased = crate::sessions::is_leased(table@, tunnel.session_id@, peer.name());
            &&& !leased <==> admission == Admission::Refuse(
                crate::wire::PreambleError::NotFound,
            )
            &&& leased ==> if tunnel.port != 0 && crate::sessions::port_of(
                table@,
                tunnel.session_id@,
                peer.name(),
            ) == Some(tunnel.port) {
                admission == Admission::Tunnel { peer, port: tunnel.port }
            } else {
                admission == Admission::Refuse(crate::wire::PreambleError::Forbidden)
            }
        }),
{
    let tunnel = preamble->0.tunnel->0;
    crate::sessions::lemma_port_is_leased(table@, tunnel.session_id@, identity->0.name());
}

} // verus!
