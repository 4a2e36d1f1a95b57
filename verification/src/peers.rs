//! Peers that authenticate by token.

use sha2::{Digest, Sha256};
use vstd::prelude::*;
use vstd::string::*;

use crate::audit::timestamp;
use crate::encoding::{base64url_text, hex_encode, hex_text};
use crate::error::ErrorCode;
use crate::text::{copy_opt, join2, same_text};
use crate::transport::PeerIdentity;
use crate::wire::PeerSummary;

verus! {

// ---------------------------------------------------------------------------
// Digests
// ---------------------------------------------------------------------------

/// The SHA-256 digest of a message.
pub uninterp spec fn sha256(message: Seq<u8>) -> Seq<u8>;

/// `Sha256::digest`: a digest of 32 bytes that depends on the message alone.
#[verifier::external_body]
fn sha256_digest(message: &[u8]) -> (r: Vec<u8>)
    ensures
        r@ == sha256(message@),
        r@.len() == 32,
{
    Sha256::digest(message).to_vec()
}

/// A line without its line end: one line feed, and one carriage return before
/// it.
pub open spec fn line_of(contents: Seq<u8>) -> Seq<u8> {
    if contents.len() > 0 && contents.last() == 0x0a {
        let line = contents.drop_last();
        if line.len() > 0 && line.last() == 0x0d {
            line.drop_last()
        } else {
            line
        }
    } else {
        contents
    }
}

/// A lower case hexadecimal digit.
pub open spec fn is_hex_digit(b: u8) -> bool {
    0x30 <= b <= 0x39 || 0x61 <= b <= 0x66
}

/// One line of 64 lower case hexadecimal digits.
pub open spec fn is_digest_line(contents: Seq<u8>) -> bool {
    &&& line_of(contents).len() == 64
    &&& forall|i: int| 0 <= i < 64 ==> is_hex_digit(#[trigger] line_of(contents)[i])
}

/// What is said of a file that is no digest.
pub open spec fn bad_digest() -> Seq<char> {
    "token hash must contain one 64-character lowercase SHA-256 hex line"@
}

fn decode_hex_digit(digit: u8) -> (r: Option<u8>)
    ensures
        match r {
            Some(v) => is_hex_digit(digit) && v < 16 && crate::encoding::hex_lower(v as int)
                == digit,
            None => !is_hex_digit(digit),
        },
{
    if 0x30 <= digit && digit <= 0x39 {
        Some(digit - 0x30)
    } else if 0x61 <= digit && digit <= 0x66 {
        Some(digit - 0x61 + 10)
    } else {
        None
    }
}

/// Reads a digest that was written as one line of hexadecimal digits.
pub fn parse_token_digest(contents: &[u8]) -> (r: Result<Vec<u8>, String>)
    ensures
        match r {
            Ok(digest) => is_digest_line(contents@) && digest@.len() == 32
                && crate::encoding::hex(digest@) == line_of(contents@),
            Err(m) => !is_digest_line(contents@) && m@ == bad_digest(),
        },
{
    let mut end: usize = contents.len();
    if end > 0 && contents[end - 1] == 0x0a {
        end -= 1;
        if end > 0 && contents[end - 1] == 0x0d {
            end -= 1;
        }
    }
    let ghost line = line_of(contents@);
    assert(line =~= contents@.take(end as int));
    if end != 64 {
        return Err(
            "token hash must contain one 64-character lowercase SHA-256 hex line".to_owned(),
        );
    }
    let mut digest: Vec<u8> = Vec::new();
    let mut i: usize = 0;
    while i < 32
        invariant
            i <= 32,
            end == 64,
            64 <= contents@.len(),
            line == line_of(contents@),
            line == contents@.take(64),
            digest@.len() == i,
            forall|j: int| 0 <= j < 2 * i ==> is_hex_digit(#[trigger] line[j]),
            forall|j: int|
                0 <= j < 2 * i ==> #[trigger] crate::encoding::hex(digest@)[j] == line[j],
        decreases 32 - i,
    {
        let ghost before = digest@;
        assert(line[2 * i] == contents@[2 * i]);
        assert(line[2 * i + 1] == contents@[2 * i + 1]);
        match (decode_hex_digit(contents[2 * i]), decode_hex_digit(contents[2 * i + 1])) {
            (Some(high), Some(low)) => {
                digest.push(high * 16 + low);
                proof {
                    assert((high * 16 + low) as int / 16 == high);
                    assert((high * 16 + low) as int % 16 == low);
                    assert forall|j: int| 0 <= j < 2 * (i + 1) implies
                        #[trigger] crate::encoding::hex(digest@)[j] == line[j] by {
                        if j < 2 * i {
                            assert(crate::encoding::hex(before)[j] == line[j]);
                            assert(digest@[j / 2] == before[j / 2]);
                        } else if j == 2 * i {
                            assert(j % 2 == 0 && j / 2 == i);
                        } else {
                            assert(j % 2 == 1 && j / 2 == i);
                        }
                    }
                    assert forall|j: int| 0 <= j < 2 * (i + 1) implies is_hex_digit(
                        #[trigger] line[j],
                    ) by {
                        if j >= 2 * i {
                            assert(j == 2 * i || j == 2 * i + 1);
                        }
                    }
                }
            },
            _ => {
                assert(!is_hex_digit(line[2 * i]) || !is_hex_digit(line[2 * i + 1]));
                return Err(
                    "token hash must contain one 64-character lowercase SHA-256 hex line".to_owned(),
                );
            },
        }
        i += 1;
    }
    assert(crate::encoding::hex(digest@) =~= line);
    Ok(digest)
}

/// Tells whether two byte strings are the same. All bytes are looked at,
/// whatever the first ones are.
pub fn constant_time_equal(left: &[u8], right: &[u8]) -> (r: bool)
    ensures
        r == (left@ == right@),
{
    if left.len() != right.len() {
        return false;
    }
    let mut difference: u8 = 0;
    let mut i: usize = 0;
    while i < left.len()
        invariant
            i <= left@.len(),
            left@.len() == right@.len(),
            difference == 0 <==> forall|j: int| 0 <= j < i ==> left@[j] == right@[j],
        decreases left@.len() - i,
    {
        let a: u8 = left[i];
        let b: u8 = right[i];
        let ghost before = difference;
        assert((before | (a ^ b)) == 0 <==> before == 0 && a == b) by (bit_vector);
        difference = difference | (a ^ b);
        i += 1;
    }
    proof {
        if difference == 0 {
            assert(left@ =~= right@);
        }
    }
    difference == 0
}

// ---------------------------------------------------------------------------
// Ids and tokens
// ---------------------------------------------------------------------------

/// The digit of a value below 32 in Crockford's base32.
pub open spec fn crockford(v: nat) -> char {
    "0123456789ABCDEFGHJKMNPQRSTVWXYZ"@[v as int]
}

/// The last `n` digits of a value in Crockford's base32.
pub open spec fn crockford_digits(value: nat, n: nat) -> Seq<char>
    decreases n,
{
    if n == 0 {
        seq![]
    } else {
        crockford_digits(value / 32, (n - 1) as nat).push(crockford(value % 32))
    }
}

/// Bytes as a number, the most significant first.
pub open spec fn number_of(bytes: Seq<u8>) -> nat
    decreases bytes.len(),
{
    if bytes.len() == 0 {
        0
    } else {
        number_of(bytes.drop_last()) * 256 + bytes.last() as nat
    }
}

/// The id that is made at a time from ten random bytes: 48 bits of
/// milliseconds and 80 random bits, in 26 digits.
pub open spec fn ulid(milliseconds: nat, random: Seq<u8>) -> Seq<char> {
    crockford_digits(
        (milliseconds % 0x1_0000_0000_0000) * 0x1_0000_0000_0000_0000_0000 + number_of(random),
        26,
    )
}

fn crockford_char(v: usize) -> (c: char)
    requires
        v < 32,
    ensures
        c == crockford(v as nat),
{
    proof {
        reveal_strlit("0123456789ABCDEFGHJKMNPQRSTVWXYZ");
    }
    "0123456789ABCDEFGHJKMNPQRSTVWXYZ".get_char(v)
}

fn crockford_text(value: u128, n: usize) -> (r: String)
    ensures
        r@ == crockford_digits(value as nat, n as nat),
    decreases n,
{
    if n == 0 {
        let r = String::new();
        assert(r@ =~= seq![]);
        r
    } else {
        let mut r = crockford_text(value / 32, n - 1);
        r.push(crockford_char((value % 32) as usize));
        r
    }
}

proof fn lemma_number_bound(bytes: Seq<u8>)
    requires
        bytes.len() <= 10,
    ensures
        bytes.len() == 0 ==> number_of(bytes) < 1,
        bytes.len() == 1 ==> number_of(bytes) < 0x100,
        bytes.len() == 2 ==> number_of(bytes) < 0x1_0000,
        bytes.len() == 3 ==> number_of(bytes) < 0x100_0000,
        bytes.len() == 4 ==> number_of(bytes) < 0x1_0000_0000,
        bytes.len() == 5 ==> number_of(bytes) < 0x100_0000_0000,
        bytes.len() == 6 ==> number_of(bytes) < 0x1_0000_0000_0000,
        bytes.len() == 7 ==> number_of(bytes) < 0x100_0000_0000_0000,
        bytes.len() == 8 ==> number_of(bytes) < 0x1_0000_0000_0000_0000,
        bytes.len() == 9 ==> number_of(bytes) < 0x100_0000_0000_0000_0000,
        bytes.len() == 10 ==> number_of(bytes) < 0x1_0000_0000_0000_0000_0000,
    decreases bytes.len(),
{
    if bytes.len() > 0 {
        lemma_number_bound(bytes.drop_last());
    }
}

/// Makes an id from the time and ten random bytes.
pub fn generate_ulid(milliseconds: u64, random: &[u8]) -> (r: String)
    requires
        random@.len() == 10,
    ensures
        r@ == ulid(milliseconds as nat, random@),
{
    let mut low: u128 = 0;
    let mut i: usize = 0;
    assert(random@.take(0) =~= seq![]);
    while i < 10
        invariant
            i <= 10,
            random@.len() == 10,
            low == number_of(random@.take(i as int)),
        decreases 10 - i,
    {
        proof {
            lemma_number_bound(random@.take(i as int));
            assert(random@.take(i + 1).drop_last() =~= random@.take(i as int));
        }
        low = low * 256 + random[i] as u128;
        i += 1;
    }
    proof {
        assert(random@.take(10) =~= random@);
        lemma_number_bound(random@);
    }
    let high: u128 = (milliseconds % 0x1_0000_0000_0000) as u128;
    crockford_text(high * 0x1_0000_0000_0000_0000_0000 + low, 26)
}

// ---------------------------------------------------------------------------
// The store
// ---------------------------------------------------------------------------

/// A peer. Of its token only the digest is kept.
#[derive(Debug)]
pub struct PeerRecord {
    pub peer_id: String,
    pub label: String,
    pub token_sha256: String,
    pub issued_at: String,
    pub revoked_at: Option<String>,
}

/// A peer, by the views of its parts.
#[verifier::ext_equal]
pub struct PeerView {
    pub peer_id: Seq<char>,
    pub label: Seq<char>,
    pub token_sha256: Seq<char>,
    pub issued_at: Seq<char>,
    pub revoked_at: Option<Seq<char>>,
}

impl View for PeerRecord {
    type V = PeerView;

    open spec fn view(&self) -> PeerView {
        PeerView {
            peer_id: self.peer_id@,
            label: self.label@,
            token_sha256: self.token_sha256@,
            issued_at: self.issued_at@,
            revoked_at: crate::text::opt_text(self.revoked_at),
        }
    }
}

/// The peers of a list, by their views.
pub open spec fn peer_views(peers: Seq<PeerRecord>) -> Seq<PeerView> {
    peers.map_values(|p: PeerRecord| p@)
}

/// A peer that was just issued. The token is shown this once.
pub struct IssuedPeer {
    pub peer_id: String,
    pub token: String,
}

/// All peers, in the order in which they were issued.
#[derive(Debug)]
pub struct PeerStore {
    peers: Vec<PeerRecord>,
}

impl View for PeerStore {
    type V = Seq<PeerView>;

    closed spec fn view(&self) -> Seq<PeerView> {
        peer_views(self.peers@)
    }
}

/// A peer holds a token of a digest, and was not revoked.
pub open spec fn holds(peer: PeerView, digest: Seq<u8>) -> bool {
    peer.revoked_at is None && vstd::utf8::encode_utf8(peer.token_sha256) == crate::encoding::hex(
        digest,
    )
}

/// The latest peer that holds a token of a digest.
pub open spec fn holder(peers: Seq<PeerView>, digest: Seq<u8>) -> Option<int>
    decreases peers.len(),
{
    if peers.len() == 0 {
        None
    } else if holds(peers.last(), digest) {
        Some(peers.len() - 1)
    } else {
        holder(peers.drop_last(), digest)
    }
}

/// The identity that a digest authenticates.
pub open spec fn is_identity_of(
    peers: Seq<PeerView>,
    digest: Seq<u8>,
    identity: Option<PeerIdentity>,
) -> bool {
    match holder(peers, digest) {
        Some(i) => identity matches Some(PeerIdentity::Peer { peer_id, label }) && peer_id@
            == peers[i].peer_id && label@ == peers[i].label,
        None => identity is None,
    }
}

/// The position of the first peer of an id.
pub open spec fn peer_index(peers: Seq<PeerView>, peer_id: Seq<char>) -> Option<int>
    decreases peers.len(),
{
    if peers.len() == 0 {
        None
    } else {
        match peer_index(peers.drop_last(), peer_id) {
            Some(i) => Some(i),
            None => if peers.last().peer_id == peer_id {
                Some(peers.len() - 1)
            } else {
                None
            },
        }
    }
}

/// A peer that is revoked, from a time on; one that was revoked before stays
/// as it is.
pub open spec fn revoked(peer: PeerView, at: Seq<char>) -> PeerView {
    if peer.revoked_at is None {
        PeerView { revoked_at: Some(at), ..peer }
    } else {
        peer
    }
}

/// The peers after one was revoked.
pub open spec fn with_revoked(peers: Seq<PeerView>, peer_id: Seq<char>, at: Seq<char>) -> Seq<
    PeerView,
> {
    match peer_index(peers, peer_id) {
        Some(i) => peers.update(i, revoked(peers[i], at)),
        None => peers,
    }
}

/// The peers after all of a label were revoked.
pub open spec fn with_label_revoked(peers: Seq<PeerView>, label: Seq<char>, at: Seq<char>) -> Seq<
    PeerView,
> {
    peers.map_values(
        |p: PeerView|
            if p.label == label {
                revoked(p, at)
            } else {
                p
            },
    )
}

/// The ids of the peers of a label that were not revoked.
pub open spec fn active_ids(peers: Seq<PeerView>, label: Seq<char>) -> Seq<Seq<char>>
    decreases peers.len(),
{
    if peers.len() == 0 {
        seq![]
    } else if peers.last().label == label && peers.last().revoked_at is None {
        active_ids(peers.drop_last(), label).push(peers.last().peer_id)
    } else {
        active_ids(peers.drop_last(), label)
    }
}

/// The time stamp of a time.
pub open spec fn stamp(unix_time_secs: u64) -> Seq<char> {
    "unix:"@ + crate::text::decimal(unix_time_secs as nat)
}

/// A peer as it is issued.
pub open spec fn issued_peer(
    label: Seq<char>,
    token_bytes: Seq<u8>,
    milliseconds: nat,
    id_bytes: Seq<u8>,
    unix_time_secs: u64,
) -> PeerView {
    PeerView {
        peer_id: "p_"@ + ulid(milliseconds, id_bytes),
        label,
        token_sha256: crate::encoding::hex_chars(sha256(token_utf8(token_bytes))),
        issued_at: stamp(unix_time_secs),
        revoked_at: None,
    }
}

/// The bytes of the token that is made from random bytes.
pub open spec fn token_utf8(token_bytes: Seq<u8>) -> Seq<u8> {
    vstd::utf8::encode_utf8(crate::encoding::base64_chars(token_bytes, true, false))
}

/// Every peer has a digest.
pub open spec fn store_wf(peers: Seq<PeerView>) -> bool {
    forall|i: int|
        0 <= i < peers.len() ==> is_digest_line(
            vstd::utf8::encode_utf8((#[trigger] peers[i]).token_sha256),
        )
}

/// There is a peer named `legacy`.
pub open spec fn has_legacy(peers: Seq<PeerView>) -> bool {
    peer_index(peers, "legacy"@) is Some
}

/// The peer that an old token file stands for.
pub open spec fn legacy_peer(digest: Seq<u8>, unix_time_secs: u64) -> PeerView {
    PeerView {
        peer_id: "legacy"@,
        label: "legacy"@,
        token_sha256: crate::encoding::hex_chars(digest),
        issued_at: stamp(unix_time_secs),
        revoked_at: None,
    }
}

impl PeerStore {
    /// Opens the store with the peers that were saved. A token file of an
    /// older version is taken over as a peer of its own, unless that was done
    /// before; either way the file is to be put aside afterwards.
    pub fn load_or_import(
        saved: Vec<PeerRecord>,
        legacy: Option<&[u8]>,
        unix_time_secs: u64,
    ) -> (r: Result<PeerStore, String>)
        ensures
            match r {
                Ok(store) => {
                    &&& store_wf(peer_views(saved@))
                    &&& match legacy {
                        Some(contents) => if has_legacy(peer_views(saved@)) {
                            store@ == peer_views(saved@)
                        } else {
                            &&& is_digest_line(contents@)
                            &&& exists|digest: Seq<u8>|
                                #![trigger crate::encoding::hex(digest)]
                                crate::encoding::hex(digest) == line_of(contents@) && store@
                                    == peer_views(saved@).push(legacy_peer(digest, unix_time_secs))
                        },
                        None => store@ == peer_views(saved@),
                    }
                },
                Err(m) => {
                    &&& m@ == bad_digest()
                    &&& (!store_wf(peer_views(saved@)) || (legacy matches Some(contents)
                        && !has_legacy(peer_views(saved@)) && !is_digest_line(contents@)))
                },
            },
    {
        let ghost views = peer_views(saved@);
        let mut i: usize = 0;
        while i < saved.len()
            invariant
                i <= saved@.len(),
                views == peer_views(saved@),
                forall|j: int|
                    0 <= j < i ==> is_digest_line(
                        vstd::utf8::encode_utf8((#[trigger] views[j]).token_sha256),
                    ),
            decreases saved@.len() - i,
        {
            assert(views[i as int] == saved@[i as int]@);
            match parse_token_digest(saved[i].token_sha256.as_str().as_bytes()) {
                Ok(_) => {},
                Err(m) => {
                    assert(!store_wf(views));
                    return Err(m);
                },
            }
            i += 1;
        }
        let mut store = PeerStore { peers: saved };
        match legacy {
            Some(contents) => {
                match store.find("legacy") {
                    Some(_) => Ok(store),
                    None => match parse_token_digest(contents) {
                        Ok(digest) => {
                            store.peers.push(
                                PeerRecord {
                                    peer_id: "legacy".to_owned(),
                                    label: "legacy".to_owned(),
                                    token_sha256: hex_text(digest.as_slice()),
                                    issued_at: timestamp(unix_time_secs),
                                    revoked_at: None,
                                },
                            );
                            proof {
                                assert(store@ =~= views.push(
                                    legacy_peer(digest@, unix_time_secs),
                                ));
                                assert(crate::encoding::hex(digest@) == line_of(contents@));
                            }
                            Ok(store)
                        },
                        Err(m) => Err(m),
                    },
                }
            },
            None => Ok(store),
        }
    }

    fn find(&self, peer_id: &str) -> (r: Option<usize>)
        ensures
            match r {
                Some(i) => i < self.peers@.len() && peer_index(self@, peer_id@) == Some(i as int),
                None => peer_index(self@, peer_id@) is None,
            },
            self@ == peer_views(self.peers@),
    {
        let mut i: usize = 0;
        assert(self@.take(0) =~= seq![]);
        while i < self.peers.len()
            invariant
                i <= self.peers@.len(),
                self@ == peer_views(self.peers@),
                peer_index(self@.take(i as int), peer_id@) is None,
            decreases self.peers@.len() - i,
        {
            proof {
                assert(self@.take(i + 1).drop_last() =~= self@.take(i as int));
                assert(self@.take(i + 1).last() == self.peers@[i as int]@);
            }
            if same_text(self.peers[i].peer_id.as_str(), peer_id) {
                proof {
                    lemma_peer_index_prefix(self@, peer_id@, i + 1);
                }
                return Some(i);
            }
            i += 1;
        }
        assert(self@.take(i as int) =~= self@);
        None
    }

    /// The peer whose token has a digest. All tokens are compared in full.
    pub fn authenticate_digest(&self, digest: &[u8]) -> (r: Option<PeerIdentity>)
        ensures
            is_identity_of(self@, digest@, r),
    {
        let hash = hex_encode(digest);
        let mut identity: Option<PeerIdentity> = None;
        let mut i: usize = 0;
        assert(self@.take(0) =~= seq![]);
        while i < self.peers.len()
            invariant
                i <= self.peers@.len(),
                self@ == peer_views(self.peers@),
                hash@ == crate::encoding::hex(digest@),
                is_identity_of(self@.take(i as int), digest@, identity),
                match holder(self@.take(i as int), digest@) {
                    Some(k) => 0 <= k < i,
                    None => true,
                },
            decreases self.peers@.len() - i,
        {
            let peer = &self.peers[i];
            proof {
                assert(self@.take(i + 1).drop_last() =~= self@.take(i as int));
                assert(self@.take(i + 1).last() == peer@);
                match holder(self@.take(i as int), digest@) {
                    Some(k) => {
                        assert(self@.take(i + 1)[k] == self@.take(i as int)[k]);
                    },
                    None => {},
                }
            }
            let same = constant_time_equal(peer.token_sha256.as_str().as_bytes(), hash.as_slice());
            if peer.revoked_at.is_none() && same {
                identity = Some(
                    PeerIdentity::Peer { peer_id: peer.peer_id.clone(), label: peer.label.clone() },
                );
            }
            i += 1;
        }
        assert(self@.take(i as int) =~= self@);
        identity
    }

    /// The peer that a token authenticates.
    pub fn authenticate(&self, token: &str) -> (r: Option<PeerIdentity>)
        ensures
            is_identity_of(self@, sha256(vstd::utf8::encode_utf8(token@)), r),
    {
        let digest = sha256_digest(token.as_bytes());
        self.authenticate_digest(digest.as_slice())
    }

    /// Tells whether a peer exists and was not revoked.
    pub fn is_active(&self, peer_id: &str) -> (r: bool)
        ensures
            r == (peer_index(self@, peer_id@) matches Some(i) && self@[i].revoked_at is None),
    {
        match self.find(peer_id) {
            Some(i) => {
                assert(self@[i as int] == self.peers@[i as int]@);
                self.peers[i].revoked_at.is_none()
            },
            None => false,
        }
    }

    /// Tells whether a connected client may go on: a token peer that was
    /// revoked after it connected may not.
    pub fn still_admits(&self, peer: &PeerIdentity) -> (r: bool)
        ensures
            r == (match *peer {
                PeerIdentity::Peer { peer_id, .. } => peer_index(self@, peer_id@) matches Some(i)
                    && self@[i].revoked_at is None,
                _ => true,
            }),
    {
        match peer {
            PeerIdentity::Peer { peer_id, .. } => self.is_active(peer_id.as_str()),
            _ => true,
        }
    }

    /// Issues a peer. The random bytes come from the system.
    pub fn issue(
        &mut self,
        label: &str,
        token_bytes: &[u8],
        milliseconds: u64,
        id_bytes: &[u8],
        unix_time_secs: u64,
    ) -> (r: Result<IssuedPeer, ErrorCode>)
        requires
            id_bytes@.len() == 10,
        ensures
            if label@.len() == 0 {
                r matches Err(code) && code is Internal && final(self)@ == old(self)@
            } else {
                let peer = issued_peer(
                    label@,
                    token_bytes@,
                    milliseconds as nat,
                    id_bytes@,
                    unix_time_secs,
                );
                &&& final(self)@ == old(self)@.push(peer)
                &&& r matches Ok(issued)
                &&& issued.peer_id@ == peer.peer_id
                &&& issued.token@ == crate::encoding::base64_chars(token_bytes@, true, false)
            },
    {
        if label.is_empty() {
            return Err(ErrorCode::Internal);
        }
        let ghost before = self@;
        let token = base64url_text(token_bytes);
        let digest = sha256_digest(token.as_str().as_bytes());
        let id = generate_ulid(milliseconds, id_bytes);
        let peer_id = join2("p_", id.as_str());
        self.peers.push(
            PeerRecord {
                peer_id: peer_id.clone(),
                label: label.to_owned(),
                token_sha256: hex_text(digest.as_slice()),
                issued_at: timestamp(unix_time_secs),
                revoked_at: None,
            },
        );
        proof {
            let peer = issued_peer(
                label@,
                token_bytes@,
                milliseconds as nat,
                id_bytes@,
                unix_time_secs,
            );
            assert(self.peers@.last()@ =~= peer);
            assert(self@ =~= before.push(peer));
        }
        Ok(IssuedPeer { peer_id, token })
    }

    /// Revokes a peer; tells whether there is one.
    pub fn revoke(&mut self, peer_id: &str, unix_time_secs: u64) -> (found: bool)
        ensures
            found == (peer_index(old(self)@, peer_id@) is Some),
            final(self)@ == with_revoked(old(self)@, peer_id@, stamp(unix_time_secs)),
    {
        match self.find(peer_id) {
            Some(i) => {
                let ghost before = self.peers@;
                let mut peer = self.peers.remove(i);
                let ghost plain = peer@;
                if peer.revoked_at.is_none() {
                    peer.revoked_at = Some(timestamp(unix_time_secs));
                }
                let ghost changed = peer@;
                self.peers.insert(i, peer);
                proof {
                    assert(plain == peer_views(before)[i as int]);
                    assert(changed =~= revoked(plain, stamp(unix_time_secs)));
                    assert(self@ =~= peer_views(before).update(i as int, changed));
                }
                true
            },
            None => false,
        }
    }

    /// Revokes all peers of a label; returns the ids of those that were not
    /// revoked before.
    pub fn revoke_label(&mut self, label: &str, unix_time_secs: u64) -> (ids: Vec<String>)
        ensures
            final(self)@ == with_label_revoked(old(self)@, label@, stamp(unix_time_secs)),
            crate::text::texts(ids@) == active_ids(old(self)@, label@),
    {
        let ghost all = self@;
        let ghost target = with_label_revoked(all, label@, stamp(unix_time_secs));
        let mut ids: Vec<String> = Vec::new();
        let mut i: usize = 0;
        assert(crate::text::texts(ids@) =~= active_ids(all.take(0), label@));
        while i < self.peers.len()
            invariant
                i <= self.peers@.len(),
                self.peers@.len() == all.len(),
                self@ == peer_views(self.peers@),
                target == with_label_revoked(all, label@, stamp(unix_time_secs)),
                forall|j: int| 0 <= j < i ==> self@[j] == target[j],
                forall|j: int| i <= j < all.len() ==> self@[j] == all[j],
                crate::text::texts(ids@) == active_ids(all.take(i as int), label@),
            decreases all.len() - i,
        {
            let ghost before = self.peers@;
            let ghost earlier = ids@;
            proof {
                assert(self@[i as int] == before[i as int]@);
                assert(all.take(i + 1).drop_last() =~= all.take(i as int));
                assert(all.take(i + 1).last() == before[i as int]@);
            }
            if same_text(self.peers[i].label.as_str(), label)
                && self.peers[i].revoked_at.is_none() {
                let mut peer = self.peers.remove(i);
                let ghost plain = peer@;
                ids.push(peer.peer_id.clone());
                peer.revoked_at = Some(timestamp(unix_time_secs));
                let ghost changed = peer@;
                self.peers.insert(i, peer);
                proof {
                    assert(changed =~= revoked(plain, stamp(unix_time_secs)));
                    assert(self@ =~= peer_views(before).update(i as int, changed));
                    assert(crate::text::texts(ids@) =~= crate::text::texts(earlier).push(
                        plain.peer_id,
                    ));
                }
            }
            i += 1;
        }
        proof {
            assert(all.take(i as int) =~= all);
            assert(self@ =~= target);
        }
        ids
    }

    /// Issues the one token of the default peer: the tokens that were issued
    /// under that label before are revoked. Returns their ids too.
    pub fn issue_default(
        &mut self,
        token_bytes: &[u8],
        milliseconds: u64,
        id_bytes: &[u8],
        unix_time_secs: u64,
    ) -> (r: (Result<IssuedPeer, ErrorCode>, Vec<String>))
        requires
            id_bytes@.len() == 10,
        ensures
            ({
                let peer = issued_peer(
                    "default"@,
                    token_bytes@,
                    milliseconds as nat,
                    id_bytes@,
                    unix_time_secs,
                );
                &&& final(self)@ == with_label_revoked(
                    old(self)@,
                    "default"@,
                    stamp(unix_time_secs),
                ).push(peer)
                &&& r.0 matches Ok(issued)
                &&& issued.peer_id@ == peer.peer_id
                &&& issued.token@ == crate::encoding::base64_chars(token_bytes@, true, false)
                &&& crate::text::texts(r.1@) == active_ids(old(self)@, "default"@)
            }),
    {
        proof {
            reveal_strlit("default");
        }
        let replaced = self.revoke_label("default", unix_time_secs);
        let issued = self.issue("default", token_bytes, milliseconds, id_bytes, unix_time_secs);
        (issued, replaced)
    }

    /// Lists the peers, without the digests of their tokens.
    pub fn list(&self) -> (r: Vec<PeerSummary>)
        ensures
            r@.len() == self@.len(),
            forall|i: int|
                #![trigger r@[i]]
                0 <= i < r@.len() ==> r@[i].peer_id@ == self@[i].peer_id && r@[i].label@
                    == self@[i].label && r@[i].issued_at@ == self@[i].issued_at
                    && crate::text::opt_text(r@[i].revoked_at) == self@[i].revoked_at,
    {
        let mut out: Vec<PeerSummary> = Vec::new();
        let mut i: usize = 0;
        while i < self.peers.len()
            invariant
                i <= self.peers@.len(),
                out@.len() == i,
                self@ == peer_views(self.peers@),
                forall|j: int|
                    #![trigger out@[j]]
                    0 <= j < i ==> out@[j].peer_id@ == self@[j].peer_id && out@[j].label@
                        == self@[j].label && out@[j].issued_at@ == self@[j].issued_at
                        && crate::text::opt_text(out@[j].revoked_at) == self@[j].revoked_at,
            decreases self.peers@.len() - i,
        {
            let peer = &self.peers[i];
            assert(self@[i as int] == peer@);
            out.push(
                PeerSummary {
                    peer_id: peer.peer_id.clone(),
                    label: peer.label.clone(),
                    issued_at: peer.issued_at.clone(),
                    revoked_at: copy_opt(&peer.revoked_at),
                },
            );
            i += 1;
        }
        out
    }

    /// The records as they are saved.
    pub fn records(&self) -> (r: &Vec<PeerRecord>)
        ensures
            peer_views(r@) == self@,
    {
        &self.peers
    }
}

proof fn lemma_peer_index_prefix(peers: Seq<PeerView>, peer_id: Seq<char>, n: int)
    requires
        0 <= n <= peers.len(),
        peer_index(peers.take(n), peer_id) is Some,
    ensures
        peer_index(peers, peer_id) == peer_index(peers.take(n), peer_id),
    decreases peers.len() - n,
{
    if n < peers.len() {
        assert(peers.take(n + 1).drop_last() =~= peers.take(n));
        lemma_peer_index_prefix(peers, peer_id, n + 1);
    } else {
        assert(peers.take(n) =~= peers);
    }
}

/// Where the old token file is put once the store is saved: aside, whenever it
/// was there, be it taken over now or before.
pub fn imported_path(token_hash_path: &str, legacy: Option<&[u8]>) -> (r: Option<String>)
    ensures
        crate::text::opt_text(r) == (match legacy {
            Some(_) => Some(token_hash_path@ + ".imported"@),
            None => None,
        }),
{
    match legacy {
        Some(_) => Some(join2(token_hash_path, ".imported")),
        None => None,
    }
}

// ---------------------------------------------------------------------------
// Laws
// ---------------------------------------------------------------------------

proof fn lemma_hex_utf8(bytes: Seq<u8>)
    ensures
        vstd::utf8::encode_utf8(crate::encoding::hex_chars(bytes)) == crate::encoding::hex(bytes),
{
    let chars = crate::encoding::hex_chars(bytes);
    let hex = crate::encoding::hex(bytes);
    assert forall|i: int| 0 <= i < hex.len() implies #[trigger] hex[i] < 128 by {}
    assert(vstd::utf8::is_ascii_chars(chars));
    vstd::utf8::is_ascii_chars_encode_utf8(chars);
    assert(vstd::utf8::encode_utf8(chars) =~= hex);
}

proof fn lemma_holder(peers: Seq<PeerView>, digest: Seq<u8>)
    ensures
        match holder(peers, digest) {
            Some(i) => 0 <= i < peers.len() && holds(peers[i], digest),
            None => forall|i: int| 0 <= i < peers.len() ==> !holds(#[trigger] peers[i], digest),
        },
    decreases peers.len(),
{
    if peers.len() > 0 && !holds(peers.last(), digest) {
        lemma_holder(peers.drop_last(), digest);
        assert forall|i: int| 0 <= i < peers.len() - 1 implies #[trigger] peers[i]
            == peers.drop_last()[i] by {}
    }
}

proof fn lemma_peer_index(peers: Seq<PeerView>, peer_id: Seq<char>)
    ensures
        match peer_index(peers, peer_id) {
            Some(i) => 0 <= i < peers.len() && peers[i].peer_id == peer_id,
            None => forall|i: int| 0 <= i < peers.len() ==> (#[trigger] peers[i]).peer_id
                != peer_id,
        },
    decreases peers.len(),
{
    if peers.len() > 0 {
        lemma_peer_index(peers.drop_last(), peer_id);
        assert forall|i: int| 0 <= i < peers.len() - 1 implies #[trigger] peers[i]
            == peers.drop_last()[i] by {}
    }
}

/// The token of a peer that was just issued authenticates that peer.
pub proof fn law_issued_tokens_authenticate(
    peers: Seq<PeerView>,
    label: Seq<char>,
    token_bytes: Seq<u8>,
    milliseconds: nat,
    id_bytes: Seq<u8>,
    unix_time_secs: u64,
)
    ensures
        ({
            let peer = issued_peer(label, token_bytes, milliseconds, id_bytes, unix_time_secs);
            let after = peers.push(peer);
            holder(after, sha256(token_utf8(token_bytes))) == Some(after.len() - 1)
        }),
{
    lemma_hex_utf8(sha256(token_utf8(token_bytes)));
}

/// A revoked peer is never authenticated, where no id occurs twice.
pub proof fn law_revoked_peers_stay_out(
    peers: Seq<PeerView>,
    peer_id: Seq<char>,
    at: Seq<char>,
    digest: Seq<u8>,
)
    requires
        forall|i: int, j: int|
            0 <= i < j < peers.len() ==> (#[trigger] peers[i]).peer_id != (
            #[trigger] peers[j]).peer_id,
    ensures
        holder(with_revoked(peers, peer_id, at), digest) matches Some(i) ==> with_revoked(
            peers,
            peer_id,
            at,
        )[i].peer_id != peer_id,
{
    let after = with_revoked(peers, peer_id, at);
    lemma_holder(after, digest);
    lemma_peer_index(peers, peer_id);
    match holder(after, digest) {
        Some(i) => {
            if after[i].peer_id == peer_id {
                assert(peers[i].peer_id == peer_id);
                let k = peer_index(peers, peer_id)->0;
                if k < i {
                    assert(peers[k].peer_id != peers[i].peer_id);
                }
                if i < k {
                    assert(peers[i].peer_id != peers[k].peer_id);
                }
                assert(after[i].revoked_at is Some);
            }
        },
        None => {},
    }
}

/// Revoking a peer a second time changes nothing, not even the time.
pub proof fn law_revocation_is_final(
    peers: Seq<PeerView>,
    peer_id: Seq<char>,
    at: Seq<char>,
    later: Seq<char>,
)
    ensures
        with_revoked(with_revoked(peers, peer_id, at), peer_id, later) == with_revoked(
            peers,
            peer_id,
            at,
        ),
{
    let once = with_revoked(peers, peer_id, at);
    lemma_peer_index(peers, peer_id);
    match peer_index(peers, peer_id) {
        Some(i) => {
            lemma_index_after_update(peers, peer_id, i, once[i]);
            assert(with_revoked(once, peer_id, later) =~= once);
        },
        None => {},
    }
}

proof fn lemma_index_after_update(
    peers: Seq<PeerView>,
    peer_id: Seq<char>,
    i: int,
    peer: PeerView,
)
    requires
        0 <= i < peers.len(),
        peer.peer_id == peers[i].peer_id,
    ensures
        peer_index(peers.update(i, peer), peer_id) == peer_index(peers, peer_id),
    decreases peers.len(),
{
    let updated = peers.update(i, peer);
    if i == peers.len() - 1 {
        assert(updated.drop_last() =~= peers.drop_last());
    } else {
        assert(updated.drop_last() =~= peers.drop_last().update(i, peer));
        lemma_index_after_update(peers.drop_last(), peer_id, i, peer);
    }
}

/// After the peers of a label were revoked, none of them is authenticated.
pub proof fn law_label_revocation_is_complete(
    peers: Seq<PeerView>,
    label: Seq<char>,
    at: Seq<char>,
    digest: Seq<u8>,
)
    ensures
        holder(with_label_revoked(peers, label, at), digest) matches Some(i) ==> peers[i].label
            != label,
{
    lemma_holder(with_label_revoked(peers, label, at), digest);
}

/// A token that was taken over from an old token file still authenticates.
pub proof fn law_imported_tokens_authenticate(
    peers: Seq<PeerView>,
    digest: Seq<u8>,
    unix_time_secs: u64,
)
    ensures
        ({
            let after = peers.push(legacy_peer(digest, unix_time_secs));
            holder(after, digest) == Some(after.len() - 1)
        }),
{
    lemma_hex_utf8(digest);
}

/// A token authenticates a peer that holds its digest and was not revoked, and
/// every such peer is found, however many were issued before or after it. No
/// other token authenticates anybody.
pub proof fn law_every_peer_is_authenticated(
    store: &PeerStore,
    token: &str,
    identity: Option<PeerIdentity>,
)
    requires
        call_ensures(PeerStore::authenticate, (store, token), identity),
    ensures
        ({
            let wanted = crate::encoding::hex(sha256(vstd::utf8::encode_utf8(token@)));
            match identity {
                None => forall|i: int|
                    0 <= i < store@.len() ==> (#[trigger] store@[i]).revoked_at is Some
                        || vstd::utf8::encode_utf8(store@[i].token_sha256) != wanted,
                Some(PeerIdentity::Peer { peer_id, label }) => exists|i: int|
                    0 <= i < store@.len() && (#[trigger] store@[i]).revoked_at is None
                        && vstd::utf8::encode_utf8(store@[i].token_sha256) == wanted
                        && store@[i].peer_id == peer_id@ && store@[i].label == label@,
                Some(_) => false,
            }
        }),
{
    lemma_holder(store@, sha256(vstd::utf8::encode_utf8(token@)));
}

/// The same holds of the digest of a token.
pub proof fn law_every_digest_is_authenticated(
    store: &PeerStore,
    digest: &[u8],
    identity: Option<PeerIdentity>,
)
    requires
        call_ensures(PeerStore::authenticate_digest, (store, digest), identity),
    ensures
        ({
            let wanted = crate::encoding::hex(digest@);
            match identity {
                None => forall|i: int|
                    0 <= i < store@.len() ==> (#[trigger] store@[i]).revoked_at is Some
                        || vstd::utf8::encode_utf8(store@[i].token_sha256) != wanted,
                Some(PeerIdentity::Peer { peer_id, label }) => exists|i: int|
                    0 <= i < store@.len() && (#[trigger] store@[i]).revoked_at is None
                        && vstd::utf8::encode_utf8(store@[i].token_sha256) == wanted
                        && store@[i].peer_id == peer_id@ && store@[i].label == label@,
                Some(_) => false,
            }
        }),
{
    lemma_holder(store@, digest@);
}

/// A peer is issued under the label that was asked for: its token authenticates
/// it by its id and label, and a token of another digest authenticates whom it
/// did before. No peer is issued without a label.
pub proof fn law_issuing_adds_one_peer(
    store: &mut PeerStore,
    label: &str,
    token_bytes: &[u8],
    milliseconds: u64,
    id_bytes: &[u8],
    unix_time_secs: u64,
    issued: Result<IssuedPeer, ErrorCode>,
    after: &PeerStore,
    token: &str,
    earlier: Option<PeerIdentity>,
    later: Option<PeerIdentity>,
)
    requires
        call_ensures(
            PeerStore::issue,
            (store, label, token_bytes, milliseconds, id_bytes, unix_time_secs),
            issued,
        ),
        after@ == final(store)@,
        call_ensures(PeerStore::authenticate, (&*old(store), token), earlier),
        call_ensures(PeerStore::authenticate, (after, token), later),
    ensures
        issued is Err <==> label@.len() == 0,
        issued is Err ==> final(store)@ == old(store)@,
        issued matches Ok(peer) ==> {
            &&& final(store)@.len() == old(store)@.len() + 1
            &&& forall|i: int|
                0 <= i < old(store)@.len() ==> (#[trigger] final(store)@[i]) == old(store)@[i]
            &&& final(store)@.last().revoked_at is None
            &&& final(store)@.last().label == label@
            &&& token@ == peer.token@ ==> (later matches Some(
                PeerIdentity::Peer { peer_id, label: name },
            ) && peer_id@ == peer.peer_id@ && name@ == label@)
            &&& crate::encoding::hex(sha256(vstd::utf8::encode_utf8(token@)))
                != crate::encoding::hex(sha256(vstd::utf8::encode_utf8(peer.token@)))
                ==> same_identity(earlier, later)
        },
{
    let digest = sha256(vstd::utf8::encode_utf8(token@));
    let before = old(store)@;
    let now = final(store)@;
    if issued is Ok {
        assert(now.drop_last() =~= before);
        lemma_hex_utf8(sha256(token_utf8(token_bytes@)));
        lemma_holder(before, digest);
        lemma_holder(now, digest);
    }
}

/// Two answers name the same peer, or nobody.
pub open spec fn same_identity(a: Option<PeerIdentity>, b: Option<PeerIdentity>) -> bool {
    match (a, b) {
        (None, None) => true,
        (
            Some(PeerIdentity::Peer { peer_id: x, label: n }),
            Some(PeerIdentity::Peer { peer_id: y, label: m }),
        ) => x@ == y@ && n@ == m@,
        _ => false,
    }
}

/// A peer that is revoked is not authenticated any more, is not active and may
/// not go on; nobody else is affected. Where no id occurs twice.
pub proof fn law_revoking_ends_one_peer(
    store: &mut PeerStore,
    peer_id: &str,
    unix_time_secs: u64,
    found: bool,
    after: &PeerStore,
    token: &str,
    earlier: Option<PeerIdentity>,
    later: Option<PeerIdentity>,
    other: &str,
    was_active: bool,
    active: bool,
)
    requires
        forall|i: int, j: int|
            0 <= i < j < old(store)@.len() ==> (#[trigger] old(store)@[i]).peer_id != (
            #[trigger] old(store)@[j]).peer_id,
        call_ensures(PeerStore::revoke, (store, peer_id, unix_time_secs), found),
        after@ == final(store)@,
        call_ensures(PeerStore::authenticate, (&*old(store), token), earlier),
        call_ensures(PeerStore::authenticate, (after, token), later),
        call_ensures(PeerStore::is_active, (&*old(store), other), was_active),
        call_ensures(PeerStore::is_active, (after, other), active),
    ensures
        found <==> exists|i: int|
            0 <= i < old(store)@.len() && (#[trigger] old(store)@[i]).peer_id == peer_id@,
        final(store)@.len() == old(store)@.len(),
        later matches Some(PeerIdentity::Peer { peer_id: id, .. }) ==> id@ != peer_id@,
        earlier matches Some(PeerIdentity::Peer { peer_id: id, .. }) && id@ != peer_id@
            ==> same_identity(earlier, later),
        other@ == peer_id@ ==> !active,
        other@ != peer_id@ ==> active == was_active,
{
    let before = old(store)@;
    let now = final(store)@;
    let digest = sha256(vstd::utf8::encode_utf8(token@));
    let at = stamp(unix_time_secs);
    law_revoked_peers_stay_out(before, peer_id@, at, digest);
    lemma_peer_index(before, peer_id@);
    lemma_peer_index(before, other@);
    lemma_peer_index(now, other@);
    lemma_holder(before, digest);
    lemma_holder(now, digest);
    match peer_index(before, peer_id@) {
        Some(k) => {
            assert(before[k].peer_id == peer_id@);
            lemma_index_after_update(before, other@, k, revoked(before[k], at));
            match holder(before, digest) {
                Some(i) => {
                    if before[i].peer_id != peer_id@ {
                        lemma_holder_stays(before, k, revoked(before[k], at), digest);
                    }
                },
                None => {},
            }
        },
        None => {},
    }
}

/// The holder of a digest stays the holder where another peer is revoked.
proof fn lemma_holder_stays(peers: Seq<PeerView>, k: int, peer: PeerView, digest: Seq<u8>)
    requires
        0 <= k < peers.len(),
        peer.revoked_at is Some,
        holder(peers, digest) is Some,
        holder(peers, digest) != Some(k),
    ensures
        holder(peers.update(k, peer), digest) == holder(peers, digest),
    decreases peers.len(),
{
    let changed = peers.update(k, peer);
    if !holds(peers.last(), digest) {
        if k == peers.len() - 1 {
            assert(changed.drop_last() =~= peers.drop_last());
        } else {
            assert(changed.drop_last() =~= peers.drop_last().update(k, peer));
            lemma_holder_stays(peers.drop_last(), k, peer, digest);
        }
    }
}

/// A new default token replaces the old ones: their ids are reported, and none
/// of them is active any more; peers of other labels are left alone.
pub proof fn law_default_tokens_are_replaced(
    store: &mut PeerStore,
    token_bytes: &[u8],
    milliseconds: u64,
    id_bytes: &[u8],
    unix_time_secs: u64,
    answer: (Result<IssuedPeer, ErrorCode>, Vec<String>),
    i: int,
)
    requires
        call_ensures(
            PeerStore::issue_default,
            (store, token_bytes, milliseconds, id_bytes, unix_time_secs),
            answer,
        ),
        0 <= i < old(store)@.len(),
    ensures
        answer.0 matches Ok(peer) && final(store)@.last().peer_id == peer.peer_id@
            && final(store)@.last().label == "default"@ && final(store)@.last().revoked_at is None
            && vstd::utf8::encode_utf8(final(store)@.last().token_sha256) == crate::encoding::hex(
            sha256(vstd::utf8::encode_utf8(peer.token@)),
        ),
        final(store)@.len() == old(store)@.len() + 1,
        final(store)@[i].peer_id == old(store)@[i].peer_id,
        final(store)@[i].label == old(store)@[i].label,
        final(store)@[i].token_sha256 == old(store)@[i].token_sha256,
        final(store)@[i].issued_at == old(store)@[i].issued_at,
        old(store)@[i].label != "default"@ ==> final(store)@[i] == old(store)@[i],
        old(store)@[i].label == "default"@ ==> final(store)@[i].revoked_at is Some,
        old(store)@[i].label == "default"@ && old(store)@[i].revoked_at is None
            ==> crate::text::texts(answer.1@).contains(old(store)@[i].peer_id),
{
    lemma_hex_utf8(sha256(token_utf8(token_bytes@)));
    lemma_active_ids(old(store)@, "default"@, i);
}

proof fn lemma_active_ids(peers: Seq<PeerView>, label: Seq<char>, i: int)
    requires
        0 <= i < peers.len(),
    ensures
        peers[i].label == label && peers[i].revoked_at is None ==> active_ids(
            peers,
            label,
        ).contains(peers[i].peer_id),
    decreases peers.len(),
{
    let ids = active_ids(peers, label);
    if i == peers.len() - 1 {
        if peers[i].label == label && peers[i].revoked_at is None {
            assert(ids[ids.len() - 1] == peers[i].peer_id);
        }
    } else {
        lemma_active_ids(peers.drop_last(), label, i);
        let earlier = active_ids(peers.drop_last(), label);
        if peers[i].label == label && peers[i].revoked_at is None {
            let j = choose|j: int| 0 <= j < earlier.len() && earlier[j] == peers[i].peer_id;
            assert(ids[j] == peers[i].peer_id);
        }
    }
}

/// Peers are listed in the order in which they were issued, without the digests
/// of their tokens.
pub proof fn law_peers_are_listed(store: &PeerStore, listed: Vec<PeerSummary>, i: int)
    requires
        call_ensures(PeerStore::list, (store,), listed),
        0 <= i < store@.len(),
    ensures
        listed@.len() == store@.len(),
        listed@[i].peer_id@ == store@[i].peer_id,
        listed@[i].label@ == store@[i].label,
        listed@[i].issued_at@ == store@[i].issued_at,
        listed@[i].revoked_at is Some <==> store@[i].revoked_at is Some,
{
}

/// Hexadecimal digits do not end in a line end.
proof fn lemma_no_line_end(bytes: Seq<u8>)
    ensures
        ({
            let text = crate::encoding::hex(bytes);
            text.len() > 0 ==> text.last() != 0x0a && text.last() != 0x0d
        }),
{
}

/// A store takes the saved peers over as they are. An old token file adds one
/// peer, whose token is the one of that file, unless one was added before.
pub proof fn law_saved_peers_are_taken_over(
    saved: Vec<PeerRecord>,
    legacy: Option<&[u8]>,
    unix_time_secs: u64,
    opened: Result<PeerStore, String>,
    digest: &[u8],
    identity: Option<PeerIdentity>,
    i: int,
)
    requires
        call_ensures(PeerStore::load_or_import, (saved, legacy, unix_time_secs), opened),
        opened matches Ok(store) && call_ensures(
            PeerStore::authenticate_digest,
            (&store, digest),
            identity,
        ),
        0 <= i < saved@.len(),
    ensures
        opened matches Ok(store) && store@.len() >= saved@.len() && store@[i].peer_id
            == saved@[i].peer_id@ && store@[i].label == saved@[i].label@ && store@[i].token_sha256
            == saved@[i].token_sha256@ && (store@[i].revoked_at is Some
            <==> saved@[i].revoked_at is Some),
        legacy is None ==> opened->Ok_0@.len() == saved@.len(),
        saved@[i].peer_id@ == "legacy"@ ==> opened->Ok_0@.len() == saved@.len(),
        (legacy matches Some(contents) && (contents@ == crate::encoding::hex(digest@) || contents@
            == crate::encoding::hex(digest@).push(0x0a))) && (forall|k: int|
            0 <= k < saved@.len() ==> (#[trigger] saved@[k]).peer_id@ != "legacy"@)
            ==> (identity matches Some(PeerIdentity::Peer { peer_id, label }) && peer_id@
            == "legacy"@ && label@ == "legacy"@),
{
    let store = opened->Ok_0;
    let views = peer_views(saved@);
    assert(views[i] == saved@[i]@);
    lemma_peer_index(views, "legacy"@);
    if legacy is Some && !has_legacy(views) {
        let contents = legacy->0@;
        let read = choose|d: Seq<u8>|
            #![trigger crate::encoding::hex(d)]
            crate::encoding::hex(d) == line_of(contents) && store@ == views.push(
                legacy_peer(d, unix_time_secs),
            );
        lemma_hex_utf8(read);
        let text = crate::encoding::hex(digest@);
        assert(text.push(0x0a).drop_last() =~= text);
        if contents == text || contents == text.push(0x0a) {
            lemma_no_line_end(digest@);
            assert(line_of(contents) == text);
        }
    }
    if legacy is Some && has_legacy(views) {
        let k = peer_index(views, "legacy"@)->0;
        assert(views[k] == saved@[k]@);
        assert(saved@[k].peer_id@ == "legacy"@);
    }
}

/// Who a digest authenticates.
pub proof fn lemma_identities(peers: Seq<PeerView>, digest: Seq<u8>)
    ensures
        match holder(peers, digest) {
            Some(i) => 0 <= i < peers.len() && peers[i].revoked_at is None
                && vstd::utf8::encode_utf8(peers[i].token_sha256) == crate::encoding::hex(digest),
            None => forall|i: int|
                0 <= i < peers.len() ==> !((#[trigger] peers[i]).revoked_at is None
                    && vstd::utf8::encode_utf8(peers[i].token_sha256) == crate::encoding::hex(
                    digest,
                )),
        },
{
    lemma_holder(peers, digest);
    assert forall|i: int|
        0 <= i < peers.len() && holder(peers, digest) is None implies !((
    #[trigger] peers[i]).revoked_at is None && vstd::utf8::encode_utf8(peers[i].token_sha256)
        == crate::encoding::hex(digest)) by {
        assert(!holds(peers[i], digest));
    }
}

#[verifier::spinoff_prover]
#[verifier::rlimit(40)]
proof fn lemma_hex_is_faithful(a: Seq<u8>, b: Seq<u8>)
    requires
        crate::encoding::hex(a) == crate::encoding::hex(b),
    ensures
        a == b,
{
    let x = crate::encoding::hex(a);
    let y = crate::encoding::hex(b);
    assert(x.len() == 2 * a.len() && y.len() == 2 * b.len());
    assert forall|i: int| 0 <= i < a.len() implies a[i] == b[i] by {
        assert(x[2 * i] == y[2 * i]);
        assert(x[2 * i + 1] == y[2 * i + 1]);
        assert((2 * i) / 2 == i && (2 * i + 1) / 2 == i);
        assert((2 * i) % 2 == 0 && (2 * i + 1) % 2 == 1);
        lemma_nibbles(a[i], b[i]);
    }
    assert(a =~= b);
}

proof fn lemma_nibbles(a: u8, b: u8)
    requires
        crate::encoding::hex_lower(a as int / 16) == crate::encoding::hex_lower(b as int / 16),
        crate::encoding::hex_lower(a as int % 16) == crate::encoding::hex_lower(b as int % 16),
    ensures
        a == b,
{
    lemma_same_digit(a as int / 16, b as int / 16);
    lemma_same_digit(a as int % 16, b as int % 16);
}

proof fn lemma_same_digit(a: int, b: int)
    requires
        0 <= a < 16,
        0 <= b < 16,
        crate::encoding::hex_lower(a) == crate::encoding::hex_lower(b),
    ensures
        a == b,
{
}

/// A digest that stands in a file, on a line of its own or at its end, is the
/// one that is read.
pub proof fn law_digests_are_read_as_written(
    digest: Seq<u8>,
    contents: &[u8],
    read: Result<Vec<u8>, String>,
)
    requires
        digest.len() == 32,
        ({
            let line = crate::encoding::hex(digest);
            ||| contents@ == line
            ||| contents@ == line.push(10)
            ||| contents@ == line.push(13).push(10)
        }),
        call_ensures(parse_token_digest, (contents,), read),
    ensures
        read matches Ok(bytes) && bytes@ == digest,
{
    let line = crate::encoding::hex(digest);
    assert(line.len() == 64);
    assert forall|i: int| 0 <= i < 64 implies is_hex_digit(#[trigger] line[i]) by {}
    assert(line.last() == line[63]);
    assert(line.push(10).drop_last() =~= line);
    assert(line.push(13).push(10).drop_last() =~= line.push(13));
    assert(line.push(13).drop_last() =~= line);
    assert(line_of(contents@) == line);
    if read is Ok {
        lemma_hex_is_faithful(read->Ok_0@, digest);
    }
}

/// Two to the power of five times a number.
pub open spec fn thirty_twos(n: nat) -> nat
    decreases n,
{
    if n == 0 {
        1
    } else {
        32 * thirty_twos((n - 1) as nat)
    }
}

proof fn lemma_crockford_digit(value: nat, n: nat, i: int)
    requires
        0 <= i < n,
    ensures
        crockford_digits(value, n).len() == n,
        crockford_digits(value, n)[i] == crockford(
            value / thirty_twos((n - 1 - i) as nat) % 32,
        ),
    decreases n,
{
    lemma_crockford_length(value, n);
    lemma_crockford_length(value / 32, (n - 1) as nat);
    if i < n - 1 {
        lemma_crockford_digit(value / 32, (n - 1) as nat, i);
        let p = thirty_twos((n - 2 - i) as nat);
        lemma_thirty_twos((n - 2 - i) as nat);
        assert(thirty_twos((n - 1 - i) as nat) == 32 * p);
        vstd::arithmetic::div_mod::lemma_div_denominator(value as int, 32, p as int);
        assert(value / 32 / p == value / (32 * p));
        assert(crockford_digits(value, n)[i] == crockford_digits(value / 32, (n - 1) as nat)[i]);
    } else {
        assert(thirty_twos(0) == 1);
        assert(value / 1 == value);
    }
}

proof fn lemma_thirty_twos(n: nat)
    ensures
        thirty_twos(n) > 0,
    decreases n,
{
    if n > 0 {
        lemma_thirty_twos((n - 1) as nat);
    }
}

proof fn lemma_crockford_length(value: nat, n: nat)
    ensures
        crockford_digits(value, n).len() == n,
    decreases n,
{
    if n > 0 {
        lemma_crockford_length(value / 32, (n - 1) as nat);
    }
}

/// An id writes the time in milliseconds, and behind it the random number, with
/// 26 digits of five bits each.
pub proof fn law_ids_hold_their_time_and_chance(
    milliseconds: u64,
    random: &[u8],
    id: String,
    i: int,
)
    requires
        random@.len() == 10,
        milliseconds < 0x1_0000_0000_0000,
        call_ensures(generate_ulid, (milliseconds, random), id),
        0 <= i < 26,
    ensures
        id@.len() == 26,
        ({
            let number = milliseconds as nat * 0x1_0000_0000_0000_0000_0000 + number_of(random@);
            id@[i] == "0123456789ABCDEFGHJKMNPQRSTVWXYZ"@[(number / thirty_twos(
                (25 - i) as nat,
            ) % 32) as int]
        }),
{
    let number = milliseconds as nat * 0x1_0000_0000_0000_0000_0000 + number_of(random@);
    assert(milliseconds as nat % 0x1_0000_0000_0000 == milliseconds as nat);
    lemma_crockford_digit(number, 26, i);
}

proof fn lemma_first_peer(peers: Seq<PeerView>, peer_id: Seq<char>, i: int)
    requires
        0 <= i < peers.len(),
        peers[i].peer_id == peer_id,
        forall|k: int| 0 <= k < i ==> (#[trigger] peers[k]).peer_id != peer_id,
    ensures
        peer_index(peers, peer_id) == Some(i),
    decreases peers.len(),
{
    let rest = peers.drop_last();
    if i < rest.len() {
        assert(rest[i] == peers[i]);
        assert forall|k: int| 0 <= k < i implies (#[trigger] rest[k]).peer_id != peer_id by {
            assert(rest[k] == peers[k]);
        }
        lemma_first_peer(rest, peer_id, i);
    } else {
        lemma_peer_index(rest, peer_id);
        if peer_index(rest, peer_id) is Some {
            let k = peer_index(rest, peer_id)->0;
            assert(rest[k] == peers[k]);
            assert(peers[k].peer_id == peer_id);
        }
    }
}

/// A connection goes on while its peer is not revoked; one of a peer that is
/// not in the store ends, and one that needs no token goes on.
pub proof fn law_connections_last_as_long_as_their_peer(
    store: &PeerStore,
    peer: &PeerIdentity,
    admitted: bool,
    i: int,
)
    requires
        call_ensures(PeerStore::still_admits, (store, peer), admitted),
    ensures
        !(*peer is Peer) ==> admitted,
        *peer matches PeerIdentity::Peer { peer_id, .. } ==> {
            &&& (0 <= i < store@.len() && store@[i].peer_id == peer_id@ && (forall|k: int|
                0 <= k < i ==> (#[trigger] store@[k]).peer_id != peer_id@)) ==> (admitted <==>
                store@[i].revoked_at is None)
            &&& (forall|k: int| 0 <= k < store@.len() ==> (#[trigger] store@[k]).peer_id
                != peer_id@) ==> !admitted
        },
{
    match *peer {
        PeerIdentity::Peer { peer_id, .. } => {
            lemma_peer_index(store@, peer_id@);
            if 0 <= i < store@.len() && store@[i].peer_id == peer_id@ && (forall|k: int|
                0 <= k < i ==> (#[trigger] store@[k]).peer_id != peer_id@) {
                lemma_first_peer(store@, peer_id@, i);
            }
        },
        _ => {},
    }
}

/// Revoking a label revokes every peer of the label that is not revoked, and
/// changes nothing else; the ids of those that end are told.
pub proof fn law_labels_are_revoked_whole(
    store: &mut PeerStore,
    label: &str,
    unix_time_secs: u64,
    ids: Vec<String>,
    i: int,
)
    requires
        call_ensures(PeerStore::revoke_label, (store, label, unix_time_secs), ids),
        0 <= i < old(store)@.len(),
    ensures
        final(store)@.len() == old(store)@.len(),
        final(store)@[i].peer_id == old(store)@[i].peer_id,
        final(store)@[i].label == old(store)@[i].label,
        final(store)@[i].token_sha256 == old(store)@[i].token_sha256,
        final(store)@[i].issued_at == old(store)@[i].issued_at,
        old(store)@[i].label != label@ ==> final(store)@[i].revoked_at
            == old(store)@[i].revoked_at,
        old(store)@[i].label == label@ ==> final(store)@[i].revoked_at is Some,
        old(store)@[i].label == label@ && old(store)@[i].revoked_at is None
            ==> final(store)@[i].revoked_at == Some(
            "unix:"@ + crate::text::decimal(unix_time_secs as nat),
        ) && crate::text::texts(ids@).contains(old(store)@[i].peer_id),
        old(store)@[i].revoked_at is Some ==> final(store)@[i].revoked_at
            == old(store)@[i].revoked_at,
{
    lemma_active_id(old(store)@, label@, i);
}

proof fn lemma_active_id(peers: Seq<PeerView>, label: Seq<char>, i: int)
    requires
        0 <= i < peers.len(),
    ensures
        peers[i].label == label && peers[i].revoked_at is None ==> active_ids(
            peers,
            label,
        ).contains(peers[i].peer_id),
    decreases peers.len(),
{
    let rest = peers.drop_last();
    let before = active_ids(rest, label);
    let all = active_ids(peers, label);
    if peers[i].label == label && peers[i].revoked_at is None {
        if i < rest.len() {
            assert(rest[i] == peers[i]);
            lemma_active_id(rest, label, i);
            let k = choose|k: int| 0 <= k < before.len() && before[k] == peers[i].peer_id;
            assert(all[k] == peers[i].peer_id);
        } else {
            assert(all[before.len() as int] == peers[i].peer_id);
        }
    }
}

/// The file of an older token is put aside once the token was taken over.
pub proof fn law_imported_files_are_put_aside(
    path: &str,
    digest: &[u8],
    with: Option<String>,
    without: Option<String>,
)
    requires
        call_ensures(imported_path, (path, Some(digest)), with),
        call_ensures(imported_path, (path, None), without),
    ensures
        with is Some && with->0@ == path@ + ".imported"@,
        without is None,
{
}

/// A file that holds anything but 64 hexadecimal digits in lower case on one
/// line is no digest.
pub proof fn law_other_files_are_no_digests(
    contents: &[u8],
    read: Result<Vec<u8>, String>,
    line: Seq<u8>,
    i: int,
)
    requires
        call_ensures(parse_token_digest, (contents,), read),
        contents@ == line.push(10),
        line.len() > 0 ==> line.last() != 13,
    ensures
        line.len() != 64 ==> read is Err,
        0 <= i < line.len() && !(0x30 <= line[i] <= 0x39) && !(0x61 <= line[i] <= 0x66)
            ==> read is Err,
{
    assert(contents@.drop_last() =~= line);
    assert(line_of(contents@) == line);
    if 0 <= i < line.len() && !is_hex_digit(line[i]) && line.len() == 64 {
        assert(!is_hex_digit(line_of(contents@)[i]));
    }
}

} // verus!
