//! A vault in a file that is encrypted with age.

use std::io::Read;
use std::str::FromStr;

use age::x25519::Identity;
use age::Decryptor;
use vstd::prelude::*;
use vstd::string::*;

use crate::credential::{copy_refs, hide_refs, CredentialRef, ResolvedCredential, VaultTimer};
use crate::static_provider::{EntryConfig, StaticProvider};
use crate::text::{text_lines, text_starts_with, text_trim};

verus! {

// ---------------------------------------------------------------------------
// Decryption
// ---------------------------------------------------------------------------

/// A text is an X25519 identity of age.
pub uninterp spec fn is_x25519_identity(line: Seq<char>) -> bool;

/// What an age file holds, where an identity opens it.
pub uninterp spec fn age_plaintext(encrypted: Seq<u8>, identity: Seq<char>) -> Option<Seq<u8>>;

/// `age::x25519::Identity::from_str`: whether a text is an identity depends on
/// the text alone.
#[verifier::external_body]
fn parses_as_identity(line: &str) -> (r: bool)
    ensures
        r == is_x25519_identity(line@),
{
    Identity::from_str(line).is_ok()
}

/// `age::Decryptor`, given one X25519 identity: what it reads from an
/// encrypted file, or nothing where the file is malformed or is not meant for
/// the identity. The result depends on the file and the identity alone.
#[verifier::external_body]
fn age_decrypt(encrypted: &[u8], identity: &str) -> (r: Option<Vec<u8>>)
    ensures
        crate::totp::opt_bytes(r) == age_plaintext(encrypted@, identity@),
{
    let identity = Identity::from_str(identity).ok()?;
    let decryptor = Decryptor::new(encrypted).ok()?;
    let identities = std::iter::once(&identity as &dyn age::Identity);
    let mut reader = decryptor.decrypt(identities).ok()?;
    let mut plaintext = Vec::new();
    reader.read_to_end(&mut plaintext).ok()?;
    Some(plaintext)
}

/// The lines of an identity file that may be identities: neither empty nor
/// comments.
pub open spec fn candidate(line: Seq<char>) -> Option<Seq<char>> {
    let text = crate::text::trim(line);
    if text.len() == 0 || "#"@.is_prefix_of(text) {
        None
    } else {
        Some(text)
    }
}

/// The candidates among the lines of an identity file, in order.
pub open spec fn candidates(lines: Seq<Seq<char>>) -> Seq<Seq<char>>
    decreases lines.len(),
{
    if lines.len() == 0 {
        seq![]
    } else {
        match candidate(lines.last()) {
            Some(text) => candidates(lines.drop_last()).push(text),
            None => candidates(lines.drop_last()),
        }
    }
}

/// The lines of an identity file that may be identities.
pub fn identity_candidates(identity_text: &str) -> (r: Vec<String>)
    ensures
        crate::text::texts(r@) == candidates(crate::text::lines(identity_text@)),
{
    let lines = text_lines(identity_text);
    let ghost all = crate::text::lines(identity_text@);
    let mut out: Vec<String> = Vec::new();
    let mut i: usize = 0;
    assert(crate::text::texts(out@) =~= candidates(all.take(0)));
    while i < lines.len()
        invariant
            i <= lines@.len(),
            all == crate::text::texts(lines@),
            crate::text::texts(out@) == candidates(all.take(i as int)),
        decreases lines@.len() - i,
    {
        let ghost before = out@;
        proof {
            assert(all.take(i + 1).drop_last() =~= all.take(i as int));
            assert(all.take(i + 1).last() == lines@[i as int]@);
        }
        let text = text_trim(lines[i].as_str());
        if !text.as_str().is_empty() && !text_starts_with(text.as_str(), "#") {
            out.push(text);
            assert(crate::text::texts(out@) =~= crate::text::texts(before).push(text@));
        }
        i += 1;
    }
    assert(all.take(i as int) =~= all);
    out
}

/// The first of a list that is an identity.
pub open spec fn first_valid(list: Seq<Seq<char>>) -> Option<Seq<char>>
    decreases list.len(),
{
    if list.len() == 0 {
        None
    } else if is_x25519_identity(list[0]) {
        Some(list[0])
    } else {
        first_valid(list.drop_first())
    }
}

/// Reads an encrypted file with the first identity of an identity file.
pub fn decrypt_entries(encrypted: &[u8], identity_text: &str) -> (r: Option<Vec<u8>>)
    ensures
        crate::totp::opt_bytes(r) == (match first_valid(
            candidates(crate::text::lines(identity_text@)),
        ) {
            Some(identity) => age_plaintext(encrypted@, identity),
            None => None,
        }),
{
    let list = identity_candidates(identity_text);
    let ghost all = crate::text::texts(list@);
    let mut i: usize = 0;
    assert(all.skip(0) =~= all);
    while i < list.len()
        invariant
            i <= list@.len(),
            all == crate::text::texts(list@),
            all == candidates(crate::text::lines(identity_text@)),
            first_valid(all) == first_valid(all.skip(i as int)),
        decreases list@.len() - i,
    {
        proof {
            assert(all.skip(i as int)[0] == list@[i as int]@);
            assert(all.skip(i as int).drop_first() =~= all.skip(i + 1));
        }
        if parses_as_identity(list[i].as_str()) {
            return age_decrypt(encrypted, list[i].as_str());
        }
        i += 1;
    }
    None
}

/// The permission bits of a file mode.
pub open spec fn permission_bits(mode: u32) -> u32 {
    mode % 0o10000
}

/// An identity file must be readable by its owner alone.
pub fn check_identity_mode(mode: u32) -> (r: Result<(), String>)
    ensures
        match r {
            Ok(()) => permission_bits(mode) == 0o600,
            Err(m) => permission_bits(mode) != 0o600 && m@
                == "age identity file must have permissions 0600"@,
        },
{
    if mode % 0o10000 == 0o600 {
        Ok(())
    } else {
        Err("age identity file must have permissions 0600".to_owned())
    }
}

// ---------------------------------------------------------------------------
// The vault
// ---------------------------------------------------------------------------

/// A vault in an encrypted file. While it is open its entries are in memory.
pub struct FileProvider {
    timer: VaultTimer,
    session: Option<StaticProvider>,
    catalog: Vec<CredentialRef>,
}

/// A vault, by the views of its parts.
#[verifier::ext_equal]
pub struct FileView {
    pub timer: VaultTimer,
    pub session: Option<crate::static_provider::StaticView>,
    pub catalog: Seq<crate::credential::RefView>,
}

impl View for FileProvider {
    type V = FileView;

    closed spec fn view(&self) -> FileView {
        FileView {
            timer: self.timer,
            session: match self.session {
                Some(s) => Some(s@),
                None => None,
            },
            catalog: crate::credential::ref_views(self.catalog@),
        }
    }
}

impl FileView {
    /// The entries are in memory exactly while the vault is open.
    pub open spec fn wf(self) -> bool {
        &&& self.session is Some <==> self.timer.unlocked_at is Some
        &&& self.timer.locked <==> self.timer.unlocked_at is None
        &&& self.session matches Some(s) ==> !s.locked
    }

    /// The vault after its time was found to be over.
    pub open spec fn expired(self, now: u64) -> FileView {
        if self.timer.due(now) {
            FileView { timer: self.timer.autolocked(), session: None, ..self }
        } else {
            self
        }
    }

    /// The vault as it is opened.
    pub open spec fn opened(self, entries: Seq<crate::static_provider::EntryView>, now: u64) -> FileView {
        FileView {
            timer: self.timer.opened(now),
            session: Some(crate::static_provider::StaticView { entries, locked: false }),
            ..self
        }
    }

    /// The vault as it is locked.
    pub open spec fn locked(self) -> FileView {
        FileView { timer: self.timer.closed(), session: None, ..self }
    }
}

impl FileProvider {
    /// A vault that was not opened yet.
    pub fn new(ttl_secs: u64) -> (r: FileProvider)
        ensures
            r@ == (FileView {
                timer: VaultTimer {
                    ttl_secs,
                    unlocked_at: None,
                    locked: true,
                    autolock_event_pending: false,
                },
                session: None,
                catalog: seq![],
            }),
            r@.wf(),
    {
        let r = FileProvider {
            timer: VaultTimer::new(ttl_secs, true),
            session: None,
            catalog: Vec::new(),
        };
        assert(r@.catalog =~= seq![]);
        r
    }

    /// Tells whether the file must be read before the entries can be used.
    /// A vault whose time is over is closed first.
    pub fn needs_unlock(&mut self, now: u64) -> (r: bool)
        requires
            old(self)@.wf(),
        ensures
            final(self)@ == old(self)@.expired(now),
            final(self)@.wf(),
            r == (final(self)@.session is None),
    {
        self.expire(now);
        self.timer.unlocked_at.is_none()
    }

    /// Opens the vault with the entries that the file holds.
    pub fn unlock(&mut self, entries: Vec<EntryConfig>, now: u64)
        requires
            old(self)@.wf(),
        ensures
            final(self)@ == old(self)@.opened(
                crate::static_provider::config_views(entries@),
                now,
            ),
            final(self)@.wf(),
    {
        self.session = Some(StaticProvider::new(entries));
        self.timer.open(now);
    }

    /// What a locked vault lists: what is known from before, without
    /// addresses and kinds. A vault that was never listed says nothing.
    pub fn locked_refs(&self) -> (r: Option<Vec<CredentialRef>>)
        ensures
            match r {
                Some(refs) => self@.timer.locked && self@.catalog.len() > 0
                    && crate::credential::ref_views(refs@) == crate::credential::hidden_refs(
                    self@.catalog,
                ),
                None => !self@.timer.locked || self@.catalog.len() == 0,
            },
    {
        assert(self@.catalog.len() == self.catalog@.len());
        if self.timer.locked && self.catalog.len() > 0 {
            Some(hide_refs(&self.catalog))
        } else {
            None
        }
    }

    /// Lists the entries of an open vault, and remembers them.
    pub fn list_refs(&mut self) -> (r: Option<Vec<CredentialRef>>)
        ensures
            match old(self)@.session {
                Some(session) => {
                    &&& r matches Some(refs)
                    &&& crate::credential::ref_views(refs@) == session.refs()
                    &&& final(self)@ == (FileView { catalog: session.refs(), ..old(self)@ })
                },
                None => r is None && final(self)@ == old(self)@,
            },
    {
        match &self.session {
            Some(session) => {
                let refs = session.list_refs();
                self.catalog = copy_refs(&refs);
                Some(refs)
            },
            None => None,
        }
    }

    /// The values of an entry of an open vault. They are new to the registry
    /// of what may not leave the daemon.
    pub fn resolve(&self, entry_id: &str) -> (r: Option<ResolvedCredential>)
        ensures
            crate::credential::opt_credential(r) == (match self@.session {
                Some(session) => match session.resolved(entry_id@) {
                    Some(c) => Some(
                        crate::credential::CredentialView { secrets_preregistered: false, ..c },
                    ),
                    None => None,
                },
                None => None,
            }),
    {
        match &self.session {
            Some(session) => match session.resolve(entry_id) {
                Some(mut credential) => {
                    credential.secrets_preregistered = false;
                    Some(credential)
                },
                None => None,
            },
            None => None,
        }
    }

    /// Locks the vault.
    pub fn lock(&mut self)
        requires
            old(self)@.wf(),
        ensures
            final(self)@ == old(self)@.locked(),
            final(self)@.wf(),
    {
        self.session = None;
        self.timer.close();
    }

    /// Locks the vault if its time is over.
    pub fn expire(&mut self, now: u64)
        requires
            old(self)@.wf(),
        ensures
            final(self)@ == old(self)@.expired(now),
            final(self)@.wf(),
    {
        if self.timer.is_due(now) {
            self.session = None;
            self.timer.autolock();
        }
    }

    /// Tells whether the vault is locked.
    pub fn locked(&self) -> (r: bool)
        ensures
            r == self@.timer.locked,
    {
        self.timer.locked
    }

    /// Tells, once, that the vault was closed because its time was over.
    pub fn take_autolock_event(&mut self) -> (r: bool)
        requires
            old(self)@.wf(),
        ensures
            r == old(self)@.timer.autolock_event_pending,
            final(self)@ == (FileView {
                timer: VaultTimer { autolock_event_pending: false, ..old(self)@.timer },
                ..old(self)@
            }),
            final(self)@.wf(),
    {
        self.timer.take_autolock_event()
    }
}

/// A locked vault, and one whose time is over, keeps no value in memory.
pub proof fn law_locked_files_keep_no_values(vault: FileView, now: u64)
    requires
        vault.wf(),
    ensures
        vault.locked().session is None,
        vault.timer.due(now) ==> vault.expired(now).session is None && vault.expired(
            now,
        ).timer.autolock_event_pending,
        vault.timer.running(now) ==> vault.expired(now) == vault,
        vault.locked().wf(),
        vault.expired(now).wf(),
{
}

/// A file that was read is open until it is locked or its time is over: until
/// then it hands out the values that the file holds, which are new to the
/// registry, and afterwards none.
pub proof fn law_files_are_open_for_their_time(
    vault: &mut FileProvider,
    entries: Vec<EntryConfig>,
    opened_at: u64,
    now: u64,
    after: &mut FileProvider,
    must_read: bool,
    held: StaticProvider,
    id: &str,
    found: Option<ResolvedCredential>,
    expected: Option<ResolvedCredential>,
)
    requires
        old(vault)@.wf(),
        call_ensures(FileProvider::unlock, (vault, entries, opened_at), ()),
        old(after)@ == final(vault)@,
        call_ensures(FileProvider::needs_unlock, (after, now), must_read),
        call_ensures(FileProvider::resolve, (&*final(after), id), found),
        call_ensures(StaticProvider::new, (entries,), held),
        call_ensures(StaticProvider::resolve, (&held, id), expected),
        opened_at <= now,
    ensures
        must_read <==> now - opened_at >= old(vault)@.timer.ttl_secs * 1_000_000_000,
        must_read ==> found is None && final(after)@.timer.locked
            && final(after)@.timer.autolock_event_pending,
        !must_read ==> match (found, expected) {
            (Some(c), Some(e)) => c.username@ == e.username@ && c.password@ == e.password@
                && crate::credential::opt_secret(c.totp_seed) == crate::credential::opt_secret(
                e.totp_seed,
            ) && c.totp_exposable == e.totp_exposable && !c.locked && !c.secrets_preregistered,
            (None, None) => true,
            _ => false,
        },
{
}

/// A locked file hands out nothing and must be read again.
pub proof fn law_locked_files_must_be_read_again(
    vault: &mut FileProvider,
    after: &mut FileProvider,
    now: u64,
    must_read: bool,
    id: &str,
    found: Option<ResolvedCredential>,
)
    requires
        old(vault)@.wf(),
        call_ensures(FileProvider::lock, (vault,), ()),
        old(after)@ == final(vault)@,
        call_ensures(FileProvider::needs_unlock, (after, now), must_read),
        call_ensures(FileProvider::resolve, (&*final(vault), id), found),
    ensures
        must_read,
        found is None,
        final(vault)@.timer.locked,
        final(vault)@.catalog == old(vault)@.catalog,
{
}

/// A file is read with the identity of the identity file: comments and empty
/// lines before it do not matter.
pub proof fn law_identities_are_found_behind_comments(
    encrypted: &[u8],
    identity_text: &str,
    opened: Option<Vec<u8>>,
    comment: Seq<char>,
    identity: Seq<char>,
)
    requires
        call_ensures(decrypt_entries, (encrypted, identity_text), opened),
        identity_text@ == comment.push('\n') + identity.push('\n') || identity_text@ == identity,
        comment.len() == 0 || comment[0] == '#',
        !comment.contains('\n'),
        identity.len() > 0,
        !identity.contains('\n'),
        !identity.contains('\r'),
        identity[0] != '#',
        !crate::text::is_white(identity[0]),
        !crate::text::is_white(identity.last()),
        is_x25519_identity(identity),
    ensures
        crate::totp::opt_bytes(opened) == age_plaintext(encrypted@, identity),
{
    reveal_strlit("#");
    let white = crate::text::CharClass::White;
    crate::text::lemma_split_first(identity, '\n');
    assert(identity.contains(identity.last()));
    assert(crate::text::trim(identity) == identity);
    assert(!"#"@.is_prefix_of(identity)) by {
        assert("#"@[0] == '#');
    }
    assert(candidate(identity) == Some(identity));
    let empty = Seq::<Seq<char>>::empty();
    assert(candidates(empty) =~= empty);
    assert(seq![identity].drop_last() =~= empty);
    assert(candidates(seq![identity]) =~= seq![identity]);
    assert(first_valid(seq![identity]) == Some(identity));
    if identity_text@ != identity {
        let line = crate::text::without_return(comment);
        crate::text::lemma_split_first_unique(comment, '\n', identity.push('\n'));
        crate::text::lemma_split_first_unique(identity, '\n', Seq::<char>::empty());
        assert(identity.push('\n') + Seq::<char>::empty() =~= identity.push('\n'));
        let rest = crate::text::lines(identity.push('\n'));
        assert(crate::text::lines(Seq::<char>::empty()) =~= empty);
        assert(rest =~= seq![identity]);
        let all = crate::text::lines(identity_text@);
        assert(all =~= seq![line, identity]);
        assert(candidate(line) is None) by {
            lemma_comment(line);
        }
        assert(all.drop_last() =~= seq![line]);
        assert(seq![line].drop_last() =~= empty);
        assert(candidates(seq![line]) =~= empty);
        assert(candidates(all) =~= seq![identity]);
    } else {
        assert(crate::text::lines(identity) =~= seq![identity]);
    }
}

proof fn lemma_comment(line: Seq<char>)
    requires
        line.len() == 0 || line[0] == '#',
    ensures
        candidate(line) is None,
    decreases line.len(),
{
    reveal_strlit("#");
    let white = crate::text::CharClass::White;
    if line.len() > 0 {
        assert(crate::text::trim_start(line, white) == line);
        lemma_trim_keeps_first(line);
        let text = crate::text::trim(line);
        assert("#"@.is_prefix_of(text)) by {
            assert("#"@ =~= text.subrange(0, 1));
        }
    }
}

proof fn lemma_trim_keeps_first(line: Seq<char>)
    requires
        line.len() > 0,
        !crate::text::is_white(line[0]),
    ensures
        crate::text::trim_end(line, crate::text::CharClass::White).len() > 0,
        crate::text::trim_end(line, crate::text::CharClass::White)[0] == line[0],
    decreases line.len(),
{
    if line.len() > 1 && crate::text::is_white(line.last()) {
        lemma_trim_keeps_first(line.drop_last());
    }
}

/// An open file lists the entries that were read, and while it is locked their
/// names are what is left of them; it is locked once its time is over.
pub proof fn law_files_list_what_was_read(
    vault: &mut FileProvider,
    locked: &FileProvider,
    expiring: &mut FileProvider,
    now: u64,
    listed: Option<Vec<CredentialRef>>,
    hidden: Option<Vec<CredentialRef>>,
    done: (),
)
    requires
        call_ensures(FileProvider::list_refs, (vault,), listed),
        call_ensures(FileProvider::locked_refs, (locked,), hidden),
        locked@.timer.locked && locked@.catalog == final(vault)@.catalog,
        call_ensures(FileProvider::expire, (expiring, now), done),
    ensures
        listed is Some <==> old(vault)@.session is Some,
        listed matches Some(refs) ==> final(vault)@.catalog == crate::credential::ref_views(refs@),
        listed is None ==> final(vault)@.catalog == old(vault)@.catalog,
        hidden is Some <==> final(vault)@.catalog.len() > 0,
        hidden matches Some(refs) ==> refs@.len() == final(vault)@.catalog.len() && (forall|k: int|
            0 <= k < refs@.len() ==> (#[trigger] refs@[k]).id@ == final(vault)@.catalog[k].id
                && refs@[k].name@ == final(vault)@.catalog[k].name && refs@[k].uri is None
                && refs@[k].kind is None),
        old(expiring)@.timer.due(now) ==> final(expiring)@.session is None
            && final(expiring)@.timer.locked && final(expiring)@.timer.autolock_event_pending,
        !old(expiring)@.timer.due(now) ==> final(expiring)@ == old(expiring)@,
{
    if hidden is Some {
        let refs = hidden->0@;
        let views = crate::credential::ref_views(refs);
        assert(views.len() == refs.len());
        assert forall|k: int| 0 <= k < refs.len() implies (#[trigger] refs[k]).id@
            == final(vault)@.catalog[k].id && refs[k].name@ == final(vault)@.catalog[k].name
            && refs[k].uri is None && refs[k].kind is None by {
            assert(views[k] == refs[k]@);
            assert(crate::credential::hidden_refs(locked@.catalog)[k]
                == locked@.catalog[k].hidden());
        }
    }
}

/// The identity is read from a file that its owner alone may read and write.
pub proof fn law_identities_are_private(mode: u32, checked: Result<(), String>)
    requires
        call_ensures(check_identity_mode, (mode,), checked),
    ensures
        checked is Ok <==> mode as int % 4096 == 384,
{
}

} // verus!
