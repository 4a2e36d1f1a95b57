//! A vault whose entries are in memory.

use vstd::prelude::*;
use vstd::string::*;

use crate::credential::{copy_opt_secret, copy_secret, CredentialRef, ResolvedCredential};
use crate::secret::Secret;
use crate::text::same_text;

verus! {

/// One entry as it is written in a configuration or an entries file.
pub struct EntryConfig {
    pub id: String,
    pub name: String,
    pub uri: String,
    pub kind: String,
    pub username: String,
    pub password: String,
    pub totp_seed: Option<String>,
    pub totp_exposable: Option<bool>,
}

/// An entry, by the views of its parts.
#[verifier::ext_equal]
pub struct EntryView {
    pub id: Seq<char>,
    pub name: Seq<char>,
    pub uri: Seq<char>,
    pub kind: Seq<char>,
    pub username: Seq<char>,
    pub password: Seq<char>,
    pub totp_seed: Option<Seq<char>>,
    pub totp_exposable: bool,
}

impl View for EntryConfig {
    type V = EntryView;

    open spec fn view(&self) -> EntryView {
        EntryView {
            id: self.id@,
            name: self.name@,
            uri: self.uri@,
            kind: self.kind@,
            username: self.username@,
            password: self.password@,
            totp_seed: crate::text::opt_text(self.totp_seed),
            totp_exposable: self.totp_exposable == Some(true),
        }
    }
}

/// The entries of a list, by their views.
pub open spec fn config_views(entries: Seq<EntryConfig>) -> Seq<EntryView> {
    entries.map_values(|e: EntryConfig| e@)
}

struct Entry {
    id: String,
    name: String,
    uri: String,
    kind: String,
    username: Secret,
    password: Secret,
    totp_seed: Option<Secret>,
    totp_exposable: bool,
}

impl View for Entry {
    type V = EntryView;

    closed spec fn view(&self) -> EntryView {
        EntryView {
            id: self.id@,
            name: self.name@,
            uri: self.uri@,
            kind: self.kind@,
            username: self.username@,
            password: self.password@,
            totp_seed: crate::credential::opt_secret(self.totp_seed),
            totp_exposable: self.totp_exposable,
        }
    }
}

spec fn entry_views(entries: Seq<Entry>) -> Seq<EntryView> {
    entries.map_values(|e: Entry| e@)
}

/// A vault whose entries are in memory.
pub struct StaticProvider {
    entries: Vec<Entry>,
    locked: bool,
}

/// A vault, by the views of its parts.
#[verifier::ext_equal]
pub struct StaticView {
    pub entries: Seq<EntryView>,
    pub locked: bool,
}

impl View for StaticProvider {
    type V = StaticView;

    closed spec fn view(&self) -> StaticView {
        StaticView {
            entries: entry_views(self.entries@),
            locked: self.locked,
        }
    }
}

/// The values of an entry that may not leave the daemon.
pub open spec fn entry_secrets(entry: EntryView) -> Seq<Seq<char>> {
    match entry.totp_seed {
        Some(seed) => seq![entry.username, entry.password, seed],
        None => seq![entry.username, entry.password],
    }
}

/// The values of entries that may not leave the daemon.
pub open spec fn all_secrets(entries: Seq<EntryView>) -> Seq<Seq<char>>
    decreases entries.len(),
{
    if entries.len() == 0 {
        seq![]
    } else {
        all_secrets(entries.drop_last()) + entry_secrets(entries.last())
    }
}

/// How an entry is listed.
pub open spec fn entry_ref(entry: EntryView, locked: bool) -> crate::credential::RefView {
    crate::credential::RefView {
        id: entry.id,
        name: entry.name,
        uri: if locked {
            None
        } else {
            Some(entry.uri)
        },
        kind: if locked {
            None
        } else {
            Some(entry.kind)
        },
    }
}

/// What an entry resolves to.
pub open spec fn entry_credential(entry: EntryView, locked: bool) -> crate::credential::CredentialView {
    crate::credential::CredentialView {
        locked,
        secrets_preregistered: true,
        username: entry.username,
        password: entry.password,
        totp_seed: entry.totp_seed,
        totp_exposable: entry.totp_exposable,
    }
}

/// The first entry of an id.
pub open spec fn entry_of(entries: Seq<EntryView>, id: Seq<char>) -> Option<EntryView>
    decreases entries.len(),
{
    if entries.len() == 0 {
        None
    } else if entries[0].id == id {
        Some(entries[0])
    } else {
        entry_of(entries.drop_first(), id)
    }
}

impl StaticView {
    pub open spec fn refs(self) -> Seq<crate::credential::RefView> {
        self.entries.map_values(|e: EntryView| entry_ref(e, self.locked))
    }

    pub open spec fn resolved(self, id: Seq<char>) -> Option<crate::credential::CredentialView> {
        match entry_of(self.entries, id) {
            Some(entry) => Some(entry_credential(entry, self.locked)),
            None => None,
        }
    }
}

fn push_secrets(entry: &EntryConfig, registry: &mut Vec<String>)
    ensures
        crate::text::texts(final(registry)@) == crate::text::texts(old(registry)@) + entry_secrets(
            entry@,
        ),
{
    let ghost before = registry@;
    registry.push(entry.username.clone());
    registry.push(entry.password.clone());
    match &entry.totp_seed {
        Some(seed) => {
            registry.push(seed.clone());
        },
        None => {},
    }
    assert(crate::text::texts(registry@) =~= crate::text::texts(before) + entry_secrets(entry@));
}

impl StaticProvider {
    /// Opens a vault with the given entries.
    pub fn new(entries: Vec<EntryConfig>) -> (r: Self)
        ensures
            r@ == (StaticView { entries: config_views(entries@), locked: false }),
    {
        let ghost all = config_views(entries@);
        let mut rest = entries;
        let mut kept: Vec<Entry> = Vec::new();
        let mut done: Ghost<int> = Ghost(0);
        assert(config_views(rest@) =~= all.skip(0));
        assert(entry_views(kept@) =~= all.take(0));
        while rest.len() > 0
            invariant
                0 <= done@ <= all.len(),
                config_views(rest@) == all.skip(done@),
                entry_views(kept@) == all.take(done@),
            decreases rest@.len(),
        {
            let ghost before = kept@;
            let ghost left = rest@;
            proof {
                assert(config_views(left)[0] == left[0]@);
                assert(config_views(left).len() == left.len());
                assert(all.skip(done@)[0] == all[done@]);
                assert(left[0]@ == all[done@]);
            }
            let entry = rest.remove(0);
            let EntryConfig { id, name, uri, kind, username, password, totp_seed, totp_exposable } =
                entry;
            let seed = match totp_seed {
                Some(text) => Some(Secret::new(text)),
                None => None,
            };
            let exposable = match totp_exposable {
                Some(flag) => flag,
                None => false,
            };
            kept.push(
                Entry {
                    id,
                    name,
                    uri,
                    kind,
                    username: Secret::new(username),
                    password: Secret::new(password),
                    totp_seed: seed,
                    totp_exposable: exposable,
                },
            );
            proof {
                assert(config_views(rest@) =~= all.skip(done@ + 1)) by {
                    assert(config_views(rest@) =~= config_views(left).remove(0));
                }
                assert(kept@.last()@ == all[done@]);
                assert(entry_views(kept@) =~= entry_views(before).push(all[done@]));
                assert(all.take(done@ + 1) =~= all.take(done@).push(all[done@]));
                done@ = done@ + 1;
            }
        }
        proof {
            assert(config_views(rest@).len() == 0);
            assert(all.take(done@) =~= all);
        }
        let r = StaticProvider { entries: kept, locked: false };
        assert(r@.entries =~= all);
        r
    }

    /// Opens a vault with the given entries, and hands their values to the
    /// registry of what may not leave the daemon.
    pub fn from_config(entries: Vec<EntryConfig>, registry: &mut Vec<String>) -> (r: Self)
        ensures
            r@ == (StaticView { entries: config_views(entries@), locked: false }),
            crate::text::texts(final(registry)@) == crate::text::texts(old(registry)@)
                + all_secrets(config_views(entries@)),
    {
        let ghost all = config_views(entries@);
        let ghost before = crate::text::texts(registry@);
        let mut i: usize = 0;
        assert(before + all_secrets(all.take(0)) =~= before);
        while i < entries.len()
            invariant
                i <= entries@.len(),
                all == config_views(entries@),
                crate::text::texts(registry@) == before + all_secrets(all.take(i as int)),
            decreases entries@.len() - i,
        {
            push_secrets(&entries[i], registry);
            proof {
                assert(all.take(i + 1).drop_last() =~= all.take(i as int));
                assert(all.take(i + 1).last() == entries@[i as int]@);
                assert(before + all_secrets(all.take(i + 1)) =~= before + all_secrets(
                    all.take(i as int),
                ) + entry_secrets(entries@[i as int]@));
            }
            i += 1;
        }
        assert(all.take(i as int) =~= all);
        StaticProvider::new(entries)
    }

    /// Lists the entries; while the vault is locked, only by id and name.
    pub fn list_refs(&self) -> (refs: Vec<CredentialRef>)
        ensures
            crate::credential::ref_views(refs@) == self@.refs(),
    {
        let mut refs: Vec<CredentialRef> = Vec::new();
        let ghost all = self@.refs();
        let mut i: usize = 0;
        assert(crate::credential::ref_views(refs@) =~= all.take(0));
        while i < self.entries.len()
            invariant
                i <= self.entries@.len(),
                all == self@.refs(),
                all.len() == self.entries@.len(),
                crate::credential::ref_views(refs@) == all.take(i as int),
            decreases self.entries@.len() - i,
        {
            let ghost before = refs@;
            let entry = &self.entries[i];
            let (uri, kind) = if self.locked {
                (None, None)
            } else {
                (Some(entry.uri.clone()), Some(entry.kind.clone()))
            };
            let r = CredentialRef { id: entry.id.clone(), name: entry.name.clone(), uri, kind };
            refs.push(r);
            proof {
                assert(all[i as int] == entry_ref(self@.entries[i as int], self.locked));
                assert(self@.entries[i as int] == entry@);
                assert(r@ == all[i as int]);
                assert(crate::credential::ref_views(refs@) =~= crate::credential::ref_views(
                    before,
                ).push(r@));
                assert(all.take(i + 1) =~= all.take(i as int).push(all[i as int]));
            }
            i += 1;
        }
        assert(all.take(i as int) =~= all);
        refs
    }

    /// The values of an entry.
    pub fn resolve(&self, entry_id: &str) -> (r: Option<ResolvedCredential>)
        ensures
            crate::credential::opt_credential(r) == self@.resolved(entry_id@),
    {
        let ghost all = self@.entries;
        let mut i: usize = 0;
        assert(all.skip(0) =~= all);
        while i < self.entries.len()
            invariant
                i <= self.entries@.len(),
                all == self@.entries,
                all.len() == self.entries@.len(),
                entry_of(all, entry_id@) == entry_of(all.skip(i as int), entry_id@),
            decreases self.entries@.len() - i,
        {
            let entry = &self.entries[i];
            proof {
                assert(all[i as int] == entry@);
                assert(all.skip(i as int)[0] == entry@);
                assert(all.skip(i as int).drop_first() =~= all.skip(i + 1));
            }
            if same_text(entry.id.as_str(), entry_id) {
                return Some(
                    ResolvedCredential {
                        locked: self.locked,
                        secrets_preregistered: true,
                        username: copy_secret(&entry.username),
                        password: copy_secret(&entry.password),
                        totp_seed: copy_opt_secret(&entry.totp_seed),
                        totp_exposable: entry.totp_exposable,
                    },
                );
            }
            i += 1;
        }
        None
    }

    /// Locks the vault.
    pub fn lock(&mut self)
        ensures
            final(self)@ == (StaticView { locked: true, ..old(self)@ }),
    {
        self.locked = true;
    }

    /// Tells whether the vault is locked.
    pub fn locked(&self) -> (r: bool)
        ensures
            r == self@.locked,
    {
        self.locked
    }
}

/// A locked vault lists names and nothing else, and whatever it resolves is
/// marked as locked.
pub proof fn law_locked_vault_hides_metadata(vault: StaticView, id: Seq<char>, i: int)
    requires
        vault.locked,
        0 <= i < vault.refs().len(),
    ensures
        vault.refs()[i].uri is None,
        vault.refs()[i].kind is None,
        vault.resolved(id) matches Some(c) ==> c.locked,
{
}

proof fn lemma_entry_of(entries: Seq<EntryView>, id: Seq<char>)
    ensures
        match entry_of(entries, id) {
            Some(entry) => exists|i: int|
                0 <= i < entries.len() && #[trigger] entries[i] == entry && entry.id == id && (
                forall|k: int| 0 <= k < i ==> (#[trigger] entries[k]).id != id),
            None => forall|k: int| 0 <= k < entries.len() ==> (#[trigger] entries[k]).id != id,
        },
    decreases entries.len(),
{
    if entries.len() > 0 {
        let rest = entries.drop_first();
        lemma_entry_of(rest, id);
        if entries[0].id == id {
            assert(entries[0] == entry_of(entries, id)->0);
        } else {
            assert forall|k: int| 0 < k < entries.len() implies (#[trigger] entries[k]) == rest[k
                - 1] by {}
            match entry_of(rest, id) {
                Some(entry) => {
                    let i = choose|i: int|
                        0 <= i < rest.len() && #[trigger] rest[i] == entry && entry.id == id && (
                        forall|k: int| 0 <= k < i ==> (#[trigger] rest[k]).id != id);
                    assert(entries[i + 1] == entry);
                },
                None => {},
            }
        }
    }
}

/// A vault hands out what its configuration holds: an id leads to the first
/// entry of that id, with its own user name, password, seed and mark, and to
/// nothing where there is none.
pub proof fn law_configured_entries_are_handed_out(
    entries: Vec<EntryConfig>,
    vault: StaticProvider,
    id: &str,
    found: Option<ResolvedCredential>,
)
    requires
        call_ensures(StaticProvider::new, (entries,), vault),
        call_ensures(StaticProvider::resolve, (&vault, id), found),
    ensures
        match found {
            Some(c) => !c.locked && c.secrets_preregistered && exists|i: int|
                {
                    &&& 0 <= i < entries@.len()
                    &&& (#[trigger] entries@[i]).id@ == id@
                    &&& forall|k: int| 0 <= k < i ==> (#[trigger] entries@[k]).id@ != id@
                    &&& c.username@ == entries@[i].username@
                    &&& c.password@ == entries@[i].password@
                    &&& c.totp_seed is Some <==> entries@[i].totp_seed is Some
                    &&& c.totp_seed matches Some(seed) ==> seed@ == entries@[i].totp_seed->0@
                    &&& c.totp_exposable == (entries@[i].totp_exposable == Some(true))
                },
            None => forall|k: int| 0 <= k < entries@.len() ==> (#[trigger] entries@[k]).id@ != id@,
        },
{
    let views = config_views(entries@);
    lemma_entry_of(views, id@);
    assert forall|k: int| 0 <= k < entries@.len() implies views[k] == (#[trigger] entries@[k])@ by {}
    match entry_of(views, id@) {
        Some(entry) => {
            let i = choose|i: int|
                0 <= i < views.len() && #[trigger] views[i] == entry && entry.id == id@ && (
                forall|k: int| 0 <= k < i ==> (#[trigger] views[k]).id != id@);
            assert(entries@[i].id@ == id@);
            assert forall|k: int| 0 <= k < i implies (#[trigger] entries@[k]).id@ != id@ by {
                assert(views[k].id != id@);
            }
        },
        None => {
            assert forall|k: int| 0 <= k < entries@.len() implies (#[trigger] entries@[k]).id@
                != id@ by {
                assert(views[k].id != id@);
            }
        },
    }
}

/// A vault lists its entries in the order of the configuration, by id and name,
/// and with address and kind while it is unlocked. Once it is locked, whatever
/// it hands out says so.
pub proof fn law_configured_entries_are_listed(
    vault: &StaticProvider,
    listed: Vec<CredentialRef>,
    i: int,
    id: &str,
    found: Option<ResolvedCredential>,
)
    requires
        call_ensures(StaticProvider::list_refs, (vault,), listed),
        call_ensures(StaticProvider::resolve, (vault, id), found),
        0 <= i < vault@.entries.len(),
    ensures
        listed@.len() == vault@.entries.len(),
        listed@[i].id@ == vault@.entries[i].id,
        listed@[i].name@ == vault@.entries[i].name,
        vault@.locked ==> listed@[i].uri is None && listed@[i].kind is None,
        !vault@.locked ==> listed@[i].uri is Some && listed@[i].uri->0@ == vault@.entries[i].uri
            && listed@[i].kind is Some && listed@[i].kind->0@ == vault@.entries[i].kind,
        found matches Some(c) ==> c.locked == vault@.locked,
{
    let views = crate::credential::ref_views(listed@);
    assert(views.len() == listed@.len());
    assert(views[i] == listed@[i]@);
}

/// Every value of the configured entries is handed to the registry, and what
/// was in it stays.
pub proof fn law_configured_values_are_registered(
    entries: Vec<EntryConfig>,
    registry: &mut Vec<String>,
    vault: StaticProvider,
    i: int,
)
    requires
        call_ensures(StaticProvider::from_config, (entries, registry), vault),
        0 <= i < entries@.len(),
    ensures
        crate::text::texts(final(registry)@).contains(entries@[i].username@),
        crate::text::texts(final(registry)@).contains(entries@[i].password@),
        entries@[i].totp_seed matches Some(seed) ==> crate::text::texts(
            final(registry)@,
        ).contains(seed@),
        forall|k: int|
            0 <= k < old(registry)@.len() ==> crate::text::texts(final(registry)@).contains(
                (#[trigger] old(registry)@[k])@,
            ),
{
    let views = config_views(entries@);
    let before = crate::text::texts(old(registry)@);
    let after = crate::text::texts(final(registry)@);
    assert(views[i] == entries@[i]@);
    lemma_all_secrets(views, i);
    let secrets = all_secrets(views);
    assert forall|s: Seq<char>| secrets.contains(s) implies #[trigger] after.contains(s) by {
        let k = choose|k: int| 0 <= k < secrets.len() && secrets[k] == s;
        assert(after[before.len() + k] == s);
    }
    assert forall|k: int| 0 <= k < old(registry)@.len() implies after.contains(
        (#[trigger] old(registry)@[k])@,
    ) by {
        assert(after[k] == before[k]);
    }
}

pub proof fn lemma_all_secrets(entries: Seq<EntryView>, i: int)
    requires
        0 <= i < entries.len(),
    ensures
        all_secrets(entries).contains(entries[i].username),
        all_secrets(entries).contains(entries[i].password),
        entries[i].totp_seed matches Some(seed) ==> all_secrets(entries).contains(seed),
    decreases entries.len(),
{
    let all = all_secrets(entries);
    let before = all_secrets(entries.drop_last());
    let n = before.len() as int;
    if i == entries.len() - 1 {
        assert(all[n] == entries[i].username);
        assert(all[n + 1] == entries[i].password);
        if entries[i].totp_seed is Some {
            assert(all[n + 2] == entries[i].totp_seed->0);
        }
    } else {
        lemma_all_secrets(entries.drop_last(), i);
        assert forall|s: Seq<char>| before.contains(s) implies #[trigger] all.contains(s) by {
            let k = choose|k: int| 0 <= k < before.len() && before[k] == s;
            assert(all[k] == s);
        }
    }
}

} // verus!
