//! Credentials as vaults hand them out.

use vstd::prelude::*;
use vstd::string::*;

use crate::secret::Secret;
use crate::text::copy_opt;

verus! {

/// A credential by name. The address and the kind are missing while the vault
/// is locked.
#[derive(Debug)]
pub struct CredentialRef {
    pub id: String,
    pub name: String,
    pub uri: Option<String>,
    pub kind: Option<String>,
}

/// A reference, by the views of its parts.
#[verifier::ext_equal]
pub struct RefView {
    pub id: Seq<char>,
    pub name: Seq<char>,
    pub uri: Option<Seq<char>>,
    pub kind: Option<Seq<char>>,
}

impl View for CredentialRef {
    type V = RefView;

    open spec fn view(&self) -> RefView {
        RefView {
            id: self.id@,
            name: self.name@,
            uri: crate::text::opt_text(self.uri),
            kind: crate::text::opt_text(self.kind),
        }
    }
}

/// The references of a list, by their views.
pub open spec fn ref_views(refs: Seq<CredentialRef>) -> Seq<RefView> {
    refs.map_values(|r: CredentialRef| r@)
}

impl RefView {
    /// What is left of a reference while its vault is locked.
    pub open spec fn hidden(self) -> RefView {
        RefView { uri: None, kind: None, ..self }
    }
}

/// The references without what a locked vault hides.
pub open spec fn hidden_refs(refs: Seq<RefView>) -> Seq<RefView> {
    refs.map_values(|r: RefView| r.hidden())
}

/// Copies references.
pub fn copy_refs(refs: &Vec<CredentialRef>) -> (out: Vec<CredentialRef>)
    ensures
        ref_views(out@) == ref_views(refs@),
{
    let mut out: Vec<CredentialRef> = Vec::new();
    let mut i: usize = 0;
    assert(ref_views(out@) =~= ref_views(refs@).take(0));
    while i < refs.len()
        invariant
            i <= refs@.len(),
            ref_views(out@) == ref_views(refs@).take(i as int),
        decreases refs@.len() - i,
    {
        let ghost before = out@;
        let r = CredentialRef {
            id: refs[i].id.clone(),
            name: refs[i].name.clone(),
            uri: copy_opt(&refs[i].uri),
            kind: copy_opt(&refs[i].kind),
        };
        out.push(r);
        proof {
            assert(ref_views(out@) =~= ref_views(before).push(r@));
            assert(ref_views(refs@).take(i + 1) =~= ref_views(refs@).take(i as int).push(
                refs@[i as int]@,
            ));
        }
        i += 1;
    }
    assert(ref_views(refs@).take(i as int) =~= ref_views(refs@));
    out
}

/// Copies references without what a locked vault hides.
pub fn hide_refs(refs: &Vec<CredentialRef>) -> (out: Vec<CredentialRef>)
    ensures
        ref_views(out@) == hidden_refs(ref_views(refs@)),
{
    let mut out: Vec<CredentialRef> = Vec::new();
    let ghost all = hidden_refs(ref_views(refs@));
    let mut i: usize = 0;
    assert(ref_views(out@) =~= all.take(0));
    while i < refs.len()
        invariant
            i <= refs@.len(),
            all == hidden_refs(ref_views(refs@)),
            ref_views(out@) == all.take(i as int),
        decreases refs@.len() - i,
    {
        let ghost before = out@;
        let r = CredentialRef {
            id: refs[i].id.clone(),
            name: refs[i].name.clone(),
            uri: None,
            kind: None,
        };
        out.push(r);
        proof {
            assert(ref_views(out@) =~= ref_views(before).push(r@));
            assert(r@ == all[i as int]);
            assert(all.take(i + 1) =~= all.take(i as int).push(all[i as int]));
        }
        i += 1;
    }
    assert(all.take(i as int) =~= all);
    out
}

/// The ids of references.
pub fn ref_ids(refs: &Vec<CredentialRef>) -> (out: Vec<String>)
    ensures
        crate::text::texts(out@) == ref_views(refs@).map_values(|r: RefView| r.id),
{
    let mut out: Vec<String> = Vec::new();
    let ghost all = ref_views(refs@).map_values(|r: RefView| r.id);
    let mut i: usize = 0;
    assert(crate::text::texts(out@) =~= all.take(0));
    while i < refs.len()
        invariant
            i <= refs@.len(),
            all == ref_views(refs@).map_values(|r: RefView| r.id),
            crate::text::texts(out@) == all.take(i as int),
        decreases refs@.len() - i,
    {
        let ghost before = out@;
        out.push(refs[i].id.clone());
        proof {
            assert(crate::text::texts(out@) =~= crate::text::texts(before).push(
                refs@[i as int].id@,
            ));
            assert(all.take(i + 1) =~= all.take(i as int).push(all[i as int]));
        }
        i += 1;
    }
    assert(all.take(i as int) =~= all);
    out
}

/// The values of a credential.
pub struct ResolvedCredential {
    pub locked: bool,
    /// The values are already among those that may not leave the daemon.
    pub secrets_preregistered: bool,
    pub username: Secret,
    pub password: Secret,
    pub totp_seed: Option<Secret>,
    pub totp_exposable: bool,
}

/// A credential, by the views of its parts.
#[verifier::ext_equal]
pub struct CredentialView {
    pub locked: bool,
    pub secrets_preregistered: bool,
    pub username: Seq<char>,
    pub password: Seq<char>,
    pub totp_seed: Option<Seq<char>>,
    pub totp_exposable: bool,
}

/// An optional secret, by its view.
pub open spec fn opt_secret(s: Option<Secret>) -> Option<Seq<char>> {
    match s {
        Some(t) => Some(t@),
        None => None,
    }
}

impl View for ResolvedCredential {
    type V = CredentialView;

    open spec fn view(&self) -> CredentialView {
        CredentialView {
            locked: self.locked,
            secrets_preregistered: self.secrets_preregistered,
            username: self.username@,
            password: self.password@,
            totp_seed: opt_secret(self.totp_seed),
            totp_exposable: self.totp_exposable,
        }
    }
}

/// An optional credential, by its view.
pub open spec fn opt_credential(c: Option<ResolvedCredential>) -> Option<CredentialView> {
    match c {
        Some(t) => Some(t@),
        None => None,
    }
}

/// Copies a secret.
pub fn copy_secret(s: &Secret) -> (r: Secret)
    ensures
        r@ == s@,
{
    Secret::new(s.as_str().to_owned())
}

/// Copies an optional secret.
pub fn copy_opt_secret(s: &Option<Secret>) -> (r: Option<Secret>)
    ensures
        opt_secret(r) == opt_secret(*s),
{
    match s {
        Some(t) => Some(copy_secret(t)),
        None => None,
    }
}

// ---------------------------------------------------------------------------
// How long a vault stays open
// ---------------------------------------------------------------------------

/// When a vault was opened, and whether it was closed again because its time
/// was over. Times are nanoseconds of a monotonic clock.
#[derive(Debug)]
pub struct VaultTimer {
    pub ttl_secs: u64,
    pub unlocked_at: Option<u64>,
    pub locked: bool,
    pub autolock_event_pending: bool,
}

/// How long ago a time was.
pub open spec fn elapsed(at: u64, now: u64) -> nat {
    if now >= at {
        (now - at) as nat
    } else {
        0
    }
}

impl VaultTimer {
    /// The time of an open vault is over.
    pub open spec fn due(self, now: u64) -> bool {
        match self.unlocked_at {
            Some(at) => elapsed(at, now) >= self.ttl_secs * 1_000_000_000,
            None => false,
        }
    }

    /// The vault is open, and its time is not over.
    pub open spec fn running(self, now: u64) -> bool {
        self.unlocked_at is Some && !self.due(now)
    }

    /// The vault is closed.
    pub open spec fn closed(self) -> VaultTimer {
        VaultTimer { unlocked_at: None, locked: true, ..self }
    }

    /// The vault was closed because its time was over.
    pub open spec fn autolocked(self) -> VaultTimer {
        VaultTimer { unlocked_at: None, locked: true, autolock_event_pending: true, ..self }
    }

    /// The vault is opened.
    pub open spec fn opened(self, now: u64) -> VaultTimer {
        VaultTimer { unlocked_at: Some(now), locked: false, ..self }
    }

    pub fn new(ttl_secs: u64, locked: bool) -> (r: VaultTimer)
        ensures
            r == (VaultTimer {
                ttl_secs,
                unlocked_at: None,
                locked,
                autolock_event_pending: false,
            }),
    {
        VaultTimer { ttl_secs, unlocked_at: None, locked, autolock_event_pending: false }
    }

    /// Tells whether the time of an open vault is over.
    pub fn is_due(&self, now: u64) -> (r: bool)
        ensures
            r == self.due(now),
    {
        match self.unlocked_at {
            Some(at) => {
                let elapsed: u64 = if now >= at {
                    now - at
                } else {
                    0
                };
                let ttl: u128 = self.ttl_secs as u128 * 1_000_000_000;
                elapsed as u128 >= ttl
            },
            None => false,
        }
    }

    /// Tells whether the vault is open and its time is not over.
    pub fn is_running(&self, now: u64) -> (r: bool)
        ensures
            r == self.running(now),
    {
        self.unlocked_at.is_some() && !self.is_due(now)
    }

    pub fn close(&mut self)
        ensures
            *final(self) == old(self).closed(),
    {
        self.unlocked_at = None;
        self.locked = true;
    }

    pub fn autolock(&mut self)
        ensures
            *final(self) == old(self).autolocked(),
    {
        self.unlocked_at = None;
        self.locked = true;
        self.autolock_event_pending = true;
    }

    pub fn open(&mut self, now: u64)
        ensures
            *final(self) == old(self).opened(now),
    {
        self.unlocked_at = Some(now);
        self.locked = false;
    }

    /// Tells, once, that the vault was closed because its time was over.
    pub fn take_autolock_event(&mut self) -> (r: bool)
        ensures
            r == old(self).autolock_event_pending,
            *final(self) == (VaultTimer { autolock_event_pending: false, ..*old(self) }),
    {
        let pending = self.autolock_event_pending;
        self.autolock_event_pending = false;
        pending
    }
}

/// References are copied one by one. While a vault is locked each keeps its id
/// and its name, and loses its address and its kind.
pub proof fn law_references_are_copied(
    refs: &Vec<CredentialRef>,
    copied: Vec<CredentialRef>,
    hidden: Vec<CredentialRef>,
    ids: Vec<String>,
    i: int,
)
    requires
        call_ensures(copy_refs, (refs,), copied),
        call_ensures(hide_refs, (refs,), hidden),
        call_ensures(ref_ids, (refs,), ids),
    ensures
        copied@.len() == refs@.len(),
        hidden@.len() == refs@.len(),
        ids@.len() == refs@.len(),
        0 <= i < refs@.len() ==> {
            &&& copied@[i].id@ == refs@[i].id@
            &&& copied@[i].name@ == refs@[i].name@
            &&& (copied@[i].uri is Some <==> refs@[i].uri is Some)
            &&& refs@[i].uri matches Some(uri) ==> copied@[i].uri->0@ == uri@
            &&& (copied@[i].kind is Some <==> refs@[i].kind is Some)
            &&& refs@[i].kind matches Some(kind) ==> copied@[i].kind->0@ == kind@
            &&& hidden@[i].id@ == refs@[i].id@
            &&& hidden@[i].name@ == refs@[i].name@
            &&& hidden@[i].uri is None
            &&& hidden@[i].kind is None
            &&& ids@[i]@ == refs@[i].id@
        },
{
    let views = ref_views(refs@);
    assert(views.len() == refs@.len());
    assert(ref_views(copied@).len() == copied@.len());
    assert(ref_views(hidden@).len() == hidden@.len());
    assert(crate::text::texts(ids@).len() == ids@.len());
    if 0 <= i < refs@.len() {
        assert(views[i] == refs@[i]@);
        assert(ref_views(copied@)[i] == copied@[i]@);
        assert(ref_views(hidden@)[i] == hidden@[i]@);
        assert(hidden_refs(views)[i] == views[i].hidden());
        assert(crate::text::texts(ids@)[i] == ids@[i]@);
    }
}

/// A vault that was opened is open for its time and no longer, and is not open
/// once it was closed.
pub proof fn law_vaults_are_open_for_their_time(
    timer: &mut VaultTimer,
    opened: &mut VaultTimer,
    done: (),
    closed: (),
    now: u64,
    later: u64,
    running: bool,
    due: bool,
    afterwards: bool,
)
    requires
        call_ensures(VaultTimer::open, (timer, now), done),
        *old(opened) == *final(timer),
        call_ensures(VaultTimer::is_running, (&*old(opened), later), running),
        call_ensures(VaultTimer::is_due, (&*old(opened), later), due),
        call_ensures(VaultTimer::close, (opened,), closed),
        call_ensures(VaultTimer::is_running, (&*final(opened), later), afterwards),
        now <= later,
    ensures
        running <==> later - now < old(timer).ttl_secs * 1_000_000_000,
        due <==> later - now >= old(timer).ttl_secs * 1_000_000_000,
        !afterwards,
        !old(opened).locked,
        final(opened).locked,
        final(opened).ttl_secs == old(timer).ttl_secs,
        final(opened).autolock_event_pending == old(timer).autolock_event_pending,
{
}

/// That a vault was closed because its time was over is told once.
pub proof fn law_autolocks_are_told_once(
    timer: &mut VaultTimer,
    locked: &mut VaultTimer,
    told: &mut VaultTimer,
    done: (),
    first: bool,
    second: bool,
)
    requires
        call_ensures(VaultTimer::autolock, (timer,), done),
        *old(locked) == *final(timer),
        call_ensures(VaultTimer::take_autolock_event, (locked,), first),
        *old(told) == *final(locked),
        call_ensures(VaultTimer::take_autolock_event, (told,), second),
    ensures
        final(timer).locked,
        final(timer).unlocked_at is None,
        final(timer).ttl_secs == old(timer).ttl_secs,
        first,
        !second,
        final(locked).locked,
        final(locked).ttl_secs == old(timer).ttl_secs,
{
}

} // verus!
