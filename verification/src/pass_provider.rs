//! A vault that is kept by the password store `pass`.

use vstd::prelude::*;
use vstd::string::*;

use crate::command::{args2, CommandLine};
use crate::credential::{
    copy_opt_secret, copy_secret, CredentialRef, ResolvedCredential, VaultTimer,
};
use crate::error::ErrorCode;
use crate::secret::{wipe_bytes, Secret};
use crate::text::{
    decode_text, join3, list_has, range_text, same_text, sort_texts, text_find, text_lines,
    text_pieces, text_split_first, text_strip_prefix, text_trim, text_trim_end, to_chars, CharClass,
};

verus! {

// ---------------------------------------------------------------------------
// Entries
// ---------------------------------------------------------------------------

/// The values of an entry.
pub struct PassEntry {
    pub username: Secret,
    pub password: Secret,
    pub totp_seed: Option<Secret>,
    pub totp_exposable: bool,
}

/// An entry, by the views of its parts.
#[verifier::ext_equal]
pub struct PassEntryView {
    pub username: Seq<char>,
    pub password: Seq<char>,
    pub totp_seed: Option<Seq<char>>,
    pub totp_exposable: bool,
}

impl View for PassEntry {
    type V = PassEntryView;

    open spec fn view(&self) -> PassEntryView {
        PassEntryView {
            username: self.username@,
            password: self.password@,
            totp_seed: crate::credential::opt_secret(self.totp_seed),
            totp_exposable: self.totp_exposable,
        }
    }
}

/// The value of the last line that starts with a name, from line `from` on.
pub open spec fn last_field(lines: Seq<Seq<char>>, name: Seq<char>, from: int) -> Option<Seq<char>>
    decreases lines.len(),
{
    if lines.len() <= from || lines.len() == 0 {
        None
    } else {
        match crate::text::strip_prefix(lines.last(), name) {
            Some(value) => Some(crate::text::trim(value)),
            None => last_field(lines.drop_last(), name, from),
        }
    }
}

/// The first `secret` parameter among `pairs`, without a fragment behind it.
pub open spec fn seed_param(pairs: Seq<Seq<char>>) -> Option<Seq<char>>
    decreases pairs.len(),
{
    if pairs.len() == 0 {
        None
    } else {
        match crate::text::split_first(pairs[0], '=') {
            Some((key, value)) => if key == "secret"@ {
                Some(crate::text::pieces(value, '#')[0])
            } else {
                seed_param(pairs.drop_first())
            },
            None => seed_param(pairs.drop_first()),
        }
    }
}

/// The seed of a line that holds a key URI.
pub open spec fn line_seed(line: Seq<char>) -> Option<Seq<char>> {
    match crate::text::find(line, "otpauth://"@) {
        Some(at) => match crate::text::split_first(line.skip(at), '?') {
            Some((_, query)) => seed_param(crate::text::pieces(query, '&')),
            None => None,
        },
        None => None,
    }
}

/// The seed of the last line that holds one, from line `from` on.
pub open spec fn last_seed(lines: Seq<Seq<char>>, from: int) -> Option<Seq<char>>
    decreases lines.len(),
{
    if lines.len() <= from || lines.len() == 0 {
        None
    } else {
        match line_seed(lines.last()) {
            Some(seed) => Some(seed),
            None => last_seed(lines.drop_last(), from),
        }
    }
}

/// What an entry of the store means: the password stands in the first line,
/// the user name, the login and the key URI in those after it.
pub open spec fn entry_of(
    output: Seq<char>,
    totp_exposable: Seq<Seq<char>>,
    name: Seq<char>,
) -> Option<PassEntryView> {
    let lines = crate::text::lines(output);
    if lines.len() == 0 {
        None
    } else {
        Some(
            PassEntryView {
                username: match last_field(lines, "username:"@, 1) {
                    Some(u) => u,
                    None => match last_field(lines, "login:"@, 1) {
                        Some(l) => l,
                        None => seq![],
                    },
                },
                password: crate::text::trim_end(lines[0], CharClass::One('\r')),
                totp_seed: last_seed(lines, 1),
                totp_exposable: totp_exposable.contains(name),
            },
        )
    }
}

fn find_seed_param(pairs: &Vec<String>) -> (r: Option<String>)
    ensures
        crate::text::opt_text(r) == seed_param(crate::text::texts(pairs@)),
{
    let ghost views = crate::text::texts(pairs@);
    let mut i: usize = 0;
    assert(views.skip(0) =~= views);
    while i < pairs.len()
        invariant
            i <= pairs@.len(),
            views == crate::text::texts(pairs@),
            seed_param(views) == seed_param(views.skip(i as int)),
        decreases pairs@.len() - i,
    {
        assert(views.skip(i as int)[0] == pairs@[i as int]@);
        assert(views.skip(i as int).drop_first() =~= views.skip(i + 1));
        match text_split_first(pairs[i].as_str(), '=') {
            Some((key, value)) => {
                if same_text(key.as_str(), "secret") {
                    let parts = text_pieces(value.as_str(), '#');
                    assert(crate::text::texts(parts@)[0] == parts@[0]@);
                    return Some(parts[0].clone());
                }
            },
            None => {},
        }
        i += 1;
    }
    None
}

/// The seed of a line that holds a key URI.
pub fn extract_totp_seed(line: &str) -> (r: Option<String>)
    ensures
        crate::text::opt_text(r) == line_seed(line@),
{
    match text_find(line, "otpauth://") {
        Some(at) => {
            let chars = to_chars(line);
            let uri = range_text(chars.as_slice(), at, chars.len());
            assert(uri@ =~= line@.skip(at as int));
            match text_split_first(uri.as_str(), '?') {
                Some((_, query)) => {
                    let pairs = text_pieces(query.as_str(), '&');
                    find_seed_param(&pairs)
                },
                None => None,
            }
        },
        None => None,
    }
}

fn find_last_field(lines: &Vec<String>, name: &str) -> (r: Option<String>)
    ensures
        crate::text::opt_text(r) == last_field(crate::text::texts(lines@), name@, 1),
{
    let ghost views = crate::text::texts(lines@);
    let mut i: usize = lines.len();
    assert(views.take(i as int) =~= views);
    while i > 1
        invariant
            i <= lines@.len(),
            views == crate::text::texts(lines@),
            last_field(views, name@, 1) == last_field(views.take(i as int), name@, 1),
        decreases i,
    {
        proof {
            assert(views.take(i as int).last() == lines@[i - 1]@);
            assert(views.take(i as int).drop_last() =~= views.take(i - 1));
        }
        match text_strip_prefix(lines[i - 1].as_str(), name) {
            Some(value) => {
                return Some(text_trim(value.as_str()));
            },
            None => {},
        }
        i -= 1;
    }
    None
}

fn find_last_seed(lines: &Vec<String>) -> (r: Option<String>)
    ensures
        crate::text::opt_text(r) == last_seed(crate::text::texts(lines@), 1),
{
    let ghost views = crate::text::texts(lines@);
    let mut i: usize = lines.len();
    assert(views.take(i as int) =~= views);
    while i > 1
        invariant
            i <= lines@.len(),
            views == crate::text::texts(lines@),
            last_seed(views, 1) == last_seed(views.take(i as int), 1),
        decreases i,
    {
        proof {
            assert(views.take(i as int).last() == lines@[i - 1]@);
            assert(views.take(i as int).drop_last() =~= views.take(i - 1));
        }
        match extract_totp_seed(lines[i - 1].as_str()) {
            Some(seed) => {
                return Some(seed);
            },
            None => {},
        }
        i -= 1;
    }
    None
}

/// Reads what `pass show` prints. An empty output is no entry.
pub fn parse_entry(output: &str, totp_exposable: &Vec<String>, name: &str) -> (r: Option<PassEntry>)
    ensures
        match r {
            Some(entry) => entry_of(output@, crate::text::texts(totp_exposable@), name@) == Some(
                entry@,
            ),
            None => entry_of(output@, crate::text::texts(totp_exposable@), name@) is None,
        },
{
    let lines = text_lines(output);
    let ghost views = crate::text::lines(output@);
    assert(views.len() == lines@.len());
    if lines.len() == 0 {
        return None;
    }
    assert(views[0] == lines@[0]@);
    let password = text_trim_end(lines[0].as_str(), CharClass::One('\r'));
    let username = match find_last_field(&lines, "username:") {
        Some(username) => username,
        None => match find_last_field(&lines, "login:") {
            Some(login) => login,
            None => {
                let empty = String::new();
                assert(empty@ =~= seq![]);
                empty
            },
        },
    };
    let totp_seed = match find_last_seed(&lines) {
        Some(seed) => Some(Secret::new(seed)),
        None => None,
    };
    Some(
        PassEntry {
            username: Secret::new(username),
            password: Secret::new(password),
            totp_seed,
            totp_exposable: list_has(totp_exposable, name),
        },
    )
}

/// What an entry resolves to.
pub open spec fn resolved(entry: PassEntryView) -> crate::credential::CredentialView {
    crate::credential::CredentialView {
        locked: false,
        secrets_preregistered: false,
        username: entry.username,
        password: entry.password,
        totp_seed: entry.totp_seed,
        totp_exposable: entry.totp_exposable,
    }
}

fn to_resolved(entry: &PassEntry) -> (r: ResolvedCredential)
    ensures
        r@ == resolved(entry@),
{
    ResolvedCredential {
        locked: false,
        secrets_preregistered: false,
        username: copy_secret(&entry.username),
        password: copy_secret(&entry.password),
        totp_seed: copy_opt_secret(&entry.totp_seed),
        totp_exposable: entry.totp_exposable,
    }
}

/// A file of the store holds an entry: it ends in `.gpg`, behind a name.
pub open spec fn is_entry_file(relative: Seq<char>) -> bool {
    let n = relative.len();
    &&& n > 4
    &&& relative.skip(n - 4) == ".gpg"@
    &&& relative[n - 5] != '/'
}

/// The name of the entry that a file of the store holds.
pub fn entry_name(relative: &str) -> (r: Option<String>)
    ensures
        match r {
            Some(name) => is_entry_file(relative@) && name@ == relative@.take(relative@.len() - 4),
            None => !is_entry_file(relative@),
        },
{
    let chars = to_chars(relative);
    let n = chars.len();
    if n <= 4 {
        return None;
    }
    let extension = range_text(chars.as_slice(), n - 4, n);
    assert(extension@ =~= relative@.skip(n - 4));
    if !same_text(extension.as_str(), ".gpg") || chars[n - 5] == '/' {
        return None;
    }
    let name = range_text(chars.as_slice(), 0, n - 4);
    assert(name@ =~= relative@.take(n - 4));
    Some(name)
}

// ---------------------------------------------------------------------------
// The command
// ---------------------------------------------------------------------------

/// Why an entry could not be read.
#[derive(Clone, Copy, Debug, PartialEq, Eq, Structural)]
pub enum PassRunError {
    Process,
    NonZeroExit,
    InvalidOutput,
    Timeout,
}

/// What `pass` printed, where it succeeded and printed text. What is thrown
/// away is overwritten.
pub fn pass_output(success: bool, output: Vec<u8>) -> (r: Result<String, PassRunError>)
    ensures
        if !success {
            r matches Err(e) && e is NonZeroExit
        } else {
            match crate::text::decoded(output@) {
                Some(text) => r matches Ok(t) && t@ == text,
                None => r matches Err(e) && e is InvalidOutput,
            }
        },
{
    let mut output = output;
    if success {
        match decode_text(output) {
            Ok(text) => Ok(text),
            Err(mut bytes) => {
                wipe_bytes(&mut bytes);
                Err(PassRunError::InvalidOutput)
            },
        }
    } else {
        wipe_bytes(&mut output);
        Err(PassRunError::NonZeroExit)
    }
}

// ---------------------------------------------------------------------------
// The vault
// ---------------------------------------------------------------------------

/// A vault that is kept by `pass`. Entries that were read are kept until the
/// vault is locked or its time is over.
pub struct PassProvider {
    store_dir: String,
    gnupghome: Option<String>,
    pass_bin: String,
    totp_exposable: Vec<String>,
    timer: VaultTimer,
    catalog: Vec<String>,
    entries: Vec<(String, PassEntry)>,
}

/// A vault, by the views of its parts.
#[verifier::ext_equal]
pub struct PassView {
    pub store_dir: Seq<char>,
    pub gnupghome: Option<Seq<char>>,
    pub pass_bin: Seq<char>,
    pub totp_exposable: Seq<Seq<char>>,
    pub timer: VaultTimer,
    pub catalog: Seq<Seq<char>>,
    pub entries: Seq<(Seq<char>, PassEntryView)>,
}

/// Entries by name, by their views.
pub open spec fn named_entries(entries: Seq<(String, PassEntry)>) -> Seq<
    (Seq<char>, PassEntryView),
> {
    entries.map_values(|e: (String, PassEntry)| (e.0@, e.1@))
}

impl View for PassProvider {
    type V = PassView;

    closed spec fn view(&self) -> PassView {
        PassView {
            store_dir: self.store_dir@,
            gnupghome: crate::text::opt_text(self.gnupghome),
            pass_bin: self.pass_bin@,
            totp_exposable: crate::text::texts(self.totp_exposable@),
            timer: self.timer,
            catalog: crate::text::texts(self.catalog@),
            entries: named_entries(self.entries@),
        }
    }
}

/// The entry of a name that was read.
pub open spec fn cached(entries: Seq<(Seq<char>, PassEntryView)>, name: Seq<char>) -> Option<
    PassEntryView,
>
    decreases entries.len(),
{
    if entries.len() == 0 {
        None
    } else if entries[0].0 == name {
        Some(entries[0].1)
    } else {
        cached(entries.drop_first(), name)
    }
}

impl PassView {
    /// A vault that is locked holds no entry.
    pub open spec fn wf(self) -> bool {
        &&& self.timer.locked <==> self.timer.unlocked_at is None
        &&& self.timer.unlocked_at is None ==> self.entries.len() == 0
    }

    /// The vault after it was locked.
    pub open spec fn cleared(self) -> PassView {
        PassView { timer: self.timer.closed(), entries: seq![], ..self }
    }

    /// The vault after its time was found to be over.
    pub open spec fn expired(self, now: u64) -> PassView {
        if self.timer.due(now) {
            PassView { timer: self.timer.autolocked(), entries: seq![], ..self }
        } else {
            self
        }
    }

    /// How the entries are listed.
    pub open spec fn refs(self) -> Seq<crate::credential::RefView> {
        self.catalog.map_values(
            |n: Seq<char>|
                crate::credential::RefView {
                    id: n,
                    name: n,
                    uri: Some(seq![]),
                    kind: Some("login"@),
                },
        )
    }

    /// The command that reads an entry.
    pub open spec fn show_command(self, name: Seq<char>) -> crate::command::CommandView {
        crate::command::CommandView {
            program: self.pass_bin,
            args: seq!["show"@, name],
            env: match self.gnupghome {
                Some(home) => seq![
                    ("PASSWORD_STORE_DIR"@, self.store_dir),
                    ("GNUPGHOME"@, home),
                ],
                None => seq![("PASSWORD_STORE_DIR"@, self.store_dir)],
            },
            cleared: seq![],
        }
    }
}

impl PassProvider {
    pub fn new(
        store_dir: String,
        gnupghome: Option<String>,
        pass_bin: Option<String>,
        totp_exposable: Vec<String>,
        ttl_secs: u64,
    ) -> (r: PassProvider)
        ensures
            r@ == (PassView {
                store_dir: store_dir@,
                gnupghome: crate::text::opt_text(gnupghome),
                pass_bin: match pass_bin {
                    Some(bin) => bin@,
                    None => "pass"@,
                },
                totp_exposable: crate::text::texts(totp_exposable@),
                timer: VaultTimer {
                    ttl_secs,
                    unlocked_at: None,
                    locked: true,
                    autolock_event_pending: false,
                },
                catalog: seq![],
                entries: seq![],
            }),
            r@.wf(),
    {
        let pass_bin = match pass_bin {
            Some(bin) => bin,
            None => "pass".to_owned(),
        };
        let r = PassProvider {
            store_dir,
            gnupghome,
            pass_bin,
            totp_exposable,
            timer: VaultTimer::new(ttl_secs, true),
            catalog: Vec::new(),
            entries: Vec::new(),
        };
        assert(r@.catalog =~= seq![]);
        assert(r@.entries =~= seq![]);
        r
    }

    /// The directory of the store.
    pub fn store_dir(&self) -> (r: &str)
        ensures
            r@ == self@.store_dir,
    {
        self.store_dir.as_str()
    }

    /// Takes over the names that were found in the store, in order.
    pub fn set_catalog(&mut self, names: Vec<String>)
        ensures
            crate::text::sorted(final(self)@.catalog),
            final(self)@.catalog.to_multiset() == crate::text::texts(names@).to_multiset(),
            final(self)@ == (PassView { catalog: final(self)@.catalog, ..old(self)@ }),
    {
        self.catalog = sort_texts(names);
    }

    /// Lists the entries, locked or not: their names are no secret.
    pub fn list_refs(&self) -> (refs: Vec<CredentialRef>)
        ensures
            crate::credential::ref_views(refs@) == self@.refs(),
    {
        let mut refs: Vec<CredentialRef> = Vec::new();
        let ghost all = self@.refs();
        let mut i: usize = 0;
        assert(crate::credential::ref_views(refs@) =~= all.take(0));
        while i < self.catalog.len()
            invariant
                i <= self.catalog@.len(),
                all == self@.refs(),
                all.len() == self.catalog@.len(),
                self@.catalog == crate::text::texts(self.catalog@),
                crate::credential::ref_views(refs@) == all.take(i as int),
            decreases self.catalog@.len() - i,
        {
            let ghost before = refs@;
            let uri = String::new();
            assert(uri@ =~= seq![]);
            let r = CredentialRef {
                id: self.catalog[i].clone(),
                name: self.catalog[i].clone(),
                uri: Some(uri),
                kind: Some("login".to_owned()),
            };
            refs.push(r);
            proof {
                assert(self@.catalog[i as int] == self.catalog@[i as int]@);
                assert(r@ == all[i as int]);
                assert(crate::credential::ref_views(refs@) =~= crate::credential::ref_views(
                    before,
                ).push(r@));
                assert(all.take(i + 1) =~= all.take(i as int).push(all[i as int]));
            }
            i += 1;
        }
        assert(all.take(i as int) =~= all);
        refs
    }

    /// The values of an entry that was read before and is still kept. A vault
    /// whose time is over is locked first.
    pub fn kept(&mut self, name: &str, now: u64) -> (r: Option<ResolvedCredential>)
        requires
            old(self)@.wf(),
        ensures
            final(self)@ == old(self)@.expired(now),
            final(self)@.wf(),
            crate::credential::opt_credential(r) == (match cached(final(self)@.entries, name@) {
                Some(entry) => Some(resolved(entry)),
                None => None,
            }),
    {
        self.expire(now);
        self.find(name)
    }

    fn find(&self, name: &str) -> (r: Option<ResolvedCredential>)
        ensures
            crate::credential::opt_credential(r) == (match cached(self@.entries, name@) {
                Some(entry) => Some(resolved(entry)),
                None => None,
            }),
    {
        let ghost all = self@.entries;
        let mut i: usize = 0;
        assert(all.skip(0) =~= all);
        while i < self.entries.len()
            invariant
                i <= self.entries@.len(),
                all == named_entries(self.entries@),
                all == self@.entries,
                cached(all, name@) == cached(all.skip(i as int), name@),
            decreases self.entries@.len() - i,
        {
            proof {
                assert(all.skip(i as int)[0] == all[i as int]);
                assert(all.skip(i as int).drop_first() =~= all.skip(i + 1));
            }
            if same_text(self.entries[i].0.as_str(), name) {
                return Some(to_resolved(&self.entries[i].1));
            }
            i += 1;
        }
        None
    }

    /// The command that reads an entry.
    pub fn show(&self, name: &str) -> (r: CommandLine)
        ensures
            r@ == self@.show_command(name@),
    {
        let mut env: Vec<(String, String)> = Vec::new();
        env.push(("PASSWORD_STORE_DIR".to_owned(), self.store_dir.clone()));
        match &self.gnupghome {
            Some(home) => {
                env.push(("GNUPGHOME".to_owned(), home.clone()));
            },
            None => {},
        }
        let r = CommandLine {
            program: self.pass_bin.clone(),
            args: args2("show", name),
            env,
            cleared: Vec::new(),
        };
        assert(r@ =~= self@.show_command(name@));
        r
    }

    /// The file of the store that holds an entry.
    pub fn entry_path(&self, name: &str) -> (r: String)
        ensures
            r@ == self@.store_dir + "/"@ + name@ + ".gpg"@,
    {
        let mut path = join3(self.store_dir.as_str(), "/", name);
        path.append(".gpg");
        path
    }

    /// Keeps an entry that was read, and hands out its values. Where the
    /// command failed and the store has no such entry, there is nothing to
    /// hand out.
    pub fn store(
        &mut self,
        name: String,
        output: Result<String, PassRunError>,
        known: bool,
        now: u64,
    ) -> (r: Result<Option<ResolvedCredential>, ErrorCode>)
        requires
            old(self)@.wf(),
        ensures
            final(self)@.wf(),
            ({
                let entry = match output {
                    Ok(text) => entry_of(text@, old(self)@.totp_exposable, name@),
                    Err(_) => None,
                };
                match entry {
                    Some(e) => {
                        &&& r matches Ok(Some(c))
                        &&& c@ == resolved(e)
                        &&& final(self)@ == (PassView {
                            timer: old(self)@.timer.opened(now),
                            entries: old(self)@.entries.push((name@, e)),
                            ..old(self)@
                        })
                    },
                    None => {
                        &&& final(self)@ == old(self)@
                        &&& if (output matches Err(e) && e is NonZeroExit) && !known {
                            r matches Ok(None)
                        } else {
                            r matches Err(code) && code is Internal
                        }
                    },
                }
            }),
    {
        match output {
            Ok(text) => match parse_entry(text.as_str(), &self.totp_exposable, name.as_str()) {
                Some(entry) => {
                    let ghost before = self@;
                    let credential = to_resolved(&entry);
                    let ghost pair = (name@, entry@);
                    self.entries.push((name, entry));
                    self.timer.open(now);
                    assert(self@.entries =~= before.entries.push(pair));
                    Ok(Some(credential))
                },
                None => Err(ErrorCode::Internal),
            },
            Err(PassRunError::NonZeroExit) => if known {
                Err(ErrorCode::Internal)
            } else {
                Ok(None)
            },
            Err(_) => Err(ErrorCode::Internal),
        }
    }

    /// Locks the vault: what was read is dropped. The agent of the key ring is
    /// left alone.
    pub fn lock(&mut self)
        ensures
            final(self)@ == old(self)@.cleared(),
            final(self)@.wf(),
    {
        self.entries = Vec::new();
        self.timer.close();
        assert(self@.entries =~= seq![]);
    }

    /// Locks the vault if its time is over.
    pub fn expire(&mut self, now: u64)
        requires
            old(self)@.wf(),
        ensures
            final(self)@ == old(self)@.expired(now),
            final(self)@.wf(),
    {
        if self.timer.is_due(now) {
            self.entries = Vec::new();
            self.timer.autolock();
            assert(self@.entries =~= seq![]);
        }
    }

    /// Tells whether the vault is locked.
    pub fn locked(&self) -> (r: bool)
        ensures
            r == self@.timer.locked,
    {
        self.timer.locked
    }

    /// Tells, once, that the vault was closed because its time was over.
    pub fn take_autolock_event(&mut self) -> (r: bool)
        requires
            old(self)@.wf(),
        ensures
            r == old(self)@.timer.autolock_event_pending,
            final(self)@ == (PassView {
                timer: VaultTimer { autolock_event_pending: false, ..old(self)@.timer },
                ..old(self)@
            }),
            final(self)@.wf(),
    {
        self.timer.take_autolock_event()
    }
}

// ---------------------------------------------------------------------------
// Laws
// ---------------------------------------------------------------------------

/// A locked vault, and one whose time is over, keeps no value in memory.
pub proof fn law_locked_stores_keep_no_values(vault: PassView, name: Seq<char>, now: u64)
    requires
        vault.wf(),
    ensures
        cached(vault.cleared().entries, name) is None,
        vault.timer.due(now) ==> cached(vault.expired(now).entries, name) is None && vault.expired(
            now,
        ).timer.autolock_event_pending,
        vault.timer.running(now) ==> vault.expired(now) == vault,
{
}

/// An entry that was read is kept: it is found again under its name.
pub proof fn law_read_entries_are_kept(
    entries: Seq<(Seq<char>, PassEntryView)>,
    name: Seq<char>,
    entry: PassEntryView,
)
    requires
        cached(entries, name) is None,
    ensures
        cached(entries.push((name, entry)), name) == Some(entry),
        forall|other: Seq<char>|
            other != name ==> #[trigger] cached(entries.push((name, entry)), other) == cached(
                entries,
                other,
            ),
    decreases entries.len(),
{
    let after = entries.push((name, entry));
    if entries.len() == 0 {
        assert(after.drop_first() =~= seq![]);
        assert forall|other: Seq<char>| other != name implies #[trigger] cached(after, other)
            == cached(entries, other) by {
            assert(cached(after.drop_first(), other) is None);
        }
    } else {
        law_read_entries_are_kept(entries.drop_first(), name, entry);
        assert(after.drop_first() =~= entries.drop_first().push((name, entry)));
        assert forall|other: Seq<char>| other != name implies #[trigger] cached(after, other)
            == cached(entries, other) by {
            assert(cached(entries.drop_first().push((name, entry)), other) == cached(
                entries.drop_first(),
                other,
            ));
        }
    }
}

proof fn lemma_two_lines(first: Seq<char>, second: Seq<char>)
    requires
        !first.contains('\n'),
        !first.contains('\r'),
        !second.contains('\n'),
        second.len() > 0,
    ensures
        crate::text::lines(first.push('\n') + second) == seq![first, second],
        first.len() > 0 ==> crate::text::lines(first) == seq![first],
{
    crate::text::lemma_split_first_unique(first, '\n', second);
    crate::text::lemma_split_first(second, '\n');
    crate::text::lemma_split_first(first, '\n');
    if first.len() > 0 {
        assert(first.contains(first.last()));
    }
    assert(crate::text::without_return(first) == first);
    assert(crate::text::lines(second) =~= seq![second]);
    assert(crate::text::lines(first.push('\n') + second) =~= seq![first, second]);
}

/// The first line of an entry is the password, as it stands. A second line that
/// starts with `username:` or with `login:` gives the user name, and one with a
/// key URI the seed; the mark for codes is that of the configuration.
pub proof fn law_entries_are_read_by_line(
    output: &str,
    exposable: &Vec<String>,
    name: &str,
    entry: Option<PassEntry>,
    password: Seq<char>,
    value: Seq<char>,
)
    requires
        call_ensures(parse_entry, (output, exposable, name), entry),
        password.len() > 0,
        !password.contains('\n'),
        !password.contains('\r'),
        !value.contains('\n'),
    ensures
        output@ == password ==> (entry matches Some(e) && e.password@ == password && e.username@
            == Seq::<char>::empty() && e.totp_seed is None),
        output@ == password.push('\n') + ("username:"@ + value) ==> (entry matches Some(e)
            && e.password@ == password && e.username@ == crate::text::trim(value)),
        output@ == password.push('\n') + ("login:"@ + value) ==> (entry matches Some(e)
            && e.password@ == password && e.username@ == crate::text::trim(value)),
        output@.len() == 0 ==> entry is None,
        entry matches Some(e) ==> (e.totp_exposable <==> exists|i: int|
            0 <= i < exposable@.len() && (#[trigger] exposable@[i])@ == name@),
{
    reveal_strlit("username:");
    reveal_strlit("login:");
    let user = "username:"@ + value;
    let login = "login:"@ + value;
    let lines = crate::text::lines(output@);
    let return_class = CharClass::One('\r');
    assert(password.contains(password.last()));
    assert(crate::text::trim_end(password, return_class) == password);
    assert(!user.contains('\n')) by {
        if user.contains('\n') {
            let i = choose|i: int| 0 <= i < user.len() && user[i] == '\n';
            if i >= 9 {
                assert(value[i - 9] == '\n');
            } else {
                assert("username:"@[i] == '\n');
            }
        }
    }
    assert(!login.contains('\n')) by {
        if login.contains('\n') {
            let i = choose|i: int| 0 <= i < login.len() && login[i] == '\n';
            if i >= 6 {
                assert(value[i - 6] == '\n');
            } else {
                assert("login:"@[i] == '\n');
            }
        }
    }
    lemma_two_lines(password, user);
    lemma_two_lines(password, login);
    let texts = crate::text::texts(exposable@);
    if texts.contains(name@) {
        let i = choose|i: int| 0 <= i < texts.len() && texts[i] == name@;
        assert(exposable@[i]@ == name@);
    }
    if exists|i: int| 0 <= i < exposable@.len() && (#[trigger] exposable@[i])@ == name@ {
        let i = choose|i: int| 0 <= i < exposable@.len() && (#[trigger] exposable@[i])@ == name@;
        assert(texts[i] == name@);
    }
    if output@ == password.push('\n') + user {
        assert(lines.last() == user);
        assert("username:"@ =~= user.subrange(0, 9));
        assert(user.skip(9) =~= value);
        assert(last_field(lines, "username:"@, 1) == Some(crate::text::trim(value)));
    }
    if output@ == password.push('\n') + login {
        assert(lines.last() == login);
        assert("login:"@ =~= login.subrange(0, 6));
        assert(login.skip(6) =~= value);
        assert(!"username:"@.is_prefix_of(login)) by {
            assert("username:"@[0] == 'u' && login[0] == 'l');
        }
        assert(lines.drop_last().len() == 1);
        assert(last_field(lines.drop_last(), "username:"@, 1) is None);
        assert(last_field(lines, "username:"@, 1) is None);
        assert(last_field(lines, "login:"@, 1) == Some(crate::text::trim(value)));
    }
    if output@.len() == 0 {
        assert(output@ =~= Seq::<char>::empty());
        assert(lines.len() == 0);
    }
}

/// A line with a key URI gives the value of its first `secret` parameter, up to
/// a fragment.
pub proof fn law_key_uris_give_their_seed(
    line: &str,
    found: Option<String>,
    label: Seq<char>,
    seed: Seq<char>,
    rest: Seq<char>,
)
    requires
        call_ensures(extract_totp_seed, (line,), found),
        line@ == "otpauth://"@ + label + "?secret="@ + seed + "&"@ + rest,
        !label.contains('?'),
        !seed.contains('&'),
        !seed.contains('#'),
    ensures
        found matches Some(text) && text@ == seed,
{
    reveal_strlit("otpauth://");
    reveal_strlit("?secret=");
    reveal_strlit("secret");
    reveal_strlit("secret=");
    reveal_strlit("&");
    let scheme = "otpauth://"@;
    let text = line@;
    let head = scheme + label;
    let query = "secret="@ + seed + "&"@ + rest;
    assert(text.subrange(0, 10) =~= scheme);
    assert(crate::text::occurs_at(text, scheme, 0));
    assert(crate::text::first_occurrence(text, scheme, 0));
    crate::text::lemma_find(text, scheme, 0);
    assert(text.skip(0) =~= text);
    assert(!head.contains('?')) by {
        if head.contains('?') {
            let i = choose|i: int| 0 <= i < head.len() && head[i] == '?';
            if i >= 10 {
                assert(label[i - 10] == '?');
            } else {
                assert(scheme[i] == '?');
            }
        }
    }
    assert(text =~= head.push('?') + query);
    crate::text::lemma_split_first_unique(head, '?', query);
    let pair = "secret="@ + seed;
    assert(!pair.contains('&')) by {
        if pair.contains('&') {
            let i = choose|i: int| 0 <= i < pair.len() && pair[i] == '&';
            if i >= 7 {
                assert(seed[i - 7] == '&');
            } else {
                assert("secret="@[i] == '&');
            }
        }
    }
    assert(query =~= pair.push('&') + rest);
    crate::text::lemma_split_first_unique(pair, '&', rest);
    let pairs = crate::text::pieces(query, '&');
    assert(pairs[0] == pair);
    assert(!"secret"@.contains('='));
    assert(pair =~= "secret"@.push('=') + seed);
    crate::text::lemma_split_first_unique("secret"@, '=', seed);
    crate::text::lemma_split_first(seed, '#');
    assert(crate::text::pieces(seed, '#')[0] == seed);
}

/// An entry that was read is handed out as it was read until the vault is
/// locked or its time is over, and a failed read hands out nothing.
pub proof fn law_read_entries_are_handed_out(
    vault: &mut PassProvider,
    name: String,
    output: Result<String, PassRunError>,
    known: bool,
    read_at: u64,
    answer: Result<Option<ResolvedCredential>, ErrorCode>,
    exposable: &Vec<String>,
    text: &str,
    known_as: &str,
    entry: Option<PassEntry>,
    after: &mut PassProvider,
    now: u64,
    kept: Option<ResolvedCredential>,
)
    requires
        old(vault)@.wf(),
        cached(old(vault)@.entries, name@) is None,
        call_ensures(PassProvider::store, (vault, name, output, known, read_at), answer),
        crate::text::texts(exposable@) == old(vault)@.totp_exposable,
        known_as@ == name@,
        output matches Ok(printed) ==> printed@ == text@,
        call_ensures(parse_entry, (text, exposable, known_as), entry),
        old(after)@ == final(vault)@,
        call_ensures(PassProvider::kept, (after, known_as, now), kept),
        read_at <= now,
    ensures
        output is Ok && entry is Some ==> {
            &&& answer matches Ok(Some(c))
            &&& c.username@ == entry->0.username@
            &&& c.password@ == entry->0.password@
            &&& c.totp_exposable == entry->0.totp_exposable
            &&& crate::credential::opt_secret(c.totp_seed) == crate::credential::opt_secret(
                entry->0.totp_seed,
            )
            &&& !c.locked
            &&& !final(vault)@.timer.locked
            &&& if now - read_at < old(vault)@.timer.ttl_secs * 1_000_000_000 {
                kept matches Some(k) && k.username@ == c.username@ && k.password@ == c.password@
            } else {
                kept is None && final(after)@.timer.locked
            }
        },
        output matches Err(error) ==> final(vault)@ == old(vault)@ && (answer matches Ok(None)
            <==> error is NonZeroExit && !known) && !(answer matches Ok(Some(_))),
        output is Ok && entry is None ==> answer is Err && final(vault)@ == old(vault)@,
{
    if output is Ok && entry is Some {
        law_read_entries_are_kept(old(vault)@.entries, name@, entry->0@);
    }
}

/// Entries of the store are its encrypted files, named without their ending.
pub proof fn law_files_are_entries(
    name: Seq<char>,
    relative: &str,
    entry: Option<String>,
    vault: &PassProvider,
    asked: &str,
    path: String,
)
    requires
        name.len() > 0,
        name.last() != '/',
        relative@ == name + ".gpg"@,
        call_ensures(entry_name, (relative,), entry),
        call_ensures(PassProvider::entry_path, (vault, asked), path),
    ensures
        entry matches Some(n) && n@ == name,
        path@ == vault@.store_dir + "/"@ + asked@ + ".gpg"@,
{
    reveal_strlit(".gpg");
    assert((name + ".gpg"@).take((name + ".gpg"@).len() - 4) =~= name);
    assert((name + ".gpg"@).skip(name.len() as int) =~= ".gpg"@);
}

/// An entry is shown by the `pass` command with the store and the keyring of
/// the vault.
pub proof fn law_entries_are_shown_by_command(
    vault: &PassProvider,
    name: &str,
    command: CommandLine,
)
    requires
        call_ensures(PassProvider::show, (vault, name), command),
    ensures
        command.program@ == vault@.pass_bin,
        command.args@.len() == 2,
        command.args@[0]@ == "show"@,
        command.args@[1]@ == name@,
        vault@.gnupghome is None ==> command.env@.len() == 1,
        vault@.gnupghome is Some ==> command.env@.len() == 2,
        command.env@[0].0@ == "PASSWORD_STORE_DIR"@ && command.env@[0].1@ == vault@.store_dir,
        vault@.gnupghome matches Some(home) ==> command.env@[1].0@ == "GNUPGHOME"@
            && command.env@[1].1@ == home,
{
    let view = command@;
    assert(view.args.len() == command.args@.len());
    assert(view.args[0] == command.args@[0]@ && view.args[1] == command.args@[1]@);
    assert(view.env.len() == command.env@.len());
    assert(view.env[0] == (command.env@[0].0@, command.env@[0].1@));
    if vault@.gnupghome is Some {
        assert(view.env[1] == (command.env@[1].0@, command.env@[1].1@));
    }
}

/// What the command printed is the entry, where it succeeded and printed text.
pub proof fn law_printed_entries_are_read(
    text: Seq<char>,
    output: Vec<u8>,
    good: Result<String, PassRunError>,
    bad: Result<String, PassRunError>,
)
    requires
        output@ == vstd::utf8::encode_utf8(text),
        call_ensures(pass_output, (true, output), good),
        call_ensures(pass_output, (false, output), bad),
    ensures
        good matches Ok(t) && t@ == text,
        bad is Err && bad->Err_0 is NonZeroExit,
{
    vstd::utf8::encode_utf8_valid_utf8(text);
    vstd::utf8::encode_utf8_decode_utf8(text);
}

/// Every entry of the store is listed, under its name, in the order of the
/// names.
pub proof fn law_every_entry_is_listed(
    vault: &mut PassProvider,
    names: Vec<String>,
    done: (),
    listed: Vec<CredentialRef>,
    i: int,
)
    requires
        call_ensures(PassProvider::set_catalog, (vault, names), done),
        call_ensures(PassProvider::list_refs, (&*final(vault),), listed),
    ensures
        listed@.len() == names@.len(),
        0 <= i < names@.len() ==> exists|k: int|
            0 <= k < listed@.len() && (#[trigger] listed@[k]).id@ == names@[i]@ && listed@[k].name@
                == names@[i]@,
        0 <= i < listed@.len() ==> crate::text::texts(names@).contains(listed@[i].id@),
{
    let catalog = final(vault)@.catalog;
    let texts = crate::text::texts(names@);
    let refs = crate::credential::ref_views(listed@);
    assert(refs.len() == listed@.len());
    texts.to_multiset_ensures();
    catalog.to_multiset_ensures();
    assert(catalog.len() == texts.len());
    assert(refs.len() == catalog.len());
    if 0 <= i < names@.len() {
        assert(texts[i] == names@[i]@);
        assert(texts.contains(names@[i]@));
        assert(texts.to_multiset().count(names@[i]@) > 0);
        assert(catalog.contains(names@[i]@));
        let k = choose|k: int| 0 <= k < catalog.len() && catalog[k] == names@[i]@;
        assert(refs[k] == listed@[k]@);
        assert(listed@[k].id@ == names@[i]@ && listed@[k].name@ == names@[i]@);
    }
    if 0 <= i < listed@.len() {
        assert(refs[i] == listed@[i]@);
        assert(catalog.contains(catalog[i]));
        assert(catalog.to_multiset().count(catalog[i]) > 0);
    }
}

/// A file that is not encrypted, or has no name before its ending, is no entry.
pub proof fn law_other_files_are_no_entries(relative: &str, entry: Option<String>)
    requires
        call_ensures(entry_name, (relative,), entry),
    ensures
        entry matches Some(name) ==> relative@ == name@ + ".gpg"@ && name@.len() > 0
            && name@.last() != '/',
{
    reveal_strlit(".gpg");
    if entry is Some {
        let n = relative@.len();
        assert(relative@ =~= relative@.take(n - 4) + relative@.skip(n - 4));
        assert(relative@.take(n - 4).last() == relative@[n - 5]);
    }
}

} // verus!
