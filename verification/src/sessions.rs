//! Logged-in browsers, the leases on them, and the pace of browser starts.

use vstd::prelude::*;
use vstd::string::*;

use crate::text::same_text;

verus! {

// ---------------------------------------------------------------------------
// Browsers and leases
// ---------------------------------------------------------------------------

/// What a browser is shared by: the same principal, logged in with the same
/// credential of the same namespace.
#[derive(Debug)]
pub struct BrowserKey {
    pub principal: String,
    pub namespace: String,
    pub cred_id: String,
}

/// A key, by the views of its parts.
#[verifier::ext_equal]
pub struct KeyView {
    pub principal: Seq<char>,
    pub namespace: Seq<char>,
    pub cred_id: Seq<char>,
}

impl View for BrowserKey {
    type V = KeyView;

    open spec fn view(&self) -> KeyView {
        KeyView {
            principal: self.principal@,
            namespace: self.namespace@,
            cred_id: self.cred_id@,
        }
    }
}

impl BrowserKey {
    pub fn new(principal: String, namespace: String, cred_id: String) -> (key: Self)
        ensures
            key@ == (KeyView {
                principal: principal@,
                namespace: namespace@,
                cred_id: cred_id@,
            }),
    {
        Self { principal, namespace, cred_id }
    }

    /// Tells whether two keys have the same parts.
    pub fn same(&self, other: &BrowserKey) -> (r: bool)
        ensures
            r == (self@ == other@),
    {
        same_text(self.principal.as_str(), other.principal.as_str()) && same_text(
            self.namespace.as_str(),
            other.namespace.as_str(),
        ) && same_text(self.cred_id.as_str(), other.cred_id.as_str())
    }

    /// A copy of the key.
    pub fn copy(&self) -> (key: Self)
        ensures
            key@ == self@,
    {
        Self {
            principal: self.principal.clone(),
            namespace: self.namespace.clone(),
            cred_id: self.cred_id.clone(),
        }
    }
}

/// One tab of a browser, lent to a client until it expires. Times are
/// nanoseconds of a monotonic clock.
#[derive(Debug)]
pub struct Lease {
    pub session_id: String,
    pub principal: String,
    pub expires_at: u128,
    pub target_id: String,
}

/// A lease, by the views of its parts.
#[verifier::ext_equal]
pub struct LeaseView {
    pub session_id: Seq<char>,
    pub principal: Seq<char>,
    pub expires_at: nat,
    pub target_id: Seq<char>,
}

impl View for Lease {
    type V = LeaseView;

    open spec fn view(&self) -> LeaseView {
        LeaseView {
            session_id: self.session_id@,
            principal: self.principal@,
            expires_at: self.expires_at as nat,
            target_id: self.target_id@,
        }
    }
}

/// The leases of a list, by their views.
pub open spec fn lease_views(leases: Seq<Lease>) -> Seq<LeaseView> {
    leases.map_values(|l: Lease| l@)
}

/// A logged-in browser with the leases on it. An exclusive browser is never
/// lent a second time.
#[derive(Debug)]
pub struct Browser {
    pub id: String,
    pub key: BrowserKey,
    pub cdp_port: u16,
    pub endpoint: String,
    pub leases: Vec<Lease>,
    pub exclusive: bool,
}

/// A browser, by the views of its parts.
#[verifier::ext_equal]
pub struct BrowserView {
    pub id: Seq<char>,
    pub key: KeyView,
    pub cdp_port: u16,
    pub endpoint: Seq<char>,
    pub leases: Seq<LeaseView>,
    pub exclusive: bool,
}

impl View for Browser {
    type V = BrowserView;

    open spec fn view(&self) -> BrowserView {
        BrowserView {
            id: self.id@,
            key: self.key@,
            cdp_port: self.cdp_port,
            endpoint: self.endpoint@,
            leases: lease_views(self.leases@),
            exclusive: self.exclusive,
        }
    }
}

impl BrowserView {
    /// The browser has a lease, and all its leases belong to the principal
    /// that the browser was started for.
    pub open spec fn wf(self) -> bool {
        &&& self.leases.len() > 0
        &&& forall|i: int|
            0 <= i < self.leases.len() ==> (#[trigger] self.leases[i]).principal
                == self.key.principal
    }

    /// The browser with one more lease.
    pub open spec fn with_lease(self, lease: LeaseView) -> BrowserView {
        BrowserView { leases: self.leases.push(lease), ..self }
    }
}

/// The browsers of a list, by their views.
pub open spec fn browser_views(browsers: Seq<Browser>) -> Seq<BrowserView> {
    browsers.map_values(|b: Browser| b@)
}

/// All live browsers, in the order in which they were started.
#[derive(Debug)]
pub struct SessionTable {
    browsers: Vec<Browser>,
}

impl View for SessionTable {
    type V = Seq<BrowserView>;

    closed spec fn view(&self) -> Seq<BrowserView> {
        browser_views(self.browsers@)
    }
}

/// Every browser of the table is well formed.
pub open spec fn table_wf(browsers: Seq<BrowserView>) -> bool {
    forall|i: int| 0 <= i < browsers.len() ==> (#[trigger] browsers[i]).wf()
}

// ---------------------------------------------------------------------------
// Looking up
// ---------------------------------------------------------------------------

/// The latest browser that is shared under `key`.
pub open spec fn shared_index(browsers: Seq<BrowserView>, key: KeyView) -> Option<int>
    decreases browsers.len(),
{
    if browsers.len() == 0 {
        None
    } else if !browsers.last().exclusive && browsers.last().key == key {
        Some(browsers.len() - 1)
    } else {
        shared_index(browsers.drop_last(), key)
    }
}

/// The id of the browser that is shared under `key`.
pub open spec fn shared_id(browsers: Seq<BrowserView>, key: KeyView) -> Option<Seq<char>> {
    match shared_index(browsers, key) {
        Some(i) => Some(browsers[i].id),
        None => None,
    }
}

/// The position of the first browser with an id.
pub open spec fn index_of_id(browsers: Seq<BrowserView>, id: Seq<char>) -> Option<int>
    decreases browsers.len(),
{
    if browsers.len() == 0 {
        None
    } else {
        match index_of_id(browsers.drop_last(), id) {
            Some(i) => Some(i),
            None => if browsers.last().id == id {
                Some(browsers.len() - 1)
            } else {
                None
            },
        }
    }
}

/// What `shared_index` finds.
pub proof fn lemma_shared_index(browsers: Seq<BrowserView>, key: KeyView)
    ensures
        match shared_index(browsers, key) {
            Some(i) => 0 <= i < browsers.len() && !browsers[i].exclusive && browsers[i].key == key,
            None => forall|i: int|
                0 <= i < browsers.len() ==> !(!(#[trigger] browsers[i]).exclusive
                    && browsers[i].key == key),
        },
    decreases browsers.len(),
{
    if browsers.len() > 0 && !(!browsers.last().exclusive && browsers.last().key == key) {
        lemma_shared_index(browsers.drop_last(), key);
        match shared_index(browsers, key) {
            Some(i) => {
                assert(browsers.drop_last()[i] == browsers[i]);
            },
            None => {
                assert forall|i: int| 0 <= i < browsers.len() implies !(!(
                #[trigger] browsers[i]).exclusive && browsers[i].key == key) by {
                    if i < browsers.len() - 1 {
                        assert(browsers.drop_last()[i] == browsers[i]);
                    }
                }
            },
        }
    }
}

/// What `index_of_id` finds.
pub proof fn lemma_index_of_id(browsers: Seq<BrowserView>, id: Seq<char>)
    ensures
        match index_of_id(browsers, id) {
            Some(i) => 0 <= i < browsers.len() && browsers[i].id == id,
            None => forall|i: int| 0 <= i < browsers.len() ==> (#[trigger] browsers[i]).id != id,
        },
    decreases browsers.len(),
{
    if browsers.len() > 0 {
        lemma_index_of_id(browsers.drop_last(), id);
        assert forall|i: int| 0 <= i < browsers.len() - 1 implies #[trigger] browsers[i]
            == browsers.drop_last()[i] by {}
    }
}

/// How many leases there are.
pub open spec fn lease_count(browsers: Seq<BrowserView>) -> nat
    decreases browsers.len(),
{
    if browsers.len() == 0 {
        0
    } else {
        lease_count(browsers.drop_last()) + browsers.last().leases.len()
    }
}

/// The position of the first lease of `session_id` that belongs to `principal`.
pub open spec fn lease_index(
    leases: Seq<LeaseView>,
    session_id: Seq<char>,
    principal: Seq<char>,
) -> Option<int>
    decreases leases.len(),
{
    if leases.len() == 0 {
        None
    } else {
        match lease_index(leases.drop_last(), session_id, principal) {
            Some(i) => Some(i),
            None => if leases.last().session_id == session_id && leases.last().principal
                == principal {
                Some(leases.len() - 1)
            } else {
                None
            },
        }
    }
}

/// The browser port that a session of a principal may be tunnelled to.
pub open spec fn port_of(
    browsers: Seq<BrowserView>,
    session_id: Seq<char>,
    principal: Seq<char>,
) -> Option<u16>
    decreases browsers.len(),
{
    if browsers.len() == 0 {
        None
    } else {
        match port_of(browsers.drop_last(), session_id, principal) {
            Some(port) => Some(port),
            None => if lease_index(browsers.last().leases, session_id, principal) is Some {
                Some(browsers.last().cdp_port)
            } else {
                None
            },
        }
    }
}

/// There is a lease of `session_id`, whoever it belongs to.
pub open spec fn session_exists(browsers: Seq<BrowserView>, session_id: Seq<char>) -> bool {
    exists|i: int, j: int|
        0 <= i < browsers.len() && 0 <= j < browsers[i].leases.len()
            && (#[trigger] browsers[i].leases[j]).session_id == session_id
}

// ---------------------------------------------------------------------------
// Removing leases
// ---------------------------------------------------------------------------

/// Which leases are taken back.
#[derive(Debug)]
pub enum LeaseFilter {
    /// Those that have expired at a time.
    Expired(u64),
    /// Those of a principal.
    Principal(String),
    /// Those of a session that belong to a principal.
    Session(String, String),
}

/// A filter, by the views of its parts.
#[verifier::ext_equal]
pub enum FilterView {
    Expired(nat),
    Principal(Seq<char>),
    Session(Seq<char>, Seq<char>),
}

impl View for LeaseFilter {
    type V = FilterView;

    open spec fn view(&self) -> FilterView {
        match self {
            LeaseFilter::Expired(now) => FilterView::Expired(*now as nat),
            LeaseFilter::Principal(p) => FilterView::Principal(p@),
            LeaseFilter::Session(s, p) => FilterView::Session(s@, p@),
        }
    }
}

impl FilterView {
    /// The filter takes the lease back.
    pub open spec fn takes(self, lease: LeaseView) -> bool {
        match self {
            FilterView::Expired(now) => lease.expires_at <= now,
            FilterView::Principal(p) => lease.principal == p,
            FilterView::Session(s, p) => lease.session_id == s && lease.principal == p,
        }
    }
}

impl LeaseFilter {
    fn takes_lease(&self, lease: &Lease) -> (r: bool)
        ensures
            r == self@.takes(lease@),
    {
        match self {
            LeaseFilter::Expired(now) => lease.expires_at <= *now as u128,
            LeaseFilter::Principal(p) => same_text(lease.principal.as_str(), p.as_str()),
            LeaseFilter::Session(s, p) => same_text(lease.session_id.as_str(), s.as_str())
                && same_text(lease.principal.as_str(), p.as_str()),
        }
    }
}

/// A lease that was taken back, and what is left to do about it.
#[derive(Debug)]
pub struct Removed {
    pub session_id: String,
    pub target_id: String,
    pub browser_id: String,
    pub namespace: String,
    /// It was the last lease of its browser, which is gone with it.
    pub last: bool,
}

/// A removal, by the views of its parts.
#[verifier::ext_equal]
pub struct RemovedView {
    pub session_id: Seq<char>,
    pub target_id: Seq<char>,
    pub browser_id: Seq<char>,
    pub namespace: Seq<char>,
    pub last: bool,
}

impl View for Removed {
    type V = RemovedView;

    open spec fn view(&self) -> RemovedView {
        RemovedView {
            session_id: self.session_id@,
            target_id: self.target_id@,
            browser_id: self.browser_id@,
            namespace: self.namespace@,
            last: self.last,
        }
    }
}

/// The removals of a list, by their views.
pub open spec fn removed_views(removed: Seq<Removed>) -> Seq<RemovedView> {
    removed.map_values(|r: Removed| r@)
}

/// The leases that a filter leaves.
pub open spec fn kept_leases(leases: Seq<LeaseView>, filter: FilterView) -> Seq<LeaseView>
    decreases leases.len(),
{
    if leases.len() == 0 {
        seq![]
    } else if filter.takes(leases.last()) {
        kept_leases(leases.drop_last(), filter)
    } else {
        kept_leases(leases.drop_last(), filter).push(leases.last())
    }
}

/// The leases that a filter takes.
pub open spec fn taken_leases(leases: Seq<LeaseView>, filter: FilterView) -> Seq<LeaseView>
    decreases leases.len(),
{
    if leases.len() == 0 {
        seq![]
    } else if filter.takes(leases.last()) {
        taken_leases(leases.drop_last(), filter).push(leases.last())
    } else {
        taken_leases(leases.drop_last(), filter)
    }
}

/// The removals of one browser, in the order of its leases; the last of them
/// ends the browser where no lease is left.
pub open spec fn browser_removals(browser: BrowserView, filter: FilterView) -> Seq<RemovedView> {
    let taken = taken_leases(browser.leases, filter);
    let empty = kept_leases(browser.leases, filter).len() == 0;
    Seq::new(
        taken.len(),
        |i: int|
            RemovedView {
                session_id: taken[i].session_id,
                target_id: taken[i].target_id,
                browser_id: browser.id,
                namespace: browser.key.namespace,
                last: empty && i == taken.len() - 1,
            },
    )
}

/// The removals of a table.
pub open spec fn removals(browsers: Seq<BrowserView>, filter: FilterView) -> Seq<RemovedView>
    decreases browsers.len(),
{
    if browsers.len() == 0 {
        seq![]
    } else {
        removals(browsers.drop_last(), filter) + browser_removals(browsers.last(), filter)
    }
}

/// The browsers that are left, with the leases that are left on them.
pub open spec fn remaining(browsers: Seq<BrowserView>, filter: FilterView) -> Seq<BrowserView>
    decreases browsers.len(),
{
    if browsers.len() == 0 {
        seq![]
    } else {
        let rest = remaining(browsers.drop_last(), filter);
        let kept = kept_leases(browsers.last().leases, filter);
        if kept.len() == 0 {
            rest
        } else {
            rest.push(BrowserView { leases: kept, ..browsers.last() })
        }
    }
}

/// The outcome of a logout request.
#[derive(Debug)]
pub enum LogoutOutcome {
    /// No such session is alive: there is nothing to do.
    Unknown,
    /// The session belongs to another principal.
    NotOwner,
    /// The lease was taken back.
    Released(Vec<Removed>),
}

/// The browsers outside a namespace; with no namespace, none.
pub open spec fn outside(
    browsers: Seq<BrowserView>,
    namespace: Option<Seq<char>>,
) -> Seq<BrowserView>
    decreases browsers.len(),
{
    if browsers.len() == 0 {
        seq![]
    } else if in_namespace(browsers.last(), namespace) {
        outside(browsers.drop_last(), namespace)
    } else {
        outside(browsers.drop_last(), namespace).push(browsers.last())
    }
}

/// The browsers of a namespace; with no namespace, all of them.
pub open spec fn inside(
    browsers: Seq<BrowserView>,
    namespace: Option<Seq<char>>,
) -> Seq<BrowserView>
    decreases browsers.len(),
{
    if browsers.len() == 0 {
        seq![]
    } else if in_namespace(browsers.last(), namespace) {
        inside(browsers.drop_last(), namespace).push(browsers.last())
    } else {
        inside(browsers.drop_last(), namespace)
    }
}

/// A browser belongs to a namespace, or every namespace is meant.
pub open spec fn in_namespace(browser: BrowserView, namespace: Option<Seq<char>>) -> bool {
    match namespace {
        Some(n) => browser.key.namespace == n,
        None => true,
    }
}

fn opt_str_matches(requested: &Option<String>, actual: &str) -> (r: bool)
    ensures
        r == (match crate::text::opt_text(*requested) {
            Some(n) => actual@ == n,
            None => true,
        }),
{
    match requested {
        Some(n) => same_text(actual, n.as_str()),
        None => true,
    }
}

/// The removals of taken leases of one browser.
pub open spec fn removal_list(
    taken: Seq<LeaseView>,
    browser_id: Seq<char>,
    namespace: Seq<char>,
    empty: bool,
) -> Seq<RemovedView> {
    Seq::new(
        taken.len(),
        |i: int|
            RemovedView {
                session_id: taken[i].session_id,
                target_id: taken[i].target_id,
                browser_id,
                namespace,
                last: empty && i == taken.len() - 1,
            },
    )
}

/// Moving one element past the boundary between what was looked at and what
/// was not: it is dropped, or it is kept.
proof fn lemma_boundary<A>(kept: Seq<A>, all: Seq<A>, done: int)
    requires
        0 <= done < all.len(),
    ensures
        (kept + all.skip(done)).remove(kept.len() as int) == kept + all.skip(done + 1),
        kept + all.skip(done) == kept.push(all[done]) + all.skip(done + 1),
{
    assert((kept + all.skip(done)).remove(kept.len() as int) =~= kept + all.skip(done + 1));
    assert(kept + all.skip(done) =~= kept.push(all[done]) + all.skip(done + 1));
}

/// Takes leases of one browser back and records what was taken.
fn take_leases(
    leases: &mut Vec<Lease>,
    filter: &LeaseFilter,
    browser_id: &String,
    namespace: &String,
    removed: &mut Vec<Removed>,
)
    ensures
        lease_views(final(leases)@) == kept_leases(lease_views(old(leases)@), filter@),
        removed_views(final(removed)@) == removed_views(old(removed)@) + removal_list(
            taken_leases(lease_views(old(leases)@), filter@),
            browser_id@,
            namespace@,
            kept_leases(lease_views(old(leases)@), filter@).len() == 0,
        ),
{
    let ghost all = lease_views(leases@);
    let ghost before = removed_views(removed@);
    let start: usize = removed.len();
    let mut i: usize = 0;
    let mut done: Ghost<int> = Ghost(0);
    proof {
        assert(all.skip(0) =~= all);
        assert(lease_views(leases@) =~= kept_leases(all.take(0), filter@) + all.skip(0));
        assert(removed_views(removed@) =~= before + removal_list(
            taken_leases(all.take(0), filter@),
            browser_id@,
            namespace@,
            false,
        ));
    }
    while i < leases.len()
        invariant
            0 <= done@ <= all.len(),
            i == kept_leases(all.take(done@), filter@).len(),
            lease_views(leases@) == kept_leases(all.take(done@), filter@) + all.skip(done@),
            removed_views(removed@) == before + removal_list(
                taken_leases(all.take(done@), filter@),
                browser_id@,
                namespace@,
                false,
            ),
            start == before.len(),
        decreases all.len() - done@,
    {
        let ghost kept = kept_leases(all.take(done@), filter@);
        let ghost taken = taken_leases(all.take(done@), filter@);
        let ghost current = leases@;
        let ghost earlier = removed@;
        let ghost top = all[done@];
        proof {
            assert(lease_views(current)[i as int] == current[i as int]@);
            assert((kept + all.skip(done@))[i as int] == all.skip(done@)[0]);
            assert(current[i as int]@ == top);
            assert(all.take(done@ + 1).drop_last() =~= all.take(done@));
        }
        if filter.takes_lease(&leases[i]) {
            let Lease { session_id, principal: _, expires_at: _, target_id } = leases.remove(i);
            removed.push(
                Removed {
                    session_id,
                    target_id,
                    browser_id: browser_id.clone(),
                    namespace: namespace.clone(),
                    last: false,
                },
            );
            proof {
                lemma_boundary(kept, all, done@);
                assert(lease_views(leases@) =~= lease_views(current).remove(i as int));
                assert(removed_views(removed@) =~= removed_views(earlier).push(
                    removed@.last()@,
                ));
                assert(removed_views(removed@) =~= before + removal_list(
                    taken.push(top),
                    browser_id@,
                    namespace@,
                    false,
                ));
            }
        } else {
            proof {
                lemma_boundary(kept, all, done@);
            }
            i += 1;
        }
        proof {
            done@ = done@ + 1;
        }
    }
    proof {
        assert(lease_views(leases@).len() == i);
        assert(done@ == all.len());
        assert(all.take(done@) =~= all);
        assert(lease_views(leases@) =~= kept_leases(all, filter@));
    }
    let ghost taken = taken_leases(all, filter@);
    let end: usize = removed.len();
    if leases.len() == 0 && end > start {
        let ghost unmarked = removed@;
        match removed.pop() {
            Some(r) => {
                let Removed { session_id, target_id, browser_id: browser, namespace: space, last: _ } =
                    r;
                removed.push(
                    Removed {
                        session_id,
                        target_id,
                        browser_id: browser,
                        namespace: space,
                        last: true,
                    },
                );
            },
            None => {},
        }
        proof {
            let unmarked_list = removal_list(taken, browser_id@, namespace@, false);
            let marked_list = removal_list(taken, browser_id@, namespace@, true);
            assert(removed_views(unmarked) == before + unmarked_list);
            assert(removed@.len() == unmarked.len());
            assert forall|k: int| 0 <= k < removed@.len() implies removed_views(removed@)[k] == (
            before + marked_list)[k] by {
                assert(removed_views(unmarked)[k] == unmarked[k]@);
                assert((before + unmarked_list)[k] == unmarked[k]@);
            }
            assert(removed_views(removed@) =~= before + marked_list);
        }
    } else {
        proof {
            let empty = kept_leases(all, filter@).len() == 0;
            assert(lease_views(leases@).len() == leases@.len());
            assert(empty ==> taken.len() == 0);
            assert(removal_list(taken, browser_id@, namespace@, empty) =~= removal_list(
                taken,
                browser_id@,
                namespace@,
                false,
            ));
        }
    }
}

impl SessionTable {
    /// The table is well formed.
    pub open spec fn wf(&self) -> bool {
        table_wf(self@)
    }

    /// A table without browsers.
    pub fn new() -> (table: Self)
        ensures
            table@ == Seq::<BrowserView>::empty(),
            table.wf(),
    {
        let table = Self { browsers: Vec::new() };
        assert(table@ =~= Seq::<BrowserView>::empty());
        table
    }

    /// How many browsers and how many leases there are.
    pub fn counts(&self) -> (r: (usize, u128))
        ensures
            r.0 == self@.len(),
            r.1 == lease_count(self@),
    {
        let mut leases: u128 = 0;
        let mut i: usize = 0;
        assert(self@.take(0) =~= seq![]);
        while i < self.browsers.len()
            invariant
                i <= self.browsers@.len(),
                self@ == browser_views(self.browsers@),
                leases == lease_count(self@.take(i as int)),
                leases <= i * 0xffff_ffff_ffff_ffffu64,
            decreases self.browsers@.len() - i,
        {
            let n: usize = self.browsers[i].leases.len();
            proof {
                assert(self@.take(i + 1).drop_last() =~= self@.take(i as int));
                assert(self@.take(i + 1).last() == self.browsers@[i as int]@);
                assert(n <= 0xffff_ffff_ffff_ffffu64);
                assert((i + 1) * 0xffff_ffff_ffff_ffffu64 == i * 0xffff_ffff_ffff_ffffu64
                    + 0xffff_ffff_ffff_ffffu64);
            }
            leases = leases + n as u128;
            i += 1;
        }
        assert(self@.take(i as int) =~= self@);
        (self.browsers.len(), leases)
    }

    /// The id of the browser that is shared under `key`.
    pub fn shared_browser(&self, key: &BrowserKey) -> (r: Option<String>)
        ensures
            crate::text::opt_text(r) == shared_id(self@, key@),
    {
        let mut i: usize = self.browsers.len();
        assert(self@.take(i as int) =~= self@);
        while i > 0
            invariant
                i <= self.browsers@.len(),
                self@ == browser_views(self.browsers@),
                shared_index(self@, key@) == shared_index(self@.take(i as int), key@),
            decreases i,
        {
            let browser = &self.browsers[i - 1];
            proof {
                assert(self@.take(i as int).last() == browser@);
                assert(self@.take(i as int).drop_last() =~= self@.take(i - 1));
            }
            if !browser.exclusive && browser.key.same(key) {
                return Some(browser.id.clone());
            }
            i -= 1;
        }
        None
    }

    /// The endpoint of a browser.
    pub fn endpoint(&self, browser_id: &str) -> (r: Option<String>)
        ensures
            crate::text::opt_text(r) == (match index_of_id(self@, browser_id@) {
                Some(i) => Some(self@[i].endpoint),
                None => None,
            }),
    {
        match self.find(browser_id) {
            Some(i) => Some(self.browsers[i].endpoint.clone()),
            None => None,
        }
    }

    fn find(&self, browser_id: &str) -> (r: Option<usize>)
        ensures
            match r {
                Some(i) => i < self.browsers@.len() && index_of_id(self@, browser_id@) == Some(
                    i as int,
                ),
                None => index_of_id(self@, browser_id@) is None,
            },
            self@ == browser_views(self.browsers@),
    {
        let mut i: usize = 0;
        assert(self@.take(0) =~= seq![]);
        while i < self.browsers.len()
            invariant
                i <= self.browsers@.len(),
                self@ == browser_views(self.browsers@),
                index_of_id(self@.take(i as int), browser_id@) is None,
            decreases self.browsers@.len() - i,
        {
            proof {
                assert(self@.take(i + 1).drop_last() =~= self@.take(i as int));
                assert(self@.take(i + 1).last() == self.browsers@[i as int]@);
            }
            if same_text(self.browsers[i].id.as_str(), browser_id) {
                proof {
                    lemma_index_of_id_prefix(self@, browser_id@, i + 1);
                }
                return Some(i);
            }
            i += 1;
        }
        assert(self@.take(i as int) =~= self@);
        None
    }

    /// Lends a tab of a browser to the principal that the browser was started
    /// for. Nothing happens where the browser is gone.
    pub fn join(
        &mut self,
        browser_id: &str,
        session_id: String,
        target_id: String,
        expires_at: u128,
    ) -> (joined: bool)
        requires
            old(self).wf(),
        ensures
            final(self).wf(),
            joined == (index_of_id(old(self)@, browser_id@) is Some),
            final(self)@ == joined_table(
                old(self)@,
                browser_id@,
                session_id@,
                target_id@,
                expires_at as nat,
            ),
    {
        match self.find(browser_id) {
            Some(i) => {
                proof {
                    assert(self@[i as int] == self.browsers@[i as int]@);
                    assert(self@[i as int].wf());
                }
                let ghost before = self.browsers@;
                let mut browser = self.browsers.remove(i);
                let ghost plain = browser@;
                let lease = Lease {
                    session_id,
                    principal: browser.key.principal.clone(),
                    expires_at,
                    target_id,
                };
                let ghost old_leases = browser.leases@;
                browser.leases.push(lease);
                assert(browser@ == plain.with_lease(lease@)) by {
                    assert(lease_views(browser.leases@) =~= lease_views(old_leases).push(lease@));
                }
                let ghost whole = browser@;
                self.browsers.insert(i, browser);
                proof {
                    assert(self@ =~= browser_views(before).update(i as int, whole));
                    assert(whole.wf()) by {
                        assert forall|k: int| 0 <= k < whole.leases.len() implies (
                        #[trigger] whole.leases[k]).principal == whole.key.principal by {
                            if k < plain.leases.len() {
                                assert(plain.leases[k] == whole.leases[k]);
                            }
                        }
                    }
                    assert forall|k: int| 0 <= k < self@.len() implies (#[trigger] self@[k]).wf() by {
                        if k != i {
                            assert(self@[k] == browser_views(before)[k]);
                        }
                    }
                }
                true
            },
            None => false,
        }
    }

    /// Adds a browser that was started for a login, with its first lease.
    pub fn start(
        &mut self,
        browser_id: String,
        key: BrowserKey,
        cdp_port: u16,
        endpoint: String,
        exclusive: bool,
        session_id: String,
        target_id: String,
        expires_at: u128,
    )
        requires
            old(self).wf(),
        ensures
            final(self).wf(),
            final(self)@ == old(self)@.push(
                started_browser(
                    browser_id@,
                    key@,
                    cdp_port,
                    endpoint@,
                    exclusive,
                    session_id@,
                    target_id@,
                    expires_at as nat,
                ),
            ),
    {
        let ghost before = self.browsers@;
        let lease = Lease { session_id, principal: key.principal.clone(), expires_at, target_id };
        let mut leases: Vec<Lease> = Vec::new();
        leases.push(lease);
        let browser = Browser { id: browser_id, key, cdp_port, endpoint, leases, exclusive };
        assert(lease_views(leases@) =~= seq![lease@]);
        self.browsers.push(browser);
        proof {
            assert(self@ =~= browser_views(before).push(browser@));
            assert(browser@.wf());
            assert forall|k: int| 0 <= k < self@.len() implies (#[trigger] self@[k]).wf() by {
                if k < before.len() {
                    assert(self@[k] == browser_views(before)[k]);
                }
            }
        }
    }

    /// Takes leases back, and drops the browsers that are left without one.
    pub fn take(&mut self, filter: &LeaseFilter) -> (removed: Vec<Removed>)
        requires
            old(self).wf(),
        ensures
            final(self).wf(),
            final(self)@ == remaining(old(self)@, filter@),
            removed_views(removed@) == removals(old(self)@, filter@),
    {
        let ghost all = self@;
        let mut removed: Vec<Removed> = Vec::new();
        let mut i: usize = 0;
        let mut done: Ghost<int> = Ghost(0);
        proof {
            assert(all.take(0) =~= seq![]);
            assert(all.skip(0) =~= all);
            assert(self@ =~= remaining(all.take(0), filter@) + all.skip(0));
            assert(removed_views(removed@) =~= removals(all.take(0), filter@));
        }
        while i < self.browsers.len()
            invariant
                0 <= done@ <= all.len(),
                i == remaining(all.take(done@), filter@).len(),
                self@ == browser_views(self.browsers@),
                self@ == remaining(all.take(done@), filter@) + all.skip(done@),
                removed_views(removed@) == removals(all.take(done@), filter@),
            decreases all.len() - done@,
        {
            let ghost kept = remaining(all.take(done@), filter@);
            let ghost before = self.browsers@;
            let ghost top = all[done@];
            let ghost earlier = removed_views(removed@);
            proof {
                assert(self@[i as int] == before[i as int]@);
                assert((kept + all.skip(done@))[i as int] == all.skip(done@)[0]);
                assert(before[i as int]@ == top);
                assert(all.take(done@ + 1).drop_last() =~= all.take(done@));
                assert(all.take(done@ + 1).last() == top);
            }
            let mut browser = self.browsers.remove(i);
            take_leases(
                &mut browser.leases,
                filter,
                &browser.id,
                &browser.key.namespace,
                &mut removed,
            );
            proof {
                assert(removed_views(removed@) == earlier + browser_removals(top, filter@)) by {
                    assert(browser_removals(top, filter@) =~= removal_list(
                        taken_leases(top.leases, filter@),
                        top.id,
                        top.key.namespace,
                        kept_leases(top.leases, filter@).len() == 0,
                    ));
                }
                assert(lease_views(browser.leases@).len() == browser.leases@.len());
            }
            if browser.leases.len() > 0 {
                let ghost rest = browser@;
                self.browsers.insert(i, browser);
                proof {
                    assert(rest == (BrowserView { leases: kept_leases(top.leases, filter@), ..top }));
                    lemma_boundary(kept, all, done@);
                    assert(self@ =~= browser_views(before).update(i as int, rest));
                    assert(self@ =~= kept.push(rest) + all.skip(done@ + 1));
                }
                i += 1;
            } else {
                proof {
                    lemma_boundary(kept, all, done@);
                    assert(self@ =~= browser_views(before).remove(i as int));
                }
            }
            proof {
                done@ = done@ + 1;
            }
        }
        proof {
            assert(self@.len() == i);
            assert(done@ == all.len());
            assert(all.take(done@) =~= all);
            assert(self@ =~= remaining(all, filter@));
            lemma_remaining_wf(all, filter@);
        }
        removed
    }

    /// Ends a session for its owner. A session that is not alive is no error;
    /// one that belongs to another principal is not touched.
    pub fn logout(&mut self, session_id: &str, principal: &str) -> (r: LogoutOutcome)
        requires
            old(self).wf(),
        ensures
            final(self).wf(),
            match r {
                LogoutOutcome::Unknown => !session_exists(old(self)@, session_id@) && final(self)@
                    == old(self)@,
                LogoutOutcome::NotOwner => session_exists(old(self)@, session_id@) && port_of(
                    old(self)@,
                    session_id@,
                    principal@,
                ) is None && final(self)@ == old(self)@,
                LogoutOutcome::Released(removed) => {
                    let filter = FilterView::Session(session_id@, principal@);
                    &&& port_of(old(self)@, session_id@, principal@) is Some
                    &&& final(self)@ == remaining(old(self)@, filter)
                    &&& removed_views(removed@) == removals(old(self)@, filter)
                },
            },
    {
        match self.resolve_port(session_id, principal) {
            Some(_) => {
                let filter = LeaseFilter::Session(session_id.to_owned(), principal.to_owned());
                let removed = self.take(&filter);
                LogoutOutcome::Released(removed)
            },
            None => if self.session_alive(session_id) {
                LogoutOutcome::NotOwner
            } else {
                LogoutOutcome::Unknown
            },
        }
    }

    /// Tells whether a session is alive, whoever it belongs to.
    pub fn session_alive(&self, session_id: &str) -> (r: bool)
        ensures
            r == session_exists(self@, session_id@),
    {
        let mut i: usize = 0;
        while i < self.browsers.len()
            invariant
                i <= self.browsers@.len(),
                self@ == browser_views(self.browsers@),
                forall|k: int, j: int|
                    0 <= k < i && 0 <= j < self@[k].leases.len() ==> (
                    #[trigger] self@[k].leases[j]).session_id != session_id@,
            decreases self.browsers@.len() - i,
        {
            let browser = &self.browsers[i];
            assert(self@[i as int] == browser@);
            let mut j: usize = 0;
            while j < browser.leases.len()
                invariant
                    i < self.browsers@.len(),
                    j <= browser.leases@.len(),
                    self@ == browser_views(self.browsers@),
                    *browser == self.browsers@[i as int],
                    self@[i as int] == browser@,
                    forall|k: int|
                        0 <= k < j ==> (#[trigger] self@[i as int].leases[k]).session_id
                            != session_id@,
                decreases browser.leases@.len() - j,
            {
                assert(self@[i as int].leases[j as int] == browser.leases@[j as int]@);
                if same_text(browser.leases[j].session_id.as_str(), session_id) {
                    return true;
                }
                j += 1;
            }
            i += 1;
        }
        false
    }

    /// The browser port that a session of a principal may be tunnelled to.
    pub fn resolve_port(&self, session_id: &str, principal: &str) -> (r: Option<u16>)
        ensures
            r == port_of(self@, session_id@, principal@),
    {
        let mut i: usize = 0;
        assert(self@.take(0) =~= seq![]);
        while i < self.browsers.len()
            invariant
                i <= self.browsers@.len(),
                self@ == browser_views(self.browsers@),
                port_of(self@.take(i as int), session_id@, principal@) is None,
            decreases self.browsers@.len() - i,
        {
            let browser = &self.browsers[i];
            proof {
                assert(self@.take(i + 1).drop_last() =~= self@.take(i as int));
                assert(self@.take(i + 1).last() == browser@);
            }
            if has_lease(&browser.leases, session_id, principal) {
                proof {
                    lemma_port_of_prefix(self@, session_id@, principal@, i + 1);
                }
                return Some(browser.cdp_port);
            }
            i += 1;
        }
        assert(self@.take(i as int) =~= self@);
        None
    }

    /// Removes the browsers of a namespace, or all of them.
    pub fn drain(&mut self, namespace: &Option<String>) -> (drained: Vec<Browser>)
        requires
            old(self).wf(),
        ensures
            final(self).wf(),
            final(self)@ == outside(old(self)@, crate::text::opt_text(*namespace)),
            browser_views(drained@) == inside(old(self)@, crate::text::opt_text(*namespace)),
    {
        let ghost all = self@;
        let ghost wanted = crate::text::opt_text(*namespace);
        let mut drained: Vec<Browser> = Vec::new();
        let mut i: usize = 0;
        let mut done: Ghost<int> = Ghost(0);
        proof {
            assert(all.take(0) =~= seq![]);
            assert(all.skip(0) =~= all);
            assert(self@ =~= outside(all.take(0), wanted) + all.skip(0));
            assert(browser_views(drained@) =~= inside(all.take(0), wanted));
        }
        while i < self.browsers.len()
            invariant
                0 <= done@ <= all.len(),
                wanted == crate::text::opt_text(*namespace),
                i == outside(all.take(done@), wanted).len(),
                self@ == browser_views(self.browsers@),
                self@ == outside(all.take(done@), wanted) + all.skip(done@),
                browser_views(drained@) == inside(all.take(done@), wanted),
            decreases all.len() - done@,
        {
            let ghost kept = outside(all.take(done@), wanted);
            let ghost before = self.browsers@;
            let ghost gone = drained@;
            let ghost top = all[done@];
            proof {
                assert(self@[i as int] == before[i as int]@);
                assert((kept + all.skip(done@))[i as int] == all.skip(done@)[0]);
                assert(before[i as int]@ == top);
                assert(all.take(done@ + 1).drop_last() =~= all.take(done@));
                assert(all.take(done@ + 1).last() == top);
            }
            if opt_str_matches(namespace, self.browsers[i].key.namespace.as_str()) {
                let browser = self.browsers.remove(i);
                drained.push(browser);
                proof {
                    lemma_boundary(kept, all, done@);
                    assert(self@ =~= browser_views(before).remove(i as int));
                    assert(browser_views(drained@) =~= browser_views(gone).push(top));
                }
            } else {
                proof {
                    lemma_boundary(kept, all, done@);
                }
                i += 1;
            }
            proof {
                done@ = done@ + 1;
            }
        }
        proof {
            assert(self@.len() == i);
            assert(done@ == all.len());
            assert(all.take(done@) =~= all);
            assert(self@ =~= outside(all, wanted));
            lemma_outside_wf(all, wanted);
        }
        drained
    }

    /// Removes the browser whose executor went away.
    pub fn executor_gone(&mut self, browser_id: &str) -> (r: Option<Browser>)
        requires
            old(self).wf(),
        ensures
            final(self).wf(),
            match index_of_id(old(self)@, browser_id@) {
                Some(i) => final(self)@ == old(self)@.remove(i) && (r matches Some(b) && b@ == old(
                    self,
                )@[i]),
                None => final(self)@ == old(self)@ && r is None,
            },
    {
        match self.find(browser_id) {
            Some(i) => {
                let ghost before = self@;
                let browser = self.browsers.remove(i);
                proof {
                    assert(self@ =~= before.remove(i as int));
                    assert forall|k: int| 0 <= k < self@.len() implies (#[trigger] self@[k]).wf() by {
                        assert(self@[k] == before[if k < i {
                            k
                        } else {
                            k + 1
                        }]);
                    }
                }
                Some(browser)
            },
            None => None,
        }
    }
}

fn has_lease(leases: &Vec<Lease>, session_id: &str, principal: &str) -> (r: bool)
    ensures
        r == (lease_index(lease_views(leases@), session_id@, principal@) is Some),
{
    let ghost all = lease_views(leases@);
    let mut i: usize = 0;
    assert(all.take(0) =~= seq![]);
    while i < leases.len()
        invariant
            i <= leases@.len(),
            all == lease_views(leases@),
            lease_index(all.take(i as int), session_id@, principal@) is None,
        decreases leases@.len() - i,
    {
        proof {
            assert(all.take(i + 1).drop_last() =~= all.take(i as int));
            assert(all.take(i + 1).last() == leases@[i as int]@);
        }
        if same_text(leases[i].session_id.as_str(), session_id) && same_text(
            leases[i].principal.as_str(),
            principal,
        ) {
            proof {
                lemma_lease_index_prefix(all, session_id@, principal@, i + 1);
            }
            return true;
        }
        i += 1;
    }
    assert(all.take(i as int) =~= all);
    false
}

/// A browser as it is started.
pub open spec fn started_browser(
    id: Seq<char>,
    key: KeyView,
    cdp_port: u16,
    endpoint: Seq<char>,
    exclusive: bool,
    session_id: Seq<char>,
    target_id: Seq<char>,
    expires_at: nat,
) -> BrowserView {
    BrowserView {
        id,
        key,
        cdp_port,
        endpoint,
        leases: seq![LeaseView { session_id, principal: key.principal, expires_at, target_id }],
        exclusive,
    }
}

/// A table in which a tab of a browser is lent once more.
pub open spec fn joined_table(
    browsers: Seq<BrowserView>,
    id: Seq<char>,
    session_id: Seq<char>,
    target_id: Seq<char>,
    expires_at: nat,
) -> Seq<BrowserView> {
    match index_of_id(browsers, id) {
        Some(i) => browsers.update(
            i,
            browsers[i].with_lease(
                LeaseView {
                    session_id,
                    principal: browsers[i].key.principal,
                    expires_at,
                    target_id,
                },
            ),
        ),
        None => browsers,
    }
}

proof fn lemma_index_of_id_prefix(browsers: Seq<BrowserView>, id: Seq<char>, n: int)
    requires
        0 <= n <= browsers.len(),
        index_of_id(browsers.take(n), id) is Some,
    ensures
        index_of_id(browsers, id) == index_of_id(browsers.take(n), id),
    decreases browsers.len() - n,
{
    if n < browsers.len() {
        assert(browsers.take(n + 1).drop_last() =~= browsers.take(n));
        lemma_index_of_id_prefix(browsers, id, n + 1);
    } else {
        assert(browsers.take(n) =~= browsers);
    }
}

proof fn lemma_port_of_prefix(
    browsers: Seq<BrowserView>,
    session_id: Seq<char>,
    principal: Seq<char>,
    n: int,
)
    requires
        0 <= n <= browsers.len(),
        port_of(browsers.take(n), session_id, principal) is Some,
    ensures
        port_of(browsers, session_id, principal) == port_of(
            browsers.take(n),
            session_id,
            principal,
        ),
    decreases browsers.len() - n,
{
    if n < browsers.len() {
        assert(browsers.take(n + 1).drop_last() =~= browsers.take(n));
        lemma_port_of_prefix(browsers, session_id, principal, n + 1);
    } else {
        assert(browsers.take(n) =~= browsers);
    }
}

proof fn lemma_lease_index_prefix(
    leases: Seq<LeaseView>,
    session_id: Seq<char>,
    principal: Seq<char>,
    n: int,
)
    requires
        0 <= n <= leases.len(),
        lease_index(leases.take(n), session_id, principal) is Some,
    ensures
        lease_index(leases, session_id, principal) == lease_index(
            leases.take(n),
            session_id,
            principal,
        ),
    decreases leases.len() - n,
{
    if n < leases.len() {
        assert(leases.take(n + 1).drop_last() =~= leases.take(n));
        lemma_lease_index_prefix(leases, session_id, principal, n + 1);
    } else {
        assert(leases.take(n) =~= leases);
    }
}

/// What the leases that a filter leaves are.
proof fn lemma_kept_leases(leases: Seq<LeaseView>, filter: FilterView)
    ensures
        forall|i: int|
            0 <= i < kept_leases(leases, filter).len() ==> !filter.takes(
                #[trigger] kept_leases(leases, filter)[i],
            ) && leases.contains(kept_leases(leases, filter)[i]),
        kept_leases(leases, filter).len() + taken_leases(leases, filter).len() == leases.len(),
    decreases leases.len(),
{
    if leases.len() > 0 {
        let rest = leases.drop_last();
        lemma_kept_leases(rest, filter);
        let kept = kept_leases(leases, filter);
        assert forall|i: int| 0 <= i < kept.len() implies !filter.takes(#[trigger] kept[i])
            && leases.contains(kept[i]) by {
            if i < kept_leases(rest, filter).len() {
                let l = kept_leases(rest, filter)[i];
                assert(kept[i] == l);
                assert(rest.contains(l));
                let k = choose|k: int| 0 <= k < rest.len() && rest[k] == l;
                assert(leases[k] == l);
            } else {
                assert(kept[i] == leases[leases.len() - 1]);
            }
        }
    }
}

proof fn lemma_remaining_wf(browsers: Seq<BrowserView>, filter: FilterView)
    requires
        table_wf(browsers),
    ensures
        table_wf(remaining(browsers, filter)),
    decreases browsers.len(),
{
    if browsers.len() > 0 {
        let rest = browsers.drop_last();
        assert forall|i: int| 0 <= i < rest.len() implies (#[trigger] rest[i]).wf() by {
            assert(rest[i] == browsers[i]);
        }
        lemma_remaining_wf(rest, filter);
        let last = browsers.last();
        assert(browsers[browsers.len() - 1].wf());
        lemma_kept_leases(last.leases, filter);
        let kept = kept_leases(last.leases, filter);
        assert forall|i: int| 0 <= i < kept.len() implies (#[trigger] kept[i]).principal
            == last.key.principal by {
            let l = kept[i];
            assert(last.leases.contains(l));
            let k = choose|k: int| 0 <= k < last.leases.len() && last.leases[k] == l;
            assert(last.leases[k].principal == last.key.principal);
        }
        let all = remaining(browsers, filter);
        assert forall|i: int| 0 <= i < all.len() implies (#[trigger] all[i]).wf() by {
            if i < remaining(rest, filter).len() {
                assert(all[i] == remaining(rest, filter)[i]);
            }
        }
    }
}

proof fn lemma_outside_wf(browsers: Seq<BrowserView>, namespace: Option<Seq<char>>)
    requires
        table_wf(browsers),
    ensures
        table_wf(outside(browsers, namespace)),
    decreases browsers.len(),
{
    if browsers.len() > 0 {
        let rest = browsers.drop_last();
        assert forall|i: int| 0 <= i < rest.len() implies (#[trigger] rest[i]).wf() by {
            assert(rest[i] == browsers[i]);
        }
        lemma_outside_wf(rest, namespace);
        let all = outside(browsers, namespace);
        assert(browsers[browsers.len() - 1].wf());
        assert forall|i: int| 0 <= i < all.len() implies (#[trigger] all[i]).wf() by {
            if i < outside(rest, namespace).len() {
                assert(all[i] == outside(rest, namespace)[i]);
            }
        }
    }
}

// ---------------------------------------------------------------------------
// The pace of browser starts
// ---------------------------------------------------------------------------

/// How long a start counts against the limit, in nanoseconds.
pub const ATTEMPT_WINDOW: u64 = 600_000_000_000;

/// How many starts a key may have within the window.
pub const MAX_ATTEMPTS: usize = 3;

/// The starts of one key: when they were tried, and how long to wait after
/// failures. Times are nanoseconds of a monotonic clock.
#[derive(Debug)]
pub struct StartControl {
    pub attempts: Vec<u64>,
    pub consecutive_failures: u64,
    pub retry_at: Option<u128>,
}

/// A start control, by the views of its parts.
#[verifier::ext_equal]
pub struct ControlView {
    pub attempts: Seq<u64>,
    pub consecutive_failures: u64,
    pub retry_at: Option<u128>,
}

impl View for StartControl {
    type V = ControlView;

    open spec fn view(&self) -> ControlView {
        ControlView {
            attempts: self.attempts@,
            consecutive_failures: self.consecutive_failures,
            retry_at: self.retry_at,
        }
    }
}

/// An attempt still counts at `now`.
pub open spec fn counts(attempt: u64, now: u64) -> bool {
    now - attempt < ATTEMPT_WINDOW
}

/// The attempts that still count at `now`.
pub open spec fn recent(attempts: Seq<u64>, now: u64) -> Seq<u64>
    decreases attempts.len(),
{
    if attempts.len() == 0 {
        seq![]
    } else if counts(attempts.last(), now) {
        recent(attempts.drop_last(), now).push(attempts.last())
    } else {
        recent(attempts.drop_last(), now)
    }
}

/// The pause after a number of failures in a row, in seconds.
pub open spec fn pause_secs(failures: u64) -> nat {
    if failures == 1 {
        2
    } else if failures == 2 {
        5
    } else {
        15
    }
}

impl ControlView {
    /// A key that was never started.
    pub open spec fn fresh() -> ControlView {
        ControlView { attempts: seq![], consecutive_failures: 0, retry_at: None }
    }

    /// The control without the attempts that no longer count.
    pub open spec fn pruned(self, now: u64) -> ControlView {
        ControlView { attempts: recent(self.attempts, now), ..self }
    }

    /// A start is allowed at `now`: fewer than three starts count, and no
    /// pause is running.
    pub open spec fn admits(self, now: u64) -> bool {
        &&& recent(self.attempts, now).len() < MAX_ATTEMPTS
        &&& match self.retry_at {
            Some(retry) => retry <= now,
            None => true,
        }
    }

    /// The control after a start was tried.
    pub open spec fn attempted(self, now: u64) -> ControlView {
        ControlView { attempts: recent(self.attempts, now).push(now), ..self }
    }

    /// The control after a start succeeded.
    pub open spec fn succeeded(self) -> ControlView {
        ControlView { consecutive_failures: 0, retry_at: None, ..self }
    }

    /// The control after a start failed.
    pub open spec fn failed(self, now: u64) -> ControlView {
        let failures = if self.consecutive_failures < u64::MAX {
            (self.consecutive_failures + 1) as u64
        } else {
            self.consecutive_failures
        };
        ControlView {
            consecutive_failures: failures,
            retry_at: Some((now + pause_secs(failures) * 1_000_000_000) as u128),
            ..self
        }
    }
}

impl StartControl {
    pub fn new() -> (control: Self)
        ensures
            control@ == ControlView::fresh(),
    {
        let control = Self { attempts: Vec::new(), consecutive_failures: 0, retry_at: None };
        assert(control@ =~= ControlView::fresh());
        control
    }

    /// Forgets the attempts that no longer count.
    pub fn prune_attempts(&mut self, now: u64)
        ensures
            final(self)@ == old(self)@.pruned(now),
    {
        let ghost all = self.attempts@;
        let mut kept: Vec<u64> = Vec::new();
        let mut i: usize = 0;
        assert(kept@ =~= recent(all.take(0), now));
        while i < self.attempts.len()
            invariant
                i <= self.attempts@.len(),
                all == self.attempts@,
                kept@ == recent(all.take(i as int), now),
            decreases self.attempts@.len() - i,
        {
            assert(all.take(i + 1).drop_last() =~= all.take(i as int));
            let attempt: u64 = self.attempts[i];
            if now < attempt || now - attempt < ATTEMPT_WINDOW {
                kept.push(attempt);
            }
            i += 1;
        }
        assert(all.take(i as int) =~= all);
        self.attempts = kept;
    }

    /// Tells whether a start is allowed, and forgets what no longer counts.
    pub fn may_start(&mut self, now: u64) -> (r: bool)
        ensures
            final(self)@ == old(self)@.pruned(now),
            r == old(self)@.admits(now),
    {
        self.prune_attempts(now);
        if self.attempts.len() >= MAX_ATTEMPTS {
            return false;
        }
        match self.retry_at {
            Some(retry) => retry <= now as u128,
            None => true,
        }
    }

    /// Records that a start is tried.
    pub fn record_attempt(&mut self, now: u64)
        ensures
            final(self)@ == old(self)@.attempted(now),
    {
        self.prune_attempts(now);
        self.attempts.push(now);
    }

    /// Records that a start succeeded.
    pub fn record_success(&mut self)
        ensures
            final(self)@ == old(self)@.succeeded(),
    {
        self.consecutive_failures = 0;
        self.retry_at = None;
    }

    /// Records that a start failed.
    pub fn record_failure(&mut self, now: u64)
        ensures
            final(self)@ == old(self)@.failed(now),
    {
        if self.consecutive_failures < u64::MAX {
            self.consecutive_failures = self.consecutive_failures + 1;
        }
        let delay: u128 = if self.consecutive_failures == 1 {
            2
        } else if self.consecutive_failures == 2 {
            5
        } else {
            15
        };
        self.retry_at = Some(now as u128 + delay * 1_000_000_000);
    }
}

// ---------------------------------------------------------------------------
// Laws
// ---------------------------------------------------------------------------

proof fn lemma_recent_count(attempts: Seq<u64>, now: u64, chosen: Set<int>)
    requires
        forall|i: int| chosen.contains(i) ==> 0 <= i < attempts.len() && counts(attempts[i], now),
        chosen.finite(),
    ensures
        chosen.len() <= recent(attempts, now).len(),
    decreases attempts.len(),
{
    if attempts.len() == 0 {
        assert(chosen =~= Set::<int>::empty());
    } else {
        let last = attempts.len() - 1;
        let rest = chosen.remove(last);
        assert forall|i: int| rest.contains(i) implies 0 <= i < attempts.drop_last().len()
            && counts(attempts.drop_last()[i], now) by {
            assert(attempts.drop_last()[i] == attempts[i]);
        }
        lemma_recent_count(attempts.drop_last(), now, rest);
    }
}

/// No key is started a fourth time within ten minutes: while three starts
/// count, none is admitted.
pub proof fn law_three_starts_in_ten_minutes(
    control: ControlView,
    i: int,
    j: int,
    k: int,
    now: u64,
)
    requires
        0 <= i < j < k < control.attempts.len(),
        now - control.attempts[i] < ATTEMPT_WINDOW,
        now - control.attempts[j] < ATTEMPT_WINDOW,
        now - control.attempts[k] < ATTEMPT_WINDOW,
    ensures
        !control.admits(now),
{
    let chosen = Set::<int>::empty().insert(i).insert(j).insert(k);
    assert(chosen.len() == 3);
    lemma_recent_count(control.attempts, now, chosen);
}

/// After a failure no start is admitted before the pause is over, and the
/// pauses are 2, 5 and then 15 seconds.
pub proof fn law_failures_pause_starts(control: ControlView, failed_at: u64, now: u64)
    requires
        now < failed_at + pause_secs(control.failed(failed_at).consecutive_failures)
            * 1_000_000_000,
    ensures
        !control.failed(failed_at).admits(now),
        control.consecutive_failures == 0 ==> pause_secs(
            control.failed(failed_at).consecutive_failures,
        ) == 2,
        control.consecutive_failures == 1 ==> pause_secs(
            control.failed(failed_at).consecutive_failures,
        ) == 5,
        control.consecutive_failures >= 2 ==> pause_secs(
            control.failed(failed_at).consecutive_failures,
        ) == 15,
{
}

/// A success ends the pause and the count of failures.
pub proof fn law_success_ends_pause(control: ControlView, now: u64)
    ensures
        control.succeeded().consecutive_failures == 0,
        control.succeeded().admits(now) == (recent(control.attempts, now).len() < MAX_ATTEMPTS),
{
}

/// What a filter takes is gone: no lease that is left is one that it takes.
pub proof fn law_taken_leases_are_gone(
    browsers: Seq<BrowserView>,
    filter: FilterView,
    i: int,
    j: int,
)
    requires
        0 <= i < remaining(browsers, filter).len(),
        0 <= j < remaining(browsers, filter)[i].leases.len(),
    ensures
        !filter.takes(remaining(browsers, filter)[i].leases[j]),
    decreases browsers.len(),
{
    if browsers.len() > 0 {
        let rest = browsers.drop_last();
        if i < remaining(rest, filter).len() {
            assert(remaining(browsers, filter)[i] == remaining(rest, filter)[i]);
            law_taken_leases_are_gone(rest, filter, i, j);
        } else {
            lemma_kept_leases(browsers.last().leases, filter);
        }
    }
}

/// No lease is lost or made up: each is either left or among the removals.
pub proof fn law_removals_are_counted(browsers: Seq<BrowserView>, filter: FilterView)
    ensures
        lease_count(remaining(browsers, filter)) + removals(browsers, filter).len() == lease_count(
            browsers,
        ),
    decreases browsers.len(),
{
    if browsers.len() > 0 {
        let rest = browsers.drop_last();
        law_removals_are_counted(rest, filter);
        lemma_kept_leases(browsers.last().leases, filter);
        let kept = kept_leases(browsers.last().leases, filter);
        if kept.len() > 0 {
            assert(remaining(browsers, filter).drop_last() =~= remaining(rest, filter));
        }
    }
}

/// Where a port is found, there is a lease of the session and the principal.
proof fn lemma_lease_index(leases: Seq<LeaseView>, session_id: Seq<char>, principal: Seq<char>)
    ensures
        match lease_index(leases, session_id, principal) {
            Some(i) => 0 <= i < leases.len() && leases[i].session_id == session_id
                && leases[i].principal == principal,
            None => forall|i: int|
                0 <= i < leases.len() ==> !((#[trigger] leases[i]).session_id == session_id
                    && leases[i].principal == principal),
        },
    decreases leases.len(),
{
    if leases.len() > 0 {
        lemma_lease_index(leases.drop_last(), session_id, principal);
        assert forall|i: int| 0 <= i < leases.len() - 1 implies #[trigger] leases[i]
            == leases.drop_last()[i] by {}
    }
}

proof fn lemma_port_of(browsers: Seq<BrowserView>, session_id: Seq<char>, principal: Seq<char>)
    ensures
        match port_of(browsers, session_id, principal) {
            Some(port) => exists|i: int|
                0 <= i < browsers.len() && (#[trigger] browsers[i]).cdp_port == port && lease_index(
                    browsers[i].leases,
                    session_id,
                    principal,
                ) is Some,
            None => forall|i: int|
                0 <= i < browsers.len() ==> lease_index(
                    (#[trigger] browsers[i]).leases,
                    session_id,
                    principal,
                ) is None,
        },
    decreases browsers.len(),
{
    if browsers.len() > 0 {
        let rest = browsers.drop_last();
        lemma_port_of(rest, session_id, principal);
        assert forall|i: int| 0 <= i < rest.len() implies #[trigger] browsers[i] == rest[i] by {}
        match port_of(rest, session_id, principal) {
            Some(port) => {
                let i = choose|i: int|
                    0 <= i < rest.len() && (#[trigger] rest[i]).cdp_port == port && lease_index(
                        rest[i].leases,
                        session_id,
                        principal,
                    ) is Some;
                assert(browsers[i].cdp_port == port);
            },
            None => {
                let n = browsers.len() - 1;
                assert(browsers[n] == browsers.last());
            },
        }
    }
}

/// After a logout, and after the leases of a principal were taken back, the
/// session has no port any more.
pub proof fn law_taken_session_has_no_port(
    browsers: Seq<BrowserView>,
    session_id: Seq<char>,
    principal: Seq<char>,
)
    ensures
        port_of(
            remaining(browsers, FilterView::Session(session_id, principal)),
            session_id,
            principal,
        ) is None,
        port_of(remaining(browsers, FilterView::Principal(principal)), session_id, principal) is None,
{
    lemma_no_port_after(
        browsers,
        FilterView::Session(session_id, principal),
        session_id,
        principal,
    );
    lemma_no_port_after(browsers, FilterView::Principal(principal), session_id, principal);
}

proof fn lemma_no_port_after(
    browsers: Seq<BrowserView>,
    filter: FilterView,
    session_id: Seq<char>,
    principal: Seq<char>,
)
    requires
        forall|l: LeaseView|
            l.session_id == session_id && l.principal == principal ==> #[trigger] filter.takes(l),
    ensures
        port_of(remaining(browsers, filter), session_id, principal) is None,
{
    let left = remaining(browsers, filter);
    lemma_port_of(left, session_id, principal);
    match port_of(left, session_id, principal) {
        Some(port) => {
            let i = choose|i: int|
                0 <= i < left.len() && (#[trigger] left[i]).cdp_port == port && lease_index(
                    left[i].leases,
                    session_id,
                    principal,
                ) is Some;
            lemma_lease_index(left[i].leases, session_id, principal);
            let j = lease_index(left[i].leases, session_id, principal)->0;
            law_taken_leases_are_gone(browsers, filter, i, j);
            assert(filter.takes(left[i].leases[j]));
        },
        None => {},
    }
}

proof fn lemma_kept_lease_index(
    leases: Seq<LeaseView>,
    filter: FilterView,
    session_id: Seq<char>,
    principal: Seq<char>,
)
    requires
        forall|l: LeaseView|
            l.session_id == session_id && l.principal == principal ==> !#[trigger] filter.takes(l),
    ensures
        lease_index(kept_leases(leases, filter), session_id, principal) is Some <==> lease_index(
            leases,
            session_id,
            principal,
        ) is Some,
    decreases leases.len(),
{
    if leases.len() > 0 {
        let rest = leases.drop_last();
        lemma_kept_lease_index(rest, filter, session_id, principal);
        if !filter.takes(leases.last()) {
            let kept = kept_leases(leases, filter);
            assert(kept.drop_last() =~= kept_leases(rest, filter));
        }
    }
}

/// Sessions that a filter does not take keep their ports.
pub proof fn law_other_sessions_keep_their_ports(
    browsers: Seq<BrowserView>,
    filter: FilterView,
    session_id: Seq<char>,
    principal: Seq<char>,
)
    requires
        forall|l: LeaseView|
            l.session_id == session_id && l.principal == principal ==> !#[trigger] filter.takes(l),
    ensures
        port_of(remaining(browsers, filter), session_id, principal) == port_of(
            browsers,
            session_id,
            principal,
        ),
    decreases browsers.len(),
{
    if browsers.len() > 0 {
        let rest = browsers.drop_last();
        let last = browsers.last();
        law_other_sessions_keep_their_ports(rest, filter, session_id, principal);
        lemma_kept_lease_index(last.leases, filter, session_id, principal);
        let kept = kept_leases(last.leases, filter);
        if kept.len() > 0 {
            let all = remaining(browsers, filter);
            assert(all.drop_last() =~= remaining(rest, filter));
        }
    }
}

/// After a namespace was locked no browser of it is left, and what was
/// drained is exactly the rest.
pub proof fn law_drain_splits_the_table(
    browsers: Seq<BrowserView>,
    namespace: Option<Seq<char>>,
)
    ensures
        forall|i: int|
            0 <= i < outside(browsers, namespace).len() ==> !in_namespace(
                #[trigger] outside(browsers, namespace)[i],
                namespace,
            ),
        forall|i: int|
            0 <= i < inside(browsers, namespace).len() ==> in_namespace(
                #[trigger] inside(browsers, namespace)[i],
                namespace,
            ),
        inside(browsers, namespace).len() + outside(browsers, namespace).len() == browsers.len(),
        lease_count(inside(browsers, namespace)) + lease_count(outside(browsers, namespace))
            == lease_count(browsers),
    decreases browsers.len(),
{
    if browsers.len() > 0 {
        let rest = browsers.drop_last();
        law_drain_splits_the_table(rest, namespace);
        if in_namespace(browsers.last(), namespace) {
            assert(inside(browsers, namespace).drop_last() =~= inside(rest, namespace));
        } else {
            assert(outside(browsers, namespace).drop_last() =~= outside(rest, namespace));
        }
    }
}

/// A login is only ever lent a browser of its own principal and credential:
/// the browser that is shared under a key has that key, and all its leases
/// belong to the principal of the key.
pub proof fn law_shared_browser_is_ones_own(browsers: Seq<BrowserView>, key: KeyView)
    requires
        table_wf(browsers),
        shared_index(browsers, key) is Some,
    ensures
        ({
            let browser = browsers[shared_index(browsers, key)->0];
            &&& browser.key == key
            &&& !browser.exclusive
            &&& forall|j: int|
                0 <= j < browser.leases.len() ==> (#[trigger] browser.leases[j]).principal
                    == key.principal
        }),
{
    lemma_shared_index(browsers, key);
    let i = shared_index(browsers, key)->0;
    assert(browsers[i].wf());
}

/// A browser that is started to be shared is the one that is found next, and
/// an exclusive one is never found.
pub proof fn law_started_browser_is_shared(browsers: Seq<BrowserView>, started: BrowserView)
    ensures
        !started.exclusive ==> shared_id(browsers.push(started), started.key) == Some(started.id),
        started.exclusive ==> forall|key: KeyView| #[trigger]
            shared_index(browsers.push(started), key) == shared_index(browsers, key),
{
    assert(browsers.push(started).drop_last() =~= browsers);
}

/// A session that was just started has the port of its browser.
pub proof fn law_started_session_has_a_port(
    browsers: Seq<BrowserView>,
    id: Seq<char>,
    key: KeyView,
    cdp_port: u16,
    endpoint: Seq<char>,
    exclusive: bool,
    session_id: Seq<char>,
    target_id: Seq<char>,
    expires_at: nat,
)
    requires
        !session_exists(browsers, session_id),
    ensures
        port_of(
            browsers.push(
                started_browser(
                    id,
                    key,
                    cdp_port,
                    endpoint,
                    exclusive,
                    session_id,
                    target_id,
                    expires_at,
                ),
            ),
            session_id,
            key.principal,
        ) == Some(cdp_port),
{
    let started = started_browser(
        id,
        key,
        cdp_port,
        endpoint,
        exclusive,
        session_id,
        target_id,
        expires_at,
    );
    assert(browsers.push(started).drop_last() =~= browsers);
    lemma_port_of(browsers, session_id, key.principal);
    match port_of(browsers, session_id, key.principal) {
        Some(port) => {
            let i = choose|i: int|
                0 <= i < browsers.len() && (#[trigger] browsers[i]).cdp_port == port && lease_index(
                    browsers[i].leases,
                    session_id,
                    key.principal,
                ) is Some;
            lemma_lease_index(browsers[i].leases, session_id, key.principal);
            let j = lease_index(browsers[i].leases, session_id, key.principal)->0;
            assert(browsers[i].leases[j].session_id == session_id);
        },
        None => {},
    }
    assert(started.leases.drop_last() =~= seq![]);
    lemma_lease_index(started.leases, session_id, key.principal);
    assert(started.leases[0].session_id == session_id);
}

proof fn lemma_all_kept(leases: Seq<LeaseView>, filter: FilterView)
    requires
        forall|j: int| 0 <= j < leases.len() ==> !filter.takes(#[trigger] leases[j]),
    ensures
        kept_leases(leases, filter) == leases,
        taken_leases(leases, filter).len() == 0,
    decreases leases.len(),
{
    if leases.len() > 0 {
        lemma_all_kept(leases.drop_last(), filter);
        assert(!filter.takes(leases[leases.len() - 1]));
        assert(leases.drop_last().push(leases.last()) =~= leases);
    }
}

/// A table of which nothing is taken stays as it is.
pub proof fn lemma_untouched(browsers: Seq<BrowserView>, filter: FilterView)
    requires
        table_wf(browsers),
        forall|i: int, j: int|
            0 <= i < browsers.len() && 0 <= j < browsers[i].leases.len() ==> !filter.takes(
                #[trigger] browsers[i].leases[j],
            ),
    ensures
        remaining(browsers, filter) == browsers,
    decreases browsers.len(),
{
    if browsers.len() > 0 {
        let rest = browsers.drop_last();
        let n = browsers.len() - 1;
        assert forall|i: int| 0 <= i < rest.len() implies (#[trigger] rest[i]).wf() by {
            assert(rest[i] == browsers[i]);
        }
        assert forall|i: int, j: int|
            0 <= i < rest.len() && 0 <= j < rest[i].leases.len() implies !filter.takes(
            #[trigger] rest[i].leases[j],
        ) by {
            assert(rest[i].leases[j] == browsers[i].leases[j]);
        }
        lemma_untouched(rest, filter);
        assert(browsers[n].wf());
        assert forall|j: int| 0 <= j < browsers[n].leases.len() implies !filter.takes(
            #[trigger] browsers[n].leases[j],
        ) by {}
        lemma_all_kept(browsers[n].leases, filter);
        assert(rest.push(browsers[n]) =~= browsers);
    }
}

/// A table of which nothing is taken but the newest lease of one browser is
/// left as it was before that lease.
pub proof fn lemma_untouched_but_last(
    browsers: Seq<BrowserView>,
    i: int,
    lease: LeaseView,
    filter: FilterView,
)
    requires
        table_wf(browsers),
        0 <= i < browsers.len(),
        filter.takes(lease),
        forall|k: int, j: int|
            0 <= k < browsers.len() && 0 <= j < browsers[k].leases.len() ==> !filter.takes(
                #[trigger] browsers[k].leases[j],
            ),
    ensures
        remaining(browsers.update(i, browsers[i].with_lease(lease)), filter) == browsers,
    decreases browsers.len(),
{
    let lent = browsers.update(i, browsers[i].with_lease(lease));
    let rest = browsers.drop_last();
    let n = browsers.len() - 1;
    assert forall|k: int| 0 <= k < rest.len() implies (#[trigger] rest[k]).wf() by {
        assert(rest[k] == browsers[k]);
    }
    assert forall|k: int, j: int|
        0 <= k < rest.len() && 0 <= j < rest[k].leases.len() implies !filter.takes(
        #[trigger] rest[k].leases[j],
    ) by {
        assert(rest[k].leases[j] == browsers[k].leases[j]);
    }
    assert(browsers[n].wf());
    assert forall|j: int| 0 <= j < browsers[n].leases.len() implies !filter.takes(
        #[trigger] browsers[n].leases[j],
    ) by {}
    lemma_all_kept(browsers[n].leases, filter);
    if i == n {
        lemma_untouched(rest, filter);
        assert(lent.drop_last() =~= rest);
        assert(lent.last().leases.drop_last() =~= browsers[n].leases);
        assert(lent.last().leases.last() == lease);
    } else {
        lemma_untouched_but_last(rest, i, lease, filter);
        assert(lent.drop_last() =~= rest.update(i, rest[i].with_lease(lease)));
    }
    assert(rest.push(browsers[n]) =~= browsers);
}

/// A lease leads to a port.
pub proof fn lemma_leased_port(browsers: Seq<BrowserView>, i: int, j: int)
    requires
        0 <= i < browsers.len(),
        0 <= j < browsers[i].leases.len(),
    ensures
        port_of(
            browsers,
            browsers[i].leases[j].session_id,
            browsers[i].leases[j].principal,
        ) is Some,
{
    let lease = browsers[i].leases[j];
    lemma_port_of(browsers, lease.session_id, lease.principal);
    lemma_lease_index(browsers[i].leases, lease.session_id, lease.principal);
}

/// The latest browser that may be shared is the one that is found.
pub proof fn lemma_latest_shared(browsers: Seq<BrowserView>, key: KeyView, i: int)
    requires
        0 <= i < browsers.len(),
        !browsers[i].exclusive,
        browsers[i].key == key,
        forall|j: int|
            i < j < browsers.len() ==> (#[trigger] browsers[j]).exclusive || browsers[j].key != key,
    ensures
        shared_index(browsers, key) == Some(i),
    decreases browsers.len(),
{
    let n = browsers.len() - 1;
    if i < n {
        assert(browsers[n].exclusive || browsers[n].key != key);
        let rest = browsers.drop_last();
        assert forall|j: int| i < j < rest.len() implies (#[trigger] rest[j]).exclusive
            || rest[j].key != key by {
            assert(rest[j] == browsers[j]);
        }
        lemma_latest_shared(rest, key, i);
    }
}

/// What a filter means for a lease, said in full.
pub open spec fn is_meant(filter: LeaseFilter, lease: LeaseView) -> bool {
    match filter {
        LeaseFilter::Expired(now) => lease.expires_at <= now,
        LeaseFilter::Principal(principal) => lease.principal == principal@,
        LeaseFilter::Session(session_id, principal) => lease.session_id == session_id@
            && lease.principal == principal@,
    }
}

proof fn lemma_taken_and_kept(leases: Seq<LeaseView>, filter: FilterView, j: int)
    requires
        0 <= j < leases.len(),
    ensures
        filter.takes(leases[j]) ==> taken_leases(leases, filter).contains(leases[j]),
        !filter.takes(leases[j]) ==> kept_leases(leases, filter).contains(leases[j]),
    decreases leases.len(),
{
    let taken = taken_leases(leases, filter);
    let kept = kept_leases(leases, filter);
    if j == leases.len() - 1 {
        if filter.takes(leases[j]) {
            assert(taken[taken.len() - 1] == leases[j]);
        } else {
            assert(kept[kept.len() - 1] == leases[j]);
        }
    } else {
        let rest = leases.drop_last();
        lemma_taken_and_kept(rest, filter, j);
        if filter.takes(leases[j]) {
            let before = taken_leases(rest, filter);
            let k = choose|k: int| 0 <= k < before.len() && before[k] == leases[j];
            assert(taken[k] == leases[j]);
        } else {
            let before = kept_leases(rest, filter);
            let k = choose|k: int| 0 <= k < before.len() && before[k] == leases[j];
            assert(kept[k] == leases[j]);
        }
    }
}

proof fn lemma_lease_is_placed(browsers: Seq<BrowserView>, filter: FilterView, i: int, j: int)
    requires
        0 <= i < browsers.len(),
        0 <= j < browsers[i].leases.len(),
    ensures
        filter.takes(browsers[i].leases[j]) ==> exists|k: int|
            0 <= k < removals(browsers, filter).len() && is_removal_of(
                #[trigger] removals(browsers, filter)[k],
                browsers[i],
                browsers[i].leases[j],
            ),
        !filter.takes(browsers[i].leases[j]) ==> exists|a: int, b: int|
            0 <= a < remaining(browsers, filter).len() && 0 <= b < remaining(
                browsers,
                filter,
            )[a].leases.len() && is_same_browser(remaining(browsers, filter)[a], browsers[i])
                && #[trigger] remaining(browsers, filter)[a].leases[b] == browsers[i].leases[j],
    decreases browsers.len(),
{
    let rest = browsers.drop_last();
    let lease = browsers[i].leases[j];
    let gone = removals(browsers, filter);
    let left = remaining(browsers, filter);
    let earlier = removals(rest, filter);
    if i == browsers.len() - 1 {
        lemma_taken_and_kept(browsers[i].leases, filter, j);
        if filter.takes(lease) {
            let taken = taken_leases(browsers[i].leases, filter);
            let k = choose|k: int| 0 <= k < taken.len() && taken[k] == lease;
            assert(gone[earlier.len() + k] == browser_removals(browsers[i], filter)[k]);
            assert(is_removal_of(gone[earlier.len() + k], browsers[i], lease));
        } else {
            let kept = kept_leases(browsers[i].leases, filter);
            let k = choose|k: int| 0 <= k < kept.len() && kept[k] == lease;
            let a = left.len() - 1;
            assert(left[a].leases[k] == lease);
            assert(is_same_browser(left[a], browsers[i]));
        }
    } else {
        lemma_lease_is_placed(rest, filter, i, j);
        assert(rest[i] == browsers[i]);
        if filter.takes(lease) {
            let k = choose|k: int|
                0 <= k < earlier.len() && is_removal_of(
                    #[trigger] earlier[k],
                    browsers[i],
                    lease,
                );
            assert(gone[k] == earlier[k]);
        } else {
            let before = remaining(rest, filter);
            let (a, b) = choose|a: int, b: int|
                0 <= a < before.len() && 0 <= b < before[a].leases.len() && is_same_browser(
                    before[a],
                    browsers[i],
                ) && #[trigger] before[a].leases[b] == lease;
            assert(left[a] == before[a]);
            assert(left[a].leases[b] == lease);
        }
    }
}

/// A removal reports a lease of a browser.
pub open spec fn is_removal_of(
    removed: RemovedView,
    browser: BrowserView,
    lease: LeaseView,
) -> bool {
    &&& removed.session_id == lease.session_id
    &&& removed.target_id == lease.target_id
    &&& removed.browser_id == browser.id
    &&& removed.namespace == browser.key.namespace
}

/// Two browsers are the same but for their leases.
pub open spec fn is_same_browser(a: BrowserView, b: BrowserView) -> bool {
    &&& a.id == b.id
    &&& a.key == b.key
    &&& a.cdp_port == b.cdp_port
    &&& a.endpoint == b.endpoint
    &&& a.exclusive == b.exclusive
}

/// Every lease that is meant is taken and reported with its session, its tab,
/// its browser and its namespace; every other lease stays, on the same browser.
pub proof fn law_exactly_what_is_meant_is_taken(
    table: &mut SessionTable,
    filter: &LeaseFilter,
    removed: Vec<Removed>,
    i: int,
    j: int,
)
    requires
        call_ensures(SessionTable::take, (table, filter), removed),
        0 <= i < old(table)@.len(),
        0 <= j < old(table)@[i].leases.len(),
    ensures
        is_meant(*filter, old(table)@[i].leases[j]) ==> exists|k: int|
            0 <= k < removed@.len() && (#[trigger] removed@[k]).session_id@
                == old(table)@[i].leases[j].session_id && removed@[k].target_id@
                == old(table)@[i].leases[j].target_id && removed@[k].browser_id@
                == old(table)@[i].id && removed@[k].namespace@ == old(table)@[i].key.namespace,
        !is_meant(*filter, old(table)@[i].leases[j]) ==> exists|a: int, b: int|
            0 <= a < final(table)@.len() && 0 <= b < final(table)@[a].leases.len()
                && final(table)@[a].id == old(table)@[i].id && final(table)@[a].key
                == old(table)@[i].key && final(table)@[a].cdp_port == old(table)@[i].cdp_port
                && final(table)@[a].endpoint == old(table)@[i].endpoint
                && final(table)@[a].exclusive == old(table)@[i].exclusive
                && #[trigger] final(table)@[a].leases[b] == old(table)@[i].leases[j],
        forall|a: int, b: int|
            0 <= a < final(table)@.len() && 0 <= b < final(table)@[a].leases.len() ==> !is_meant(
                *filter,
                #[trigger] final(table)@[a].leases[b],
            ),
        lease_count(final(table)@) + removed@.len() == lease_count(old(table)@),
{
    let before = old(table)@;
    let view = filter@;
    lemma_lease_is_placed(before, view, i, j);
    law_removals_are_counted(before, view);
    let gone = removals(before, view);
    assert(removed_views(removed@).len() == removed@.len());
    if is_meant(*filter, before[i].leases[j]) {
        let k = choose|k: int|
            0 <= k < gone.len() && is_removal_of(
                #[trigger] gone[k],
                before[i],
                before[i].leases[j],
            );
        assert(gone[k] == removed@[k]@);
    } else {
        let left = remaining(before, view);
        let (a, b) = choose|a: int, b: int|
            0 <= a < left.len() && 0 <= b < left[a].leases.len() && is_same_browser(
                left[a],
                before[i],
            ) && #[trigger] left[a].leases[b] == before[i].leases[j];
        assert(final(table)@[a].leases[b] == before[i].leases[j]);
    }
    assert forall|a: int, b: int|
        0 <= a < final(table)@.len() && 0 <= b < final(table)@[a].leases.len() implies !is_meant(
        *filter,
        #[trigger] final(table)@[a].leases[b],
    ) by {
        law_taken_leases_are_gone(before, view, a, b);
    }
}

proof fn lemma_last_removal(browsers: Seq<BrowserView>, filter: FilterView, k: int)
    requires
        0 <= k < removals(browsers, filter).len(),
    ensures
        exists|i: int|
            #![trigger browsers[i]]
            {
                &&& 0 <= i < browsers.len()
                &&& removals(browsers, filter)[k].browser_id == browsers[i].id
                &&& removals(browsers, filter)[k].last ==> kept_leases(
                    browsers[i].leases,
                    filter,
                ).len() == 0
            },
    decreases browsers.len(),
{
    let rest = browsers.drop_last();
    let earlier = removals(rest, filter);
    let n = browsers.len() - 1;
    if k < earlier.len() {
        lemma_last_removal(rest, filter, k);
        let i = choose|i: int|
            #![trigger rest[i]]
            {
                &&& 0 <= i < rest.len()
                &&& earlier[k].browser_id == rest[i].id
                &&& earlier[k].last ==> kept_leases(rest[i].leases, filter).len() == 0
            };
        assert(rest[i] == browsers[i]);
        assert(removals(browsers, filter)[k] == earlier[k]);
    } else {
        assert(removals(browsers, filter)[k] == browser_removals(browsers[n], filter)[k
            - earlier.len()]);
        assert(browsers[n] == browsers.last());
    }
}

proof fn lemma_remaining_from(browsers: Seq<BrowserView>, filter: FilterView, a: int)
    requires
        0 <= a < remaining(browsers, filter).len(),
    ensures
        exists|i: int|
            #![trigger browsers[i]]
            0 <= i < browsers.len() && is_same_browser(remaining(browsers, filter)[a], browsers[i])
                && kept_leases(browsers[i].leases, filter).len() > 0,
    decreases browsers.len(),
{
    let rest = browsers.drop_last();
    let before = remaining(rest, filter);
    let n = browsers.len() - 1;
    if a < before.len() {
        lemma_remaining_from(rest, filter, a);
        let i = choose|i: int|
            #![trigger rest[i]]
            0 <= i < rest.len() && is_same_browser(before[a], rest[i]) && kept_leases(
                rest[i].leases,
                filter,
            ).len() > 0;
        assert(rest[i] == browsers[i]);
    } else {
        assert(browsers[n] == browsers.last());
    }
}

/// A removal that is reported as the last of its browser means that the browser
/// is gone, and a browser is only gone with its last lease. Where no id of a
/// browser occurs twice.
pub proof fn law_browsers_end_with_their_last_lease(
    table: &mut SessionTable,
    filter: &LeaseFilter,
    removed: Vec<Removed>,
    k: int,
    a: int,
)
    requires
        call_ensures(SessionTable::take, (table, filter), removed),
        forall|i: int, j: int|
            0 <= i < j < old(table)@.len() ==> (#[trigger] old(table)@[i]).id != (
            #[trigger] old(table)@[j]).id,
        0 <= k < removed@.len(),
        removed@[k].last,
        0 <= a < final(table)@.len(),
    ensures
        final(table)@[a].id != removed@[k].browser_id@,
        final(table)@[a].leases.len() > 0,
{
    let before = old(table)@;
    let view = filter@;
    lemma_last_removal(before, view, k);
    assert(removals(before, view)[k] == removed@[k]@);
    let i = choose|i: int|
        #![trigger before[i]]
        {
            &&& 0 <= i < before.len()
            &&& removals(before, view)[k].browser_id == before[i].id
            &&& removals(before, view)[k].last ==> kept_leases(before[i].leases, view).len() == 0
        };
    lemma_remaining_from(before, view, a);
    let j = choose|j: int|
        #![trigger before[j]]
        0 <= j < before.len() && is_same_browser(remaining(before, view)[a], before[j])
            && kept_leases(before[j].leases, view).len() > 0;
    if i < j {
        assert(before[i].id != before[j].id);
    }
    if j < i {
        assert(before[j].id != before[i].id);
    }
    lemma_kept_some(before, view, a);
}

proof fn lemma_kept_some(browsers: Seq<BrowserView>, filter: FilterView, a: int)
    requires
        0 <= a < remaining(browsers, filter).len(),
    ensures
        remaining(browsers, filter)[a].leases.len() > 0,
    decreases browsers.len(),
{
    let rest = browsers.drop_last();
    if a < remaining(rest, filter).len() {
        lemma_kept_some(rest, filter, a);
    }
}

/// A browser whose leases are all taken is reported to end.
pub proof fn law_ended_browsers_are_reported(
    table: &mut SessionTable,
    filter: &LeaseFilter,
    removed: Vec<Removed>,
    i: int,
)
    requires
        call_ensures(SessionTable::take, (table, filter), removed),
        0 <= i < old(table)@.len(),
        old(table)@[i].leases.len() > 0,
        forall|j: int|
            0 <= j < old(table)@[i].leases.len() ==> is_meant(
                *filter,
                #[trigger] old(table)@[i].leases[j],
            ),
    ensures
        exists|k: int|
            0 <= k < removed@.len() && (#[trigger] removed@[k]).browser_id@ == old(table)@[i].id
                && removed@[k].last,
{
    let before = old(table)@;
    let view = filter@;
    assert forall|j: int| 0 <= j < before[i].leases.len() implies view.takes(
        #[trigger] before[i].leases[j],
    ) by {
        assert(is_meant(*filter, before[i].leases[j]));
    }
    lemma_ended(before, view, i);
    let gone = removals(before, view);
    let k = choose|k: int|
        0 <= k < gone.len() && (#[trigger] gone[k]).browser_id == before[i].id && gone[k].last;
    assert(gone[k] == removed@[k]@);
}

proof fn lemma_ended(browsers: Seq<BrowserView>, filter: FilterView, i: int)
    requires
        0 <= i < browsers.len(),
        browsers[i].leases.len() > 0,
        forall|j: int|
            0 <= j < browsers[i].leases.len() ==> filter.takes(#[trigger] browsers[i].leases[j]),
    ensures
        exists|k: int|
            0 <= k < removals(browsers, filter).len() && (#[trigger] removals(
                browsers,
                filter,
            )[k]).browser_id == browsers[i].id && removals(browsers, filter)[k].last,
    decreases browsers.len(),
{
    let rest = browsers.drop_last();
    let earlier = removals(rest, filter);
    let gone = removals(browsers, filter);
    if i == browsers.len() - 1 {
        let leases = browsers[i].leases;
        lemma_kept_leases(leases, filter);
        if kept_leases(leases, filter).len() > 0 {
            let l = kept_leases(leases, filter)[0];
            assert(leases.contains(l));
            let j = choose|j: int| 0 <= j < leases.len() && leases[j] == l;
            assert(filter.takes(browsers[i].leases[j]));
        }
        let own = browser_removals(browsers[i], filter);
        let k = earlier.len() + own.len() - 1;
        assert(gone[k] == own[own.len() - 1]);
    } else {
        assert(rest[i] == browsers[i]);
        lemma_ended(rest, filter, i);
        let k = choose|k: int|
            0 <= k < earlier.len() && (#[trigger] earlier[k]).browser_id == rest[i].id
                && earlier[k].last;
        assert(gone[k] == earlier[k]);
    }
}

/// There is a lease of a session that belongs to a principal.
pub open spec fn is_leased(
    browsers: Seq<BrowserView>,
    session_id: Seq<char>,
    principal: Seq<char>,
) -> bool {
    exists|i: int, j: int|
        0 <= i < browsers.len() && 0 <= j < browsers[i].leases.len()
            && (#[trigger] browsers[i].leases[j]).session_id == session_id
            && browsers[i].leases[j].principal == principal
}

proof fn lemma_is_leased(browsers: Seq<BrowserView>, session_id: Seq<char>, principal: Seq<char>)
    ensures
        port_of(browsers, session_id, principal) is Some <==> is_leased(
            browsers,
            session_id,
            principal,
        ),
{
    lemma_port_of(browsers, session_id, principal);
    if port_of(browsers, session_id, principal) is Some {
        let port = port_of(browsers, session_id, principal)->0;
        let i = choose|i: int|
            0 <= i < browsers.len() && (#[trigger] browsers[i]).cdp_port == port && lease_index(
                browsers[i].leases,
                session_id,
                principal,
            ) is Some;
        lemma_lease_index(browsers[i].leases, session_id, principal);
        let j = lease_index(browsers[i].leases, session_id, principal)->0;
        assert(browsers[i].leases[j].session_id == session_id);
    }
    if is_leased(browsers, session_id, principal) {
        let (i, j) = choose|i: int, j: int|
            0 <= i < browsers.len() && 0 <= j < browsers[i].leases.len()
                && (#[trigger] browsers[i].leases[j]).session_id == session_id
                && browsers[i].leases[j].principal == principal;
        lemma_leased_port(browsers, i, j);
    }
}

/// A logout ends the leases of the session for their owner and no others. One
/// by somebody else is told apart from one of a session that is not alive, and
/// neither changes anything.
pub proof fn law_logouts_end_ones_own_session(
    table: &mut SessionTable,
    session_id: &str,
    principal: &str,
    outcome: LogoutOutcome,
    other: Seq<char>,
    owner: Seq<char>,
)
    requires
        call_ensures(SessionTable::logout, (table, session_id, principal), outcome),
    ensures
        outcome is Released <==> is_leased(old(table)@, session_id@, principal@),
        outcome is Unknown <==> forall|i: int, j: int|
            0 <= i < old(table)@.len() && 0 <= j < old(table)@[i].leases.len() ==> (
            #[trigger] old(table)@[i].leases[j]).session_id != session_id@,
        !(outcome is Released) ==> final(table)@ == old(table)@,
        !is_leased(final(table)@, session_id@, principal@),
        other != session_id@ || owner != principal@ ==> is_leased(final(table)@, other, owner)
            == is_leased(old(table)@, other, owner),
        outcome matches LogoutOutcome::Released(removed) ==> removed@.len() > 0 && (forall|k: int|
            0 <= k < removed@.len() ==> (#[trigger] removed@[k]).session_id@ == session_id@),
{
    let before = old(table)@;
    let filter = FilterView::Session(session_id@, principal@);
    lemma_is_leased(before, session_id@, principal@);
    lemma_is_leased(final(table)@, session_id@, principal@);
    lemma_is_leased(before, other, owner);
    lemma_is_leased(final(table)@, other, owner);
    law_taken_session_has_no_port(before, session_id@, principal@);
    if is_leased(before, session_id@, principal@) {
        let (i, j) = choose|i: int, j: int|
            0 <= i < before.len() && 0 <= j < before[i].leases.len()
                && (#[trigger] before[i].leases[j]).session_id == session_id@
                && before[i].leases[j].principal == principal@;
        assert(session_exists(before, session_id@));
        lemma_lease_is_placed(before, filter, i, j);
    }
    if other != session_id@ || owner != principal@ {
        law_other_sessions_keep_their_ports(before, filter, other, owner);
    }
    if outcome is Released {
        let removed = outcome->Released_0;
        assert(removed_views(removed@).len() == removed@.len());
        assert forall|k: int| 0 <= k < removed@.len() implies (
        #[trigger] removed@[k]).session_id@ == session_id@ by {
            lemma_removal_is_meant(before, filter, k);
            assert(removals(before, filter)[k] == removed@[k]@);
        }
    }
}

proof fn lemma_taken_leases(leases: Seq<LeaseView>, filter: FilterView, k: int)
    requires
        0 <= k < taken_leases(leases, filter).len(),
    ensures
        filter.takes(taken_leases(leases, filter)[k]),
    decreases leases.len(),
{
    if k < taken_leases(leases.drop_last(), filter).len() {
        lemma_taken_leases(leases.drop_last(), filter, k);
    }
}

proof fn lemma_removal_is_meant(browsers: Seq<BrowserView>, filter: FilterView, k: int)
    requires
        0 <= k < removals(browsers, filter).len(),
        filter is Session,
    ensures
        removals(browsers, filter)[k].session_id == filter->Session_0,
    decreases browsers.len(),
{
    let earlier = removals(browsers.drop_last(), filter);
    if k < earlier.len() {
        lemma_removal_is_meant(browsers.drop_last(), filter, k);
    } else {
        lemma_taken_leases(browsers.last().leases, filter, k - earlier.len());
    }
}

/// A tunnel for a session of a principal leads to the port of a browser that
/// has a lease of that session for that principal, and to nowhere where there
/// is none.
pub proof fn law_ports_are_those_of_leases(
    table: &SessionTable,
    session_id: &str,
    principal: &str,
    port: Option<u16>,
)
    requires
        call_ensures(SessionTable::resolve_port, (table, session_id, principal), port),
    ensures
        match port {
            Some(p) => exists|i: int, j: int|
                0 <= i < table@.len() && 0 <= j < table@[i].leases.len()
                    && (#[trigger] table@[i].leases[j]).session_id == session_id@
                    && table@[i].leases[j].principal == principal@ && table@[i].cdp_port == p,
            None => !is_leased(table@, session_id@, principal@),
        },
{
    lemma_is_leased(table@, session_id@, principal@);
    lemma_port_of(table@, session_id@, principal@);
    if port is Some {
        let i = choose|i: int|
            0 <= i < table@.len() && (#[trigger] table@[i]).cdp_port == port->0 && lease_index(
                table@[i].leases,
                session_id@,
                principal@,
            ) is Some;
        lemma_lease_index(table@[i].leases, session_id@, principal@);
        let j = lease_index(table@[i].leases, session_id@, principal@)->0;
        assert(table@[i].leases[j].session_id == session_id@);
    }
}

/// A login is lent the latest browser that was started for the same principal,
/// namespace and credential and is not exclusive.
pub proof fn law_the_latest_own_browser_is_shared(
    table: &SessionTable,
    key: &BrowserKey,
    found: Option<String>,
)
    requires
        call_ensures(SessionTable::shared_browser, (table, key), found),
    ensures
        match found {
            Some(id) => exists|i: int|
                {
                    &&& 0 <= i < table@.len()
                    &&& (#[trigger] table@[i]).id == id@
                    &&& !table@[i].exclusive
                    &&& table@[i].key.principal == key.principal@
                    &&& table@[i].key.namespace == key.namespace@
                    &&& table@[i].key.cred_id == key.cred_id@
                    &&& forall|j: int|
                        i < j < table@.len() ==> (#[trigger] table@[j]).exclusive
                            || table@[j].key.principal != key.principal@ || table@[j].key.namespace
                            != key.namespace@ || table@[j].key.cred_id != key.cred_id@
                },
            None => forall|i: int|
                0 <= i < table@.len() ==> (#[trigger] table@[i]).exclusive
                    || table@[i].key.principal != key.principal@ || table@[i].key.namespace
                    != key.namespace@ || table@[i].key.cred_id != key.cred_id@,
        },
{
    lemma_shared_index(table@, key@);
    match shared_index(table@, key@) {
        Some(i) => {
            lemma_shared_is_latest(table@, key@);
            assert(table@[i].id == found->0@);
        },
        None => {
            assert forall|i: int| 0 <= i < table@.len() implies (#[trigger] table@[i]).exclusive
                || table@[i].key.principal != key.principal@ || table@[i].key.namespace
                != key.namespace@ || table@[i].key.cred_id != key.cred_id@ by {
                if !table@[i].exclusive && table@[i].key.principal == key.principal@
                    && table@[i].key.namespace == key.namespace@ && table@[i].key.cred_id
                    == key.cred_id@ {
                    assert(table@[i].key =~= key@);
                }
            }
        },
    }
}

proof fn lemma_shared_is_latest(browsers: Seq<BrowserView>, key: KeyView)
    requires
        shared_index(browsers, key) is Some,
    ensures
        forall|j: int|
            shared_index(browsers, key)->0 < j < browsers.len() ==> (
            #[trigger] browsers[j]).exclusive || browsers[j].key != key,
    decreases browsers.len(),
{
    if browsers.last().exclusive || browsers.last().key != key {
        let rest = browsers.drop_last();
        lemma_shared_is_latest(rest, key);
        lemma_shared_index(rest, key);
        assert forall|j: int|
            shared_index(browsers, key)->0 < j < browsers.len() implies (
        #[trigger] browsers[j]).exclusive || browsers[j].key != key by {
            if j < rest.len() {
                assert(rest[j] == browsers[j]);
            }
        }
    }
}

/// Locking a namespace ends its browsers and no others; locking everything ends
/// all of them.
pub proof fn law_locked_namespaces_lose_their_browsers(
    table: &mut SessionTable,
    namespace: &Option<String>,
    drained: Vec<Browser>,
    i: int,
)
    requires
        call_ensures(SessionTable::drain, (table, namespace), drained),
        0 <= i < old(table)@.len(),
    ensures
        ({
            let meant = match *namespace {
                Some(name) => old(table)@[i].key.namespace == name@,
                None => true,
            };
            &&& meant ==> browser_views(drained@).contains(old(table)@[i])
            &&& !meant ==> final(table)@.contains(old(table)@[i])
        }),
        *namespace is None ==> final(table)@.len() == 0,
        *namespace matches Some(name) ==> forall|a: int|
            0 <= a < final(table)@.len() ==> (#[trigger] final(table)@[a]).key.namespace != name@,
        drained@.len() + final(table)@.len() == old(table)@.len(),
{
    let before = old(table)@;
    let name = crate::text::opt_text(*namespace);
    law_drain_splits_the_table(before, name);
    lemma_split(before, name, i);
    assert(browser_views(drained@).len() == drained@.len());
    if name is None {
        if final(table)@.len() > 0 {
            assert(!in_namespace(final(table)@[0], name));
        }
    } else {
        assert forall|a: int| 0 <= a < final(table)@.len() implies (
        #[trigger] final(table)@[a]).key.namespace != name->0 by {
            assert(!in_namespace(outside(before, name)[a], name));
        }
    }
}

proof fn lemma_split(browsers: Seq<BrowserView>, namespace: Option<Seq<char>>, i: int)
    requires
        0 <= i < browsers.len(),
    ensures
        in_namespace(browsers[i], namespace) ==> inside(browsers, namespace).contains(browsers[i]),
        !in_namespace(browsers[i], namespace) ==> outside(browsers, namespace).contains(
            browsers[i],
        ),
    decreases browsers.len(),
{
    let rest = browsers.drop_last();
    let ours = inside(browsers, namespace);
    let theirs = outside(browsers, namespace);
    if i == browsers.len() - 1 {
        if in_namespace(browsers[i], namespace) {
            assert(ours[ours.len() - 1] == browsers[i]);
        } else {
            assert(theirs[theirs.len() - 1] == browsers[i]);
        }
    } else {
        lemma_split(rest, namespace, i);
        assert(rest[i] == browsers[i]);
        if in_namespace(browsers[i], namespace) {
            let before = inside(rest, namespace);
            let k = choose|k: int| 0 <= k < before.len() && before[k] == browsers[i];
            assert(ours[k] == browsers[i]);
        } else {
            let before = outside(rest, namespace);
            let k = choose|k: int| 0 <= k < before.len() && before[k] == browsers[i];
            assert(theirs[k] == browsers[i]);
        }
    }
}

/// An executor that went away takes its own browser with it and no other.
pub proof fn law_only_the_gone_browser_is_removed(
    table: &mut SessionTable,
    browser_id: &str,
    gone: Option<Browser>,
)
    requires
        call_ensures(SessionTable::executor_gone, (table, browser_id), gone),
    ensures
        match gone {
            Some(browser) => browser.id@ == browser_id@ && exists|i: int|
                0 <= i < old(table)@.len() && #[trigger] old(table)@[i] == browser@
                    && final(table)@ == old(table)@.subrange(0, i) + old(table)@.subrange(
                    i + 1,
                    old(table)@.len() as int,
                ),
            None => final(table)@ == old(table)@ && forall|i: int|
                0 <= i < old(table)@.len() ==> (#[trigger] old(table)@[i]).id != browser_id@,
        },
{
    let before = old(table)@;
    lemma_index_of_id(before, browser_id@);
    match index_of_id(before, browser_id@) {
        Some(i) => {
            assert(before[i] == gone->0@);
            assert(before.remove(i) =~= before.subrange(0, i) + before.subrange(
                i + 1,
                before.len() as int,
            ));
        },
        None => {},
    }
}

/// The daemon reports as many browsers as run and as many leases as were lent.
pub proof fn law_counts_are_sums(table: &SessionTable, counted: (usize, u128))
    requires
        call_ensures(SessionTable::counts, (table,), counted),
    ensures
        counted.0 == table@.len(),
        table@.len() == 0 ==> counted.1 == 0,
        table@.len() == 1 ==> counted.1 == table@[0].leases.len(),
        table@.len() > 0 ==> counted.1 == lease_count(table@.drop_last())
            + table@.last().leases.len(),
        table@.len() == 2 ==> counted.1 == table@[0].leases.len() + table@[1].leases.len(),
{
    reveal_with_fuel(lease_count, 3);
}

/// A start is admitted exactly where fewer than three starts of the last ten
/// minutes are known and no pause runs: once those starts are old and the pause
/// is over, the key may start again.
pub proof fn law_starts_are_admitted_again(control: &mut StartControl, now: u64, admitted: bool)
    requires
        call_ensures(StartControl::may_start, (control, now), admitted),
    ensures
        (forall|i: int|
            0 <= i < old(control)@.attempts.len() ==> now - (
            #[trigger] old(control)@.attempts[i]) >= 600_000_000_000) && (
        old(control)@.retry_at matches Some(at) ==> at <= now) ==> admitted,
        old(control)@.attempts.len() < 3 && (old(control)@.retry_at matches Some(at) ==> at <= now)
            ==> admitted,
        (old(control)@.retry_at matches Some(at) && at > now) ==> !admitted,
        final(control)@.retry_at == old(control)@.retry_at,
        final(control)@.consecutive_failures == old(control)@.consecutive_failures,
        forall|i: int|
            0 <= i < old(control)@.attempts.len() && now - (#[trigger] old(control)@.attempts[i])
                < 600_000_000_000 ==> final(control)@.attempts.contains(
                old(control)@.attempts[i],
            ),
{
    let attempts = old(control)@.attempts;
    lemma_recent_bound(attempts, now);
    assert forall|i: int| 0 <= i < attempts.len() && now - (#[trigger] attempts[i])
        < 600_000_000_000 implies recent(attempts, now).contains(attempts[i]) by {
        lemma_recent_keeps(attempts, now, i);
    }
}

proof fn lemma_recent_bound(attempts: Seq<u64>, now: u64)
    ensures
        recent(attempts, now).len() <= attempts.len(),
        (forall|i: int|
            0 <= i < attempts.len() ==> now - (#[trigger] attempts[i]) >= 600_000_000_000)
            ==> recent(attempts, now).len() == 0,
    decreases attempts.len(),
{
    if attempts.len() > 0 {
        let rest = attempts.drop_last();
        lemma_recent_bound(rest, now);
        if forall|i: int|
            0 <= i < attempts.len() ==> now - (#[trigger] attempts[i]) >= 600_000_000_000 {
            assert(attempts[attempts.len() - 1] == attempts.last());
            assert forall|i: int| 0 <= i < rest.len() implies now - (#[trigger] rest[i])
                >= 600_000_000_000 by {
                assert(rest[i] == attempts[i]);
            }
        }
    }
}

proof fn lemma_recent_keeps(attempts: Seq<u64>, now: u64, i: int)
    requires
        0 <= i < attempts.len(),
        counts(attempts[i], now),
    ensures
        recent(attempts, now).contains(attempts[i]),
    decreases attempts.len(),
{
    let kept = recent(attempts, now);
    if i == attempts.len() - 1 {
        assert(kept[kept.len() - 1] == attempts[i]);
    } else {
        lemma_recent_keeps(attempts.drop_last(), now, i);
        let before = recent(attempts.drop_last(), now);
        let j = choose|j: int| 0 <= j < before.len() && before[j] == attempts[i];
        assert(kept[j] == attempts[i]);
    }
}

/// Three starts within ten minutes stop a fourth, whether they succeeded or
/// not; failures in a row make the key wait two, then five, then fifteen
/// seconds, and a success ends the waiting.
pub proof fn law_starts_are_counted(
    control: ControlView,
    first: u64,
    second: u64,
    third: u64,
    now: u64,
)
    requires
        first <= second <= third <= now < first + 600_000_000_000,
    ensures
        !control.attempted(first).attempted(second).attempted(third).admits(now),
        !control.attempted(first).succeeded().attempted(second).succeeded().attempted(
            third,
        ).succeeded().admits(now),
        control.succeeded().failed(now).retry_at == Some((now + 2_000_000_000) as u128),
        control.succeeded().failed(first).failed(now).retry_at == Some(
            (now + 5_000_000_000) as u128,
        ),
        control.succeeded().failed(first).failed(second).failed(now).retry_at == Some(
            (now + 15_000_000_000) as u128,
        ),
        control.failed(first).failed(second).failed(now).retry_at == Some(
            (now + 15_000_000_000) as u128,
        ),
        control.failed(now).succeeded().retry_at is None,
        control.failed(now).attempts == control.attempts,
{
    let one = control.attempted(first);
    let two = one.attempted(second);
    let three = two.attempted(third);
    let n = one.attempts.len();
    assert(one.attempts.last() == first);
    lemma_recent_keeps(one.attempts, second, n - 1);
    lemma_three(control.attempts, first, second, third, now);
}

proof fn lemma_three(attempts: Seq<u64>, first: u64, second: u64, third: u64, now: u64)
    requires
        first <= second <= third <= now < first + 600_000_000_000,
    ensures
        ({
            let one = recent(attempts, first).push(first);
            let two = recent(one, second).push(second);
            let three = recent(two, third).push(third);
            recent(three, now).len() >= 3
        }),
{
    let one = recent(attempts, first).push(first);
    let two = recent(one, second).push(second);
    let three = recent(two, third).push(third);
    assert(one.drop_last() =~= recent(attempts, first));
    assert(two.drop_last() =~= recent(one, second));
    assert(three.drop_last() =~= recent(two, third));
    let a = recent(one, second);
    assert(a == recent(recent(attempts, first), second).push(first));
    let b = recent(two, third);
    assert(b == recent(a, third).push(second));
    assert(a.drop_last() =~= recent(recent(attempts, first), second));
    let c = recent(a, third);
    assert(c.len() > 0 && c.last() == first);
    assert(b.drop_last() =~= c);
    assert(recent(three, now) == recent(b, now).push(third));
    assert(recent(b, now) == recent(c, now).push(second));
    assert(c.drop_last() =~= recent(recent(recent(attempts, first), second), third));
    assert(recent(c, now).len() > 0);
}

/// Where a session of a principal leads.
pub proof fn lemma_port_is_leased(
    browsers: Seq<BrowserView>,
    session_id: Seq<char>,
    principal: Seq<char>,
)
    ensures
        port_of(browsers, session_id, principal) is Some <==> is_leased(
            browsers,
            session_id,
            principal,
        ),
        port_of(browsers, session_id, principal) matches Some(port) ==> exists|i: int, j: int|
            0 <= i < browsers.len() && 0 <= j < browsers[i].leases.len()
                && (#[trigger] browsers[i].leases[j]).session_id == session_id
                && browsers[i].leases[j].principal == principal && browsers[i].cdp_port == port,
{
    lemma_is_leased(browsers, session_id, principal);
    lemma_port_of(browsers, session_id, principal);
    if port_of(browsers, session_id, principal) is Some {
        let port = port_of(browsers, session_id, principal)->0;
        let i = choose|i: int|
            0 <= i < browsers.len() && (#[trigger] browsers[i]).cdp_port == port && lease_index(
                browsers[i].leases,
                session_id,
                principal,
            ) is Some;
        lemma_lease_index(browsers[i].leases, session_id, principal);
        let j = lease_index(browsers[i].leases, session_id, principal)->0;
        assert(browsers[i].leases[j].session_id == session_id);
    }
}

/// A browser that was started stands last in the table, under its id and its
/// key, with one session of its own; the others stay as they were.
pub proof fn law_started_browsers_hold_their_session(
    table: &mut SessionTable,
    browser_id: String,
    key: BrowserKey,
    cdp_port: u16,
    endpoint: String,
    exclusive: bool,
    session_id: String,
    target_id: String,
    expires_at: u128,
    done: (),
    i: int,
)
    requires
        call_ensures(
            SessionTable::start,
            (
                table,
                browser_id,
                key,
                cdp_port,
                endpoint,
                exclusive,
                session_id,
                target_id,
                expires_at,
            ),
            done,
        ),
    ensures
        final(table)@.len() == old(table)@.len() + 1,
        0 <= i < old(table)@.len() ==> final(table)@[i] == old(table)@[i],
        ({
            let started = final(table)@.last();
            &&& started.id == browser_id@
            &&& started.key.principal == key.principal@
            &&& started.key.namespace == key.namespace@
            &&& started.key.cred_id == key.cred_id@
            &&& started.cdp_port == cdp_port
            &&& started.endpoint == endpoint@
            &&& started.exclusive == exclusive
            &&& started.leases.len() == 1
            &&& started.leases[0].session_id == session_id@
            &&& started.leases[0].principal == key.principal@
            &&& started.leases[0].target_id == target_id@
            &&& started.leases[0].expires_at == expires_at
        }),
{
}

/// A session that joins a browser is added to the first one of its id, as one
/// of the browser's principal; every other browser, and what else the browser
/// holds, stays as it was.
pub proof fn law_joined_sessions_share_their_browser(
    table: &mut SessionTable,
    browser_id: &str,
    session_id: String,
    target_id: String,
    expires_at: u128,
    joined: bool,
    endpoint: Option<String>,
    i: int,
    j: int,
)
    requires
        call_ensures(
            SessionTable::join,
            (table, browser_id, session_id, target_id, expires_at),
            joined,
        ),
        call_ensures(SessionTable::endpoint, (&*old(table), browser_id), endpoint),
        0 <= i < old(table)@.len(),
    ensures
        final(table)@.len() == old(table)@.len(),
        old(table)@[i].id == browser_id@ ==> joined && endpoint is Some,
        joined <==> endpoint is Some,
        !joined ==> final(table)@[i] == old(table)@[i],
        old(table)@[i].id != browser_id@ ==> final(table)@[i] == old(table)@[i],
        (old(table)@[i].id == browser_id@ && (forall|k: int|
            0 <= k < i ==> (#[trigger] old(table)@[k]).id != browser_id@)) ==> {
            let before = old(table)@[i];
            let after = final(table)@[i];
            &&& endpoint->0@ == before.endpoint
            &&& after.id == before.id
            &&& after.key == before.key
            &&& after.cdp_port == before.cdp_port
            &&& after.endpoint == before.endpoint
            &&& after.exclusive == before.exclusive
            &&& after.leases.len() == before.leases.len() + 1
            &&& 0 <= j < before.leases.len() ==> after.leases[j] == before.leases[j]
            &&& after.leases.last().session_id == session_id@
            &&& after.leases.last().principal == before.key.principal
            &&& after.leases.last().target_id == target_id@
            &&& after.leases.last().expires_at == expires_at
        },
{
    let browsers = old(table)@;
    lemma_index_of_id(browsers, browser_id@);
    if browsers[i].id == browser_id@ && (forall|k: int|
        0 <= k < i ==> (#[trigger] browsers[k]).id != browser_id@) {
        lemma_first_of_id(browsers, browser_id@, i);
    }
}

proof fn lemma_first_of_id(browsers: Seq<BrowserView>, id: Seq<char>, i: int)
    requires
        0 <= i < browsers.len(),
        browsers[i].id == id,
        forall|k: int| 0 <= k < i ==> (#[trigger] browsers[k]).id != id,
    ensures
        index_of_id(browsers, id) == Some(i),
    decreases browsers.len(),
{
    let rest = browsers.drop_last();
    if i < rest.len() {
        assert(rest[i] == browsers[i]);
        assert forall|k: int| 0 <= k < i implies (#[trigger] rest[k]).id != id by {
            assert(rest[k] == browsers[k]);
        }
        lemma_first_of_id(rest, id, i);
    } else {
        lemma_index_of_id(rest, id);
        if index_of_id(rest, id) is Some {
            let k = index_of_id(rest, id)->0;
            assert(rest[k] == browsers[k]);
            assert(browsers[k].id == id);
        }
    }
}

/// A session is alive exactly while a browser holds it.
pub proof fn law_sessions_live_in_browsers(
    table: &SessionTable,
    session_id: &str,
    alive: bool,
    i: int,
    j: int,
)
    requires
        call_ensures(SessionTable::session_alive, (table, session_id), alive),
    ensures
        0 <= i < table@.len() && 0 <= j < table@[i].leases.len()
            && table@[i].leases[j].session_id == session_id@ ==> alive,
        table@.len() == 0 ==> !alive,
        (forall|b: int, l: int|
            0 <= b < table@.len() && 0 <= l < table@[b].leases.len() ==> (
            #[trigger] table@[b].leases[l]).session_id != session_id@) ==> !alive,
{
}

/// Browsers are told apart by who they are for: the principal, the namespace
/// and the credential.
pub proof fn law_keys_tell_browsers_apart(
    one: &BrowserKey,
    other: &BrowserKey,
    same: bool,
    copied: BrowserKey,
)
    requires
        call_ensures(BrowserKey::same, (one, other), same),
        call_ensures(BrowserKey::copy, (one,), copied),
    ensures
        same <==> one.principal@ == other.principal@ && one.namespace@ == other.namespace@
            && one.cred_id@ == other.cred_id@,
        copied.principal@ == one.principal@ && copied.namespace@ == one.namespace@
            && copied.cred_id@ == one.cred_id@,
{
}

} // verus!
