//! Requests that go through the vaults one by one.

use vstd::prelude::*;
use vstd::string::*;

use crate::credential::CredentialRef;
use crate::error::ErrorCode;
use crate::rpc::{append_entries, selected_providers};
use crate::text::copy_opt;
use crate::wire::CatalogEntry;

verus! {

/// Positions, as integers.
pub open spec fn positions(list: Seq<usize>) -> Seq<int> {
    list.map_values(|i: usize| i as int)
}

proof fn lemma_selection_in_range(
    namespaces: Seq<Seq<char>>,
    requested: Option<Seq<char>>,
    n: nat,
)
    ensures
        forall|k: int|
            0 <= k < crate::rpc::selection(namespaces, requested, n).len() ==> 0
                <= #[trigger] crate::rpc::selection(namespaces, requested, n)[k] < n,
    decreases n,
{
    if n > 0 {
        let before = crate::rpc::selection(namespaces, requested, (n - 1) as nat);
        let all = crate::rpc::selection(namespaces, requested, n);
        lemma_selection_in_range(namespaces, requested, (n - 1) as nat);
        assert forall|k: int| 0 <= k < all.len() implies 0 <= #[trigger] all[k] < n by {
            if k < before.len() {
                assert(all[k] == before[k]);
            }
        }
    }
}

// ---------------------------------------------------------------------------
// The catalog
// ---------------------------------------------------------------------------

/// What a request for the catalog waits for.
#[derive(Debug)]
pub enum CatalogAction {
    /// List the credentials of a vault.
    List(usize),
    /// Answer with the catalog.
    Show(Vec<CatalogEntry>),
    /// Refuse the request.
    Reject(ErrorCode),
}

/// What a request for the catalog waits for, by its view.
#[verifier::ext_equal]
pub enum CatalogStep {
    List(int),
    Show(Seq<crate::rpc::EntryShown>),
    Reject(ErrorCode),
}

impl View for CatalogAction {
    type V = CatalogStep;

    open spec fn view(&self) -> CatalogStep {
        match *self {
            CatalogAction::List(i) => CatalogStep::List(i as int),
            CatalogAction::Show(entries) => CatalogStep::Show(crate::rpc::shown(entries@)),
            CatalogAction::Reject(code) => CatalogStep::Reject(code),
        }
    }
}

/// A request for the catalog, by the views of its parts.
#[verifier::ext_equal]
pub struct CatalogView {
    pub namespaces: Seq<Seq<char>>,
    /// The vaults that the request is about, in their order.
    pub order: Seq<int>,
    /// How many of them were listed.
    pub at: nat,
    pub shown: Seq<crate::rpc::EntryShown>,
    pub over: bool,
}

impl CatalogView {
    /// The vaults exist.
    pub open spec fn wf(self) -> bool {
        &&& self.at <= self.order.len()
        &&& forall|k: int|
            0 <= k < self.order.len() ==> 0 <= #[trigger] self.order[k] < self.namespaces.len()
    }

    /// The request is refused.
    pub open spec fn refuse(self, code: ErrorCode) -> (CatalogView, CatalogStep) {
        (CatalogView { shown: seq![], over: true, ..self }, CatalogStep::Reject(code))
    }

    /// The next vault is listed; after the last one the catalog is shown.
    pub open spec fn ask(self) -> (CatalogView, CatalogStep) {
        if self.over {
            self.refuse(ErrorCode::Internal)
        } else if self.at < self.order.len() {
            (self, CatalogStep::List(self.order[self.at as int]))
        } else {
            (CatalogView { shown: seq![], over: true, ..self }, CatalogStep::Show(self.shown))
        }
    }

    /// A vault was listed: it stands in the catalog by its own name. One that
    /// cannot be listed ends the request.
    pub open spec fn listed(
        self,
        refs: Result<Seq<crate::credential::RefView>, ErrorCode>,
        locked: bool,
    ) -> (CatalogView, CatalogStep) {
        if self.over || self.at >= self.order.len() {
            self.refuse(ErrorCode::Internal)
        } else {
            match refs {
                Ok(list) => (CatalogView {
                    at: self.at + 1,
                    shown: self.shown + crate::rpc::shown_entries(
                        self.namespaces[self.order[self.at as int]],
                        list,
                        locked,
                    ),
                    ..self
                }).ask(),
                Err(code) => self.refuse(code),
            }
        }
    }
}

/// A request for the catalog.
#[derive(Debug)]
pub struct CatalogRun {
    namespaces: Vec<String>,
    order: Vec<usize>,
    at: usize,
    catalog: Vec<CatalogEntry>,
    over: bool,
}

impl View for CatalogRun {
    type V = CatalogView;

    closed spec fn view(&self) -> CatalogView {
        CatalogView {
            namespaces: crate::text::texts(self.namespaces@),
            order: positions(self.order@),
            at: self.at as nat,
            shown: crate::rpc::shown(self.catalog@),
            over: self.over,
        }
    }
}

/// A list of references, or why there is none, by its view.
pub open spec fn listing(refs: Result<Vec<CredentialRef>, ErrorCode>) -> Result<
    Seq<crate::credential::RefView>,
    ErrorCode,
> {
    match refs {
        Ok(list) => Ok(crate::credential::ref_views(list@)),
        Err(code) => Err(code),
    }
}

impl CatalogRun {
    /// Begins a request for the catalog of all vaults, or of those of one
    /// namespace.
    pub fn new(namespaces: Vec<String>, requested: &Option<String>) -> (run: CatalogRun)
        ensures
            run@.wf(),
            run@ == (CatalogView {
                namespaces: crate::text::texts(namespaces@),
                order: crate::rpc::selection(
                    crate::text::texts(namespaces@),
                    crate::text::opt_text(*requested),
                    namespaces@.len(),
                ),
                at: 0,
                shown: seq![],
                over: false,
            }),
    {
        let order = selected_providers(&namespaces, requested);
        proof {
            lemma_selection_in_range(
                crate::text::texts(namespaces@),
                crate::text::opt_text(*requested),
                namespaces@.len(),
            );
        }
        let run = CatalogRun { namespaces, order, at: 0, catalog: Vec::new(), over: false };
        assert(run@.shown =~= seq![]);
        run
    }

    fn refuse(&mut self, code: ErrorCode) -> (action: CatalogAction)
        ensures
            (final(self)@, action@) == old(self)@.refuse(code),
    {
        self.over = true;
        self.catalog = Vec::new();
        assert(self@.shown =~= seq![]);
        CatalogAction::Reject(code)
    }

    /// Says which vault is listed next, or shows the catalog.
    pub fn ask(&mut self) -> (action: CatalogAction)
        requires
            old(self)@.wf(),
        ensures
            final(self)@.wf(),
            (final(self)@, action@) == old(self)@.ask(),
    {
        if self.over {
            self.refuse(ErrorCode::Internal)
        } else if self.at < self.order.len() {
            CatalogAction::List(self.order[self.at])
        } else {
            self.over = true;
            let mut catalog: Vec<CatalogEntry> = Vec::new();
            std::mem::swap(&mut self.catalog, &mut catalog);
            assert(self@.shown =~= seq![]);
            CatalogAction::Show(catalog)
        }
    }

    /// Takes the credentials of the vault that was asked for.
    pub fn listed(&mut self, refs: Result<Vec<CredentialRef>, ErrorCode>, locked: bool) -> (action:
        CatalogAction)
        requires
            old(self)@.wf(),
        ensures
            final(self)@.wf(),
            (final(self)@, action@) == old(self)@.listed(listing(refs), locked),
    {
        if self.over || self.at >= self.order.len() {
            return self.refuse(ErrorCode::Internal);
        }
        match refs {
            Ok(list) => {
                let i = self.order[self.at];
                assert(self@.order[self.at as int] == i);
                assert(self@.namespaces[i as int] == self.namespaces@[i as int]@);
                append_entries(&mut self.catalog, self.namespaces[i].as_str(), &list, locked);
                self.at += 1;
                self.ask()
            },
            Err(code) => self.refuse(code),
        }
    }
}

/// What was shown of the vaults that were listed.
pub open spec fn catalog_of(
    namespaces: Seq<Seq<char>>,
    order: Seq<int>,
    listings: Seq<(Seq<crate::credential::RefView>, bool)>,
) -> Seq<crate::rpc::EntryShown>
    decreases listings.len(),
{
    if listings.len() == 0 {
        seq![]
    } else {
        catalog_of(namespaces, order, listings.drop_last()) + crate::rpc::shown_entries(
            namespaces[order[listings.len() - 1]],
            listings.last().0,
            listings.last().1,
        )
    }
}

/// A request after vaults were listed one after another.
pub open spec fn after_listings(
    run: CatalogView,
    listings: Seq<(Seq<crate::credential::RefView>, bool)>,
) -> (CatalogView, CatalogStep)
    decreases listings.len(),
{
    if listings.len() == 0 {
        run.ask()
    } else {
        after_listings(run, listings.drop_last()).0.listed(
            Ok(listings.last().0),
            listings.last().1,
        )
    }
}

/// The catalog shows all the vaults that the request is about, each under its
/// own namespace and in the order of the configuration, and is shown once all
/// of them were listed.
pub proof fn law_catalogs_are_complete(
    run: CatalogView,
    listings: Seq<(Seq<crate::credential::RefView>, bool)>,
)
    requires
        run.at == 0,
        run.shown == Seq::<crate::rpc::EntryShown>::empty(),
        !run.over,
        listings.len() <= run.order.len(),
    ensures
        ({
            let catalog = catalog_of(run.namespaces, run.order, listings);
            after_listings(run, listings).1 == (if listings.len() < run.order.len() {
                CatalogStep::List(run.order[listings.len() as int])
            } else {
                CatalogStep::Show(catalog)
            })
        }),
        listings.len() < run.order.len() ==> after_listings(run, listings).0 == (CatalogView {
            at: listings.len(),
            shown: catalog_of(run.namespaces, run.order, listings),
            ..run
        }),
    decreases listings.len(),
{
    if listings.len() > 0 {
        law_catalogs_are_complete(run, listings.drop_last());
    }
}

/// A vault that cannot be listed ends the request: nothing is shown of the
/// vaults that were listed before.
pub proof fn law_failed_listings_show_nothing(run: CatalogView, code: ErrorCode, locked: bool)
    requires
        !run.over,
        run.at < run.order.len(),
    ensures
        run.listed(Err(code), locked).1 == CatalogStep::Reject(code),
        run.listed(Err(code), locked).0.shown == Seq::<crate::rpc::EntryShown>::empty(),
        run.listed(Err(code), locked).0.over,
{
}

// ---------------------------------------------------------------------------
// Locking
// ---------------------------------------------------------------------------

/// Where a request to lock vaults stands.
#[derive(Clone, Copy, Debug, PartialEq, Eq, Structural)]
pub enum LockPhase {
    /// Vaults are locked.
    Locking,
    /// The browsers of the vaults are ended.
    Draining,
    /// It is over.
    Done,
}

/// What a request to lock vaults waits for.
#[derive(Debug)]
pub enum LockAction {
    /// Lock a vault.
    Lock(usize),
    /// End the browsers of a namespace, or all of them.
    Drain(Option<String>),
    /// Answer that the vaults are locked.
    Finish,
    /// Refuse the request.
    Reject(ErrorCode),
}

/// What a request to lock vaults waits for, by its view.
#[verifier::ext_equal]
pub enum LockStep {
    Lock(int),
    Drain(Option<Seq<char>>),
    Finish,
    Reject(ErrorCode),
}

impl View for LockAction {
    type V = LockStep;

    open spec fn view(&self) -> LockStep {
        match *self {
            LockAction::Lock(i) => LockStep::Lock(i as int),
            LockAction::Drain(requested) => LockStep::Drain(crate::text::opt_text(requested)),
            LockAction::Finish => LockStep::Finish,
            LockAction::Reject(code) => LockStep::Reject(code),
        }
    }
}

/// A request to lock vaults, by the views of its parts.
#[verifier::ext_equal]
pub struct LockView {
    /// The vaults that the request is about, in their order.
    pub order: Seq<int>,
    /// How many of them were locked.
    pub locked: nat,
    pub requested: Option<Seq<char>>,
    pub phase: LockPhase,
}

impl LockView {
    /// No more vaults were locked than there are.
    pub open spec fn wf(self) -> bool {
        self.locked <= self.order.len()
    }

    /// The request is refused.
    pub open spec fn refuse(self, code: ErrorCode) -> (LockView, LockStep) {
        (LockView { phase: LockPhase::Done, ..self }, LockStep::Reject(code))
    }

    /// The next vault is locked; after the last one the browsers are ended.
    pub open spec fn ask(self) -> (LockView, LockStep) {
        if !(self.phase is Locking) {
            self.refuse(ErrorCode::Internal)
        } else if self.locked < self.order.len() {
            (self, LockStep::Lock(self.order[self.locked as int]))
        } else {
            (LockView { phase: LockPhase::Draining, ..self }, LockStep::Drain(self.requested))
        }
    }

    /// A vault was locked, or could not be.
    pub open spec fn lock_tried(self, outcome: Result<(), ErrorCode>) -> (LockView, LockStep) {
        if !(self.phase is Locking) || self.locked >= self.order.len() {
            self.refuse(ErrorCode::Internal)
        } else {
            match outcome {
                Ok(()) => (LockView { locked: self.locked + 1, ..self }).ask(),
                Err(code) => self.refuse(code),
            }
        }
    }

    /// The browsers were ended.
    pub open spec fn drained(self) -> (LockView, LockStep) {
        if self.phase is Draining {
            (LockView { phase: LockPhase::Done, ..self }, LockStep::Finish)
        } else {
            self.refuse(ErrorCode::Internal)
        }
    }
}

/// A request to lock vaults.
#[derive(Debug)]
pub struct LockRun {
    order: Vec<usize>,
    locked: usize,
    requested: Option<String>,
    phase: LockPhase,
}

impl View for LockRun {
    type V = LockView;

    closed spec fn view(&self) -> LockView {
        LockView {
            order: positions(self.order@),
            locked: self.locked as nat,
            requested: crate::text::opt_text(self.requested),
            phase: self.phase,
        }
    }
}

impl LockRun {
    /// Begins a request to lock all vaults, or those of one namespace.
    pub fn new(namespaces: &Vec<String>, requested: Option<String>) -> (run: LockRun)
        ensures
            run@.wf(),
            run@ == (LockView {
                order: crate::rpc::selection(
                    crate::text::texts(namespaces@),
                    crate::text::opt_text(requested),
                    namespaces@.len(),
                ),
                locked: 0,
                requested: crate::text::opt_text(requested),
                phase: LockPhase::Locking,
            }),
    {
        let order = selected_providers(namespaces, &requested);
        LockRun { order, locked: 0, requested, phase: LockPhase::Locking }
    }

    fn refuse(&mut self, code: ErrorCode) -> (action: LockAction)
        ensures
            (final(self)@, action@) == old(self)@.refuse(code),
    {
        self.phase = LockPhase::Done;
        LockAction::Reject(code)
    }

    /// Says which vault is locked next, or that the browsers are to end.
    pub fn ask(&mut self) -> (action: LockAction)
        requires
            old(self)@.wf(),
        ensures
            final(self)@.wf(),
            (final(self)@, action@) == old(self)@.ask(),
    {
        if self.phase != LockPhase::Locking {
            self.refuse(ErrorCode::Internal)
        } else if self.locked < self.order.len() {
            LockAction::Lock(self.order[self.locked])
        } else {
            self.phase = LockPhase::Draining;
            LockAction::Drain(copy_opt(&self.requested))
        }
    }

    /// Takes the outcome of the lock that was asked for.
    pub fn lock_tried(&mut self, outcome: Result<(), ErrorCode>) -> (action: LockAction)
        requires
            old(self)@.wf(),
        ensures
            final(self)@.wf(),
            (final(self)@, action@) == old(self)@.lock_tried(outcome),
    {
        if self.phase != LockPhase::Locking || self.locked >= self.order.len() {
            return self.refuse(ErrorCode::Internal);
        }
        match outcome {
            Ok(()) => {
                self.locked += 1;
                self.ask()
            },
            Err(code) => self.refuse(code),
        }
    }

    /// Takes the news that the browsers were ended.
    pub fn drained(&mut self) -> (action: LockAction)
        requires
            old(self)@.wf(),
        ensures
            final(self)@.wf(),
            (final(self)@, action@) == old(self)@.drained(),
    {
        if self.phase == LockPhase::Draining {
            self.phase = LockPhase::Done;
            LockAction::Finish
        } else {
            self.refuse(ErrorCode::Internal)
        }
    }
}

/// A request after `n` vaults were locked one after another.
pub open spec fn after_locks(run: LockView, n: nat) -> (LockView, LockStep)
    decreases n,
{
    if n == 0 {
        run.ask()
    } else {
        after_locks(run, (n - 1) as nat).0.lock_tried(Ok(()))
    }
}

/// All vaults that the request is about are locked, in their order, and only
/// then are their browsers ended, and only then does the request succeed. A
/// vault that cannot be locked ends the request, and no browser.
pub proof fn law_vaults_are_locked_before_browsers_end(run: LockView, n: nat, code: ErrorCode)
    requires
        run.phase is Locking,
        run.locked == 0,
        n <= run.order.len(),
    ensures
        n < run.order.len() ==> {
            &&& after_locks(run, n) == (
                LockView { locked: n, ..run },
                LockStep::Lock(run.order[n as int]),
            )
            &&& after_locks(run, n).0.lock_tried(Err(code)).1 == LockStep::Reject(code)
            &&& after_locks(run, n).0.drained().1 == LockStep::Reject(ErrorCode::Internal)
        },
        n == run.order.len() ==> {
            &&& after_locks(run, n).1 == LockStep::Drain(run.requested)
            &&& after_locks(run, n).0.drained().1 == LockStep::Finish
        },
    decreases n,
{
    if n > 0 {
        law_vaults_are_locked_before_browsers_end(run, (n - 1) as nat, code);
    }
}

/// A request to lock vaults is about every vault of the namespace that it
/// names, or about all of them, and ends the browsers of that namespace, or all
/// of them.
pub proof fn law_the_named_vaults_are_locked(
    namespaces: &Vec<String>,
    requested: Option<String>,
    run: LockRun,
    i: int,
)
    requires
        call_ensures(LockRun::new, (namespaces, requested), run),
    ensures
        run@.order.contains(i) <==> 0 <= i < namespaces@.len() && (match requested {
            Some(name) => namespaces@[i]@ == name@,
            None => true,
        }),
        run@.requested is Some <==> requested is Some,
        requested matches Some(name) ==> run@.requested->0 == name@,
        run@.phase is Locking && run@.locked == 0,
{
    let views = crate::text::texts(namespaces@);
    crate::rpc::lemma_selection(
        views,
        crate::text::opt_text(requested),
        namespaces@.len(),
        i,
    );
    if 0 <= i < namespaces@.len() {
        assert(views[i] == namespaces@[i]@);
    }
}

/// A request for the catalog is about every vault of the namespace that it
/// names, or about all of them, each under its own name.
pub proof fn law_the_named_vaults_are_listed(
    namespaces: Vec<String>,
    requested: &Option<String>,
    run: CatalogRun,
    i: int,
)
    requires
        call_ensures(CatalogRun::new, (namespaces, requested), run),
    ensures
        run@.order.contains(i) <==> 0 <= i < namespaces@.len() && (match *requested {
            Some(name) => namespaces@[i]@ == name@,
            None => true,
        }),
        0 <= i < namespaces@.len() ==> run@.namespaces[i] == namespaces@[i]@,
        run@.shown.len() == 0 && run@.at == 0 && !run@.over,
{
    let views = crate::text::texts(namespaces@);
    crate::rpc::lemma_selection(
        views,
        crate::text::opt_text(*requested),
        namespaces@.len(),
        i,
    );
    if 0 <= i < namespaces@.len() {
        assert(views[i] == namespaces@[i]@);
    }
}

/// The catalog of one listed vault shows each of its credentials once, in their
/// order: by its name, by its namespace and id, and with its address and kind
/// while the vault is unlocked. Of a vault that is listed next nothing of the
/// former is lost.
pub proof fn law_listed_credentials_are_shown(
    run: CatalogView,
    refs: Seq<crate::credential::RefView>,
    locked: bool,
    i: int,
)
    requires
        !run.over,
        run.at < run.order.len(),
        0 <= i < refs.len(),
    ensures
        ({
            let (next, step) = run.listed(Ok(refs), locked);
            let shown = match step {
                CatalogStep::Show(entries) => entries,
                _ => next.shown,
            };
            let namespace = run.namespaces[run.order[run.at as int]];
            let entry = shown[run.shown.len() + i];
            &&& !(step is Reject)
            &&& step is Show <==> run.at + 1 == run.order.len()
            &&& step matches CatalogStep::List(at) ==> at == run.order[run.at as int + 1]
            &&& shown.len() == run.shown.len() + refs.len()
            &&& shown.take(run.shown.len() as int) == run.shown
            &&& entry.name == refs[i].name
            &&& entry.id == namespace + seq![':'] + refs[i].id
            &&& entry.source == namespace
            &&& entry.details is Some <==> !locked
            &&& entry.details matches Some((uri, kind)) ==> (refs[i].uri matches Some(text) ==> uri
                == text) && (refs[i].kind matches Some(text) ==> kind == text)
        }),
{
    reveal_strlit(":");
    assert(":"@ =~= seq![':']);
    let (next, step) = run.listed(Ok(refs), locked);
    let shown = match step {
        CatalogStep::Show(entries) => entries,
        _ => next.shown,
    };
    assert(shown.take(run.shown.len() as int) =~= run.shown);
}

/// A vault that cannot be listed refuses the catalog with its error, and one
/// that cannot be locked the lock, whatever came before; the run is over then.
pub proof fn law_failing_vaults_refuse_the_request(
    catalog: &mut CatalogRun,
    lock: &mut LockRun,
    code: ErrorCode,
    locked: bool,
    shown: CatalogAction,
    tried: LockAction,
)
    requires
        call_ensures(CatalogRun::listed, (catalog, Err(code), locked), shown),
        call_ensures(LockRun::lock_tried, (lock, Err(code)), tried),
        !old(catalog)@.over && old(catalog)@.at < old(catalog)@.order.len(),
        old(lock)@.phase is Locking && old(lock)@.locked < old(lock)@.order.len(),
    ensures
        shown == CatalogAction::Reject(code),
        final(catalog)@.over,
        tried == LockAction::Reject(code),
        final(lock)@.phase is Done,
{
    assert(shown@ == CatalogStep::Reject(code));
    assert(tried@ is Reject);
}

/// A vault that was listed adds its credentials behind those that were listed
/// before, and the next vault is asked for.
pub proof fn law_listings_are_gathered(
    catalog: &mut CatalogRun,
    refs: Vec<CredentialRef>,
    locked: bool,
    action: CatalogAction,
    i: int,
)
    requires
        call_ensures(CatalogRun::listed, (catalog, Ok(refs), locked), action),
        !old(catalog)@.over && old(catalog)@.at + 1 < old(catalog)@.order.len(),
    ensures
        action matches CatalogAction::List(next) && next == old(catalog)@.order[old(catalog)@.at as int + 1],
        final(catalog)@.shown.len() == old(catalog)@.shown.len() + refs@.len(),
        0 <= i < old(catalog)@.shown.len() ==> final(catalog)@.shown[i] == old(catalog)@.shown[i],
        final(catalog)@.order == old(catalog)@.order,
        !final(catalog)@.over,
{
    assert(crate::credential::ref_views(refs@).len() == refs@.len());
    assert(action@ is List);
}

} // verus!
