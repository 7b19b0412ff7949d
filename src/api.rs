//! The application context: the cache of the last successful scan and the
//! refresh state machine with single-flight semantics. Whoever shares the
//! context between threads holds it behind one lock; the scan itself runs
//! between [`AppInfoContext::begin_refresh`] (or
//! [`AppInfoContext::refresh_apps_in_background`]) and
//! [`AppInfoContext::refresh_apps`], outside that lock.
use vstd::prelude::*;
use crate::common::{App, AppView, AppError, SearchPath, apps_view, paths_view};

verus! {

/// The cache, the refresh flag and the caller's extra roots.
pub struct AppInfoContext {
    /// The apps of the last successful scan.
    pub cached_apps: Vec<App>,
    /// Whether a refresh is in flight.
    pub refreshing: bool,
    /// Roots scanned besides the platform's defaults.
    pub extra_search_paths: Vec<SearchPath>,
}

/// What a context holds.
pub struct ContextView {
    pub apps: Seq<AppView>,
    pub refreshing: bool,
    pub extra: Seq<(Seq<char>, u8)>,
}

impl View for AppInfoContext {
    type V = ContextView;

    open spec fn view(&self) -> ContextView {
        ContextView {
            apps: apps_view(self.cached_apps@),
            refreshing: self.refreshing,
            extra: paths_view(self.extra_search_paths@),
        }
    }
}

/// A request for a background refresh: ignored while one is in flight,
/// else it marks one in flight and asks for a worker (`true`).
pub open spec fn background_request(s: ContextView) -> (ContextView, bool) {
    if s.refreshing {
        (s, false)
    } else {
        (ContextView { refreshing: true, ..s }, true)
    }
}

/// The end of a refresh: a successful scan replaces the whole cache, a failed
/// one leaves it as it was; either way no refresh is in flight any more.
pub open spec fn refresh_outcome(s: ContextView, scanned: Result<Seq<AppView>, AppError>) -> ContextView {
    match scanned {
        Ok(apps) => ContextView { apps, refreshing: false, ..s },
        Err(_) => ContextView { refreshing: false, ..s },
    }
}

/// The views of a scan's outcome.
pub open spec fn outcome_view(r: Result<Vec<App>, AppError>) -> Result<Seq<AppView>, AppError> {
    match r {
        Ok(v) => Ok(apps_view(v@)),
        Err(e) => Err(e),
    }
}

impl AppInfoContext {
    /// An empty context, no refresh in flight, with the caller's extra roots.
    pub fn new(extra_search_paths: Vec<SearchPath>) -> (r: AppInfoContext)
        ensures
            r@.apps.len() == 0,
            !r@.refreshing,
            r@.extra == paths_view(extra_search_paths@),
    {
        AppInfoContext { cached_apps: Vec::new(), refreshing: false, extra_search_paths }
    }

    /// Marks a foreground refresh in flight, before its scan runs.
    pub fn begin_refresh(&mut self)
        ensures
            final(self)@ == (ContextView { refreshing: true, ..old(self)@ }),
    {
        self.refreshing = true;
    }

    /// Asks for a background refresh. While one is in flight nothing
    /// changes and no worker is asked for (`false`); else the refresh is
    /// marked in flight and the caller is to start one worker (`true`) that
    /// scans and ends with [`Self::refresh_apps`].
    pub fn refresh_apps_in_background(&mut self) -> (spawn: bool)
        ensures
            (final(self)@, spawn) == background_request(old(self)@),
    {
        if self.refreshing {
            return false;
        }
        self.refreshing = true;
        true
    }

    /// Ends a refresh with the outcome of its scan: on success the cache
    /// becomes the scanned apps, whole; on failure it stays and the error is
    /// handed back. No refresh is in flight afterwards.
    pub fn refresh_apps(&mut self, scanned: Result<Vec<App>, AppError>) -> (r: Result<(), AppError>)
        ensures
            final(self)@ == refresh_outcome(old(self)@, outcome_view(scanned)),
            match scanned {
                Ok(_) => r is Ok,
                Err(e) => r == Err::<(), AppError>(e),
            },
    {
        self.refreshing = false;
        match scanned {
            Ok(apps) => {
                self.cached_apps = apps;
                Ok(())
            },
            Err(e) => Err(e),
        }
    }

    /// A copy of the cached apps, independent of later changes.
    pub fn get_all_apps(&self) -> (r: Vec<App>)
        ensures
            apps_view(r@) == self@.apps,
    {
        let mut r: Vec<App> = Vec::new();
        let mut i: usize = 0;
        while i < self.cached_apps.len()
            invariant
                i <= self.cached_apps@.len(),
                apps_view(r@) == apps_view(self.cached_apps@).take(i as int),
            decreases self.cached_apps@.len() - i,
        {
            let ghost before = apps_view(r@);
            let a = self.cached_apps[i].duplicate();
            r.push(a);
            assert(apps_view(r@) =~= before.push(a@));
            assert(apps_view(self.cached_apps@).take(i + 1) =~= apps_view(self.cached_apps@).take(
                i as int,
            ).push(a@));
            i = i + 1;
        }
        assert(apps_view(self.cached_apps@).take(self.cached_apps@.len() as int) =~= apps_view(
            self.cached_apps@,
        ));
        r
    }

    /// Whether a refresh is in flight.
    pub fn is_refreshing(&self) -> (r: bool)
        ensures
            r == self@.refreshing,
    {
        self.refreshing
    }

    /// Clears the cache; a refresh in flight stays in flight.
    pub fn empty_cache(&mut self)
        ensures
            final(self)@ == (ContextView { apps: Seq::empty(), ..old(self)@ }),
    {
        self.cached_apps = Vec::new();
        assert(apps_view(self.cached_apps@) =~= Seq::<AppView>::empty());
    }
}

/// A background request while a refresh is in flight starts no second scan
/// and changes nothing; once the refresh in flight ends, the cache is the
/// outcome of that one scan.
pub proof fn lemma_single_flight(s: ContextView, scanned: Result<Seq<AppView>, AppError>)
    requires
        s.refreshing,
    ensures
        background_request(s) == (s, false),
        refresh_outcome(background_request(s).0, scanned) == refresh_outcome(s, scanned),
        scanned is Ok ==> refresh_outcome(background_request(s).0, scanned).apps == scanned->Ok_0,
        !refresh_outcome(background_request(s).0, scanned).refreshing,
{
}

/// A snapshot taken from the cache keeps what the cache held when it was
/// taken, whatever refresh or clearing follows.
pub proof fn lemma_snapshot_isolation(
    s: ContextView,
    snapshot: Seq<AppView>,
    scanned: Result<Seq<AppView>, AppError>,
)
    requires
        snapshot == s.apps,
    ensures
        snapshot == s.apps,
        scanned is Ok ==> refresh_outcome(s, scanned).apps == scanned->Ok_0,
        scanned is Err ==> refresh_outcome(s, scanned).apps == snapshot,
{
}

} // verus!
