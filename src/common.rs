//! The normalised application record, the configured search roots, and the
//! reconciler that merges scan results without duplicates.
use vstd::prelude::*;

verus! {

/// One installed application.
#[derive(Debug, Clone, Hash)]
pub struct App {
    /// Display name.
    pub name: String,
    /// Icon asset, or the unresolved icon reference, when one is known.
    pub icon_path: Option<String>,
    /// The launchable executable, when one is known.
    pub app_path_exe: Option<String>,
    /// The native descriptor: a `.desktop` file, an `.app` bundle, or a
    /// shortcut's working directory.
    pub app_desktop_path: String,
}

/// What an [`App`] holds, as character sequences.
pub struct AppView {
    pub name: Seq<char>,
    pub icon_path: Option<Seq<char>>,
    pub app_path_exe: Option<Seq<char>>,
    pub app_desktop_path: Seq<char>,
}

/// The characters of an optional string.
pub open spec fn opt_view(o: Option<String>) -> Option<Seq<char>> {
    match o {
        Some(s) => Some(s@),
        None => None,
    }
}

impl View for App {
    type V = AppView;

    open spec fn view(&self) -> AppView {
        AppView {
            name: self.name@,
            icon_path: opt_view(self.icon_path),
            app_path_exe: opt_view(self.app_path_exe),
            app_desktop_path: self.app_desktop_path@,
        }
    }
}

/// The views of a sequence of apps.
pub open spec fn apps_view(s: Seq<App>) -> Seq<AppView> {
    s.map_values(|a: App| a@)
}

/// A copy of an optional string.
pub fn copy_opt(o: &Option<String>) -> (r: Option<String>)
    ensures
        opt_view(r) == opt_view(*o),
{
    match o {
        Some(s) => Some(s.clone()),
        None => None,
    }
}

/// Whether two optional strings hold the same characters.
pub fn opt_eq(a: &Option<String>, b: &Option<String>) -> (r: bool)
    ensures
        r == (opt_view(*a) == opt_view(*b)),
{
    match a {
        Some(x) => match b {
            Some(y) => *x == *y,
            None => false,
        },
        None => b.is_none(),
    }
}

impl App {
    /// An app with the given fields.
    pub fn new(
        name: String,
        icon_path: Option<String>,
        app_path_exe: Option<String>,
        app_desktop_path: String,
    ) -> (r: App)
        ensures
            r.name@ == name@,
            opt_view(r.icon_path) == opt_view(icon_path),
            opt_view(r.app_path_exe) == opt_view(app_path_exe),
            r.app_desktop_path@ == app_desktop_path@,
    {
        App { name, icon_path, app_path_exe, app_desktop_path }
    }

    /// A copy of this app.
    pub fn duplicate(&self) -> (r: App)
        ensures
            r@ == self@,
    {
        App {
            name: self.name.clone(),
            icon_path: copy_opt(&self.icon_path),
            app_path_exe: copy_opt(&self.app_path_exe),
            app_desktop_path: self.app_desktop_path.clone(),
        }
    }

    /// Whether two apps agree on all four fields.
    pub fn same_as(&self, other: &App) -> (r: bool)
        ensures
            r == (self@ == other@),
    {
        self.name == other.name && opt_eq(&self.icon_path, &other.icon_path) && opt_eq(
            &self.app_path_exe,
            &other.app_path_exe,
        ) && self.app_desktop_path == other.app_desktop_path
    }
}

impl PartialEq for App {
    fn eq(&self, other: &App) -> (r: bool) {
        self.same_as(other)
    }
}

impl vstd::std_specs::cmp::PartialEqSpecImpl for App {
    open spec fn obeys_eq_spec() -> bool {
        true
    }

    open spec fn eq_spec(&self, other: &App) -> bool {
        self@ == other@
    }
}

impl Eq for App {

}

/// A configured file-system root and how deep to scan below it.
#[derive(Debug, Clone, Hash)]
pub struct SearchPath {
    pub path: String,
    pub depth: u8,
}

impl View for SearchPath {
    type V = (Seq<char>, u8);

    open spec fn view(&self) -> (Seq<char>, u8) {
        (self.path@, self.depth)
    }
}

impl SearchPath {
    /// The root `path`, scanned down to `depth` levels.
    pub fn new(path: String, depth: u8) -> (r: SearchPath)
        ensures
            r.path@ == path@,
            r.depth == depth,
    {
        SearchPath { path, depth }
    }

    /// A copy of this root.
    pub fn duplicate(&self) -> (r: SearchPath)
        ensures
            r@ == self@,
    {
        SearchPath { path: self.path.clone(), depth: self.depth }
    }

    /// Whether two roots agree on path and depth.
    pub fn same_as(&self, other: &SearchPath) -> (r: bool)
        ensures
            r == (self@ == other@),
    {
        self.path == other.path && self.depth == other.depth
    }
}

impl PartialEq for SearchPath {
    fn eq(&self, other: &SearchPath) -> (r: bool) {
        self.same_as(other)
    }
}

impl vstd::std_specs::cmp::PartialEqSpecImpl for SearchPath {
    open spec fn obeys_eq_spec() -> bool {
        true
    }

    open spec fn eq_spec(&self, other: &SearchPath) -> bool {
        self@ == other@
    }
}

impl Eq for SearchPath {

}

/// The views of a sequence of search roots.
pub open spec fn paths_view(s: Seq<SearchPath>) -> Seq<(Seq<char>, u8)> {
    s.map_values(|p: SearchPath| p@)
}

/// Failures that end a whole operation.
#[derive(Debug, Clone, Copy, PartialEq, Eq, Structural)]
pub enum AppError {
    /// A variable of the environment that locates a search root is not set.
    MissingEnvironment,
    /// The platform offers no facility for this operation.
    NotImplemented,
    /// No known application matched.
    NoMatchingApp,
    /// The outside facility that lists applications failed.
    QueryFailed,
}

/// `s` with every repeated element dropped: the first occurrence stays, in
/// its place.
pub open spec fn dedup<A>(s: Seq<A>) -> Seq<A>
    decreases s.len(),
{
    if s.len() == 0 {
        s
    } else {
        let d = dedup(s.drop_last());
        if d.contains(s.last()) {
            d
        } else {
            d.push(s.last())
        }
    }
}

/// An element is kept exactly when it occurs.
pub proof fn lemma_dedup_contains<A>(s: Seq<A>)
    ensures
        forall|x: A| dedup(s).contains(x) <==> s.contains(x),
    decreases s.len(),
{
    if s.len() > 0 {
        lemma_dedup_contains(s.drop_last());
        assert forall|x: A| dedup(s).contains(x) <==> s.contains(x) by {
            if s.contains(x) && x != s.last() {
                let i = choose|i: int| 0 <= i < s.len() && s[i] == x;
                assert(s.drop_last()[i] == x);
            }
            if s.drop_last().contains(x) {
                let i = choose|i: int| 0 <= i < s.len() - 1 && s.drop_last()[i] == x;
                assert(s[i] == x);
            }
            if dedup(s).contains(x) && !dedup(s.drop_last()).contains(x) {
                let i = choose|i: int| 0 <= i < dedup(s).len() && dedup(s)[i] == x;
                assert(x == s.last());
                assert(s[s.len() - 1] == x);
            }
            if x == s.last() {
                assert(s[s.len() - 1] == x);
                if !dedup(s.drop_last()).contains(x) {
                    assert(dedup(s)[dedup(s).len() - 1] == x);
                }
            }
            if dedup(s.drop_last()).contains(x) {
                let i = choose|i: int|
                    0 <= i < dedup(s.drop_last()).len() && dedup(s.drop_last())[i] == x;
                assert(dedup(s)[i] == x);
            }
        }
    }
}

/// No element is kept twice.
pub proof fn lemma_dedup_distinct<A>(s: Seq<A>)
    ensures
        dedup(s).no_duplicates(),
    decreases s.len(),
{
    if s.len() > 0 {
        lemma_dedup_distinct(s.drop_last());
    }
}

/// A sequence without repeated elements is its own reconciliation.
pub proof fn lemma_dedup_of_distinct<A>(s: Seq<A>)
    requires
        s.no_duplicates(),
    ensures
        dedup(s) == s,
    decreases s.len(),
{
    if s.len() > 0 {
        let p = s.drop_last();
        assert(p.no_duplicates()) by {
            assert forall|i: int, j: int| 0 <= i < p.len() && 0 <= j < p.len() && i != j implies p[i]
                != p[j] by {
                assert(s[i] != s[j]);
            }
        }
        lemma_dedup_of_distinct(p);
        if p.contains(s.last()) {
            let i = choose|i: int| 0 <= i < p.len() && p[i] == s.last();
            assert(s[i] == s[s.len() - 1]);
        }
        assert(p.push(s.last()) =~= s);
    }
}

/// Reconciling twice gives what reconciling once gave, and reconciliation
/// keeps every application that occurs, once.
pub proof fn lemma_reconcile_idempotent<A>(raw: Seq<A>)
    ensures
        dedup(dedup(raw)) == dedup(raw),
        dedup(raw).to_set() == raw.to_set(),
        dedup(raw).no_duplicates(),
{
    lemma_dedup_distinct(raw);
    lemma_dedup_of_distinct(dedup(raw));
    lemma_dedup_contains(raw);
    assert(dedup(raw).to_set() =~= raw.to_set());
}

/// Collects apps, dropping each one equal to an app already held.
pub struct Reconciler {
    pub apps: Vec<App>,
}

impl Reconciler {
    /// A reconciler that holds nothing.
    pub fn new() -> (r: Reconciler)
        ensures
            r.apps@.len() == 0,
    {
        Reconciler { apps: Vec::new() }
    }

    /// Adds `app` unless an equal app is held already: the first occurrence
    /// wins.
    pub fn insert(&mut self, app: App)
        ensures
            apps_view(final(self).apps@) == (if apps_view(old(self).apps@).contains(app@) {
                apps_view(old(self).apps@)
            } else {
                apps_view(old(self).apps@).push(app@)
            }),
    {
        let ghost before = apps_view(self.apps@);
        let mut i: usize = 0;
        while i < self.apps.len()
            invariant
                i <= self.apps@.len(),
                apps_view(self.apps@) == before,
                forall|k: int| 0 <= k < i ==> self.apps@[k]@ != app@,
            decreases self.apps@.len() - i,
        {
            if self.apps[i].same_as(&app) {
                assert(before[i as int] == app@);
                return;
            }
            i = i + 1;
        }
        assert(!before.contains(app@)) by {
            if before.contains(app@) {
                let k = choose|k: int| 0 <= k < before.len() && before[k] == app@;
                assert(self.apps@[k]@ == app@);
            }
        }
        self.apps.push(app);
        assert(apps_view(self.apps@) =~= before.push(app@));
    }
}

/// `raw` reconciled: each app once, first occurrences in their order.
pub fn reconcile(raw: &Vec<App>) -> (r: Vec<App>)
    ensures
        apps_view(r@) == dedup(apps_view(raw@)),
{
    let mut rec = Reconciler::new();
    let mut i: usize = 0;
    assert(apps_view(rec.apps@) =~= dedup(apps_view(raw@.take(0))));
    while i < raw.len()
        invariant
            i <= raw@.len(),
            apps_view(rec.apps@) == dedup(apps_view(raw@.take(i as int))),
        decreases raw@.len() - i,
    {
        assert(apps_view(raw@.take(i + 1 as int)).drop_last() =~= apps_view(raw@.take(i as int)));
        rec.insert(raw[i].duplicate());
        i = i + 1;
    }
    assert(raw@.take(raw@.len() as int) =~= raw@);
    rec.apps
}

/// Adds `p` to `r` unless an equal root is held already.
fn push_unique_path(r: &mut Vec<SearchPath>, p: &SearchPath)
    ensures
        paths_view(final(r)@) == (if paths_view(old(r)@).contains(p@) {
            paths_view(old(r)@)
        } else {
            paths_view(old(r)@).push(p@)
        }),
{
    let ghost before = paths_view(r@);
    let mut j: usize = 0;
    while j < r.len()
        invariant
            j <= r@.len(),
            paths_view(r@) == before,
            forall|k: int| 0 <= k < j ==> r@[k]@ != p@,
        decreases r@.len() - j,
    {
        if r[j].same_as(p) {
            assert(before[j as int] == p@);
            return;
        }
        j = j + 1;
    }
    assert(!before.contains(p@)) by {
        if before.contains(p@) {
            let k = choose|k: int| 0 <= k < before.len() && before[k] == p@;
            assert(r@[k]@ == p@);
        }
    }
    r.push(p.duplicate());
    assert(paths_view(r@) =~= before.push(p@));
}

/// `extra` added to `defaults`, each root once, first occurrences in order.
pub fn merge_search_paths(defaults: &Vec<SearchPath>, extra: &Vec<SearchPath>) -> (r: Vec<
    SearchPath,
>)
    ensures
        paths_view(r@) == dedup(paths_view(defaults@ + extra@)),
{
    let ghost all = defaults@ + extra@;
    let mut r: Vec<SearchPath> = Vec::new();
    let mut i: usize = 0;
    assert(paths_view(r@) =~= dedup(paths_view(all.take(0))));
    while i < defaults.len()
        invariant
            all == defaults@ + extra@,
            i <= defaults@.len(),
            paths_view(r@) == dedup(paths_view(all.take(i as int))),
        decreases defaults@.len() - i,
    {
        assert(paths_view(all.take(i + 1 as int)).drop_last() =~= paths_view(all.take(i as int)));
        assert(all[i as int] == defaults@[i as int]);
        push_unique_path(&mut r, &defaults[i]);
        i = i + 1;
    }
    let mut j: usize = 0;
    while j < extra.len()
        invariant
            all == defaults@ + extra@,
            j <= extra@.len(),
            paths_view(r@) == dedup(paths_view(all.take(defaults@.len() + j))),
        decreases extra@.len() - j,
    {
        assert(paths_view(all.take(defaults@.len() + j + 1)).drop_last() =~= paths_view(
            all.take(defaults@.len() + j),
        ));
        assert(all[defaults@.len() + j] == extra@[j as int]);
        push_unique_path(&mut r, &extra[j]);
        j = j + 1;
    }
    assert(all.take(all.len() as int) =~= all);
    r
}

/// The command that opens `file_path` with `app`: its executable, then the
/// file; `None` when the app has no executable.
pub fn exec_command(file_path: &str, app: &App) -> (r: Option<Vec<String>>)
    ensures
        match r {
            Some(v) => app.app_path_exe is Some && crate::scan::strs_view(v@) == seq![
                app.app_path_exe->0@,
                file_path@,
            ],
            None => app.app_path_exe is None,
        },
{
    match &app.app_path_exe {
        Some(exe) => {
            let mut v: Vec<String> = Vec::new();
            v.push(exe.clone());
            v.push(file_path.to_string());
            assert(crate::scan::strs_view(v@) =~= seq![exe@, file_path@]);
            Some(v)
        },
        None => None,
    }
}

} // verus!
