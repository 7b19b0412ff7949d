//! macOS: bundles found by the system's application index and by walking
//! extra roots, and the tie-break policy for a bundle's icon files.
use vstd::prelude::*;
use crate::common::{App, AppView, apps_view, dedup, opt_view, reconcile};
use crate::scan::strs_view;
use crate::text::{
    chars_of, string_of, join, join_path, file_name, file_name_of, extension, has_extension,
    occurs_at, matches_at, split, split_on,
};
use crate::utils::mac::{MacAppPath, bundle_app, listed, is_listed};

verus! {

/// Whether `c` is the lower-case ASCII letter `k`, in either case.
pub open spec fn same_letter(c: char, k: char) -> bool {
    c == k || (c as u32) + 32 == (k as u32)
}

/// Whether `name` holds `kw` at `i`, ignoring ASCII case.
pub open spec fn keyword_at(name: Seq<char>, i: int, kw: Seq<char>) -> bool {
    0 <= i && i + kw.len() <= name.len() && forall|j: int|
        0 <= j < kw.len() ==> same_letter(#[trigger] name[i + j], kw[j])
}

/// Whether the file name of `p` holds `appicon`, ignoring ASCII case.
pub open spec fn names_app_icon(p: Seq<char>) -> bool {
    exists|i: int| keyword_at(file_name(p, false), i, "appicon"@)
}

/// Whether `name` holds the lower-case keyword `kw`, ignoring ASCII case.
fn holds_keyword(name: &[char], kw: &[char]) -> (r: bool)
    ensures
        r == exists|i: int| keyword_at(name@, i, kw@),
{
    if kw.len() > name.len() {
        assert forall|i: int| !keyword_at(name@, i, kw@) by {}
        return false;
    }
    let n = name.len();
    let m = kw.len();
    let mut i: usize = 0;
    while i <= n - m
        invariant
            n == name@.len(),
            m == kw@.len(),
            m <= n,
            i <= n - m + 1,
            forall|m: int| 0 <= m < i ==> !keyword_at(name@, m, kw@),
        decreases n - i,
    {
        let mut j: usize = 0;
        let mut ok = true;
        while j < m
            invariant
                n == name@.len(),
                m == kw@.len(),
                i + m <= n,
                j <= m,
                ok == forall|t: int| 0 <= t < j ==> same_letter(#[trigger] name@[i + t], kw@[t]),
            decreases kw@.len() - j,
        {
            let c = name[i + j];
            let k = kw[j];
            if !(c == k || ((k as u32) >= 32 && (c as u32) == (k as u32) - 32)) {
                ok = false;
            }
            j = j + 1;
        }
        if ok {
            assert(keyword_at(name@, i as int, kw@));
            return true;
        }
        i = i + 1;
    }
    assert forall|m: int| !keyword_at(name@, m, kw@) by {
        if m >= i {
            assert(!(m + kw@.len() <= name@.len()));
        }
    }
    false
}

/// The paths found below `dir` with the extension `ext`, in walk order.
pub open spec fn files_below(entries: Seq<Seq<char>>, dir: Seq<char>, ext: Seq<char>) -> Seq<
    Seq<char>,
>
    decreases entries.len(),
{
    if entries.len() == 0 {
        seq![]
    } else {
        let r = files_below(entries.drop_last(), dir, ext);
        let p = entries.last();
        if occurs_at(p, 0, dir.push('/')) && extension(p, false) == Some(ext) {
            r.push(p)
        } else {
            r
        }
    }
}

/// The earliest of the shortest candidates, among those that name
/// `appicon` when `keyword_only`.
pub open spec fn shortest(c: Seq<Seq<char>>, keyword_only: bool) -> Option<int>
    decreases c.len(),
{
    if c.len() == 0 {
        None
    } else {
        let b = shortest(c.drop_last(), keyword_only);
        let p = c.last();
        if (!keyword_only || names_app_icon(p)) && (b is None || p.len() < c[b->0].len()) {
            Some(c.len() - 1)
        } else {
            b
        }
    }
}

proof fn lemma_shortest_range(c: Seq<Seq<char>>, keyword_only: bool)
    ensures
        shortest(c, keyword_only) matches Some(k) ==> 0 <= k < c.len(),
    decreases c.len(),
{
    if c.len() > 0 {
        lemma_shortest_range(c.drop_last(), keyword_only);
    }
}

/// The icon chosen among several candidates: those that name `appicon`
/// win; among them, or among all when none does, the shortest path, the
/// earliest of equals.
pub open spec fn pick_icon(c: Seq<Seq<char>>) -> Option<Seq<char>> {
    match shortest(c, true) {
        Some(k) => Some(c[k]),
        None => match shortest(c, false) {
            Some(k) => Some(c[k]),
            None => None,
        },
    }
}

/// The icon chosen among `candidates`; see [`pick_icon`].
pub fn pick_icon_of(candidates: &Vec<String>) -> (r: Option<String>)
    ensures
        opt_view(r) == pick_icon(strs_view(candidates@)),
{
    let ghost cv = strs_view(candidates@);
    let kw = chars_of("appicon");
    let mut best_kw: Option<usize> = None;
    let mut best_all: Option<usize> = None;
    let mut i: usize = 0;
    while i < candidates.len()
        invariant
            cv == strs_view(candidates@),
            kw@ == "appicon"@,
            i <= cv.len(),
            best_kw == (match shortest(cv.take(i as int), true) {
                Some(k) => Some(k as usize),
                None => None::<usize>,
            }),
            best_all == (match shortest(cv.take(i as int), false) {
                Some(k) => Some(k as usize),
                None => None::<usize>,
            }),
            best_kw matches Some(k) ==> k < i,
            best_all matches Some(k) ==> k < i,
        decreases cv.len() - i,
    {
        proof {
            lemma_shortest_range(cv.take(i as int), true);
            lemma_shortest_range(cv.take(i as int), false);
        }
        let ghost t = cv.take(i + 1);
        assert(t.drop_last() =~= cv.take(i as int));
        assert(t.last() == candidates@[i as int]@);
        let p = chars_of(candidates[i].as_str());
        let len = p.len();
        let name = file_name_of(&p, false);
        let named = holds_keyword(&name, &kw);
        match best_kw {
            Some(b) => {
                assert(cv.take(i as int)[b as int] == cv[b as int]);
                let bl = chars_of(candidates[b].as_str()).len();
                if named && len < bl {
                    best_kw = Some(i);
                }
            },
            None => {
                if named {
                    best_kw = Some(i);
                }
            },
        }
        match best_all {
            Some(b) => {
                assert(cv.take(i as int)[b as int] == cv[b as int]);
                let bl = chars_of(candidates[b].as_str()).len();
                if len < bl {
                    best_all = Some(i);
                }
            },
            None => {
                best_all = Some(i);
            },
        }
        i = i + 1;
    }
    assert(cv.take(cv.len() as int) =~= cv);
    proof {
        lemma_shortest_range(cv, true);
        lemma_shortest_range(cv, false);
    }
    match best_kw {
        Some(k) => Some(candidates[k].clone()),
        None => match best_all {
            Some(k) => Some(candidates[k].clone()),
            None => None,
        },
    }
}

/// The paths among `entries` below `dir` with the extension `ext`.
pub fn find_files_below(entries: &Vec<String>, dir: &[char], ext: &str) -> (r: Vec<String>)
    ensures
        strs_view(r@) == files_below(strs_view(entries@), dir@, ext@),
{
    let ghost ev = strs_view(entries@);
    let mut prefix: Vec<char> = crate::text::slice_of(dir, 0, dir.len());
    assert(dir@.subrange(0, dir@.len() as int) =~= dir@);
    prefix.push('/');
    let e = chars_of(ext);
    let mut r: Vec<String> = Vec::new();
    let mut i: usize = 0;
    while i < entries.len()
        invariant
            ev == strs_view(entries@),
            prefix@ == dir@.push('/'),
            e@ == ext@,
            i <= ev.len(),
            strs_view(r@) == files_below(ev.take(i as int), dir@, ext@),
        decreases ev.len() - i,
    {
        let ghost t = ev.take(i + 1);
        assert(t.drop_last() =~= ev.take(i as int));
        assert(t.last() == entries@[i as int]@);
        let p = chars_of(entries[i].as_str());
        if matches_at(&p, 0, &prefix) && has_extension(&p, &e, false) {
            let ghost before = strs_view(r@);
            r.push(entries[i].clone());
            assert(strs_view(r@) =~= before.push(t.last()));
        }
        i = i + 1;
    }
    assert(ev.take(ev.len() as int) =~= ev);
    r
}

/// The icon of an iOS bundle at `app_path`: the `.png` files inside it, by
/// the tie-break of [`pick_icon`].
pub fn find_ios_app_icon(app_path: &str, entries: &Vec<String>) -> (r: Option<String>)
    ensures
        opt_view(r) == pick_icon(files_below(strs_view(entries@), app_path@, "png"@)),
{
    let dir = chars_of(app_path);
    let pngs = find_files_below(entries, &dir, "png");
    pick_icon_of(&pngs)
}

/// The icon found by searching the files of the bundle at `app_path`.
pub open spec fn searched_icon(app_path: Seq<char>, entries: Seq<String>) -> Option<Seq<char>> {
    let contents = join(app_path, "Contents"@, false);
    let default = join(join(contents, "Resources"@, false), "AppIcon.icns"@, false);
    if !listed(entries, contents) {
        pick_icon(files_below(strs_view(entries), app_path, "png"@))
    } else if listed(entries, default) {
        Some(default)
    } else {
        pick_icon(files_below(strs_view(entries), contents, "icns"@))
    }
}

/// The icon of the bundle at `app_path`, found by searching the bundle's
/// files: `Contents/Resources/AppIcon.icns` where it exists, else the
/// `.icns` files below `Contents` by the tie-break of [`pick_icon`]; a
/// bundle without `Contents` is searched as an iOS bundle.
pub fn find_app_icns(app_path: &str, entries: &Vec<String>) -> (r: Option<String>)
    ensures
        opt_view(r) == searched_icon(app_path@, entries@),
{
    let p = chars_of(app_path);
    let contents = join_path(&p, &chars_of("Contents"), false);
    if !is_listed(entries, &contents) {
        return find_ios_app_icon(app_path, entries);
    }
    let resources = join_path(&contents, &chars_of("Resources"), false);
    let default = join_path(&resources, &chars_of("AppIcon.icns"), false);
    if is_listed(entries, &default) {
        return Some(string_of(&default));
    }
    let icns = find_files_below(entries, &contents, "icns");
    pick_icon_of(&icns)
}

/// The apps that `bundles` describe, in order, without those that are no
/// apps.
pub open spec fn bundle_apps(bundles: Seq<MacAppPath>) -> Seq<AppView>
    decreases bundles.len(),
{
    if bundles.len() == 0 {
        seq![]
    } else {
        let r = bundle_apps(bundles.drop_last());
        match bundle_app(bundles.last()) {
            Some(a) => r.push(a),
            None => r,
        }
    }
}

/// The apps that the bundles listed by the system's application index
/// describe, in order; bundles that are no apps are skipped.
pub fn get_all_apps_mdfind(bundles: &Vec<MacAppPath>) -> (r: Vec<App>)
    ensures
        apps_view(r@) == bundle_apps(bundles@),
{
    let mut r: Vec<App> = Vec::new();
    let mut i: usize = 0;
    while i < bundles.len()
        invariant
            i <= bundles@.len(),
            apps_view(r@) == bundle_apps(bundles@.take(i as int)),
        decreases bundles@.len() - i,
    {
        assert(bundles@.take(i + 1).drop_last() =~= bundles@.take(i as int));
        assert(bundles@.take(i + 1).last() == bundles@[i as int]);
        match bundles[i].to_app() {
            Some(app) => {
                let ghost before = apps_view(r@);
                r.push(app);
                assert(apps_view(r@) =~= before.push(app@));
            },
            None => {},
        }
        i = i + 1;
    }
    assert(bundles@.take(bundles@.len() as int) =~= bundles@);
    r
}

/// The non-empty lines of the application index's output: one bundle path
/// each.
pub open spec fn index_paths(output: Seq<char>) -> Seq<Seq<char>> {
    split(output, '\n').filter(|l: Seq<char>| l.len() > 0)
}

/// The bundle paths that the application index printed, one per line.
pub fn parse_mdfind_output(output: &str) -> (r: Vec<String>)
    ensures
        strs_view(r@) == index_paths(output@),
{
    let s = chars_of(output);
    let lines = split_on(&s, '\n');
    let ghost lv = lines@.map_values(|v: Vec<char>| v@);
    let mut r: Vec<String> = Vec::new();
    let mut i: usize = 0;
    proof {
        reveal(Seq::filter);
    }
    assert(lv.take(0).filter(|l: Seq<char>| l.len() > 0) =~= Seq::<Seq<char>>::empty());
    while i < lines.len()
        invariant
            lv == lines@.map_values(|v: Vec<char>| v@),
            lv == split(output@, '\n'),
            i <= lv.len(),
            strs_view(r@) == lv.take(i as int).filter(|l: Seq<char>| l.len() > 0),
        decreases lv.len() - i,
    {
        let ghost t = lv.take(i + 1);
        assert(t.drop_last() =~= lv.take(i as int));
        proof {
            reveal(Seq::filter);
        }
        assert(lv.take(i as int).push(lv[i as int]) =~= t);
        if lines[i].len() > 0 {
            let ghost before = strs_view(r@);
            r.push(string_of(&lines[i]));
            assert(strs_view(r@) =~= before.push(lv[i as int]));
        }
        i = i + 1;
    }
    assert(lv.take(lv.len() as int) =~= lv);
    r
}

/// The macOS app list of one scan: the apps of the bundles that the
/// application index listed, then those of the bundles found below the extra
/// roots, each app once, in the order first found.
pub fn get_all_apps(indexed: &Vec<MacAppPath>, walked: &Vec<MacAppPath>) -> (r: Vec<App>)
    ensures
        apps_view(r@) == dedup(bundle_apps(indexed@) + bundle_apps(walked@)),
{
    let mut all = get_all_apps_mdfind(indexed);
    let more = get_all_apps_mdfind(walked);
    let ghost a = apps_view(all@);
    let mut i: usize = 0;
    while i < more.len()
        invariant
            apps_view(all@) == a + apps_view(more@).take(i as int),
            i <= more@.len(),
        decreases more@.len() - i,
    {
        let ghost before = apps_view(all@);
        let d = more[i].duplicate();
        all.push(d);
        assert(apps_view(more@)[i as int] == more@[i as int]@);
        assert(apps_view(all@) =~= before.push(d@));
        assert(apps_view(more@).take(i + 1) =~= apps_view(more@).take(i as int).push(d@));
        assert(apps_view(all@) =~= a + apps_view(more@).take(i + 1));
        i = i + 1;
    }
    assert(apps_view(more@).take(more@.len() as int) =~= apps_view(more@));
    reconcile(&all)
}

/// The command that opens `file_path` with the bundle of `app`:
/// `open -a <bundle> <file>`.
pub fn open_file_with(file_path: &str, app: &App) -> (r: Vec<String>)
    ensures
        strs_view(r@) == seq!["open"@, "-a"@, app.app_desktop_path@, file_path@],
{
    let mut r: Vec<String> = Vec::new();
    r.push("open".to_string());
    r.push("-a".to_string());
    r.push(app.app_desktop_path.clone());
    r.push(file_path.to_string());
    assert(strs_view(r@) =~= seq!["open"@, "-a"@, app.app_desktop_path@, file_path@]);
    r
}

} // verus!
