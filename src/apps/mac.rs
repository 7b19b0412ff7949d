//! Bundles of the applications folder, named by their folder, with icons
//! found by searching their files.
use vstd::prelude::*;
use crate::common::{App, AppView, apps_view};
use crate::text::{chars_of, string_of, file_name, file_name_of, extension, has_extension};
use crate::utils::mac::MacAppPath;
use crate::platforms::mac::{find_app_icns, searched_icon};

verus! {

/// The apps of the `.app` folders among `bundles`, in order: each named by
/// its folder, the folder as its executable and descriptor, its icon found
/// by searching its files.
pub open spec fn folder_apps(bundles: Seq<MacAppPath>) -> Seq<AppView>
    decreases bundles.len(),
{
    if bundles.len() == 0 {
        seq![]
    } else {
        let r = folder_apps(bundles.drop_last());
        let b = bundles.last();
        if extension(b.path@, false) == Some("app"@) {
            r.push(
                AppView {
                    name: file_name(b.path@, false),
                    icon_path: searched_icon(b.path@, b.entries@),
                    app_path_exe: Some(b.path@),
                    app_desktop_path: b.path@,
                },
            )
        } else {
            r
        }
    }
}

/// The apps of the `.app` folders among `bundles`; see [`folder_apps`].
pub fn get_apps(bundles: &Vec<MacAppPath>) -> (r: Vec<App>)
    ensures
        apps_view(r@) == folder_apps(bundles@),
{
    let app_ext = chars_of("app");
    let mut r: Vec<App> = Vec::new();
    let mut i: usize = 0;
    while i < bundles.len()
        invariant
            app_ext@ == "app"@,
            i <= bundles@.len(),
            apps_view(r@) == folder_apps(bundles@.take(i as int)),
        decreases bundles@.len() - i,
    {
        let ghost t = bundles@.take(i + 1);
        assert(t.drop_last() =~= bundles@.take(i as int));
        assert(t.last() == bundles@[i as int]);
        let b = &bundles[i];
        let p = chars_of(b.path.as_str());
        if has_extension(&p, &app_ext, false) {
            let icon = find_app_icns(b.path.as_str(), &b.entries);
            let app = App {
                name: string_of(&file_name_of(&p, false)),
                icon_path: icon,
                app_path_exe: Some(b.path.clone()),
                app_desktop_path: b.path.clone(),
            };
            let ghost before = apps_view(r@);
            r.push(app);
            assert(apps_view(r@) =~= before.push(app@));
        }
        i = i + 1;
    }
    assert(bundles@.take(bundles@.len() as int) =~= bundles@);
    r
}

} // verus!
