//! The macOS bundle model: a bundle folder, what a walk found inside it, and
//! the fields of its `Info.plist` that discovery reads.
use vstd::prelude::*;
use crate::common::{App, AppView, opt_view};
use crate::scan::strs_view;
use crate::text::{
    chars_of, string_of, join, join_path, file_stem, file_stem_of, parent, parent_of, extension,
    has_extension, extension_of, chars_eq,
};

verus! {

/// The primary icon of an iOS bundle.
#[derive(Debug, Clone)]
pub struct CFBundlePrimaryIcon {
    pub cf_bundle_icon_name: Option<String>,
    pub cf_bundle_icon_files: Option<Vec<String>>,
}

/// The icon dictionary of an iOS bundle.
#[derive(Debug, Clone)]
pub struct CFBundleIcons {
    pub cf_bundle_primary_icon: Option<CFBundlePrimaryIcon>,
}

/// The fields of a bundle's `Info.plist`.
#[derive(Debug, Clone)]
pub struct InfoPlist {
    pub cf_bundle_icon_file: Option<String>,
    pub cf_bundle_icons: Option<CFBundleIcons>,
    pub cf_bundle_icons_ipad: Option<CFBundleIcons>,
    pub cf_bundle_executable: Option<String>,
    pub cf_bundle_icon_name: Option<String>,
    pub cf_bundle_identifier: Option<String>,
    pub cf_bundle_info_dictionary_version: Option<String>,
    pub cf_bundle_name: Option<String>,
    pub cf_bundle_package_type: Option<String>,
    pub cf_bundle_short_version_string: Option<String>,
    pub cf_bundle_version: Option<String>,
    pub cf_bundle_display_name: Option<String>,
}

/// The first file of an iOS bundle's primary icon.
pub open spec fn primary_icon_file(info: InfoPlist) -> Option<Seq<char>> {
    match info.cf_bundle_icons {
        Some(icons) => match icons.cf_bundle_primary_icon {
            Some(primary) => match primary.cf_bundle_icon_files {
                Some(files) => if files@.len() > 0 {
                    Some(files@[0]@)
                } else {
                    None
                },
                None => None,
            },
            None => None,
        },
        None => None,
    }
}

/// The first file of an iOS bundle's primary icon.
pub fn first_primary_icon_file(info: &InfoPlist) -> (r: Option<String>)
    ensures
        opt_view(r) == primary_icon_file(*info),
{
    match &info.cf_bundle_icons {
        Some(icons) => match &icons.cf_bundle_primary_icon {
            Some(primary) => match &primary.cf_bundle_icon_files {
                Some(files) => if files.len() > 0 {
                    Some(files[0].clone())
                } else {
                    None
                },
                None => None,
            },
            None => None,
        },
        None => None,
    }
}

/// A bundle folder, the paths that a walk found inside it (the folder
/// itself included), and its parsed `Info.plist`, once read.
#[derive(Debug, Clone)]
pub struct MacAppPath {
    pub path: String,
    pub entries: Vec<String>,
    pub info_plist: Option<InfoPlist>,
}

/// Whether `p` is among the paths found.
pub open spec fn listed(entries: Seq<String>, p: Seq<char>) -> bool {
    strs_view(entries).contains(p)
}

/// Whether `p` is among the paths found.
pub fn is_listed(entries: &Vec<String>, p: &[char]) -> (r: bool)
    ensures
        r == listed(entries@, p@),
{
    let mut i: usize = 0;
    while i < entries.len()
        invariant
            i <= entries@.len(),
            forall|k: int| 0 <= k < i ==> entries@[k]@ != p@,
        decreases entries@.len() - i,
    {
        let e = chars_of(entries[i].as_str());
        if chars_eq(&e, p) {
            assert(strs_view(entries@)[i as int] == p@);
            return true;
        }
        i = i + 1;
    }
    assert(!strs_view(entries@).contains(p@)) by {
        if strs_view(entries@).contains(p@) {
            let k = choose|k: int| 0 <= k < strs_view(entries@).len() && strs_view(entries@)[k] == p@;
            assert(entries@[k]@ == p@);
        }
    }
    false
}

/// The first path found that is an `.app` directly inside `wrapper`.
pub open spec fn first_inner_app(entries: Seq<Seq<char>>, wrapper: Seq<char>) -> Option<Seq<char>>
    decreases entries.len(),
{
    if entries.len() == 0 {
        None
    } else if parent(entries[0], false) == wrapper && extension(entries[0], false) == Some(
        "app"@,
    ) {
        Some(entries[0])
    } else {
        first_inner_app(entries.drop_first(), wrapper)
    }
}

impl MacAppPath {
    /// The bundle at `path`, with the paths that a walk found inside it.
    pub fn new(path: String, entries: Vec<String>) -> (r: MacAppPath)
        ensures
            r.path@ == path@,
            strs_view(r.entries@) == strs_view(entries@),
            r.info_plist is None,
    {
        MacAppPath { path, entries, info_plist: None }
    }

    /// Records the parsed `Info.plist` that [`Self::get_info_plist_path`] names.
    pub fn set_info_plist(&mut self, info: Option<InfoPlist>)
        ensures
            final(self).path == old(self).path,
            final(self).entries == old(self).entries,
            final(self).info_plist == info,
    {
        self.info_plist = info;
    }

    /// `<bundle>/Wrapper`, where iOS apps keep their real bundle.
    pub open spec fn wrapper_path_spec(&self) -> Seq<char> {
        join(self.path@, "Wrapper"@, false)
    }

    /// The inner bundle of an iOS app: the first `.app` found in the wrapper.
    pub open spec fn inner_app_spec(&self) -> Option<Seq<char>> {
        if listed(self.entries@, self.wrapper_path_spec()) {
            first_inner_app(strs_view(self.entries@), self.wrapper_path_spec())
        } else {
            None
        }
    }

    /// Where the `Info.plist` is: inside the inner bundle of a wrapped app,
    /// else `Contents/Info.plist`; only if it was found.
    pub open spec fn info_plist_path_spec(&self) -> Option<Seq<char>> {
        let p = if listed(self.entries@, self.wrapper_path_spec()) {
            match self.inner_app_spec() {
                Some(inner) => Some(join(inner, "Info.plist"@, false)),
                None => None,
            }
        } else {
            Some(join(join(self.path@, "Contents"@, false), "Info.plist"@, false))
        };
        match p {
            Some(q) => if listed(self.entries@, q) {
                Some(q)
            } else {
                None
            },
            None => None,
        }
    }

    /// Whether the bundle folder itself was found.
    pub fn path_exists(&self) -> (r: bool)
        ensures
            r == listed(self.entries@, self.path@),
    {
        let p = chars_of(self.path.as_str());
        is_listed(&self.entries, &p)
    }

    /// The `Wrapper` folder of an iOS app, if the bundle has one.
    pub fn get_wrapper_path(&self) -> (r: Option<String>)
        ensures
            match r {
                Some(w) => w@ == self.wrapper_path_spec() && listed(
                    self.entries@,
                    self.wrapper_path_spec(),
                ),
                None => !listed(self.entries@, self.wrapper_path_spec()),
            },
    {
        let p = chars_of(self.path.as_str());
        let w = chars_of("Wrapper");
        let wp = join_path(&p, &w, false);
        if is_listed(&self.entries, &wp) {
            Some(string_of(&wp))
        } else {
            None
        }
    }

    /// Whether the bundle wraps an iOS app.
    pub fn has_wrapper(&self) -> (r: bool)
        ensures
            r == listed(self.entries@, self.wrapper_path_spec()),
    {
        self.get_wrapper_path().is_some()
    }

    /// The inner bundle of an iOS app.
    pub fn get_app_path_in_wrapper(&self) -> (r: Option<String>)
        ensures
            opt_view(r) == self.inner_app_spec(),
    {
        let w = match self.get_wrapper_path() {
            Some(w) => chars_of(w.as_str()),
            None => {
                return None;
            },
        };
        let app = chars_of("app");
        let ghost ev = strs_view(self.entries@);
        let mut i: usize = 0;
        assert(ev.skip(0) =~= ev);
        while i < self.entries.len()
            invariant
                ev == strs_view(self.entries@),
                w@ == self.wrapper_path_spec(),
                listed(self.entries@, self.wrapper_path_spec()),
                app@ == "app"@,
                i <= ev.len(),
                first_inner_app(ev, w@) == first_inner_app(ev.skip(i as int), w@),
            decreases ev.len() - i,
        {
            let e = chars_of(self.entries[i].as_str());
            assert(ev.skip(i as int)[0] == e@);
            assert(ev.skip(i as int).drop_first() =~= ev.skip(i + 1));
            let par = parent_of(&e, false);
            if chars_eq(&par, &w) && has_extension(&e, &app, false) {
                let found = self.entries[i].clone();
                assert(found@ == ev[i as int]);
                assert(first_inner_app(ev.skip(i as int), w@) == Some(e@));
                return Some(found);
            }
            i = i + 1;
        }
        None
    }

    /// Where the bundle's `Info.plist` is, if it was found.
    pub fn get_info_plist_path(&self) -> (r: Option<String>)
        ensures
            opt_view(r) == self.info_plist_path_spec(),
    {
        let candidate = if self.has_wrapper() {
            match self.get_app_path_in_wrapper() {
                Some(inner) => {
                    let i = chars_of(inner.as_str());
                    let f = chars_of("Info.plist");
                    join_path(&i, &f, false)
                },
                None => {
                    return None;
                },
            }
        } else {
            let p = chars_of(self.path.as_str());
            let c = chars_of("Contents");
            let f = chars_of("Info.plist");
            let contents = join_path(&p, &c, false);
            join_path(&contents, &f, false)
        };
        if is_listed(&self.entries, &candidate) {
            Some(string_of(&candidate))
        } else {
            None
        }
    }

    /// Whether the bundle's `Info.plist` was found.
    pub fn has_info_plist(&self) -> (r: bool)
        ensures
            r == self.info_plist_path_spec() is Some,
    {
        self.get_info_plist_path().is_some()
    }

    /// Whether the path is an app: the folder and its `Info.plist` exist.
    pub fn is_app(&self) -> (r: bool)
        ensures
            r == (listed(self.entries@, self.path@) && self.info_plist_path_spec() is Some),
    {
        self.path_exists() && self.has_info_plist()
    }

    /// The executable that the `Info.plist` names, as it names it.
    pub fn get_executable_path(&self) -> (r: Option<String>)
        ensures
            opt_view(r) == (if self.info_plist_path_spec() is Some {
                match self.info_plist {
                    Some(info) => opt_view(info.cf_bundle_executable),
                    None => None,
                }
            } else {
                None
            }),
    {
        if !self.has_info_plist() {
            return None;
        }
        match &self.info_plist {
            Some(info) => crate::common::copy_opt(&info.cf_bundle_executable),
            None => None,
        }
    }

    /// The executable below `Contents/MacOS` that `info` names, if it was
    /// found.
    fn executable_in(&self, info: &InfoPlist) -> (r: Option<String>)
        ensures
            opt_view(r) == bundle_executable(*self, *info),
    {
        match &info.cf_bundle_executable {
            Some(exe) => {
                let p = chars_of(self.path.as_str());
                let contents = join_path(&p, &chars_of("Contents"), false);
                let macos = join_path(&contents, &chars_of("MacOS"), false);
                let candidate = join_path(&macos, &chars_of(exe.as_str()), false);
                if is_listed(&self.entries, &candidate) {
                    Some(string_of(&candidate))
                } else {
                    None
                }
            },
            None => None,
        }
    }

    /// The bundle's executable as a full path, where its `Info.plist` was
    /// found and read and the file it names was found below
    /// `Contents/MacOS`.
    pub fn get_executable_path_with_bundle(&self) -> (r: Option<String>)
        ensures
            opt_view(r) == (if self.info_plist_path_spec() is Some && self.info_plist is Some {
                bundle_executable(*self, self.info_plist->0)
            } else {
                None
            }),
    {
        if !self.has_info_plist() {
            return None;
        }
        match &self.info_plist {
            Some(info) => self.executable_in(info),
            None => None,
        }
    }

    /// The app that the bundle describes; see [`bundle_app`].
    pub fn to_app(&self) -> (r: Option<App>)
        ensures
            match r {
                Some(a) => bundle_app(*self) == Some(a@),
                None => bundle_app(*self) is None,
            },
    {
        if !self.is_app() {
            return None;
        }
        let info = match &self.info_plist {
            Some(info) => info,
            None => {
                return None;
            },
        };
        let p = chars_of(self.path.as_str());
        let name = file_stem_of(&p, false);
        let wrapped = self.has_wrapper();
        let icon_file = if wrapped {
            first_primary_icon_file(info)
        } else {
            crate::common::copy_opt(&info.cf_bundle_icon_file)
        };
        let contents = join_path(&p, &chars_of("Contents"), false);
        let icon_dir = if wrapped {
            match self.get_app_path_in_wrapper() {
                Some(inner) => chars_of(inner.as_str()),
                None => {
                    return None;
                },
            }
        } else {
            join_path(&contents, &chars_of("Resources"), false)
        };
        let icon_path = match icon_file {
            Some(f) => {
                let fc = chars_of(f.as_str());
                let file = match extension_of(&fc, false) {
                    Some(_) => fc,
                    None => crate::text::concat(&fc, &chars_of(".icns")),
                };
                let candidate = join_path(&icon_dir, &file, false);
                if is_listed(&self.entries, &candidate) {
                    Some(string_of(&candidate))
                } else {
                    None
                }
            },
            None => None,
        };
        let app_path_exe = self.executable_in(info);
        Some(
            App {
                name: string_of(&name),
                icon_path,
                app_path_exe,
                app_desktop_path: self.path.clone(),
            },
        )
    }
}

/// The executable of a bundle whose `Info.plist` names one:
/// `Contents/MacOS/` and `CFBundleExecutable`, where it was found.
pub open spec fn bundle_executable(b: MacAppPath, info: InfoPlist) -> Option<Seq<char>> {
    match opt_view(info.cf_bundle_executable) {
        Some(e) => {
            let c = join(join(join(b.path@, "Contents"@, false), "MacOS"@, false), e, false);
            if listed(b.entries@, c) {
                Some(c)
            } else {
                None
            }
        },
        None => None,
    }
}

/// An icon file name as the bundle names it, with `.icns` added when it has
/// no extension.
pub open spec fn icon_file_name(f: Seq<char>) -> Seq<char> {
    if extension(f, false) is Some {
        f
    } else {
        f + ".icns"@
    }
}

/// The app that a bundle describes, if it is an app whose `Info.plist` was
/// read: named after the bundle folder; its icon the file that the
/// `Info.plist` names (the primary icon's first file for a wrapped iOS app,
/// else `CFBundleIconFile`), inside the inner bundle of a wrapped app and
/// in `Contents/Resources` otherwise; its executable `Contents/MacOS/` and
/// `CFBundleExecutable`; each of the two only where it was found.
pub open spec fn bundle_app(b: MacAppPath) -> Option<AppView> {
    if !(listed(b.entries@, b.path@) && b.info_plist_path_spec() is Some) || b.info_plist is None {
        None
    } else {
        let info = b.info_plist->0;
        let wrapped = listed(b.entries@, b.wrapper_path_spec());
        let contents = join(b.path@, "Contents"@, false);
        let icon_file = if wrapped {
            primary_icon_file(info)
        } else {
            opt_view(info.cf_bundle_icon_file)
        };
        let icon_dir = if wrapped {
            b.inner_app_spec()->0
        } else {
            join(contents, "Resources"@, false)
        };
        let icon_path = match icon_file {
            Some(f) => {
                let c = join(icon_dir, icon_file_name(f), false);
                if listed(b.entries@, c) {
                    Some(c)
                } else {
                    None
                }
            },
            None => None,
        };
        let exe = bundle_executable(b, info);
        Some(
            AppView {
                name: file_stem(b.path@, false),
                icon_path,
                app_path_exe: exe,
                app_desktop_path: b.path@,
            },
        )
    }
}

} // verus!
