use applications::apps::mac::get_apps;
use applications::platforms::mac::{
    find_app_icns, find_ios_app_icon, get_all_apps, get_all_apps_mdfind, open_file_with,
    parse_mdfind_output, pick_icon_of,
};
use applications::utils::mac::{CFBundleIcons, CFBundlePrimaryIcon, InfoPlist, MacAppPath};

fn plist(icon: Option<&str>, exe: Option<&str>) -> InfoPlist {
    InfoPlist {
        cf_bundle_icon_file: icon.map(|s| s.to_string()),
        cf_bundle_icons: None,
        cf_bundle_icons_ipad: None,
        cf_bundle_executable: exe.map(|s| s.to_string()),
        cf_bundle_icon_name: None,
        cf_bundle_identifier: None,
        cf_bundle_info_dictionary_version: None,
        cf_bundle_name: None,
        cf_bundle_package_type: None,
        cf_bundle_short_version_string: None,
        cf_bundle_version: None,
        cf_bundle_display_name: None,
    }
}

fn strings(v: &[&str]) -> Vec<String> {
    v.iter().map(|s| s.to_string()).collect()
}

fn discord() -> MacAppPath {
    let mut b = MacAppPath::new(
        "/Applications/Discord.app".to_string(),
        strings(&[
            "/Applications/Discord.app",
            "/Applications/Discord.app/Contents",
            "/Applications/Discord.app/Contents/Info.plist",
            "/Applications/Discord.app/Contents/MacOS",
            "/Applications/Discord.app/Contents/MacOS/Discord",
            "/Applications/Discord.app/Contents/Resources",
            "/Applications/Discord.app/Contents/Resources/electron.icns",
        ]),
    );
    b.set_info_plist(Some(plist(Some("electron.icns"), Some("Discord"))));
    b
}

fn shadowrocket() -> MacAppPath {
    let mut b = MacAppPath::new(
        "/Applications/Shadowrocket.app".to_string(),
        strings(&[
            "/Applications/Shadowrocket.app",
            "/Applications/Shadowrocket.app/Wrapper",
            "/Applications/Shadowrocket.app/Wrapper/Shadowrocket.app",
            "/Applications/Shadowrocket.app/Wrapper/Shadowrocket.app/Info.plist",
            "/Applications/Shadowrocket.app/Wrapper/Shadowrocket.app/AppIcon60x60.icns",
        ]),
    );
    let mut info = plist(None, Some("Shadowrocket"));
    info.cf_bundle_icons = Some(CFBundleIcons {
        cf_bundle_primary_icon: Some(CFBundlePrimaryIcon {
            cf_bundle_icon_name: Some("AppIcon".to_string()),
            cf_bundle_icon_files: Some(strings(&["AppIcon60x60", "AppIcon76x76"])),
        }),
    });
    b.set_info_plist(Some(info));
    b
}

#[test]
fn test_to_app() {
    let mac_app_path = discord();
    let app = mac_app_path.to_app();
    println!("App: {:?}", app);
    let app = app.unwrap();
    assert_eq!(app.name, "Discord");
    assert_eq!(app.icon_path.as_deref(), Some("/Applications/Discord.app/Contents/Resources/electron.icns"));
    assert_eq!(app.app_path_exe.as_deref(), Some("/Applications/Discord.app/Contents/MacOS/Discord"));
    assert_eq!(app.app_desktop_path, "/Applications/Discord.app");
}

#[test]
fn icon_without_extension_gets_icns_and_missing_files_are_absent() {
    let mut b = discord();
    b.set_info_plist(Some(plist(Some("electron"), Some("Missing"))));
    let app = b.to_app().unwrap();
    assert_eq!(app.icon_path.as_deref(), Some("/Applications/Discord.app/Contents/Resources/electron.icns"));
    assert_eq!(app.app_path_exe, None);
    b.set_info_plist(Some(plist(Some("other.png"), None)));
    let app = b.to_app().unwrap();
    assert_eq!(app.icon_path, None);
}

#[test]
fn bundle_without_info_plist_is_skipped() {
    let b = MacAppPath::new("/Applications/Broken.app".to_string(), strings(&["/Applications/Broken.app"]));
    assert!(b.path_exists());
    assert!(!b.has_info_plist());
    assert!(!b.is_app());
    assert!(b.to_app().is_none());
    let mut unread = discord();
    unread.set_info_plist(None);
    assert!(unread.is_app());
    assert!(unread.to_app().is_none());
}

#[test]
fn test_get_app_path_in_wrapper() {
    let mac_app_path = shadowrocket();
    if !mac_app_path.path_exists() {
        return;
    }
    let app_path_in_wrapper = mac_app_path.get_app_path_in_wrapper();
    assert_eq!(
        app_path_in_wrapper.unwrap(),
        "/Applications/Shadowrocket.app/Wrapper/Shadowrocket.app".to_string()
    );
}

#[test]
fn wrapped_ios_app_reads_inner_bundle() {
    let b = shadowrocket();
    assert!(b.has_wrapper());
    assert_eq!(b.get_wrapper_path().as_deref(), Some("/Applications/Shadowrocket.app/Wrapper"));
    assert_eq!(
        b.get_info_plist_path().as_deref(),
        Some("/Applications/Shadowrocket.app/Wrapper/Shadowrocket.app/Info.plist")
    );
    assert_eq!(b.get_executable_path().as_deref(), Some("Shadowrocket"));
    let app = b.to_app().unwrap();
    assert_eq!(app.name, "Shadowrocket");
    assert_eq!(
        app.icon_path.as_deref(),
        Some("/Applications/Shadowrocket.app/Wrapper/Shadowrocket.app/AppIcon60x60.icns")
    );
}

#[test]
fn find_info_plist() {
    let apps = get_all_apps(&vec![discord(), shadowrocket()], &vec![]);
    for app in apps {
        let path = app.app_desktop_path;
        let mac_app_path = if path.contains("Discord") { discord() } else { shadowrocket() };
        let info_plist_path = mac_app_path.get_info_plist_path();
        if info_plist_path.is_none() {
            println!("Info.plist not found: {:?}", path);
        }
    }
}

#[test]
fn mac_get_all_apps() {
    let apps = get_all_apps(&vec![discord()], &vec![shadowrocket(), discord()]);
    assert!(apps.len() > 0);
    assert_eq!(apps.len(), 2);
    assert_eq!(apps[0].name, "Discord");
    assert_eq!(apps[1].name, "Shadowrocket");
}

#[test]
fn mdfind_output_lines_become_bundles() {
    let paths = parse_mdfind_output("/Applications/Discord.app\n/System/Applications/Mail.app\n\n");
    assert_eq!(paths, vec!["/Applications/Discord.app".to_string(), "/System/Applications/Mail.app".to_string()]);
    let apps = get_all_apps_mdfind(&vec![discord(), MacAppPath::new("/nowhere.app".to_string(), vec![])]);
    assert_eq!(apps.len(), 1);
}

#[test]
fn icon_tie_break_prefers_keyword_then_shortest() {
    assert_eq!(
        pick_icon_of(&strings(&["/a/Contents/Resources/doc.icns", "/a/Contents/Resources/x/AppIcon.icns", "/a/Contents/appicon-big.icns"])).as_deref(),
        Some("/a/Contents/appicon-big.icns")
    );
    assert_eq!(
        pick_icon_of(&strings(&["/a/Contents/Resources/long-name.icns", "/a/Contents/b.icns", "/a/Contents/c.icns"])).as_deref(),
        Some("/a/Contents/b.icns")
    );
    assert_eq!(pick_icon_of(&vec![]), None);
}

#[test]
fn find_app_icns_searches_the_bundle() {
    let entries = strings(&[
        "/A.app",
        "/A.app/Contents",
        "/A.app/Contents/Resources",
        "/A.app/Contents/Resources/doc.icns",
        "/A.app/Contents/Resources/x/AppIcon-1.icns",
        "/A.app/Contents/Resources/ab.icns",
    ]);
    assert_eq!(find_app_icns("/A.app", &entries).as_deref(), Some("/A.app/Contents/Resources/x/AppIcon-1.icns"));
    assert_eq!(find_app_icns("/A.app", &entries[..4].to_vec()).as_deref(), Some("/A.app/Contents/Resources/doc.icns"));
    let mut with_default = entries.clone();
    with_default.push("/A.app/Contents/Resources/AppIcon.icns".to_string());
    assert_eq!(find_app_icns("/A.app", &with_default).as_deref(), Some("/A.app/Contents/Resources/AppIcon.icns"));
    let ios = strings(&["/B.app", "/B.app/Wrapper", "/B.app/Wrapper/B.app/AppIcon60x60@2x.png", "/B.app/Wrapper/B.app/x.png"]);
    assert_eq!(find_app_icns("/B.app", &ios).as_deref(), Some("/B.app/Wrapper/B.app/AppIcon60x60@2x.png"));
    assert_eq!(find_ios_app_icon("/C.app", &ios), None);
}

#[test]
fn mac_it_works() {
    let apps = get_apps(&vec![discord(), shadowrocket(), MacAppPath::new("/Applications/notes.txt".to_string(), vec![])]);
    println!("Apps: {:?}", apps);
    assert_eq!(apps.len(), 2);
    assert_eq!(apps[0].name, "Discord.app");
    assert_eq!(apps[0].icon_path.as_deref(), Some("/Applications/Discord.app/Contents/Resources/electron.icns"));
}

#[test]
fn mac_open_file_with_builds_command() {
    let app = discord().to_app().unwrap();
    assert_eq!(open_file_with("/tmp/x", &app), strings(&["open", "-a", "/Applications/Discord.app", "/tmp/x"]));
}

#[test]
fn executable_paths() {
    let b = discord();
    assert_eq!(b.get_executable_path().as_deref(), Some("Discord"));
    assert_eq!(b.get_executable_path_with_bundle().as_deref(), Some("/Applications/Discord.app/Contents/MacOS/Discord"));
    let empty = MacAppPath::new("/Applications/Discord.app".to_string(), vec![]);
    assert_eq!(empty.get_executable_path_with_bundle(), None);
}
