use applications::api::AppInfoContext;
use applications::common::{merge_search_paths, reconcile, App, AppError, SearchPath};
use applications::platforms::linux::{find_all_app_icons, get_all_apps, scan_roots, DesktopFile};
use applications::scan::{select_descriptors, WalkEntry};
use applications::utils::image::{largest_icon_index, RustImageBuffer};

fn scan() -> Vec<App> {
    let files = vec![DesktopFile {
        path: "/usr/share/applications/editor.desktop".to_string(),
        content: "[Desktop Entry]\nName=Editor\nExec=editor %U\nIcon=editor-icon\n".to_string(),
        icon_exists: false,
    }];
    let icons = find_all_app_icons(&vec!["/usr/share/icons/hicolor/32x32/apps/editor-icon.png".to_string()]);
    get_all_apps(&files, &icons)
}

fn app(name: &str) -> App {
    App::new(name.to_string(), None, Some(name.to_string()), format!("/apps/{}.desktop", name))
}

#[test]
fn api_get_all_apps() {
    let mut ctx = AppInfoContext::new(vec![]);
    ctx.begin_refresh();
    ctx.refresh_apps(Ok(scan())).unwrap();
    let apps = ctx.get_all_apps();
    println!("Apps Length: {:#?}", apps.len());
    assert!(apps.len() > 0);
}

#[test]
fn lib_get_all_apps() {
    let mut ctx = AppInfoContext::new(vec![]);
    ctx.begin_refresh();
    ctx.refresh_apps(Ok(scan())).unwrap();
    let apps = ctx.get_all_apps();
    assert!(apps.len() > 0);
}

#[test]
fn context_lifecycle() {
    let mut ctx = AppInfoContext::new(vec![]);
    assert_eq!(ctx.get_all_apps().len(), 0);
    assert_eq!(ctx.is_refreshing(), false);
    ctx.begin_refresh();
    assert_eq!(ctx.is_refreshing(), true);
    ctx.refresh_apps(Ok(scan())).unwrap();
    assert_eq!(ctx.is_refreshing(), false);
    assert!(ctx.get_all_apps().len() > 0);
    ctx.empty_cache();
    assert_eq!(ctx.get_all_apps().len(), 0);
    assert_eq!(ctx.is_refreshing(), false);
    assert!(ctx.refresh_apps_in_background());
    assert_eq!(ctx.is_refreshing(), true);
    ctx.refresh_apps(Ok(scan())).unwrap();
    assert_eq!(ctx.is_refreshing(), false);
    assert!(ctx.get_all_apps().len() > 0);
}

#[test]
fn single_flight_background_refresh() {
    let mut ctx = AppInfoContext::new(vec![]);
    assert!(ctx.refresh_apps_in_background());
    assert!(!ctx.refresh_apps_in_background());
    assert!(ctx.is_refreshing());
    ctx.refresh_apps(Ok(vec![app("a")])).unwrap();
    assert_eq!(ctx.get_all_apps(), vec![app("a")]);
    assert!(!ctx.is_refreshing());
}

#[test]
fn failed_refresh_keeps_cache() {
    let mut ctx = AppInfoContext::new(vec![SearchPath::new("/opt/apps".to_string(), 2)]);
    ctx.refresh_apps(Ok(vec![app("a"), app("b")])).unwrap();
    ctx.begin_refresh();
    assert_eq!(ctx.refresh_apps(Err(AppError::QueryFailed)), Err(AppError::QueryFailed));
    assert_eq!(ctx.get_all_apps(), vec![app("a"), app("b")]);
    assert!(!ctx.is_refreshing());
    assert_eq!(ctx.extra_search_paths, vec![SearchPath::new("/opt/apps".to_string(), 2)]);
}

#[test]
fn snapshot_is_isolated_from_later_refresh() {
    let mut ctx = AppInfoContext::new(vec![]);
    ctx.refresh_apps(Ok(vec![app("a")])).unwrap();
    let snapshot = ctx.get_all_apps();
    ctx.refresh_apps(Ok(vec![app("b"), app("c")])).unwrap();
    ctx.empty_cache();
    assert_eq!(snapshot, vec![app("a")]);
}

#[test]
fn reconcile_is_idempotent() {
    let raw = vec![app("a"), app("b"), app("a"), app("c"), app("b")];
    let once = reconcile(&raw);
    assert_eq!(once, vec![app("a"), app("b"), app("c")]);
    assert_eq!(reconcile(&once), once);
    assert_eq!(reconcile(&vec![]), vec![]);
}

#[test]
fn search_paths_merge_once() {
    let d = vec![SearchPath::new("/a".to_string(), 1), SearchPath::new("/b".to_string(), 1)];
    let e = vec![SearchPath::new("/a".to_string(), 1), SearchPath::new("/a".to_string(), 3)];
    let m = merge_search_paths(&d, &e);
    assert_eq!(m, vec![SearchPath::new("/a".to_string(), 1), SearchPath::new("/b".to_string(), 1), SearchPath::new("/a".to_string(), 3)]);
}

fn entry(path: &str, depth: usize, is_file: bool) -> WalkEntry {
    WalkEntry { path: path.to_string(), depth, is_file, is_dir: !is_file }
}

#[test]
fn depth_bound_respected() {
    let entries = vec![
        entry("/r", 0, false),
        entry("/r/a.desktop", 1, true),
        entry("/r/sub", 1, false),
        entry("/r/sub/b.desktop", 2, true),
        entry("/r/sub/deep/c.desktop", 3, true),
        entry("/r/notes.txt", 1, true),
        entry("/r/dir.desktop", 1, false),
    ];
    let one = select_descriptors(&SearchPath::new("/r".to_string(), 1), &entries, false, "desktop", false);
    assert_eq!(one, vec!["/r/a.desktop".to_string()]);
    let two = select_descriptors(&SearchPath::new("/r".to_string(), 2), &entries, false, "desktop", false);
    assert_eq!(two, vec!["/r/a.desktop".to_string(), "/r/sub/b.desktop".to_string()]);
    let zero = select_descriptors(&SearchPath::new("/r.desktop".to_string(), 0), &vec![entry("/r.desktop", 0, true)], false, "desktop", false);
    assert!(zero.is_empty());
    let dirs = select_descriptors(&SearchPath::new("/r".to_string(), 255), &entries, true, "desktop", false);
    assert_eq!(dirs, vec!["/r/dir.desktop".to_string()]);
}

#[test]
fn image_buffer_bytes() {
    let b = RustImageBuffer(vec![0x89, 0x50, 0x4e, 0x47]);
    assert_eq!(b.get_bytes(), &[0x89, 0x50, 0x4e, 0x47]);
}

#[test]
fn icns_size_choice() {
    assert_eq!(largest_icon_index(&vec![16, 32, 128, 256]), Some(2));
    assert_eq!(largest_icon_index(&vec![16, 48, 32]), Some(1));
    assert_eq!(largest_icon_index(&vec![0, 0]), None);
    assert_eq!(largest_icon_index(&vec![]), None);
}

#[test]
fn scan_over_roots_respects_depth() {
    let roots = vec![
        SearchPath::new("/home/u/.local/share/applications".to_string(), 1),
        SearchPath::new("/opt/deep".to_string(), 0),
    ];
    let walks = vec![
        vec![
            entry("/home/u/.local/share/applications", 0, false),
            entry("/home/u/.local/share/applications/editor.desktop", 1, true),
            entry("/home/u/.local/share/applications/sub/hidden.desktop", 2, true),
        ],
        vec![entry("/opt/deep", 0, false), entry("/opt/deep/tool.desktop", 1, true)],
    ];
    let text = "[Desktop Entry]\nName=Editor\nExec=editor %U\nIcon=editor-icon\n".to_string();
    let files = vec![
        DesktopFile { path: "/home/u/.local/share/applications/editor.desktop".to_string(), content: text.clone(), icon_exists: false },
        DesktopFile { path: "/home/u/.local/share/applications/sub/hidden.desktop".to_string(), content: text.clone(), icon_exists: false },
        DesktopFile { path: "/opt/deep/tool.desktop".to_string(), content: text, icon_exists: false },
    ];
    let icons = find_all_app_icons(&vec![
        "/usr/share/icons/hicolor/16x16/apps/editor-icon.png".to_string(),
        "/usr/share/icons/hicolor/32x32/apps/editor-icon.png".to_string(),
    ]);
    let apps = scan_roots(&roots, &walks, &files, &icons);
    assert_eq!(apps.len(), 1);
    assert_eq!(apps[0].app_desktop_path, "/home/u/.local/share/applications/editor.desktop");
    assert_eq!(apps[0].name, "Editor");
    assert_eq!(apps[0].app_path_exe.as_deref(), Some("editor"));
    assert_eq!(apps[0].icon_path.as_deref(), Some("/usr/share/icons/hicolor/32x32/apps/editor-icon.png"));
}
