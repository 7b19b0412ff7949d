use applications::common::AppError;
use applications::platforms::linux::{
    icon_candidates, ini_readable_text, brute_force_find_entry, brute_force_find_exec, brute_force_find_icon, clean_exec_path,
    find_all_app_icons, best_icon_for, get_all_apps, get_default_search_paths,
    get_frontmost_application, get_running_apps, icon_from_path, open_file_with,
    parse_active_window, parse_desktop_file, AppIcon, DesktopFile,
};

fn desktop(path: &str, content: &str, icon_exists: bool) -> DesktopFile {
    DesktopFile { path: path.to_string(), content: content.to_string(), icon_exists }
}

fn sample_files() -> Vec<DesktopFile> {
    vec![
        desktop(
            "/usr/share/applications/code.desktop",
            "[Desktop Entry]\nName=Visual Studio Code\nExec=/usr/share/code/code %F\nIcon=vscode\nType=Application\n",
            false,
        ),
        desktop(
            "/usr/share/applications/term.desktop",
            "[Desktop Entry]\nName=Terminal\nExec=term\nIcon=/opt/term/term.png\n",
            true,
        ),
        desktop(
            "/usr/share/applications/handler.desktop",
            "[Desktop Entry]\nName=Handler\nExec=handler %u\nNoDisplay=true\n",
            false,
        ),
    ]
}

fn sample_icons() -> Vec<AppIcon> {
    find_all_app_icons(&vec![
        "/usr/share/icons/hicolor/16x16/apps/vscode.png".to_string(),
        "/usr/share/icons/hicolor/48x48/apps/vscode.png".to_string(),
        "/usr/share/icons/hicolor/scalable/apps/vscode.svg".to_string(),
    ])
}

#[test]
fn test_clean_exec_path() {
    assert_eq!(clean_exec_path("code %f").to_string(), "code");
    assert_eq!(clean_exec_path("code %f %F").to_string(), "code");
    assert_eq!(clean_exec_path("\"/home/hacker/.local/share/JetBrains/Toolbox/apps/intellij-idea-ultimate/bin/idea\" %u").to_string(), "\"/home/hacker/.local/share/JetBrains/Toolbox/apps/intellij-idea-ultimate/bin/idea\"");
}

#[test]
fn clean_exec_path_joins_words_and_keeps_plain_commands() {
    assert_eq!(clean_exec_path("  env   FOO=1\tapp  --flag %U --after"), "env FOO=1 app --flag");
    assert_eq!(clean_exec_path("%U"), "");
    assert_eq!(clean_exec_path(""), "");
    assert_eq!(clean_exec_path("firefox"), "firefox");
}

#[test]
fn linux_test_get_apps() {
    let apps = get_all_apps(&sample_files(), &sample_icons());
    println!("Number of Apps: {}", apps.len());
    assert!(apps.len() > 0);
    for app in apps {
        if app.name.to_lowercase().contains("code") {
            println!("App: {:#?}", app);
        }
    }
}

#[test]
fn linux_it_works() {
    let apps = get_all_apps(&sample_files(), &sample_icons());
    println!("Apps: {:?}", apps);
}

#[test]
fn test_parse_desktop_file() {
    let (app, display) = parse_desktop_file(
        "/var/lib/snapd/desktop/applications/gitkraken_gitkraken.desktop",
        "[Desktop Entry]\nName=GitKraken\nExec=env BAMF=1 /snap/bin/gitkraken %U\nIcon=/snap/gitkraken/icon.png\n",
    );
    println!("App: {:?}", app);
    assert!(display);
    assert_eq!(app.name, "GitKraken");
    assert_eq!(app.app_path_exe.as_deref(), Some("env BAMF=1 /snap/bin/gitkraken"));
    assert_eq!(app.icon_path.as_deref(), Some("/snap/gitkraken/icon.png"));
    assert_eq!(app.app_desktop_path, "/var/lib/snapd/desktop/applications/gitkraken_gitkraken.desktop");
}

#[test]
fn nodisplay_entry_is_left_out() {
    let (_, display) = parse_desktop_file("/a/h.desktop", "[Desktop Entry]\nName=H\nNoDisplay=true\nExec=h\n");
    assert!(!display);
    let apps = get_all_apps(&sample_files(), &sample_icons());
    assert_eq!(apps.len(), 2);
    assert!(apps.iter().all(|a| a.name != "Handler"));
    assert!(apps.iter().all(|a| a.app_desktop_path != "/usr/share/applications/handler.desktop"));
}

#[test]
fn nodisplay_false_is_shown() {
    let (_, display) = parse_desktop_file("/a/h.desktop", "[Desktop Entry]\nName=H\nNoDisplay=false\n");
    assert!(display);
}

#[test]
fn brute_force_fallback_reads_lines() {
    let text = "[Desktop Entry]\nIconTheme=x\nIcon=  edge \r\nexec=microsoft-edge %U\n";
    assert_eq!(brute_force_find_icon(text).as_deref(), Some("edge"));
    assert_eq!(brute_force_find_exec(text).as_deref(), Some("microsoft-edge %U"));
    assert_eq!(brute_force_find_entry("Name=a\nName=b\n", &["Name"]).as_deref(), Some("a"));
    assert_eq!(brute_force_find_entry("xIcon=a\n", &["Icon"]), None);
    assert_eq!(brute_force_find_entry("", &["Icon"]), None);
}

#[test]
fn malformed_ini_falls_back_to_line_scan() {
    // a section header without its closing bracket makes the INI parse fail
    let text = "[Desktop Entry\nName=Broken\nExec=broken %f\nIcon=broken-icon\n";
    let (app, display) = parse_desktop_file("/x/broken.desktop", text);
    assert!(display);
    assert_eq!(app.name, "");
    assert_eq!(app.app_path_exe.as_deref(), Some("broken"));
    assert_eq!(app.icon_path.as_deref(), Some("broken-icon"));
}

#[test]
fn desktop_without_fields_gives_empty_app() {
    let (app, display) = parse_desktop_file("/x/empty.desktop", "[Other]\nKey=v\n");
    assert!(display);
    assert_eq!(app.name, "");
    assert_eq!(app.icon_path, None);
    assert_eq!(app.app_path_exe, None);
}

#[test]
fn test_find_all_app_icons() {
    let icons = sample_icons();
    assert!(icons.len() > 0);
    assert_eq!(icons.len(), 2);
    assert_eq!(icons[0].name, "vscode.png");
    assert_eq!(icons[0].dimensions, Some(16));
    assert_eq!(icons[1].dimensions, Some(48));
}

#[test]
fn icon_dimension_from_theme_folder() {
    let icon = icon_from_path("/usr/share/icons/hicolor/128x128/apps/firefox.png").unwrap();
    assert_eq!(icon.name, "firefox.png");
    assert_eq!(icon.dimensions, Some(128));
    let icon = icon_from_path("/usr/share/icons/hicolor/scalable/apps/firefox.png").unwrap();
    assert_eq!(icon.dimensions, None);
    let icon = icon_from_path("/usr/share/icons/a.png").unwrap();
    assert_eq!(icon.dimensions, None);
    let icon = icon_from_path("/usr/share/icons/hicolor/99999x99999/apps/big.png").unwrap();
    assert_eq!(icon.dimensions, None);
    assert!(icon_from_path("/usr/share/icons/hicolor/48x48/apps/firefox.svg").is_none());
}

#[test]
fn icon_tie_break_prefers_largest_known_size() {
    let icons = find_all_app_icons(&vec![
        "/usr/share/icons/hicolor/16x16/apps/tool.png".to_string(),
        "/usr/share/icons/hicolor/scalable/apps/tool.png".to_string(),
        "/usr/share/icons/hicolor/128x128/apps/tool.png".to_string(),
        "/usr/share/icons/hicolor/48x48/apps/tool.png".to_string(),
    ]);
    let k = best_icon_for(&icons, "tool").unwrap();
    assert_eq!(icons[k].path, "/usr/share/icons/hicolor/128x128/apps/tool.png");
    assert_eq!(best_icon_for(&icons, "other"), None);
}

#[test]
fn icon_tie_break_with_unknown_sizes_is_stable() {
    let icons = find_all_app_icons(&vec![
        "/usr/share/icons/hicolor/scalable/apps/tool.png".to_string(),
        "/usr/share/icons/Adwaita/symbolic/apps/tool.png".to_string(),
    ]);
    let first = best_icon_for(&icons, "tool");
    assert_eq!(first, Some(0));
    assert_eq!(best_icon_for(&icons, "tool"), first);
}

#[test]
fn end_to_end_editor_scenario() {
    let files = vec![desktop(
        "/home/u/.local/share/applications/editor.desktop",
        "[Desktop Entry]\nName=Editor\nExec=editor %U\nIcon=editor-icon\n",
        false,
    )];
    let icons = find_all_app_icons(&vec![
        "/usr/share/icons/hicolor/16x16/apps/editor-icon.png".to_string(),
        "/usr/share/icons/hicolor/32x32/apps/editor-icon.png".to_string(),
    ]);
    let apps = get_all_apps(&files, &icons);
    assert_eq!(apps.len(), 1);
    assert_eq!(apps[0].name, "Editor");
    assert_eq!(apps[0].app_path_exe.as_deref(), Some("editor"));
    assert_eq!(apps[0].icon_path.as_deref(), Some("/usr/share/icons/hicolor/32x32/apps/editor-icon.png"));
}

#[test]
fn unknown_icon_name_is_dropped_and_existing_icon_kept() {
    let files = vec![
        desktop("/a/x.desktop", "[Desktop Entry]\nName=X\nIcon=nowhere\n", false),
        desktop("/a/y.desktop", "[Desktop Entry]\nName=Y\nIcon=/opt/y.png\n", true),
    ];
    let apps = get_all_apps(&files, &sample_icons());
    assert_eq!(apps[0].icon_path, None);
    assert_eq!(apps[1].icon_path.as_deref(), Some("/opt/y.png"));
}

#[test]
fn duplicate_descriptors_are_reconciled() {
    let mut files = sample_files();
    files.extend(sample_files());
    let once = get_all_apps(&sample_files(), &sample_icons());
    let twice = get_all_apps(&files, &sample_icons());
    assert_eq!(once, twice);
}

#[test]
fn default_search_paths_need_home() {
    assert_eq!(get_default_search_paths(None, None), Err(AppError::MissingEnvironment));
    let paths = get_default_search_paths(Some("/usr/local/share:/usr/share".to_string()), Some("/home/u".to_string())).unwrap();
    let names: Vec<&str> = paths.iter().map(|p| p.path.as_str()).collect();
    assert_eq!(
        names,
        vec![
            "/usr/share/applications",
            "/usr/share/xsessions",
            "/etc/xdg/autostart",
            "/var/lib/snapd/desktop/applications",
            "/home/u/.local/share/applications",
            "/usr/local/share",
            "/usr/share",
        ]
    );
    assert!(paths.iter().all(|p| p.depth == 1));
    let paths = get_default_search_paths(None, Some("/root/".to_string())).unwrap();
    assert_eq!(paths[4].path, "/root/.local/share/applications");
    assert_eq!(paths[5].path, "/usr/share");
}

#[test]
fn running_apps_not_available() {
    assert_eq!(get_running_apps(), Err(AppError::NotImplemented));
}

#[test]
fn frontmost_from_xprop_output() {
    assert_eq!(parse_active_window("_NET_ACTIVE_WINDOW(WINDOW): window id # 0x3c00003\n").as_deref(), Some("0x3c00003"));
    assert_eq!(parse_active_window("   "), None);
    let apps = get_all_apps(&sample_files(), &sample_icons());
    let found = get_frontmost_application("WM_CLASS(STRING) = \"Terminal\", \"term\"\n", &apps).unwrap();
    assert_eq!(found.name, "Terminal");
    assert_eq!(get_frontmost_application("WM_CLASS(STRING) = \"Nothing\"", &apps), Err(AppError::NoMatchingApp));
    assert_eq!(get_frontmost_application("WM_CLASS:  not found.", &apps), Err(AppError::QueryFailed));
}

#[test]
fn open_file_with_builds_command() {
    let apps = get_all_apps(&sample_files(), &sample_icons());
    let term = apps.iter().find(|a| a.name == "Terminal").unwrap();
    assert_eq!(open_file_with("/tmp/a.txt", term), Some(vec!["term".to_string(), "/tmp/a.txt".to_string()]));
}

#[test]
fn reversed_brackets_skip_the_ini_reader() {
    assert!(!ini_readable_text("[Desktop Entry]\nName=Foo ] Bar [x\n"));
    assert!(!ini_readable_text("a]b["));
    assert!(ini_readable_text("[Desktop Entry]\nName=a]b ; [c\n"));
    assert!(ini_readable_text("[Desktop Entry]\nName=[a] ]b[ ]\n"));
    let (app, display) = parse_desktop_file(
        "/x/odd.desktop",
        "[Desktop Entry]\nName=Foo ] Bar [x\nExec=foo %u\nIcon=foo-icon\nNoDisplay=true\n",
    );
    assert!(display);
    assert_eq!(app.name, "");
    assert_eq!(app.app_path_exe.as_deref(), Some("foo"));
    assert_eq!(app.icon_path.as_deref(), Some("foo-icon"));
}

#[test]
fn icon_candidates_sorted_without_repeats() {
    let icons = find_all_app_icons(&vec![
        "/usr/share/icons/hicolor/16x16/apps/tool.png".to_string(),
        "/usr/share/icons/hicolor/scalable/apps/tool.png".to_string(),
        "/usr/share/icons/hicolor/128x128/apps/tool.png".to_string(),
        "/usr/share/icons/hicolor/48x48/apps/tool.png".to_string(),
        "/usr/share/icons/hicolor/128x128/apps/tool.png".to_string(),
        "/usr/share/icons/hicolor/48x48/apps/other.png".to_string(),
    ]);
    let c = icon_candidates(&icons, "tool");
    let dims: Vec<Option<u16>> = c.iter().map(|i| i.dimensions).collect();
    assert_eq!(dims, vec![Some(128), Some(48), Some(16), None]);
    assert_eq!(c[0].path, icons[best_icon_for(&icons, "tool").unwrap()].path);
    assert!(icon_candidates(&icons, "missing").is_empty());
}
