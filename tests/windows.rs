use applications::common::AppError;
use applications::platforms::windows::{
    app_from_shortcut, app_of, get_all_apps, get_default_search_paths, get_frontmost_application,
    get_running_apps, lnk_framed, parse_lnk_with_powershell_2, shortcut_target, strip_extended_prefix,
    target_of, translate_path_alias, LnkFields, PowerShellLnkParseResult, ShortcutFile,
};

fn env() -> Vec<(String, String)> {
    vec![
        ("windir".to_string(), "C:\\Windows".to_string()),
        ("ProgramFiles".to_string(), "C:\\Program Files".to_string()),
    ]
}

/// A shell link holding the given ASCII string data and nothing else.
fn lnk_bytes(rel: Option<&str>, work_dir: Option<&str>, icon: Option<&str>) -> Vec<u8> {
    let mut flags: u32 = 0;
    if rel.is_some() {
        flags |= 0x08;
    }
    if work_dir.is_some() {
        flags |= 0x10;
    }
    if icon.is_some() {
        flags |= 0x40;
    }
    let mut b: Vec<u8> = Vec::new();
    b.extend_from_slice(&0x4cu32.to_le_bytes());
    b.extend_from_slice(&[0x01, 0x14, 0x02, 0x00, 0x00, 0x00, 0x00, 0x00, 0xc0, 0x00, 0x00, 0x00, 0x00, 0x00, 0x00, 0x46]);
    b.extend_from_slice(&flags.to_le_bytes());
    b.extend_from_slice(&[0u8; 4 + 24 + 4 + 4]);
    b.extend_from_slice(&1u32.to_le_bytes());
    b.extend_from_slice(&[0u8; 2 + 2 + 4 + 4]);
    for s in [rel, work_dir, icon].iter().flatten() {
        b.extend_from_slice(&(s.len() as u16).to_le_bytes());
        b.extend_from_slice(s.as_bytes());
    }
    b
}

#[test]
fn test_path_alias() {
    let path = translate_path_alias("%windir%\\system32\\mstsc.exe", &env());
    assert_eq!(path.to_lowercase(), "c:\\windows\\system32\\mstsc.exe");
}

#[test]
fn alias_expansion_edge_cases() {
    assert_eq!(translate_path_alias("%APPDATA%\\x.exe", &env()), "%APPDATA%\\x.exe");
    assert_eq!(translate_path_alias("C:\\%windir%\\x", &env()), "C:\\%windir%\\x");
    assert_eq!(translate_path_alias("%windir%\\a\\%windir%", &env()), "C:\\Windows\\a\\C:\\Windows");
    assert_eq!(translate_path_alias("%WINDIR%\\x", &env()), "%WINDIR%\\x");
}

#[test]
fn extended_prefix_is_stripped() {
    assert_eq!(strip_extended_prefix("\\\\?\\C:\\Apps\\a.exe"), "C:\\Apps\\a.exe");
    assert_eq!(strip_extended_prefix("C:\\Apps\\a.exe"), "C:\\Apps\\a.exe");
}

#[test]
fn shortcut_with_relative_path() {
    let fields = LnkFields {
        icon_location: Some("%windir%\\icons\\a.ico".to_string()),
        relative_path: Some("..\\App\\app.exe".to_string()),
        working_dir: None,
    };
    let lnk = "C:\\Menu\\Programs\\App.lnk";
    assert_eq!(target_of(lnk, &fields, &env()).as_deref(), Some("C:\\Menu\\Programs\\..\\App\\app.exe"));
    let app = app_of(lnk, &fields, &env(), &Some("\\\\?\\C:\\Menu\\App\\app.exe".to_string())).unwrap();
    assert_eq!(app.name, "App");
    assert_eq!(app.app_path_exe.as_deref(), Some("C:\\Menu\\App\\app.exe"));
    assert_eq!(app.app_desktop_path, "C:\\Menu\\App");
    assert_eq!(app.icon_path.as_deref(), Some("C:\\Windows\\icons\\a.ico"));
    assert!(app_of(lnk, &fields, &env(), &None).is_none());
}

#[test]
fn shortcut_falls_back_to_exe_icon() {
    let fields = LnkFields {
        icon_location: Some("%windir%\\system32\\mstsc.exe".to_string()),
        relative_path: None,
        working_dir: Some("%windir%".to_string()),
    };
    let lnk = "C:\\Menu\\Remote.lnk";
    assert_eq!(target_of(lnk, &fields, &env()).as_deref(), Some("C:\\Windows\\system32\\mstsc.exe"));
    let app = app_of(lnk, &fields, &env(), &Some("C:\\Windows\\System32\\mstsc.exe".to_string())).unwrap();
    assert_eq!(app.app_desktop_path, "C:\\Windows");
}

#[test]
fn unresolvable_shortcut_is_skipped() {
    let fields = LnkFields { icon_location: Some("C:\\icons\\a.ico".to_string()), relative_path: None, working_dir: None };
    assert_eq!(target_of("C:\\M\\a.lnk", &fields, &env()), None);
    assert!(app_of("C:\\M\\a.lnk", &fields, &env(), &Some("C:\\x.exe".to_string())).is_none());
    let none = LnkFields { icon_location: None, relative_path: None, working_dir: None };
    assert_eq!(target_of("C:\\M\\b.lnk", &none, &env()), None);
    let files = vec![
        ShortcutFile { path: "C:\\M\\bad.lnk".to_string(), bytes: lnk_bytes(None, None, Some("C:\\icons\\a.ico")), canonical_target: None },
        ShortcutFile { path: "C:\\M\\junk.lnk".to_string(), bytes: vec![1, 2, 3], canonical_target: None },
        ShortcutFile { path: "C:\\M\\Good.lnk".to_string(), bytes: lnk_bytes(Some("good.exe"), None, None), canonical_target: Some("C:\\M\\good.exe".to_string()) },
    ];
    let apps = get_all_apps(&files, &env());
    assert_eq!(apps.len(), 1);
    assert_eq!(apps[0].name, "Good");
}

#[test]
fn test_get_all_apps() {
    let bytes = lnk_bytes(Some("..\\..\\Tools\\tool.exe"), Some("C:\\Tools"), Some("%ProgramFiles%\\Tools\\tool.ico"));
    let path = "C:\\ProgramData\\Microsoft\\Windows\\Start Menu\\Programs\\Tool.lnk";
    let target = shortcut_target(path, &bytes, &env());
    assert_eq!(target.as_deref(), Some("C:\\ProgramData\\Microsoft\\Windows\\Start Menu\\Programs\\..\\..\\Tools\\tool.exe"));
    let file = ShortcutFile { path: path.to_string(), bytes, canonical_target: Some("\\\\?\\C:\\ProgramData\\Microsoft\\Tools\\tool.exe".to_string()) };
    let single = app_from_shortcut(&file, &env()).unwrap();
    assert_eq!(single.icon_path.as_deref(), Some("C:\\Program Files\\Tools\\tool.ico"));
    let apps = get_all_apps(&vec![file.clone(), file], &env());
    println!("{:#?}", apps);
    println!("{:#?}", apps.len());
    assert!(!apps.is_empty());
    assert_eq!(apps.len(), 1);
    assert_eq!(apps[0].name, "Tool");
    assert_eq!(apps[0].app_path_exe.as_deref(), Some("C:\\ProgramData\\Microsoft\\Tools\\tool.exe"));
    assert_eq!(apps[0].app_desktop_path, "C:\\Tools");
}

#[test]
fn windows_default_roots() {
    assert_eq!(get_default_search_paths(None), Err(AppError::MissingEnvironment));
    let roots = get_default_search_paths(Some("C:\\Users\\u\\AppData\\Roaming".to_string())).unwrap();
    assert_eq!(roots[1].path, "C:\\Users\\u\\AppData\\Roaming\\Microsoft\\Windows\\Start Menu\\Programs");
    assert_eq!(roots[0].depth, 255);
}

#[test]
fn powershell_report_becomes_app() {
    let parsed = PowerShellLnkParseResult {
        icon_location: String::new(),
        description: "Runs Docker".to_string(),
        working_directory: String::new(),
        arguments: String::new(),
        hotkey: String::new(),
        window_style: 1,
        target_path: "C:\\Program Files\\Docker\\Docker Desktop.exe".to_string(),
    };
    let app = parse_lnk_with_powershell_2("C:\\Menu\\Docker Desktop.lnk", &parsed);
    assert_eq!(app.name, "Docker Desktop");
    assert_eq!(app.icon_path, None);
    assert_eq!(app.app_desktop_path, "C:\\Program Files\\Docker");
}

#[test]
fn windows_queries() {
    assert!(get_running_apps().is_empty());
    assert_eq!(get_frontmost_application(), Err(AppError::NotImplemented));
}

#[test]
fn corrupt_shortcuts_are_refused_before_parsing() {
    let good = lnk_bytes(Some("good.exe"), None, None);
    assert!(lnk_framed(&good));
    let mut shim = good.clone();
    shim.extend_from_slice(&4u32.to_le_bytes());
    shim.extend_from_slice(&0xa000_0008u32.to_le_bytes());
    assert!(!lnk_framed(&shim));
    let mut unicode = lnk_bytes(None, None, None);
    unicode[20] = 0x88;
    unicode.extend_from_slice(&40000u16.to_le_bytes());
    assert!(!lnk_framed(&unicode));
    assert!(!lnk_framed(&good[..60]));
    let files = vec![
        ShortcutFile { path: "C:\\M\\shim.lnk".to_string(), bytes: shim, canonical_target: Some("C:\\M\\good.exe".to_string()) },
        ShortcutFile { path: "C:\\M\\wide.lnk".to_string(), bytes: unicode, canonical_target: None },
        ShortcutFile { path: "C:\\M\\Good.lnk".to_string(), bytes: good, canonical_target: Some("C:\\M\\good.exe".to_string()) },
    ];
    let apps = get_all_apps(&files, &env());
    assert_eq!(apps.len(), 1);
    assert_eq!(apps[0].name, "Good");
}
