use icon_resolver::command::{
    accepts, get_icons, get_icons_with_fallback, user_icon_paths, wanted_files, Action, Args,
    Installation,
};
use icon_resolver::icon::{IconPath, IconType, LookupError};
use icon_resolver::roots::{SearchRoot, ThemeDir};
use icon_resolver::scan::{FileEntry, Probe};

const T1: &str = "[Icon Theme]\nName=One\nInherits=T2\nDirectories=48x48/apps\n\
[48x48/apps]\nSize=48\nType=Fixed\n";

const T2: &str = "[Icon Theme]\nName=Two\nDirectories=48x48/apps\n[48x48/apps]\nSize=48\nType=Fixed\n";

const HICOLOR: &str =
    "[Icon Theme]\nName=Hicolor\nDirectories=48x48/apps\n[48x48/apps]\nSize=48\nType=Fixed\n";

fn dir(name: &str, descriptor: &str) -> ThemeDir {
    ThemeDir { name: name.to_string(), descriptor: Some(descriptor.to_string()) }
}

fn present(path: &str) -> FileEntry {
    FileEntry { path: path.to_string(), outcome: Probe::Present }
}

fn args(theme: Option<&str>) -> Args {
    Args {
        names: vec![],
        size: None,
        scale: None,
        formats: None,
        theme: theme.map(|t| t.to_string()),
        list_themes: false,
        long: false,
        print_user_theme: false,
        version: false,
    }
}

fn installation(files: Vec<FileEntry>) -> Installation {
    Installation {
        user_roots: vec![
            SearchRoot { path: "/home/u/.icons".to_string(), themes: Some(vec![]) },
            SearchRoot { path: "/home/u/.local/share/icons".to_string(), themes: Some(vec![]) },
        ],
        roots: vec![SearchRoot {
            path: "/usr/share/icons".to_string(),
            themes: Some(vec![dir("T1", T1), dir("T2", T2), dir("hicolor", HICOLOR)]),
        }],
        files,
        system_theme: None,
    }
}

fn icon(path: &str, theme: &str, kind: IconType) -> IconPath {
    IconPath {
        path: path.to_string(),
        theme: theme.to_string(),
        icon_type: kind,
        min_size: 48,
        max_size: 48,
        scale: 1,
    }
}

#[test]
fn user_icon_paths_are_under_the_home_directory() {
    assert_eq!(
        user_icon_paths("/home/u"),
        vec!["/home/u/.icons".to_string(), "/home/u/.local/share/icons".to_string()]
    );
    assert_eq!(user_icon_paths(""), vec!["/.icons".to_string(), "/.local/share/icons".to_string()]);
}

#[test]
fn accepts_everything_without_a_list() {
    assert!(accepts(&None, IconType::PNG));
    assert!(accepts(&None, IconType::XMP));
    assert!(accepts(&Some(vec![IconType::SVG, IconType::PNG]), IconType::PNG));
    assert!(!accepts(&Some(vec![IconType::SVG, IconType::PNG]), IconType::XMP));
    assert!(!accepts(&Some(vec![]), IconType::PNG));
}

#[test]
fn get_icons_takes_the_first_icon_only() {
    let inst = installation(vec![
        present("/usr/share/icons/T1/48x48/apps/foo.png"),
        present("/usr/share/icons/T1/48x48/apps/foo.svg"),
        present("/usr/share/icons/T2/48x48/apps/foo.svg"),
    ]);
    let got = get_icons("foo", &args(Some("T1")), &None, true, &inst);
    assert_eq!(
        got,
        Ok((vec![icon("/usr/share/icons/T1/48x48/apps/foo.svg", "T1", IconType::SVG)], None))
    );
}

#[test]
fn get_icons_skips_formats_that_are_not_accepted() {
    let inst = installation(vec![
        present("/usr/share/icons/T1/48x48/apps/foo.svg"),
        present("/usr/share/icons/T2/48x48/apps/foo.xpm"),
        present("/usr/share/icons/T2/48x48/apps/foo.png"),
    ]);
    let formats = Some(vec![IconType::XMP, IconType::PNG]);
    let got = get_icons("foo", &args(Some("T1")), &formats, true, &inst);
    assert_eq!(
        got,
        Ok((vec![icon("/usr/share/icons/T2/48x48/apps/foo.png", "T2", IconType::PNG)], None))
    );
    let none = get_icons("foo", &args(Some("T1")), &Some(vec![]), true, &inst);
    assert_eq!(none, Ok((vec![], None)));
}

#[test]
fn get_icons_stops_at_the_first_error() {
    let inst = installation(vec![
        FileEntry {
            path: "/usr/share/icons/T1/48x48/apps/foo.png".to_string(),
            outcome: Probe::Failed("denied".to_string()),
        },
        present("/usr/share/icons/T2/48x48/apps/foo.png"),
    ]);
    let got = get_icons("foo", &args(Some("T1")), &None, true, &inst);
    assert_eq!(
        got,
        Ok((
            vec![],
            Some(LookupError::IoError {
                path: "/usr/share/icons/T1/48x48/apps/foo.png".to_string(),
                cause: "denied".to_string(),
            })
        ))
    );
}

#[test]
fn get_icons_passes_an_error_behind_a_rejected_icon() {
    let inst = installation(vec![
        present("/usr/share/icons/T1/48x48/apps/foo.svg"),
        FileEntry {
            path: "/usr/share/icons/T1/48x48/apps/foo.png".to_string(),
            outcome: Probe::Failed("denied".to_string()),
        },
    ]);
    let got = get_icons("foo", &args(Some("T1")), &Some(vec![IconType::XMP]), true, &inst);
    assert_eq!(
        got,
        Ok((
            vec![],
            Some(LookupError::IoError {
                path: "/usr/share/icons/T1/48x48/apps/foo.png".to_string(),
                cause: "denied".to_string(),
            })
        ))
    );
}

#[test]
fn get_icons_reports_a_missing_theme() {
    let inst = installation(vec![]);
    let got = get_icons("foo", &args(Some("Ghost")), &None, false, &inst);
    assert_eq!(got, Ok((vec![], Some(LookupError::ThemeNotFound("Ghost".to_string())))));
}

#[test]
fn get_icons_fails_when_a_user_directory_is_missing() {
    let mut inst = installation(vec![present("/usr/share/icons/T1/48x48/apps/foo.png")]);
    inst.user_roots[1].themes = None;
    assert_eq!(
        get_icons("foo", &args(Some("T1")), &None, true, &inst),
        Err(LookupError::InvalidSearchPath("/home/u/.local/share/icons".to_string()))
    );
    assert_eq!(
        get_icons_with_fallback("foo", &args(Some("T1")), &None, &inst),
        Err(LookupError::InvalidSearchPath("/home/u/.local/share/icons".to_string()))
    );
    assert_eq!(
        wanted_files("foo", &args(Some("T1")), &inst),
        Err(LookupError::InvalidSearchPath("/home/u/.local/share/icons".to_string()))
    );
}

#[test]
fn fallback_pass_runs_only_when_the_first_gave_nothing() {
    let inst = installation(vec![
        present("/usr/share/icons/hicolor/48x48/apps/foo.png"),
        present("/usr/share/icons/T2/48x48/apps/bar.png"),
        present("/usr/share/icons/hicolor/48x48/apps/bar.svg"),
    ]);
    assert_eq!(
        get_icons("foo", &args(Some("T1")), &None, true, &inst),
        Ok((vec![], None))
    );
    assert_eq!(
        get_icons_with_fallback("foo", &args(Some("T1")), &None, &inst),
        Ok((vec![icon("/usr/share/icons/hicolor/48x48/apps/foo.png", "hicolor", IconType::PNG)], None))
    );
    assert_eq!(
        get_icons_with_fallback("bar", &args(Some("T1")), &None, &inst),
        Ok((vec![icon("/usr/share/icons/T2/48x48/apps/bar.png", "T2", IconType::PNG)], None))
    );
    assert_eq!(
        get_icons_with_fallback("baz", &args(Some("T1")), &None, &inst),
        Ok((vec![], None))
    );
}

#[test]
fn fallback_pass_replaces_an_error_of_the_first_pass() {
    let inst = installation(vec![
        FileEntry {
            path: "/usr/share/icons/T1/48x48/apps/foo.svg".to_string(),
            outcome: Probe::Failed("denied".to_string()),
        },
        present("/usr/share/icons/hicolor/48x48/apps/foo.png"),
    ]);
    let error = LookupError::IoError {
        path: "/usr/share/icons/T1/48x48/apps/foo.svg".to_string(),
        cause: "denied".to_string(),
    };
    assert_eq!(
        get_icons("foo", &args(Some("T1")), &None, true, &inst),
        Ok((vec![], Some(error.clone())))
    );
    assert_eq!(
        get_icons_with_fallback("foo", &args(Some("T1")), &None, &inst),
        Ok((vec![], Some(error)))
    );
}

#[test]
fn system_theme_is_used_when_no_theme_is_chosen() {
    let mut inst = installation(vec![
        present("/usr/share/icons/T2/48x48/apps/foo.png"),
        present("/usr/share/icons/hicolor/48x48/apps/foo.png"),
    ]);
    assert_eq!(
        get_icons("foo", &args(None), &None, true, &inst),
        Ok((vec![icon("/usr/share/icons/hicolor/48x48/apps/foo.png", "hicolor", IconType::PNG)], None))
    );
    inst.system_theme = Some("T2".to_string());
    assert_eq!(
        get_icons("foo", &args(None), &None, true, &inst),
        Ok((vec![icon("/usr/share/icons/T2/48x48/apps/foo.png", "T2", IconType::PNG)], None))
    );
}

#[test]
fn size_and_scale_arguments_are_applied() {
    let inst = installation(vec![present("/usr/share/icons/T1/48x48/apps/foo.png")]);
    let mut a = args(Some("T1"));
    a.size = Some(64);
    assert_eq!(get_icons("foo", &a, &None, true, &inst), Ok((vec![], None)));
    a.size = Some(48);
    a.scale = Some(2);
    assert_eq!(get_icons("foo", &a, &None, true, &inst), Ok((vec![], None)));
    a.scale = Some(1);
    assert_eq!(
        get_icons("foo", &a, &None, true, &inst),
        Ok((vec![icon("/usr/share/icons/T1/48x48/apps/foo.png", "T1", IconType::PNG)], None))
    );
}

#[test]
fn wanted_files_cover_the_chain_and_the_fallback() {
    let inst = installation(vec![]);
    let wanted = wanted_files("foo", &args(Some("T2")), &inst).unwrap();
    assert_eq!(
        wanted,
        vec![
            "/usr/share/icons/T2/48x48/apps/foo.svg",
            "/usr/share/icons/T2/48x48/apps/foo.png",
            "/usr/share/icons/T2/48x48/apps/foo.xmp",
            "/usr/share/icons/T2/48x48/apps/foo.xpm",
            "/usr/share/icons/hicolor/48x48/apps/foo.svg",
            "/usr/share/icons/hicolor/48x48/apps/foo.png",
            "/usr/share/icons/hicolor/48x48/apps/foo.xmp",
            "/usr/share/icons/hicolor/48x48/apps/foo.xpm",
        ]
    );
}

#[test]
fn probing_the_wanted_files_is_enough() {
    let everything = vec![
        present("/usr/share/icons/T2/48x48/apps/foo.png"),
        present("/usr/share/icons/hicolor/48x48/apps/foo.svg"),
        present("/usr/share/icons/T1/48x48/apps/foo.svg"),
        present("/somewhere/else.png"),
    ];
    let full = installation(everything.clone());
    let wanted = wanted_files("foo", &args(Some("T2")), &full).unwrap();
    let probed: Vec<FileEntry> = wanted
        .iter()
        .map(|path| FileEntry {
            path: path.clone(),
            outcome: if everything.iter().any(|f| &f.path == path) {
                Probe::Present
            } else {
                Probe::Missing
            },
        })
        .collect();
    let partial = installation(probed);
    for no_fallbacks in [true, false] {
        assert_eq!(
            get_icons("foo", &args(Some("T2")), &None, no_fallbacks, &full),
            get_icons("foo", &args(Some("T2")), &None, no_fallbacks, &partial)
        );
    }
}

#[test]
fn flags_choose_the_action_in_a_fixed_order() {
    let mut a = args(None);
    assert_eq!(a.action(), Action::GetIcons);
    a.print_user_theme = true;
    assert_eq!(a.action(), Action::PrintUserTheme);
    a.list_themes = true;
    assert_eq!(a.action(), Action::ListThemes);
    a.version = true;
    assert_eq!(a.action(), Action::Version);
    a.list_themes = false;
    a.print_user_theme = false;
    assert_eq!(a.action(), Action::Version);
}
