use icon_resolver::catalog::{get_system_theme, list_themes, name_precedes, themes};
use icon_resolver::report::{
    fmt_list, icon_row, icon_titles, print_errors, print_icons, print_icons_long, print_themes,
    print_themes_long, print_user_theme, theme_row, theme_titles, IconRow, ThemeRow,
};
use icon_resolver::icon::{IconPath, IconType, LookupError};
use icon_resolver::roots::{SearchRoot, ThemeDir};
use icon_resolver::theme::Theme;

fn chars(s: &str) -> Vec<char> {
    s.chars().collect()
}

fn dir(name: &str, display: &str) -> ThemeDir {
    ThemeDir {
        name: name.to_string(),
        descriptor: Some(format!("[Icon Theme]\nName={}\n", display)),
    }
}

fn theme(name: &str) -> Theme {
    Theme {
        name: name.to_string(),
        display_name: format!("{} theme", name),
        comment: None,
        inherits: None,
        paths: vec![],
        subdirs: vec![],
    }
}

fn icon(path: &str, kind: IconType) -> IconPath {
    IconPath {
        path: path.to_string(),
        theme: "T1".to_string(),
        icon_type: kind,
        min_size: 30,
        max_size: 34,
        scale: 2,
    }
}

#[test]
fn names_are_ordered_like_strings() {
    let pairs = [
        ("", ""),
        ("", "a"),
        ("a", ""),
        ("a", "a"),
        ("a", "b"),
        ("b", "a"),
        ("ab", "abc"),
        ("abc", "ab"),
        ("Z", "a"),
        ("a", "Z"),
        ("Adwaita", "adwaita"),
        ("hicolor", "hicolor-extra"),
        ("é", "z"),
        ("z", "é"),
    ];
    for (a, b) in pairs {
        assert_eq!(name_precedes(&chars(a), &chars(b)), a <= b, "{:?} {:?}", a, b);
    }
}

#[test]
fn list_themes_sorts_by_name_and_keeps_every_theme() {
    let input = vec![theme("hicolor"), theme("Adwaita"), theme("breeze"), theme("Papirus")];
    let sorted = list_themes(input.clone());
    let names: Vec<&str> = sorted.iter().map(|t| t.name.as_str()).collect();
    assert_eq!(names, vec!["Adwaita", "Papirus", "breeze", "hicolor"]);
    for t in &input {
        assert!(sorted.contains(t));
    }
    assert!(list_themes(vec![]).is_empty());
}

#[test]
fn list_themes_keeps_themes_of_the_same_name() {
    let mut twin = theme("same");
    twin.display_name = "other".to_string();
    let sorted = list_themes(vec![theme("same"), theme("a"), twin.clone()]);
    assert_eq!(sorted.len(), 3);
    assert_eq!(sorted[0].name, "a");
    assert_eq!(sorted[1].name, "same");
    assert_eq!(sorted[2].name, "same");
    assert!(sorted.contains(&twin));
    assert!(sorted.contains(&theme("same")));
}

#[test]
fn themes_lists_each_installed_theme_once() {
    let user = SearchRoot {
        path: "/home/u/.icons".to_string(),
        themes: Some(vec![dir("Mine", "My theme"), dir("hicolor", "User hicolor")]),
    };
    let gone = SearchRoot { path: "/gone".to_string(), themes: None };
    let system = SearchRoot {
        path: "/usr/share/icons".to_string(),
        themes: Some(vec![dir("hicolor", "System hicolor"), dir("Adwaita", "Adwaita")]),
    };
    let all = themes(&vec![&user, &gone, &system]);
    let shown: Vec<(String, String, Vec<String>)> =
        all.into_iter().map(|t| (t.name, t.display_name, t.paths)).collect();
    assert_eq!(
        shown,
        vec![
            ("Mine".to_string(), "My theme".to_string(), vec!["/home/u/.icons".to_string()]),
            (
                "hicolor".to_string(),
                "User hicolor".to_string(),
                vec!["/home/u/.icons".to_string(), "/usr/share/icons".to_string()]
            ),
            ("Adwaita".to_string(), "Adwaita".to_string(), vec!["/usr/share/icons".to_string()]),
        ]
    );
    assert!(themes(&vec![]).is_empty());
}

#[test]
fn system_theme_is_the_first_reading() {
    assert_eq!(get_system_theme(&vec![]), None);
    assert_eq!(get_system_theme(&vec![None, None]), None);
    assert_eq!(
        get_system_theme(&vec![None, Some("Papirus".to_string()), Some("Adwaita".to_string())]),
        Some("Papirus".to_string())
    );
    assert_eq!(
        get_system_theme(&vec![Some("Adwaita".to_string()), None]),
        Some("Adwaita".to_string())
    );
}

#[test]
fn short_listing_has_one_path_per_icon() {
    let res = vec![
        (vec![icon("/a.png", IconType::PNG)], None),
        (vec![], Some(LookupError::ThemeNotFound("Ghost".to_string()))),
        (vec![icon("/b.svg", IconType::SVG), icon("/c.xpm", IconType::XMP)], None),
    ];
    assert_eq!(print_icons(&res), vec!["/a.png", "/b.svg", "/c.xpm"]);
    assert!(print_icons(&[]).is_empty());
}

#[test]
fn errors_are_reported_one_line_each() {
    let res = vec![
        (vec![icon("/a.png", IconType::PNG)], None),
        (vec![], Some(LookupError::ThemeNotFound("Ghost".to_string()))),
        (
            vec![],
            Some(LookupError::IoError { path: "/p".to_string(), cause: "denied".to_string() }),
        ),
    ];
    assert_eq!(
        print_errors(&res),
        vec!["Error: Theme `Ghost` not found", "Error: Error reading `/p`: denied"]
    );
    assert!(print_errors(&res[..1]).is_empty());
}

#[test]
fn long_listing_of_icons_has_one_row_per_icon() {
    let res = vec![
        (vec![icon("/a.png", IconType::PNG)], None),
        (vec![icon("/b.xpm", IconType::XMP)], None),
    ];
    assert_eq!(
        print_icons_long(&res),
        vec![
            IconRow {
                path: "/a.png".to_string(),
                theme: "T1".to_string(),
                format: "png".to_string(),
                min_size: 30,
                max_size: 34,
                scale: 2,
            },
            IconRow {
                path: "/b.xpm".to_string(),
                theme: "T1".to_string(),
                format: "xmp".to_string(),
                min_size: 30,
                max_size: 34,
                scale: 2,
            },
        ]
    );
    assert_eq!(icon_row(&icon("/s.svg", IconType::SVG)).format, "svg");
    assert_eq!(icon_titles(), ["Path", "Theme", "Type", "Min size", "Max size", "Scale"]);
}

#[test]
fn listings_of_themes_show_names_and_joined_lists() {
    let mut full = theme("T1");
    full.comment = Some("A comment".to_string());
    full.inherits = Some(vec!["T2".to_string(), "hicolor".to_string()]);
    full.paths = vec!["/a".to_string(), "/b".to_string()];
    let bare = theme("T2");
    let all = vec![full.clone(), bare.clone()];
    assert_eq!(print_themes(&all), vec!["T1", "T2"]);
    assert_eq!(
        print_themes_long(&all),
        vec![
            ThemeRow {
                name: "T1".to_string(),
                inherits: "T2,hicolor".to_string(),
                display_name: "T1 theme".to_string(),
                comment: "A comment".to_string(),
                paths: "/a,/b".to_string(),
            },
            ThemeRow {
                name: "T2".to_string(),
                inherits: String::new(),
                display_name: "T2 theme".to_string(),
                comment: String::new(),
                paths: String::new(),
            },
        ]
    );
    assert_eq!(theme_row(&bare).name, "T2");
    assert_eq!(theme_titles(), ["Name", "Inherits", "Display name", "Comment", "Paths"]);
    assert_eq!(fmt_list(&full.paths), "/a,/b");
}

#[test]
fn user_theme_is_shown_or_reported_missing() {
    assert_eq!(print_user_theme(Some("Papirus".to_string())), Ok("Papirus".to_string()));
    assert_eq!(
        print_user_theme(None),
        Err("Error: Couldn't get user's icon theme".to_string())
    );
}
