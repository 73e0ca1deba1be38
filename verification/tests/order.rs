use icon_resolver::order::{resolve_order, ThemeWalk, FALLBACK_THEME};
use icon_resolver::roots::{default_search_paths, is_installed, load, SearchRoot, ThemeDir};
use icon_resolver::icon::LookupError;

fn theme_dir(name: &str, inherits: &str) -> ThemeDir {
    let mut descriptor = format!("[Icon Theme]\nName={} theme\n", name);
    if !inherits.is_empty() {
        descriptor.push_str(&format!("Inherits={}\n", inherits));
    }
    ThemeDir { name: name.to_string(), descriptor: Some(descriptor) }
}

fn root(path: &str, themes: Vec<ThemeDir>) -> SearchRoot {
    SearchRoot { path: path.to_string(), themes: Some(themes) }
}

fn names(root_theme: &str, roots: &Vec<&SearchRoot>, use_fallback: bool) -> Vec<String> {
    resolve_order(root_theme, roots, use_fallback).into_iter().map(|t| t.name).collect()
}

#[test]
fn fallback_theme_is_hicolor() {
    assert_eq!(FALLBACK_THEME, "hicolor");
}

#[test]
fn load_reads_the_first_root_and_lists_every_holder() {
    let first = root("/home/u/.icons", vec![theme_dir("Other", "")]);
    let second = root(
        "/usr/local/share/icons",
        vec![ThemeDir {
            name: "T1".to_string(),
            descriptor: Some("[Icon Theme]\nName=Local\n".to_string()),
        }],
    );
    let third = root(
        "/usr/share/icons",
        vec![ThemeDir {
            name: "T1".to_string(),
            descriptor: Some("[Icon Theme]\nName=System\n".to_string()),
        }],
    );
    let roots = vec![&first, &second, &third];
    let theme = load("T1", &roots).unwrap();
    assert_eq!(theme.name, "T1");
    assert_eq!(theme.display_name, "Local");
    assert_eq!(
        theme.paths,
        vec!["/usr/local/share/icons".to_string(), "/usr/share/icons".to_string()]
    );
}

#[test]
fn load_fails_with_theme_not_found() {
    let only = root("/usr/share/icons", vec![theme_dir("T1", "")]);
    let missing = SearchRoot { path: "/nowhere".to_string(), themes: None };
    let roots = vec![&missing, &only];
    assert_eq!(load("T9", &roots), Err(LookupError::ThemeNotFound("T9".to_string())));
    assert_eq!(load("T1", &vec![]), Err(LookupError::ThemeNotFound("T1".to_string())));
    assert!(is_installed("T1", &roots));
    assert!(!is_installed("T9", &roots));
    assert!(!is_installed("t1", &roots));
}

#[test]
fn order_is_depth_first_in_declared_order() {
    let r = root(
        "/r",
        vec![
            theme_dir("A", "B,C"),
            theme_dir("B", "D"),
            theme_dir("C", ""),
            theme_dir("D", ""),
        ],
    );
    assert_eq!(names("A", &vec![&r], false), vec!["A", "B", "D", "C"]);
}

#[test]
fn cycle_terminates_and_visits_each_theme_once() {
    let r = root(
        "/r",
        vec![theme_dir("A", "B"), theme_dir("B", "C"), theme_dir("C", "A,B")],
    );
    assert_eq!(names("A", &vec![&r], false), vec!["A", "B", "C"]);
    assert_eq!(names("B", &vec![&r], false), vec!["B", "C", "A"]);
}

#[test]
fn diamond_inheritance_visits_the_shared_theme_once() {
    let r = root(
        "/r",
        vec![
            theme_dir("A", "B,C"),
            theme_dir("B", "D"),
            theme_dir("C", "D"),
            theme_dir("D", ""),
        ],
    );
    assert_eq!(names("A", &vec![&r], false), vec!["A", "B", "D", "C"]);
}

#[test]
fn self_cycle_gives_one_entry_plus_fallback() {
    let r = root("/r", vec![theme_dir("T3", "T3"), theme_dir("hicolor", "")]);
    assert_eq!(names("T3", &vec![&r], true), vec!["T3", "hicolor"]);
    assert_eq!(names("T3", &vec![&r], false), vec!["T3"]);
}

#[test]
fn themes_that_are_not_installed_are_passed_over() {
    let r = root("/r", vec![theme_dir("A", "Ghost,B"), theme_dir("B", "")]);
    assert_eq!(names("A", &vec![&r], false), vec!["A", "B"]);
    assert_eq!(names("A", &vec![&r], true), vec!["A", "B"]);
}

#[test]
fn missing_starting_theme_leaves_only_the_fallback() {
    let r = root("/r", vec![theme_dir("hicolor", "")]);
    assert_eq!(names("Ghost", &vec![&r], true), vec!["hicolor"]);
    assert!(names("Ghost", &vec![&r], false).is_empty());
}

#[test]
fn without_fallback_the_fallback_theme_is_absent_unless_inherited() {
    let r = root(
        "/r",
        vec![theme_dir("A", "B"), theme_dir("B", ""), theme_dir("hicolor", "")],
    );
    assert_eq!(names("A", &vec![&r], false), vec!["A", "B"]);
    let r = root(
        "/r",
        vec![theme_dir("A", "hicolor,B"), theme_dir("B", ""), theme_dir("hicolor", "")],
    );
    assert_eq!(names("A", &vec![&r], false), vec!["A", "hicolor", "B"]);
}

#[test]
fn fallback_is_last_and_never_repeated() {
    let r = root(
        "/r",
        vec![theme_dir("A", "B"), theme_dir("B", ""), theme_dir("hicolor", "B")],
    );
    assert_eq!(names("A", &vec![&r], true), vec!["A", "B", "hicolor"]);
    let r = root(
        "/r",
        vec![theme_dir("A", "hicolor,B"), theme_dir("B", ""), theme_dir("hicolor", "")],
    );
    assert_eq!(names("A", &vec![&r], true), vec!["A", "hicolor", "B"]);
    assert_eq!(names("hicolor", &vec![&r], true), vec!["hicolor"]);
}

#[test]
fn fallback_inherits_are_followed_only_when_reached_by_inheritance() {
    let r = root(
        "/r",
        vec![theme_dir("A", ""), theme_dir("hicolor", "Extra"), theme_dir("Extra", "")],
    );
    assert_eq!(names("A", &vec![&r], true), vec!["A", "hicolor"]);
    let r = root(
        "/r",
        vec![theme_dir("A", "hicolor"), theme_dir("hicolor", "Extra"), theme_dir("Extra", "")],
    );
    assert_eq!(names("A", &vec![&r], true), vec!["A", "hicolor", "Extra"]);
}

#[test]
fn walk_yields_one_theme_at_a_time() {
    let r = root("/r", vec![theme_dir("A", "B"), theme_dir("B", ""), theme_dir("hicolor", "")]);
    let roots = vec![&r];
    let mut walk = ThemeWalk::new("A", true);
    assert_eq!(walk.next(&roots).map(|t| t.name), Some("A".to_string()));
    assert_eq!(walk.next(&roots).map(|t| t.name), Some("B".to_string()));
    assert_eq!(walk.next(&roots).map(|t| t.name), Some("hicolor".to_string()));
    assert_eq!(walk.next(&roots), None);
    assert_eq!(walk.next(&roots), None);
    let mut over = ThemeWalk::over();
    assert_eq!(over.next(&roots), None);
}

#[test]
fn resolved_themes_are_loaded() {
    let r = root("/r", vec![theme_dir("A", "B"), theme_dir("B", "")]);
    let order = resolve_order("A", &vec![&r], false);
    assert_eq!(order.len(), 2);
    assert_eq!(order[0].display_name, "A theme");
    assert_eq!(order[0].inherits, Some(vec!["B".to_string()]));
    assert_eq!(order[1].display_name, "B theme");
    assert_eq!(order[1].paths, vec!["/r".to_string()]);
}

#[test]
fn standard_roots_follow_home_and_data_directories() {
    assert_eq!(
        default_search_paths(Some("/home/u"), Some("/usr/local/share::/usr/share")),
        vec![
            "/home/u/.icons",
            "/usr/local/share/icons",
            "/usr/share/icons",
            "/usr/share/pixmaps",
        ]
    );
    assert_eq!(
        default_search_paths(None, None),
        vec!["/usr/local/share/icons", "/usr/share/icons", "/usr/share/pixmaps"]
    );
    assert_eq!(
        default_search_paths(Some(""), Some("")),
        vec!["/usr/local/share/icons", "/usr/share/icons", "/usr/share/pixmaps"]
    );
    assert_eq!(
        default_search_paths(Some("/h"), Some("/opt/data")),
        vec!["/h/.icons", "/opt/data/icons", "/usr/share/pixmaps"]
    );
}

#[test]
fn directory_without_descriptor_still_holds_the_theme() {
    let user = root("/home/u/.icons", vec![ThemeDir { name: "A".to_string(), descriptor: None }]);
    let system = root("/usr/share/icons", vec![theme_dir("A", "B"), theme_dir("B", "")]);
    let roots = vec![&user, &system];
    let theme = load("A", &roots).unwrap();
    assert_eq!(theme.display_name, "A theme");
    assert_eq!(theme.inherits, Some(vec!["B".to_string()]));
    assert_eq!(theme.paths, vec!["/home/u/.icons".to_string(), "/usr/share/icons".to_string()]);
    assert_eq!(names("A", &roots, false), vec!["A", "B"]);
}

#[test]
fn theme_without_any_descriptor_is_bare() {
    let user = root("/r", vec![ThemeDir { name: "Bare".to_string(), descriptor: None }]);
    let roots = vec![&user];
    assert!(is_installed("Bare", &roots));
    let theme = load("Bare", &roots).unwrap();
    assert_eq!(theme.name, "Bare");
    assert_eq!(theme.display_name, "Bare");
    assert_eq!(theme.inherits, None);
    assert_eq!(theme.paths, vec!["/r".to_string()]);
    assert!(theme.subdirs.is_empty());
}
