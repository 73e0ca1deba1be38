use icon_resolver::index::{
    find_group, find_value, parse_groups, parse_line, parse_list, parse_subdir, parse_theme,
    parse_type, read_number, Entry, Line, Reading,
};
use icon_resolver::theme::{DirectoryType, Subdirectory, Theme};

fn chars(s: &str) -> Vec<char> {
    s.chars().collect()
}

fn text(s: &[char]) -> String {
    s.iter().collect()
}

const SAMPLE: &str = "# sample theme\n\
[Icon Theme]\n\
Name=Theme One\n\
Comment=The first theme\n\
Inherits=T2, hicolor\n\
Directories=48x48/apps,32x32/apps,scalable/apps\n\
\n\
[48x48/apps]\n\
Size=48\n\
Type=Fixed\n\
Context=Applications\n\
\n\
[32x32/apps]\n\
Size=32\n\
Scale=2\n\
Threshold=3\n\
\n\
[scalable/apps]\n\
Size=64\n\
MinSize=16\n\
MaxSize=256\n\
Type=Scalable\n";

fn sample_theme() -> Theme {
    parse_theme("T1".to_string(), vec!["/usr/share/icons".to_string()], SAMPLE)
}

#[test]
fn lines_are_headers_entries_or_skipped() {
    let line = chars("  [48x48/apps]  ");
    assert_eq!(parse_line(&line), Line::Header(&chars("48x48/apps")));
    let line = chars(" Size = 48 ");
    assert_eq!(parse_line(&line), Line::Entry(&chars("Size"), &chars("48")));
    let line = chars("Name=a=b");
    assert_eq!(parse_line(&line), Line::Entry(&chars("Name"), &chars("a=b")));
    let line = chars("Comment=");
    assert_eq!(parse_line(&line), Line::Entry(&chars("Comment"), &chars("")));
}

#[test]
fn malformed_lines_are_skipped() {
    assert_eq!(parse_line(&chars("")), Line::Skipped);
    assert_eq!(parse_line(&chars("   ")), Line::Skipped);
    assert_eq!(parse_line(&chars("# comment")), Line::Skipped);
    assert_eq!(parse_line(&chars("[unclosed")), Line::Skipped);
    assert_eq!(parse_line(&chars("[")), Line::Skipped);
    assert_eq!(parse_line(&chars("no equals sign")), Line::Skipped);
    assert_eq!(parse_line(&chars("=value")), Line::Skipped);
    assert_eq!(parse_line(&chars("  = value")), Line::Skipped);
}

#[test]
fn empty_header_is_a_header() {
    assert_eq!(parse_line(&chars("[]")), Line::Header(&[]));
}

#[test]
fn groups_collect_their_entries_in_order() {
    let source = chars("stray=1\n[A]\nx=1\ngarbage\ny=2\n[B]\n[C]\nz=3");
    let groups = parse_groups(&source);
    assert_eq!(groups.len(), 3);
    assert_eq!(text(groups[0].title), "A");
    assert_eq!(
        groups[0].entries,
        vec![
            Entry { key: &chars("x"), value: &chars("1") },
            Entry { key: &chars("y"), value: &chars("2") },
        ]
    );
    assert_eq!(text(groups[1].title), "B");
    assert!(groups[1].entries.is_empty());
    assert_eq!(text(groups[2].title), "C");
    assert_eq!(groups[2].entries, vec![Entry { key: &chars("z"), value: &chars("3") }]);
}

#[test]
fn first_entry_and_first_group_win() {
    let source = chars("[A]\nk=1\nk=2\n[A]\nk=3");
    let groups = parse_groups(&source);
    assert_eq!(find_group(&groups, &chars("A")), Some(0));
    assert_eq!(find_group(&groups, &chars("B")), None);
    assert_eq!(find_value(&groups[0].entries, "k").map(text), Some("1".to_string()));
    assert_eq!(find_value(&groups[0].entries, "K"), None);
}

#[test]
fn numeric_keys_are_absent_invalid_or_numbers() {
    let source = chars("[A]\nSize=48\nScale=two\nThreshold=70000");
    let groups = parse_groups(&source);
    let entries = &groups[0].entries;
    assert_eq!(read_number(entries, "Size"), Reading::Number(48));
    assert_eq!(read_number(entries, "Scale"), Reading::Invalid);
    assert_eq!(read_number(entries, "Threshold"), Reading::Invalid);
    assert_eq!(read_number(entries, "MinSize"), Reading::Absent);
}

#[test]
fn lists_are_trimmed_and_empty_items_dropped() {
    let value = chars(" a , b,,c , ");
    let items: Vec<String> = parse_list(&value).into_iter().map(text).collect();
    assert_eq!(items, vec!["a", "b", "c"]);
    assert!(parse_list(&chars("")).is_empty());
    assert!(parse_list(&chars(",,")).is_empty());
}

#[test]
fn type_names_are_exact_and_default_to_threshold() {
    assert_eq!(parse_type(None), Some(DirectoryType::Threshold));
    assert_eq!(parse_type(Some(&chars("Fixed"))), Some(DirectoryType::Fixed));
    assert_eq!(parse_type(Some(&chars("Scalable"))), Some(DirectoryType::Scalable));
    assert_eq!(parse_type(Some(&chars("Threshold"))), Some(DirectoryType::Threshold));
    assert_eq!(parse_type(Some(&chars("fixed"))), None);
    assert_eq!(parse_type(Some(&chars(""))), None);
}

#[test]
fn theme_header_is_read() {
    let theme = sample_theme();
    assert_eq!(theme.name, "T1");
    assert_eq!(theme.display_name, "Theme One");
    assert_eq!(theme.comment, Some("The first theme".to_string()));
    assert_eq!(theme.inherits, Some(vec!["T2".to_string(), "hicolor".to_string()]));
    assert_eq!(theme.paths, vec!["/usr/share/icons".to_string()]);
}

#[test]
fn round_trip_three_declared_directories_give_three_entries() {
    let theme = sample_theme();
    assert_eq!(
        theme.subdirs,
        vec![
            Subdirectory {
                path: "48x48/apps".to_string(),
                size: 48,
                min_size: 48,
                max_size: 48,
                scale: 1,
                context: Some("Applications".to_string()),
                dir_type: DirectoryType::Fixed,
            },
            Subdirectory {
                path: "32x32/apps".to_string(),
                size: 32,
                min_size: 29,
                max_size: 35,
                scale: 2,
                context: None,
                dir_type: DirectoryType::Threshold,
            },
            Subdirectory {
                path: "scalable/apps".to_string(),
                size: 64,
                min_size: 16,
                max_size: 256,
                scale: 1,
                context: None,
                dir_type: DirectoryType::Scalable,
            },
        ]
    );
}

#[test]
fn default_threshold_is_two() {
    let source = "[Icon Theme]\nDirectories=a\n[a]\nSize=22\n";
    let theme = parse_theme("T".to_string(), vec![], source);
    assert_eq!(theme.subdirs.len(), 1);
    assert_eq!(theme.subdirs[0].dir_type, DirectoryType::Threshold);
    assert_eq!(theme.subdirs[0].min_size, 20);
    assert_eq!(theme.subdirs[0].max_size, 24);
    assert_eq!(theme.subdirs[0].scale, 1);
}

#[test]
fn malformed_directories_reduce_the_count_without_error() {
    let source = "[Icon Theme]\n\
Directories=good,nosize,badsize,badtype,missing,badscale,crossed,toolarge,good2\n\
[good]\nSize=16\n\
[nosize]\nType=Fixed\n\
[badsize]\nSize=sixteen\n\
[badtype]\nSize=16\nType=Elastic\n\
[badscale]\nSize=16\nScale=-1\n\
[crossed]\nSize=16\nType=Scalable\nMinSize=32\nMaxSize=8\n\
[toolarge]\nSize=65535\nThreshold=1\n\
[good2]\nSize=24\nType=Fixed\n";
    let theme = parse_theme("T".to_string(), vec![], source);
    let paths: Vec<&str> = theme.subdirs.iter().map(|d| d.path.as_str()).collect();
    assert_eq!(paths, vec!["good", "good2"]);
}

#[test]
fn every_parsed_directory_has_consistent_sizes() {
    let theme = sample_theme();
    for d in &theme.subdirs {
        assert!(d.min_size <= d.max_size);
        if d.dir_type == DirectoryType::Fixed {
            assert_eq!(d.min_size, d.size);
            assert_eq!(d.max_size, d.size);
        }
    }
}

#[test]
fn descriptor_without_header_gives_defaults() {
    let theme = parse_theme("Bare".to_string(), vec!["/r".to_string()], "[48x48]\nSize=48\n");
    assert_eq!(
        theme,
        Theme {
            name: "Bare".to_string(),
            display_name: "Bare".to_string(),
            comment: None,
            inherits: None,
            paths: vec!["/r".to_string()],
            subdirs: vec![],
        }
    );
    let empty = parse_theme("E".to_string(), vec![], "");
    assert_eq!(empty.display_name, "E");
    assert!(empty.subdirs.is_empty());
}

#[test]
fn empty_inherits_is_an_empty_list() {
    let theme = parse_theme("T".to_string(), vec![], "[Icon Theme]\nInherits=\n");
    assert_eq!(theme.inherits, Some(vec![]));
}

#[test]
fn carriage_returns_at_line_ends_are_ignored() {
    let theme = parse_theme(
        "T".to_string(),
        vec![],
        "[Icon Theme]\r\nName=Win\r\nDirectories=a\r\n[a]\r\nSize=8\r\nType=Fixed\r\n",
    );
    assert_eq!(theme.display_name, "Win");
    assert_eq!(theme.subdirs.len(), 1);
    assert_eq!(theme.subdirs[0].path, "a");
}

#[test]
fn directory_is_read_from_its_own_group() {
    let source = chars("[d]\nSize=10\nScale=3\nType=Threshold\nThreshold=4\nContext=Places");
    let groups = parse_groups(&source);
    let d = parse_subdir(&chars("d"), &groups[0].entries);
    assert_eq!(
        d,
        Some(Subdirectory {
            path: "d".to_string(),
            size: 10,
            min_size: 6,
            max_size: 14,
            scale: 3,
            context: Some("Places".to_string()),
            dir_type: DirectoryType::Threshold,
        })
    );
}
