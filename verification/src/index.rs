//! The theme descriptor: a text of `[group]` headers and `key=value` lines.
//!
//! Reading is lenient. A line that is neither a header nor an entry is
//! passed over, and so is an entry that stands before the first header. A
//! declared directory whose own group is missing or faulty is left out of
//! the theme; the rest of the theme stands.

use vstd::prelude::*;
use crate::model::{lemma_views_drop_last, lemma_views_push, views};
use crate::text::{
    chars_of, find_char, first_at, number_of, parse_number, same_chars, spells, split,
    split_chars, string_of, trim, trim_chars,
};
use crate::theme::{
    optional_view, range_of, well_sized, DirectoryType, Subdirectory, SubdirectoryView, Theme,
    ThemeView, DEFAULT_SCALE, DEFAULT_THRESHOLD,
};

verus! {

/// What one line of a descriptor says.
pub enum LineView {
    /// Nothing: the line is empty, a comment or malformed.
    Skipped,
    /// A group begins; the title stands between the brackets.
    Header(Seq<char>),
    /// A key is given a value.
    Entry(Seq<char>, Seq<char>),
}

/// One line of a descriptor, as slices of the text.
#[derive(Clone, Copy, Debug, PartialEq, Eq)]
pub enum Line<'a> {
    Skipped,
    Header(&'a [char]),
    Entry(&'a [char], &'a [char]),
}

impl<'a> View for Line<'a> {
    type V = LineView;

    open spec fn view(&self) -> LineView {
        match self {
            Line::Skipped => LineView::Skipped,
            Line::Header(title) => LineView::Header(title@),
            Line::Entry(key, value) => LineView::Entry(key@, value@),
        }
    }
}

/// A key with its value.
pub struct EntryView {
    pub key: Seq<char>,
    pub value: Seq<char>,
}

/// A key with its value, as slices of the text.
#[derive(Clone, Copy, Debug, PartialEq, Eq)]
pub struct Entry<'a> {
    pub key: &'a [char],
    pub value: &'a [char],
}

impl<'a> View for Entry<'a> {
    type V = EntryView;

    open spec fn view(&self) -> EntryView {
        EntryView { key: self.key@, value: self.value@ }
    }
}

/// A group: its title and its entries in the order of the text.
pub struct GroupView {
    pub title: Seq<char>,
    pub entries: Seq<EntryView>,
}

/// A group, as slices of the text.
#[derive(Clone, Debug, PartialEq, Eq)]
pub struct Group<'a> {
    pub title: &'a [char],
    pub entries: Vec<Entry<'a>>,
}

impl<'a> View for Group<'a> {
    type V = GroupView;

    open spec fn view(&self) -> GroupView {
        GroupView { title: self.title@, entries: views(self.entries@) }
    }
}

/// What a group says of a numeric key.
#[derive(Clone, Copy, Debug, PartialEq, Eq, Structural)]
pub enum Reading {
    /// The key does not occur.
    Absent,
    /// The key occurs with a value that is no 16-bit decimal number.
    Invalid,
    /// The key occurs with this number.
    Number(u16),
}

/// What a line says. Blanks around the line, around the key and around the
/// value do not count. A line that starts with `#` is a comment. A line
/// that starts with `[` is a header if it ends with `]`. Any other line is
/// an entry if it holds `=` behind a key that is not empty.
pub open spec fn read_line(line: Seq<char>) -> LineView {
    let t = trim(line);
    if t.len() == 0 || t[0] == '#' {
        LineView::Skipped
    } else if t[0] == '[' {
        if t.len() >= 2 && t.last() == ']' {
            LineView::Header(t.subrange(1, t.len() - 1))
        } else {
            LineView::Skipped
        }
    } else {
        let i = first_at(t, '=');
        if 0 <= i < t.len() && trim(t.subrange(0, i)).len() > 0 {
            LineView::Entry(trim(t.subrange(0, i)), trim(t.subrange(i + 1, t.len() as int)))
        } else {
            LineView::Skipped
        }
    }
}

/// The groups that a sequence of lines describes. A header opens a group,
/// an entry joins the group opened last, and an entry before the first
/// header is lost.
pub open spec fn read_groups(lines: Seq<Seq<char>>) -> Seq<GroupView>
    decreases lines.len(),
{
    if lines.len() == 0 {
        Seq::empty()
    } else {
        let before = read_groups(lines.drop_last());
        match read_line(lines.last()) {
            LineView::Skipped => before,
            LineView::Header(title) => before.push(GroupView { title, entries: Seq::empty() }),
            LineView::Entry(key, value) => if before.len() == 0 {
                before
            } else {
                before.drop_last().push(
                    GroupView {
                        title: before.last().title,
                        entries: before.last().entries.push(EntryView { key, value }),
                    },
                )
            },
        }
    }
}

/// The groups of a descriptor text, whose lines end with a line feed.
pub open spec fn groups_of(text: Seq<char>) -> Seq<GroupView> {
    read_groups(split(text, '\n'))
}

/// The value of the first entry with the given key.
pub open spec fn value_of(entries: Seq<EntryView>, key: Seq<char>) -> Option<Seq<char>>
    decreases entries.len(),
{
    if entries.len() == 0 {
        None
    } else if entries[0].key == key {
        Some(entries[0].value)
    } else {
        value_of(entries.drop_first(), key)
    }
}

/// The first group with the given title.
pub open spec fn group_named(groups: Seq<GroupView>, title: Seq<char>) -> Option<GroupView>
    decreases groups.len(),
{
    if groups.len() == 0 {
        None
    } else if groups[0].title == title {
        Some(groups[0])
    } else {
        group_named(groups.drop_first(), title)
    }
}

/// The items of the pieces of a list: each piece without the blanks around
/// it, empty pieces left out.
pub open spec fn items_of(pieces: Seq<Seq<char>>) -> Seq<Seq<char>>
    decreases pieces.len(),
{
    if pieces.len() == 0 {
        Seq::empty()
    } else {
        let before = items_of(pieces.drop_last());
        let item = trim(pieces.last());
        if item.len() > 0 {
            before.push(item)
        } else {
            before
        }
    }
}

/// The items of a comma-separated list.
pub open spec fn list_items(value: Seq<char>) -> Seq<Seq<char>> {
    items_of(split(value, ','))
}

/// What the entries say of a numeric key.
pub open spec fn reading_of(entries: Seq<EntryView>, key: Seq<char>) -> Reading {
    match value_of(entries, key) {
        None => Reading::Absent,
        Some(value) => match number_of(value) {
            Some(n) => Reading::Number(n),
            None => Reading::Invalid,
        },
    }
}

/// The directory type that the value of `Type` names; a directory that
/// names none is a threshold directory.
pub open spec fn type_named(value: Option<Seq<char>>) -> Option<DirectoryType> {
    match value {
        None => Some(DirectoryType::Threshold),
        Some(word) => if word == "Fixed"@ {
            Some(DirectoryType::Fixed)
        } else if word == "Scalable"@ {
            Some(DirectoryType::Scalable)
        } else if word == "Threshold"@ {
            Some(DirectoryType::Threshold)
        } else {
            None
        },
    }
}

impl Reading {
    /// The number read, or `default` where the key is absent.
    pub open spec fn or(self, default: u16) -> u16 {
        match self {
            Reading::Number(n) => n,
            _ => default,
        }
    }

    /// The number read, if any.
    pub open spec fn number(self) -> Option<u16> {
        match self {
            Reading::Number(n) => Some(n),
            _ => None,
        }
    }
}

/// The directory that a group describes under the given relative path.
///
/// The group must give a `Size`. `Scale`, `Threshold`, `MinSize` and
/// `MaxSize` may be absent but not invalid, `Type` must name a known type
/// where it is given, and the sizes must give a range.
pub open spec fn subdir_of(path: Seq<char>, entries: Seq<EntryView>) -> Option<SubdirectoryView> {
    let size = reading_of(entries, "Size"@);
    let scale = reading_of(entries, "Scale"@);
    let threshold = reading_of(entries, "Threshold"@);
    let min_size = reading_of(entries, "MinSize"@);
    let max_size = reading_of(entries, "MaxSize"@);
    let dir_type = type_named(value_of(entries, "Type"@));
    if size is Number && !(scale is Invalid) && !(threshold is Invalid) && !(min_size is Invalid)
        && !(max_size is Invalid) && dir_type is Some {
        match range_of(
            dir_type->Some_0,
            size->Number_0,
            threshold.or(DEFAULT_THRESHOLD),
            min_size.number(),
            max_size.number(),
        ) {
            Some(range) => Some(
                SubdirectoryView {
                    path,
                    size: size->Number_0,
                    min_size: range.0,
                    max_size: range.1,
                    scale: scale.or(DEFAULT_SCALE),
                    context: value_of(entries, "Context"@),
                    dir_type: dir_type->Some_0,
                },
            ),
            None => None,
        }
    } else {
        None
    }
}

/// The directory declared under `key`: what the group of that title
/// describes, if there is such a group and it is well-formed.
pub open spec fn declared_subdir(key: Seq<char>, groups: Seq<GroupView>) -> Option<
    SubdirectoryView,
> {
    match group_named(groups, key) {
        Some(group) => subdir_of(key, group.entries),
        None => None,
    }
}

/// The directories declared under `keys`, in order, the malformed ones
/// left out.
pub open spec fn declared_subdirs(keys: Seq<Seq<char>>, groups: Seq<GroupView>) -> Seq<
    SubdirectoryView,
>
    decreases keys.len(),
{
    if keys.len() == 0 {
        Seq::empty()
    } else {
        let before = declared_subdirs(keys.drop_last(), groups);
        match declared_subdir(keys.last(), groups) {
            Some(d) => before.push(d),
            None => before,
        }
    }
}

/// The entries of the `Icon Theme` group; none where the group is missing.
pub open spec fn header_entries(groups: Seq<GroupView>) -> Seq<EntryView> {
    match group_named(groups, "Icon Theme"@) {
        Some(group) => group.entries,
        None => Seq::empty(),
    }
}

/// The keys of the directories that a descriptor declares, in order.
pub open spec fn declared_keys(text: Seq<char>) -> Seq<Seq<char>> {
    match value_of(header_entries(groups_of(text)), "Directories"@) {
        Some(value) => list_items(value),
        None => Seq::empty(),
    }
}

/// The theme that a descriptor describes, for a theme of the given name
/// found under the given search roots.
///
/// The display name is the `Name` of the `Icon Theme` group, or the theme's
/// own name where none is given. `Inherits` and `Directories` are
/// comma-separated lists.
pub open spec fn described(name: Seq<char>, paths: Seq<Seq<char>>, text: Seq<char>) -> ThemeView {
    let groups = groups_of(text);
    let entries = header_entries(groups);
    ThemeView {
        name,
        display_name: match value_of(entries, "Name"@) {
            Some(value) => value,
            None => name,
        },
        comment: value_of(entries, "Comment"@),
        inherits: match value_of(entries, "Inherits"@) {
            Some(value) => Some(list_items(value)),
            None => None,
        },
        paths,
        subdirs: declared_subdirs(declared_keys(text), groups),
    }
}

/// Reads one line.
pub fn parse_line<'a>(line: &'a [char]) -> (r: Line<'a>)
    ensures
        r@ == read_line(line@),
{
    let t = trim_chars(line);
    let n = t.len();
    if n == 0 || t[0] == '#' {
        Line::Skipped
    } else if t[0] == '[' {
        if n >= 2 && t[n - 1] == ']' {
            Line::Header(&t[1..n - 1])
        } else {
            Line::Skipped
        }
    } else {
        let i = find_char(t, '=');
        if i < n {
            let key = trim_chars(&t[0..i]);
            if key.len() > 0 {
                Line::Entry(key, trim_chars(&t[i + 1..n]))
            } else {
                Line::Skipped
            }
        } else {
            Line::Skipped
        }
    }
}

/// Reads the groups of a descriptor text.
pub fn parse_groups<'a>(text: &'a [char]) -> (groups: Vec<Group<'a>>)
    ensures
        views(groups@) == groups_of(text@),
{
    let lines = split_chars(text, '\n');
    let ghost all = split(text@, '\n');
    let mut groups: Vec<Group<'a>> = Vec::new();
    let mut i: usize = 0;
    proof {
        assert(all.take(0) =~= Seq::<Seq<char>>::empty());
        assert(views(groups@) =~= Seq::<GroupView>::empty());
    }
    while i < lines.len()
        invariant
            i <= lines@.len(),
            views(lines@) == all,
            views(groups@) == read_groups(all.take(i as int)),
        decreases lines@.len() - i,
    {
        proof {
            assert(all.take(i + 1).drop_last() =~= all.take(i as int));
            assert(all.take(i + 1).last() == lines@[i as int]@);
        }
        let ghost before = groups@;
        match parse_line(lines[i]) {
            Line::Skipped => {},
            Line::Header(title) => {
                let group = Group { title, entries: Vec::new() };
                proof {
                    assert(group@.entries =~= Seq::<EntryView>::empty());
                    lemma_views_push(before, group);
                }
                groups.push(group);
            },
            Line::Entry(key, value) => {
                if groups.len() > 0 {
                    let last = groups.pop().unwrap();
                    let Group { title, entries } = last;
                    let mut entries = entries;
                    let entry = Entry { key, value };
                    proof {
                        lemma_views_drop_last(before);
                        lemma_views_push(entries@, entry);
                    }
                    entries.push(entry);
                    let group = Group { title, entries };
                    proof {
                        lemma_views_push(groups@, group);
                    }
                    groups.push(group);
                }
            },
        }
        i += 1;
    }
    proof {
        assert(all.take(i as int) =~= all);
    }
    groups
}

/// The characters of an optional slice.
pub open spec fn optional_chars(value: Option<&[char]>) -> Option<Seq<char>> {
    match value {
        Some(v) => Some(v@),
        None => None,
    }
}

/// The value of the first entry whose key is `key`.
pub fn find_value<'a>(entries: &Vec<Entry<'a>>, key: &str) -> (r: Option<&'a [char]>)
    ensures
        optional_chars(r) == value_of(views(entries@), key@),
{
    let wanted = chars_of(key);
    let ghost all = views(entries@);
    let mut i: usize = 0;
    proof {
        assert(all.skip(0) =~= all);
    }
    while i < entries.len()
        invariant
            i <= entries@.len(),
            all == views(entries@),
            wanted@ == key@,
            value_of(all, key@) == value_of(all.skip(i as int), key@),
        decreases entries@.len() - i,
    {
        proof {
            assert(all.skip(i as int).drop_first() =~= all.skip(i + 1));
            assert(all.skip(i as int)[0] == entries@[i as int]@);
        }
        if same_chars(entries[i].key, wanted.as_slice()) {
            return Some(entries[i].value);
        }
        i += 1;
    }
    None
}

/// The position of the first group whose title is `title`.
pub fn find_group<'a>(groups: &Vec<Group<'a>>, title: &[char]) -> (r: Option<usize>)
    ensures
        match r {
            Some(i) => i < groups@.len() && group_named(views(groups@), title@) == Some(
                groups@[i as int]@,
            ),
            None => group_named(views(groups@), title@) is None,
        },
{
    let ghost all = views(groups@);
    let mut i: usize = 0;
    proof {
        assert(all.skip(0) =~= all);
    }
    while i < groups.len()
        invariant
            i <= groups@.len(),
            all == views(groups@),
            group_named(all, title@) == group_named(all.skip(i as int), title@),
        decreases groups@.len() - i,
    {
        proof {
            assert(all.skip(i as int).drop_first() =~= all.skip(i + 1));
            assert(all.skip(i as int)[0] == groups@[i as int]@);
        }
        if same_chars(groups[i].title, title) {
            return Some(i);
        }
        i += 1;
    }
    None
}

/// What the entries say of a numeric key.
pub fn read_number<'a>(entries: &Vec<Entry<'a>>, key: &str) -> (r: Reading)
    ensures
        r == reading_of(views(entries@), key@),
{
    match find_value(entries, key) {
        None => Reading::Absent,
        Some(value) => match parse_number(value) {
            Some(n) => Reading::Number(n),
            None => Reading::Invalid,
        },
    }
}

/// The items of a comma-separated list.
pub fn parse_list<'a>(value: &'a [char]) -> (items: Vec<&'a [char]>)
    ensures
        views(items@) == list_items(value@),
{
    let pieces = split_chars(value, ',');
    let ghost all = split(value@, ',');
    let mut items: Vec<&'a [char]> = Vec::new();
    let mut i: usize = 0;
    proof {
        assert(all.take(0) =~= Seq::<Seq<char>>::empty());
        assert(views(items@) =~= Seq::<Seq<char>>::empty());
    }
    while i < pieces.len()
        invariant
            i <= pieces@.len(),
            views(pieces@) == all,
            views(items@) == items_of(all.take(i as int)),
        decreases pieces@.len() - i,
    {
        proof {
            assert(all.take(i + 1).drop_last() =~= all.take(i as int));
            assert(all.take(i + 1).last() == pieces@[i as int]@);
        }
        let item = trim_chars(pieces[i]);
        if item.len() > 0 {
            proof {
                lemma_views_push(items@, item);
            }
            items.push(item);
        }
        i += 1;
    }
    proof {
        assert(all.take(i as int) =~= all);
    }
    items
}

/// The directory type that the value of `Type` names.
pub fn parse_type(value: Option<&[char]>) -> (r: Option<DirectoryType>)
    ensures
        r == type_named(optional_chars(value)),
{
    match value {
        None => Some(DirectoryType::Threshold),
        Some(word) => {
            if spells(word, "Fixed") {
                Some(DirectoryType::Fixed)
            } else if spells(word, "Scalable") {
                Some(DirectoryType::Scalable)
            } else if spells(word, "Threshold") {
                Some(DirectoryType::Threshold)
            } else {
                None
            }
        },
    }
}

/// The string of an optional slice.
pub fn optional_string(value: Option<&[char]>) -> (r: Option<String>)
    ensures
        optional_view(r) == optional_chars(value),
{
    match value {
        Some(v) => Some(string_of(v)),
        None => None,
    }
}

/// Reads the directory that a group describes under the given relative
/// path, or nothing where the group is faulty.
pub fn parse_subdir<'a>(path: &[char], entries: &Vec<Entry<'a>>) -> (r: Option<Subdirectory>)
    ensures
        match r {
            Some(d) => subdir_of(path@, views(entries@)) == Some(d@) && d.wf(),
            None => subdir_of(path@, views(entries@)) is None,
        },
{
    let size = read_number(entries, "Size");
    let scale = read_number(entries, "Scale");
    let threshold = read_number(entries, "Threshold");
    let min_size = read_number(entries, "MinSize");
    let max_size = read_number(entries, "MaxSize");
    let dir_type = parse_type(find_value(entries, "Type"));
    let nominal = match size {
        Reading::Number(n) => n,
        _ => {
            return None;
        },
    };
    let scale = match scale {
        Reading::Number(n) => n,
        Reading::Absent => DEFAULT_SCALE,
        Reading::Invalid => {
            return None;
        },
    };
    let threshold = match threshold {
        Reading::Number(n) => n,
        Reading::Absent => DEFAULT_THRESHOLD,
        Reading::Invalid => {
            return None;
        },
    };
    let min_size = match min_size {
        Reading::Number(n) => Some(n),
        Reading::Absent => None,
        Reading::Invalid => {
            return None;
        },
    };
    let max_size = match max_size {
        Reading::Number(n) => Some(n),
        Reading::Absent => None,
        Reading::Invalid => {
            return None;
        },
    };
    let dir_type = match dir_type {
        Some(t) => t,
        None => {
            return None;
        },
    };
    let context = optional_string(find_value(entries, "Context"));
    Subdirectory::new(
        string_of(path),
        nominal,
        dir_type,
        threshold,
        min_size,
        max_size,
        scale,
        context,
    )
}

/// Reads the directories declared under `keys`, leaving out those whose
/// group is missing or faulty.
pub fn parse_subdirs<'a>(keys: &Vec<&'a [char]>, groups: &Vec<Group<'a>>) -> (subdirs: Vec<
    Subdirectory,
>)
    ensures
        views(subdirs@) == declared_subdirs(views(keys@), views(groups@)),
        forall|i: int| 0 <= i < subdirs@.len() ==> (#[trigger] subdirs@[i]).wf(),
{
    let ghost all = views(keys@);
    let ghost model = views(groups@);
    let mut subdirs: Vec<Subdirectory> = Vec::new();
    let mut i: usize = 0;
    proof {
        assert(all.take(0) =~= Seq::<Seq<char>>::empty());
        assert(views(subdirs@) =~= Seq::<SubdirectoryView>::empty());
    }
    while i < keys.len()
        invariant
            i <= keys@.len(),
            all == views(keys@),
            model == views(groups@),
            views(subdirs@) == declared_subdirs(all.take(i as int), model),
            forall|j: int| 0 <= j < subdirs@.len() ==> (#[trigger] subdirs@[j]).wf(),
        decreases keys@.len() - i,
    {
        proof {
            assert(all.take(i + 1).drop_last() =~= all.take(i as int));
            assert(all.take(i + 1).last() == keys@[i as int]@);
        }
        let key = keys[i];
        match find_group(groups, key) {
            Some(at) => {
                match parse_subdir(key, &groups[at].entries) {
                    Some(d) => {
                        proof {
                            lemma_views_push(subdirs@, d);
                        }
                        subdirs.push(d);
                    },
                    None => {},
                }
            },
            None => {},
        }
        i += 1;
    }
    proof {
        assert(all.take(i as int) =~= all);
    }
    subdirs
}

/// The strings of a vector of slices.
pub fn strings_of<'a>(items: &Vec<&'a [char]>) -> (out: Vec<String>)
    ensures
        views(out@) == views(items@),
{
    let mut out: Vec<String> = Vec::new();
    let mut i: usize = 0;
    while i < items.len()
        invariant
            i <= items@.len(),
            out@.len() == i,
            forall|j: int| 0 <= j < i ==> out@[j]@ == items@[j]@,
        decreases items@.len() - i,
    {
        out.push(string_of(items[i]));
        i += 1;
    }
    proof {
        assert(views(out@) =~= views(items@));
    }
    out
}

/// Reads a theme from the text of its descriptor. `name` is the name of
/// the theme's directory and `paths` are the search roots that hold it.
///
/// Never fails: what the text does not say is left at its default, and
/// what it says wrongly is left out.
pub fn parse_theme(name: String, paths: Vec<String>, text: &str) -> (theme: Theme)
    ensures
        theme@ == described(name@, views(paths@), text@),
        theme.wf(),
        theme.subdirs@.len() <= declared_keys(text@).len(),
{
    let chars = chars_of(text);
    let groups = parse_groups(chars.as_slice());
    let title = chars_of("Icon Theme");
    let none: Vec<Entry<'_>> = Vec::new();
    let entries = match find_group(&groups, title.as_slice()) {
        Some(at) => &groups[at].entries,
        None => &none,
    };
    proof {
        assert(views(none@) =~= Seq::<EntryView>::empty());
        assert(views(entries@) == header_entries(groups_of(text@)));
    }
    let display_name = match find_value(entries, "Name") {
        Some(value) => string_of(value),
        None => name.clone(),
    };
    let comment = optional_string(find_value(entries, "Comment"));
    let inherits = match find_value(entries, "Inherits") {
        Some(value) => {
            let items = parse_list(value);
            Some(strings_of(&items))
        },
        None => None,
    };
    let subdirs = match find_value(entries, "Directories") {
        Some(value) => {
            let keys = parse_list(value);
            proof {
                lemma_declared_count(views(keys@), views(groups@));
            }
            parse_subdirs(&keys, &groups)
        },
        None => {
            let empty: Vec<Subdirectory> = Vec::new();
            proof {
                assert(views(empty@) =~= Seq::<SubdirectoryView>::empty());
            }
            empty
        },
    };
    Theme { name, display_name, comment, inherits, paths, subdirs }
}

/// A declaration of `n` directories yields at most `n` directories, and
/// exactly `n`, one for each key in order, if and only if every declared
/// directory is well-formed.
pub proof fn lemma_declared_count(keys: Seq<Seq<char>>, groups: Seq<GroupView>)
    ensures
        declared_subdirs(keys, groups).len() <= keys.len(),
        declared_subdirs(keys, groups).len() == keys.len() <==> forall|i: int|
            0 <= i < keys.len() ==> (#[trigger] declared_subdir(keys[i], groups)) is Some,
        declared_subdirs(keys, groups).len() == keys.len() ==> forall|i: int|
            0 <= i < keys.len() ==> Some(#[trigger] declared_subdirs(keys, groups)[i])
                == declared_subdir(keys[i], groups),
    decreases keys.len(),
{
    if keys.len() > 0 {
        let front = keys.drop_last();
        lemma_declared_count(front, groups);
        assert forall|i: int| 0 <= i < front.len() implies front[i] == keys[i] by {}
        if declared_subdirs(keys, groups).len() == keys.len() {
            assert(declared_subdir(keys.last(), groups) is Some);
            assert forall|i: int| 0 <= i < keys.len() implies (#[trigger] declared_subdir(
                keys[i],
                groups,
            )) is Some by {
                if i < front.len() {
                    assert(front[i] == keys[i]);
                }
            }
        }
        if forall|i: int|
            0 <= i < keys.len() ==> (#[trigger] declared_subdir(keys[i], groups)) is Some {
            assert forall|i: int| 0 <= i < front.len() implies (#[trigger] declared_subdir(
                front[i],
                groups,
            )) is Some by {
                assert(front[i] == keys[i]);
            }
            assert(declared_subdir(keys[keys.len() - 1], groups) is Some);
        }
    }
}

/// Every directory that a descriptor yields has consistent sizes.
pub proof fn lemma_declared_well_sized(keys: Seq<Seq<char>>, groups: Seq<GroupView>)
    ensures
        forall|i: int|
            0 <= i < declared_subdirs(keys, groups).len() ==> well_sized(
                #[trigger] declared_subdirs(keys, groups)[i],
            ),
    decreases keys.len(),
{
    if keys.len() > 0 {
        let before = declared_subdirs(keys.drop_last(), groups);
        lemma_declared_well_sized(keys.drop_last(), groups);
        match declared_subdir(keys.last(), groups) {
            Some(d) => {
                assert(well_sized(d));
                assert forall|i: int| 0 <= i < before.push(d).len() implies well_sized(
                    #[trigger] before.push(d)[i],
                ) by {
                    if i < before.len() {
                        assert(before.push(d)[i] == before[i]);
                    }
                }
            },
            None => {},
        }
    }
}

/// A descriptor that declares `n` directories describes a theme of at most
/// `n` directories, and of exactly `n` if and only if every declared
/// directory is well-formed.
pub proof fn lemma_described_count(name: Seq<char>, paths: Seq<Seq<char>>, text: Seq<char>)
    ensures
        described(name, paths, text).subdirs.len() <= declared_keys(text).len(),
        described(name, paths, text).subdirs.len() == declared_keys(text).len() <==> forall|
            i: int,
        |
            0 <= i < declared_keys(text).len() ==> (#[trigger] declared_subdir(
                declared_keys(text)[i],
                groups_of(text),
            )) is Some,
        forall|i: int|
            0 <= i < described(name, paths, text).subdirs.len() ==> well_sized(
                #[trigger] described(name, paths, text).subdirs[i],
            ),
{
    lemma_declared_count(declared_keys(text), groups_of(text));
    lemma_declared_well_sized(declared_keys(text), groups_of(text));
}

} // verus!
