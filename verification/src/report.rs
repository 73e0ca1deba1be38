//! What the command line prints: lists joined with commas, the lines of a
//! result and the rows of the long listings.

use vstd::prelude::*;
use crate::icon::{message_of, IconPath, IconPathView, LookupError, LookupErrorView};
use crate::model::{lemma_views_push, views};
use crate::text::{join, push_char};
use crate::theme::{optional_view, Theme, ThemeView};

verus! {

/// Writes the items one after another with a comma between neighbours.
pub fn fmt_list(list: &[String]) -> (out: String)
    ensures
        out@ == join(views(list@), seq![',']),
{
    let mut out = String::new();
    let mut first = true;
    let ghost items = views(list@);
    let mut i: usize = 0;
    proof {
        assert(items.take(0) =~= Seq::<Seq<char>>::empty());
    }
    while i < list.len()
        invariant
            i <= list@.len(),
            items == views(list@),
            first == (i == 0),
            out@ == join(items.take(i as int), seq![',']),
        decreases list@.len() - i,
    {
        proof {
            assert(items.take(i + 1).drop_last() =~= items.take(i as int));
            assert(items.take(i + 1).last() == list@[i as int]@);
        }
        if !first {
            push_char(&mut out, ',');
            proof {
                assert(out@ =~= join(items.take(i as int), seq![',']) + seq![',']);
            }
        } else {
            first = false;
            proof {
                assert(out@ + list@[i as int]@ =~= list@[i as int]@);
            }
        }
        out.append(list[i].as_str());
        i += 1;
    }
    proof {
        assert(items.take(i as int) =~= items);
    }
    out
}

/// What the search for one name gave: the icons found and the error met.
pub type Outcome = (Vec<IconPath>, Option<LookupError>);

/// The mathematical value of an [`Outcome`].
pub type OutcomeView = (Seq<IconPathView>, Option<LookupErrorView>);

/// The value of what the search for one name gave.
pub open spec fn outcome_value(outcome: Outcome) -> OutcomeView {
    (
        views(outcome.0@),
        match outcome.1 {
            Some(error) => Some(error@),
            None => None,
        },
    )
}

/// The values of what the searches gave.
pub open spec fn outcome_values(res: Seq<Outcome>) -> Seq<OutcomeView> {
    Seq::new(res.len(), |i: int| outcome_value(res[i]))
}

/// The paths of the given icons.
pub open spec fn paths_of(icons: Seq<IconPathView>) -> Seq<Seq<char>> {
    Seq::new(icons.len(), |i: int| icons[i].path)
}

/// The lines of the short listing: the path of every icon, search by
/// search.
pub open spec fn icon_lines_of(res: Seq<OutcomeView>) -> Seq<Seq<char>>
    decreases res.len(),
{
    if res.len() == 0 {
        Seq::empty()
    } else {
        icon_lines_of(res.drop_last()) + paths_of(res.last().0)
    }
}

/// The line that reports an error.
pub open spec fn error_line_of(error: LookupErrorView) -> Seq<char> {
    "Error: "@ + message_of(error)
}

/// The lines that report the errors, search by search.
pub open spec fn error_lines_of(res: Seq<OutcomeView>) -> Seq<Seq<char>>
    decreases res.len(),
{
    if res.len() == 0 {
        Seq::empty()
    } else {
        let before = error_lines_of(res.drop_last());
        match res.last().1 {
            Some(error) => before.push(error_line_of(error)),
            None => before,
        }
    }
}

/// One row of the long listing of icons.
#[derive(Clone, Debug, PartialEq, Eq)]
pub struct IconRow {
    pub path: String,
    pub theme: String,
    pub format: String,
    pub min_size: u16,
    pub max_size: u16,
    pub scale: u16,
}

/// The mathematical value of an [`IconRow`].
pub struct IconRowView {
    pub path: Seq<char>,
    pub theme: Seq<char>,
    pub format: Seq<char>,
    pub min_size: u16,
    pub max_size: u16,
    pub scale: u16,
}

impl View for IconRow {
    type V = IconRowView;

    open spec fn view(&self) -> IconRowView {
        IconRowView {
            path: self.path@,
            theme: self.theme@,
            format: self.format@,
            min_size: self.min_size,
            max_size: self.max_size,
            scale: self.scale,
        }
    }
}

/// The row that shows an icon: its fields, the format by its name.
pub open spec fn icon_row_of(icon: IconPathView) -> IconRowView {
    IconRowView {
        path: icon.path,
        theme: icon.theme,
        format: icon.icon_type.label_of(),
        min_size: icon.min_size,
        max_size: icon.max_size,
        scale: icon.scale,
    }
}

/// The rows that show the given icons.
pub open spec fn rows_of(icons: Seq<IconPathView>) -> Seq<IconRowView> {
    Seq::new(icons.len(), |i: int| icon_row_of(icons[i]))
}

/// The rows of the long listing of icons, search by search.
pub open spec fn icon_rows_of(res: Seq<OutcomeView>) -> Seq<IconRowView>
    decreases res.len(),
{
    if res.len() == 0 {
        Seq::empty()
    } else {
        icon_rows_of(res.drop_last()) + rows_of(res.last().0)
    }
}

/// One row of the long listing of themes.
#[derive(Clone, Debug, PartialEq, Eq)]
pub struct ThemeRow {
    pub name: String,
    pub inherits: String,
    pub display_name: String,
    pub comment: String,
    pub paths: String,
}

/// The mathematical value of a [`ThemeRow`].
pub struct ThemeRowView {
    pub name: Seq<char>,
    pub inherits: Seq<char>,
    pub display_name: Seq<char>,
    pub comment: Seq<char>,
    pub paths: Seq<char>,
}

impl View for ThemeRow {
    type V = ThemeRowView;

    open spec fn view(&self) -> ThemeRowView {
        ThemeRowView {
            name: self.name@,
            inherits: self.inherits@,
            display_name: self.display_name@,
            comment: self.comment@,
            paths: self.paths@,
        }
    }
}

/// The row that shows a theme: the lists joined with commas, what is
/// missing left empty.
pub open spec fn theme_row_of(theme: ThemeView) -> ThemeRowView {
    ThemeRowView {
        name: theme.name,
        inherits: match theme.inherits {
            Some(names) => join(names, seq![',']),
            None => Seq::empty(),
        },
        display_name: theme.display_name,
        comment: match theme.comment {
            Some(text) => text,
            None => Seq::empty(),
        },
        paths: join(theme.paths, seq![',']),
    }
}

/// The rows that show the given themes.
pub open spec fn theme_rows_of(themes: Seq<ThemeView>) -> Seq<ThemeRowView> {
    Seq::new(themes.len(), |i: int| theme_row_of(themes[i]))
}

/// The names of the given themes.
pub open spec fn theme_lines_of(themes: Seq<ThemeView>) -> Seq<Seq<char>> {
    Seq::new(themes.len(), |i: int| themes[i].name)
}

/// The titles of the long listing of icons.
pub fn icon_titles() -> (titles: [&'static str; 6])
    ensures
        titles@ == seq!["Path", "Theme", "Type", "Min size", "Max size", "Scale"],
{
    ["Path", "Theme", "Type", "Min size", "Max size", "Scale"]
}

/// The titles of the long listing of themes.
pub fn theme_titles() -> (titles: [&'static str; 5])
    ensures
        titles@ == seq!["Name", "Inherits", "Display name", "Comment", "Paths"],
{
    ["Name", "Inherits", "Display name", "Comment", "Paths"]
}

/// The lines of the short listing: the path of every icon found.
pub fn print_icons(res: &[Outcome]) -> (lines: Vec<String>)
    ensures
        views(lines@) == icon_lines_of(outcome_values(res@)),
{
    let ghost all = outcome_values(res@);
    let mut lines: Vec<String> = Vec::new();
    let mut i: usize = 0;
    proof {
        assert(all.take(0) =~= Seq::<OutcomeView>::empty());
        assert(views(lines@) =~= Seq::<Seq<char>>::empty());
    }
    while i < res.len()
        invariant
            i <= res@.len(),
            all == outcome_values(res@),
            views(lines@) == icon_lines_of(all.take(i as int)),
        decreases res@.len() - i,
    {
        let icons = &res[i].0;
        let ghost before = views(lines@);
        let ghost paths = paths_of(views(icons@));
        proof {
            assert(all.take(i + 1).drop_last() =~= all.take(i as int));
            assert(all.take(i + 1).last().0 == views(icons@));
            assert(before + paths.take(0) =~= before);
        }
        let mut k: usize = 0;
        while k < icons.len()
            invariant
                k <= icons@.len(),
                paths == paths_of(views(icons@)),
                views(lines@) == before + paths.take(k as int),
            decreases icons@.len() - k,
        {
            proof {
                lemma_views_push(lines@, icons@[k as int].path);
                assert((before + paths.take(k as int)).push(paths[k as int]) =~= before
                    + paths.take(k + 1));
            }
            lines.push(icons[k].path.clone());
            k += 1;
        }
        proof {
            assert(paths.take(k as int) =~= paths);
        }
        i += 1;
    }
    proof {
        assert(all.take(i as int) =~= all);
    }
    lines
}

/// The lines that report the errors of the searches, in order. The
/// command fails if and only if there is such a line.
pub fn print_errors(res: &[Outcome]) -> (lines: Vec<String>)
    ensures
        views(lines@) == error_lines_of(outcome_values(res@)),
{
    let ghost all = outcome_values(res@);
    let mut lines: Vec<String> = Vec::new();
    let mut i: usize = 0;
    proof {
        assert(all.take(0) =~= Seq::<OutcomeView>::empty());
        assert(views(lines@) =~= Seq::<Seq<char>>::empty());
    }
    while i < res.len()
        invariant
            i <= res@.len(),
            all == outcome_values(res@),
            views(lines@) == error_lines_of(all.take(i as int)),
        decreases res@.len() - i,
    {
        proof {
            assert(all.take(i + 1).drop_last() =~= all.take(i as int));
            assert(all.take(i + 1).last() == outcome_value(res@[i as int]));
        }
        match &res[i].1 {
            Some(error) => {
                let mut line = String::from_str("Error: ");
                let message = error.message();
                line.append(message.as_str());
                proof {
                    lemma_views_push(lines@, line);
                }
                lines.push(line);
            },
            None => {},
        }
        i += 1;
    }
    proof {
        assert(all.take(i as int) =~= all);
    }
    lines
}

/// The row that shows an icon.
pub fn icon_row(icon: &IconPath) -> (row: IconRow)
    ensures
        row@ == icon_row_of(icon@),
{
    IconRow {
        path: icon.path.clone(),
        theme: icon.theme.clone(),
        format: String::from_str(icon.icon_type.label()),
        min_size: icon.min_size,
        max_size: icon.max_size,
        scale: icon.scale,
    }
}

/// The rows of the long listing of icons.
pub fn print_icons_long(res: &[Outcome]) -> (rows: Vec<IconRow>)
    ensures
        views(rows@) == icon_rows_of(outcome_values(res@)),
{
    let ghost all = outcome_values(res@);
    let mut rows: Vec<IconRow> = Vec::new();
    let mut i: usize = 0;
    proof {
        assert(all.take(0) =~= Seq::<OutcomeView>::empty());
        assert(views(rows@) =~= Seq::<IconRowView>::empty());
    }
    while i < res.len()
        invariant
            i <= res@.len(),
            all == outcome_values(res@),
            views(rows@) == icon_rows_of(all.take(i as int)),
        decreases res@.len() - i,
    {
        let icons = &res[i].0;
        let ghost before = views(rows@);
        let ghost added = rows_of(views(icons@));
        proof {
            assert(all.take(i + 1).drop_last() =~= all.take(i as int));
            assert(all.take(i + 1).last().0 == views(icons@));
            assert(before + added.take(0) =~= before);
        }
        let mut k: usize = 0;
        while k < icons.len()
            invariant
                k <= icons@.len(),
                added == rows_of(views(icons@)),
                views(rows@) == before + added.take(k as int),
            decreases icons@.len() - k,
        {
            let row = icon_row(&icons[k]);
            proof {
                lemma_views_push(rows@, row);
                assert((before + added.take(k as int)).push(added[k as int]) =~= before
                    + added.take(k + 1));
            }
            rows.push(row);
            k += 1;
        }
        proof {
            assert(added.take(k as int) =~= added);
        }
        i += 1;
    }
    proof {
        assert(all.take(i as int) =~= all);
    }
    rows
}

/// The lines of the short listing of themes: their names.
pub fn print_themes(themes: &[Theme]) -> (lines: Vec<String>)
    ensures
        views(lines@) == theme_lines_of(views(themes@)),
{
    let mut lines: Vec<String> = Vec::new();
    let mut i: usize = 0;
    while i < themes.len()
        invariant
            i <= themes@.len(),
            lines@.len() == i,
            forall|j: int| 0 <= j < i ==> lines@[j]@ == themes@[j]@.name,
        decreases themes@.len() - i,
    {
        lines.push(themes[i].name.clone());
        i += 1;
    }
    proof {
        assert(views(lines@) =~= theme_lines_of(views(themes@)));
    }
    lines
}

/// The row that shows a theme.
pub fn theme_row(theme: &Theme) -> (row: ThemeRow)
    ensures
        row@ == theme_row_of(theme@),
{
    let inherits = match &theme.inherits {
        Some(names) => fmt_list(names.as_slice()),
        None => String::new(),
    };
    let comment = match &theme.comment {
        Some(text) => text.clone(),
        None => String::new(),
    };
    ThemeRow {
        name: theme.name.clone(),
        inherits,
        display_name: theme.display_name.clone(),
        comment,
        paths: fmt_list(theme.paths.as_slice()),
    }
}

/// The rows of the long listing of themes.
pub fn print_themes_long(themes: &[Theme]) -> (rows: Vec<ThemeRow>)
    ensures
        views(rows@) == theme_rows_of(views(themes@)),
{
    let mut rows: Vec<ThemeRow> = Vec::new();
    let mut i: usize = 0;
    while i < themes.len()
        invariant
            i <= themes@.len(),
            rows@.len() == i,
            forall|j: int| 0 <= j < i ==> rows@[j]@ == theme_row_of(themes@[j]@),
        decreases themes@.len() - i,
    {
        rows.push(theme_row(&themes[i]));
        i += 1;
    }
    proof {
        assert(views(rows@) =~= theme_rows_of(views(themes@)));
    }
    rows
}

/// What is printed for the user's theme: its name, or the line that says
/// that it could not be told.
pub open spec fn user_theme_line_of(theme: Option<Seq<char>>) -> Result<Seq<char>, Seq<char>> {
    match theme {
        Some(name) => Ok(name),
        None => Err("Error: Couldn't get user's icon theme"@),
    }
}

/// The line that shows the user's theme. Where the theme is not known the
/// line is an error and the command fails.
pub fn print_user_theme(theme: Option<String>) -> (line: Result<String, String>)
    ensures
        match user_theme_line_of(optional_view(theme)) {
            Ok(name) => line is Ok && line->Ok_0@ == name,
            Err(text) => line is Err && line->Err_0@ == text,
        },
{
    match theme {
        Some(name) => Ok(name),
        None => Err(String::from_str("Error: Couldn't get user's icon theme")),
    }
}

} // verus!
