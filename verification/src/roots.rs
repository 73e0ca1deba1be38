//! Search roots: the directories under which themes are installed, given
//! as plain values, and the loading of a theme from them.

use vstd::prelude::*;
use crate::icon::{LookupError, LookupErrorView};
use crate::index::{described, parse_theme};
use crate::model::{lemma_views_push, views};
use crate::text::{chars_of, same_chars, split, split_chars, string_of};
use crate::theme::{optional_view, Theme, ThemeView};

verus! {

/// A theme's directory as found in one search root: its name and the text
/// of the descriptor in it, if it has one that can be read.
#[derive(Clone, Debug, PartialEq, Eq)]
pub struct ThemeDir {
    pub name: String,
    pub descriptor: Option<String>,
}

/// The mathematical value of a [`ThemeDir`].
pub struct ThemeDirView {
    pub name: Seq<char>,
    pub descriptor: Option<Seq<char>>,
}

impl View for ThemeDir {
    type V = ThemeDirView;

    open spec fn view(&self) -> ThemeDirView {
        ThemeDirView { name: self.name@, descriptor: optional_view(self.descriptor) }
    }
}

/// A search root: its path and the theme directories in it. `themes` is
/// `None` where the path names no directory.
#[derive(Clone, Debug, PartialEq, Eq)]
pub struct SearchRoot {
    pub path: String,
    pub themes: Option<Vec<ThemeDir>>,
}

/// The mathematical value of a [`SearchRoot`].
pub struct SearchRootView {
    pub path: Seq<char>,
    pub themes: Option<Seq<ThemeDirView>>,
}

impl View for SearchRoot {
    type V = SearchRootView;

    open spec fn view(&self) -> SearchRootView {
        SearchRootView {
            path: self.path@,
            themes: match self.themes {
                Some(dirs) => Some(views(dirs@)),
                None => None,
            },
        }
    }
}

/// The theme directories of a root; none where the root is no directory.
pub open spec fn listing(root: SearchRootView) -> Seq<ThemeDirView> {
    match root.themes {
        Some(dirs) => dirs,
        None => Seq::empty(),
    }
}

/// The first directory of the given name.
pub open spec fn dir_named(dirs: Seq<ThemeDirView>, name: Seq<char>) -> Option<ThemeDirView>
    decreases dirs.len(),
{
    if dirs.len() == 0 {
        None
    } else if dirs[0].name == name {
        Some(dirs[0])
    } else {
        dir_named(dirs.drop_first(), name)
    }
}

/// Whether a root holds a directory of the theme of the given name.
pub open spec fn holds(root: SearchRootView, name: Seq<char>) -> bool {
    dir_named(listing(root), name) is Some
}

/// The descriptor of the theme of the given name in a root; none where
/// the root does not hold the theme or the theme's directory has none.
pub open spec fn descriptor_at(root: SearchRootView, name: Seq<char>) -> Option<Seq<char>> {
    match dir_named(listing(root), name) {
        Some(dir) => dir.descriptor,
        None => None,
    }
}

/// The paths of the roots that hold a theme of the given name, in search
/// order.
pub open spec fn holders(roots: Seq<SearchRootView>, name: Seq<char>) -> Seq<Seq<char>>
    decreases roots.len(),
{
    if roots.len() == 0 {
        Seq::empty()
    } else {
        let before = holders(roots.drop_last(), name);
        if holds(roots.last(), name) {
            before.push(roots.last().path)
        } else {
            before
        }
    }
}

/// The descriptor of the theme in the first root that has one for it.
pub open spec fn first_descriptor(roots: Seq<SearchRootView>, name: Seq<char>) -> Option<
    Seq<char>,
>
    decreases roots.len(),
{
    if roots.len() == 0 {
        None
    } else if descriptor_at(roots[0], name) is Some {
        descriptor_at(roots[0], name)
    } else {
        first_descriptor(roots.drop_first(), name)
    }
}

/// Whether some root holds a theme of the given name.
pub open spec fn installed(roots: Seq<SearchRootView>, name: Seq<char>) -> bool
    decreases roots.len(),
{
    if roots.len() == 0 {
        false
    } else {
        holds(roots[0], name) || installed(roots.drop_first(), name)
    }
}

/// The text that describes the theme of the given name: the first
/// descriptor that the roots have for it, or nothing where they have none.
pub open spec fn description(roots: Seq<SearchRootView>, name: Seq<char>) -> Seq<char> {
    match first_descriptor(roots, name) {
        Some(text) => text,
        None => Seq::empty(),
    }
}

/// The theme of the given name as the roots give it: living in every root
/// that holds a directory of it, described by the first descriptor found
/// in those directories. There is none where no root holds it.
pub open spec fn loaded(roots: Seq<SearchRootView>, name: Seq<char>) -> Option<ThemeView> {
    if installed(roots, name) {
        Some(described(name, holders(roots, name), description(roots, name)))
    } else {
        None
    }
}

/// The position of the first directory of the given name.
fn find_dir(dirs: &Vec<ThemeDir>, name: &[char]) -> (r: Option<usize>)
    ensures
        match r {
            Some(i) => i < dirs@.len() && dir_named(views(dirs@), name@) == Some(
                dirs@[i as int]@,
            ),
            None => dir_named(views(dirs@), name@) is None,
        },
{
    let ghost all = views(dirs@);
    let mut i: usize = 0;
    proof {
        assert(all.skip(0) =~= all);
    }
    while i < dirs.len()
        invariant
            i <= dirs@.len(),
            all == views(dirs@),
            dir_named(all, name@) == dir_named(all.skip(i as int), name@),
        decreases dirs@.len() - i,
    {
        proof {
            assert(all.skip(i as int).drop_first() =~= all.skip(i + 1));
            assert(all.skip(i as int)[0] == dirs@[i as int]@);
        }
        let dir_name = chars_of(dirs[i].name.as_str());
        if same_chars(dir_name.as_slice(), name) {
            return Some(i);
        }
        i += 1;
    }
    None
}

/// The directory of the theme of the given name in a root, if the root
/// holds one.
fn dir_at<'a>(root: &'a SearchRoot, name: &[char]) -> (r: Option<&'a ThemeDir>)
    ensures
        match r {
            Some(dir) => dir_named(listing(root@), name@) == Some(dir@),
            None => !holds(root@, name@),
        },
{
    match &root.themes {
        Some(dirs) => match find_dir(dirs, name) {
            Some(i) => Some(&dirs[i]),
            None => None,
        },
        None => None,
    }
}

/// Loads the theme of the given name. The theme's paths are the search
/// roots that hold a directory of that name, in search order, and its
/// description is the first descriptor found in those directories. Where
/// none of them has a descriptor the theme is bare: it declares nothing.
///
/// Fails with `ThemeNotFound` if and only if no root holds the theme.
pub fn load(theme_name: &str, search_roots: &Vec<&SearchRoot>) -> (r: Result<Theme, LookupError>)
    ensures
        match loaded(views(search_roots@), theme_name@) {
            Some(theme) => r is Ok && r->Ok_0@ == theme && r->Ok_0.wf(),
            None => r is Err && r->Err_0@ == LookupErrorView::ThemeNotFound(theme_name@),
        },
{
    let name = chars_of(theme_name);
    let ghost roots = views(search_roots@);
    let mut paths: Vec<String> = Vec::new();
    let mut text: Option<&String> = None;
    let mut found = false;
    let mut i: usize = 0;
    proof {
        assert(roots.take(0) =~= Seq::<SearchRootView>::empty());
        assert(views(paths@) =~= Seq::<Seq<char>>::empty());
    }
    while i < search_roots.len()
        invariant
            i <= search_roots@.len(),
            roots == views(search_roots@),
            name@ == theme_name@,
            views(paths@) == holders(roots.take(i as int), theme_name@),
            found == installed(roots.take(i as int), theme_name@),
            match text {
                Some(t) => first_descriptor(roots.take(i as int), theme_name@) == Some(t@),
                None => first_descriptor(roots.take(i as int), theme_name@) is None,
            },
        decreases search_roots@.len() - i,
    {
        proof {
            assert(roots.take(i + 1).drop_last() =~= roots.take(i as int));
            assert(roots.take(i + 1).last() == search_roots@[i as int]@);
            assert(roots.take(i + 1) =~= roots.take(i as int).push(roots[i as int]));
            lemma_first_descriptor_push(roots.take(i as int), roots[i as int], theme_name@);
            lemma_installed_push(roots.take(i as int), roots[i as int], theme_name@);
        }
        match dir_at(search_roots[i], name.as_slice()) {
            Some(dir) => {
                proof {
                    lemma_views_push(paths@, search_roots@[i as int].path);
                }
                paths.push(search_roots[i].path.clone());
                found = true;
                if text.is_none() {
                    match &dir.descriptor {
                        Some(t) => {
                            text = Some(t);
                        },
                        None => {},
                    }
                }
            },
            None => {},
        }
        i += 1;
    }
    proof {
        assert(roots.take(i as int) =~= roots);
    }
    if !found {
        return Err(LookupError::ThemeNotFound(String::from_str(theme_name)));
    }
    match text {
        Some(t) => Ok(parse_theme(String::from_str(theme_name), paths, t.as_str())),
        None => {
            proof {
                assert(""@ =~= Seq::<char>::empty()) by {
                    reveal_strlit("");
                }
            }
            Ok(parse_theme(String::from_str(theme_name), paths, ""))
        },
    }
}

/// The first descriptor among the roots with one more root behind them.
pub proof fn lemma_first_descriptor_push(
    roots: Seq<SearchRootView>,
    last: SearchRootView,
    name: Seq<char>,
)
    ensures
        first_descriptor(roots.push(last), name) == if first_descriptor(roots, name) is Some {
            first_descriptor(roots, name)
        } else {
            descriptor_at(last, name)
        },
    decreases roots.len(),
{
    if roots.len() == 0 {
        assert(roots.push(last).drop_first() =~= roots);
    } else {
        assert(roots.push(last).drop_first() =~= roots.drop_first().push(last));
        lemma_first_descriptor_push(roots.drop_first(), last, name);
    }
}

/// Whether a theme is installed in the roots with one more root behind
/// them.
pub proof fn lemma_installed_push(roots: Seq<SearchRootView>, last: SearchRootView, name: Seq<char>)
    ensures
        installed(roots.push(last), name) == (installed(roots, name) || holds(last, name)),
    decreases roots.len(),
{
    if roots.len() == 0 {
        assert(roots.push(last).drop_first() =~= roots);
    } else {
        assert(roots.push(last).drop_first() =~= roots.drop_first().push(last));
        lemma_installed_push(roots.drop_first(), last, name);
    }
}

/// Whether some root holds a theme of the given name.
pub fn is_installed(theme_name: &str, search_roots: &Vec<&SearchRoot>) -> (r: bool)
    ensures
        r == installed(views(search_roots@), theme_name@),
{
    let name = chars_of(theme_name);
    let ghost roots = views(search_roots@);
    let mut i: usize = 0;
    proof {
        assert(roots.skip(0) =~= roots);
    }
    while i < search_roots.len()
        invariant
            i <= search_roots@.len(),
            roots == views(search_roots@),
            name@ == theme_name@,
            installed(roots, theme_name@) == installed(roots.skip(i as int), theme_name@),
        decreases search_roots@.len() - i,
    {
        proof {
            assert(roots.skip(i as int).drop_first() =~= roots.skip(i + 1));
            assert(roots.skip(i as int)[0] == search_roots@[i as int]@);
        }
        if dir_at(search_roots[i], name.as_slice()).is_some() {
            return true;
        }
        i += 1;
    }
    false
}

/// The search roots that a list of data directories gives: `icons` under
/// each directory of the list, empty items left out.
pub open spec fn data_roots(dirs: Seq<Seq<char>>) -> Seq<Seq<char>>
    decreases dirs.len(),
{
    if dirs.len() == 0 {
        Seq::empty()
    } else {
        let before = data_roots(dirs.drop_last());
        if dirs.last().len() > 0 {
            before.push(dirs.last() + "/icons"@)
        } else {
            before
        }
    }
}

/// The standard search roots, in search order: `.icons` under the home
/// directory, if that is known; `icons` under each of the data
/// directories, which are separated by colons, or under the two usual
/// ones where none are given; and the directory of loose pixmaps.
pub open spec fn standard_roots(home: Option<Seq<char>>, data_dirs: Option<Seq<char>>) -> Seq<
    Seq<char>,
> {
    let own = match home {
        Some(dir) => if dir.len() > 0 {
            seq![dir + "/.icons"@]
        } else {
            Seq::empty()
        },
        None => Seq::empty(),
    };
    let shared = match data_dirs {
        Some(list) => if list.len() > 0 {
            data_roots(split(list, ':'))
        } else {
            seq!["/usr/local/share/icons"@, "/usr/share/icons"@]
        },
        None => seq!["/usr/local/share/icons"@, "/usr/share/icons"@],
    };
    own + shared + seq!["/usr/share/pixmaps"@]
}

/// The text of an optional string slice.
pub open spec fn optional_text(text: Option<&str>) -> Option<Seq<char>> {
    match text {
        Some(s) => Some(s@),
        None => None,
    }
}

/// Lists the standard search roots from the home directory and the list
/// of data directories, either of which may be unknown.
pub fn default_search_paths(home: Option<&str>, data_dirs: Option<&str>) -> (paths: Vec<String>)
    ensures
        views(paths@) == standard_roots(optional_text(home), optional_text(data_dirs)),
{
    let mut paths: Vec<String> = Vec::new();
    proof {
        assert(views(paths@) =~= Seq::<Seq<char>>::empty());
    }
    match home {
        Some(dir) => {
            if dir.unicode_len() > 0 {
                let mut own = String::from_str(dir);
                own.append("/.icons");
                proof {
                    lemma_views_push(paths@, own);
                }
                paths.push(own);
            }
        },
        None => {},
    }
    let ghost own = views(paths@);
    let mut usual = true;
    match data_dirs {
        Some(list) => {
            if list.unicode_len() > 0 {
                usual = false;
                let chars = chars_of(list);
                let items = split_chars(chars.as_slice(), ':');
                let ghost all = split(list@, ':');
                let mut i: usize = 0;
                proof {
                    assert(all.take(0) =~= Seq::<Seq<char>>::empty());
                    assert(own + data_roots(all.take(0)) =~= own);
                }
                while i < items.len()
                    invariant
                        i <= items@.len(),
                        views(items@) == all,
                        views(paths@) == own + data_roots(all.take(i as int)),
                    decreases items@.len() - i,
                {
                    proof {
                        assert(all.take(i + 1).drop_last() =~= all.take(i as int));
                        assert(all.take(i + 1).last() == items@[i as int]@);
                    }
                    if items[i].len() > 0 {
                        let mut root = string_of(items[i]);
                        root.append("/icons");
                        proof {
                            lemma_views_push(paths@, root);
                            assert((own + data_roots(all.take(i as int))).push(root@) =~= own
                                + data_roots(all.take(i as int)).push(root@));
                        }
                        paths.push(root);
                    }
                    i += 1;
                }
                proof {
                    assert(all.take(i as int) =~= all);
                }
            }
        },
        None => {},
    }
    if usual {
        let local = String::from_str("/usr/local/share/icons");
        let system = String::from_str("/usr/share/icons");
        proof {
            lemma_views_push(paths@, local);
            lemma_views_push(paths@.push(local), system);
            assert(own.push(local@).push(system@) =~= own + seq![local@, system@]);
        }
        paths.push(local);
        paths.push(system);
    }
    let ghost shared = views(paths@);
    let pixmaps = String::from_str("/usr/share/pixmaps");
    proof {
        lemma_views_push(paths@, pixmaps);
        assert(shared.push(pixmaps@) =~= shared + seq![pixmaps@]);
    }
    paths.push(pixmaps);
    paths
}

} // verus!
