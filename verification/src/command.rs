//! The command line's way of looking icons up: one icon per name, the
//! first that is of an accepted format, sought without the fallback theme
//! first and with it only if that gave nothing.

use vstd::prelude::*;
use crate::icon::{FoundView, IconPath, IconPathView, IconType, LookupError, LookupErrorView};
use crate::lookup::{
    agree_on, first_invalid, lemma_probe_paths_same, lemma_results_need_wanted_files, lookup_icon,
    lookup_results, start_theme, wanted_paths, LookupConfigView, LookupIterator,
};
use crate::model::views;
use crate::order::resolved_names;
use crate::report::{outcome_value, Outcome, OutcomeView};
use crate::roots::{SearchRoot, SearchRootView};
use crate::scan::{FileEntry, FileEntryView};
use crate::theme::optional_view;

verus! {

/// The arguments of the command line.
#[derive(Clone, Debug, PartialEq, Eq)]
pub struct Args {
    /// Names of the icons to get.
    pub names: Vec<String>,
    /// Icon size.
    pub size: Option<u16>,
    /// Icon scale.
    pub scale: Option<u16>,
    /// Desired file formats, separated by commas.
    pub formats: Option<String>,
    /// Theme to get icons from.
    pub theme: Option<String>,
    /// List the installed themes.
    pub list_themes: bool,
    /// Show more information.
    pub long: bool,
    /// Print the user's current theme.
    pub print_user_theme: bool,
    /// Print the program version.
    pub version: bool,
}

/// What the command line is asked to do.
#[derive(Clone, Copy, Debug, PartialEq, Eq, Structural)]
pub enum Action {
    /// Print the program version.
    Version,
    /// List the installed themes.
    ListThemes,
    /// Print the user's theme.
    PrintUserTheme,
    /// Look the named icons up.
    GetIcons,
}

/// What the flags ask for. Where several are given, the version comes
/// before the list of themes, and that before the user's theme; without
/// any of them the icons are looked up.
pub open spec fn action_of(version: bool, list_themes: bool, print_user_theme: bool) -> Action {
    if version {
        Action::Version
    } else if list_themes {
        Action::ListThemes
    } else if print_user_theme {
        Action::PrintUserTheme
    } else {
        Action::GetIcons
    }
}

impl Args {
    /// What the arguments ask for.
    pub fn action(&self) -> (action: Action)
        ensures
            action == action_of(self.version, self.list_themes, self.print_user_theme),
    {
        if self.version {
            Action::Version
        } else if self.list_themes {
            Action::ListThemes
        } else if self.print_user_theme {
            Action::PrintUserTheme
        } else {
            Action::GetIcons
        }
    }
}

/// What is installed on a machine, as far as lookups need it.
#[derive(Clone, Debug, PartialEq, Eq)]
pub struct Installation {
    /// The user's own icon directories, which are searched first and must
    /// exist.
    pub user_roots: Vec<SearchRoot>,
    /// The standard search roots.
    pub roots: Vec<SearchRoot>,
    /// The probed icon files.
    pub files: Vec<FileEntry>,
    /// The user's theme, if it is known.
    pub system_theme: Option<String>,
}

/// The mathematical value of an [`Installation`].
pub struct InstallationView {
    pub user_roots: Seq<SearchRootView>,
    pub roots: Seq<SearchRootView>,
    pub files: Seq<FileEntryView>,
    pub system_theme: Option<Seq<char>>,
}

impl View for Installation {
    type V = InstallationView;

    open spec fn view(&self) -> InstallationView {
        InstallationView {
            user_roots: views(self.user_roots@),
            roots: views(self.roots@),
            files: views(self.files@),
            system_theme: optional_view(self.system_theme),
        }
    }
}

/// The formats of an optional list.
pub open spec fn formats_view(formats: Option<Vec<IconType>>) -> Option<Seq<IconType>> {
    match formats {
        Some(list) => Some(list@),
        None => None,
    }
}

/// Whether a format is accepted: every format is where no list is given.
pub open spec fn accepted(formats: Option<Seq<IconType>>, icon_type: IconType) -> bool {
    match formats {
        Some(list) => list.contains(icon_type),
        None => true,
    }
}

/// What is taken from a sequence of results: the first icon of an accepted
/// format, alone, unless an error stands before it, in which case that
/// error; nothing where the sequence holds neither.
pub open spec fn chosen(items: Seq<FoundView>, formats: Option<Seq<IconType>>) -> OutcomeView
    decreases items.len(),
{
    if items.len() == 0 {
        (Seq::empty(), None)
    } else {
        match items[0] {
            Err(error) => (Seq::empty(), Some(error)),
            Ok(icon) => if accepted(formats, icon.icon_type) {
                (seq![icon], None)
            } else {
                chosen(items.drop_first(), formats)
            },
        }
    }
}

/// The request that the command line makes for one icon: size, scale and
/// theme as given in the arguments, the user's directories before the
/// standard roots.
pub open spec fn request(
    icon_name: Seq<char>,
    size: Option<u16>,
    scale: Option<u16>,
    theme: Option<Seq<char>>,
    no_fallbacks: bool,
    installation: InstallationView,
) -> LookupConfigView {
    LookupConfigView {
        icon_name,
        size,
        scale,
        theme,
        system_theme: installation.system_theme,
        use_fallback: !no_fallbacks,
        roots: installation.user_roots + installation.roots,
        files: installation.files,
    }
}

/// Whether a format is accepted.
pub fn accepts(formats: &Option<Vec<IconType>>, icon_type: IconType) -> (r: bool)
    ensures
        r == accepted(formats_view(*formats), icon_type),
{
    match formats {
        None => true,
        Some(list) => {
            let mut i: usize = 0;
            while i < list.len()
                invariant
                    i <= list@.len(),
                    formats_view(*formats) == Some(list@),
                    forall|j: int| 0 <= j < i ==> list@[j] != icon_type,
                decreases list@.len() - i,
            {
                if list[i] == icon_type {
                    proof {
                        assert(list@[i as int] == icon_type);
                    }
                    return true;
                }
                i += 1;
            }
            false
        },
    }
}

/// The user's own icon directories under the home directory.
pub open spec fn user_paths(home_dir: Seq<char>) -> Seq<Seq<char>> {
    seq![home_dir + "/.icons"@, home_dir + "/.local/share/icons"@]
}

/// The user's own icon directories under the home directory, which the
/// command line searches before the standard roots.
pub fn user_icon_paths(home_dir: &str) -> (paths: Vec<String>)
    ensures
        views(paths@) == user_paths(home_dir@),
{
    let mut icons = String::from_str(home_dir);
    icons.append("/.icons");
    let mut shared = String::from_str(home_dir);
    shared.append("/.local/share/icons");
    let mut paths: Vec<String> = Vec::new();
    paths.push(icons);
    paths.push(shared);
    proof {
        assert(views(paths@) =~= user_paths(home_dir@));
    }
    paths
}

/// Configures the lookup that the command line makes for one icon.
fn configured<'a>(
    icon_name: &str,
    args: &Args,
    no_fallbacks: bool,
    installation: &'a Installation,
) -> (r: Result<LookupIterator<'a>, LookupError>)
    ensures
        match first_invalid(installation@.user_roots) {
            Some(path) => r is Err && r->Err_0@ == LookupErrorView::InvalidSearchPath(path),
            None => {
                &&& r is Ok
                &&& !r->Ok_0.started()
                &&& r->Ok_0.config() == request(
                    icon_name@,
                    args.size,
                    args.scale,
                    optional_view(args.theme),
                    no_fallbacks,
                    installation@,
                )
                &&& r->Ok_0.remaining() == lookup_results(r->Ok_0.config())
            },
        },
{
    let mut iter = lookup_icon(icon_name);
    iter = iter.with_system_theme(installation.system_theme.clone());
    iter = iter.with_default_paths(&installation.roots);
    iter = iter.with_files(&installation.files);
    if let Some(size) = args.size {
        iter = iter.with_size(size);
    }
    if let Some(scale) = args.scale {
        iter = iter.with_scale(scale);
    }
    if let Some(theme) = &args.theme {
        iter = iter.from_theme(theme.as_str());
    }
    iter = iter.use_fallback_themes(!no_fallbacks);
    proof {
        assert(Seq::<SearchRootView>::empty() + installation@.roots =~= installation@.roots);
    }
    iter.with_search_paths(&installation.user_roots)
}

/// Lists the files that looking the icon up may try, so that they can be
/// probed before the lookup. The list does not depend on the files that
/// the installation holds so far.
///
/// Fails with `InvalidSearchPath` if and only if one of the user's
/// directories is no directory.
pub fn wanted_files(icon_name: &str, args: &Args, installation: &Installation) -> (r: Result<
    Vec<String>,
    LookupError,
>)
    ensures
        match first_invalid(installation@.user_roots) {
            Some(path) => r is Err && r->Err_0@ == LookupErrorView::InvalidSearchPath(path),
            None => r is Ok && views(r->Ok_0@) == wanted_paths(
                request(
                    icon_name@,
                    args.size,
                    args.scale,
                    optional_view(args.theme),
                    false,
                    installation@,
                ),
            ),
        },
{
    match configured(icon_name, args, false, installation) {
        Ok(iter) => Ok(iter.files_to_probe()),
        Err(error) => Err(error),
    }
}

/// Looks one icon up for the command line and takes the first icon of an
/// accepted format, or the first error if one comes before such an icon.
/// The search stops there: nothing behind that element is looked at.
///
/// Fails with `InvalidSearchPath` if and only if one of the user's
/// directories is no directory.
pub fn get_icons(
    icon_name: &str,
    args: &Args,
    formats: &Option<Vec<IconType>>,
    no_fallbacks: bool,
    installation: &Installation,
) -> (r: Result<Outcome, LookupError>)
    ensures
        match first_invalid(installation@.user_roots) {
            Some(path) => r is Err && r->Err_0@ == LookupErrorView::InvalidSearchPath(path),
            None => r is Ok && outcome_value(r->Ok_0) == chosen(
                lookup_results(
                    request(
                        icon_name@,
                        args.size,
                        args.scale,
                        optional_view(args.theme),
                        no_fallbacks,
                        installation@,
                    ),
                ),
                formats_view(*formats),
            ),
        },
{
    let mut iter = match configured(icon_name, args, no_fallbacks, installation) {
        Ok(iter) => iter,
        Err(error) => {
            return Err(error);
        },
    };
    let ghost all = iter.remaining();
    let ghost wanted = formats_view(*formats);
    let mut error: Option<LookupError> = None;
    let mut icons: Vec<IconPath> = Vec::new();
    proof {
        assert(views(icons@) =~= Seq::<IconPathView>::empty());
    }
    loop
        invariant_except_break
            chosen(iter.remaining(), wanted) == chosen(all, wanted),
            icons@.len() == 0,
            error is None,
        invariant
            wanted == formats_view(*formats),
        ensures
            outcome_value((icons, error)) == chosen(all, wanted),
        decreases iter.remaining().len(),
    {
        match iter.next() {
            Some(Ok(icon)) => {
                if accepts(formats, icon.icon_type) {
                    proof {
                        assert(views(icons@.push(icon)) =~= seq![icon@]);
                    }
                    icons.push(icon);
                    break ;
                }
            },
            Some(Err(e)) => {
                error = Some(e);
                break ;
            },
            None => {
                break ;
            },
        }
    }
    Ok((icons, error))
}

/// Looks one icon up as the command line does: first without the fallback
/// theme, and, if that gave no icon, once more with it. What the first
/// search gave is given up in that case, an error too.
///
/// Fails with `InvalidSearchPath` if and only if one of the user's
/// directories is no directory.
pub fn get_icons_with_fallback(
    icon_name: &str,
    args: &Args,
    formats: &Option<Vec<IconType>>,
    installation: &Installation,
) -> (r: Result<Outcome, LookupError>)
    ensures
        match first_invalid(installation@.user_roots) {
            Some(path) => r is Err && r->Err_0@ == LookupErrorView::InvalidSearchPath(path),
            None => {
                let strict = chosen(
                    lookup_results(
                        request(
                            icon_name@,
                            args.size,
                            args.scale,
                            optional_view(args.theme),
                            true,
                            installation@,
                        ),
                    ),
                    formats_view(*formats),
                );
                let wide = chosen(
                    lookup_results(
                        request(
                            icon_name@,
                            args.size,
                            args.scale,
                            optional_view(args.theme),
                            false,
                            installation@,
                        ),
                    ),
                    formats_view(*formats),
                );
                r is Ok && outcome_value(r->Ok_0) == if strict.0.len() == 0 {
                    wide
                } else {
                    strict
                }
            },
        },
{
    let result = match get_icons(icon_name, args, formats, true, installation) {
        Ok(result) => result,
        Err(error) => {
            return Err(error);
        },
    };
    if result.0.len() == 0 {
        get_icons(icon_name, args, formats, false, installation)
    } else {
        Ok(result)
    }
}

/// Probing the wanted files is enough: two installations that differ in
/// their files only, and whose files say the same of every wanted path,
/// give the same result for the icon, with the fallback theme and without.
pub proof fn lemma_wanted_files_suffice(
    icon_name: Seq<char>,
    size: Option<u16>,
    scale: Option<u16>,
    theme: Option<Seq<char>>,
    no_fallbacks: bool,
    a: InstallationView,
    b: InstallationView,
)
    requires
        b == (InstallationView { files: b.files, ..a }),
        agree_on(
            a.files,
            b.files,
            wanted_paths(request(icon_name, size, scale, theme, false, a)),
        ),
    ensures
        lookup_results(request(icon_name, size, scale, theme, no_fallbacks, a)) == lookup_results(
            request(icon_name, size, scale, theme, no_fallbacks, b),
        ),
{
    let wide = request(icon_name, size, scale, theme, false, a);
    let here = request(icon_name, size, scale, theme, no_fallbacks, a);
    let there = request(icon_name, size, scale, theme, no_fallbacks, b);
    assert(start_theme(wide) == start_theme(here));
    let names = resolved_names(wide.roots, start_theme(wide), true);
    lemma_probe_paths_same(wide, here, names);
    assert(wanted_paths(wide) == wanted_paths(here));
    assert(there == (LookupConfigView { files: there.files, ..here }));
    lemma_results_need_wanted_files(here, there);
}

} // verus!
