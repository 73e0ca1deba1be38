//! Scanning a theme for an icon: the files that may hold it, in the order
//! in which they are tried, and what becomes of each once it is probed.

use vstd::prelude::*;
use crate::icon::{found_view, found_views, Found, FoundView, IconPath, IconPathView, IconType,
    LookupError, LookupErrorView};
use crate::model::{lemma_views_push, views};
use crate::text::{chars_of, same_chars};
use crate::theme::{eligible, well_sized, Subdirectory, SubdirectoryView, Theme, ThemeView};

verus! {

/// What probing a file gave.
#[derive(Clone, Debug, PartialEq, Eq)]
pub enum Probe {
    /// There is no such file.
    Missing,
    /// The file is there.
    Present,
    /// The file could not be examined; the text says why.
    Failed(String),
}

/// The mathematical value of a [`Probe`].
pub enum ProbeView {
    Missing,
    Present,
    Failed(Seq<char>),
}

impl View for Probe {
    type V = ProbeView;

    open spec fn view(&self) -> ProbeView {
        match self {
            Probe::Missing => ProbeView::Missing,
            Probe::Present => ProbeView::Present,
            Probe::Failed(cause) => ProbeView::Failed(cause@),
        }
    }
}

/// A path with what probing it gave.
#[derive(Clone, Debug, PartialEq, Eq)]
pub struct FileEntry {
    pub path: String,
    pub outcome: Probe,
}

/// The mathematical value of a [`FileEntry`].
pub struct FileEntryView {
    pub path: Seq<char>,
    pub outcome: ProbeView,
}

impl View for FileEntry {
    type V = FileEntryView;

    open spec fn view(&self) -> FileEntryView {
        FileEntryView { path: self.path@, outcome: self.outcome@ }
    }
}

/// The path of an icon file: the search root, the theme, the directory
/// and the file name, joined by slashes.
pub open spec fn candidate_path(
    root: Seq<char>,
    theme: Seq<char>,
    subdir: Seq<char>,
    name: Seq<char>,
    extension: Seq<char>,
) -> Seq<char> {
    root + "/"@ + theme + "/"@ + subdir + "/"@ + name + extension
}

/// The icon that a file of the given extension in a directory of a theme
/// would be.
pub open spec fn candidate(
    theme: Seq<char>,
    subdir: SubdirectoryView,
    root: Seq<char>,
    name: Seq<char>,
    extension: Seq<char>,
    icon_type: IconType,
) -> IconPathView {
    IconPathView {
        path: candidate_path(root, theme, subdir.path, name, extension),
        theme,
        icon_type,
        min_size: subdir.min_size,
        max_size: subdir.max_size,
        scale: subdir.scale,
    }
}

/// The files tried in one directory under one search root, in order: the
/// scalable format first, then the bitmaps.
pub open spec fn root_candidates(
    theme: Seq<char>,
    subdir: SubdirectoryView,
    root: Seq<char>,
    name: Seq<char>,
) -> Seq<IconPathView> {
    seq![
        candidate(theme, subdir, root, name, ".svg"@, IconType::SVG),
        candidate(theme, subdir, root, name, ".png"@, IconType::PNG),
        candidate(theme, subdir, root, name, ".xmp"@, IconType::XMP),
        candidate(theme, subdir, root, name, ".xpm"@, IconType::XMP),
    ]
}

/// The files tried in one directory, search root by search root.
pub open spec fn dir_candidates(
    theme: Seq<char>,
    subdir: SubdirectoryView,
    roots: Seq<Seq<char>>,
    name: Seq<char>,
) -> Seq<IconPathView>
    decreases roots.len(),
{
    if roots.len() == 0 {
        Seq::empty()
    } else {
        dir_candidates(theme, subdir, roots.drop_last(), name) + root_candidates(
            theme,
            subdir,
            roots.last(),
            name,
        )
    }
}

/// The files tried in the given directories of a theme, directory by
/// directory; a directory that does not suit the request is left out.
pub open spec fn candidates_among(
    theme: ThemeView,
    subdirs: Seq<SubdirectoryView>,
    name: Seq<char>,
    size: Option<u16>,
    scale: Option<u16>,
) -> Seq<IconPathView>
    decreases subdirs.len(),
{
    if subdirs.len() == 0 {
        Seq::empty()
    } else {
        let before = candidates_among(theme, subdirs.drop_last(), name, size, scale);
        if eligible(subdirs.last(), size, scale) {
            before + dir_candidates(theme.name, subdirs.last(), theme.paths, name)
        } else {
            before
        }
    }
}

/// The files tried in a theme for an icon, in order: by directory in the
/// order of the theme's declaration, then by search root, then by
/// extension.
pub open spec fn theme_candidates(
    theme: ThemeView,
    name: Seq<char>,
    size: Option<u16>,
    scale: Option<u16>,
) -> Seq<IconPathView> {
    candidates_among(theme, theme.subdirs, name, size, scale)
}

/// What probing a path gives: the outcome of the first entry for that
/// path. A path without an entry is missing.
pub open spec fn probed(files: Seq<FileEntryView>, path: Seq<char>) -> ProbeView
    decreases files.len(),
{
    if files.len() == 0 {
        ProbeView::Missing
    } else if files[0].path == path {
        files[0].outcome
    } else {
        probed(files.drop_first(), path)
    }
}

/// What a probed candidate contributes to the result: itself where the
/// file is there, an error where the probe failed, nothing where the file
/// is missing.
pub open spec fn checked(candidate: IconPathView, outcome: ProbeView) -> Option<FoundView> {
    match outcome {
        ProbeView::Present => Some(Ok(candidate)),
        ProbeView::Failed(cause) => Some(
            Err(LookupErrorView::IoError { path: candidate.path, cause }),
        ),
        ProbeView::Missing => None,
    }
}

/// What the candidates contribute, in order.
pub open spec fn found_among(candidates: Seq<IconPathView>, files: Seq<FileEntryView>) -> Seq<
    FoundView,
>
    decreases candidates.len(),
{
    if candidates.len() == 0 {
        Seq::empty()
    } else {
        let rest = found_among(candidates.drop_first(), files);
        match checked(candidates[0], probed(files, candidates[0].path)) {
            Some(item) => seq![item] + rest,
            None => rest,
        }
    }
}

/// The result of scanning a theme for an icon.
pub open spec fn scanned(
    theme: ThemeView,
    name: Seq<char>,
    size: Option<u16>,
    scale: Option<u16>,
    files: Seq<FileEntryView>,
) -> Seq<FoundView> {
    found_among(theme_candidates(theme, name, size, scale), files)
}

/// The value of an optional element of a lookup.
pub open spec fn optional_found(item: Option<Found>) -> Option<FoundView> {
    match item {
        Some(found) => Some(found_view(found)),
        None => None,
    }
}

/// Builds the path of an icon file.
fn icon_file(root: &str, theme: &str, subdir: &str, name: &str, extension: &str) -> (path: String)
    ensures
        path@ == candidate_path(root@, theme@, subdir@, name@, extension@),
{
    let mut path = String::from_str(root);
    path.append("/");
    path.append(theme);
    path.append("/");
    path.append(subdir);
    path.append("/");
    path.append(name);
    path.append(extension);
    path
}

/// The icon that a file of the given extension would be.
fn icon_at(
    theme: &str,
    subdir: &Subdirectory,
    root: &str,
    name: &str,
    extension: &str,
    icon_type: IconType,
) -> (icon: IconPath)
    ensures
        icon@ == candidate(theme@, subdir@, root@, name@, extension@, icon_type),
{
    IconPath {
        path: icon_file(root, theme, subdir.path.as_str(), name, extension),
        theme: String::from_str(theme),
        icon_type,
        min_size: subdir.min_size,
        max_size: subdir.max_size,
        scale: subdir.scale,
    }
}

/// Lists the files to try in a theme for an icon, in the order in which
/// they are tried. A directory that does not suit the requested size and
/// scale contributes none.
pub fn candidates(
    theme: &Theme,
    icon_base_name: &str,
    size_filter: Option<u16>,
    scale_filter: Option<u16>,
) -> (out: Vec<IconPath>)
    ensures
        views(out@) == theme_candidates(theme@, icon_base_name@, size_filter, scale_filter),
{
    let ghost model = theme@;
    let ghost name = icon_base_name@;
    let mut out: Vec<IconPath> = Vec::new();
    let mut d: usize = 0;
    proof {
        assert(model.subdirs.take(0) =~= Seq::<SubdirectoryView>::empty());
        assert(views(out@) =~= Seq::<IconPathView>::empty());
    }
    while d < theme.subdirs.len()
        invariant
            d <= theme.subdirs@.len(),
            model == theme@,
            name == icon_base_name@,
            views(out@) == candidates_among(
                model,
                model.subdirs.take(d as int),
                name,
                size_filter,
                scale_filter,
            ),
        decreases theme.subdirs@.len() - d,
    {
        let subdir = &theme.subdirs[d];
        proof {
            assert(model.subdirs.take(d + 1).drop_last() =~= model.subdirs.take(d as int));
            assert(model.subdirs.take(d + 1).last() == subdir@);
        }
        if subdir.matches(size_filter, scale_filter) {
            let ghost before = views(out@);
            let mut p: usize = 0;
            proof {
                assert(model.paths.take(0) =~= Seq::<Seq<char>>::empty());
                assert(before + dir_candidates(model.name, subdir@, model.paths.take(0), name)
                    =~= before);
            }
            while p < theme.paths.len()
                invariant
                    p <= theme.paths@.len(),
                    model == theme@,
                    name == icon_base_name@,
                    d < theme.subdirs@.len(),
                    *subdir == theme.subdirs@[d as int],
                    views(out@) == before + dir_candidates(
                        model.name,
                        subdir@,
                        model.paths.take(p as int),
                        name,
                    ),
                decreases theme.paths@.len() - p,
            {
                let root = theme.paths[p].as_str();
                let theme_name = theme.name.as_str();
                let ghost so_far = views(out@);
                let svg = icon_at(theme_name, subdir, root, icon_base_name, ".svg", IconType::SVG);
                let png = icon_at(theme_name, subdir, root, icon_base_name, ".png", IconType::PNG);
                let xmp = icon_at(theme_name, subdir, root, icon_base_name, ".xmp", IconType::XMP);
                let xpm = icon_at(theme_name, subdir, root, icon_base_name, ".xpm", IconType::XMP);
                proof {
                    assert(model.paths.take(p + 1).drop_last() =~= model.paths.take(p as int));
                    assert(model.paths.take(p + 1).last() == root@);
                    lemma_views_push(out@, svg);
                    lemma_views_push(out@.push(svg), png);
                    lemma_views_push(out@.push(svg).push(png), xmp);
                    lemma_views_push(out@.push(svg).push(png).push(xmp), xpm);
                    assert(so_far.push(svg@).push(png@).push(xmp@).push(xpm@) =~= so_far
                        + root_candidates(model.name, subdir@, root@, name));
                    assert(before + (dir_candidates(
                        model.name,
                        subdir@,
                        model.paths.take(p as int),
                        name,
                    ) + root_candidates(model.name, subdir@, root@, name)) =~= so_far
                        + root_candidates(model.name, subdir@, root@, name));
                }
                out.push(svg);
                out.push(png);
                out.push(xmp);
                out.push(xpm);
                p += 1;
            }
            proof {
                assert(model.paths.take(p as int) =~= model.paths);
            }
        }
        d += 1;
    }
    proof {
        assert(model.subdirs.take(d as int) =~= model.subdirs);
    }
    out
}

/// Looks a path up among the probed files.
pub fn probe_file(files: &Vec<FileEntry>, path: &str) -> (outcome: Probe)
    ensures
        outcome@ == probed(views(files@), path@),
{
    let wanted = chars_of(path);
    let ghost all = views(files@);
    let mut i: usize = 0;
    proof {
        assert(all.skip(0) =~= all);
    }
    while i < files.len()
        invariant
            i <= files@.len(),
            all == views(files@),
            wanted@ == path@,
            probed(all, path@) == probed(all.skip(i as int), path@),
        decreases files@.len() - i,
    {
        proof {
            assert(all.skip(i as int).drop_first() =~= all.skip(i + 1));
            assert(all.skip(i as int)[0] == files@[i as int]@);
        }
        let here = chars_of(files[i].path.as_str());
        if same_chars(here.as_slice(), wanted.as_slice()) {
            return match &files[i].outcome {
                Probe::Missing => Probe::Missing,
                Probe::Present => Probe::Present,
                Probe::Failed(cause) => Probe::Failed(cause.clone()),
            };
        }
        i += 1;
    }
    Probe::Missing
}

/// Decides what a probed candidate contributes to the result.
pub fn check(candidate: &IconPath, outcome: Probe) -> (item: Option<Found>)
    ensures
        optional_found(item) == checked(candidate@, outcome@),
{
    match outcome {
        Probe::Present => Some(Ok(candidate.duplicate())),
        Probe::Failed(cause) => Some(
            Err(LookupError::IoError { path: candidate.path.clone(), cause }),
        ),
        Probe::Missing => None,
    }
}

/// Scans a theme for an icon: tries the theme's directories in the order
/// of their declaration, under each of the theme's search roots, with each
/// extension, and yields every file that is there. A probe that fails
/// yields an error in the file's place and the scan goes on.
pub fn scan(
    theme: &Theme,
    icon_base_name: &str,
    size_filter: Option<u16>,
    scale_filter: Option<u16>,
    files: &Vec<FileEntry>,
) -> (out: Vec<Found>)
    ensures
        found_views(out@) == scanned(
            theme@,
            icon_base_name@,
            size_filter,
            scale_filter,
            views(files@),
        ),
{
    let tried = candidates(theme, icon_base_name, size_filter, scale_filter);
    let ghost all = views(tried@);
    let ghost model = views(files@);
    let mut out: Vec<Found> = Vec::new();
    let mut i: usize = 0;
    proof {
        assert(all.skip(0) =~= all);
        assert(found_views(out@) + found_among(all, model) =~= found_among(all, model));
    }
    while i < tried.len()
        invariant
            i <= tried@.len(),
            all == views(tried@),
            model == views(files@),
            found_views(out@) + found_among(all.skip(i as int), model) == found_among(all, model),
        decreases tried@.len() - i,
    {
        let ghost before = found_views(out@);
        proof {
            assert(all.skip(i as int).drop_first() =~= all.skip(i + 1));
            assert(all.skip(i as int)[0] == tried@[i as int]@);
        }
        let outcome = probe_file(files, tried[i].path.as_str());
        match check(&tried[i], outcome) {
            Some(item) => {
                out.push(item);
                proof {
                    assert(found_views(out@) =~= before.push(found_view(item)));
                    assert(before.push(found_view(item)) + found_among(all.skip(i + 1), model)
                        =~= before + (seq![found_view(item)] + found_among(
                        all.skip(i + 1),
                        model,
                    )));
                }
            },
            None => {},
        }
        i += 1;
    }
    proof {
        assert(found_views(out@) + found_among(all.skip(i as int), model) =~= found_views(out@));
    }
    out
}

/// Whether a candidate belongs to the named theme and has a minimum size
/// that does not exceed its maximum size.
pub open spec fn sound_candidate(candidate: IconPathView, theme: Seq<char>) -> bool {
    candidate.theme == theme && candidate.min_size <= candidate.max_size
}

/// The candidates of a directory carry the theme's name and the range of
/// the directory.
proof fn lemma_dir_candidates_sound(
    theme: Seq<char>,
    subdir: SubdirectoryView,
    roots: Seq<Seq<char>>,
    name: Seq<char>,
)
    requires
        well_sized(subdir),
    ensures
        forall|i: int|
            0 <= i < dir_candidates(theme, subdir, roots, name).len() ==> sound_candidate(
                #[trigger] dir_candidates(theme, subdir, roots, name)[i],
                theme,
            ),
    decreases roots.len(),
{
    if roots.len() > 0 {
        lemma_dir_candidates_sound(theme, subdir, roots.drop_last(), name);
        let before = dir_candidates(theme, subdir, roots.drop_last(), name);
        let here = root_candidates(theme, subdir, roots.last(), name);
        assert forall|i: int| 0 <= i < (before + here).len() implies sound_candidate(
            #[trigger] (before + here)[i],
            theme,
        ) by {
            if i < before.len() {
                assert((before + here)[i] == before[i]);
            } else {
                assert((before + here)[i] == here[i - before.len()]);
            }
        }
    }
}

/// The candidates of a theme whose directories have consistent sizes
/// carry the theme's name and a minimum size that does not exceed the
/// maximum size.
pub proof fn lemma_candidates_sound(
    theme: ThemeView,
    subdirs: Seq<SubdirectoryView>,
    name: Seq<char>,
    size: Option<u16>,
    scale: Option<u16>,
)
    requires
        forall|i: int| 0 <= i < subdirs.len() ==> well_sized(#[trigger] subdirs[i]),
    ensures
        forall|i: int|
            0 <= i < candidates_among(theme, subdirs, name, size, scale).len() ==> sound_candidate(
                #[trigger] candidates_among(theme, subdirs, name, size, scale)[i],
                theme.name,
            ),
    decreases subdirs.len(),
{
    if subdirs.len() > 0 {
        let front = subdirs.drop_last();
        assert forall|i: int| 0 <= i < front.len() implies well_sized(#[trigger] front[i]) by {
            assert(front[i] == subdirs[i]);
        }
        lemma_candidates_sound(theme, front, name, size, scale);
        assert(well_sized(subdirs[subdirs.len() - 1]));
        lemma_dir_candidates_sound(theme.name, subdirs.last(), theme.paths, name);
        let before = candidates_among(theme, front, name, size, scale);
        let here = dir_candidates(theme.name, subdirs.last(), theme.paths, name);
        assert forall|i: int| 0 <= i < (before + here).len() implies sound_candidate(
            #[trigger] (before + here)[i],
            theme.name,
        ) by {
            if i < before.len() {
                assert((before + here)[i] == before[i]);
            } else {
                assert((before + here)[i] == here[i - before.len()]);
            }
        }
    }
}

/// Whether an element is an icon of the named theme with a minimum size
/// that does not exceed its maximum size, or an error of reading a file.
pub open spec fn sound_item(item: FoundView, theme: Seq<char>) -> bool {
    match item {
        Ok(icon) => sound_candidate(icon, theme),
        Err(error) => error is IoError,
    }
}

/// What sound candidates contribute is sound.
pub proof fn lemma_found_among_sound(
    candidates: Seq<IconPathView>,
    files: Seq<FileEntryView>,
    theme: Seq<char>,
)
    requires
        forall|i: int|
            0 <= i < candidates.len() ==> sound_candidate(#[trigger] candidates[i], theme),
    ensures
        forall|i: int|
            0 <= i < found_among(candidates, files).len() ==> sound_item(
                #[trigger] found_among(candidates, files)[i],
                theme,
            ),
    decreases candidates.len(),
{
    if candidates.len() > 0 {
        let rest = candidates.drop_first();
        assert forall|i: int| 0 <= i < rest.len() implies sound_candidate(
            #[trigger] rest[i],
            theme,
        ) by {
            assert(rest[i] == candidates[i + 1]);
        }
        lemma_found_among_sound(rest, files, theme);
        assert(sound_candidate(candidates[0], theme));
        let later = found_among(rest, files);
        match checked(candidates[0], probed(files, candidates[0].path)) {
            Some(item) => {
                assert(sound_item(item, theme));
                assert forall|i: int| 0 <= i < (seq![item] + later).len() implies sound_item(
                    #[trigger] (seq![item] + later)[i],
                    theme,
                ) by {
                    if i > 0 {
                        assert((seq![item] + later)[i] == later[i - 1]);
                    }
                }
            },
            None => {},
        }
    }
}

} // verus!
