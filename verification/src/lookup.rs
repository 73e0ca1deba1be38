//! Looking an icon up: a request is configured step by step and then
//! answered one element at a time, theme by theme in the resolved order.

use vstd::prelude::*;
use crate::icon::{
    found_view, found_views, Found, FoundView, IconPath, IconPathView, LookupError,
    LookupErrorView,
};
use crate::index::lemma_described_count;
use crate::model::{lemma_views_push, views};
use crate::order::{resolve_order, resolved_names, theme_names, walk, ThemeWalk, FALLBACK_THEME};
use crate::roots::{
    description, holders, installed, is_installed, loaded, SearchRoot, SearchRootView,
};
use crate::scan::{
    candidates, check, found_among, lemma_candidates_sound, lemma_found_among_sound, probe_file,
    probed, scanned, sound_item, theme_candidates, FileEntry, FileEntryView, Probe,
};
use crate::theme::optional_view;

verus! {

/// The mathematical value of a request.
pub struct LookupConfigView {
    /// Base name of the icon file.
    pub icon_name: Seq<char>,
    /// Requested size, if any.
    pub size: Option<u16>,
    /// Requested scale, if any.
    pub scale: Option<u16>,
    /// Theme to start from, if one was chosen.
    pub theme: Option<Seq<char>>,
    /// The user's theme, if it is known.
    pub system_theme: Option<Seq<char>>,
    /// Whether the fallback theme ends the search.
    pub use_fallback: bool,
    /// Search roots, in search order.
    pub roots: Seq<SearchRootView>,
    /// Probed files.
    pub files: Seq<FileEntryView>,
}

/// Where an iteration stands.
#[derive(Clone, Copy, Debug, PartialEq, Eq, Structural)]
enum Stage {
    /// No element has been asked for.
    Fresh,
    /// Elements are being produced.
    Running,
    /// The sequence has ended.
    Done,
}

/// A lookup: first a request under configuration, then, from the first
/// call of `next` on, a sequence that is produced on demand and can be
/// gone through once.
pub struct LookupIterator<'a> {
    icon_name: String,
    size: Option<u16>,
    scale: Option<u16>,
    theme: Option<String>,
    system_theme: Option<String>,
    use_fallback: bool,
    roots: Vec<&'a SearchRoot>,
    files: Option<&'a Vec<FileEntry>>,
    stage: Stage,
    walker: ThemeWalk,
    candidates: Vec<IconPath>,
    cursor: usize,
}

/// The theme at which a lookup starts: the chosen theme, else the user's
/// theme, else the fallback theme.
pub open spec fn start_theme(config: LookupConfigView) -> Seq<char> {
    match config.theme {
        Some(name) => name,
        None => match config.system_theme {
            Some(name) => name,
            None => FALLBACK_THEME@,
        },
    }
}

/// The results of scanning the named themes one after another.
pub open spec fn scan_themes(config: LookupConfigView, names: Seq<Seq<char>>) -> Seq<FoundView>
    decreases names.len(),
{
    if names.len() == 0 {
        Seq::empty()
    } else {
        let here = match loaded(config.roots, names[0]) {
            Some(theme) => scanned(
                theme,
                config.icon_name,
                config.size,
                config.scale,
                config.files,
            ),
            None => Seq::empty(),
        };
        here + scan_themes(config, names.drop_first())
    }
}

/// The whole result of a lookup. Where no search root holds the starting
/// theme, it is the one error that says so. Otherwise it is what scanning
/// the themes of the resolved order gives, theme after theme.
pub open spec fn lookup_results(config: LookupConfigView) -> Seq<FoundView> {
    if !installed(config.roots, start_theme(config)) {
        seq![Err(LookupErrorView::ThemeNotFound(start_theme(config)))]
    } else {
        scan_themes(
            config,
            resolved_names(config.roots, start_theme(config), config.use_fallback),
        )
    }
}

/// The paths of the given candidates.
pub open spec fn candidate_paths(candidates: Seq<IconPathView>) -> Seq<Seq<char>> {
    Seq::new(candidates.len(), |i: int| candidates[i].path)
}

/// The paths of the files that scanning the named theme tries.
pub open spec fn theme_paths(config: LookupConfigView, name: Seq<char>) -> Seq<Seq<char>> {
    match loaded(config.roots, name) {
        Some(theme) => candidate_paths(
            theme_candidates(theme, config.icon_name, config.size, config.scale),
        ),
        None => Seq::empty(),
    }
}

/// The paths of the files that scanning the named themes tries, theme
/// after theme.
pub open spec fn probe_paths(config: LookupConfigView, names: Seq<Seq<char>>) -> Seq<Seq<char>>
    decreases names.len(),
{
    if names.len() == 0 {
        Seq::empty()
    } else {
        theme_paths(config, names[0]) + probe_paths(config, names.drop_first())
    }
}

/// The paths of all files that a lookup may try, with or without the
/// fallback theme.
pub open spec fn wanted_paths(config: LookupConfigView) -> Seq<Seq<char>> {
    probe_paths(config, resolved_names(config.roots, start_theme(config), true))
}

/// Whether two tables of probed files say the same of each of the paths.
pub open spec fn agree_on(
    a: Seq<FileEntryView>,
    b: Seq<FileEntryView>,
    paths: Seq<Seq<char>>,
) -> bool {
    forall|i: int| 0 <= i < paths.len() ==> probed(a, #[trigger] paths[i]) == probed(b, paths[i])
}

/// The candidates from position `cursor` on.
pub open spec fn rest_of<T>(items: Seq<T>, cursor: int) -> Seq<T> {
    if 0 <= cursor <= items.len() {
        items.skip(cursor)
    } else {
        Seq::empty()
    }
}

/// The path of the first root that is no directory.
pub open spec fn first_invalid(roots: Seq<SearchRootView>) -> Option<Seq<char>>
    decreases roots.len(),
{
    if roots.len() == 0 {
        None
    } else if roots[0].themes is None {
        Some(roots[0].path)
    } else {
        first_invalid(roots.drop_first())
    }
}

/// The probed files of an optional list.
pub open spec fn files_view(files: Option<&Vec<FileEntry>>) -> Seq<FileEntryView> {
    match files {
        Some(list) => views(list@),
        None => Seq::empty(),
    }
}

/// Starts a lookup of the icon with the given base name. As it stands the
/// request has no search roots and no files, asks for any size and scale,
/// starts from the fallback theme and ends with it.
pub fn lookup_icon<'a>(icon_name: &str) -> (it: LookupIterator<'a>)
    ensures
        !it.started(),
        it.config() == (LookupConfigView {
            icon_name: icon_name@,
            size: None,
            scale: None,
            theme: None,
            system_theme: None,
            use_fallback: true,
            roots: Seq::empty(),
            files: Seq::empty(),
        }),
        it.remaining() == lookup_results(it.config()),
{
    let it = LookupIterator {
        icon_name: String::from_str(icon_name),
        size: None,
        scale: None,
        theme: None,
        system_theme: None,
        use_fallback: true,
        roots: Vec::new(),
        files: None,
        stage: Stage::Fresh,
        walker: ThemeWalk::over(),
        candidates: Vec::new(),
        cursor: 0,
    };
    proof {
        assert(views(it.roots@) =~= Seq::<SearchRootView>::empty());
    }
    it
}

impl<'a> LookupIterator<'a> {
    /// The request.
    pub closed spec fn config(&self) -> LookupConfigView {
        LookupConfigView {
            icon_name: self.icon_name@,
            size: self.size,
            scale: self.scale,
            theme: optional_view(self.theme),
            system_theme: optional_view(self.system_theme),
            use_fallback: self.use_fallback,
            roots: views(self.roots@),
            files: files_view(self.files),
        }
    }

    /// Whether an element has been asked for.
    pub closed spec fn started(&self) -> bool {
        !(self.stage is Fresh)
    }

    /// The elements that are yet to come.
    pub closed spec fn remaining(&self) -> Seq<FoundView> {
        match self.stage {
            Stage::Fresh => lookup_results(self.config()),
            Stage::Running => found_among(
                rest_of(views(self.candidates@), self.cursor as int),
                self.config().files,
            ) + scan_themes(self.config(), self.walker.remaining(self.config().roots)),
            Stage::Done => Seq::empty(),
        }
    }

    /// Asks for icons that suit the given size.
    ///
    /// Once an element has been asked for, the request is fixed and the
    /// call changes nothing.
    pub fn with_size(self, size: u16) -> (it: Self)
        ensures
            it.started() == self.started(),
            self.started() ==> it.config() == self.config() && it.remaining() == self.remaining(),
            !self.started() ==> it.config() == (LookupConfigView {
                size: Some(size),
                ..self.config()
            }) && it.remaining() == lookup_results(it.config()),
    {
        let mut it = self;
        if let Stage::Fresh = it.stage {
            it.size = Some(size);
        }
        it
    }

    /// Asks for icons drawn for the given user-interface scale.
    ///
    /// Once an element has been asked for, the request is fixed and the
    /// call changes nothing.
    pub fn with_scale(self, scale: u16) -> (it: Self)
        ensures
            it.started() == self.started(),
            self.started() ==> it.config() == self.config() && it.remaining() == self.remaining(),
            !self.started() ==> it.config() == (LookupConfigView {
                scale: Some(scale),
                ..self.config()
            }) && it.remaining() == lookup_results(it.config()),
    {
        let mut it = self;
        if let Stage::Fresh = it.stage {
            it.scale = Some(scale);
        }
        it
    }

    /// Starts the search at the given theme instead of the user's theme.
    ///
    /// Once an element has been asked for, the request is fixed and the
    /// call changes nothing.
    pub fn from_theme(self, theme_name: &str) -> (it: Self)
        ensures
            it.started() == self.started(),
            self.started() ==> it.config() == self.config() && it.remaining() == self.remaining(),
            !self.started() ==> it.config() == (LookupConfigView {
                theme: Some(theme_name@),
                ..self.config()
            }) && it.remaining() == lookup_results(it.config()),
    {
        let mut it = self;
        if let Stage::Fresh = it.stage {
            it.theme = Some(String::from_str(theme_name));
        }
        it
    }

    /// Tells the lookup the user's theme, at which the search starts
    /// unless a theme is chosen; `None` where the theme is not known.
    ///
    /// Once an element has been asked for, the request is fixed and the
    /// call changes nothing.
    pub fn with_system_theme(self, theme_name: Option<String>) -> (it: Self)
        ensures
            it.started() == self.started(),
            self.started() ==> it.config() == self.config() && it.remaining() == self.remaining(),
            !self.started() ==> it.config() == (LookupConfigView {
                system_theme: optional_view(theme_name),
                ..self.config()
            }) && it.remaining() == lookup_results(it.config()),
    {
        let mut it = self;
        if let Stage::Fresh = it.stage {
            it.system_theme = theme_name;
        }
        it
    }

    /// Chooses whether the fallback theme ends the search. Without it only
    /// the starting theme and what it inherits from are searched.
    ///
    /// Once an element has been asked for, the request is fixed and the
    /// call changes nothing.
    pub fn use_fallback_themes(self, use_fallback: bool) -> (it: Self)
        ensures
            it.started() == self.started(),
            self.started() ==> it.config() == self.config() && it.remaining() == self.remaining(),
            !self.started() ==> it.config() == (LookupConfigView {
                use_fallback,
                ..self.config()
            }) && it.remaining() == lookup_results(it.config()),
    {
        let mut it = self;
        if let Stage::Fresh = it.stage {
            it.use_fallback = use_fallback;
        }
        it
    }

    /// Gives the lookup the probed files.
    ///
    /// Once an element has been asked for, the request is fixed and the
    /// call changes nothing.
    pub fn with_files(self, files: &'a Vec<FileEntry>) -> (it: Self)
        ensures
            it.started() == self.started(),
            self.started() ==> it.config() == self.config() && it.remaining() == self.remaining(),
            !self.started() ==> it.config() == (LookupConfigView {
                files: views(files@),
                ..self.config()
            }) && it.remaining() == lookup_results(it.config()),
    {
        let mut it = self;
        if let Stage::Fresh = it.stage {
            it.files = Some(files);
        }
        it
    }

    /// Adds the standard search roots, which are searched after the roots
    /// that the request has so far. A root that is no directory holds no
    /// theme and does no harm.
    ///
    /// Once an element has been asked for, the request is fixed and the
    /// call changes nothing.
    pub fn with_default_paths(self, roots: &'a Vec<SearchRoot>) -> (it: Self)
        ensures
            it.started() == self.started(),
            self.started() ==> it.config() == self.config() && it.remaining() == self.remaining(),
            !self.started() ==> it.config() == (LookupConfigView {
                roots: self.config().roots + views(roots@),
                ..self.config()
            }) && it.remaining() == lookup_results(it.config()),
    {
        let mut it = self;
        if let Stage::Fresh = it.stage {
            let ghost before = views(it.roots@);
            let mut i: usize = 0;
            proof {
                assert(before + views(roots@).take(0) =~= before);
            }
            while i < roots.len()
                invariant
                    i <= roots@.len(),
                    it.stage is Fresh,
                    views(it.roots@) == before + views(roots@).take(i as int),
                    it.icon_name == self.icon_name,
                    it.size == self.size,
                    it.scale == self.scale,
                    it.theme == self.theme,
                    it.system_theme == self.system_theme,
                    it.use_fallback == self.use_fallback,
                    it.files == self.files,
                decreases roots@.len() - i,
            {
                proof {
                    lemma_views_push(it.roots@, &roots@[i as int]);
                    assert((before + views(roots@).take(i as int)).push(roots@[i as int]@)
                        =~= before + views(roots@).take(i + 1));
                }
                it.roots.push(&roots[i]);
                i += 1;
            }
            proof {
                assert(views(roots@).take(i as int) =~= views(roots@));
            }
        }
        it
    }

    /// Adds extra search roots, which are searched before the roots that
    /// the request has so far.
    ///
    /// Fails with `InvalidSearchPath` if and only if one of the given roots
    /// is no directory; the error names the first such root. Once an
    /// element has been asked for, the request is fixed and a call that
    /// does not fail changes nothing.
    pub fn with_search_paths(self, extra_roots: &'a Vec<SearchRoot>) -> (r: Result<
        Self,
        LookupError,
    >)
        ensures
            match first_invalid(views(extra_roots@)) {
                Some(path) => r is Err && r->Err_0@ == LookupErrorView::InvalidSearchPath(path),
                None => {
                    &&& r is Ok
                    &&& r->Ok_0.started() == self.started()
                    &&& self.started() ==> r->Ok_0.config() == self.config()
                        && r->Ok_0.remaining() == self.remaining()
                    &&& !self.started() ==> r->Ok_0.config() == (LookupConfigView {
                        roots: views(extra_roots@) + self.config().roots,
                        ..self.config()
                    }) && r->Ok_0.remaining() == lookup_results(r->Ok_0.config())
                },
            },
    {
        let ghost extra = views(extra_roots@);
        let mut roots: Vec<&'a SearchRoot> = Vec::new();
        let mut i: usize = 0;
        proof {
            assert(extra.skip(0) =~= extra);
            assert(views(roots@) =~= extra.take(0));
        }
        while i < extra_roots.len()
            invariant
                i <= extra_roots@.len(),
                extra == views(extra_roots@),
                first_invalid(extra) == first_invalid(extra.skip(i as int)),
                views(roots@) == extra.take(i as int),
            decreases extra_roots@.len() - i,
        {
            proof {
                assert(extra.skip(i as int).drop_first() =~= extra.skip(i + 1));
                assert(extra.skip(i as int)[0] == extra_roots@[i as int]@);
                lemma_views_push(roots@, &extra_roots@[i as int]);
                assert(extra.take(i as int).push(extra[i as int]) =~= extra.take(i + 1));
            }
            if extra_roots[i].themes.is_none() {
                return Err(LookupError::InvalidSearchPath(extra_roots[i].path.clone()));
            }
            roots.push(&extra_roots[i]);
            i += 1;
        }
        proof {
            assert(extra.take(i as int) =~= extra);
        }
        let mut it = self;
        if let Stage::Fresh = it.stage {
            let ghost old_roots = views(it.roots@);
            let mut k: usize = 0;
            proof {
                assert(extra + old_roots.take(0) =~= extra);
            }
            while k < it.roots.len()
                invariant
                    k <= it.roots@.len(),
                    it == self,
                    old_roots == views(it.roots@),
                    views(roots@) == extra + old_roots.take(k as int),
                decreases it.roots@.len() - k,
            {
                proof {
                    lemma_views_push(roots@, it.roots@[k as int]);
                    assert((extra + old_roots.take(k as int)).push(old_roots[k as int]) =~= extra
                        + old_roots.take(k + 1));
                }
                roots.push(it.roots[k]);
                k += 1;
            }
            proof {
                assert(old_roots.take(k as int) =~= old_roots);
            }
            it.roots = roots;
        }
        Ok(it)
    }

    /// The name of the theme at which the search starts.
    fn start_name(&self) -> (name: String)
        ensures
            name@ == start_theme(self.config()),
    {
        match &self.theme {
            Some(name) => name.clone(),
            None => match &self.system_theme {
                Some(name) => name.clone(),
                None => String::from_str(FALLBACK_THEME),
            },
        }
    }

    /// What probing the file of a candidate gives.
    fn probe(&self, path: &str) -> (outcome: Probe)
        ensures
            outcome@ == probed(self.config().files, path@),
    {
        match self.files {
            Some(files) => probe_file(files, path),
            None => Probe::Missing,
        }
    }

    /// Produces the next element, or `None` when the sequence has ended.
    /// Only the work that this element takes is done: themes further down
    /// the resolved order are not loaded and their files are not tried.
    ///
    /// Where no search root holds the starting theme, the only element is
    /// the error that says so.
    pub fn next(&mut self) -> (r: Option<Found>)
        ensures
            final(self).config() == old(self).config(),
            final(self).started(),
            match r {
                Some(item) => {
                    &&& old(self).remaining().len() > 0
                    &&& found_view(item) == old(self).remaining()[0]
                    &&& final(self).remaining() == old(self).remaining().drop_first()
                },
                None => old(self).remaining().len() == 0 && final(self).remaining().len() == 0,
            },
    {
        let ghost config = self.config();
        let ghost before = self.remaining();
        if let Stage::Done = self.stage {
            return None;
        }
        if let Stage::Fresh = self.stage {
            let start = self.start_name();
            if !is_installed(start.as_str(), &self.roots) {
                self.stage = Stage::Done;
                proof {
                    assert(before.drop_first() =~= Seq::<FoundView>::empty());
                }
                return Some(Err(LookupError::ThemeNotFound(start)));
            }
            self.walker = ThemeWalk::new(start.as_str(), self.use_fallback);
            self.candidates = Vec::new();
            self.cursor = 0;
            self.stage = Stage::Running;
            proof {
                assert(rest_of(views(self.candidates@), 0) =~= Seq::<IconPathView>::empty());
                assert(self.remaining() =~= before);
            }
        }
        loop
            invariant
                self.stage is Running,
                self.config() == config,
                config == old(self).config(),
                before == old(self).remaining(),
                self.remaining() == before,
            decreases
                    self.walker.remaining(config.roots).len(),
                    rest_of(views(self.candidates@), self.cursor as int).len(),
        {
            if self.cursor < self.candidates.len() {
                let ghost tried = views(self.candidates@);
                let ghost at = self.cursor as int;
                proof {
                    assert(tried.skip(at).drop_first() =~= tried.skip(at + 1));
                    assert(tried.skip(at)[0] == self.candidates@[at]@);
                }
                let outcome = self.probe(self.candidates[self.cursor].path.as_str());
                let item = check(&self.candidates[self.cursor], outcome);
                self.cursor = self.cursor + 1;
                match item {
                    Some(found) => {
                        proof {
                            let later = found_among(tried.skip(at + 1), config.files)
                                + scan_themes(config, self.walker.remaining(config.roots));
                            assert(before =~= seq![found_view(found)] + later);
                            assert(before.drop_first() =~= later);
                        }
                        return Some(found);
                    },
                    None => {},
                }
            } else {
                let ghost names = self.walker.remaining(config.roots);
                proof {
                    assert(rest_of(views(self.candidates@), self.cursor as int) =~= Seq::<
                        IconPathView,
                    >::empty());
                }
                match self.walker.next(&self.roots) {
                    Some(theme) => {
                        self.candidates = candidates(
                            &theme,
                            self.icon_name.as_str(),
                            self.size,
                            self.scale,
                        );
                        self.cursor = 0;
                        proof {
                            assert(views(self.candidates@).skip(0) =~= views(self.candidates@));
                            assert(before =~= scan_themes(config, names));
                        }
                    },
                    None => {
                        self.stage = Stage::Done;
                        proof {
                            assert(before =~= scan_themes(config, names));
                        }
                        return None;
                    },
                }
            }
        }
    }

    /// Gathers every element that is yet to come, in order.
    pub fn collect_all(self) -> (out: Vec<Found>)
        ensures
            found_views(out@) == self.remaining(),
    {
        let mut it = self;
        let ghost all = it.remaining();
        let mut out: Vec<Found> = Vec::new();
        proof {
            assert(found_views(out@) + all =~= all);
        }
        loop
            invariant_except_break
                found_views(out@) + it.remaining() == all,
            ensures
                found_views(out@) == all,
            decreases it.remaining().len(),
        {
            let ghost before = found_views(out@);
            let ghost rest = it.remaining();
            match it.next() {
                Some(item) => {
                    out.push(item);
                    proof {
                        assert(found_views(out@) =~= before.push(found_view(item)));
                        assert(before.push(rest[0]) + rest.drop_first() =~= before + rest);
                    }
                },
                None => {
                    proof {
                        assert(before + rest =~= before);
                    }
                    break ;
                },
            }
        }
        out
    }

    /// Lists the paths of the files that the lookup may try, in the order
    /// in which it tries them, whether or not the fallback theme is
    /// searched. Probing these files is all that a lookup needs of the
    /// file system once the search roots are read.
    pub fn files_to_probe(&self) -> (paths: Vec<String>)
        ensures
            views(paths@) == wanted_paths(self.config()),
    {
        let ghost config = self.config();
        let start = self.start_name();
        let order = resolve_order(start.as_str(), &self.roots, true);
        let ghost names = theme_names(views(order@));
        let mut paths: Vec<String> = Vec::new();
        let mut i: usize = 0;
        proof {
            assert(names.skip(0) =~= names);
            assert(views(paths@) + probe_paths(config, names) =~= probe_paths(config, names));
        }
        while i < order.len()
            invariant
                i <= order@.len(),
                config == self.config(),
                names == theme_names(views(order@)),
                forall|j: int|
                    0 <= j < order@.len() ==> Some(#[trigger] order@[j]@) == loaded(
                        config.roots,
                        order@[j]@.name,
                    ),
                views(paths@) + probe_paths(config, names.skip(i as int)) == probe_paths(
                    config,
                    names,
                ),
            decreases order@.len() - i,
        {
            let tried = candidates(&order[i], self.icon_name.as_str(), self.size, self.scale);
            let ghost before = views(paths@);
            let ghost added = candidate_paths(views(tried@));
            proof {
                assert(names.skip(i as int).drop_first() =~= names.skip(i + 1));
                assert(names.skip(i as int)[0] == order@[i as int]@.name);
                assert(theme_paths(config, names[i as int]) == added);
                assert(before + added.take(0) =~= before);
            }
            let mut k: usize = 0;
            while k < tried.len()
                invariant
                    k <= tried@.len(),
                    added == candidate_paths(views(tried@)),
                    views(paths@) == before + added.take(k as int),
                decreases tried@.len() - k,
            {
                proof {
                    lemma_views_push(paths@, tried@[k as int].path);
                    assert((before + added.take(k as int)).push(added[k as int]) =~= before
                        + added.take(k + 1));
                }
                paths.push(tried[k].path.clone());
                k += 1;
            }
            proof {
                assert(added.take(k as int) =~= added);
                assert((before + added) + probe_paths(config, names.skip(i + 1)) =~= before + (
                added + probe_paths(config, names.skip(i + 1))));
            }
            i += 1;
        }
        proof {
            assert(views(paths@) + probe_paths(config, names.skip(i as int)) =~= views(paths@));
        }
        paths
    }

    /// Produces the first element that is yet to come and gives up the
    /// rest: the first icon found, or the first error met before any icon.
    /// Where nothing is left, the error is `IconNotFound` with the icon's
    /// name.
    pub fn first_match(self) -> (r: Result<IconPath, LookupError>)
        ensures
            found_view(r) == if self.remaining().len() > 0 {
                self.remaining()[0]
            } else {
                Err(LookupErrorView::IconNotFound(self.config().icon_name))
            },
    {
        let mut it = self;
        match it.next() {
            Some(item) => item,
            None => Err(LookupError::IconNotFound(it.icon_name.clone())),
        }
    }
}

/// Two lookups with the same request that have not begun yield the same
/// sequence.
pub proof fn lemma_same_request_same_results(a: LookupIterator<'_>, b: LookupIterator<'_>)
    requires
        !a.started(),
        !b.started(),
        a.config() == b.config(),
    ensures
        a.remaining() == b.remaining(),
        a.remaining() == lookup_results(a.config()),
{
}

/// A lookup without the fallback yields icons of the starting theme and
/// of the themes it inherits from only: the themes searched are exactly
/// the inheritance chain.
pub proof fn lemma_lookup_without_fallback(config: LookupConfigView)
    requires
        !config.use_fallback,
        installed(config.roots, start_theme(config)),
    ensures
        lookup_results(config) == scan_themes(
            config,
            walk(config.roots, seq![start_theme(config)], Seq::empty()),
        ),
{
}

/// What the candidates contribute depends on the probes of their own
/// paths only.
pub proof fn lemma_found_among_agree(
    candidates: Seq<IconPathView>,
    a: Seq<FileEntryView>,
    b: Seq<FileEntryView>,
)
    requires
        agree_on(a, b, candidate_paths(candidates)),
    ensures
        found_among(candidates, a) == found_among(candidates, b),
    decreases candidates.len(),
{
    if candidates.len() > 0 {
        let paths = candidate_paths(candidates);
        let rest = candidates.drop_first();
        assert(paths[0] == candidates[0].path);
        assert forall|i: int| 0 <= i < candidate_paths(rest).len() implies probed(
            a,
            #[trigger] candidate_paths(rest)[i],
        ) == probed(b, candidate_paths(rest)[i]) by {
            assert(candidate_paths(rest)[i] == paths[i + 1]);
        }
        lemma_found_among_agree(rest, a, b);
    }
}

/// What scanning the named themes gives depends on the probes of the
/// paths that the scans try only.
pub proof fn lemma_scan_themes_agree(
    a: LookupConfigView,
    b: LookupConfigView,
    names: Seq<Seq<char>>,
)
    requires
        b == (LookupConfigView { files: b.files, ..a }),
        agree_on(a.files, b.files, probe_paths(a, names)),
    ensures
        scan_themes(a, names) == scan_themes(b, names),
    decreases names.len(),
{
    if names.len() > 0 {
        let here = theme_paths(a, names[0]);
        let later = probe_paths(a, names.drop_first());
        let all = probe_paths(a, names);
        assert forall|i: int| 0 <= i < later.len() implies probed(a.files, #[trigger] later[i])
            == probed(b.files, later[i]) by {
            assert(all[here.len() + i] == later[i]);
        }
        lemma_scan_themes_agree(a, b, names.drop_first());
        match loaded(a.roots, names[0]) {
            Some(theme) => {
                let tried = theme_candidates(theme, a.icon_name, a.size, a.scale);
                assert forall|i: int| 0 <= i < candidate_paths(tried).len() implies probed(
                    a.files,
                    #[trigger] candidate_paths(tried)[i],
                ) == probed(b.files, candidate_paths(tried)[i]) by {
                    assert(all[i] == here[i]);
                }
                lemma_found_among_agree(tried, a.files, b.files);
            },
            None => {},
        }
    }
}

/// The paths tried for the names with one more name behind them.
proof fn lemma_probe_paths_push(config: LookupConfigView, names: Seq<Seq<char>>, last: Seq<char>)
    ensures
        probe_paths(config, names.push(last)) == probe_paths(config, names) + theme_paths(
            config,
            last,
        ),
    decreases names.len(),
{
    if names.len() == 0 {
        assert(names.push(last).drop_first() =~= names);
        assert(probe_paths(config, names.push(last)) =~= probe_paths(config, names)
            + theme_paths(config, last));
    } else {
        assert(names.push(last).drop_first() =~= names.drop_first().push(last));
        lemma_probe_paths_push(config, names.drop_first(), last);
        assert(probe_paths(config, names.push(last)) =~= probe_paths(config, names)
            + theme_paths(config, last));
    }
}

/// The result of a lookup depends on the files only through the probes of
/// the wanted paths: two tables of files that agree on them give the same
/// result, with the fallback theme and without it.
pub proof fn lemma_results_need_wanted_files(a: LookupConfigView, b: LookupConfigView)
    requires
        b == (LookupConfigView { files: b.files, ..a }),
        agree_on(a.files, b.files, wanted_paths(a)),
    ensures
        lookup_results(a) == lookup_results(b),
{
    let start = start_theme(a);
    if installed(a.roots, start) {
        let names = resolved_names(a.roots, start, a.use_fallback);
        let wide = resolved_names(a.roots, start, true);
        if names != wide {
            let chain = walk(a.roots, seq![start], Seq::empty());
            assert(wide == chain.push(FALLBACK_THEME@));
            lemma_probe_paths_push(a, chain, FALLBACK_THEME@);
            let narrow = probe_paths(a, chain);
            assert forall|i: int| 0 <= i < narrow.len() implies probed(
                a.files,
                #[trigger] narrow[i],
            ) == probed(b.files, narrow[i]) by {
                assert(wanted_paths(a)[i] == narrow[i]);
            }
        }
        lemma_scan_themes_agree(a, b, names);
    }
}

/// The paths that a lookup tries depend on the search roots, the icon's
/// name and the requested size and scale only.
pub proof fn lemma_probe_paths_same(
    a: LookupConfigView,
    b: LookupConfigView,
    names: Seq<Seq<char>>,
)
    requires
        a.roots == b.roots,
        a.icon_name == b.icon_name,
        a.size == b.size,
        a.scale == b.scale,
    ensures
        probe_paths(a, names) == probe_paths(b, names),
    decreases names.len(),
{
    if names.len() > 0 {
        lemma_probe_paths_same(a, b, names.drop_first());
    }
}

/// Whether an element is an icon of one of the named themes with a
/// minimum size that does not exceed its maximum size, or an error of
/// reading a file.
pub open spec fn sound_result(item: FoundView, names: Seq<Seq<char>>) -> bool {
    match item {
        Ok(icon) => names.contains(icon.theme) && icon.min_size <= icon.max_size,
        Err(error) => error is IoError,
    }
}

/// Scanning themes yields icons of those themes only, each with a
/// minimum size that does not exceed its maximum size, and no error but
/// those of reading a file.
pub proof fn lemma_scan_themes_sound(
    config: LookupConfigView,
    names: Seq<Seq<char>>,
    all: Seq<Seq<char>>,
)
    requires
        forall|k: int| 0 <= k < names.len() ==> all.contains(#[trigger] names[k]),
    ensures
        forall|i: int|
            0 <= i < scan_themes(config, names).len() ==> sound_result(
                #[trigger] scan_themes(config, names)[i],
                all,
            ),
    decreases names.len(),
{
    if names.len() > 0 {
        let rest = names.drop_first();
        assert forall|k: int| 0 <= k < rest.len() implies all.contains(#[trigger] rest[k]) by {
            assert(rest[k] == names[k + 1]);
        }
        lemma_scan_themes_sound(config, rest, all);
        assert(all.contains(names[0]));
        let later = scan_themes(config, rest);
        match loaded(config.roots, names[0]) {
            Some(theme) => {
                lemma_described_count(
                    names[0],
                    holders(config.roots, names[0]),
                    description(config.roots, names[0]),
                );
                lemma_candidates_sound(
                    theme,
                    theme.subdirs,
                    config.icon_name,
                    config.size,
                    config.scale,
                );
                let tried = theme_candidates(theme, config.icon_name, config.size, config.scale);
                lemma_found_among_sound(tried, config.files, theme.name);
                let here = found_among(tried, config.files);
                assert forall|i: int| 0 <= i < (here + later).len() implies sound_result(
                    #[trigger] (here + later)[i],
                    all,
                ) by {
                    if i < here.len() {
                        assert(sound_item(here[i], theme.name));
                    } else {
                        assert((here + later)[i] == later[i - here.len()]);
                    }
                }
            },
            None => {
                assert(Seq::<FoundView>::empty() + later =~= later);
            },
        }
    }
}

/// What a lookup yields, whatever the files: where the starting theme is
/// installed, icons of themes of the resolved order only, each with a
/// minimum size that does not exceed its maximum size, and errors of
/// reading a file; where it is not installed, the one error that says so.
pub proof fn lemma_results_sound(config: LookupConfigView)
    ensures
        installed(config.roots, start_theme(config)) ==> forall|i: int|
            0 <= i < lookup_results(config).len() ==> sound_result(
                #[trigger] lookup_results(config)[i],
                resolved_names(config.roots, start_theme(config), config.use_fallback),
            ),
        !installed(config.roots, start_theme(config)) ==> lookup_results(config) == seq![
            Err::<IconPathView, LookupErrorView>(
                LookupErrorView::ThemeNotFound(start_theme(config)),
            ),
        ],
{
    let names = resolved_names(config.roots, start_theme(config), config.use_fallback);
    lemma_scan_themes_sound(config, names, names);
}

} // verus!
