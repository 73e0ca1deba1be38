//! The order in which themes are searched: a theme, then what it inherits
//! from, depth first, no theme twice, and the fallback theme at the end.

use vstd::prelude::*;
use crate::model::{lemma_push_contains, lemma_views_push, views};
use crate::roots::{
    dir_named, holds, installed, listing, load, loaded, SearchRoot, SearchRootView, ThemeDirView,
};
use crate::text::has_name;
use crate::theme::{Theme, ThemeView};

verus! {

/// The theme that every search may end with.
pub const FALLBACK_THEME: &'static str = "hicolor";

/// The names of the given theme directories.
pub open spec fn names_in(dirs: Seq<ThemeDirView>) -> Seq<Seq<char>> {
    Seq::new(dirs.len(), |i: int| dirs[i].name)
}

/// The names of all theme directories in all roots, root by root.
pub open spec fn known_names(roots: Seq<SearchRootView>) -> Seq<Seq<char>>
    decreases roots.len(),
{
    if roots.len() == 0 {
        Seq::empty()
    } else {
        names_in(listing(roots[0])) + known_names(roots.drop_first())
    }
}

/// How many of `names` are not among `visited`.
pub open spec fn unvisited(names: Seq<Seq<char>>, visited: Seq<Seq<char>>) -> nat
    decreases names.len(),
{
    if names.len() == 0 {
        0
    } else {
        unvisited(names.drop_last(), visited) + if visited.contains(names.last()) {
            0nat
        } else {
            1nat
        }
    }
}

/// The names that the theme of the given name inherits from; none where
/// the theme is not installed or declares none.
pub open spec fn inherited(roots: Seq<SearchRootView>, name: Seq<char>) -> Seq<Seq<char>> {
    match loaded(roots, name) {
        Some(theme) => match theme.inherits {
            Some(names) => names,
            None => Seq::empty(),
        },
        None => Seq::empty(),
    }
}

/// The themes reached from the pending names, depth first: the first
/// pending name, then what it inherits from, then the other pending names.
/// A name already visited is passed over, and so is a name that no root
/// holds.
pub open spec fn walk(
    roots: Seq<SearchRootView>,
    pending: Seq<Seq<char>>,
    visited: Seq<Seq<char>>,
) -> Seq<Seq<char>>
    decreases unvisited(known_names(roots), visited), pending.len(),
{
    if pending.len() == 0 {
        Seq::empty()
    } else {
        let name = pending[0];
        let others = pending.drop_first();
        if visited.contains(name) || !installed(roots, name) {
            walk(roots, others, visited)
        } else {
            proof {
                lemma_installed_known(roots, name);
                lemma_unvisited_decreases(known_names(roots), visited, name);
            }
            seq![name] + walk(roots, inherited(roots, name) + others, visited.push(name))
        }
    }
}

/// The names still to come after a walk has visited `visited` and has
/// `pending` left: the rest of the walk, and then the fallback theme if it
/// is wanted, installed, and neither visited before nor met on the rest of
/// the walk.
pub open spec fn rest_names(
    roots: Seq<SearchRootView>,
    pending: Seq<Seq<char>>,
    visited: Seq<Seq<char>>,
    fallback: bool,
) -> Seq<Seq<char>> {
    let chain = walk(roots, pending, visited);
    if fallback && !visited.contains(FALLBACK_THEME@) && !chain.contains(FALLBACK_THEME@)
        && installed(roots, FALLBACK_THEME@) {
        chain.push(FALLBACK_THEME@)
    } else {
        chain
    }
}

/// The names of the themes to search for a lookup that starts at the theme
/// `root`, in order.
pub open spec fn resolved_names(
    roots: Seq<SearchRootView>,
    root: Seq<char>,
    use_fallback: bool,
) -> Seq<Seq<char>> {
    rest_names(roots, seq![root], Seq::empty(), use_fallback)
}

/// The names of a sequence of themes.
pub open spec fn theme_names(themes: Seq<ThemeView>) -> Seq<Seq<char>> {
    Seq::new(themes.len(), |i: int| themes[i].name)
}

/// The names on a stack of strings, the top of the stack first. The top
/// is the last element of the vector.
pub open spec fn stack(v: Seq<String>) -> Seq<Seq<char>> {
    Seq::new(v.len(), |i: int| v[v.len() - 1 - i]@)
}

/// The name of a directory that is found is among the names listed.
proof fn lemma_dir_known(dirs: Seq<ThemeDirView>, name: Seq<char>)
    requires
        dir_named(dirs, name) is Some,
    ensures
        names_in(dirs).contains(name),
    decreases dirs.len(),
{
    if dirs[0].name == name {
        assert(names_in(dirs)[0] == name);
    } else {
        lemma_dir_known(dirs.drop_first(), name);
        let rest = names_in(dirs.drop_first());
        let i = choose|i: int| 0 <= i < rest.len() && rest[i] == name;
        assert(names_in(dirs)[i + 1] == name);
    }
}

/// The name of an installed theme is among the known names.
pub proof fn lemma_installed_known(roots: Seq<SearchRootView>, name: Seq<char>)
    requires
        installed(roots, name),
    ensures
        known_names(roots).contains(name),
    decreases roots.len(),
{
    let here = names_in(listing(roots[0]));
    let rest = known_names(roots.drop_first());
    if holds(roots[0], name) {
        lemma_dir_known(listing(roots[0]), name);
        let i = choose|i: int| 0 <= i < here.len() && here[i] == name;
        assert((here + rest)[i] == name);
    } else {
        lemma_installed_known(roots.drop_first(), name);
        let i = choose|i: int| 0 <= i < rest.len() && rest[i] == name;
        assert((here + rest)[here.len() + i] == name);
    }
}

/// Visiting a name leaves no more names unvisited than before.
proof fn lemma_unvisited_shrinks(names: Seq<Seq<char>>, visited: Seq<Seq<char>>, name: Seq<char>)
    ensures
        unvisited(names, visited.push(name)) <= unvisited(names, visited),
    decreases names.len(),
{
    if names.len() > 0 {
        lemma_unvisited_shrinks(names.drop_last(), visited, name);
        lemma_push_contains(visited, name, names.last());
    }
}

/// Visiting a known name that was not visited before leaves fewer names
/// unvisited.
pub proof fn lemma_unvisited_decreases(
    names: Seq<Seq<char>>,
    visited: Seq<Seq<char>>,
    name: Seq<char>,
)
    requires
        names.contains(name),
        !visited.contains(name),
    ensures
        unvisited(names, visited.push(name)) < unvisited(names, visited),
    decreases names.len(),
{
    let front = names.drop_last();
    lemma_push_contains(visited, name, names.last());
    if names.last() == name {
        lemma_unvisited_shrinks(front, visited, name);
    } else {
        let i = choose|i: int| 0 <= i < names.len() && names[i] == name;
        assert(front[i] == name);
        lemma_unvisited_decreases(front, visited, name);
    }
}

/// A walk yields installed themes that were not visited before, each once.
pub proof fn lemma_walk_fresh(
    roots: Seq<SearchRootView>,
    pending: Seq<Seq<char>>,
    visited: Seq<Seq<char>>,
)
    ensures
        walk(roots, pending, visited).no_duplicates(),
        forall|i: int|
            0 <= i < walk(roots, pending, visited).len() ==> !visited.contains(
                #[trigger] walk(roots, pending, visited)[i],
            ) && installed(roots, walk(roots, pending, visited)[i]),
    decreases unvisited(known_names(roots), visited), pending.len(),
{
    if pending.len() > 0 {
        let name = pending[0];
        let others = pending.drop_first();
        if visited.contains(name) || !installed(roots, name) {
            lemma_walk_fresh(roots, others, visited);
        } else {
            lemma_installed_known(roots, name);
            lemma_unvisited_decreases(known_names(roots), visited, name);
            let next = inherited(roots, name) + others;
            let tail = walk(roots, next, visited.push(name));
            lemma_walk_fresh(roots, next, visited.push(name));
            let all = seq![name] + tail;
            assert forall|i: int| 0 <= i < all.len() implies !visited.contains(#[trigger] all[i])
                && installed(roots, all[i]) by {
                if i > 0 {
                    assert(all[i] == tail[i - 1]);
                    lemma_push_contains(visited, name, tail[i - 1]);
                }
            }
            assert forall|i: int, j: int| 0 <= i < all.len() && 0 <= j < all.len() && i != j
                implies all[i] != all[j] by {
                if i > 0 {
                    assert(all[i] == tail[i - 1]);
                    lemma_push_contains(visited, name, tail[i - 1]);
                }
                if j > 0 {
                    assert(all[j] == tail[j - 1]);
                    lemma_push_contains(visited, name, tail[j - 1]);
                }
            }
        }
    }
}

/// Whether the theme at position `i` of `chain` is inherited by a theme
/// that stands before it.
pub open spec fn inherited_before(roots: Seq<SearchRootView>, chain: Seq<Seq<char>>, i: int) -> bool {
    exists|j: int| 0 <= j < i && #[trigger] inherited(roots, chain[j]).contains(chain[i])
}

/// Every theme of a walk is one of the pending names or is inherited by a
/// theme that the walk yields before it.
pub proof fn lemma_walk_inherited(
    roots: Seq<SearchRootView>,
    pending: Seq<Seq<char>>,
    visited: Seq<Seq<char>>,
)
    ensures
        forall|i: int|
            0 <= i < walk(roots, pending, visited).len() ==> pending.contains(
                walk(roots, pending, visited)[i],
            ) || #[trigger] inherited_before(roots, walk(roots, pending, visited), i),
    decreases unvisited(known_names(roots), visited), pending.len(),
{
    if pending.len() > 0 {
        let name = pending[0];
        let others = pending.drop_first();
        let chain = walk(roots, pending, visited);
        if visited.contains(name) || !installed(roots, name) {
            lemma_walk_inherited(roots, others, visited);
            assert(chain == walk(roots, others, visited));
            assert forall|i: int| 0 <= i < chain.len() implies pending.contains(chain[i])
                || #[trigger] inherited_before(roots, chain, i) by {
                if others.contains(chain[i]) {
                    let k = choose|k: int| 0 <= k < others.len() && others[k] == chain[i];
                    assert(pending[k + 1] == chain[i]);
                }
            }
        } else {
            lemma_installed_known(roots, name);
            lemma_unvisited_decreases(known_names(roots), visited, name);
            let next = inherited(roots, name) + others;
            let tail = walk(roots, next, visited.push(name));
            lemma_walk_inherited(roots, next, visited.push(name));
            assert(chain =~= seq![name] + tail);
            assert forall|i: int| 0 <= i < chain.len() implies pending.contains(chain[i])
                || #[trigger] inherited_before(roots, chain, i) by {
                if i == 0 {
                    assert(pending[0] == chain[0]);
                } else {
                    assert(chain[i] == tail[i - 1]);
                    if next.contains(tail[i - 1]) {
                        let k = choose|k: int| 0 <= k < next.len() && next[k] == tail[i - 1];
                        if k < inherited(roots, name).len() {
                            assert(inherited(roots, name)[k] == chain[i]);
                            assert(inherited(roots, chain[0]).contains(chain[i]));
                        } else {
                            assert(others[k - inherited(roots, name).len()] == chain[i]);
                            assert(pending[k - inherited(roots, name).len() + 1] == chain[i]);
                        }
                    } else {
                        assert(inherited_before(roots, tail, i - 1));
                        let j = choose|j: int|
                            0 <= j < i - 1 && #[trigger] inherited(roots, tail[j]).contains(
                                tail[i - 1],
                            );
                        assert(chain[j + 1] == tail[j]);
                        assert(inherited(roots, chain[j + 1]).contains(chain[i]));
                    }
                }
            }
        }
    }
}

/// No theme occurs twice in the resolved order, and every theme in it is
/// installed.
pub proof fn lemma_resolved_once(roots: Seq<SearchRootView>, root: Seq<char>, use_fallback: bool)
    ensures
        resolved_names(roots, root, use_fallback).no_duplicates(),
        forall|i: int|
            0 <= i < resolved_names(roots, root, use_fallback).len() ==> installed(
                roots,
                #[trigger] resolved_names(roots, root, use_fallback)[i],
            ),
{
    let chain = walk(roots, seq![root], Seq::empty());
    lemma_walk_fresh(roots, seq![root], Seq::empty());
    let all = resolved_names(roots, root, use_fallback);
    if all != chain {
        assert forall|i: int, j: int| 0 <= i < all.len() && 0 <= j < all.len() && i != j
            implies all[i] != all[j] by {
            if i < chain.len() {
                assert(chain[i] == all[i]);
            }
            if j < chain.len() {
                assert(chain[j] == all[j]);
            }
        }
    }
}

/// Without the fallback, the resolved order is the inheritance chain
/// alone: it begins with the starting theme if that is installed, and
/// every other theme in it, the fallback theme included, is inherited by a
/// theme that stands before it.
pub proof fn lemma_no_implicit_fallback(roots: Seq<SearchRootView>, root: Seq<char>)
    ensures
        resolved_names(roots, root, false) == walk(roots, seq![root], Seq::empty()),
        forall|i: int|
            0 <= i < resolved_names(roots, root, false).len() ==> resolved_names(
                roots,
                root,
                false,
            )[i] == root || #[trigger] inherited_before(
                roots,
                resolved_names(roots, root, false),
                i,
            ),
{
    lemma_walk_inherited(roots, seq![root], Seq::empty());
    let order = resolved_names(roots, root, false);
    assert forall|i: int| 0 <= i < order.len() implies order[i] == root
        || #[trigger] inherited_before(roots, order, i) by {
        if seq![root].contains(order[i]) {
            assert(order[i] == root);
        }
    }
}

/// With the fallback, an installed fallback theme is in the resolved order
/// exactly once: where inheritance reaches it, or else at the very end.
pub proof fn lemma_fallback_last(roots: Seq<SearchRootView>, root: Seq<char>)
    requires
        installed(roots, FALLBACK_THEME@),
    ensures
        resolved_names(roots, root, true).contains(FALLBACK_THEME@),
        !walk(roots, seq![root], Seq::empty()).contains(FALLBACK_THEME@) ==> resolved_names(
            roots,
            root,
            true,
        ).last() == FALLBACK_THEME@,
        walk(roots, seq![root], Seq::empty()).contains(FALLBACK_THEME@) ==> resolved_names(
            roots,
            root,
            true,
        ) == resolved_names(roots, root, false),
{
    let chain = walk(roots, seq![root], Seq::empty());
    let order = resolved_names(roots, root, true);
    if !chain.contains(FALLBACK_THEME@) {
        assert(order[order.len() - 1] == FALLBACK_THEME@);
    }
}

/// A walk through the themes to search, one theme at a time. A theme is
/// loaded only when the walk reaches it.
pub struct ThemeWalk {
    /// Names still to visit; the next one is the last.
    pending: Vec<String>,
    /// Names of the themes yielded so far.
    visited: Vec<String>,
    /// Whether the fallback theme is still to follow the chain.
    fallback: bool,
}

/// Puts `items` on the stack so that the first item comes off first.
fn push_reversed(pending: &mut Vec<String>, items: &Vec<String>)
    ensures
        stack(final(pending)@) == views(items@) + stack(old(pending)@),
{
    let mut k: usize = items.len();
    proof {
        assert(views(items@).skip(k as int) + stack(pending@) =~= stack(pending@));
    }
    while k > 0
        invariant
            k <= items@.len(),
            stack(pending@) == views(items@).skip(k as int) + stack(old(pending)@),
        decreases k,
    {
        let ghost before = pending@;
        k -= 1;
        pending.push(items[k].clone());
        proof {
            assert(stack(pending@) =~= seq![items@[k as int]@] + stack(before));
            assert(views(items@).skip(k as int) =~= seq![items@[k as int]@] + views(items@).skip(
                k + 1,
            ));
        }
    }
    proof {
        assert(views(items@).skip(0) =~= views(items@));
    }
}

impl ThemeWalk {
    /// The names still to visit, the next one first.
    pub closed spec fn pending_names(&self) -> Seq<Seq<char>> {
        stack(self.pending@)
    }

    /// The names of the themes yielded so far, in order.
    pub closed spec fn visited_names(&self) -> Seq<Seq<char>> {
        views(self.visited@)
    }

    /// Whether the fallback theme is still to follow the chain.
    pub closed spec fn wants_fallback(&self) -> bool {
        self.fallback
    }

    /// The names of the themes that the walk has yet to yield.
    pub open spec fn remaining(&self, roots: Seq<SearchRootView>) -> Seq<Seq<char>> {
        rest_names(roots, self.pending_names(), self.visited_names(), self.wants_fallback())
    }

    /// A walk that starts at the theme `root`.
    pub fn new(root: &str, use_fallback: bool) -> (w: ThemeWalk)
        ensures
            w.pending_names() == seq![root@],
            w.visited_names() == Seq::<Seq<char>>::empty(),
            w.wants_fallback() == use_fallback,
            forall|roots: Seq<SearchRootView>| #[trigger]
                w.remaining(roots) == resolved_names(roots, root@, use_fallback),
    {
        let mut pending: Vec<String> = Vec::new();
        pending.push(String::from_str(root));
        let w = ThemeWalk { pending, visited: Vec::new(), fallback: use_fallback };
        proof {
            assert(w.pending_names() =~= seq![root@]);
            assert(w.visited_names() =~= Seq::<Seq<char>>::empty());
        }
        w
    }

    /// A walk that is over.
    pub fn over() -> (w: ThemeWalk)
        ensures
            w.pending_names() == Seq::<Seq<char>>::empty(),
            w.visited_names() == Seq::<Seq<char>>::empty(),
            !w.wants_fallback(),
            forall|roots: Seq<SearchRootView>| (#[trigger] w.remaining(roots)).len() == 0,
    {
        let w = ThemeWalk { pending: Vec::new(), visited: Vec::new(), fallback: false };
        proof {
            assert(w.pending_names() =~= Seq::<Seq<char>>::empty());
            assert(w.visited_names() =~= Seq::<Seq<char>>::empty());
        }
        w
    }

    /// Yields the next theme to search, loading it from the roots, or
    /// `None` when the walk is over.
    pub fn next(&mut self, roots: &Vec<&SearchRoot>) -> (r: Option<Theme>)
        ensures
            match r {
                Some(theme) => {
                    &&& old(self).remaining(views(roots@)).len() > 0
                    &&& theme@.name == old(self).remaining(views(roots@))[0]
                    &&& Some(theme@) == loaded(views(roots@), theme@.name)
                    &&& theme.wf()
                    &&& final(self).remaining(views(roots@)) == old(self).remaining(
                        views(roots@),
                    ).drop_first()
                    &&& final(self).visited_names() == old(self).visited_names().push(theme@.name)
                },
                None => {
                    &&& old(self).remaining(views(roots@)).len() == 0
                    &&& final(self).remaining(views(roots@)).len() == 0
                    &&& final(self).visited_names() == old(self).visited_names()
                },
            },
    {
        let ghost model = views(roots@);
        let ghost before = self.remaining(model);
        while self.pending.len() > 0
            invariant
                model == views(roots@),
                self.remaining(model) == before,
                before == old(self).remaining(model),
                self.visited_names() == old(self).visited_names(),
            decreases self.pending@.len(),
        {
            let ghost pending = self.pending_names();
            let ghost visited = self.visited_names();
            let name = self.pending.pop().unwrap();
            proof {
                assert(pending[0] == name@);
                assert(self.pending_names() =~= pending.drop_first());
            }
            if !has_name(&self.visited, name.as_str()) {
                match load(name.as_str(), roots) {
                    Ok(theme) => {
                        let ghost others = self.pending_names();
                        match &theme.inherits {
                            Some(names) => {
                                push_reversed(&mut self.pending, names);
                            },
                            None => {
                                proof {
                                    assert(Seq::<Seq<char>>::empty() + others =~= others);
                                }
                            },
                        }
                        proof {
                            lemma_views_push(self.visited@, name);
                            assert(self.pending_names() == inherited(model, name@) + others);
                            let tail = walk(model, self.pending_names(), visited.push(name@));
                            let chain = walk(model, pending, visited);
                            assert(chain == seq![name@] + tail);
                            lemma_push_contains(visited, name@, FALLBACK_THEME@);
                            assert(chain[0] == name@);
                            assert(chain.contains(name@));
                            if tail.contains(FALLBACK_THEME@) {
                                let i = choose|i: int|
                                    0 <= i < tail.len() && tail[i] == FALLBACK_THEME@;
                                assert(chain[i + 1] == FALLBACK_THEME@);
                            }
                            if chain.contains(FALLBACK_THEME@) {
                                let i = choose|i: int|
                                    0 <= i < chain.len() && chain[i] == FALLBACK_THEME@;
                                if i > 0 {
                                    assert(tail[i - 1] == FALLBACK_THEME@);
                                }
                            }
                            assert(chain.push(FALLBACK_THEME@) =~= seq![name@] + tail.push(
                                FALLBACK_THEME@,
                            ));
                            assert((seq![name@] + tail).drop_first() =~= tail);
                            assert((seq![name@] + tail.push(FALLBACK_THEME@)).drop_first()
                                =~= tail.push(FALLBACK_THEME@));
                        }
                        let ghost next = self.pending_names();
                        self.visited.push(name);
                        proof {
                            let tail = walk(model, next, visited.push(name@));
                            assert(self.visited_names() == visited.push(name@));
                            assert(self.pending_names() == next);
                            assert(before == rest_names(model, pending, visited, self.fallback));
                            assert(self.remaining(model) == rest_names(
                                model,
                                next,
                                visited.push(name@),
                                self.fallback,
                            ));
                            assert(before =~= seq![name@] + self.remaining(model));
                            assert(before.drop_first() =~= self.remaining(model));
                            assert(before[0] == name@);
                            assert(theme@.name == name@);
                        }
                        return Some(theme);
                    },
                    Err(_) => {},
                }
            }
        }
        proof {
            assert(self.pending_names() =~= Seq::<Seq<char>>::empty());
        }
        if self.fallback {
            self.fallback = false;
            if !has_name(&self.visited, FALLBACK_THEME) {
                match load(FALLBACK_THEME, roots) {
                    Ok(theme) => {
                        let name = String::from_str(FALLBACK_THEME);
                        proof {
                            lemma_views_push(self.visited@, name);
                            assert(before =~= seq![FALLBACK_THEME@]);
                            assert(before.drop_first() =~= Seq::<Seq<char>>::empty());
                        }
                        self.visited.push(name);
                        return Some(theme);
                    },
                    Err(_) => {},
                }
            }
        }
        None
    }
}

/// The themes to search for a lookup that starts at `root_theme_name`, in
/// order: the theme itself, then what it inherits from, depth first and in
/// the order of its declaration. A theme already met is not visited again,
/// so cycles of inheritance end, and a name that no root holds is passed
/// over. With `use_fallback` the fallback theme follows at the end, unless
/// the walk has met it or no root holds it.
pub fn resolve_order(root_theme_name: &str, search_roots: &Vec<&SearchRoot>, use_fallback: bool) -> (order:
    Vec<Theme>)
    ensures
        theme_names(views(order@)) == resolved_names(
            views(search_roots@),
            root_theme_name@,
            use_fallback,
        ),
        theme_names(views(order@)).no_duplicates(),
        forall|i: int|
            0 <= i < order@.len() ==> Some(#[trigger] order@[i]@) == loaded(
                views(search_roots@),
                order@[i]@.name,
            ),
        forall|i: int| 0 <= i < order@.len() ==> (#[trigger] order@[i]).wf(),
        !use_fallback ==> theme_names(views(order@)) == walk(
            views(search_roots@),
            seq![root_theme_name@],
            Seq::empty(),
        ),
{
    let ghost roots = views(search_roots@);
    let ghost all = resolved_names(roots, root_theme_name@, use_fallback);
    let mut walker = ThemeWalk::new(root_theme_name, use_fallback);
    let mut order: Vec<Theme> = Vec::new();
    proof {
        assert(walker.remaining(roots) == all);
        assert(theme_names(views(order@)) + all =~= all);
    }
    loop
        invariant_except_break
            theme_names(views(order@)) + walker.remaining(roots) == all,
        invariant
            roots == views(search_roots@),
            forall|i: int|
                0 <= i < order@.len() ==> Some(#[trigger] order@[i]@) == loaded(
                    roots,
                    order@[i]@.name,
                ),
            forall|i: int| 0 <= i < order@.len() ==> (#[trigger] order@[i]).wf(),
        ensures
            theme_names(views(order@)) == all,
        decreases walker.remaining(roots).len(),
    {
        let ghost names = theme_names(views(order@));
        let ghost rest = walker.remaining(roots);
        match walker.next(search_roots) {
            Some(theme) => {
                proof {
                    lemma_views_push(order@, theme);
                    assert(theme_names(views(order@.push(theme))) =~= names.push(theme@.name));
                    assert(names.push(rest[0]) + rest.drop_first() =~= names + rest);
                }
                order.push(theme);
            },
            None => {
                proof {
                    assert(names + rest =~= names);
                }
                break ;
            },
        }
    }
    proof {
        lemma_resolved_once(roots, root_theme_name@, use_fallback);
    }
    order
}

} // verus!
