//! The installed themes: every theme that some search root holds, and the
//! list of them in the order of their names.

use vstd::prelude::*;
use vstd::multiset::Multiset;
use vstd::seq_lib::{to_multiset_build, to_multiset_insert};
use crate::model::{lemma_views_push, views};
use crate::order::{known_names, names_in};
use crate::roots::{
    dir_named, holds, installed, listing, load, loaded, SearchRoot, SearchRootView, ThemeDirView,
};
use crate::text::{chars_of, has_name};
use crate::theme::{optional_view, Theme, ThemeView};

verus! {

/// The names in the order of their first occurrence, each once.
pub open spec fn distinct(names: Seq<Seq<char>>) -> Seq<Seq<char>>
    decreases names.len(),
{
    if names.len() == 0 {
        Seq::empty()
    } else {
        let before = distinct(names.drop_last());
        if before.contains(names.last()) {
            before
        } else {
            before.push(names.last())
        }
    }
}

/// The names of the installed themes, in the order in which the search
/// roots list them.
pub open spec fn installed_names(roots: Seq<SearchRootView>) -> Seq<Seq<char>> {
    distinct(known_names(roots))
}

/// Every installed theme, loaded.
pub open spec fn all_themes(roots: Seq<SearchRootView>) -> Seq<ThemeView> {
    Seq::new(
        installed_names(roots).len(),
        |i: int| loaded(roots, installed_names(roots)[i])->Some_0,
    )
}

/// Whether `a` comes before `b` or equals it in the order of strings:
/// the first character that differs decides, and a text comes before
/// every text that it begins.
pub open spec fn precedes(a: Seq<char>, b: Seq<char>) -> bool
    decreases a.len(),
{
    if a.len() == 0 {
        true
    } else if b.len() == 0 {
        false
    } else if a[0] != b[0] {
        a[0] < b[0]
    } else {
        precedes(a.drop_first(), b.drop_first())
    }
}

/// Whether the themes stand in the order of their names.
pub open spec fn in_name_order(themes: Seq<ThemeView>) -> bool {
    forall|i: int| 0 <= i < themes.len() - 1 ==> precedes(#[trigger] themes[i].name, themes[i + 1].name)
}

/// Of two names, one precedes the other.
pub proof fn lemma_precedes_total(a: Seq<char>, b: Seq<char>)
    ensures
        precedes(a, b) || precedes(b, a),
    decreases a.len(),
{
    if a.len() > 0 && b.len() > 0 && a[0] == b[0] {
        lemma_precedes_total(a.drop_first(), b.drop_first());
    }
}

/// A name precedes itself.
pub proof fn lemma_precedes_reflexive(a: Seq<char>)
    ensures
        precedes(a, a),
    decreases a.len(),
{
    if a.len() > 0 {
        lemma_precedes_reflexive(a.drop_first());
    }
}

/// The order of names is transitive.
pub proof fn lemma_precedes_transitive(a: Seq<char>, b: Seq<char>, c: Seq<char>)
    requires
        precedes(a, b),
        precedes(b, c),
    ensures
        precedes(a, c),
    decreases a.len(),
{
    if a.len() > 0 && b.len() > 0 && c.len() > 0 && a[0] == b[0] && b[0] == c[0] {
        lemma_precedes_transitive(a.drop_first(), b.drop_first(), c.drop_first());
    }
}

/// Two names that precede each other are the same name.
pub proof fn lemma_precedes_antisymmetric(a: Seq<char>, b: Seq<char>)
    requires
        precedes(a, b),
        precedes(b, a),
    ensures
        a == b,
    decreases a.len(),
{
    if a.len() > 0 && b.len() > 0 {
        lemma_precedes_antisymmetric(a.drop_first(), b.drop_first());
        assert(a =~= seq![a[0]] + a.drop_first());
        assert(b =~= seq![b[0]] + b.drop_first());
    } else {
        assert(a =~= b);
    }
}

/// In a list that is in name order, every theme precedes every theme
/// behind it.
pub proof fn lemma_name_order_pairwise(themes: Seq<ThemeView>, i: int, j: int)
    requires
        in_name_order(themes),
        0 <= i <= j < themes.len(),
    ensures
        precedes(themes[i].name, themes[j].name),
    decreases j - i,
{
    if i == j {
        lemma_precedes_reflexive(themes[i].name);
    } else {
        lemma_name_order_pairwise(themes, i, j - 1);
        assert(precedes(themes[j - 1].name, themes[j - 1 + 1].name));
        lemma_precedes_transitive(themes[i].name, themes[j - 1].name, themes[j].name);
    }
}

/// Whether `a` comes before `b` or equals it in the order of strings.
pub fn name_precedes(a: &[char], b: &[char]) -> (r: bool)
    ensures
        r == precedes(a@, b@),
{
    let mut i: usize = 0;
    proof {
        assert(a@.skip(0) =~= a@);
        assert(b@.skip(0) =~= b@);
    }
    while i < a.len() && i < b.len()
        invariant
            i <= a@.len(),
            i <= b@.len(),
            precedes(a@, b@) == precedes(a@.skip(i as int), b@.skip(i as int)),
        decreases a@.len() - i,
    {
        proof {
            assert(a@.skip(i as int).drop_first() =~= a@.skip(i + 1));
            assert(b@.skip(i as int).drop_first() =~= b@.skip(i + 1));
            assert(a@.skip(i as int)[0] == a@[i as int]);
            assert(b@.skip(i as int)[0] == b@[i as int]);
        }
        if a[i] != b[i] {
            return a[i] < b[i];
        }
        i += 1;
    }
    i == a.len()
}

/// Puts the themes in the order of their names. Nothing is added or lost.
pub fn list_themes(themes: Vec<Theme>) -> (sorted: Vec<Theme>)
    ensures
        in_name_order(views(sorted@)),
        views(sorted@).to_multiset() == views(themes@).to_multiset(),
        sorted@.len() == themes@.len(),
{
    let mut rest = themes;
    let ghost all = views(rest@);
    let mut sorted: Vec<Theme> = Vec::new();
    proof {
        assert(views(sorted@) =~= Seq::<ThemeView>::empty());
        assert(views(sorted@).to_multiset().add(views(rest@).to_multiset()) =~= all.to_multiset()) by {
            broadcast use vstd::multiset::group_multiset_axioms;
            broadcast use vstd::seq_lib::group_to_multiset_ensures;

            assert(views(sorted@).to_multiset() =~= Multiset::<ThemeView>::empty());
        }
    }
    while rest.len() > 0
        invariant
            in_name_order(views(sorted@)),
            views(sorted@).to_multiset().add(views(rest@).to_multiset()) == all.to_multiset(),
            sorted@.len() + rest@.len() == all.len(),
        decreases rest@.len(),
    {
        let ghost before_rest = views(rest@);
        let ghost before = views(sorted@);
        let theme = rest.pop().unwrap();
        let name = chars_of(theme.name.as_str());
        let mut at: usize = 0;
        while at < sorted.len() && precedes_theme(&sorted[at], name.as_slice())
            invariant
                at <= sorted@.len(),
                before == views(sorted@),
                name@ == theme@.name,
                forall|j: int| 0 <= j < at ==> precedes(#[trigger] before[j].name, theme@.name),
            decreases sorted@.len() - at,
        {
            at += 1;
        }
        proof {
            assert(views(rest@) =~= before_rest.drop_last());
            assert(before_rest =~= views(rest@).push(theme@));
            to_multiset_build(views(rest@), theme@);
            to_multiset_insert(before, at as int, theme@);
            assert(before.to_multiset().insert(theme@).add(views(rest@).to_multiset())
                =~= before.to_multiset().add(views(rest@).to_multiset().insert(theme@))) by {
                broadcast use vstd::multiset::group_multiset_axioms;

            }
            if at < before.len() {
                lemma_precedes_total(before[at as int].name, theme@.name);
            }
            let after = before.insert(at as int, theme@);
            assert forall|i: int| 0 <= i < after.len() - 1 implies precedes(
                #[trigger] after[i].name,
                after[i + 1].name,
            ) by {
                if i + 1 < at {
                    assert(after[i] == before[i] && after[i + 1] == before[i + 1]);
                } else if i + 1 == at {
                    assert(after[i] == before[i]);
                } else if i == at {
                    assert(after[i + 1] == before[i]);
                } else {
                    assert(after[i] == before[i - 1] && after[i + 1] == before[i]);
                }
            }
            assert(views(sorted@.insert(at as int, theme)) =~= after);
        }
        sorted.insert(at, theme);
    }
    proof {
        assert(views(rest@).to_multiset() =~= Multiset::<ThemeView>::empty()) by {
            broadcast use vstd::seq_lib::group_to_multiset_ensures;

        }
        assert(views(sorted@).to_multiset().add(Multiset::<ThemeView>::empty()) =~= views(
            sorted@,
        ).to_multiset()) by {
            broadcast use vstd::multiset::group_multiset_axioms;

        }
    }
    sorted
}

/// Whether the name of a theme precedes the given name.
fn precedes_theme(theme: &Theme, name: &[char]) -> (r: bool)
    ensures
        r == precedes(theme@.name, name@),
{
    let own = chars_of(theme.name.as_str());
    name_precedes(own.as_slice(), name)
}

/// The known names of the roots with one more root behind them.
proof fn lemma_known_names_push(roots: Seq<SearchRootView>, last: SearchRootView)
    ensures
        known_names(roots.push(last)) == known_names(roots) + names_in(listing(last)),
    decreases roots.len(),
{
    if roots.len() == 0 {
        assert(roots.push(last).drop_first() =~= roots);
        assert(known_names(roots.push(last)) =~= known_names(roots) + names_in(listing(last)));
    } else {
        assert(roots.push(last).drop_first() =~= roots.drop_first().push(last));
        lemma_known_names_push(roots.drop_first(), last);
        assert(known_names(roots.push(last)) =~= known_names(roots) + names_in(listing(last)));
    }
}

/// A directory that is listed is found under its own name.
proof fn lemma_name_in_listing(dirs: Seq<ThemeDirView>, k: int)
    requires
        0 <= k < dirs.len(),
    ensures
        dir_named(dirs, dirs[k].name) is Some,
    decreases dirs.len(),
{
    if dirs[0].name != dirs[k].name {
        lemma_name_in_listing(dirs.drop_first(), k - 1);
    }
}

/// A theme directory in any root makes its theme installed.
pub proof fn lemma_listed_installed(roots: Seq<SearchRootView>, r: int, k: int)
    requires
        0 <= r < roots.len(),
        0 <= k < listing(roots[r]).len(),
    ensures
        installed(roots, listing(roots[r])[k].name),
    decreases roots.len(),
{
    let name = listing(roots[r])[k].name;
    if r == 0 {
        lemma_name_in_listing(listing(roots[0]), k);
    } else if !holds(roots[0], name) {
        lemma_listed_installed(roots.drop_first(), r - 1, k);
    }
}

/// Lists every installed theme: each theme that some search root holds,
/// once, in the order in which the roots list them, loaded from its
/// descriptor.
pub fn themes(search_roots: &Vec<&SearchRoot>) -> (out: Vec<Theme>)
    ensures
        views(out@) == all_themes(views(search_roots@)),
        forall|i: int| 0 <= i < out@.len() ==> (#[trigger] out@[i]).wf(),
{
    let ghost roots = views(search_roots@);
    let mut out: Vec<Theme> = Vec::new();
    let mut seen: Vec<String> = Vec::new();
    let mut r: usize = 0;
    proof {
        assert(roots.take(0) =~= Seq::<SearchRootView>::empty());
        assert(views(seen@) =~= Seq::<Seq<char>>::empty());
    }
    while r < search_roots.len()
        invariant
            r <= search_roots@.len(),
            roots == views(search_roots@),
            views(seen@) == distinct(known_names(roots.take(r as int))),
            out@.len() == seen@.len(),
            forall|i: int|
                0 <= i < out@.len() ==> Some(#[trigger] out@[i]@) == loaded(roots, seen@[i]@),
            forall|i: int| 0 <= i < out@.len() ==> (#[trigger] out@[i]).wf(),
        decreases search_roots@.len() - r,
    {
        let ghost done = known_names(roots.take(r as int));
        proof {
            assert(roots.take(r + 1) =~= roots.take(r as int).push(roots[r as int]));
            lemma_known_names_push(roots.take(r as int), roots[r as int]);
        }
        match &search_roots[r].themes {
            Some(dirs) => {
                let ghost here = names_in(views(dirs@));
                let mut k: usize = 0;
                proof {
                    assert(done + here.take(0) =~= done);
                    assert(listing(roots[r as int]) == views(dirs@));
                }
                while k < dirs.len()
                    invariant
                        k <= dirs@.len(),
                        r < search_roots@.len(),
                        roots == views(search_roots@),
                        listing(roots[r as int]) == views(dirs@),
                        here == names_in(views(dirs@)),
                        views(seen@) == distinct(done + here.take(k as int)),
                        out@.len() == seen@.len(),
                        forall|i: int|
                            0 <= i < out@.len() ==> Some(#[trigger] out@[i]@) == loaded(
                                roots,
                                seen@[i]@,
                            ),
                        forall|i: int| 0 <= i < out@.len() ==> (#[trigger] out@[i]).wf(),
                    decreases dirs@.len() - k,
                {
                    let name = &dirs[k].name;
                    proof {
                        let next = done + here.take(k + 1);
                        assert(next.drop_last() =~= done + here.take(k as int));
                        assert(next.last() == name@);
                        lemma_listed_installed(roots, r as int, k as int);
                    }
                    if !has_name(&seen, name.as_str()) {
                        match load(name.as_str(), search_roots) {
                            Ok(theme) => {
                                proof {
                                    lemma_views_push(seen@, *name);
                                }
                                seen.push(name.clone());
                                out.push(theme);
                            },
                            Err(_) => {},
                        }
                    }
                    k += 1;
                }
                proof {
                    assert(here.take(k as int) =~= here);
                }
            },
            None => {
                proof {
                    assert(done + names_in(listing(roots[r as int])) =~= done);
                }
            },
        }
        r += 1;
    }
    proof {
        assert(roots.take(r as int) =~= roots);
        assert(views(out@) =~= all_themes(roots)) by {
            assert forall|i: int| 0 <= i < out@.len() implies views(out@)[i] == all_themes(
                roots,
            )[i] by {
                assert(views(seen@)[i] == seen@[i]@);
            }
        }
    }
    out
}

/// The first theme name that was read, in the order of the sources; none
/// where no source gave one.
pub open spec fn first_known(readings: Seq<Option<String>>) -> Option<Seq<char>>
    decreases readings.len(),
{
    if readings.len() == 0 {
        None
    } else {
        match readings[0] {
            Some(name) => Some(name@),
            None => first_known(readings.drop_first()),
        }
    }
}

/// Tells the user's theme from what the configuration sources gave, the
/// sources taken in their fixed order: the first name that was read. Each
/// reading is `None` where the source was missing or did not name a theme.
pub fn get_system_theme(readings: &Vec<Option<String>>) -> (theme: Option<String>)
    ensures
        optional_view(theme) == first_known(readings@),
{
    let mut i: usize = 0;
    proof {
        assert(readings@.skip(0) =~= readings@);
    }
    while i < readings.len()
        invariant
            i <= readings@.len(),
            first_known(readings@) == first_known(readings@.skip(i as int)),
        decreases readings@.len() - i,
    {
        proof {
            assert(readings@.skip(i as int).drop_first() =~= readings@.skip(i + 1));
            assert(readings@.skip(i as int)[0] == readings@[i as int]);
        }
        match &readings[i] {
            Some(name) => {
                return Some(name.clone());
            },
            None => {},
        }
        i += 1;
    }
    None
}

} // verus!
