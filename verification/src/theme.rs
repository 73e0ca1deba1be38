//! Themes and their size-class directories, with the rules that give a
//! directory its range of sizes and decide whether it suits a request.

use vstd::prelude::*;
use crate::model::views;

verus! {

/// How a directory's icons may be used at sizes other than the nominal one.
#[derive(Clone, Copy, Debug, PartialEq, Eq, Structural)]
pub enum DirectoryType {
    /// Only at the nominal size.
    Fixed,
    /// At any size between the declared minimum and maximum.
    Scalable,
    /// At sizes within a threshold of the nominal size.
    Threshold,
}

/// One size-class directory of a theme.
#[derive(Clone, Debug, PartialEq, Eq)]
pub struct Subdirectory {
    /// Path of the directory relative to the theme, such as `48x48/apps`.
    pub path: String,
    /// Nominal size of the icons.
    pub size: u16,
    /// Smallest size the icons are used for.
    pub min_size: u16,
    /// Largest size the icons are used for.
    pub max_size: u16,
    /// User-interface scale the icons are drawn for.
    pub scale: u16,
    /// Category of the icons, for information only.
    pub context: Option<String>,
    /// How the range of sizes comes about.
    pub dir_type: DirectoryType,
}

/// The mathematical value of a [`Subdirectory`].
pub struct SubdirectoryView {
    pub path: Seq<char>,
    pub size: u16,
    pub min_size: u16,
    pub max_size: u16,
    pub scale: u16,
    pub context: Option<Seq<char>>,
    pub dir_type: DirectoryType,
}

/// The mathematical value of an optional string.
pub open spec fn optional_view(text: Option<String>) -> Option<Seq<char>> {
    match text {
        Some(s) => Some(s@),
        None => None,
    }
}

/// The mathematical value of an optional list of strings.
pub open spec fn optional_views(list: Option<Vec<String>>) -> Option<Seq<Seq<char>>> {
    match list {
        Some(items) => Some(views(items@)),
        None => None,
    }
}

impl View for Subdirectory {
    type V = SubdirectoryView;

    open spec fn view(&self) -> SubdirectoryView {
        SubdirectoryView {
            path: self.path@,
            size: self.size,
            min_size: self.min_size,
            max_size: self.max_size,
            scale: self.scale,
            context: optional_view(self.context),
            dir_type: self.dir_type,
        }
    }
}

/// A theme: its identity, what it inherits from, where it lives and the
/// directories it declares.
#[derive(Clone, Debug, PartialEq, Eq)]
pub struct Theme {
    /// Name of the theme's directory, which identifies the theme.
    pub name: String,
    /// Name shown to users.
    pub display_name: String,
    /// Description shown to users.
    pub comment: Option<String>,
    /// Names of the themes searched after this one, in order.
    pub inherits: Option<Vec<String>>,
    /// Search roots that hold a directory of this theme, in search order.
    pub paths: Vec<String>,
    /// Declared directories, in the order of the declaration.
    pub subdirs: Vec<Subdirectory>,
}

/// The mathematical value of a [`Theme`].
pub struct ThemeView {
    pub name: Seq<char>,
    pub display_name: Seq<char>,
    pub comment: Option<Seq<char>>,
    pub inherits: Option<Seq<Seq<char>>>,
    pub paths: Seq<Seq<char>>,
    pub subdirs: Seq<SubdirectoryView>,
}

impl View for Theme {
    type V = ThemeView;

    open spec fn view(&self) -> ThemeView {
        ThemeView {
            name: self.name@,
            display_name: self.display_name@,
            comment: optional_view(self.comment),
            inherits: optional_views(self.inherits),
            paths: views(self.paths@),
            subdirs: views(self.subdirs@),
        }
    }
}

/// The threshold of a directory that declares none.
pub const DEFAULT_THRESHOLD: u16 = 2;

/// The scale of a directory that declares none.
pub const DEFAULT_SCALE: u16 = 1;

/// The range of sizes of a directory, from what its declaration gives.
///
/// * A fixed directory serves its nominal size only.
/// * A threshold directory serves the sizes within `threshold` of the
///   nominal size, the lower end not going below zero.
/// * A scalable directory serves the declared minimum to the declared
///   maximum, each of which is the nominal size where it is not declared.
///
/// There is no range where the upper end would exceed the largest 16-bit
/// number, or where the minimum would exceed the maximum.
pub open spec fn range_of(
    dir_type: DirectoryType,
    size: u16,
    threshold: u16,
    min_size: Option<u16>,
    max_size: Option<u16>,
) -> Option<(u16, u16)> {
    match dir_type {
        DirectoryType::Fixed => Some((size, size)),
        DirectoryType::Threshold => if size + threshold <= u16::MAX {
            Some(
                (
                    if size >= threshold {
                        (size - threshold) as u16
                    } else {
                        0u16
                    },
                    (size + threshold) as u16,
                ),
            )
        } else {
            None
        },
        DirectoryType::Scalable => {
            let low = match min_size {
                Some(m) => m,
                None => size,
            };
            let high = match max_size {
                Some(m) => m,
                None => size,
            };
            if low <= high {
                Some((low, high))
            } else {
                None
            }
        },
    }
}

/// Whether the sizes of a directory are consistent: the minimum does not
/// exceed the maximum, a fixed directory serves its nominal size only, and a
/// threshold directory reaches as far below its nominal size as above it,
/// short of going below zero.
pub open spec fn well_sized(d: SubdirectoryView) -> bool {
    &&& d.min_size <= d.max_size
    &&& d.dir_type is Fixed ==> d.min_size == d.size && d.max_size == d.size
    &&& d.dir_type is Threshold ==> d.size <= d.max_size && d.min_size == if d.size >= d.max_size
        - d.size {
        d.size - (d.max_size - d.size)
    } else {
        0
    }
}

/// Whether a directory is searched for a request. A scalable directory
/// always is. Any other is searched if the requested size, where one is
/// given, lies in its range, and the requested scale, where one is given,
/// is its scale.
pub open spec fn eligible(d: SubdirectoryView, size: Option<u16>, scale: Option<u16>) -> bool {
    d.dir_type is Scalable || ((size is None || d.min_size <= size->Some_0 <= d.max_size) && (scale
        is None || scale->Some_0 == d.scale))
}

/// Computes the range of sizes of a directory from its declaration.
pub fn size_range(
    dir_type: DirectoryType,
    size: u16,
    threshold: u16,
    min_size: Option<u16>,
    max_size: Option<u16>,
) -> (range: Option<(u16, u16)>)
    ensures
        range == range_of(dir_type, size, threshold, min_size, max_size),
        dir_type is Fixed ==> range == Some((size, size)),
        dir_type is Threshold ==> (range is Some <==> size + threshold <= u16::MAX),
        dir_type is Threshold && range is Some ==> {
            &&& range->Some_0.0 == if size >= threshold {
                size - threshold
            } else {
                0
            }
            &&& range->Some_0.1 == size + threshold
        },
        range is Some ==> range->Some_0.0 <= range->Some_0.1,
{
    match dir_type {
        DirectoryType::Fixed => Some((size, size)),
        DirectoryType::Threshold => match size.checked_add(threshold) {
            Some(high) => Some((size.saturating_sub(threshold), high)),
            None => None,
        },
        DirectoryType::Scalable => {
            let low = match min_size {
                Some(m) => m,
                None => size,
            };
            let high = match max_size {
                Some(m) => m,
                None => size,
            };
            if low <= high {
                Some((low, high))
            } else {
                None
            }
        },
    }
}

impl Subdirectory {
    /// Whether the sizes of the directory are consistent.
    pub open spec fn wf(&self) -> bool {
        well_sized(self@)
    }

    /// Makes a directory from its declaration, or nothing where the
    /// declaration gives no range of sizes.
    pub fn new(
        path: String,
        size: u16,
        dir_type: DirectoryType,
        threshold: u16,
        min_size: Option<u16>,
        max_size: Option<u16>,
        scale: u16,
        context: Option<String>,
    ) -> (made: Option<Subdirectory>)
        ensures
            made is Some <==> range_of(dir_type, size, threshold, min_size, max_size) is Some,
            made is Some ==> {
                let d = made->Some_0;
                let range = range_of(dir_type, size, threshold, min_size, max_size)->Some_0;
                &&& d.wf()
                &&& d@ == SubdirectoryView {
                    path: path@,
                    size,
                    min_size: range.0,
                    max_size: range.1,
                    scale,
                    context: optional_view(context),
                    dir_type,
                }
            },
    {
        match size_range(dir_type, size, threshold, min_size, max_size) {
            Some((low, high)) => Some(
                Subdirectory { path, size, min_size: low, max_size: high, scale, context, dir_type },
            ),
            None => None,
        }
    }

    /// Whether the directory is searched for a request of the given size
    /// and scale, either of which may be left open.
    pub fn matches(&self, size: Option<u16>, scale: Option<u16>) -> (r: bool)
        ensures
            r == eligible(self@, size, scale),
    {
        if let DirectoryType::Scalable = self.dir_type {
            return true;
        }
        let size_fits = match size {
            Some(s) => self.min_size <= s && s <= self.max_size,
            None => true,
        };
        let scale_fits = match scale {
            Some(s) => s == self.scale,
            None => true,
        };
        size_fits && scale_fits
    }
}

impl Theme {
    /// Whether every directory of the theme has consistent sizes.
    pub open spec fn wf(&self) -> bool {
        forall|i: int| 0 <= i < self.subdirs@.len() ==> (#[trigger] self.subdirs@[i]).wf()
    }
}

/// A fixed directory serves exactly its nominal size.
pub proof fn lemma_fixed_range(d: Subdirectory)
    requires
        d.wf(),
        d.dir_type is Fixed,
    ensures
        d.min_size == d.size,
        d.max_size == d.size,
{
}

/// A threshold directory declared with threshold `t` serves the sizes from
/// `size - t`, or from zero where that would be negative, to `size + t`.
pub proof fn lemma_threshold_range(
    size: u16,
    t: u16,
    min_size: Option<u16>,
    max_size: Option<u16>,
)
    requires
        range_of(DirectoryType::Threshold, size, t, min_size, max_size) is Some,
    ensures
        ({
            let range = range_of(DirectoryType::Threshold, size, t, min_size, max_size)->Some_0;
            &&& range.0 == if size - t >= 0 {
                size - t
            } else {
                0
            }
            &&& range.1 == size + t
        }),
{
}

/// A directory is searched for every size of its range at its own scale,
/// and a directory that is not scalable for no size outside its range.
pub proof fn lemma_eligible_sizes(d: SubdirectoryView, size: u16)
    ensures
        d.min_size <= size <= d.max_size ==> eligible(d, Some(size), Some(d.scale)),
        !(d.dir_type is Scalable) && !(d.min_size <= size <= d.max_size) ==> !eligible(
            d,
            Some(size),
            None,
        ),
        eligible(d, None, None),
{
}

} // verus!
