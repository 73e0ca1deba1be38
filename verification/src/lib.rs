//! Icon theme resolution: reading theme descriptors, ordering themes by
//! inheritance, scanning their directories for an icon, and choosing among
//! what was found. Every rule is stated as a contract and proved.
//!
//! The library works on plain values. What is installed is handed to it
//! as data: search roots with the theme directories and descriptor texts
//! in them, and the outcomes of probing files. Reading the file system is
//! left to the caller.
//!
//! * [`index`] reads a theme descriptor into a [`Theme`].
//! * [`roots`] loads a theme from the search roots.
//! * [`order`] resolves the order in which themes are searched.
//! * [`scan`] lists the files tried in a theme and scans it.
//! * [`lookup`] configures a lookup and produces its results on demand.
//! * [`catalog`] lists and sorts the installed themes.
//! * [`command`] and [`report`] hold what the command line decides and
//!   prints; [`formats`] reads its list of formats.

pub mod catalog;
pub mod command;
pub mod formats;
pub mod icon;
pub mod index;
pub mod lookup;
pub mod model;
pub mod order;
pub mod report;
pub mod roots;
pub mod scan;
pub mod text;
pub mod theme;

pub use crate::catalog::{get_system_theme, themes};
pub use crate::icon::{IconPath, IconType, LookupError};
pub use crate::lookup::{lookup_icon, LookupIterator};
pub use crate::order::resolve_order;
pub use crate::roots::{load, SearchRoot, ThemeDir};
pub use crate::scan::{scan, FileEntry, Probe};
pub use crate::theme::{DirectoryType, Subdirectory, Theme};
