//! What a lookup yields: the path of an icon file with the metadata of the
//! directory it was found in, or the reason why the lookup failed.

use vstd::prelude::*;

verus! {

/// The file format of an icon.
#[derive(Clone, Copy, Debug, PartialEq, Eq, Structural)]
pub enum IconType {
    PNG,
    SVG,
    XMP,
}

/// An icon file and the metadata of the theme directory that holds it.
#[derive(Clone, Debug, PartialEq, Eq)]
pub struct IconPath {
    /// Path of the icon file.
    pub path: String,
    /// Name of the theme the icon belongs to.
    pub theme: String,
    /// File format of the icon.
    pub icon_type: IconType,
    /// Smallest size the icon is meant for.
    pub min_size: u16,
    /// Largest size the icon is meant for.
    pub max_size: u16,
    /// User-interface scale the icon is meant for.
    pub scale: u16,
}

/// The mathematical value of an [`IconPath`].
pub struct IconPathView {
    pub path: Seq<char>,
    pub theme: Seq<char>,
    pub icon_type: IconType,
    pub min_size: u16,
    pub max_size: u16,
    pub scale: u16,
}

impl View for IconPath {
    type V = IconPathView;

    open spec fn view(&self) -> IconPathView {
        IconPathView {
            path: self.path@,
            theme: self.theme@,
            icon_type: self.icon_type,
            min_size: self.min_size,
            max_size: self.max_size,
            scale: self.scale,
        }
    }
}

/// Why a lookup failed.
#[derive(Clone, Debug, PartialEq, Eq)]
pub enum LookupError {
    /// No search root holds a theme of this name.
    ThemeNotFound(String),
    /// The search ended without a single match for this icon name.
    IconNotFound(String),
    /// Reading `path` failed for a reason other than the file being absent.
    IoError { path: String, cause: String },
    /// An extra search path does not name an existing directory.
    InvalidSearchPath(String),
}

/// The mathematical value of a [`LookupError`].
pub enum LookupErrorView {
    ThemeNotFound(Seq<char>),
    IconNotFound(Seq<char>),
    IoError { path: Seq<char>, cause: Seq<char> },
    InvalidSearchPath(Seq<char>),
}

impl View for LookupError {
    type V = LookupErrorView;

    open spec fn view(&self) -> LookupErrorView {
        match self {
            LookupError::ThemeNotFound(name) => LookupErrorView::ThemeNotFound(name@),
            LookupError::IconNotFound(name) => LookupErrorView::IconNotFound(name@),
            LookupError::IoError { path, cause } => LookupErrorView::IoError {
                path: path@,
                cause: cause@,
            },
            LookupError::InvalidSearchPath(path) => LookupErrorView::InvalidSearchPath(path@),
        }
    }
}

/// One element of a lookup: an icon, or the error met in its place.
pub type Found = Result<IconPath, LookupError>;

/// The mathematical value of one element of a lookup.
pub type FoundView = Result<IconPathView, LookupErrorView>;

/// The value of one element of a lookup.
pub open spec fn found_view(item: Found) -> FoundView {
    match item {
        Ok(icon) => Ok(icon@),
        Err(error) => Err(error@),
    }
}

/// The values of a sequence of lookup elements.
pub open spec fn found_views(items: Seq<Found>) -> Seq<FoundView> {
    Seq::new(items.len(), |i: int| found_view(items[i]))
}

/// The text that describes an error to the user.
pub open spec fn message_of(error: LookupErrorView) -> Seq<char> {
    match error {
        LookupErrorView::ThemeNotFound(name) => "Theme `"@ + name + "` not found"@,
        LookupErrorView::IconNotFound(name) => "Icon `"@ + name + "` not found"@,
        LookupErrorView::IoError { path, cause } => "Error reading `"@ + path + "`: "@ + cause,
        LookupErrorView::InvalidSearchPath(path) => "Invalid search path `"@ + path + "`"@,
    }
}

impl IconType {
    /// The lower-case name of the format, which is also the word that
    /// selects it in a list of formats.
    pub open spec fn label_of(self) -> Seq<char> {
        match self {
            IconType::PNG => "png"@,
            IconType::SVG => "svg"@,
            IconType::XMP => "xmp"@,
        }
    }

    /// The lower-case name of the format.
    pub fn label(self) -> (word: &'static str)
        ensures
            word@ == self.label_of(),
    {
        match self {
            IconType::PNG => "png",
            IconType::SVG => "svg",
            IconType::XMP => "xmp",
        }
    }
}

impl IconPath {
    /// A copy of the record.
    pub fn duplicate(&self) -> (copy: IconPath)
        ensures
            copy@ == self@,
    {
        IconPath {
            path: self.path.clone(),
            theme: self.theme.clone(),
            icon_type: self.icon_type,
            min_size: self.min_size,
            max_size: self.max_size,
            scale: self.scale,
        }
    }
}

impl LookupError {
    /// The text that describes the error to the user.
    pub fn message(&self) -> (text: String)
        ensures
            text@ == message_of(self@),
    {
        match self {
            LookupError::ThemeNotFound(name) => {
                let mut text = String::from_str("Theme `");
                text.append(name.as_str());
                text.append("` not found");
                text
            },
            LookupError::IconNotFound(name) => {
                let mut text = String::from_str("Icon `");
                text.append(name.as_str());
                text.append("` not found");
                text
            },
            LookupError::IoError { path, cause } => {
                let mut text = String::from_str("Error reading `");
                text.append(path.as_str());
                text.append("`: ");
                text.append(cause.as_str());
                text
            },
            LookupError::InvalidSearchPath(path) => {
                let mut text = String::from_str("Invalid search path `");
                text.append(path.as_str());
                text.append("`");
                text
            },
        }
    }

    /// A copy of the error.
    pub fn duplicate(&self) -> (copy: LookupError)
        ensures
            copy@ == self@,
    {
        match self {
            LookupError::ThemeNotFound(name) => LookupError::ThemeNotFound(name.clone()),
            LookupError::IconNotFound(name) => LookupError::IconNotFound(name.clone()),
            LookupError::IoError { path, cause } => LookupError::IoError {
                path: path.clone(),
                cause: cause.clone(),
            },
            LookupError::InvalidSearchPath(path) => LookupError::InvalidSearchPath(path.clone()),
        }
    }
}

} // verus!
