//! Option words: sort keys, sort direction, search fields and color modes,
//! each parsed case-insensitively from its command-line spelling.

use vstd::prelude::*;
use crate::errors::AURError;
use crate::text::str_eq;

verus! {

/// What `str::to_lowercase` returns for a string: Unicode lowercasing,
/// a function of the characters alone.
pub uninterp spec fn lower_of(s: Seq<char>) -> Seq<char>;

/// Relies on str::to_lowercase: the result depends on the characters
/// alone.
#[verifier::external_body]
pub(crate) fn lowercase(s: &str) -> (r: String)
    ensures
        r@ == lower_of(s@),
{
    s.to_lowercase()
}

/// The field by which search results are ordered.
#[derive(Debug, Clone, Copy, PartialEq, Eq, Structural)]
pub enum SortBy {
    Name,
    Submitted,
    Modified,
    Votes,
    Popularity,
}

/// The sort key a lowercased option word names.
pub open spec fn sort_by_of(s: Seq<char>) -> Option<SortBy> {
    if s == "name"@ || s == "n"@ {
        Some(SortBy::Name)
    } else if s == "submitted"@ || s == "s"@ {
        Some(SortBy::Submitted)
    } else if s == "modified"@ || s == "m"@ {
        Some(SortBy::Modified)
    } else if s == "votes"@ || s == "v"@ {
        Some(SortBy::Votes)
    } else if s == "popularity"@ || s == "p"@ {
        Some(SortBy::Popularity)
    } else {
        None
    }
}

impl SortBy {
    /// Parse an already-lowercased option word.
    pub fn from_folded(s: &str) -> (r: Result<SortBy, AURError>)
        ensures
            r == match sort_by_of(s@) {
                Some(v) => Ok::<SortBy, AURError>(v),
                None => Err::<SortBy, AURError>(AURError::UnrecognizedVariant),
            },
    {
        if str_eq(s, "name") || str_eq(s, "n") {
            Ok(SortBy::Name)
        } else if str_eq(s, "submitted") || str_eq(s, "s") {
            Ok(SortBy::Submitted)
        } else if str_eq(s, "modified") || str_eq(s, "m") {
            Ok(SortBy::Modified)
        } else if str_eq(s, "votes") || str_eq(s, "v") {
            Ok(SortBy::Votes)
        } else if str_eq(s, "popularity") || str_eq(s, "p") {
            Ok(SortBy::Popularity)
        } else {
            Err(AURError::UnrecognizedVariant)
        }
    }

    /// Parse an option word case-insensitively.
    pub fn from_str(s: &str) -> (r: Result<SortBy, AURError>)
        ensures
            r == match sort_by_of(lower_of(s@)) {
                Some(v) => Ok::<SortBy, AURError>(v),
                None => Err::<SortBy, AURError>(AURError::UnrecognizedVariant),
            },
    {
        let l = lowercase(s);
        SortBy::from_folded(l.as_str())
    }
}

/// The direction in which search results are ordered.
#[derive(Debug, Clone, Copy, PartialEq, Eq, Structural)]
pub enum SortDir {
    Ascending,
    Descending,
}

/// The sort direction a lowercased option word names.
pub open spec fn sort_dir_of(s: Seq<char>) -> Option<SortDir> {
    if s == "ascending"@ || s == "a"@ {
        Some(SortDir::Ascending)
    } else if s == "descending"@ || s == "d"@ {
        Some(SortDir::Descending)
    } else {
        None
    }
}

impl SortDir {
    /// Parse an already-lowercased option word.
    pub fn from_folded(s: &str) -> (r: Result<SortDir, AURError>)
        ensures
            r == match sort_dir_of(s@) {
                Some(v) => Ok::<SortDir, AURError>(v),
                None => Err::<SortDir, AURError>(AURError::UnrecognizedVariant),
            },
    {
        if str_eq(s, "ascending") || str_eq(s, "a") {
            Ok(SortDir::Ascending)
        } else if str_eq(s, "descending") || str_eq(s, "d") {
            Ok(SortDir::Descending)
        } else {
            Err(AURError::UnrecognizedVariant)
        }
    }

    /// Parse an option word case-insensitively.
    pub fn from_str(s: &str) -> (r: Result<SortDir, AURError>)
        ensures
            r == match sort_dir_of(lower_of(s@)) {
                Some(v) => Ok::<SortDir, AURError>(v),
                None => Err::<SortDir, AURError>(AURError::UnrecognizedVariant),
            },
    {
        let l = lowercase(s);
        SortDir::from_folded(l.as_str())
    }
}

/// The field a package search queries.
#[derive(Debug, Clone, Copy, PartialEq, Eq, Structural)]
pub enum SearchField {
    Name,
    NameDesc,
    Maintainer,
    Depends,
    MakeDepends,
    OptDepends,
    CheckDepends,
}

/// The search field a lowercased option word names.
pub open spec fn field_of(s: Seq<char>) -> Option<SearchField> {
    if s == "name"@ {
        Some(SearchField::Name)
    } else if s == "name-desc"@ {
        Some(SearchField::NameDesc)
    } else if s == "maintainer"@ {
        Some(SearchField::Maintainer)
    } else if s == "depends"@ {
        Some(SearchField::Depends)
    } else if s == "makedepends"@ {
        Some(SearchField::MakeDepends)
    } else if s == "optdepends"@ {
        Some(SearchField::OptDepends)
    } else if s == "checkdepends"@ {
        Some(SearchField::CheckDepends)
    } else {
        None
    }
}

/// Parse an already-lowercased search-field word.
pub fn parse_field_folded(s: &str) -> (r: Option<SearchField>)
    ensures
        r == field_of(s@),
{
    if str_eq(s, "name") {
        Some(SearchField::Name)
    } else if str_eq(s, "name-desc") {
        Some(SearchField::NameDesc)
    } else if str_eq(s, "maintainer") {
        Some(SearchField::Maintainer)
    } else if str_eq(s, "depends") {
        Some(SearchField::Depends)
    } else if str_eq(s, "makedepends") {
        Some(SearchField::MakeDepends)
    } else if str_eq(s, "optdepends") {
        Some(SearchField::OptDepends)
    } else if str_eq(s, "checkdepends") {
        Some(SearchField::CheckDepends)
    } else {
        None
    }
}

/// Parse a search-field word case-insensitively; an unknown word is
/// reported with its original spelling.
pub fn parse_field(s: &str) -> (r: Result<SearchField, AURError>)
    ensures
        match r {
            Ok(f) => field_of(lower_of(s@)) == Some(f),
            Err(e) => field_of(lower_of(s@)) is None && (match e {
                AURError::UnrecognizedField(m) => m@ == s@,
                _ => false,
            }),
        },
{
    let l = lowercase(s);
    match parse_field_folded(l.as_str()) {
        Some(f) => Ok(f),
        None => Err(AURError::UnrecognizedField(s.to_owned())),
    }
}

/// When terminal color is used.
#[derive(Debug, Clone, Copy, PartialEq, Eq, Hash, Structural)]
pub enum ColorState {
    Never,
    Auto,
    Always,
}

/// The color mode a lowercased option word names.
pub open spec fn color_state_of(s: Seq<char>) -> Option<ColorState> {
    if s == "never"@ {
        Some(ColorState::Never)
    } else if s == "auto"@ {
        Some(ColorState::Auto)
    } else if s == "always"@ {
        Some(ColorState::Always)
    } else {
        None
    }
}

impl ColorState {
    /// Parse an already-lowercased option word.
    pub fn from_folded(s: &str) -> (r: Option<ColorState>)
        ensures
            r == color_state_of(s@),
    {
        if str_eq(s, "never") {
            Some(ColorState::Never)
        } else if str_eq(s, "auto") {
            Some(ColorState::Auto)
        } else if str_eq(s, "always") {
            Some(ColorState::Always)
        } else {
            None
        }
    }

    /// Parse an option word case-insensitively.
    pub fn from_str(s: &str) -> (r: Option<ColorState>)
        ensures
            r == color_state_of(lower_of(s@)),
    {
        let l = lowercase(s);
        ColorState::from_folded(l.as_str())
    }
}

} // verus!
