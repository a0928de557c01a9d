//! Directives: the comma-separated units of a filter string.
//!
//! A directive is `path=level`, a bare `path` (which stands for
//! `path=trace`), or a bare `level`, the fallback for the calling package.

use crate::ident::{check_identifier, is_identifier};
use crate::level::{from_str, keyword_level, Level};
use crate::text::{last_position, path_segments, split_last, split_path};
use vstd::prelude::*;
use vstd::string::*;

verus! {

/// Why a filter string is rejected.
#[derive(Debug, Clone, PartialEq, Eq)]
pub enum FilterError {
    /// What follows the last `=` of a directive is no level keyword.
    UnknownLevel(String),
    /// A directive names the empty path.
    EmptyModulePath,
    /// A segment of a path is no identifier.
    InvalidIdentifier(String),
}

/// A [`FilterError`] with its texts as character sequences.
pub enum FilterErrorView {
    UnknownLevel(Seq<char>),
    EmptyModulePath,
    InvalidIdentifier(Seq<char>),
}

impl View for FilterError {
    type V = FilterErrorView;

    open spec fn view(&self) -> FilterErrorView {
        match self {
            FilterError::UnknownLevel(text) => FilterErrorView::UnknownLevel(text@),
            FilterError::EmptyModulePath => FilterErrorView::EmptyModulePath,
            FilterError::InvalidIdentifier(text) => FilterErrorView::InvalidIdentifier(text@),
        }
    }
}

impl FilterErrorView {
    /// The message that reports this error; it quotes the offending token.
    pub open spec fn message(self) -> Seq<char> {
        match self {
            FilterErrorView::UnknownLevel(text) => "`"@ + text + "` is not a log level"@,
            FilterErrorView::EmptyModulePath => "module path cannot be an empty string"@,
            FilterErrorView::InvalidIdentifier(text) => "`"@ + text
                + "` is not a valid identifier"@,
        }
    }
}

impl FilterError {
    /// The message that reports this error.
    pub fn message(&self) -> (text: String)
        ensures
            text@ == self@.message(),
    {
        match self {
            FilterError::UnknownLevel(token) => {
                let mut text = String::from_str("`");
                text.append(token.as_str());
                text.append("` is not a log level");
                text
            },
            FilterError::EmptyModulePath => String::from_str(
                "module path cannot be an empty string",
            ),
            FilterError::InvalidIdentifier(token) => {
                let mut text = String::from_str("`");
                text.append(token.as_str());
                text.append("` is not a valid identifier");
                text
            },
        }
    }
}

/// One directive of a filter string.
#[derive(Debug, Clone, PartialEq, Eq)]
pub enum Directive {
    /// A bare level: the threshold of the calling package where no directive names it.
    Fallback(Level),
    /// A namespace path with its minimum severity.
    Path { path: String, level: Level },
}

/// A [`Directive`] with its path as a character sequence.
pub enum SpecDirective {
    Fallback(Level),
    Path { path: Seq<char>, level: Level },
}

impl View for Directive {
    type V = SpecDirective;

    open spec fn view(&self) -> SpecDirective {
        match self {
            Directive::Fallback(level) => SpecDirective::Fallback(*level),
            Directive::Path { path, level } => SpecDirective::Path { path: path@, level: *level },
        }
    }
}

impl DeepView for Directive {
    type V = SpecDirective;

    open spec fn deep_view(&self) -> SpecDirective {
        self@
    }
}

/// The first of `segments` that is no identifier, if there is one.
pub open spec fn first_rejected(segments: Seq<Seq<char>>) -> Option<Seq<char>>
    decreases segments.len(),
{
    if segments.len() == 0 {
        None
    } else if !is_identifier(segments[0]) {
        Some(segments[0])
    } else {
        first_rejected(segments.drop_first())
    }
}

/// What is wrong with `path` as a namespace path, if anything: it is empty,
/// or one of its segments, the leftmost such, is no identifier.
pub open spec fn path_error(path: Seq<char>) -> Option<FilterErrorView> {
    if path.len() == 0 {
        Some(FilterErrorView::EmptyModulePath)
    } else {
        match first_rejected(path_segments(path)) {
            Some(segment) => Some(FilterErrorView::InvalidIdentifier(segment)),
            None => None,
        }
    }
}

/// How the text of a directive divides into path and level, before the path
/// is looked at. The text is split at its last `=`; without one, a level
/// keyword is a fallback and anything else a path at level `Trace`.
pub open spec fn split_directive(item: Seq<char>) -> Result<SpecDirective, FilterErrorView> {
    let i = last_position(item, '=');
    if i >= 0 {
        let right = item.subrange(i + 1, item.len() as int);
        match keyword_level(right) {
            Some(level) => Ok(SpecDirective::Path { path: item.subrange(0, i), level }),
            None => Err(FilterErrorView::UnknownLevel(right)),
        }
    } else {
        match keyword_level(item) {
            Some(level) => Ok(SpecDirective::Fallback(level)),
            None => Ok(SpecDirective::Path { path: item, level: Level::Trace }),
        }
    }
}

/// The directive that `item` denotes, or the reason why it denotes none. An
/// unknown level is reported before a fault in the path.
pub open spec fn read_directive(item: Seq<char>) -> Result<SpecDirective, FilterErrorView> {
    match split_directive(item) {
        Ok(SpecDirective::Path { path, level }) => match path_error(path) {
            Some(error) => Err(error),
            None => Ok(SpecDirective::Path { path, level }),
        },
        other => other,
    }
}

/// The outcome of reading a directive, with directive and error by their views.
pub open spec fn directive_view(r: Result<Directive, FilterError>) -> Result<
    SpecDirective,
    FilterErrorView,
> {
    match r {
        Ok(directive) => Ok(directive@),
        Err(error) => Err(error@),
    }
}

/// Accepts `ident` if it is an identifier.
pub fn validate_identifier(ident: &str) -> (r: Result<(), FilterError>)
    ensures
        r is Ok <==> is_identifier(ident@),
        r is Err ==> r->Err_0@ == FilterErrorView::InvalidIdentifier(ident@),
{
    if check_identifier(ident) {
        Ok(())
    } else {
        Err(FilterError::InvalidIdentifier(String::from_str(ident)))
    }
}

/// Accepts `path` if it is not empty and each of its `::`-separated segments
/// is an identifier.
pub fn validate_module_path(path: &str) -> (r: Result<(), FilterError>)
    ensures
        match r {
            Ok(_) => path_error(path@) is None,
            Err(error) => path_error(path@) == Some(error@),
        },
{
    if path.unicode_len() == 0 {
        return Err(FilterError::EmptyModulePath);
    }
    let segments = split_path(path);
    let mut i: usize = 0;
    assert(segments.deep_view().skip(0) =~= segments.deep_view());
    while i < segments.len()
        invariant
            0 <= i <= segments.len(),
            path@.len() > 0,
            segments.deep_view() == path_segments(path@),
            first_rejected(path_segments(path@)) == first_rejected(
                segments.deep_view().skip(i as int),
            ),
        decreases segments.len() - i,
    {
        let ghost rest = segments.deep_view().skip(i as int);
        assert(rest[0] == segments[i as int]@);
        assert(rest.drop_first() =~= segments.deep_view().skip(i + 1));
        match validate_identifier(segments[i].as_str()) {
            Ok(_) => {},
            Err(error) => {
                return Err(error);
            },
        }
        i += 1;
    }
    Ok(())
}

impl Directive {
    /// Reads one directive.
    pub fn parse(item: &str) -> (r: Result<Directive, FilterError>)
        ensures
            directive_view(r) == read_directive(item@),
    {
        let (path, level) = match split_last(item, '=') {
            Some((path, level)) => match from_str(level.as_str()) {
                Ok(level) => (path, level),
                Err(_) => {
                    return Err(FilterError::UnknownLevel(level));
                },
            },
            None => match from_str(item) {
                Ok(level) => {
                    return Ok(Directive::Fallback(level));
                },
                Err(_) => (String::from_str(item), Level::Trace),
            },
        };
        match validate_module_path(path.as_str()) {
            Ok(_) => Ok(Directive::Path { path, level }),
            Err(error) => Err(error),
        }
    }
}

} // verus!
