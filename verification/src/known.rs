//! The well-known folders of the user's profile, and where the host keeps
//! them.
//!
//! A known location is resolved afresh on every request, by the caller, who
//! asks the host and hands the answer over. Not every host has all six
//! folders: one that is not configured is reported as unavailable.

use crate::error::NavError;
use crate::path::{path_of_text, Path, PathView};
use vstd::prelude::*;

verus! {

/// A folder that is found by what it is for, not by where it lies.
#[derive(Clone, Copy, Debug, PartialEq, Eq, Structural)]
pub enum KnownLocation {
    Downloads,
    Documents,
    Pictures,
    Music,
    Videos,
    Desktop,
}

/// The host's answer to where a known location lies.
#[derive(Debug, PartialEq, Eq)]
pub enum Resolution {
    /// The host has no such folder configured.
    Missing,
    /// The host has the folder, but its path cannot be written as text.
    NotText,
    /// The host keeps the folder at the path that this text names.
    Found(String),
}

/// An answer by its content.
pub enum ResolutionView {
    Missing,
    NotText,
    Found(Seq<char>),
}

impl View for Resolution {
    type V = ResolutionView;

    open spec fn view(&self) -> ResolutionView {
        match self {
            Resolution::Missing => ResolutionView::Missing,
            Resolution::NotText => ResolutionView::NotText,
            Resolution::Found(text) => ResolutionView::Found(text@),
        }
    }
}

/// The location that an answer names. A missing folder is unavailable; a
/// path that is not text, or a text that no absolute, normalized path is
/// written as, is no path to go to.
pub open spec fn located(answer: ResolutionView) -> Result<PathView, NavError> {
    match answer {
        ResolutionView::Missing => Err(NavError::Unavailable),
        ResolutionView::NotText => Err(NavError::InvalidPath),
        ResolutionView::Found(text) => match path_of_text(text) {
            Some(path) => Ok(path),
            None => Err(NavError::InvalidPath),
        },
    }
}

/// The location that the host's answer names.
pub fn locate(answer: &Resolution) -> (result: Result<Path, NavError>)
    ensures
        match result {
            Ok(path) => located(answer@) == Ok::<PathView, NavError>(path@) && path@.wf(),
            Err(e) => located(answer@) == Err::<PathView, NavError>(e),
        },
{
    match answer {
        Resolution::Missing => Err(NavError::Unavailable),
        Resolution::NotText => Err(NavError::InvalidPath),
        Resolution::Found(text) => Path::parse(text.as_str()),
    }
}

} // verus!
