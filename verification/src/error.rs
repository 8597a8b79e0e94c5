//! The failures that parsing a document and resolving a track can end in.

use crate::text::{decimal, push_decimal};
use vstd::prelude::*;

verus! {

/// Why a document was rejected or a track could not be resolved.
#[derive(Debug, PartialEq, Eq)]
pub enum Error {
    /// A record lacks a field that it cannot do without.
    MissingMandatoryField { field: String },
    /// A date field holds text that is no date.
    DateParseFailure { field: String },
    /// An album document has no album section: its first section is blank.
    SectionSplitAnomaly,
    /// No track of the album has the title, and the album has no track at
    /// the position either.
    PositionOutOfRange { album: String, title: String, position: usize },
    /// Neither catalog has an album of the name.
    AlbumNotFound { album: String, title: String },
    /// The storefront album has no track of the title nor one at the position.
    TrackNotFound { album: String, title: String },
    /// No canonical track lists the storefront track's address.
    UrlNotIndexed { track: String, url: String },
}

/// An [`Error`] as a mathematical value.
pub ghost enum ErrorView {
    MissingMandatoryField { field: Seq<char> },
    DateParseFailure { field: Seq<char> },
    SectionSplitAnomaly,
    PositionOutOfRange { album: Seq<char>, title: Seq<char>, position: nat },
    AlbumNotFound { album: Seq<char>, title: Seq<char> },
    TrackNotFound { album: Seq<char>, title: Seq<char> },
    UrlNotIndexed { track: Seq<char>, url: Seq<char> },
}

impl View for Error {
    type V = ErrorView;

    open spec fn view(&self) -> ErrorView {
        match *self {
            Error::MissingMandatoryField { field } => ErrorView::MissingMandatoryField {
                field: field@,
            },
            Error::DateParseFailure { field } => ErrorView::DateParseFailure { field: field@ },
            Error::SectionSplitAnomaly => ErrorView::SectionSplitAnomaly,
            Error::PositionOutOfRange { album, title, position } => ErrorView::PositionOutOfRange {
                album: album@,
                title: title@,
                position: position as nat,
            },
            Error::AlbumNotFound { album, title } => ErrorView::AlbumNotFound {
                album: album@,
                title: title@,
            },
            Error::TrackNotFound { album, title } => ErrorView::TrackNotFound {
                album: album@,
                title: title@,
            },
            Error::UrlNotIndexed { track, url } => ErrorView::UrlNotIndexed {
                track: track@,
                url: url@,
            },
        }
    }
}

impl DeepView for Error {
    type V = ErrorView;

    open spec fn deep_view(&self) -> ErrorView {
        self.view()
    }
}

/// A result as a mathematical value: what it holds, seen through its view.
pub open spec fn outcome<T: DeepView>(r: Result<T, Error>) -> Result<T::V, ErrorView> {
    match r {
        Ok(value) => Ok(value.deep_view()),
        Err(e) => Err(e@),
    }
}

/// What an error says in words: the kind of failure, and the field, album,
/// title or address that it is about.
pub open spec fn message_of(e: ErrorView) -> Seq<char> {
    match e {
        ErrorView::MissingMandatoryField { field } => "missing field "@ + field,
        ErrorView::DateParseFailure { field } => "no date in field "@ + field,
        ErrorView::SectionSplitAnomaly => "no album section"@,
        ErrorView::PositionOutOfRange { album, title, position } => "no track "@ + title
            + " in album "@ + album + " and none at place "@ + decimal(position),
        ErrorView::AlbumNotFound { album, title } => "no album "@ + album + " for track "@ + title,
        ErrorView::TrackNotFound { album, title } => "no track "@ + title
            + " in storefront album "@ + album,
        ErrorView::UrlNotIndexed { track, url } => "no canonical track for "@ + track + " at "@
            + url,
    }
}

impl Error {
    /// What the error says in words.
    pub fn message(&self) -> (r: String)
        ensures
            r@ == message_of(self@),
    {
        let mut r = String::new();
        match self {
            Error::MissingMandatoryField { field } => {
                r.append("missing field ");
                r.append(field.as_str());
            },
            Error::DateParseFailure { field } => {
                r.append("no date in field ");
                r.append(field.as_str());
            },
            Error::SectionSplitAnomaly => {
                r.append("no album section");
            },
            Error::PositionOutOfRange { album, title, position } => {
                r.append("no track ");
                r.append(title.as_str());
                r.append(" in album ");
                r.append(album.as_str());
                r.append(" and none at place ");
                push_decimal(&mut r, *position);
            },
            Error::AlbumNotFound { album, title } => {
                r.append("no album ");
                r.append(album.as_str());
                r.append(" for track ");
                r.append(title.as_str());
            },
            Error::TrackNotFound { album, title } => {
                r.append("no track ");
                r.append(title.as_str());
                r.append(" in storefront album ");
                r.append(album.as_str());
            },
            Error::UrlNotIndexed { track, url } => {
                r.append("no canonical track for ");
                r.append(track.as_str());
                r.append(" at ");
                r.append(url.as_str());
            },
        }
        proof {
            assert(r@ =~= message_of(self@));
        }
        r
    }
}

} // verus!
