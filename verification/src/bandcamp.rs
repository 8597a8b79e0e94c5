//! The storefront catalog: albums as the storefront lists them, each track
//! with its title, its address and its place in the album.

use crate::html::{decode_text, html_decoded};
use vstd::prelude::*;

verus! {

/// A track of a storefront album.
#[derive(Debug, PartialEq, Eq)]
pub struct Track {
    pub name: String,
    pub url: String,
    /// Place in the album, counted from one.
    pub num: usize,
}

/// An album as the storefront lists it.
#[derive(Debug, PartialEq, Eq)]
pub struct Album {
    pub name: String,
    pub tracks: Vec<Track>,
}

/// A [`Track`] as a mathematical value.
pub ghost struct TrackView {
    pub name: Seq<char>,
    pub url: Seq<char>,
    pub num: nat,
}

/// An [`Album`] as a mathematical value.
pub ghost struct AlbumView {
    pub name: Seq<char>,
    pub tracks: Seq<TrackView>,
}

impl View for Track {
    type V = TrackView;

    open spec fn view(&self) -> TrackView {
        TrackView { name: self.name@, url: self.url@, num: self.num as nat }
    }
}

impl DeepView for Track {
    type V = TrackView;

    open spec fn deep_view(&self) -> TrackView {
        self.view()
    }
}

impl View for Album {
    type V = AlbumView;

    open spec fn view(&self) -> AlbumView {
        AlbumView { name: self.name@, tracks: self.tracks.deep_view() }
    }
}

impl DeepView for Album {
    type V = AlbumView;

    open spec fn deep_view(&self) -> AlbumView {
        self.view()
    }
}

/// One entry of a storefront page's track list, as the page writes it.
#[derive(Debug, PartialEq, Eq)]
pub struct Listing {
    pub name: String,
    pub url: String,
    pub position: usize,
}

/// The tracks that the first `n` entries give, or `None` where the title
/// of one of them does not decode.
pub open spec fn tracks_upto(items: Seq<Listing>, n: int) -> Option<Seq<TrackView>>
    decreases n,
{
    if n <= 0 {
        Some(Seq::empty())
    } else {
        match (tracks_upto(items, n - 1), html_decoded(items[n - 1].name@)) {
            (Some(found), Some(name)) => Some(
                found.push(
                    TrackView { name, url: items[n - 1].url@, num: items[n - 1].position as nat },
                ),
            ),
            _ => None,
        }
    }
}

/// The album that a storefront page lists: its title and those of its
/// tracks with their character references resolved, or `None` where one of
/// them does not decode.
pub open spec fn listed_album(name: Seq<char>, items: Seq<Listing>) -> Option<AlbumView> {
    match (tracks_upto(items, items.len() as int), html_decoded(name)) {
        (Some(tracks), Some(name)) => Some(AlbumView { name, tracks }),
        _ => None,
    }
}

proof fn lemma_tracks_failure_stays(items: Seq<Listing>, n: int, m: int)
    requires
        n <= m,
        tracks_upto(items, n) is None,
    ensures
        tracks_upto(items, m) is None,
    decreases m - n,
{
    if n < m {
        lemma_tracks_failure_stays(items, n, m - 1);
    }
}

/// The album that a storefront page lists under the title `name`.
pub fn album_from_listing(name: &str, items: Vec<Listing>) -> (r: Option<Album>)
    ensures
        r.deep_view() == listed_album(name@, items@),
{
    let mut tracks: Vec<Track> = Vec::new();
    let mut i: usize = 0;
    proof {
        assert(tracks.deep_view() =~= Seq::empty());
    }
    while i < items.len()
        invariant
            i <= items.len(),
            tracks_upto(items@, i as int) == Some(tracks.deep_view()),
        decreases items.len() - i,
    {
        let ghost before = tracks.deep_view();
        match decode_text(items[i].name.as_str()) {
            Some(title) => {
                let track = Track {
                    name: title,
                    url: items[i].url.clone(),
                    num: items[i].position,
                };
                tracks.push(track);
                proof {
                    assert(tracks.deep_view() =~= before.push(track@));
                }
            },
            None => {
                proof {
                    lemma_tracks_failure_stays(items@, i + 1, items.len() as int);
                }
                return None;
            },
        }
        i += 1;
    }
    match decode_text(name) {
        Some(title) => Some(Album { name: title, tracks }),
        None => None,
    }
}

} // verus!
