//! Lookups over the two catalogs.
//!
//! The canonical catalog is looked up by album name, by track name and by
//! address; the storefront catalog by album name, by track title and by
//! place. The two indexes, by address and by place, are stated as maps
//! over the catalogs. The lookups here read a catalog through and give
//! what the maps hold; `catalog` stores the index by address instead.

use crate::bandcamp;
use crate::hsmusic;
use crate::text::{
    after_first, first_equal, lemma_first_equal_is, same_text, tail_after,
};
use vstd::prelude::*;

verus! {

/// The names of the canonical albums, in order.
pub open spec fn album_names(albums: Seq<hsmusic::Album>) -> Seq<Seq<char>> {
    Seq::new(albums.len(), |i: int| albums[i].name@)
}

/// The names of an album's tracks, in order.
pub open spec fn track_names(tracks: Seq<hsmusic::Track>) -> Seq<Seq<char>> {
    Seq::new(tracks.len(), |i: int| tracks[i].name@)
}

/// The names of the storefront albums, in order.
pub open spec fn listed_album_names(albums: Seq<bandcamp::Album>) -> Seq<Seq<char>> {
    Seq::new(albums.len(), |i: int| albums[i].name@)
}

/// The titles of a storefront album's tracks, in order.
pub open spec fn listed_titles(tracks: Seq<bandcamp::Track>) -> Seq<Seq<char>> {
    Seq::new(tracks.len(), |i: int| tracks[i].name@)
}

/// The titles of a storefront album's tracks without the artist that the
/// storefront puts before some of them: what stands behind the first
/// hyphen between spaces.
pub open spec fn listed_short_titles(tracks: Seq<bandcamp::Track>) -> Seq<Seq<char>> {
    Seq::new(tracks.len(), |i: int| tail_after(tracks[i].name@, " - "@))
}

/// The storefront index: the track at each place, counted from zero, of
/// each album name. Of two albums of one name the first is indexed.
pub open spec fn storefront_index(albums: Seq<bandcamp::Album>) -> Map<
    (Seq<char>, int),
    bandcamp::Track,
> {
    Map::new(
        |key: (Seq<char>, int)|
            {
                let k = first_equal(listed_album_names(albums), key.0);
                0 <= k < albums.len() && 0 <= key.1 < albums[k].tracks.len()
            },
        |key: (Seq<char>, int)|
            albums[first_equal(listed_album_names(albums), key.0)].tracks[key.1],
    )
}

/// Whether an album is one of the four early volumes that were released
/// again later: their tracks' addresses are those of the later release.
pub open spec fn is_legacy(name: Seq<char>) -> bool {
    name == "Homestuck Vol. 1"@ || name == "Homestuck Vol. 2"@ || name == "Homestuck Vol. 3"@
        || name == "Homestuck Vol. 4"@
}

/// Whether the track lists the address.
pub open spec fn lists_url(track: hsmusic::Track, url: Seq<char>) -> bool {
    exists|k: int| 0 <= k < track.urls.len() && (#[trigger] track.urls[k])@ == url
}

/// Index of the last track that lists the address, or `-1`.
pub open spec fn last_listing(tracks: Seq<hsmusic::Track>, url: Seq<char>) -> int
    decreases tracks.len(),
{
    if tracks.len() == 0 {
        -1
    } else if lists_url(tracks.last(), url) {
        tracks.len() - 1
    } else {
        last_listing(tracks.drop_last(), url)
    }
}

/// Whether the album gives the address an entry in the index: it is none of
/// the early volumes, and one of its tracks lists the address.
pub open spec fn indexes_url(album: hsmusic::Album, url: Seq<char>) -> bool {
    !is_legacy(album.name@) && last_listing(album.tracks@, url) >= 0
}

/// Index of the last album that gives the address an entry, or `-1`.
pub open spec fn last_indexing(albums: Seq<hsmusic::Album>, url: Seq<char>) -> int
    decreases albums.len(),
{
    if albums.len() == 0 {
        -1
    } else if indexes_url(albums.last(), url) {
        albums.len() - 1
    } else {
        last_indexing(albums.drop_last(), url)
    }
}

/// The album and track that the index holds for an address: the last track
/// that lists it, in the order of the catalog.
pub open spec fn url_entry(albums: Seq<hsmusic::Album>, url: Seq<char>) -> Option<(int, int)> {
    let i = last_indexing(albums, url);
    if 0 <= i < albums.len() {
        Some((i, last_listing(albums[i].tracks@, url)))
    } else {
        None
    }
}

/// The index of the canonical catalog by address.
pub open spec fn url_index(albums: Seq<hsmusic::Album>) -> Map<Seq<char>, (int, int)> {
    Map::new(
        |url: Seq<char>| url_entry(albums, url) is Some,
        |url: Seq<char>| url_entry(albums, url)->0,
    )
}

pub proof fn lemma_last_listing(tracks: Seq<hsmusic::Track>, url: Seq<char>)
    ensures
        -1 <= last_listing(tracks, url) < tracks.len(),
        last_listing(tracks, url) >= 0 ==> lists_url(tracks[last_listing(tracks, url)], url),
        forall|j: int| last_listing(tracks, url) < j < tracks.len() ==> !lists_url(tracks[j], url),
    decreases tracks.len(),
{
    if tracks.len() > 0 && !lists_url(tracks.last(), url) {
        let r = tracks.drop_last();
        lemma_last_listing(r, url);
        assert forall|j: int| last_listing(tracks, url) < j < tracks.len() implies !lists_url(
            tracks[j],
            url,
        ) by {
            if j < tracks.len() - 1 {
                assert(tracks[j] == r[j]);
            }
        }
    }
}

pub proof fn lemma_last_indexing(albums: Seq<hsmusic::Album>, url: Seq<char>)
    ensures
        -1 <= last_indexing(albums, url) < albums.len(),
        last_indexing(albums, url) >= 0 ==> indexes_url(albums[last_indexing(albums, url)], url),
        forall|i: int| last_indexing(albums, url) < i < albums.len() ==> !indexes_url(albums[i], url),
    decreases albums.len(),
{
    if albums.len() > 0 && !indexes_url(albums.last(), url) {
        let r = albums.drop_last();
        lemma_last_indexing(r, url);
        assert forall|i: int| last_indexing(albums, url) < i < albums.len() implies !indexes_url(
            albums[i],
            url,
        ) by {
            if i < albums.len() - 1 {
                assert(albums[i] == r[i]);
            }
        }
    }
}

/// The last listing is where no later track lists the address.
pub proof fn lemma_last_listing_is(tracks: Seq<hsmusic::Track>, url: Seq<char>, j: int)
    requires
        -1 <= j < tracks.len(),
        j >= 0 ==> lists_url(tracks[j], url),
        forall|k: int| j < k < tracks.len() ==> !lists_url(tracks[k], url),
    ensures
        last_listing(tracks, url) == j,
    decreases tracks.len(),
{
    if tracks.len() > 0 && j < tracks.len() - 1 {
        let r = tracks.drop_last();
        assert(!lists_url(tracks[tracks.len() - 1], url));
        assert forall|k: int| j < k < r.len() implies !lists_url(r[k], url) by {
            assert(r[k] == tracks[k]);
        }
        if j >= 0 {
            assert(r[j] == tracks[j]);
        }
        lemma_last_listing_is(r, url, j);
    }
}

/// The last indexing album is where no later album indexes the address.
pub proof fn lemma_last_indexing_is(albums: Seq<hsmusic::Album>, url: Seq<char>, i: int)
    requires
        -1 <= i < albums.len(),
        i >= 0 ==> indexes_url(albums[i], url),
        forall|k: int| i < k < albums.len() ==> !indexes_url(albums[k], url),
    ensures
        last_indexing(albums, url) == i,
    decreases albums.len(),
{
    if albums.len() > 0 && i < albums.len() - 1 {
        let r = albums.drop_last();
        assert(!indexes_url(albums[albums.len() - 1], url));
        assert forall|k: int| i < k < r.len() implies !indexes_url(r[k], url) by {
            assert(r[k] == albums[k]);
        }
        if i >= 0 {
            assert(r[i] == albums[i]);
        }
        lemma_last_indexing_is(r, url, i);
    }
}

/// What the index holds is a track of the catalog that lists the address
/// and stands in none of the early volumes.
pub proof fn lemma_url_entry_is_listed(albums: Seq<hsmusic::Album>, url: Seq<char>)
    ensures
        url_entry(albums, url) matches Some((i, j)) ==> {
            &&& 0 <= i < albums.len()
            &&& 0 <= j < albums[i].tracks.len()
            &&& !is_legacy(albums[i].name@)
            &&& lists_url(albums[i].tracks[j], url)
        },
{
    lemma_last_indexing(albums, url);
    let i = last_indexing(albums, url);
    if i >= 0 {
        lemma_last_listing(albums[i].tracks@, url);
    }
}

/// Of the tracks that list an address, the index holds the last: a track
/// outside the early volumes that lists the address, with no such track
/// behind it in its album and none in a later album, is the entry.
pub proof fn lemma_last_listed_track_is_indexed(
    albums: Seq<hsmusic::Album>,
    url: Seq<char>,
    i: int,
    j: int,
)
    requires
        0 <= i < albums.len(),
        0 <= j < albums[i].tracks.len(),
        !is_legacy(albums[i].name@),
        lists_url(albums[i].tracks[j], url),
        forall|k: int| j < k < albums[i].tracks.len() ==> !lists_url(albums[i].tracks[k], url),
        forall|a: int, k: int|
            i < a < albums.len() && 0 <= k < albums[a].tracks.len() && !is_legacy(albums[a].name@)
                ==> !lists_url(#[trigger] albums[a].tracks[k], url),
    ensures
        url_entry(albums, url) == Some((i, j)),
        url_index(albums).dom().contains(url),
        url_index(albums)[url] == (i, j),
{
    lemma_last_listing_is(albums[i].tracks@, url, j);
    assert forall|a: int| i < a < albums.len() implies !indexes_url(albums[a], url) by {
        lemma_last_listing(albums[a].tracks@, url);
        let k = last_listing(albums[a].tracks@, url);
        if k >= 0 && !is_legacy(albums[a].name@) {
            assert(lists_url(albums[a].tracks[k], url));
        }
    }
    lemma_last_indexing_is(albums, url, i);
}

/// Index of the first canonical album of the name, or the number of albums.
pub fn find_album(albums: &[hsmusic::Album], name: &str) -> (i: usize)
    ensures
        i == first_equal(album_names(albums@), name@),
        i <= albums.len(),
        i < albums.len() ==> albums[i as int].name@ == name@,
{
    let mut i: usize = 0;
    while i < albums.len() && !same_text(albums[i].name.as_str(), name)
        invariant
            i <= albums.len(),
            forall|k: int| 0 <= k < i ==> album_names(albums@)[k] != name@,
        decreases albums.len() - i,
    {
        i += 1;
    }
    proof {
        lemma_first_equal_is(album_names(albums@), name@, i as int);
    }
    i
}

/// Index of the first track of the name, or the number of tracks.
pub fn find_track(tracks: &[hsmusic::Track], name: &str) -> (i: usize)
    ensures
        i == first_equal(track_names(tracks@), name@),
        i <= tracks.len(),
        i < tracks.len() ==> tracks[i as int].name@ == name@,
{
    let mut i: usize = 0;
    while i < tracks.len() && !same_text(tracks[i].name.as_str(), name)
        invariant
            i <= tracks.len(),
            forall|k: int| 0 <= k < i ==> track_names(tracks@)[k] != name@,
        decreases tracks.len() - i,
    {
        i += 1;
    }
    proof {
        lemma_first_equal_is(track_names(tracks@), name@, i as int);
    }
    i
}

/// Index of the first storefront album of the name, or the number of albums.
pub fn find_listed_album(albums: &[bandcamp::Album], name: &str) -> (i: usize)
    ensures
        i == first_equal(listed_album_names(albums@), name@),
        i <= albums.len(),
{
    let mut i: usize = 0;
    while i < albums.len() && !same_text(albums[i].name.as_str(), name)
        invariant
            i <= albums.len(),
            forall|k: int| 0 <= k < i ==> listed_album_names(albums@)[k] != name@,
        decreases albums.len() - i,
    {
        i += 1;
    }
    proof {
        lemma_first_equal_is(listed_album_names(albums@), name@, i as int);
    }
    i
}

/// Index of the first storefront track of the title, or the number of tracks.
pub fn find_listed_title(tracks: &[bandcamp::Track], title: &str) -> (i: usize)
    ensures
        i == first_equal(listed_titles(tracks@), title@),
        i <= tracks.len(),
{
    let mut i: usize = 0;
    while i < tracks.len() && !same_text(tracks[i].name.as_str(), title)
        invariant
            i <= tracks.len(),
            forall|k: int| 0 <= k < i ==> listed_titles(tracks@)[k] != title@,
        decreases tracks.len() - i,
    {
        i += 1;
    }
    proof {
        lemma_first_equal_is(listed_titles(tracks@), title@, i as int);
    }
    i
}

/// Index of the first storefront track whose title, without the artist
/// before it, is `title`, or the number of tracks.
pub fn find_listed_short_title(tracks: &[bandcamp::Track], title: &str) -> (i: usize)
    ensures
        i == first_equal(listed_short_titles(tracks@), title@),
        i <= tracks.len(),
{
    let mut i: usize = 0;
    while i < tracks.len() && !same_text(
        after_first(tracks[i].name.as_str(), " - ").as_str(),
        title,
    )
        invariant
            i <= tracks.len(),
            forall|k: int| 0 <= k < i ==> listed_short_titles(tracks@)[k] != title@,
        decreases tracks.len() - i,
    {
        i += 1;
    }
    proof {
        lemma_first_equal_is(listed_short_titles(tracks@), title@, i as int);
    }
    i
}

/// Whether the album is one of the four early volumes.
pub fn album_is_legacy(name: &str) -> (b: bool)
    ensures
        b == is_legacy(name@),
{
    same_text(name, "Homestuck Vol. 1") || same_text(name, "Homestuck Vol. 2") || same_text(
        name,
        "Homestuck Vol. 3",
    ) || same_text(name, "Homestuck Vol. 4")
}

/// Whether the track lists the address.
pub fn track_lists_url(track: &hsmusic::Track, url: &str) -> (b: bool)
    ensures
        b == lists_url(*track, url@),
{
    let mut k: usize = 0;
    while k < track.urls.len()
        invariant
            k <= track.urls.len(),
            forall|n: int| 0 <= n < k ==> (#[trigger] track.urls[n])@ != url@,
        decreases track.urls.len() - k,
    {
        if same_text(track.urls[k].as_str(), url) {
            return true;
        }
        k += 1;
    }
    false
}

/// Index of the last track that lists the address, if there is one.
pub fn find_last_listing(tracks: &[hsmusic::Track], url: &str) -> (r: Option<usize>)
    ensures
        match r {
            Some(j) => j == last_listing(tracks@, url@) && j < tracks.len(),
            None => last_listing(tracks@, url@) == -1,
        },
{
    let mut j: usize = tracks.len();
    while j > 0
        invariant
            j <= tracks.len(),
            forall|k: int| j <= k < tracks.len() ==> !lists_url(tracks@[k], url@),
        decreases j,
    {
        if track_lists_url(&tracks[j - 1], url) {
            proof {
                lemma_last_listing_is(tracks@, url@, j - 1);
            }
            return Some(j - 1);
        }
        j -= 1;
    }
    proof {
        lemma_last_listing_is(tracks@, url@, -1);
    }
    None
}

/// The album and track that the index by address holds for `url`.
pub fn lookup_url(albums: &[hsmusic::Album], url: &str) -> (r: Option<(usize, usize)>)
    ensures
        match r {
            Some((i, j)) => url_index(albums@).dom().contains(url@) && url_index(albums@)[url@]
                == (i as int, j as int) && i < albums.len() && j < albums[i as int].tracks.len(),
            None => !url_index(albums@).dom().contains(url@),
        },
        r is Some <==> url_entry(albums@, url@) is Some,
        r matches Some((i, j)) ==> url_entry(albums@, url@) == Some((i as int, j as int)),
{
    let mut i: usize = albums.len();
    while i > 0
        invariant
            i <= albums.len(),
            forall|k: int| i <= k < albums.len() ==> !indexes_url(albums@[k], url@),
        decreases i,
    {
        if !album_is_legacy(albums[i - 1].name.as_str()) {
            match find_last_listing(albums[i - 1].tracks.as_slice(), url) {
                Some(j) => {
                    proof {
                        lemma_last_indexing_is(albums@, url@, i - 1);
                    }
                    return Some((i - 1, j));
                },
                None => {},
            }
        }
        i -= 1;
    }
    proof {
        lemma_last_indexing_is(albums@, url@, -1);
    }
    None
}

/// The track that the storefront index holds for an album name and a
/// place, counted from zero.
pub fn lookup_position<'a>(albums: &'a [bandcamp::Album], album_name: &str, position: usize) -> (r:
    Option<&'a bandcamp::Track>)
    ensures
        match r {
            Some(track) => storefront_index(albums@).dom().contains(
                (album_name@, position as int),
            ) && *track == storefront_index(albums@)[(album_name@, position as int)],
            None => !storefront_index(albums@).dom().contains((album_name@, position as int)),
        },
{
    let k = find_listed_album(albums, album_name);
    if k < albums.len() && position < albums[k].tracks.len() {
        Some(&albums[k].tracks[position])
    } else {
        None
    }
}

/// A way to look an address up in the canonical catalog.
pub trait AddressLookup {
    /// Whether this way of looking up is in step with the catalog.
    spec fn covers(&self, albums: Seq<hsmusic::Album>) -> bool;

    /// The album and track that the index by address holds for `url`.
    fn place_of(&self, albums: &[hsmusic::Album], url: &str) -> (r: Option<(usize, usize)>)
        requires
            self.covers(albums@),
        ensures
            r is Some <==> url_entry(albums@, url@) is Some,
            r matches Some((i, j)) ==> url_entry(albums@, url@) == Some((i as int, j as int)) && i
                < albums.len() && j < albums[i as int].tracks.len(),
    ;
}

/// Looking an address up by reading the catalog through.
pub struct ByScan;

impl AddressLookup for ByScan {
    open spec fn covers(&self, albums: Seq<hsmusic::Album>) -> bool {
        true
    }

    fn place_of(&self, albums: &[hsmusic::Album], url: &str) -> (r: Option<(usize, usize)>) {
        lookup_url(albums, url)
    }
}

} // verus!
