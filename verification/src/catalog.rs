//! The two catalogs with the index by address, made once and then only
//! read.

use crate::bandcamp;
use crate::error::Error;
use crate::hsmusic;
use crate::index::{
    album_is_legacy, is_legacy, lemma_last_indexing_is, lemma_last_listed_track_is_indexed,
    lemma_last_listing_is, lemma_url_entry_is_listed, lists_url, url_index, AddressLookup,
};
use crate::locate::{found_is, in_catalog, place_of_request, resolve, stands_before, track_at};
use crate::text::same_text;
use vstd::prelude::*;

verus! {

/// One entry of the index by address: an address, and the album and track
/// that list it.
#[derive(Debug, PartialEq, Eq)]
pub struct UrlEntry {
    pub url: String,
    pub album: usize,
    pub track: usize,
}

/// The index by address as it is stored: the entries in the order in which
/// the catalog lists the addresses. Of two entries for one address the
/// later one counts.
#[derive(Debug, PartialEq, Eq)]
pub struct UrlIndex {
    pub entries: Vec<UrlEntry>,
}

/// The map that entering the first `n` entries in order gives, a later
/// entry taking the place of an earlier one for the same address.
pub open spec fn map_of_entries(entries: Seq<UrlEntry>, n: int) -> Map<Seq<char>, (int, int)>
    decreases n,
{
    if n <= 0 {
        Map::empty()
    } else {
        map_of_entries(entries, n - 1).insert(
            entries[n - 1].url@,
            (entries[n - 1].album as int, entries[n - 1].track as int),
        )
    }
}

impl View for UrlIndex {
    type V = Map<Seq<char>, (int, int)>;

    open spec fn view(&self) -> Map<Seq<char>, (int, int)> {
        map_of_entries(self.entries@, self.entries.len() as int)
    }
}

/// Index of the last of the first `n` entries that is for the address, or
/// `-1`.
pub open spec fn last_entry_for(entries: Seq<UrlEntry>, n: int, url: Seq<char>) -> int
    decreases n,
{
    if n <= 0 {
        -1
    } else if entries[n - 1].url@ == url {
        n - 1
    } else {
        last_entry_for(entries, n - 1, url)
    }
}

/// The map holds for each address what its last entry says.
pub proof fn lemma_map_holds_last_entry(entries: Seq<UrlEntry>, n: int, url: Seq<char>)
    requires
        0 <= n <= entries.len(),
    ensures
        -1 <= last_entry_for(entries, n, url) < n,
        map_of_entries(entries, n).dom().contains(url) <==> last_entry_for(entries, n, url) >= 0,
        last_entry_for(entries, n, url) >= 0 ==> map_of_entries(entries, n)[url] == (
            entries[last_entry_for(entries, n, url)].album as int,
            entries[last_entry_for(entries, n, url)].track as int,
        ),
    decreases n,
{
    if n > 0 {
        lemma_map_holds_last_entry(entries, n - 1, url);
    }
}

/// The map of the first `n` entries is that of any list that starts with
/// them.
pub proof fn lemma_map_of_prefix(a: Seq<UrlEntry>, b: Seq<UrlEntry>, n: int)
    requires
        0 <= n <= a.len(),
        n <= b.len(),
        forall|m: int| 0 <= m < n ==> a[m] == b[m],
    ensures
        map_of_entries(a, n) == map_of_entries(b, n),
    decreases n,
{
    if n > 0 {
        lemma_map_of_prefix(a, b, n - 1);
    }
}

/// Whether the track lists the address among its first `k`.
pub open spec fn lists_url_within(track: hsmusic::Track, url: Seq<char>, k: int) -> bool {
    exists|m: int| 0 <= m < k && m < track.urls.len() && (#[trigger] track.urls[m])@ == url
}

/// Whether, with the catalog read up to the `k`-th address of the track at
/// `at`, the track at `place` has been seen to list the address. Tracks of
/// the early volumes are passed over.
pub open spec fn seen(
    albums: Seq<hsmusic::Album>,
    place: (int, int),
    url: Seq<char>,
    at: (int, int),
    k: int,
) -> bool {
    &&& in_catalog(place, albums)
    &&& !is_legacy(albums[place.0].name@)
    &&& if stands_before(place, at) {
        lists_url(albums[place.0].tracks[place.1], url)
    } else {
        place == at && lists_url_within(albums[place.0].tracks[place.1], url, k)
    }
}

/// Whether the map holds, for each address, the last track seen to list it,
/// and nothing for an address that no track was seen to list.
pub open spec fn holds_last_seen(
    map: Map<Seq<char>, (int, int)>,
    albums: Seq<hsmusic::Album>,
    at: (int, int),
    k: int,
) -> bool {
    forall|url: Seq<char>|
        #![trigger map.dom().contains(url)]
        {
            &&& map.dom().contains(url) ==> seen(albums, map[url], url, at, k)
            &&& forall|p: (int, int)| #[trigger]
                seen(albums, p, url, at, k) ==> map.dom().contains(url) && !stands_before(
                    map[url],
                    p,
                )
        }
}

/// With the whole catalog read, a map that holds the last track seen for
/// each address is the index by address.
pub proof fn lemma_last_seen_is_the_index(
    map: Map<Seq<char>, (int, int)>,
    albums: Seq<hsmusic::Album>,
)
    requires
        holds_last_seen(map, albums, (albums.len() as int, 0), 0),
    ensures
        map == url_index(albums),
{
    let at = (albums.len() as int, 0int);
    let index = url_index(albums);
    assert forall|url: Seq<char>|
        #![trigger map.dom().contains(url)]
        #![trigger index.dom().contains(url)]
        map.dom().contains(url) == index.dom().contains(url) && (map.dom().contains(url)
            ==> map[url] == index[url]) by {
        if map.dom().contains(url) {
            let p = map[url];
            assert(seen(albums, p, url, at, 0));
            assert forall|n: int| p.1 < n < albums[p.0].tracks.len() implies !lists_url(
                albums[p.0].tracks[n],
                url,
            ) by {
                if lists_url(albums[p.0].tracks[n], url) {
                    assert(seen(albums, (p.0, n), url, at, 0));
                }
            }
            assert forall|a: int, n: int|
                p.0 < a < albums.len() && 0 <= n < albums[a].tracks.len() && !is_legacy(
                    albums[a].name@,
                ) implies !lists_url(#[trigger] albums[a].tracks[n], url) by {
                if lists_url(albums[a].tracks[n], url) {
                    assert(seen(albums, (a, n), url, at, 0));
                }
            }
            lemma_last_listed_track_is_indexed(albums, url, p.0, p.1);
        } else {
            assert forall|a: int| 0 <= a < albums.len() implies !crate::index::indexes_url(
                albums[a],
                url,
            ) by {
                if !is_legacy(albums[a].name@) {
                    assert forall|n: int| 0 <= n < albums[a].tracks.len() implies !lists_url(
                        albums[a].tracks[n],
                        url,
                    ) by {
                        if lists_url(albums[a].tracks[n], url) {
                            assert(seen(albums, (a, n), url, at, 0));
                        }
                    }
                    lemma_last_listing_is(albums[a].tracks@, url, -1);
                }
            }
            lemma_last_indexing_is(albums, url, -1);
        }
    }
    assert(map =~= index);
}

impl UrlIndex {
    /// The index by address of a catalog.
    pub fn build(albums: &[hsmusic::Album]) -> (index: UrlIndex)
        ensures
            index@ == url_index(albums@),
    {
        let mut entries: Vec<UrlEntry> = Vec::new();
        let mut i: usize = 0;
        while i < albums.len()
            invariant
                i <= albums.len(),
                holds_last_seen(
                    map_of_entries(entries@, entries.len() as int),
                    albums@,
                    (i as int, 0),
                    0,
                ),
            decreases albums.len() - i,
        {
            let album = &albums[i];
            if !album_is_legacy(album.name.as_str()) {
                let mut j: usize = 0;
                while j < album.tracks.len()
                    invariant
                        i < albums.len(),
                        *album == albums@[i as int],
                        !is_legacy(album.name@),
                        j <= album.tracks.len(),
                        holds_last_seen(
                            map_of_entries(entries@, entries.len() as int),
                            albums@,
                            (i as int, j as int),
                            0,
                        ),
                    decreases album.tracks.len() - j,
                {
                    let track = &album.tracks[j];
                    let mut k: usize = 0;
                    while k < track.urls.len()
                        invariant
                            i < albums.len(),
                            *album == albums@[i as int],
                            !is_legacy(album.name@),
                            j < album.tracks.len(),
                            *track == album.tracks@[j as int],
                            k <= track.urls.len(),
                            holds_last_seen(
                                map_of_entries(entries@, entries.len() as int),
                                albums@,
                                (i as int, j as int),
                                k as int,
                            ),
                        decreases track.urls.len() - k,
                    {
                        let ghost before = entries@;
                        let ghost old_map = map_of_entries(before, before.len() as int);
                        entries.push(UrlEntry { url: track.urls[k].clone(), album: i, track: j });
                        proof {
                            lemma_map_of_prefix(before, entries@, before.len() as int);
                            let at = (i as int, j as int);
                            let added = track.urls[k as int]@;
                            let new_map = map_of_entries(entries@, entries.len() as int);
                            assert(new_map == old_map.insert(added, at));
                            lemma_entry_added(old_map, albums@, at, k as int);
                        }
                        k += 1;
                    }
                    proof {
                        lemma_track_read(
                            map_of_entries(entries@, entries.len() as int),
                            albums@,
                            (i as int, j as int),
                        );
                    }
                    j += 1;
                }
                proof {
                    lemma_album_read(
                        map_of_entries(entries@, entries.len() as int),
                        albums@,
                        i as int,
                    );
                }
            } else {
                proof {
                    lemma_album_passed_over(
                        map_of_entries(entries@, entries.len() as int),
                        albums@,
                        i as int,
                    );
                }
            }
            i += 1;
        }
        proof {
            lemma_last_seen_is_the_index(map_of_entries(entries@, entries.len() as int), albums@);
        }
        UrlIndex { entries }
    }

    /// The album and track that the index holds for an address.
    pub fn get(&self, url: &str) -> (r: Option<(usize, usize)>)
        ensures
            match r {
                Some((i, j)) => self@.dom().contains(url@) && self@[url@] == (i as int, j as int),
                None => !self@.dom().contains(url@),
            },
    {
        let mut n: usize = self.entries.len();
        while n > 0
            invariant
                n <= self.entries.len(),
                last_entry_for(self.entries@, self.entries.len() as int, url@) == last_entry_for(
                    self.entries@,
                    n as int,
                    url@,
                ),
            decreases n,
        {
            if same_text(self.entries[n - 1].url.as_str(), url) {
                proof {
                    lemma_map_holds_last_entry(self.entries@, self.entries.len() as int, url@);
                }
                return Some((self.entries[n - 1].album, self.entries[n - 1].track));
            }
            n -= 1;
        }
        proof {
            lemma_map_holds_last_entry(self.entries@, self.entries.len() as int, url@);
        }
        None
    }
}

/// Entering the next address of the track being read keeps the map in step.
proof fn lemma_entry_added(
    map: Map<Seq<char>, (int, int)>,
    albums: Seq<hsmusic::Album>,
    at: (int, int),
    k: int,
)
    requires
        in_catalog(at, albums),
        !is_legacy(albums[at.0].name@),
        0 <= k < albums[at.0].tracks[at.1].urls.len(),
        holds_last_seen(map, albums, at, k),
    ensures
        holds_last_seen(map.insert(albums[at.0].tracks[at.1].urls[k]@, at), albums, at, k + 1),
{
    let track = albums[at.0].tracks[at.1];
    let added = track.urls[k]@;
    let new_map = map.insert(added, at);
    assert forall|url: Seq<char>|
        #![trigger new_map.dom().contains(url)]
        {
            &&& new_map.dom().contains(url) ==> seen(albums, new_map[url], url, at, k + 1)
            &&& forall|p: (int, int)| #[trigger]
                seen(albums, p, url, at, k + 1) ==> new_map.dom().contains(url) && !stands_before(
                    new_map[url],
                    p,
                )
        } by {
        assert(map.dom().contains(url) || !map.dom().contains(url));
        if url == added {
            assert(track.urls[k]@ == url);
            assert(lists_url_within(track, url, k + 1));
            assert(new_map[url] == at);
            assert(seen(albums, at, url, at, k + 1));
            assert forall|p: (int, int)| #[trigger]
                seen(albums, p, url, at, k + 1) implies !stands_before(at, p) by {}
        } else {
            assert(new_map.dom().contains(url) == map.dom().contains(url));
            if map.dom().contains(url) {
                let p = map[url];
                assert(new_map[url] == p);
                assert(seen(albums, p, url, at, k));
                if !stands_before(p, at) {
                    lemma_within_grows(track, url, k);
                }
                assert(seen(albums, p, url, at, k + 1));
            }
            assert forall|p: (int, int)| #[trigger]
                seen(albums, p, url, at, k + 1) implies new_map.dom().contains(url)
                && !stands_before(new_map[url], p) by {
                if !stands_before(p, at) {
                    lemma_within_without_last(track, url, k);
                }
                assert(seen(albums, p, url, at, k));
            }
        }
    }
}

/// An address among the first `k` is among the first `k + 1`.
proof fn lemma_within_grows(track: hsmusic::Track, url: Seq<char>, k: int)
    requires
        lists_url_within(track, url, k),
    ensures
        lists_url_within(track, url, k + 1),
{
    let m = choose|m: int| 0 <= m < k && m < track.urls.len() && (#[trigger] track.urls[m])@ == url;
    assert(0 <= m < k + 1 && m < track.urls.len() && track.urls[m]@ == url);
}

/// An address among the first `k + 1` that is not the last of them is
/// among the first `k`.
proof fn lemma_within_without_last(track: hsmusic::Track, url: Seq<char>, k: int)
    requires
        0 <= k < track.urls.len(),
        track.urls[k]@ != url,
        lists_url_within(track, url, k + 1),
    ensures
        lists_url_within(track, url, k),
{
    let m = choose|m: int|
        0 <= m < k + 1 && m < track.urls.len() && (#[trigger] track.urls[m])@ == url;
    assert(0 <= m < k && m < track.urls.len() && track.urls[m]@ == url);
}

/// With every address of a track read, reading goes on at the next track.
proof fn lemma_track_read(
    map: Map<Seq<char>, (int, int)>,
    albums: Seq<hsmusic::Album>,
    at: (int, int),
)
    requires
        in_catalog(at, albums),
        holds_last_seen(map, albums, at, albums[at.0].tracks[at.1].urls.len() as int),
    ensures
        holds_last_seen(map, albums, (at.0, at.1 + 1), 0),
{
    let track = albums[at.0].tracks[at.1];
    let len = track.urls.len() as int;
    let next = (at.0, at.1 + 1);
    assert forall|p: (int, int), url: Seq<char>|
        seen(albums, p, url, at, len) == seen(albums, p, url, next, 0) by {
        if p == at && in_catalog(p, albums) {
            if lists_url(track, url) {
                let m = choose|m: int|
                    0 <= m < track.urls.len() && (#[trigger] track.urls[m])@ == url;
                assert(0 <= m < len && m < track.urls.len() && track.urls[m]@ == url);
                assert(lists_url_within(track, url, len));
            }
            if lists_url_within(track, url, len) {
                let m = choose|m: int|
                    0 <= m < len && m < track.urls.len() && (#[trigger] track.urls[m])@ == url;
                assert(0 <= m < track.urls.len() && track.urls[m]@ == url);
                assert(lists_url(track, url));
            }
            assert(stands_before(at, next));
        }
    }
    assert forall|url: Seq<char>|
        #![trigger map.dom().contains(url)]
        {
            &&& map.dom().contains(url) ==> seen(albums, map[url], url, next, 0)
            &&& forall|p: (int, int)| #[trigger]
                seen(albums, p, url, next, 0) ==> map.dom().contains(url) && !stands_before(
                    map[url],
                    p,
                )
        } by {
        assert(map.dom().contains(url) || !map.dom().contains(url));
        if map.dom().contains(url) {
            assert(seen(albums, map[url], url, at, len));
        }
        assert forall|p: (int, int)| #[trigger] seen(albums, p, url, next, 0) implies seen(
            albums,
            p,
            url,
            at,
            len,
        ) by {}
    }
}

/// With every track of an album read, reading goes on at the next album.
proof fn lemma_album_read(map: Map<Seq<char>, (int, int)>, albums: Seq<hsmusic::Album>, i: int)
    requires
        0 <= i < albums.len(),
        holds_last_seen(map, albums, (i, albums[i].tracks.len() as int), 0),
    ensures
        holds_last_seen(map, albums, (i + 1, 0), 0),
{
    let at = (i, albums[i].tracks.len() as int);
    let next = (i + 1, 0int);
    assert forall|p: (int, int), url: Seq<char>|
        seen(albums, p, url, at, 0) == seen(albums, p, url, next, 0) by {}
    assert forall|url: Seq<char>|
        #![trigger map.dom().contains(url)]
        {
            &&& map.dom().contains(url) ==> seen(albums, map[url], url, next, 0)
            &&& forall|p: (int, int)| #[trigger]
                seen(albums, p, url, next, 0) ==> map.dom().contains(url) && !stands_before(
                    map[url],
                    p,
                )
        } by {
        assert(map.dom().contains(url) || !map.dom().contains(url));
        if map.dom().contains(url) {
            assert(seen(albums, map[url], url, at, 0));
        }
        assert forall|p: (int, int)| #[trigger] seen(albums, p, url, next, 0) implies seen(
            albums,
            p,
            url,
            at,
            0,
        ) by {}
    }
}

/// One of the early volumes is passed over whole.
proof fn lemma_album_passed_over(
    map: Map<Seq<char>, (int, int)>,
    albums: Seq<hsmusic::Album>,
    i: int,
)
    requires
        0 <= i < albums.len(),
        is_legacy(albums[i].name@),
        holds_last_seen(map, albums, (i, 0), 0),
    ensures
        holds_last_seen(map, albums, (i + 1, 0), 0),
{
    let at = (i, 0int);
    let next = (i + 1, 0int);
    assert forall|p: (int, int), url: Seq<char>|
        seen(albums, p, url, at, 0) == seen(albums, p, url, next, 0) by {}
    assert forall|url: Seq<char>|
        #![trigger map.dom().contains(url)]
        {
            &&& map.dom().contains(url) ==> seen(albums, map[url], url, next, 0)
            &&& forall|p: (int, int)| #[trigger]
                seen(albums, p, url, next, 0) ==> map.dom().contains(url) && !stands_before(
                    map[url],
                    p,
                )
        } by {
        assert(map.dom().contains(url) || !map.dom().contains(url));
        if map.dom().contains(url) {
            assert(seen(albums, map[url], url, at, 0));
        }
        assert forall|p: (int, int)| #[trigger] seen(albums, p, url, next, 0) implies seen(
            albums,
            p,
            url,
            at,
            0,
        ) by {}
    }
}

impl AddressLookup for UrlIndex {
    open spec fn covers(&self, albums: Seq<hsmusic::Album>) -> bool {
        self@ == url_index(albums)
    }

    fn place_of(&self, albums: &[hsmusic::Album], url: &str) -> (r: Option<(usize, usize)>) {
        proof {
            lemma_url_entry_is_listed(albums@, url@);
        }
        self.get(url)
    }
}

/// The storefront catalog and the canonical catalog with the index by
/// address of the latter. The index is made when the catalog is, and
/// nothing changes either afterwards.
pub struct Catalog {
    storefront: Vec<bandcamp::Album>,
    canonical: Vec<hsmusic::Album>,
    urls: UrlIndex,
}

impl Catalog {
    #[verifier::type_invariant]
    spec fn in_step(&self) -> bool {
        self.urls@ == url_index(self.canonical@)
    }

    /// The albums of the storefront catalog.
    pub closed spec fn listed(&self) -> Seq<bandcamp::Album> {
        self.storefront@
    }

    /// The albums of the canonical catalog.
    pub closed spec fn albums(&self) -> Seq<hsmusic::Album> {
        self.canonical@
    }

    /// The two catalogs with the index by address.
    pub fn new(storefront: Vec<bandcamp::Album>, canonical: Vec<hsmusic::Album>) -> (catalog:
        Catalog)
        ensures
            catalog.listed() == storefront@,
            catalog.albums() == canonical@,
    {
        let urls = UrlIndex::build(canonical.as_slice());
        Catalog { storefront, canonical, urls }
    }

    /// The albums of the storefront catalog.
    pub fn storefront(&self) -> (r: &[bandcamp::Album])
        ensures
            r@ == self.listed(),
    {
        self.storefront.as_slice()
    }

    /// The albums of the canonical catalog.
    pub fn canonical(&self) -> (r: &[hsmusic::Album])
        ensures
            r@ == self.albums(),
    {
        self.canonical.as_slice()
    }

    /// The canonical album and track that a request speaks of.
    pub fn resolve(&self, album_name: &str, title: &str, track_num: usize) -> (r: Result<
        (&hsmusic::Album, &hsmusic::Track),
        Error,
    >)
        ensures
            found_is(
                r,
                self.albums(),
                resolve(album_name@, title@, track_num as nat, self.listed(), self.albums()),
            ),
    {
        proof {
            use_type_invariant(self);
        }
        let albums = self.canonical.as_slice();
        match place_of_request(
            &self.urls,
            album_name,
            title,
            track_num,
            self.storefront.as_slice(),
            albums,
        ) {
            Ok(place) => Ok(track_at(albums, place)),
            Err(e) => Err(e),
        }
    }
}

} // verus!
