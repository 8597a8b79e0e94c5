//! Finding the canonical track that a file, a storefront listing or a tag
//! speaks of.
//!
//! A request names an album, a title and a place in the album, as some
//! other catalog has them. Three ways are tried in order: the table of
//! known exceptions, the canonical album of that name, and the storefront
//! album of that name, whose track's address is looked up in the canonical
//! catalog.

use crate::bandcamp;
use crate::error::{Error, ErrorView};
use crate::hsmusic;
use crate::index::{
    album_names, find_album, find_listed_album, find_listed_short_title, find_listed_title,
    find_track, listed_album_names, listed_short_titles, listed_titles, track_names, url_entry,
    AddressLookup, ByScan,
};
use crate::text::{first_equal, lemma_first_equal_is, same_text, strip_suffix, strip_suffix_all};
use vstd::prelude::*;

verus! {

/// What a known exception says to do.
#[derive(Debug, PartialEq, Eq)]
pub enum Action {
    /// Take the first canonical track of this name, wherever it stands.
    TrackNamed(String),
    /// Look the request up under this album name.
    AlbumRenamed(String),
}

/// A known exception: a request for this album, and for this title where
/// one is given, is answered as `action` says.
#[derive(Debug, PartialEq, Eq)]
pub struct Exception {
    pub album: String,
    pub title: Option<String>,
    pub action: Action,
}

/// An [`Action`] as a mathematical value.
pub ghost enum ActionView {
    TrackNamed(Seq<char>),
    AlbumRenamed(Seq<char>),
}

/// An [`Exception`] as a mathematical value.
pub ghost struct ExceptionView {
    pub album: Seq<char>,
    pub title: Option<Seq<char>>,
    pub action: ActionView,
}

impl View for Action {
    type V = ActionView;

    open spec fn view(&self) -> ActionView {
        match *self {
            Action::TrackNamed(name) => ActionView::TrackNamed(name@),
            Action::AlbumRenamed(name) => ActionView::AlbumRenamed(name@),
        }
    }
}

impl DeepView for Action {
    type V = ActionView;

    open spec fn deep_view(&self) -> ActionView {
        self.view()
    }
}

impl View for Exception {
    type V = ExceptionView;

    open spec fn view(&self) -> ExceptionView {
        ExceptionView {
            album: self.album@,
            title: self.title.deep_view(),
            action: self.action@,
        }
    }
}

impl DeepView for Exception {
    type V = ExceptionView;

    open spec fn deep_view(&self) -> ExceptionView {
        self.view()
    }
}

/// The table of known exceptions. One track of a late double volume stands
/// at another place in the storefront's listing than in the catalog, and
/// one soundtrack goes by another name there.
pub open spec fn exception_table() -> Seq<ExceptionView> {
    seq![
        ExceptionView {
            album: "Homestuck Vol. 9-10 (with [S] Collide. and Act 7)"@,
            title: Some("Frustracean"@),
            action: ActionView::TrackNamed("Frustracean"@),
        },
        ExceptionView {
            album: "HIVESWAP: ACT 2 Original Soundtrack"@,
            title: None,
            action: ActionView::AlbumRenamed("Hiveswap Act 2 OST"@),
        },
    ]
}

/// Whether the exception speaks of a request for this album and title.
pub open spec fn applies(exception: ExceptionView, album: Seq<char>, title: Seq<char>) -> bool {
    exception.album == album && (exception.title is None || exception.title == Some(title))
}

/// What the first exception of the table that speaks of the request says
/// to do.
pub open spec fn exception_for(table: Seq<ExceptionView>, album: Seq<char>, title: Seq<char>)
    -> Option<ActionView>
    decreases table.len(),
{
    if table.len() == 0 {
        None
    } else if applies(table[0], album, title) {
        Some(table[0].action)
    } else {
        exception_for(table.drop_first(), album, title)
    }
}

/// The name under which the canonical catalog has a storefront album: one
/// album is renamed, and the note that marks an album as unofficial is
/// left out.
pub open spec fn canonical_name(album: Seq<char>) -> Seq<char> {
    if album == "Homestuck - Strife!"@ {
        "Strife!"@
    } else {
        strip_suffix_all(album, " [UNOFFICIAL ALBUM]"@)
    }
}

/// Whether the album has a track of the name.
pub open spec fn has_track_named(album: hsmusic::Album, name: Seq<char>) -> bool {
    first_equal(track_names(album.tracks@), name) < album.tracks.len()
}

/// Index of the first album that has a track of the name, or the number of
/// albums.
pub open spec fn first_album_with_track(albums: Seq<hsmusic::Album>, name: Seq<char>) -> int
    decreases albums.len(),
{
    if albums.len() == 0 || has_track_named(albums[0], name) {
        0
    } else {
        1 + first_album_with_track(albums.drop_first(), name)
    }
}

/// The first track of the name, in the order of the catalog.
pub open spec fn first_track_named(albums: Seq<hsmusic::Album>, name: Seq<char>) -> Option<
    (int, int),
> {
    let i = first_album_with_track(albums, name);
    if 0 <= i < albums.len() {
        Some((i, first_equal(track_names(albums[i].tracks@), name)))
    } else {
        None
    }
}

/// The track of a storefront album that a request speaks of: the first of
/// the title; without one, the first whose title without the artist before
/// it is the title; without one, the track at the place.
pub open spec fn listed_track(tracks: Seq<bandcamp::Track>, title: Seq<char>, track_num: nat)
    -> Option<int> {
    let exact = first_equal(listed_titles(tracks), title);
    let short = first_equal(listed_short_titles(tracks), title);
    if 0 <= exact < tracks.len() {
        Some(exact)
    } else if 0 <= short < tracks.len() {
        Some(short)
    } else if 1 <= track_num <= tracks.len() {
        Some(track_num - 1)
    } else {
        None
    }
}

/// The storefront track that a request speaks of: none where the
/// storefront has no album of the name, and a failure where it has the
/// album but not the track.
pub open spec fn storefront_track(
    album_name: Seq<char>,
    title: Seq<char>,
    track_num: nat,
    albums: Seq<bandcamp::Album>,
) -> Result<Option<(int, int)>, ErrorView> {
    let k = first_equal(listed_album_names(albums), album_name);
    if 0 <= k < albums.len() {
        match listed_track(albums[k].tracks@, title, track_num) {
            Some(t) => Ok(Some((k, t))),
            None => Err(ErrorView::TrackNotFound { album: album_name, title }),
        }
    } else {
        Ok(None)
    }
}

/// The canonical track that lists the address of a storefront track.
pub open spec fn canonical_of_listed(track: bandcamp::Track, albums: Seq<hsmusic::Album>)
    -> Result<(int, int), ErrorView> {
    match url_entry(albums, track.url@) {
        Some(place) => Ok(place),
        None => Err(ErrorView::UrlNotIndexed { track: track.name@, url: track.url@ }),
    }
}

/// The third way: through the storefront album of the name.
pub open spec fn resolve_by_storefront(
    album_name: Seq<char>,
    title: Seq<char>,
    track_num: nat,
    storefront: Seq<bandcamp::Album>,
    canonical: Seq<hsmusic::Album>,
) -> Result<(int, int), ErrorView> {
    match storefront_track(album_name, title, track_num, storefront) {
        Ok(Some((k, t))) => canonical_of_listed(storefront[k].tracks[t], canonical),
        Ok(None) => Err(ErrorView::AlbumNotFound { album: album_name, title }),
        Err(e) => Err(e),
    }
}

/// The second way, within the canonical album at index `i`: its first
/// track of the title or, without one, the track at the place.
pub open spec fn resolve_in_album(
    album: hsmusic::Album,
    i: int,
    title: Seq<char>,
    track_num: nat,
) -> Result<(int, int), ErrorView> {
    let j = first_equal(track_names(album.tracks@), title);
    if 0 <= j < album.tracks.len() {
        Ok((i, j))
    } else if 1 <= track_num <= album.tracks.len() {
        Ok((i, track_num - 1))
    } else {
        Err(
            ErrorView::PositionOutOfRange { album: album.name@, title, position: track_num },
        )
    }
}

/// The second and third way: the canonical album of the name where there
/// is one, and the storefront where there is none.
pub open spec fn resolve_by_name(
    album_name: Seq<char>,
    title: Seq<char>,
    track_num: nat,
    storefront: Seq<bandcamp::Album>,
    canonical: Seq<hsmusic::Album>,
) -> Result<(int, int), ErrorView> {
    let i = first_equal(album_names(canonical), canonical_name(album_name));
    if 0 <= i < canonical.len() {
        resolve_in_album(canonical[i], i, title, track_num)
    } else {
        resolve_by_storefront(album_name, title, track_num, storefront, canonical)
    }
}

/// What the table of exceptions gives for a request: nothing where no
/// exception speaks of it or the track it names is not in the catalog, and
/// else the track, or the failure of looking it up under the other name.
pub open spec fn resolve_by_exception(
    album_name: Seq<char>,
    title: Seq<char>,
    track_num: nat,
    storefront: Seq<bandcamp::Album>,
    canonical: Seq<hsmusic::Album>,
) -> Result<Option<(int, int)>, ErrorView> {
    match exception_for(exception_table(), album_name, title) {
        Some(ActionView::TrackNamed(name)) => Ok(first_track_named(canonical, name)),
        Some(ActionView::AlbumRenamed(name)) => match resolve_by_name(
            name,
            title,
            track_num,
            storefront,
            canonical,
        ) {
            Ok(place) => Ok(Some(place)),
            Err(e) => Err(e),
        },
        None => Ok(None),
    }
}

/// The canonical album and track that a request speaks of, as indices into
/// the canonical catalog.
pub open spec fn resolve(
    album_name: Seq<char>,
    title: Seq<char>,
    track_num: nat,
    storefront: Seq<bandcamp::Album>,
    canonical: Seq<hsmusic::Album>,
) -> Result<(int, int), ErrorView> {
    match resolve_by_exception(album_name, title, track_num, storefront, canonical) {
        Ok(Some(place)) => Ok(place),
        Ok(None) => resolve_by_name(album_name, title, track_num, storefront, canonical),
        Err(e) => Err(e),
    }
}

/// Whether `place` is a track of the catalog.
pub open spec fn in_catalog(place: (int, int), albums: Seq<hsmusic::Album>) -> bool {
    0 <= place.0 < albums.len() && 0 <= place.1 < albums[place.0].tracks.len()
}

/// A place found, as a mathematical value.
pub open spec fn place_view(r: Result<(usize, usize), Error>) -> Result<(int, int), ErrorView> {
    match r {
        Ok((i, j)) => Ok((i as int, j as int)),
        Err(e) => Err(e@),
    }
}

/// A place that may have been found, as a mathematical value.
pub open spec fn optional_place_view(r: Result<Option<(usize, usize)>, Error>) -> Result<
    Option<(int, int)>,
    ErrorView,
> {
    match r {
        Ok(Some((i, j))) => Ok(Some((i as int, j as int))),
        Ok(None) => Ok(None),
        Err(e) => Err(e@),
    }
}

/// The table of known exceptions.
pub fn exceptions() -> (table: Vec<Exception>)
    ensures
        table.deep_view() == exception_table(),
{
    let mut table: Vec<Exception> = Vec::new();
    table.push(
        Exception {
            album: "Homestuck Vol. 9-10 (with [S] Collide. and Act 7)".to_owned(),
            title: Some("Frustracean".to_owned()),
            action: Action::TrackNamed("Frustracean".to_owned()),
        },
    );
    table.push(
        Exception {
            album: "HIVESWAP: ACT 2 Original Soundtrack".to_owned(),
            title: None,
            action: Action::AlbumRenamed("Hiveswap Act 2 OST".to_owned()),
        },
    );
    proof {
        assert(table.deep_view() =~= exception_table());
    }
    table
}

/// Index of the first exception of the table that speaks of the request,
/// or the table's length.
pub fn find_exception(table: &Vec<Exception>, album_name: &str, title: &str) -> (i: usize)
    ensures
        i <= table.len(),
        i < table.len() ==> exception_for(table.deep_view(), album_name@, title@) == Some(
            table[i as int].action@,
        ),
        i == table.len() ==> exception_for(table.deep_view(), album_name@, title@) is None,
{
    let mut i: usize = 0;
    proof {
        assert(table.deep_view().skip(0) =~= table.deep_view());
    }
    while i < table.len()
        invariant
            i <= table.len(),
            exception_for(table.deep_view(), album_name@, title@) == exception_for(
                table.deep_view().skip(i as int),
                album_name@,
                title@,
            ),
        decreases table.len() - i,
    {
        let ghost rest = table.deep_view().skip(i as int);
        proof {
            assert(rest[0] == table[i as int]@);
            assert(rest.drop_first() =~= table.deep_view().skip(i + 1));
        }
        let entry = &table[i];
        let right_title = match &entry.title {
            Some(wanted) => same_text(wanted.as_str(), title),
            None => true,
        };
        if same_text(entry.album.as_str(), album_name) && right_title {
            return i;
        }
        i += 1;
    }
    i
}

/// The name under which the canonical catalog has a storefront album.
pub fn bandcamp_to_hsmusic_name(album: &str) -> (r: String)
    ensures
        r@ == canonical_name(album@),
{
    if same_text(album, "Homestuck - Strife!") {
        "Strife!".to_owned()
    } else {
        strip_suffix(album, " [UNOFFICIAL ALBUM]")
    }
}

/// The first album with a track of the name is where one is.
pub proof fn lemma_first_album_with_track_is(albums: Seq<hsmusic::Album>, name: Seq<char>, i: int)
    requires
        0 <= i <= albums.len(),
        forall|a: int| 0 <= a < i ==> !has_track_named(#[trigger] albums[a], name),
        i < albums.len() ==> has_track_named(albums[i], name),
    ensures
        first_album_with_track(albums, name) == i,
    decreases i,
{
    if i > 0 {
        let r = albums.drop_first();
        assert forall|a: int| 0 <= a < i - 1 implies !has_track_named(#[trigger] r[a], name) by {
            assert(r[a] == albums[a + 1]);
        }
        assert(!has_track_named(albums[0], name));
        lemma_first_album_with_track_is(r, name, i - 1);
    }
}

/// A track of the name with none of the name before it in the catalog is
/// the first of the name.
pub proof fn lemma_first_track_named_is(
    albums: Seq<hsmusic::Album>,
    name: Seq<char>,
    place: (int, int),
)
    requires
        in_catalog(place, albums),
        albums[place.0].tracks[place.1].name@ == name,
        forall|a: int, k: int|
            in_catalog((a, k), albums) && stands_before((a, k), place) ==> (
            #[trigger] albums[a].tracks[k]).name@ != name,
    ensures
        first_track_named(albums, name) == Some(place),
{
    let (i, j) = place;
    assert forall|a: int| 0 <= a < i implies !has_track_named(#[trigger] albums[a], name) by {
        let names = track_names(albums[a].tracks@);
        assert forall|k: int| 0 <= k < names.len() implies names[k] != name by {
            assert(in_catalog((a, k), albums) && stands_before((a, k), place));
            assert(albums[a].tracks[k].name@ != name);
        }
        lemma_first_equal_is(names, name, names.len() as int);
    }
    let names = track_names(albums[i].tracks@);
    assert forall|k: int| 0 <= k < j implies names[k] != name by {
        assert(in_catalog((i, k), albums) && stands_before((i, k), place));
        assert(albums[i].tracks[k].name@ != name);
    }
    lemma_first_equal_is(names, name, j);
    lemma_first_album_with_track_is(albums, name, i);
}

/// Where no track has the name, there is no first of the name.
pub proof fn lemma_no_track_named(albums: Seq<hsmusic::Album>, name: Seq<char>)
    requires
        forall|a: int, k: int|
            in_catalog((a, k), albums) ==> (#[trigger] albums[a].tracks[k]).name@ != name,
    ensures
        first_track_named(albums, name) is None,
{
    assert forall|a: int| 0 <= a < albums.len() implies !has_track_named(
        #[trigger] albums[a],
        name,
    ) by {
        let names = track_names(albums[a].tracks@);
        assert forall|k: int| 0 <= k < names.len() implies names[k] != name by {
            assert(in_catalog((a, k), albums));
            assert(albums[a].tracks[k].name@ != name);
        }
        lemma_first_equal_is(names, name, names.len() as int);
    }
    lemma_first_album_with_track_is(albums, name, albums.len() as int);
}

/// The first track of the name, in the order of the catalog.
pub fn locate_track_named(albums: &[hsmusic::Album], name: &str) -> (r: Option<(usize, usize)>)
    ensures
        match r {
            Some((i, j)) => first_track_named(albums@, name@) == Some((i as int, j as int))
                && in_catalog((i as int, j as int), albums@),
            None => first_track_named(albums@, name@) is None,
        },
{
    let has_name = |album: &hsmusic::Album, track: &hsmusic::Track| -> (b: bool)
        ensures
            b == (track.name@ == name@),
        { same_text(track.name.as_str(), name) };
    let r = locate_hsmusic(albums, has_name);
    proof {
        match r {
            Some((i, j)) => {
                let place = (i as int, j as int);
                assert(answers(has_name, albums@, place, true));
                assert forall|a: int, k: int|
                    in_catalog((a, k), albums@) && stands_before((a, k), place) implies (
                #[trigger] albums@[a].tracks[k]).name@ != name@ by {
                    assert(answers(has_name, albums@, (a, k), false));
                }
                lemma_first_track_named_is(albums@, name@, place);
            },
            None => {
                assert forall|a: int, k: int| in_catalog((a, k), albums@) implies (
                #[trigger] albums@[a].tracks[k]).name@ != name@ by {
                    assert(answers(has_name, albums@, (a, k), false));
                }
                lemma_no_track_named(albums@, name@);
            },
        }
    }
    r
}

/// The place of the storefront track that a request speaks of.
pub fn locate_listed_track(
    album_name: &str,
    title: &str,
    track_num: usize,
    albums: &[bandcamp::Album],
) -> (r: Result<Option<(usize, usize)>, Error>)
    ensures
        optional_place_view(r) == storefront_track(album_name@, title@, track_num as nat, albums@),
        r matches Ok(Some((k, t))) ==> k < albums.len() && t < albums[k as int].tracks.len(),
{
    let k = find_listed_album(albums, album_name);
    if k >= albums.len() {
        return Ok(None);
    }
    let tracks = albums[k].tracks.as_slice();
    let exact = find_listed_title(tracks, title);
    if exact < tracks.len() {
        return Ok(Some((k, exact)));
    }
    let short = find_listed_short_title(tracks, title);
    if short < tracks.len() {
        return Ok(Some((k, short)));
    }
    if 1 <= track_num && track_num <= tracks.len() {
        return Ok(Some((k, track_num - 1)));
    }
    Err(Error::TrackNotFound { album: album_name.to_owned(), title: title.to_owned() })
}

/// The place of the canonical track that lists the address of a storefront
/// track.
pub(crate) fn place_of_listed<L: AddressLookup>(
    lookup: &L,
    track: &bandcamp::Track,
    albums: &[hsmusic::Album],
) -> (r: Result<(usize, usize), Error>)
    requires
        lookup.covers(albums@),
    ensures
        place_view(r) == canonical_of_listed(*track, albums@),
        r matches Ok(place) ==> in_catalog((place.0 as int, place.1 as int), albums@),
{
    match lookup.place_of(albums, track.url.as_str()) {
        Some(place) => Ok(place),
        None => Err(Error::UrlNotIndexed { track: track.name.clone(), url: track.url.clone() }),
    }
}

/// The place that the second and third way give for a request.
pub(crate) fn place_by_name<L: AddressLookup>(
    lookup: &L,
    album_name: &str,
    title: &str,
    track_num: usize,
    bandcamp_albums: &[bandcamp::Album],
    hsmusic_albums: &[hsmusic::Album],
) -> (r: Result<(usize, usize), Error>)
    requires
        lookup.covers(hsmusic_albums@),
    ensures
        place_view(r) == resolve_by_name(
            album_name@,
            title@,
            track_num as nat,
            bandcamp_albums@,
            hsmusic_albums@,
        ),
        r matches Ok(place) ==> in_catalog((place.0 as int, place.1 as int), hsmusic_albums@),
{
    let wanted = bandcamp_to_hsmusic_name(album_name);
    let i = find_album(hsmusic_albums, wanted.as_str());
    if i < hsmusic_albums.len() {
        let album = &hsmusic_albums[i];
        let j = find_track(album.tracks.as_slice(), title);
        if j < album.tracks.len() {
            Ok((i, j))
        } else if 1 <= track_num && track_num <= album.tracks.len() {
            Ok((i, track_num - 1))
        } else {
            Err(
                Error::PositionOutOfRange {
                    album: album.name.clone(),
                    title: title.to_owned(),
                    position: track_num,
                },
            )
        }
    } else {
        match locate_listed_track(album_name, title, track_num, bandcamp_albums) {
            Ok(Some((k, t))) => place_of_listed(
                lookup,
                &bandcamp_albums[k].tracks[t],
                hsmusic_albums,
            ),
            Ok(None) => Err(
                Error::AlbumNotFound { album: album_name.to_owned(), title: title.to_owned() },
            ),
            Err(e) => Err(e),
        }
    }
}

/// The place that the table of exceptions gives for a request.
pub(crate) fn place_by_exception<L: AddressLookup>(
    lookup: &L,
    album_name: &str,
    title: &str,
    track_num: usize,
    bandcamp_albums: &[bandcamp::Album],
    hsmusic_albums: &[hsmusic::Album],
) -> (r: Result<Option<(usize, usize)>, Error>)
    requires
        lookup.covers(hsmusic_albums@),
    ensures
        optional_place_view(r) == resolve_by_exception(
            album_name@,
            title@,
            track_num as nat,
            bandcamp_albums@,
            hsmusic_albums@,
        ),
        r matches Ok(Some(place)) ==> in_catalog(
            (place.0 as int, place.1 as int),
            hsmusic_albums@,
        ),
{
    let table = exceptions();
    let i = find_exception(&table, album_name, title);
    if i >= table.len() {
        return Ok(None);
    }
    match &table[i].action {
        Action::TrackNamed(name) => Ok(locate_track_named(hsmusic_albums, name.as_str())),
        Action::AlbumRenamed(name) => match place_by_name(
            lookup,
            name.as_str(),
            title,
            track_num,
            bandcamp_albums,
            hsmusic_albums,
        ) {
            Ok(place) => Ok(Some(place)),
            Err(e) => Err(e),
        },
    }
}

/// The place of the canonical track that a request speaks of.
pub(crate) fn place_of_request<L: AddressLookup>(
    lookup: &L,
    album_name: &str,
    title: &str,
    track_num: usize,
    bandcamp_albums: &[bandcamp::Album],
    hsmusic_albums: &[hsmusic::Album],
) -> (r: Result<(usize, usize), Error>)
    requires
        lookup.covers(hsmusic_albums@),
    ensures
        place_view(r) == resolve(
            album_name@,
            title@,
            track_num as nat,
            bandcamp_albums@,
            hsmusic_albums@,
        ),
        r matches Ok(place) ==> in_catalog((place.0 as int, place.1 as int), hsmusic_albums@),
{
    match place_by_exception(
        lookup,
        album_name,
        title,
        track_num,
        bandcamp_albums,
        hsmusic_albums,
    ) {
        Ok(Some(place)) => Ok(place),
        Ok(None) => place_by_name(
            lookup,
            album_name,
            title,
            track_num,
            bandcamp_albums,
            hsmusic_albums,
        ),
        Err(e) => Err(e),
    }
}

/// The place of the canonical track that a request speaks of, found by
/// reading the catalogs through.
pub fn locate(
    album_name: &str,
    title: &str,
    track_num: usize,
    bandcamp_albums: &[bandcamp::Album],
    hsmusic_albums: &[hsmusic::Album],
) -> (r: Result<(usize, usize), Error>)
    ensures
        place_view(r) == resolve(
            album_name@,
            title@,
            track_num as nat,
            bandcamp_albums@,
            hsmusic_albums@,
        ),
        r matches Ok(place) ==> in_catalog((place.0 as int, place.1 as int), hsmusic_albums@),
{
    place_of_request(&ByScan, album_name, title, track_num, bandcamp_albums, hsmusic_albums)
}

/// Whether `f` may be asked of every album and track.
pub open spec fn asks_any<F: Fn(&hsmusic::Album, &hsmusic::Track) -> bool>(f: F) -> bool {
    forall|album: &hsmusic::Album, track: &hsmusic::Track| #[trigger] f.requires((album, track))
}

/// Whether `f` may answer `answer` for the track at `place`.
pub open spec fn answers<F: Fn(&hsmusic::Album, &hsmusic::Track) -> bool>(
    f: F,
    albums: Seq<hsmusic::Album>,
    place: (int, int),
    answer: bool,
) -> bool {
    f.ensures((&albums[place.0], &albums[place.0].tracks[place.1]), answer)
}

/// Whether `a` stands before `b` in the order of the catalog.
pub open spec fn stands_before(a: (int, int), b: (int, int)) -> bool {
    a.0 < b.0 || (a.0 == b.0 && a.1 < b.1)
}

/// Whether `place` is the first track, in the order of the catalog, that
/// `f` accepts.
pub open spec fn is_first_accepted<F: Fn(&hsmusic::Album, &hsmusic::Track) -> bool>(
    f: F,
    albums: Seq<hsmusic::Album>,
    place: (int, int),
) -> bool {
    &&& in_catalog(place, albums)
    &&& answers(f, albums, place, true)
    &&& forall|a: int, k: int|
        in_catalog((a, k), albums) && stands_before((a, k), place) ==> #[trigger] answers(
            f,
            albums,
            (a, k),
            false,
        )
}

/// Whether `f` accepts no track of the catalog.
pub open spec fn none_accepted<F: Fn(&hsmusic::Album, &hsmusic::Track) -> bool>(
    f: F,
    albums: Seq<hsmusic::Album>,
) -> bool {
    forall|a: int, k: int|
        in_catalog((a, k), albums) ==> #[trigger] answers(f, albums, (a, k), false)
}

/// The place of the first track, in the order of the catalog, that `f`
/// accepts.
pub fn locate_hsmusic<F: Fn(&hsmusic::Album, &hsmusic::Track) -> bool>(
    albums: &[hsmusic::Album],
    f: F,
) -> (r: Option<(usize, usize)>)
    requires
        asks_any(f),
    ensures
        match r {
            Some((i, j)) => is_first_accepted(f, albums@, (i as int, j as int)),
            None => none_accepted(f, albums@),
        },
{
    let mut i: usize = 0;
    while i < albums.len()
        invariant
            i <= albums.len(),
            asks_any(f),
            forall|a: int, k: int|
                in_catalog((a, k), albums@) && a < i ==> #[trigger] answers(
                    f,
                    albums@,
                    (a, k),
                    false,
                ),
        decreases albums.len() - i,
    {
        let album = &albums[i];
        let mut j: usize = 0;
        while j < album.tracks.len()
            invariant
                i < albums.len(),
                j <= album.tracks.len(),
                *album == albums@[i as int],
                asks_any(f),
                forall|a: int, k: int|
                    in_catalog((a, k), albums@) && stands_before((a, k), (i as int, j as int))
                        ==> #[trigger] answers(f, albums@, (a, k), false),
            decreases album.tracks.len() - j,
        {
            if f(album, &album.tracks[j]) {
                return Some((i, j));
            }
            j += 1;
        }
        i += 1;
    }
    None
}

/// Whether the pair is the album and track at `place`.
pub open spec fn is_track_at(
    pair: (&hsmusic::Album, &hsmusic::Track),
    albums: Seq<hsmusic::Album>,
    place: (int, int),
) -> bool {
    in_catalog(place, albums) && *pair.0 == albums[place.0] && *pair.1
        == albums[place.0].tracks[place.1]
}

/// Whether `r` is what `expected` says: the album and track at the place,
/// or the failure.
pub open spec fn found_is(
    r: Result<(&hsmusic::Album, &hsmusic::Track), Error>,
    albums: Seq<hsmusic::Album>,
    expected: Result<(int, int), ErrorView>,
) -> bool {
    match expected {
        Ok(place) => r matches Ok(pair) && is_track_at(pair, albums, place),
        Err(e) => r matches Err(x) && x@ == e,
    }
}

/// Whether `r` is what `expected` says: the album and track at the place,
/// nothing, or the failure.
pub open spec fn maybe_found_is(
    r: Result<Option<(&hsmusic::Album, &hsmusic::Track)>, Error>,
    albums: Seq<hsmusic::Album>,
    expected: Result<Option<(int, int)>, ErrorView>,
) -> bool {
    match expected {
        Ok(Some(place)) => r matches Ok(Some(pair)) && is_track_at(pair, albums, place),
        Ok(None) => r matches Ok(None),
        Err(e) => r matches Err(x) && x@ == e,
    }
}

/// Whether `r` is the storefront track that `expected` says, nothing, or
/// the failure.
pub open spec fn listed_found_is(
    r: Result<Option<&bandcamp::Track>, Error>,
    albums: Seq<bandcamp::Album>,
    expected: Result<Option<(int, int)>, ErrorView>,
) -> bool {
    match expected {
        Ok(Some((k, t))) => r matches Ok(Some(track)) && 0 <= k < albums.len() && 0 <= t
            < albums[k].tracks.len() && *track == albums[k].tracks[t],
        Ok(None) => r matches Ok(None),
        Err(e) => r matches Err(x) && x@ == e,
    }
}

/// The album and track at a place of the catalog.
pub(crate) fn track_at<'a>(albums: &'a [hsmusic::Album], place: (usize, usize)) -> (pair: (
    &'a hsmusic::Album,
    &'a hsmusic::Track,
))
    requires
        in_catalog((place.0 as int, place.1 as int), albums@),
    ensures
        is_track_at(pair, albums@, (place.0 as int, place.1 as int)),
{
    (&albums[place.0], &albums[place.0].tracks[place.1])
}

/// The storefront track that a request speaks of: nothing where the
/// storefront has no album of the name, and a failure where it has the
/// album but not the track.
pub fn find_bandcamp_from_album_track<'b>(
    album_name: &str,
    title: &str,
    track_num: usize,
    albums: &'b [bandcamp::Album],
) -> (r: Result<Option<&'b bandcamp::Track>, Error>)
    ensures
        listed_found_is(
            r,
            albums@,
            storefront_track(album_name@, title@, track_num as nat, albums@),
        ),
{
    match locate_listed_track(album_name, title, track_num, albums) {
        Ok(Some((k, t))) => Ok(Some(&albums[k].tracks[t])),
        Ok(None) => Ok(None),
        Err(e) => Err(e),
    }
}

/// The first album and track, in the order of the catalog, that `f`
/// accepts.
pub fn find_hsmusic<'a, F: Fn(&hsmusic::Album, &hsmusic::Track) -> bool>(
    albums: &'a [hsmusic::Album],
    f: F,
) -> (r: Option<(&'a hsmusic::Album, &'a hsmusic::Track)>)
    requires
        asks_any(f),
    ensures
        match r {
            Some(pair) => exists|place: (int, int)|
                is_track_at(pair, albums@, place) && #[trigger] is_first_accepted(
                    f,
                    albums@,
                    place,
                ),
            None => none_accepted(f, albums@),
        },
{
    match locate_hsmusic(albums, f) {
        Some(place) => {
            let pair = track_at(albums, place);
            proof {
                let at = (place.0 as int, place.1 as int);
                assert(is_track_at(pair, albums@, at) && is_first_accepted(f, albums@, at));
            }
            Some(pair)
        },
        None => None,
    }
}

/// The canonical album and track that list the address of a storefront
/// track.
pub fn find_hsmusic_from_bandcamp<'b>(
    bandcamp: &bandcamp::Track,
    albums: &'b [hsmusic::Album],
) -> (r: Result<(&'b hsmusic::Album, &'b hsmusic::Track), Error>)
    ensures
        found_is(r, albums@, canonical_of_listed(*bandcamp, albums@)),
{
    match place_of_listed(&ByScan, bandcamp, albums) {
        Ok(place) => Ok(track_at(albums, place)),
        Err(e) => Err(e),
    }
}

/// What the table of exceptions gives for a request.
pub fn special_hsmusic_from_album_track<'c>(
    album_name: &str,
    title: &str,
    track_num: usize,
    bandcamp_albums: &[bandcamp::Album],
    hsmusic_albums: &'c [hsmusic::Album],
) -> (r: Result<Option<(&'c hsmusic::Album, &'c hsmusic::Track)>, Error>)
    ensures
        maybe_found_is(
            r,
            hsmusic_albums@,
            resolve_by_exception(
                album_name@,
                title@,
                track_num as nat,
                bandcamp_albums@,
                hsmusic_albums@,
            ),
        ),
{
    match place_by_exception(
        &ByScan,
        album_name,
        title,
        track_num,
        bandcamp_albums,
        hsmusic_albums,
    ) {
        Ok(Some(place)) => Ok(Some(track_at(hsmusic_albums, place))),
        Ok(None) => Ok(None),
        Err(e) => Err(e),
    }
}

/// The canonical album and track that a request speaks of.
pub fn find_hsmusic_from_album_track<'c>(
    album_name: &str,
    title: &str,
    track_num: usize,
    bandcamp_albums: &[bandcamp::Album],
    hsmusic_albums: &'c [hsmusic::Album],
) -> (r: Result<(&'c hsmusic::Album, &'c hsmusic::Track), Error>)
    ensures
        found_is(
            r,
            hsmusic_albums@,
            resolve(album_name@, title@, track_num as nat, bandcamp_albums@, hsmusic_albums@),
        ),
{
    match locate(album_name, title, track_num, bandcamp_albums, hsmusic_albums) {
        Ok(place) => Ok(track_at(hsmusic_albums, place)),
        Err(e) => Err(e),
    }
}

/// The name that an exception renames an album to is itself no exception,
/// so a renamed request is answered like any request under the new name.
pub proof fn lemma_renamed_album_is_no_exception(
    title: Seq<char>,
    track_num: nat,
    storefront: Seq<bandcamp::Album>,
    canonical: Seq<hsmusic::Album>,
)
    ensures
        exception_for(exception_table(), "Hiveswap Act 2 OST"@, title) is None,
        resolve("Hiveswap Act 2 OST"@, title, track_num, storefront, canonical) == resolve_by_name(
            "Hiveswap Act 2 OST"@,
            title,
            track_num,
            storefront,
            canonical,
        ),
{
    reveal_strlit("Hiveswap Act 2 OST");
    reveal_strlit("Homestuck Vol. 9-10 (with [S] Collide. and Act 7)");
    reveal_strlit("HIVESWAP: ACT 2 Original Soundtrack");
    let table = exception_table();
    let name = "Hiveswap Act 2 OST"@;
    let rest = table.drop_first();
    assert(!applies(table[0], name, title));
    assert(rest[0] == table[1]);
    assert(!applies(rest[0], name, title));
    assert(rest.drop_first().len() == 0);
    assert(exception_for(rest.drop_first(), name, title) is None);
    assert(exception_for(rest, name, title) is None);
    assert(exception_for(table, name, title) is None);
}

/// The track that one exception names is found by that name alone: where
/// the catalog has a track named `Frustracean`, a request for that title in
/// the late double volume gives the first such track, whatever place the
/// request states and whatever the storefront lists.
pub proof fn lemma_named_exception_ignores_place(
    track_num: nat,
    storefront: Seq<bandcamp::Album>,
    canonical: Seq<hsmusic::Album>,
)
    requires
        first_track_named(canonical, "Frustracean"@) is Some,
    ensures
        resolve(
            "Homestuck Vol. 9-10 (with [S] Collide. and Act 7)"@,
            "Frustracean"@,
            track_num,
            storefront,
            canonical,
        ) == Ok::<(int, int), ErrorView>(first_track_named(canonical, "Frustracean"@)->0),
{
    let table = exception_table();
    assert(applies(
        table[0],
        "Homestuck Vol. 9-10 (with [S] Collide. and Act 7)"@,
        "Frustracean"@,
    ));
}

/// Where a request's album is in the canonical catalog and none of its
/// tracks has the title, the place decides: a place within the album gives
/// the track there, and any other place fails as out of range.
pub proof fn lemma_place_decides_without_title(
    album_name: Seq<char>,
    title: Seq<char>,
    track_num: nat,
    storefront: Seq<bandcamp::Album>,
    canonical: Seq<hsmusic::Album>,
)
    requires
        exception_for(exception_table(), album_name, title) is None,
        first_equal(album_names(canonical), canonical_name(album_name)) < canonical.len(),
        first_equal(
            track_names(
                canonical[first_equal(
                    album_names(canonical),
                    canonical_name(album_name),
                )].tracks@,
            ),
            title,
        ) == canonical[first_equal(
            album_names(canonical),
            canonical_name(album_name),
        )].tracks.len(),
    ensures
        ({
            let i = first_equal(album_names(canonical), canonical_name(album_name));
            let album = canonical[i];
            resolve(album_name, title, track_num, storefront, canonical) == if 1 <= track_num
                <= album.tracks.len() {
                Ok::<(int, int), ErrorView>((i, track_num - 1))
            } else {
                Err::<(int, int), ErrorView>(
                    ErrorView::PositionOutOfRange {
                        album: album.name@,
                        title,
                        position: track_num,
                    },
                )
            }
        }),
{
    crate::text::lemma_first_equal_facts(album_names(canonical), canonical_name(album_name));
}

/// A storefront track leads back to the canonical track that lists its
/// address. The storefront album is the first of its name and the track
/// the first of its title in it; the canonical track stands outside the
/// early volumes, and no track behind it in the catalog lists the address
/// too. Then a request for the storefront album's name and the track's
/// title gives, through the storefront, that canonical track, whatever
/// place the request states.
pub proof fn lemma_storefront_round_trip(
    storefront: Seq<bandcamp::Album>,
    k: int,
    t: int,
    canonical: Seq<hsmusic::Album>,
    i: int,
    j: int,
    track_num: nat,
)
    requires
        0 <= k < storefront.len(),
        0 <= t < storefront[k].tracks.len(),
        first_equal(listed_album_names(storefront), storefront[k].name@) == k,
        first_equal(listed_titles(storefront[k].tracks@), storefront[k].tracks[t].name@) == t,
        in_catalog((i, j), canonical),
        !crate::index::is_legacy(canonical[i].name@),
        crate::index::lists_url(canonical[i].tracks[j], storefront[k].tracks[t].url@),
        forall|n: int|
            j < n < canonical[i].tracks.len() ==> !crate::index::lists_url(
                canonical[i].tracks[n],
                storefront[k].tracks[t].url@,
            ),
        forall|a: int, n: int|
            i < a < canonical.len() && 0 <= n < canonical[a].tracks.len()
                && !crate::index::is_legacy(canonical[a].name@) ==> !crate::index::lists_url(
                #[trigger] canonical[a].tracks[n],
                storefront[k].tracks[t].url@,
            ),
    ensures
        resolve_by_storefront(
            storefront[k].name@,
            storefront[k].tracks[t].name@,
            track_num,
            storefront,
            canonical,
        ) == Ok::<(int, int), ErrorView>((i, j)),
{
    crate::index::lemma_last_listed_track_is_indexed(
        canonical,
        storefront[k].tracks[t].url@,
        i,
        j,
    );
}

/// The round trip holds of the whole lookup where the first two ways do
/// not answer: no exception speaks of the request, and the canonical
/// catalog has no album of the storefront album's name.
pub proof fn lemma_round_trip(
    storefront: Seq<bandcamp::Album>,
    k: int,
    t: int,
    canonical: Seq<hsmusic::Album>,
    i: int,
    j: int,
    track_num: nat,
)
    requires
        0 <= k < storefront.len(),
        0 <= t < storefront[k].tracks.len(),
        first_equal(listed_album_names(storefront), storefront[k].name@) == k,
        first_equal(listed_titles(storefront[k].tracks@), storefront[k].tracks[t].name@) == t,
        in_catalog((i, j), canonical),
        url_entry(canonical, storefront[k].tracks[t].url@) == Some((i, j)),
        exception_for(exception_table(), storefront[k].name@, storefront[k].tracks[t].name@)
            is None,
        first_equal(album_names(canonical), canonical_name(storefront[k].name@))
            == canonical.len(),
    ensures
        resolve(
            storefront[k].name@,
            storefront[k].tracks[t].name@,
            track_num,
            storefront,
            canonical,
        ) == Ok::<(int, int), ErrorView>((i, j)),
{
}

/// A storefront track that is found by its place alone is the one that the
/// storefront index holds for the album's name and that place, counted
/// from zero.
pub proof fn lemma_place_is_looked_up_in_the_index(
    album_name: Seq<char>,
    title: Seq<char>,
    track_num: nat,
    albums: Seq<bandcamp::Album>,
)
    requires
        first_equal(listed_album_names(albums), album_name) < albums.len(),
        first_equal(
            listed_titles(albums[first_equal(listed_album_names(albums), album_name)].tracks@),
            title,
        ) == albums[first_equal(listed_album_names(albums), album_name)].tracks.len(),
        first_equal(
            listed_short_titles(
                albums[first_equal(listed_album_names(albums), album_name)].tracks@,
            ),
            title,
        ) == albums[first_equal(listed_album_names(albums), album_name)].tracks.len(),
    ensures
        ({
            let k = first_equal(listed_album_names(albums), album_name);
            let key = (album_name, track_num - 1);
            match storefront_track(album_name, title, track_num, albums) {
                Ok(Some((a, t))) => a == k && crate::index::storefront_index(
                    albums,
                ).dom().contains(key) && crate::index::storefront_index(albums)[key]
                    == albums[a].tracks[t],
                Ok(None) => false,
                Err(_) => !crate::index::storefront_index(albums).dom().contains(key),
            }
        }),
{
    crate::text::lemma_first_equal_facts(listed_album_names(albums), album_name);
}

} // verus!
