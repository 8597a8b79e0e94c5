//! The canonical catalog: artists, albums and their tracks, as the
//! catalog's documents describe them.

use crate::date::{date_field, Date};
use crate::document::{sections, split_sections};
use crate::duration::{duration_seconds, get_duration_in_seconds};
use crate::error::{outcome, Error, ErrorView};
use crate::fields::{basic_field, contribution_field, list_field, multiline_field, Section};
pub use crate::fields::{Contributor, ContributorView};
use crate::html::{show_text, shown_text};
use crate::slug::{get_kebab_case, slug};
use crate::text::{is_blank, lines, trim};
use vstd::prelude::*;

verus! {

/// An artist of the catalog.
#[derive(Debug, PartialEq, Eq)]
pub struct Artist {
    pub name: String,
    pub urls: Vec<String>,
    pub alias: Option<String>,
    pub note: Option<String>,
}

/// An [`Artist`] as a mathematical value.
pub ghost struct ArtistView {
    pub name: Seq<char>,
    pub urls: Seq<Seq<char>>,
    pub alias: Option<Seq<char>>,
    pub note: Option<Seq<char>>,
}

impl View for Artist {
    type V = ArtistView;

    open spec fn view(&self) -> ArtistView {
        ArtistView {
            name: self.name@,
            urls: self.urls.deep_view(),
            alias: self.alias.deep_view(),
            note: self.note.deep_view(),
        }
    }
}

impl DeepView for Artist {
    type V = ArtistView;

    open spec fn deep_view(&self) -> ArtistView {
        self.view()
    }
}

/// A track of an album.
#[derive(Debug, PartialEq, Eq)]
pub struct Track {
    pub name: String,
    pub commentary: Option<String>,
    pub lyrics: Option<String>,
    pub original_date: Option<Date>,
    pub cover_art_date: Date,
    pub references: Vec<String>,
    pub artists: Option<Vec<Contributor>>,
    pub cover_artists: Option<Vec<Contributor>>,
    pub art_tags: Vec<String>,
    pub contributors: Vec<Contributor>,
    pub directory: String,
    pub aka: Option<String>,
    /// Length in seconds.
    pub duration: u64,
    pub urls: Vec<String>,
    /// The group the track stands in, empty where it stands in none.
    pub group: String,
    pub color: String,
    /// Place in the album, counted from one.
    pub track_num: usize,
}

/// A [`Track`] as a mathematical value.
pub ghost struct TrackView {
    pub name: Seq<char>,
    pub commentary: Option<Seq<char>>,
    pub lyrics: Option<Seq<char>>,
    pub original_date: Option<Date>,
    pub cover_art_date: Date,
    pub references: Seq<Seq<char>>,
    pub artists: Option<Seq<ContributorView>>,
    pub cover_artists: Option<Seq<ContributorView>>,
    pub art_tags: Seq<Seq<char>>,
    pub contributors: Seq<ContributorView>,
    pub directory: Seq<char>,
    pub aka: Option<Seq<char>>,
    pub duration: nat,
    pub urls: Seq<Seq<char>>,
    pub group: Seq<char>,
    pub color: Seq<char>,
    pub track_num: nat,
}

impl View for Track {
    type V = TrackView;

    open spec fn view(&self) -> TrackView {
        TrackView {
            name: self.name@,
            commentary: self.commentary.deep_view(),
            lyrics: self.lyrics.deep_view(),
            original_date: self.original_date,
            cover_art_date: self.cover_art_date,
            references: self.references.deep_view(),
            artists: self.artists.deep_view(),
            cover_artists: self.cover_artists.deep_view(),
            art_tags: self.art_tags.deep_view(),
            contributors: self.contributors.deep_view(),
            directory: self.directory@,
            aka: self.aka.deep_view(),
            duration: self.duration as nat,
            urls: self.urls.deep_view(),
            group: self.group@,
            color: self.color@,
            track_num: self.track_num as nat,
        }
    }
}

impl DeepView for Track {
    type V = TrackView;

    open spec fn deep_view(&self) -> TrackView {
        self.view()
    }
}

/// An album of the catalog.
#[derive(Debug, PartialEq, Eq)]
pub struct Album {
    pub name: String,
    pub artists: Option<Vec<Contributor>>,
    pub date: Date,
    pub track_art_date: Date,
    pub cover_art_date: Date,
    pub cover_artists: Option<Vec<Contributor>>,
    pub has_track_art: bool,
    pub track_cover_artists: Option<Vec<Contributor>>,
    pub art_tags: Vec<String>,
    pub commentary: Option<String>,
    pub urls: Vec<String>,
    pub groups: Vec<String>,
    pub directory: String,
    pub is_major_release: bool,
    pub color: String,
    pub uses_groups: bool,
    pub tracks: Vec<Track>,
}

/// An [`Album`] as a mathematical value.
pub ghost struct AlbumView {
    pub name: Seq<char>,
    pub artists: Option<Seq<ContributorView>>,
    pub date: Date,
    pub track_art_date: Date,
    pub cover_art_date: Date,
    pub cover_artists: Option<Seq<ContributorView>>,
    pub has_track_art: bool,
    pub track_cover_artists: Option<Seq<ContributorView>>,
    pub art_tags: Seq<Seq<char>>,
    pub commentary: Option<Seq<char>>,
    pub urls: Seq<Seq<char>>,
    pub groups: Seq<Seq<char>>,
    pub directory: Seq<char>,
    pub is_major_release: bool,
    pub color: Seq<char>,
    pub uses_groups: bool,
    pub tracks: Seq<TrackView>,
}

impl View for Album {
    type V = AlbumView;

    open spec fn view(&self) -> AlbumView {
        AlbumView {
            name: self.name@,
            artists: self.artists.deep_view(),
            date: self.date,
            track_art_date: self.track_art_date,
            cover_art_date: self.cover_art_date,
            cover_artists: self.cover_artists.deep_view(),
            has_track_art: self.has_track_art,
            track_cover_artists: self.track_cover_artists.deep_view(),
            art_tags: self.art_tags.deep_view(),
            commentary: self.commentary.deep_view(),
            urls: self.urls.deep_view(),
            groups: self.groups.deep_view(),
            directory: self.directory@,
            is_major_release: self.is_major_release,
            color: self.color@,
            uses_groups: self.uses_groups,
            tracks: self.tracks.deep_view(),
        }
    }
}

impl DeepView for Album {
    type V = AlbumView;

    open spec fn deep_view(&self) -> AlbumView {
        self.view()
    }
}

/// The first of the two that is there.
pub open spec fn first_of<T>(a: Option<T>, b: Option<T>) -> Option<T> {
    if a is Some {
        a
    } else {
        b
    }
}

/// What `a` holds, or `b` where it holds nothing.
pub open spec fn value_or<T>(a: Option<T>, b: T) -> T {
    match a {
        Some(value) => value,
        None => b,
    }
}

/// The failure of a record that lacks the field `field`.
pub open spec fn missing(field: Seq<char>) -> ErrorView {
    ErrorView::MissingMandatoryField { field }
}

/// The artist that a section describes.
pub open spec fn artist_of(lines: Seq<Seq<char>>) -> Result<ArtistView, ErrorView> {
    match basic_field(lines, "Artist"@) {
        Some(name) => Ok(
            ArtistView {
                name,
                urls: value_or(list_field(lines, "URLs"@), Seq::empty()),
                alias: basic_field(lines, "Alias"@),
                note: multiline_field(lines, "Note"@),
            },
        ),
        None => Err(missing("Artist"@)),
    }
}

/// The artists that the first `n` sections describe, or the failure of the
/// first section that describes none.
pub open spec fn artists_upto(secs: Seq<Seq<char>>, n: int) -> Result<Seq<ArtistView>, ErrorView>
    decreases n,
{
    if n <= 0 {
        Ok(Seq::empty())
    } else {
        match artists_upto(secs, n - 1) {
            Ok(found) => match artist_of(lines(secs[n - 1])) {
                Ok(artist) => Ok(found.push(artist)),
                Err(e) => Err(e),
            },
            Err(e) => Err(e),
        }
    }
}

/// The artists that a document describes, one in each of its sections.
pub open spec fn artists_of(doc: Seq<char>) -> Result<Seq<ArtistView>, ErrorView> {
    artists_upto(sections(doc), sections(doc).len() as int)
}

/// The track that a section describes, in the album and group that it
/// stands in. `artists`, `color` and `track_art_date` are the album's;
/// `track_num` is the track's place in the album.
pub open spec fn track_of(
    lines: Seq<Seq<char>>,
    group: Seq<char>,
    group_color: Seq<char>,
    track_art_date: Date,
    artists: Option<Seq<ContributorView>>,
    color: Seq<char>,
    track_num: nat,
) -> Result<TrackView, ErrorView> {
    match basic_field(lines, "Track"@) {
        None => Err(missing("Track"@)),
        Some(raw) => match date_field(lines, "Original Date"@) {
            Err(e) => Err(e),
            Ok(original_date) => match date_field(lines, "Cover Art Date"@) {
                Err(e) => Err(e),
                Ok(cover_art_date) => Ok(
                    TrackView {
                        name: shown_text(raw),
                        commentary: multiline_field(lines, "Commentary"@),
                        lyrics: multiline_field(lines, "Lyrics"@),
                        original_date,
                        cover_art_date: value_or(
                            first_of(cover_art_date, original_date),
                            track_art_date,
                        ),
                        references: value_or(list_field(lines, "References"@), Seq::empty()),
                        artists: first_of(
                            contribution_field(lines, "Artists"@),
                            first_of(contribution_field(lines, "Artist"@), artists),
                        ),
                        cover_artists: contribution_field(lines, "Track Art"@),
                        art_tags: value_or(list_field(lines, "Art Tags"@), Seq::empty()),
                        contributors: value_or(
                            contribution_field(lines, "Contributors"@),
                            Seq::empty(),
                        ),
                        directory: value_or(
                            basic_field(lines, "Directory"@),
                            slug(shown_text(raw)),
                        ),
                        aka: basic_field(lines, "AKA"@),
                        duration: duration_seconds(
                            value_or(basic_field(lines, "Duration"@), "0:00"@),
                        ),
                        urls: value_or(list_field(lines, "URLs"@), Seq::empty()),
                        group,
                        color: if group.len() > 0 {
                            group_color
                        } else {
                            color
                        },
                        track_num,
                    },
                ),
            },
        },
    }
}

/// What reading an album's sections has come to: the group that the next
/// track stands in, and the tracks read so far.
pub ghost struct Scan {
    pub group: Seq<char>,
    pub group_color: Seq<char>,
    pub uses_groups: bool,
    pub tracks: Seq<TrackView>,
}

/// What one section behind the album's own adds: a blank section nothing, a
/// group marker the group for the tracks that follow, and any other section
/// the next track.
pub open spec fn scan_step(
    st: Scan,
    section: Seq<char>,
    track_art_date: Date,
    artists: Option<Seq<ContributorView>>,
    color: Seq<char>,
) -> Result<Scan, ErrorView> {
    let ls = lines(section);
    if is_blank(section) {
        Ok(st)
    } else {
        match basic_field(ls, "Group"@) {
            Some(group) => Ok(
                Scan {
                    group,
                    group_color: value_or(basic_field(ls, "FG"@), color),
                    uses_groups: true,
                    tracks: st.tracks,
                },
            ),
            None => match track_of(
                ls,
                st.group,
                st.group_color,
                track_art_date,
                artists,
                color,
                st.tracks.len() + 1,
            ) {
                Ok(track) => Ok(
                    Scan {
                        group: st.group,
                        group_color: st.group_color,
                        uses_groups: st.uses_groups,
                        tracks: st.tracks.push(track),
                    },
                ),
                Err(e) => Err(e),
            },
        }
    }
}

/// What reading the first `n` sections of an album comes to, the album's
/// own section counted, or the first failure among them.
pub open spec fn scan(
    secs: Seq<Seq<char>>,
    n: int,
    track_art_date: Date,
    artists: Option<Seq<ContributorView>>,
    color: Seq<char>,
) -> Result<Scan, ErrorView>
    decreases n,
{
    if n <= 1 {
        Ok(
            Scan {
                group: Seq::empty(),
                group_color: color,
                uses_groups: false,
                tracks: Seq::empty(),
            },
        )
    } else {
        match scan(secs, n - 1, track_art_date, artists, color) {
            Ok(st) => scan_step(st, secs[n - 1], track_art_date, artists, color),
            Err(e) => Err(e),
        }
    }
}

/// The artists of an album or track: the field `Artists` or, without it,
/// the field `Artist`.
pub open spec fn artists_field(lines: Seq<Seq<char>>) -> Option<Seq<ContributorView>> {
    first_of(contribution_field(lines, "Artists"@), contribution_field(lines, "Artist"@))
}

/// The album that a document describes: its own fields in the first
/// section, its groups and tracks in those that follow.
pub open spec fn album_of(doc: Seq<char>) -> Result<AlbumView, ErrorView> {
    let secs = sections(doc);
    let head = lines(secs[0]);
    if is_blank(secs[0]) {
        Err(ErrorView::SectionSplitAnomaly)
    } else {
        match basic_field(head, "Album"@) {
            None => Err(missing("Album"@)),
            Some(name) => match date_field(head, "Date"@) {
                Err(e) => Err(e),
                Ok(None) => Err(missing("Date"@)),
                Ok(Some(date)) => match date_field(head, "Track Art Date"@) {
                    Err(e) => Err(e),
                    Ok(track_art_date) => album_body(
                        secs,
                        name,
                        date,
                        value_or(track_art_date, date),
                    ),
                },
            },
        }
    }
}

/// The album of the given name and dates that the sections describe.
pub open spec fn album_body(
    secs: Seq<Seq<char>>,
    name: Seq<char>,
    date: Date,
    track_art_date: Date,
) -> Result<AlbumView, ErrorView> {
    let head = lines(secs[0]);
    let artists = artists_field(head);
    let color = value_or(basic_field(head, "FG"@), "#0088ff"@);
    match scan(secs, secs.len() as int, track_art_date, artists, color) {
        Err(e) => Err(e),
        Ok(st) => match date_field(head, "Cover Art Date"@) {
            Err(e) => Err(e),
            Ok(cover_art_date) => Ok(
                AlbumView {
                    name,
                    artists,
                    date,
                    track_art_date,
                    cover_art_date: value_or(cover_art_date, date),
                    cover_artists: contribution_field(head, "Cover Art"@),
                    has_track_art: basic_field(head, "Has Track Art"@) != Some("no"@),
                    track_cover_artists: contribution_field(head, "Track Art"@),
                    art_tags: value_or(list_field(head, "Art Tags"@), Seq::empty()),
                    commentary: multiline_field(head, "Commentary"@),
                    urls: value_or(list_field(head, "URLs"@), Seq::empty()),
                    groups: value_or(list_field(head, "Groups"@), Seq::empty()),
                    directory: value_or(basic_field(head, "Directory"@), slug(name)),
                    is_major_release: basic_field(head, "Major Release"@) == Some("yes"@),
                    color,
                    uses_groups: st.uses_groups,
                    tracks: st.tracks,
                },
            ),
        },
    }
}

/// Whether the tracks are numbered from one, in order and without a gap.
pub open spec fn numbered(tracks: Seq<TrackView>) -> bool {
    forall|k: int| 0 <= k < tracks.len() ==> (#[trigger] tracks[k]).track_num == k + 1
}

/// The list, or an empty one where there is none.
fn list_or_empty<T: DeepView>(list: Option<Vec<T>>) -> (r: Vec<T>)
    ensures
        r.deep_view() == value_or(list.deep_view(), Seq::empty()),
{
    match list {
        Some(items) => items,
        None => {
            let items: Vec<T> = Vec::new();
            assert(items.deep_view() =~= Seq::empty());
            items
        },
    }
}

/// A copy of a list of contributors.
fn copy_contributors(list: &Option<Vec<Contributor>>) -> (r: Option<Vec<Contributor>>)
    ensures
        r.deep_view() == list.deep_view(),
{
    match list {
        None => None,
        Some(items) => {
            let mut out: Vec<Contributor> = Vec::new();
            let mut k: usize = 0;
            while k < items.len()
                invariant
                    k <= items.len(),
                    out.len() == k,
                    forall|j: int| 0 <= j < k ==> out[j]@ == items[j]@,
                decreases items.len() - k,
            {
                out.push(items[k].clone());
                k += 1;
            }
            assert(out.deep_view() =~= items.deep_view());
            Some(out)
        },
    }
}

/// The failure of a record that lacks the field `field`.
fn missing_field(field: &str) -> (e: Error)
    ensures
        e@ == missing(field@),
{
    Error::MissingMandatoryField { field: field.to_owned() }
}

/// The artists of the album or track that the section describes.
fn read_artists(sec: &Section) -> (r: Option<Vec<Contributor>>)
    ensures
        r.deep_view() == artists_field(sec@),
{
    match sec.contribution("Artists") {
        Some(list) => Some(list),
        None => sec.contribution("Artist"),
    }
}

/// The artist that the section describes.
pub fn build_artist(sec: &Section) -> (r: Result<Artist, Error>)
    ensures
        outcome(r) == artist_of(sec@),
{
    let name = match sec.basic("Artist") {
        Some(name) => name,
        None => {
            return Err(missing_field("Artist"));
        },
    };
    Ok(
        Artist {
            name,
            urls: list_or_empty(sec.list("URLs")),
            alias: sec.basic("Alias"),
            note: sec.multiline("Note"),
        },
    )
}

/// The artist that the section `string` describes.
pub fn parse_artist(string: &str) -> (r: Result<Artist, Error>)
    ensures
        outcome(r) == artist_of(lines(string@)),
{
    build_artist(&Section::parse(string))
}

/// The artists that the document `string` describes, one in each section.
pub fn parse_artists(string: &str) -> (r: Result<Vec<Artist>, Error>)
    ensures
        outcome(r) == artists_of(string@),
{
    let secs = split_sections(string);
    let mut out: Vec<Artist> = Vec::new();
    let mut i: usize = 0;
    proof {
        assert(out.deep_view() =~= Seq::empty());
    }
    while i < secs.len()
        invariant
            i <= secs.len(),
            secs.deep_view() == sections(string@),
            artists_upto(sections(string@), i as int) == Ok::<Seq<ArtistView>, ErrorView>(
                out.deep_view(),
            ),
        decreases secs.len() - i,
    {
        let ghost before = out.deep_view();
        match parse_artist(secs[i].as_str()) {
            Ok(artist) => {
                out.push(artist);
                proof {
                    assert(out.deep_view() =~= before.push(artist@));
                }
            },
            Err(e) => {
                proof {
                    lemma_artists_failure_stays(sections(string@), i + 1, secs.len() as int);
                }
                return Err(e);
            },
        }
        i += 1;
    }
    Ok(out)
}

/// Once a section fails, reading further sections does not mend it.
proof fn lemma_artists_failure_stays(secs: Seq<Seq<char>>, n: int, m: int)
    requires
        n <= m,
        artists_upto(secs, n) is Err,
    ensures
        artists_upto(secs, m) == artists_upto(secs, n),
    decreases m - n,
{
    if n < m {
        lemma_artists_failure_stays(secs, n, m - 1);
    }
}

/// The track that the section describes.
pub fn build_track(
    sec: &Section,
    group: &str,
    group_color: &str,
    track_art_date: Date,
    artists: &Option<Vec<Contributor>>,
    color: &str,
    track_num: usize,
) -> (r: Result<Track, Error>)
    ensures
        outcome(r) == track_of(
            sec@,
            group@,
            group_color@,
            track_art_date,
            artists.deep_view(),
            color@,
            track_num as nat,
        ),
{
    let raw = match sec.basic("Track") {
        Some(raw) => raw,
        None => {
            return Err(missing_field("Track"));
        },
    };
    let name = show_text(raw.as_str());
    let directory = match sec.basic("Directory") {
        Some(directory) => directory,
        None => get_kebab_case(name.as_str()),
    };
    let original_date = match sec.date("Original Date") {
        Ok(date) => date,
        Err(e) => {
            return Err(e);
        },
    };
    let cover_art_date = match sec.date("Cover Art Date") {
        Ok(Some(date)) => date,
        Ok(None) => match original_date {
            Some(date) => date,
            None => track_art_date,
        },
        Err(e) => {
            return Err(e);
        },
    };
    let track_artists = match read_artists(sec) {
        Some(list) => Some(list),
        None => copy_contributors(artists),
    };
    let duration = match sec.basic("Duration") {
        Some(text) => get_duration_in_seconds(text.as_str()),
        None => get_duration_in_seconds("0:00"),
    };
    let shown_color = if group.is_empty() {
        color.to_owned()
    } else {
        group_color.to_owned()
    };
    Ok(
        Track {
            name,
            commentary: sec.multiline("Commentary"),
            lyrics: sec.multiline("Lyrics"),
            original_date,
            cover_art_date,
            references: list_or_empty(sec.list("References")),
            artists: track_artists,
            cover_artists: sec.contribution("Track Art"),
            art_tags: list_or_empty(sec.list("Art Tags")),
            contributors: list_or_empty(sec.contribution("Contributors")),
            directory,
            aka: sec.basic("AKA"),
            duration,
            urls: list_or_empty(sec.list("URLs")),
            group: group.to_owned(),
            color: shown_color,
            track_num,
        },
    )
}

/// The track that the section `section` describes, in the album and group
/// that it stands in.
pub fn parse_track(
    section: &str,
    group: &str,
    group_color: &str,
    track_art_date: Date,
    artists: &Option<Vec<Contributor>>,
    color: &str,
    track_num: usize,
) -> (r: Result<Track, Error>)
    ensures
        outcome(r) == track_of(
            lines(section@),
            group@,
            group_color@,
            track_art_date,
            artists.deep_view(),
            color@,
            track_num as nat,
        ),
{
    build_track(
        &Section::parse(section),
        group,
        group_color,
        track_art_date,
        artists,
        color,
        track_num,
    )
}

/// Once a section fails, reading further sections does not mend it.
proof fn lemma_scan_failure_stays(
    secs: Seq<Seq<char>>,
    n: int,
    m: int,
    track_art_date: Date,
    artists: Option<Seq<ContributorView>>,
    color: Seq<char>,
)
    requires
        n <= m,
        scan(secs, n, track_art_date, artists, color) is Err,
    ensures
        scan(secs, m, track_art_date, artists, color) == scan(
            secs,
            n,
            track_art_date,
            artists,
            color,
        ),
    decreases m - n,
{
    if n < m {
        lemma_scan_failure_stays(secs, n, m - 1, track_art_date, artists, color);
    }
}

/// The tracks read from an album's sections are numbered from one in the
/// order of the sections, whatever groups stand between them.
pub proof fn lemma_scan_numbers_tracks(
    secs: Seq<Seq<char>>,
    n: int,
    track_art_date: Date,
    artists: Option<Seq<ContributorView>>,
    color: Seq<char>,
)
    ensures
        scan(secs, n, track_art_date, artists, color) matches Ok(st) ==> numbered(st.tracks),
    decreases n,
{
    if n > 1 {
        lemma_scan_numbers_tracks(secs, n - 1, track_art_date, artists, color);
    }
}

/// The tracks of every album that a document describes are numbered from
/// one, in the order of their sections and without a gap.
pub proof fn lemma_album_tracks_are_numbered(doc: Seq<char>)
    ensures
        album_of(doc) matches Ok(album) ==> numbered(album.tracks),
{
    let secs = sections(doc);
    let head = lines(secs[0]);
    if album_of(doc) is Ok {
        let date = date_field(head, "Date"@)->Ok_0->0;
        let track_art_date = value_or(date_field(head, "Track Art Date"@)->Ok_0, date);
        let artists = artists_field(head);
        let color = value_or(basic_field(head, "FG"@), "#0088ff"@);
        lemma_scan_numbers_tracks(secs, secs.len() as int, track_art_date, artists, color);
    }
}

/// Whether `text` holds nothing but white space.
fn text_is_blank(text: &str) -> (b: bool)
    ensures
        b == is_blank(text@),
{
    trim(text).as_str().is_empty()
}

/// Whether the field is there and holds exactly `value`.
fn field_is(sec: &Section, name: &str, value: &str) -> (b: bool)
    ensures
        b == (basic_field(sec@, name@) == Some(value@)),
{
    match sec.basic(name) {
        Some(found) => crate::text::same_text(found.as_str(), value),
        None => false,
    }
}

/// The album that the document `string` describes.
pub fn parse_album(string: &str) -> (r: Result<Album, Error>)
    ensures
        outcome(r) == album_of(string@),
        r matches Ok(album) ==> numbered(album@.tracks),
{
    let secs = split_sections(string);
    if text_is_blank(secs[0].as_str()) {
        return Err(Error::SectionSplitAnomaly);
    }
    let head = Section::parse(secs[0].as_str());
    let name = match head.basic("Album") {
        Some(name) => name,
        None => {
            return Err(missing_field("Album"));
        },
    };
    let artists = read_artists(&head);
    let date = match head.date("Date") {
        Ok(Some(date)) => date,
        Ok(None) => {
            return Err(missing_field("Date"));
        },
        Err(e) => {
            return Err(e);
        },
    };
    let color = match head.basic("FG") {
        Some(color) => color,
        None => "#0088ff".to_owned(),
    };
    let track_art_date = match head.date("Track Art Date") {
        Ok(Some(found)) => found,
        Ok(None) => date,
        Err(e) => {
            return Err(e);
        },
    };
    let mut uses_groups = false;
    let mut group = String::new();
    let mut group_color = color.clone();
    let mut tracks: Vec<Track> = Vec::new();
    let mut i: usize = 1;
    proof {
        assert(tracks.deep_view() =~= Seq::empty());
    }
    while i < secs.len()
        invariant
            1 <= i <= secs.len(),
            tracks.len() < i,
            secs.deep_view() == sections(string@),
            album_of(string@) == album_body(sections(string@), name@, date, track_art_date),
            artists.deep_view() == artists_field(lines(sections(string@)[0])),
            color@ == value_or(basic_field(lines(sections(string@)[0]), "FG"@), "#0088ff"@),
            scan(secs.deep_view(), i as int, track_art_date, artists.deep_view(), color@) == Ok::<
                Scan,
                ErrorView,
            >(
                Scan {
                    group: group@,
                    group_color: group_color@,
                    uses_groups,
                    tracks: tracks.deep_view(),
                },
            ),
        decreases secs.len() - i,
    {
        let ghost before = tracks.deep_view();
        let text = secs[i].as_str();
        if !text_is_blank(text) {
            let sec = Section::parse(text);
            match sec.basic("Group") {
                Some(found) => {
                    group = found;
                    group_color = match sec.basic("FG") {
                        Some(found_color) => found_color,
                        None => color.clone(),
                    };
                    uses_groups = true;
                },
                None => {
                    match build_track(
                        &sec,
                        group.as_str(),
                        group_color.as_str(),
                        track_art_date,
                        &artists,
                        color.as_str(),
                        tracks.len() + 1,
                    ) {
                        Ok(track) => {
                            tracks.push(track);
                            proof {
                                assert(tracks.deep_view() =~= before.push(track@));
                            }
                        },
                        Err(e) => {
                            proof {
                                lemma_scan_failure_stays(
                                    secs.deep_view(),
                                    i + 1,
                                    secs.len() as int,
                                    track_art_date,
                                    artists.deep_view(),
                                    color@,
                                );
                            }
                            return Err(e);
                        },
                    }
                },
            }
        }
        i += 1;
    }
    proof {
        lemma_scan_numbers_tracks(
            secs.deep_view(),
            secs.len() as int,
            track_art_date,
            artists.deep_view(),
            color@,
        );
    }
    let cover_art_date = match head.date("Cover Art Date") {
        Ok(Some(found)) => found,
        Ok(None) => date,
        Err(e) => {
            return Err(e);
        },
    };
    let directory = match head.basic("Directory") {
        Some(directory) => directory,
        None => get_kebab_case(name.as_str()),
    };
    Ok(
        Album {
            name,
            artists,
            date,
            track_art_date,
            cover_art_date,
            cover_artists: head.contribution("Cover Art"),
            has_track_art: !field_is(&head, "Has Track Art", "no"),
            track_cover_artists: head.contribution("Track Art"),
            art_tags: list_or_empty(head.list("Art Tags")),
            commentary: head.multiline("Commentary"),
            urls: list_or_empty(head.list("URLs")),
            groups: list_or_empty(head.list("Groups")),
            directory,
            is_major_release: field_is(&head, "Major Release", "yes"),
            color,
            uses_groups,
            tracks,
        },
    )
}

} // verus!
