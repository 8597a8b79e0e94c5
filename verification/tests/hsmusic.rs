use hsmusicifier::date::Date;
use hsmusicifier::error::Error;
use hsmusicifier::fields::Contributor;
use hsmusicifier::hsmusic::{parse_album, parse_artist, parse_artists, parse_track, Artist};

fn strings(items: &[&str]) -> Vec<String> {
    items.iter().map(|s| s.to_string()).collect()
}

fn date(year: i32, month: u32, day: u32) -> Date {
    Date { year, month, day }
}

fn who(name: &str) -> Contributor {
    Contributor { who: name.to_string(), what: None }
}

fn missing(field: &str) -> Error {
    Error::MissingMandatoryField { field: field.to_string() }
}

const ALBUM: &str = "Album: Test Album
Artists:
- Alice
- Bob (drums)
Date: March 1, 2010
FG: #112233
URLs:
- https://store.example/album/test
Groups: Official, Test
Commentary:
    An album.
    For tests.
--------
Track: Opening
Duration: 1:30
URLs:
- https://store.example/track/opening
--------
Group: Disc One
FG: #aabbcc
--------
Track: Second &amp; Third
Artist: Carol
Directory: second
Original Date: Febuary 2, 2009
--------
Track: Fourth
Track Art: none
--------

--------
Group: Disc Two
--------
Track: Fifth
Cover Art Date: May 5 2011 (late)
Track Art:
- Dave (pencils)
--------
Track: Sixth
";

#[test]
fn artist_is_read_from_its_section() {
    let text = "Artist: Toby Fox\nURLs:\n- https://a.example\n- https://b.example\nAlias: Radiation\nNote:\n    Wrote things.\n    Many things.\n";
    assert_eq!(
        parse_artist(text),
        Ok(Artist {
            name: "Toby Fox".to_string(),
            urls: strings(&["https://a.example", "https://b.example"]),
            alias: Some("Radiation".to_string()),
            note: Some("Wrote things.\nMany things.".to_string()),
        })
    );
}

#[test]
fn artist_without_optional_fields() {
    assert_eq!(
        parse_artist("Artist: Solo"),
        Ok(Artist { name: "Solo".to_string(), urls: vec![], alias: None, note: None })
    );
}

#[test]
fn artist_without_a_name_fails() {
    assert_eq!(parse_artist("Alias: x"), Err(missing("Artist")));
    assert_eq!(parse_artist(""), Err(missing("Artist")));
}

#[test]
fn artists_are_read_one_from_each_section() {
    let doc = "Artist: One\n--------\nArtist: Two\nAlias: 2\n----------\nArtist: Three";
    let artists = parse_artists(doc).unwrap();
    assert_eq!(artists.len(), 3);
    assert_eq!(artists[0].name, "One");
    assert_eq!(artists[1].name, "Two");
    assert_eq!(artists[1].alias, Some("2".to_string()));
    assert_eq!(artists[2].name, "Three");
}

#[test]
fn artists_fail_where_one_section_names_none() {
    assert_eq!(parse_artists("Artist: One\n--------\nAlias: x\n--------\nArtist: Three"), Err(missing("Artist")));
    assert_eq!(parse_artists("Artist: One\n--------\n"), Err(missing("Artist")));
}

#[test]
fn track_is_read_with_its_defaults() {
    let track = parse_track("Track: Plain", "", "#000000", date(2010, 3, 1), &None, "#0088ff", 7)
        .unwrap();
    assert_eq!(track.name, "Plain");
    assert_eq!(track.directory, "plain");
    assert_eq!(track.commentary, None);
    assert_eq!(track.lyrics, None);
    assert_eq!(track.original_date, None);
    assert_eq!(track.cover_art_date, date(2010, 3, 1));
    assert_eq!(track.references, Vec::<String>::new());
    assert_eq!(track.artists, None);
    assert_eq!(track.cover_artists, None);
    assert_eq!(track.art_tags, Vec::<String>::new());
    assert_eq!(track.contributors, vec![]);
    assert_eq!(track.aka, None);
    assert_eq!(track.duration, 0);
    assert_eq!(track.urls, Vec::<String>::new());
    assert_eq!(track.group, "");
    assert_eq!(track.color, "#0088ff");
    assert_eq!(track.track_num, 7);
}

#[test]
fn track_reads_every_field() {
    let section = "Track: Full\nAKA: Whole\nDirectory: full-dir\nDuration: 2:03\nOriginal Date: June 1, 2009\nCover Art Date: July 2, 2009\nReferences:\n- Other\nArtists:\n- A\nTrack Art:\n- P (paint)\nArt Tags: X, Y\nContributors:\n- C (bass)\nURLs:\n- https://u.example\nCommentary:\n    words\nLyrics:\n    la\n    la";
    let album_artists = Some(vec![who("Album Artist")]);
    let track =
        parse_track(section, "G", "#111111", date(2010, 1, 1), &album_artists, "#222222", 1)
            .unwrap();
    assert_eq!(track.name, "Full");
    assert_eq!(track.aka, Some("Whole".to_string()));
    assert_eq!(track.directory, "full-dir");
    assert_eq!(track.duration, 123);
    assert_eq!(track.original_date, Some(date(2009, 6, 1)));
    assert_eq!(track.cover_art_date, date(2009, 7, 2));
    assert_eq!(track.references, strings(&["Other"]));
    assert_eq!(track.artists, Some(vec![who("A")]));
    assert_eq!(
        track.cover_artists,
        Some(vec![Contributor { who: "P".to_string(), what: Some("paint".to_string()) }])
    );
    assert_eq!(track.art_tags, strings(&["X", "Y"]));
    assert_eq!(
        track.contributors,
        vec![Contributor { who: "C".to_string(), what: Some("bass".to_string()) }]
    );
    assert_eq!(track.urls, strings(&["https://u.example"]));
    assert_eq!(track.commentary, Some("words".to_string()));
    assert_eq!(track.lyrics, Some("la\nla".to_string()));
    assert_eq!(track.group, "G");
    assert_eq!(track.color, "#111111");
}

#[test]
fn track_takes_the_album_artists_where_it_names_none() {
    let album_artists = Some(vec![who("Album Artist")]);
    let track =
        parse_track("Track: T", "", "", date(2010, 1, 1), &album_artists, "#222222", 1).unwrap();
    assert_eq!(track.artists, album_artists);
    let track = parse_track(
        "Track: T\nArtist: Own",
        "",
        "",
        date(2010, 1, 1),
        &album_artists,
        "#222222",
        1,
    )
    .unwrap();
    assert_eq!(track.artists, Some(vec![who("Own")]));
    let track = parse_track(
        "Track: T\nArtist: Single\nArtists:\n- Several",
        "",
        "",
        date(2010, 1, 1),
        &None,
        "#222222",
        1,
    )
    .unwrap();
    assert_eq!(track.artists, Some(vec![who("Several")]));
}

#[test]
fn track_cover_art_date_falls_back_in_order() {
    let fallback = date(2010, 1, 1);
    let t = parse_track("Track: T\nOriginal Date: May 1, 2009", "", "", fallback, &None, "", 1)
        .unwrap();
    assert_eq!(t.cover_art_date, date(2009, 5, 1));
    let t = parse_track(
        "Track: T\nOriginal Date: May 1, 2009\nCover Art Date: May 2, 2009",
        "",
        "",
        fallback,
        &None,
        "",
        1,
    )
    .unwrap();
    assert_eq!(t.cover_art_date, date(2009, 5, 2));
}

#[test]
fn track_title_has_its_character_references_resolved() {
    let t = parse_track("Track: Rock &amp; Roll &#33;", "", "", date(2010, 1, 1), &None, "", 1)
        .unwrap();
    assert_eq!(t.name, "Rock & Roll !");
    assert_eq!(t.directory, "rock-and-roll");
}

#[test]
fn track_title_with_a_bad_reference_is_kept_as_written() {
    let t = parse_track("Track: This &bogus; That", "", "", date(2010, 1, 1), &None, "", 1)
        .unwrap();
    assert_eq!(t.name, "This &bogus; That");
    let t = parse_track("Track: Salt & Pepper", "", "", date(2010, 1, 1), &None, "", 1).unwrap();
    assert_eq!(t.name, "Salt & Pepper");
    assert_eq!(t.directory, "salt-and-pepper");
}

#[test]
fn track_without_a_title_fails() {
    assert_eq!(
        parse_track("Duration: 1:00", "", "", date(2010, 1, 1), &None, "", 1),
        Err(missing("Track"))
    );
}

#[test]
fn track_with_a_bad_date_fails() {
    assert_eq!(
        parse_track("Track: T\nOriginal Date: never", "", "", date(2010, 1, 1), &None, "", 1),
        Err(Error::DateParseFailure { field: "Original Date".to_string() })
    );
    assert_eq!(
        parse_track("Track: T\nCover Art Date: never", "", "", date(2010, 1, 1), &None, "", 1),
        Err(Error::DateParseFailure { field: "Cover Art Date".to_string() })
    );
}

#[test]
fn track_duration_of_another_form_is_zero() {
    let t = parse_track("Track: T\nDuration: long", "", "", date(2010, 1, 1), &None, "", 1)
        .unwrap();
    assert_eq!(t.duration, 0);
}

#[test]
fn album_fields_are_read_from_the_first_section() {
    let album = parse_album(ALBUM).unwrap();
    assert_eq!(album.name, "Test Album");
    assert_eq!(
        album.artists,
        Some(vec![who("Alice"), Contributor { who: "Bob".to_string(), what: Some("drums".to_string()) }])
    );
    assert_eq!(album.date, date(2010, 3, 1));
    assert_eq!(album.track_art_date, date(2010, 3, 1));
    assert_eq!(album.cover_art_date, date(2010, 3, 1));
    assert_eq!(album.cover_artists, None);
    assert!(album.has_track_art);
    assert_eq!(album.track_cover_artists, None);
    assert_eq!(album.art_tags, Vec::<String>::new());
    assert_eq!(album.commentary, Some("An album.\nFor tests.".to_string()));
    assert_eq!(album.urls, strings(&["https://store.example/album/test"]));
    assert_eq!(album.groups, strings(&["Official", "Test"]));
    assert_eq!(album.directory, "test-album");
    assert!(!album.is_major_release);
    assert_eq!(album.color, "#112233");
    assert!(album.uses_groups);
    assert_eq!(album.tracks.len(), 5);
}

#[test]
fn album_tracks_are_numbered_across_groups() {
    let doc = "Album: A\nDate: May 1, 2010\n--------\nGroup: One\n--------\nTrack: a\n--------\nTrack: b\n--------\nGroup: Two\n--------\nTrack: c\n--------\nTrack: d\n--------\nTrack: e\n";
    let album = parse_album(doc).unwrap();
    let numbers: Vec<usize> = album.tracks.iter().map(|t| t.track_num).collect();
    assert_eq!(numbers, vec![1, 2, 3, 4, 5]);
    let names: Vec<&str> = album.tracks.iter().map(|t| t.name.as_str()).collect();
    assert_eq!(names, vec!["a", "b", "c", "d", "e"]);
    let groups: Vec<&str> = album.tracks.iter().map(|t| t.group.as_str()).collect();
    assert_eq!(groups, vec!["One", "One", "Two", "Two", "Two"]);
}

#[test]
fn album_tracks_stand_in_their_groups() {
    let album = parse_album(ALBUM).unwrap();
    let seen: Vec<(usize, &str, &str, &str)> = album
        .tracks
        .iter()
        .map(|t| (t.track_num, t.name.as_str(), t.group.as_str(), t.color.as_str()))
        .collect();
    assert_eq!(
        seen,
        vec![
            (1, "Opening", "", "#112233"),
            (2, "Second & Third", "Disc One", "#aabbcc"),
            (3, "Fourth", "Disc One", "#aabbcc"),
            (4, "Fifth", "Disc Two", "#112233"),
            (5, "Sixth", "Disc Two", "#112233"),
        ]
    );
}

#[test]
fn album_tracks_carry_their_own_fields() {
    let album = parse_album(ALBUM).unwrap();
    assert_eq!(album.tracks[0].duration, 90);
    assert_eq!(album.tracks[0].urls, strings(&["https://store.example/track/opening"]));
    assert_eq!(album.tracks[0].artists, album.artists);
    assert_eq!(album.tracks[0].directory, "opening");
    assert_eq!(album.tracks[1].artists, Some(vec![who("Carol")]));
    assert_eq!(album.tracks[1].directory, "second");
    assert_eq!(album.tracks[1].original_date, Some(date(2009, 2, 2)));
    assert_eq!(album.tracks[1].cover_art_date, date(2009, 2, 2));
    assert_eq!(album.tracks[2].cover_artists, None);
    assert_eq!(album.tracks[2].cover_art_date, date(2010, 3, 1));
    assert_eq!(album.tracks[3].cover_art_date, date(2011, 5, 5));
    assert_eq!(
        album.tracks[3].cover_artists,
        Some(vec![Contributor { who: "Dave".to_string(), what: Some("pencils".to_string()) }])
    );
}

#[test]
fn album_without_groups_uses_none() {
    let album = parse_album("Album: A\nDate: May 1, 2010\n--------\nTrack: a\n").unwrap();
    assert!(!album.uses_groups);
    assert_eq!(album.color, "#0088ff");
    assert_eq!(album.tracks[0].color, "#0088ff");
    assert_eq!(album.tracks[0].group, "");
    assert_eq!(album.artists, None);
    assert_eq!(album.tracks[0].artists, None);
}

#[test]
fn album_reads_its_flags_and_dates() {
    let doc = "Album: A\nArtist: Solo\nDate: May 1, 2010\nTrack Art Date: May 2, 2010\nCover Art Date: May 3, 2010\nHas Track Art: no\nMajor Release: yes\nDirectory: custom\nCover Art:\n- Painter\nTrack Art: Sketcher\nArt Tags:\n- Tag\n--------\nTrack: a\n";
    let album = parse_album(doc).unwrap();
    assert_eq!(album.artists, Some(vec![who("Solo")]));
    assert_eq!(album.track_art_date, date(2010, 5, 2));
    assert_eq!(album.cover_art_date, date(2010, 5, 3));
    assert!(!album.has_track_art);
    assert!(album.is_major_release);
    assert_eq!(album.directory, "custom");
    assert_eq!(album.cover_artists, Some(vec![who("Painter")]));
    assert_eq!(album.track_cover_artists, Some(vec![who("Sketcher")]));
    assert_eq!(album.art_tags, strings(&["Tag"]));
    assert_eq!(album.tracks[0].cover_art_date, date(2010, 5, 2));
}

#[test]
fn album_group_without_a_color_takes_the_album_color() {
    let doc = "Album: A\nDate: May 1, 2010\nFG: #010203\n--------\nGroup: G\n--------\nTrack: a\n";
    let album = parse_album(doc).unwrap();
    assert_eq!(album.tracks[0].color, "#010203");
    assert_eq!(album.tracks[0].group, "G");
}

#[test]
fn album_without_a_name_fails() {
    assert_eq!(parse_album("Date: May 1, 2010\n"), Err(missing("Album")));
}

#[test]
fn album_without_a_date_fails() {
    assert_eq!(parse_album("Album: A\n"), Err(missing("Date")));
}

#[test]
fn album_with_a_bad_date_fails() {
    assert_eq!(
        parse_album("Album: A\nDate: whenever\n"),
        Err(Error::DateParseFailure { field: "Date".to_string() })
    );
    assert_eq!(
        parse_album("Album: A\nDate: May 1, 2010\nTrack Art Date: x\n"),
        Err(Error::DateParseFailure { field: "Track Art Date".to_string() })
    );
    assert_eq!(
        parse_album("Album: A\nDate: May 1, 2010\nCover Art Date: x\n"),
        Err(Error::DateParseFailure { field: "Cover Art Date".to_string() })
    );
}

#[test]
fn album_without_an_album_section_fails() {
    assert_eq!(parse_album(""), Err(Error::SectionSplitAnomaly));
    assert_eq!(parse_album("\n  \n"), Err(Error::SectionSplitAnomaly));
    assert_eq!(
        parse_album("--------\nAlbum: A\nDate: May 1, 2010\n"),
        Err(Error::SectionSplitAnomaly)
    );
}

#[test]
fn album_with_a_section_that_is_neither_group_nor_track_fails() {
    let doc = "Album: A\nDate: May 1, 2010\n--------\nTrack: a\n--------\nNote: stray\n";
    assert_eq!(parse_album(doc), Err(missing("Track")));
}

#[test]
fn album_fails_with_the_failure_of_its_first_bad_track() {
    let doc = "Album: A\nDate: May 1, 2010\nCover Art Date: bad\n--------\nTrack: a\nOriginal Date: bad\n--------\nStray: x\n";
    assert_eq!(parse_album(doc), Err(Error::DateParseFailure { field: "Original Date".to_string() }));
}
