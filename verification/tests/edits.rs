use hsmusicifier::date::Date;
use hsmusicifier::edits::{
    art_stem, contributor_names, plan_edits, report, AlbumTags, ArtType, ArtTypes, BadArtType,
    Edits, TagEdits,
};
use hsmusicifier::error::Error;
use hsmusicifier::fields::Contributor;
use hsmusicifier::hsmusic::{parse_album, Album};

fn who(name: &str) -> Contributor {
    Contributor { who: name.to_string(), what: None }
}

fn album() -> Album {
    parse_album(
        "Album: A\nDate: May 1, 2010\n--------\nTrack: One\nArtists:\n- X\n- Y (remix)\n--------\nTrack: Two\nDirectory: second\n",
    )
    .unwrap()
}

const TYPES: ArtTypes = ArtTypes { first: ArtType::AlbumArt, rest: ArtType::TrackArt };

#[test]
fn art_type_is_read_from_its_name() {
    assert_eq!(ArtType::from_name("album"), Some(ArtType::AlbumArt));
    assert_eq!(ArtType::from_name("album-art"), Some(ArtType::AlbumArt));
    assert_eq!(ArtType::from_name("track"), Some(ArtType::TrackArt));
    assert_eq!(ArtType::from_name("track-art"), Some(ArtType::TrackArt));
    assert_eq!(ArtType::from_name("Album"), None);
    assert_eq!(ArtType::from_name(""), None);
}

#[test]
fn art_type_is_parsed_from_a_string() {
    assert_eq!("album".parse::<ArtType>(), Ok(ArtType::AlbumArt));
    assert_eq!("track-art".parse::<ArtType>(), Ok(ArtType::TrackArt));
    assert_eq!("cover".parse::<ArtType>(), Err(BadArtType { name: "cover".to_string() }));
}

#[test]
fn first_track_gets_the_first_kind_of_art() {
    let album = album();
    let edits = Edits { add_artists: false, add_art: Some(TYPES), add_album: false };
    assert_eq!(plan_edits(&edits, &album, &album.tracks[1], 1).art, Some(ArtType::AlbumArt));
    assert_eq!(plan_edits(&edits, &album, &album.tracks[1], 0).art, Some(ArtType::AlbumArt));
    assert_eq!(plan_edits(&edits, &album, &album.tracks[0], 2).art, Some(ArtType::TrackArt));
}

#[test]
fn art_goes_by_the_canonical_place_where_the_album_is_added() {
    let album = album();
    let edits = Edits { add_artists: false, add_art: Some(TYPES), add_album: true };
    assert_eq!(plan_edits(&edits, &album, &album.tracks[1], 1).art, Some(ArtType::TrackArt));
    assert_eq!(plan_edits(&edits, &album, &album.tracks[0], 2).art, Some(ArtType::AlbumArt));
}

#[test]
fn nothing_is_planned_where_nothing_is_asked() {
    let album = album();
    let edits = Edits { add_artists: false, add_art: None, add_album: false };
    assert_eq!(
        plan_edits(&edits, &album, &album.tracks[0], 1),
        TagEdits { art: None, artists: None, album: None }
    );
}

#[test]
fn artists_and_album_are_planned() {
    let album = album();
    let edits = Edits { add_artists: true, add_art: None, add_album: true };
    assert_eq!(
        plan_edits(&edits, &album, &album.tracks[0], 9),
        TagEdits {
            art: None,
            artists: Some("X, Y".to_string()),
            album: Some(AlbumTags {
                album: "A".to_string(),
                track_num: 1,
                date: Date { year: 2010, month: 5, day: 1 },
            }),
        }
    );
    assert_eq!(plan_edits(&edits, &album, &album.tracks[1], 9).artists, None);
    assert_eq!(plan_edits(&edits, &album, &album.tracks[1], 9).album.unwrap().track_num, 2);
}

#[test]
fn contributor_names_are_joined() {
    assert_eq!(contributor_names(&vec![]), "");
    assert_eq!(contributor_names(&vec![who("A")]), "A");
    assert_eq!(contributor_names(&vec![who("A"), who("B"), who("C")]), "A, B, C");
}

#[test]
fn art_file_is_named_after_the_track_or_the_cover() {
    let album = album();
    assert_eq!(art_stem(&album.tracks[0], ArtType::TrackArt), "one");
    assert_eq!(art_stem(&album.tracks[1], ArtType::TrackArt), "second");
    assert_eq!(art_stem(&album.tracks[1], ArtType::AlbumArt), "cover");
}

#[test]
fn report_lists_up_to_five_failures() {
    let failures: Vec<String> = (1..=3).map(|i| format!("failure {}", i)).collect();
    assert_eq!(report(&vec![]), None);
    assert_eq!(
        report(&failures),
        Some("Errors:\n* failure 1\n* failure 2\n* failure 3\n".to_string())
    );
    let failures: Vec<String> = (1..=5).map(|i| format!("f{}", i)).collect();
    assert_eq!(report(&failures), Some("Errors:\n* f1\n* f2\n* f3\n* f4\n* f5\n".to_string()));
}

#[test]
fn report_counts_the_failures_left_out() {
    let failures: Vec<String> = (1..=6).map(|i| format!("f{}", i)).collect();
    assert_eq!(
        report(&failures),
        Some("Errors:\n* f1\n* f2\n* f3\n* f4\n* f5\n* ...and 1 more\n".to_string())
    );
    let failures: Vec<String> = (1..=125).map(|i| format!("f{}", i)).collect();
    assert_eq!(
        report(&failures),
        Some("Errors:\n* f1\n* f2\n* f3\n* f4\n* f5\n* ...and 120 more\n".to_string())
    );
}

#[test]
fn errors_say_what_failed() {
    assert_eq!(
        Error::MissingMandatoryField { field: "Album".to_string() }.message(),
        "missing field Album"
    );
    assert_eq!(
        Error::DateParseFailure { field: "Date".to_string() }.message(),
        "no date in field Date"
    );
    assert_eq!(Error::SectionSplitAnomaly.message(), "no album section");
    assert_eq!(
        Error::PositionOutOfRange { album: "A".to_string(), title: "T".to_string(), position: 40 }
            .message(),
        "no track T in album A and none at place 40"
    );
    assert_eq!(
        Error::PositionOutOfRange { album: "A".to_string(), title: "T".to_string(), position: 0 }
            .message(),
        "no track T in album A and none at place 0"
    );
    assert_eq!(
        Error::AlbumNotFound { album: "A".to_string(), title: "T".to_string() }.message(),
        "no album A for track T"
    );
    assert_eq!(
        Error::TrackNotFound { album: "A".to_string(), title: "T".to_string() }.message(),
        "no track T in storefront album A"
    );
    assert_eq!(
        Error::UrlNotIndexed { track: "T".to_string(), url: "https://u".to_string() }.message(),
        "no canonical track for T at https://u"
    );
}
