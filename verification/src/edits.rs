//! What is written into a file's tags once its track is known.
//!
//! Reading and writing tags and pictures is done elsewhere. Decided here is
//! which picture a file gets, which artists and album it is tagged with,
//! and how the failures of a run are reported.

use crate::date::Date;
use crate::fields::{Contributor, ContributorView};
use crate::hsmusic::{Album, AlbumView, Track, TrackView};
use crate::text::{decimal, push_char, push_decimal, same_text};
use vstd::prelude::*;

verus! {

/// Which picture a file gets: its album's cover or its track's own art.
#[derive(Copy, Clone, Debug, PartialEq, Eq, Structural)]
pub enum ArtType {
    AlbumArt,
    TrackArt,
}

/// The picture for the first track of an album, and for the others.
#[derive(Copy, Clone, Debug, PartialEq, Eq, Structural)]
pub struct ArtTypes {
    pub first: ArtType,
    pub rest: ArtType,
}

/// What a run changes in the files' tags.
#[derive(Copy, Clone, Debug, PartialEq, Eq)]
pub struct Edits {
    pub add_artists: bool,
    pub add_art: Option<ArtTypes>,
    pub add_album: bool,
}

/// A word that names no kind of picture.
#[derive(Debug, PartialEq, Eq)]
pub struct BadArtType {
    pub name: String,
}

/// The kind of picture that a word names.
pub open spec fn art_type_named(word: Seq<char>) -> Option<ArtType> {
    if word == "album"@ || word == "album-art"@ {
        Some(ArtType::AlbumArt)
    } else if word == "track"@ || word == "track-art"@ {
        Some(ArtType::TrackArt)
    } else {
        None
    }
}

impl ArtType {
    /// The kind of picture that `word` names.
    pub fn from_name(word: &str) -> (r: Option<ArtType>)
        ensures
            r == art_type_named(word@),
    {
        if same_text(word, "album") || same_text(word, "album-art") {
            Some(ArtType::AlbumArt)
        } else if same_text(word, "track") || same_text(word, "track-art") {
            Some(ArtType::TrackArt)
        } else {
            None
        }
    }
}

impl std::str::FromStr for ArtType {
    type Err = BadArtType;

    fn from_str(s: &str) -> (r: Result<ArtType, BadArtType>)
        ensures
            match art_type_named(s@) {
                Some(art) => r == Ok::<ArtType, BadArtType>(art),
                None => r matches Err(e) && e.name@ == s@,
            },
    {
        match ArtType::from_name(s) {
            Some(art) => Ok(art),
            None => Err(BadArtType { name: s.to_owned() }),
        }
    }
}

/// The album, place and date that a file is tagged with.
#[derive(Debug, PartialEq, Eq)]
pub struct AlbumTags {
    pub album: String,
    pub track_num: usize,
    pub date: Date,
}

/// What is written into one file's tags.
#[derive(Debug, PartialEq, Eq)]
pub struct TagEdits {
    pub art: Option<ArtType>,
    pub artists: Option<String>,
    pub album: Option<AlbumTags>,
}

/// [`AlbumTags`] as a mathematical value.
pub ghost struct AlbumTagsView {
    pub album: Seq<char>,
    pub track_num: nat,
    pub date: Date,
}

/// [`TagEdits`] as a mathematical value.
pub ghost struct TagEditsView {
    pub art: Option<ArtType>,
    pub artists: Option<Seq<char>>,
    pub album: Option<AlbumTagsView>,
}

impl View for AlbumTags {
    type V = AlbumTagsView;

    open spec fn view(&self) -> AlbumTagsView {
        AlbumTagsView { album: self.album@, track_num: self.track_num as nat, date: self.date }
    }
}

impl DeepView for AlbumTags {
    type V = AlbumTagsView;

    open spec fn deep_view(&self) -> AlbumTagsView {
        self.view()
    }
}

impl View for TagEdits {
    type V = TagEditsView;

    open spec fn view(&self) -> TagEditsView {
        TagEditsView {
            art: self.art,
            artists: self.artists.deep_view(),
            album: self.album.deep_view(),
        }
    }
}

/// The picture for a file: that of a first track where the file's place in
/// its album is the first, and that of the others where not. The place is
/// the canonical one where the file is tagged anew with its album, and the
/// one that the file states where not.
pub open spec fn art_choice(edits: Edits, canonical_num: nat, file_num: nat) -> Option<ArtType> {
    match edits.add_art {
        Some(types) => {
            let place = if edits.add_album {
                canonical_num
            } else {
                file_num
            };
            Some(
                if place <= 1 {
                    types.first
                } else {
                    types.rest
                },
            )
        },
        None => None,
    }
}

/// The names of the contributors, with a comma and a space between each
/// two.
pub open spec fn names_of(list: Seq<ContributorView>) -> Seq<char>
    decreases list.len(),
{
    if list.len() == 0 {
        Seq::empty()
    } else if list.len() == 1 {
        list[0].who
    } else {
        names_of(list.drop_last()) + ", "@ + list.last().who
    }
}

/// What is written into the tags of a file that holds `track` of `album`
/// and states `file_num` as its place.
pub open spec fn planned(edits: Edits, album: AlbumView, track: TrackView, file_num: nat)
    -> TagEditsView {
    TagEditsView {
        art: art_choice(edits, track.track_num, file_num),
        artists: match track.artists {
            Some(list) => if edits.add_artists {
                Some(names_of(list))
            } else {
                None
            },
            None => None,
        },
        album: if edits.add_album {
            Some(AlbumTagsView { album: album.name, track_num: track.track_num, date: album.date })
        } else {
            None
        },
    }
}

/// The name of the picture file for a track, without its ending: the
/// track's directory for its own art, and `cover` for its album's.
pub open spec fn art_stem_of(track: TrackView, art: ArtType) -> Seq<char> {
    match art {
        ArtType::TrackArt => track.directory,
        ArtType::AlbumArt => "cover"@,
    }
}

/// The report of a run's failures: none where there are none, and else a
/// heading, the first five failures, and the number of those left out.
pub open spec fn report_of(failures: Seq<Seq<char>>) -> Option<Seq<char>> {
    if failures.len() == 0 {
        None
    } else if failures.len() <= 5 {
        Some(report_lines(failures, failures.len() as int))
    } else {
        Some(
            report_lines(failures, 5) + "* ...and "@ + decimal((failures.len() - 5) as nat)
                + " more\n"@,
        )
    }
}

/// The heading and the first `n` failures, one on each line.
pub open spec fn report_lines(failures: Seq<Seq<char>>, n: int) -> Seq<char>
    decreases n,
{
    if n <= 0 {
        "Errors:\n"@
    } else {
        report_lines(failures, n - 1) + "* "@ + failures[n - 1] + "\n"@
    }
}

/// The names of the contributors, with a comma and a space between each
/// two.
pub fn contributor_names(list: &Vec<Contributor>) -> (r: String)
    ensures
        r@ == names_of(list.deep_view()),
{
    let mut r = String::new();
    if list.len() == 0 {
        return r;
    }
    r.append(list[0].who.as_str());
    let mut k: usize = 1;
    proof {
        assert(list.deep_view().take(1) =~= seq![list[0]@]);
        assert(r@ =~= list[0]@.who);
    }
    while k < list.len()
        invariant
            1 <= k <= list.len(),
            r@ == names_of(list.deep_view().take(k as int)),
        decreases list.len() - k,
    {
        let ghost before = list.deep_view().take(k as int);
        r.append(", ");
        r.append(list[k].who.as_str());
        k += 1;
        proof {
            let now = list.deep_view().take(k as int);
            assert(now.drop_last() =~= before);
            assert(now.last() == list[k - 1]@);
        }
    }
    proof {
        assert(list.deep_view().take(k as int) =~= list.deep_view());
    }
    r
}

/// What is written into the tags of a file that holds `track` of `album`
/// and states `file_track_num` as its place.
pub fn plan_edits(edits: &Edits, album: &Album, track: &Track, file_track_num: usize) -> (r:
    TagEdits)
    ensures
        r@ == planned(*edits, album@, track@, file_track_num as nat),
{
    let art = match edits.add_art {
        Some(types) => {
            let place = if edits.add_album {
                track.track_num
            } else {
                file_track_num
            };
            Some(
                if place <= 1 {
                    types.first
                } else {
                    types.rest
                },
            )
        },
        None => None,
    };
    let artists = match &track.artists {
        Some(list) => if edits.add_artists {
            Some(contributor_names(list))
        } else {
            None
        },
        None => None,
    };
    let album_tags = if edits.add_album {
        Some(AlbumTags { album: album.name.clone(), track_num: track.track_num, date: album.date })
    } else {
        None
    };
    TagEdits { art, artists, album: album_tags }
}

/// The name of the picture file for a track, without its ending.
pub fn art_stem(track: &Track, art: ArtType) -> (r: String)
    ensures
        r@ == art_stem_of(track@, art),
{
    match art {
        ArtType::TrackArt => track.directory.clone(),
        ArtType::AlbumArt => "cover".to_owned(),
    }
}

/// The report of a run's failures.
pub fn report(failures: &Vec<String>) -> (r: Option<String>)
    ensures
        r.deep_view() == report_of(failures.deep_view()),
{
    if failures.len() == 0 {
        return None;
    }
    let shown: usize = if failures.len() <= 5 { failures.len() } else { 5 };
    let mut out = String::new();
    out.append("Errors:\n");
    let mut k: usize = 0;
    proof {
        assert(out@ =~= "Errors:\n"@);
    }
    while k < shown
        invariant
            k <= shown <= failures.len(),
            out@ == report_lines(failures.deep_view(), k as int),
        decreases shown - k,
    {
        let ghost before = out@;
        out.append("* ");
        out.append(failures[k].as_str());
        push_char(&mut out, '\n');
        proof {
            reveal_strlit("\n");
            assert("\n"@ =~= seq!['\n']);
            assert(out@ =~= before + "* "@ + failures[k as int]@ + "\n"@);
        }
        k += 1;
    }
    if failures.len() > 5 {
        let ghost before = out@;
        out.append("* ...and ");
        push_decimal(&mut out, failures.len() - 5);
        out.append(" more\n");
        proof {
            assert(out@ =~= before + "* ...and "@ + decimal((failures.len() - 5) as nat)
                + " more\n"@);
        }
    }
    Some(out)
}

} // verus!
