use hsmusicifier::bandcamp::{album_from_listing, Album, Listing, Track};
use hsmusicifier::html::{decode_text, show_text, text_from_decoded};

fn listing(name: &str, url: &str, position: usize) -> Listing {
    Listing { name: name.to_string(), url: url.to_string(), position }
}

#[test]
fn listed_album_has_its_titles_decoded() {
    let album = album_from_listing(
        "Rock &amp; Roll",
        vec![listing("One &lt;3", "https://s.example/one", 1), listing("Two", "https://s.example/two", 2)],
    );
    assert_eq!(
        album,
        Some(Album {
            name: "Rock & Roll".to_string(),
            tracks: vec![
                Track { name: "One <3".to_string(), url: "https://s.example/one".to_string(), num: 1 },
                Track { name: "Two".to_string(), url: "https://s.example/two".to_string(), num: 2 },
            ],
        })
    );
}

#[test]
fn listed_album_without_tracks() {
    assert_eq!(
        album_from_listing("Empty", vec![]),
        Some(Album { name: "Empty".to_string(), tracks: vec![] })
    );
}

#[test]
fn listed_album_with_a_bad_title_is_none() {
    assert_eq!(album_from_listing("A &nope; B", vec![]), None);
    assert_eq!(album_from_listing("Fine", vec![listing("Q & A", "u", 1)]), None);
    assert_eq!(
        album_from_listing("Fine", vec![listing("ok", "u", 1), listing("&#xZZ;", "v", 2)]),
        None
    );
}

#[test]
fn text_is_decoded_or_rejected() {
    assert_eq!(decode_text("a &amp; b"), Some("a & b".to_string()));
    assert_eq!(decode_text("&#65;&#x42;"), Some("AB".to_string()));
    assert_eq!(decode_text("plain"), Some("plain".to_string()));
    assert_eq!(decode_text("a & b"), None);
    assert_eq!(decode_text("&unknown;"), None);
}

#[test]
fn shown_text_keeps_what_does_not_decode() {
    assert_eq!(show_text("a &amp; b"), "a & b");
    assert_eq!(show_text("a & b"), "a & b");
    assert_eq!(show_text("&unknown;"), "&unknown;");
}

#[test]
fn decoder_answer_is_taken_or_the_raw_text_kept() {
    assert_eq!(text_from_decoded("raw", Ok("cooked".to_string())), "cooked");
    let rejected = htmlescape::decode_html("&").unwrap_err();
    assert_eq!(text_from_decoded("raw &", Err(rejected)), "raw &");
}
