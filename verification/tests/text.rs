use hsmusicifier::date::date_input;
use hsmusicifier::slug::get_kebab_case;
use hsmusicifier::text::{
    after_first, chars_of, is_space_char, same_text, starts_with, strip_suffix,
};

const SAMPLES: [&str; 16] = [
    "",
    " ",
    "a",
    "Homestuck & Friends!",
    "  leading and trailing  ",
    "--a--b--",
    "A - B - C",
    "x [UNOFFICIAL ALBUM]",
    "x [UNOFFICIAL ALBUM] [UNOFFICIAL ALBUM]",
    " - ",
    "a - ",
    "Febuary 13, 2012 (the date, roughly)",
    "Ünïcödé & more — dashes",
    "tabs\tand\nnewlines",
    "a  b   c    d",
    "& & &",
];

#[test]
fn white_space_is_what_std_calls_white_space() {
    for c in (0..=0x10ffffu32).filter_map(char::from_u32) {
        assert_eq!(is_space_char(c), c.is_whitespace(), "{:?}", c);
    }
}

#[test]
fn characters_are_kept_in_order() {
    for text in SAMPLES {
        assert_eq!(chars_of(text), text.chars().collect::<Vec<char>>());
    }
}

#[test]
fn prefixes_agree_with_std() {
    for text in SAMPLES {
        for prefix in SAMPLES {
            assert_eq!(starts_with(text, prefix), text.starts_with(prefix));
            assert_eq!(same_text(text, prefix), text == prefix);
        }
    }
}

#[test]
fn suffixes_are_stripped_as_std_strips_them() {
    for text in SAMPLES {
        for suffix in [" [UNOFFICIAL ALBUM]", " ", "-", "b--", "&"] {
            assert_eq!(strip_suffix(text, suffix), text.trim_end_matches(suffix), "{:?}", text);
        }
        assert_eq!(strip_suffix(text, ""), text);
    }
}

#[test]
fn tail_is_what_follows_the_first_separator() {
    for text in SAMPLES {
        let expected = text.splitn(2, " - ").last().unwrap_or("");
        assert_eq!(after_first(text, " - "), expected, "{:?}", text);
        assert_eq!(after_first(text, ""), text);
    }
}

#[test]
fn date_head_ends_at_the_third_space() {
    for text in SAMPLES {
        let end = text.match_indices(' ').nth(2).map(|(i, _)| i).unwrap_or(text.len());
        let head = &text[..end];
        assert_eq!(
            date_input(text),
            (head.replace("Febuary", "February"), head.contains(',')),
            "{:?}",
            text
        );
    }
}

fn slug_by_steps(name: &str) -> String {
    let mut pieces = String::new();
    for c in name.chars() {
        match c {
            ' ' => pieces.push('-'),
            '&' => pieces.push_str("and"),
            c if c.is_ascii_alphanumeric() || c == '-' => pieces.push(c.to_ascii_lowercase()),
            _ => {}
        }
    }
    while pieces.contains("--") {
        pieces = pieces.replace("--", "-");
    }
    pieces.trim_matches('-').to_string()
}

#[test]
fn slug_is_made_in_steps() {
    for text in SAMPLES {
        assert_eq!(get_kebab_case(text), slug_by_steps(text), "{:?}", text);
    }
}
