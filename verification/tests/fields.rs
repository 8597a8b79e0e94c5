use hsmusicifier::fields::{
    get_basic_field, get_contribution_field, get_list_field, get_multiline_field,
    parse_contributor, Contributor, Section,
};
use hsmusicifier::text::{lines_of, replace, split, trim};

fn strings(items: &[&str]) -> Vec<String> {
    items.iter().map(|s| s.to_string()).collect()
}

fn contributor(who: &str, what: Option<&str>) -> Contributor {
    Contributor { who: who.to_string(), what: what.map(|w| w.to_string()) }
}

#[test]
fn lines_end_at_line_feeds() {
    assert_eq!(lines_of("a\nb\n"), strings(&["a", "b"]));
    assert_eq!(lines_of("a\nb"), strings(&["a", "b"]));
    assert_eq!(lines_of("a\n\nb"), strings(&["a", "", "b"]));
    assert_eq!(lines_of(""), Vec::<String>::new());
    assert_eq!(lines_of("\n"), strings(&[""]));
}

#[test]
fn lines_drop_a_carriage_return_before_a_line_feed() {
    assert_eq!(lines_of("a\r\nb\r\n"), strings(&["a", "b"]));
    assert_eq!(lines_of("a\rb\nc\r"), strings(&["a\rb", "c\r"]));
}

#[test]
fn lines_agree_with_std() {
    for text in ["", "x", "x\n", "x\r\n\r\ny", "\n\n", "a\r", "é\nü\r\n", "\r\n"] {
        let expected: Vec<String> = text.lines().map(|l| l.to_string()).collect();
        assert_eq!(lines_of(text), expected, "{:?}", text);
    }
}

#[test]
fn trim_agrees_with_std() {
    for text in ["", "  a  ", "\t a b \r\n", "\u{a0}x\u{3000}", "x", "   ", "\u{2003}é\u{85}"] {
        assert_eq!(trim(text), text.trim(), "{:?}", text);
    }
}

#[test]
fn split_agrees_with_std() {
    for text in ["", "a", "a,b", ",a,,b,", ",", "a, b"] {
        let expected: Vec<String> = text.split(',').map(|l| l.to_string()).collect();
        assert_eq!(split(text, ','), expected, "{:?}", text);
    }
}

#[test]
fn replace_agrees_with_std() {
    for text in ["", "Febuary", "Febuary 2, Febuary", "FebFebuaryuary", "February", "Febuar"] {
        assert_eq!(replace(text, "Febuary", "February"), text.replace("Febuary", "February"));
    }
    assert_eq!(replace("aaa", "aa", "b"), "ba");
}

#[test]
fn basic_field_is_the_trimmed_rest_of_the_header() {
    let s = "Album: Some Album\nDate:   March 1, 2010  \nFG: #123456";
    assert_eq!(get_basic_field(s, "Album"), Some("Some Album".to_string()));
    assert_eq!(get_basic_field(s, "Date"), Some("March 1, 2010".to_string()));
    assert_eq!(get_basic_field(s, "FG"), Some("#123456".to_string()));
}

#[test]
fn basic_field_is_absent_without_a_header() {
    let s = "Album: Some Album\n Date: indented\nXDate: other";
    assert_eq!(get_basic_field(s, "Date"), None);
    assert_eq!(get_basic_field(s, "Alb"), None);
    assert_eq!(get_basic_field("", "Album"), None);
}

#[test]
fn basic_field_takes_the_first_header() {
    let s = "Track: One\nTrack: Two";
    assert_eq!(get_basic_field(s, "Track"), Some("One".to_string()));
}

#[test]
fn basic_field_names_are_case_sensitive() {
    assert_eq!(get_basic_field("album: x", "Album"), None);
}

#[test]
fn basic_field_of_a_bare_header_is_empty() {
    assert_eq!(get_basic_field("URLs:\nNext: x", "URLs"), Some(String::new()));
    assert_eq!(get_basic_field("URLs:", "URLs"), Some(String::new()));
}

#[test]
fn basic_field_reads_crlf_sections() {
    let s = "Album: Foo\r\nDate: May 2, 2011\r\n";
    assert_eq!(get_basic_field(s, "Album"), Some("Foo".to_string()));
    assert_eq!(get_basic_field(s, "Date"), Some("May 2, 2011".to_string()));
}

#[test]
fn list_field_collects_the_hyphen_lines() {
    let s = "URLs:\n- https://a.example\n- https://b.example\nOther: x\n- not this";
    assert_eq!(
        get_list_field(s, "URLs"),
        Some(strings(&["https://a.example", "https://b.example"]))
    );
}

#[test]
fn list_field_collects_up_to_the_end_of_the_section() {
    let s = "Name: x\nURLs:\n- one\n- two";
    assert_eq!(get_list_field(s, "URLs"), Some(strings(&["one", "two"])));
}

#[test]
fn list_field_with_one_item_before_another_field() {
    let s = "URLs:\n- only\nDuration: 1:00";
    assert_eq!(get_list_field(s, "URLs"), Some(strings(&["only"])));
}

#[test]
fn list_field_splits_an_inline_value_on_commas() {
    let s = "Groups: Official ,  Fandom,Beyond\nNext: y";
    assert_eq!(get_list_field(s, "Groups"), Some(strings(&["Official", "Fandom", "Beyond"])));
    assert_eq!(get_list_field("Art Tags: Dave", "Art Tags"), Some(strings(&["Dave"])));
}

#[test]
fn list_field_prefers_hyphen_lines_to_the_inline_value() {
    let s = "Art Tags: ignored\n- John\n- Rose";
    assert_eq!(get_list_field(s, "Art Tags"), Some(strings(&["John", "Rose"])));
}

#[test]
fn list_field_is_absent_without_a_header() {
    assert_eq!(get_list_field("- a\n- b", "URLs"), None);
}

#[test]
fn list_field_of_a_bare_header_is_absent() {
    assert_eq!(get_list_field("URLs:\nNext: x", "URLs"), None);
    assert_eq!(get_list_field("URLs:", "URLs"), None);
    assert_eq!(get_list_field("URLs:   \n    indented", "URLs"), None);
    assert_eq!(get_contribution_field("Artists:\nNext: x", "Artists"), None);
}

#[test]
fn list_field_keeps_empty_pieces_of_an_inline_value() {
    assert_eq!(get_list_field("Tags: a,,b,", "Tags"), Some(strings(&["a", "", "b", ""])));
    assert_eq!(get_list_field("Tags: ,", "Tags"), Some(strings(&["", ""])));
}

#[test]
fn list_field_needs_the_space_after_the_hyphen() {
    let s = "URLs: inline\n-nospace";
    assert_eq!(get_list_field(s, "URLs"), Some(strings(&["inline"])));
}

#[test]
fn multiline_field_joins_the_indented_lines() {
    let s = "Commentary:\n    first line\n    second line\nTrack: x\n    not this";
    assert_eq!(get_multiline_field(s, "Commentary"), Some("first line\nsecond line".to_string()));
}

#[test]
fn multiline_field_keeps_deeper_indentation() {
    let s = "Lyrics:\n    one\n      two";
    assert_eq!(get_multiline_field(s, "Lyrics"), Some("one\n  two".to_string()));
}

#[test]
fn multiline_field_stops_at_an_empty_line() {
    let s = "Lyrics:\n    one\n\n    two";
    assert_eq!(get_multiline_field(s, "Lyrics"), Some("one".to_string()));
}

#[test]
fn multiline_field_is_absent_without_indented_lines() {
    assert_eq!(get_multiline_field("Note:\nNext: x", "Note"), None);
    assert_eq!(get_multiline_field("Note:", "Note"), None);
    assert_eq!(get_multiline_field("Note: inline only", "Note"), None);
    assert_eq!(get_multiline_field("Note:\n   three spaces", "Note"), None);
}

#[test]
fn multiline_field_is_absent_without_a_header() {
    assert_eq!(get_multiline_field("    text", "Note"), None);
}

#[test]
fn contribution_field_reads_names_and_descriptions() {
    let s = "Artists:\n- A\n- B (vocals)";
    assert_eq!(
        get_contribution_field(s, "Artists"),
        Some(vec![contributor("A", None), contributor("B", Some("vocals"))])
    );
}

#[test]
fn contribution_field_reads_an_inline_list() {
    let s = "Contributors: A (guitar), B";
    assert_eq!(
        get_contribution_field(s, "Contributors"),
        Some(vec![contributor("A", Some("guitar")), contributor("B", None)])
    );
}

#[test]
fn contribution_field_of_none_is_absent() {
    assert_eq!(get_contribution_field("Track Art: none", "Track Art"), None);
    assert_eq!(get_contribution_field("Track Art:\n- none", "Track Art"), None);
    assert_eq!(get_contribution_field("Other: x", "Track Art"), None);
}

#[test]
fn contribution_field_keeps_none_among_others() {
    let s = "Artists:\n- none\n- A";
    assert_eq!(
        get_contribution_field(s, "Artists"),
        Some(vec![contributor("none", None), contributor("A", None)])
    );
}

#[test]
fn contributor_name_ends_at_the_first_bracket() {
    assert_eq!(parse_contributor("B (vocals)"), contributor("B", Some("vocals")));
    assert_eq!(parse_contributor("B (a) (b)"), contributor("B", Some("a) (b")));
    assert_eq!(parse_contributor("B ()"), contributor("B", Some("")));
    assert_eq!(parse_contributor(" (x)"), contributor("", Some("x")));
}

#[test]
fn contributor_without_a_closing_bracket_is_all_name() {
    assert_eq!(parse_contributor("B (vocals"), contributor("B (vocals", None));
    assert_eq!(parse_contributor("B(vocals)"), contributor("B(vocals)", None));
    assert_eq!(parse_contributor("B (vocals) x"), contributor("B (vocals) x", None));
    assert_eq!(parse_contributor(""), contributor("", None));
}

#[test]
fn section_methods_agree_with_the_field_functions() {
    let text = "Artist: X\nURLs:\n- u\nNote:\n    n";
    let section = Section::parse(text);
    assert_eq!(section.basic("Artist"), get_basic_field(text, "Artist"));
    assert_eq!(section.list("URLs"), get_list_field(text, "URLs"));
    assert_eq!(section.multiline("Note"), get_multiline_field(text, "Note"));
    assert_eq!(section.contribution("Artist"), get_contribution_field(text, "Artist"));
    assert_eq!(section.find_header("Note"), 3);
    assert_eq!(section.find_header("Missing"), 5);
}
