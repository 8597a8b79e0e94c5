use hsmusicifier::document::split_sections;

fn strings(items: &[&str]) -> Vec<String> {
    items.iter().map(|s| s.to_string()).collect()
}

#[test]
fn document_without_a_separator_is_one_section() {
    assert_eq!(split_sections("Album: x\nDate: y\n"), strings(&["Album: x\nDate: y\n"]));
    assert_eq!(split_sections(""), strings(&[""]));
}

#[test]
fn document_is_split_at_lines_of_eight_hyphens() {
    let doc = "Album: x\n--------\nTrack: a\n--------\nTrack: b\n";
    assert_eq!(split_sections(doc), strings(&["Album: x\n", "Track: a\n", "Track: b\n"]));
}

#[test]
fn longer_separators_split_too() {
    let doc = "a\n------------------------------\nb";
    assert_eq!(split_sections(doc), strings(&["a\n", "b"]));
}

#[test]
fn seven_hyphens_are_no_separator() {
    let doc = "a\n-------\nb";
    assert_eq!(split_sections(doc), strings(&[doc]));
}

#[test]
fn separator_stands_alone_on_its_line() {
    assert_eq!(split_sections("a\n--------x\nb"), strings(&["a\n--------x\nb"]));
    assert_eq!(split_sections("a\n --------\nb"), strings(&["a\n --------\nb"]));
    assert_eq!(split_sections("a--------\nb"), strings(&["a--------\nb"]));
    assert_eq!(split_sections("a\n--------\r\nb"), strings(&["a\n--------\r\nb"]));
}

#[test]
fn separator_needs_its_line_feed() {
    assert_eq!(split_sections("a\n--------"), strings(&["a\n--------"]));
}

#[test]
fn separators_at_the_ends_leave_empty_sections() {
    assert_eq!(split_sections("--------\na\n"), strings(&["", "a\n"]));
    assert_eq!(split_sections("a\n--------\n"), strings(&["a\n", ""]));
    assert_eq!(split_sections("--------\n--------\n"), strings(&["", "", ""]));
}
