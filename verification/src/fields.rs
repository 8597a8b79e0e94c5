//! The field grammar of a section.
//!
//! A section is a run of lines. A field starts at its header line, the first
//! line that begins with the field's name and a colon, and is read in one of
//! four ways: as the rest of that line, as a list, as an indented block, or
//! as a list of contributors.

use crate::text::{
    chars_of, find_in, find_sub, lines, lines_of, same_text, split, split_on, starts_with,
    string_of, trim, trim_bounds, trimmed,
};
use vstd::prelude::*;

verus! {

/// A person or group, and what they did where the catalog says so.
#[derive(Debug, PartialEq, Eq)]
pub struct Contributor {
    pub who: String,
    pub what: Option<String>,
}

/// A [`Contributor`] as a mathematical value.
pub ghost struct ContributorView {
    pub who: Seq<char>,
    pub what: Option<Seq<char>>,
}

impl View for Contributor {
    type V = ContributorView;

    open spec fn view(&self) -> ContributorView {
        ContributorView { who: self.who@, what: self.what.deep_view() }
    }
}

impl DeepView for Contributor {
    type V = ContributorView;

    open spec fn deep_view(&self) -> ContributorView {
        self.view()
    }
}

impl Clone for Contributor {
    fn clone(&self) -> (r: Contributor)
        ensures
            r@ == self@,
    {
        Contributor {
            who: self.who.clone(),
            what: match &self.what {
                Some(what) => Some(what.clone()),
                None => None,
            },
        }
    }
}

/// Whether `line` is a header of the field `name`: it starts with the name
/// and a colon.
pub open spec fn is_header(line: Seq<char>, name: Seq<char>) -> bool {
    name.push(':').is_prefix_of(line)
}

/// Index of the first header line of the field, or `lines.len()`.
pub open spec fn header_index(lines: Seq<Seq<char>>, name: Seq<char>) -> int
    decreases lines.len(),
{
    if lines.len() == 0 || is_header(lines[0], name) {
        0
    } else {
        1 + header_index(lines.drop_first(), name)
    }
}

/// What a header line holds behind the colon, without the white space
/// around it.
pub open spec fn header_value(line: Seq<char>, name: Seq<char>) -> Seq<char> {
    trimmed(line.skip((name.len() + 1) as int))
}

/// The lines from index `from` on that start with `prefix`, up to the first
/// line that does not, each without the prefix.
pub open spec fn run(lines: Seq<Seq<char>>, from: int, prefix: Seq<char>) -> Seq<Seq<char>>
    decreases lines.len() - from,
{
    if 0 <= from < lines.len() && prefix.is_prefix_of(lines[from]) {
        seq![lines[from].skip(prefix.len() as int)] + run(lines, from + 1, prefix)
    } else {
        Seq::empty()
    }
}

/// Each piece without the white space around it.
pub open spec fn trim_each(pieces: Seq<Seq<char>>) -> Seq<Seq<char>> {
    Seq::new(pieces.len(), |i: int| trimmed(pieces[i]))
}

/// The pieces in order, with `sep` between each two.
pub open spec fn join(pieces: Seq<Seq<char>>, sep: char) -> Seq<char>
    decreases pieces.len(),
{
    if pieces.len() == 0 {
        Seq::empty()
    } else if pieces.len() == 1 {
        pieces[0]
    } else {
        join(pieces.drop_last(), sep).push(sep) + pieces.last()
    }
}

/// The field read as a single value: the rest of its header line.
pub open spec fn basic_field(lines: Seq<Seq<char>>, name: Seq<char>) -> Option<Seq<char>> {
    let i = header_index(lines, name);
    if 0 <= i < lines.len() {
        Some(header_value(lines[i], name))
    } else {
        None
    }
}

/// The field read as a list: the lines under the header that start with a
/// hyphen and a space or, where there is none, the pieces of the header's
/// own value between commas. A header with neither has no list.
pub open spec fn list_field(lines: Seq<Seq<char>>, name: Seq<char>) -> Option<Seq<Seq<char>>> {
    let i = header_index(lines, name);
    if 0 <= i < lines.len() {
        let items = run(lines, i + 1, "- "@);
        let value = header_value(lines[i], name);
        if items.len() > 0 {
            Some(items)
        } else if value.len() > 0 {
            Some(trim_each(split_on(value, ',')))
        } else {
            None
        }
    } else {
        None
    }
}

/// The field read as a block: the lines under the header that start with
/// four spaces, joined by line feeds. Without such a line there is no block.
pub open spec fn multiline_field(lines: Seq<Seq<char>>, name: Seq<char>) -> Option<Seq<char>> {
    let i = header_index(lines, name);
    let block = run(lines, i + 1, "    "@);
    if 0 <= i < lines.len() && block.len() > 0 {
        Some(join(block, '\n'))
    } else {
        None
    }
}

/// One entry of a contributor list: a name and, where the entry ends in a
/// bracketed description that a space sets off from the name, that
/// description. The name ends at the first space that an opening bracket
/// follows.
pub open spec fn contributor_of(entry: Seq<char>) -> ContributorView {
    let i = find_sub(entry, " ("@);
    if 0 <= i && i + 3 <= entry.len() && entry.last() == ')' {
        ContributorView { who: entry.take(i), what: Some(entry.subrange(i + 2, entry.len() - 1)) }
    } else {
        ContributorView { who: entry, what: None }
    }
}

/// Each entry read as a contributor.
pub open spec fn contributors_of(entries: Seq<Seq<char>>) -> Seq<ContributorView> {
    Seq::new(entries.len(), |i: int| contributor_of(entries[i]))
}

/// Whether a contributor list stands for nobody: it is empty, or its one
/// entry is named `none`.
pub open spec fn is_nobody(list: Seq<ContributorView>) -> bool {
    list.len() == 0 || (list.len() == 1 && list[0].who == "none"@)
}

/// The field read as a list of contributors. A list that stands for nobody
/// is no list.
pub open spec fn contribution_field(lines: Seq<Seq<char>>, name: Seq<char>) -> Option<
    Seq<ContributorView>,
> {
    match list_field(lines, name) {
        Some(entries) => if is_nobody(contributors_of(entries)) {
            None
        } else {
            Some(contributors_of(entries))
        },
        None => None,
    }
}

pub proof fn lemma_header_index_bounds(lines: Seq<Seq<char>>, name: Seq<char>)
    ensures
        0 <= header_index(lines, name) <= lines.len(),
    decreases lines.len(),
{
    if lines.len() > 0 && !is_header(lines[0], name) {
        lemma_header_index_bounds(lines.drop_first(), name);
    }
}

/// The header index is where the first header line is.
pub proof fn lemma_header_index_is(lines: Seq<Seq<char>>, name: Seq<char>, i: int)
    requires
        0 <= i <= lines.len(),
        forall|k: int| 0 <= k < i ==> !is_header(#[trigger] lines[k], name),
        i < lines.len() ==> is_header(lines[i], name),
    ensures
        header_index(lines, name) == i,
    decreases i,
{
    if i > 0 {
        let r = lines.drop_first();
        assert forall|k: int| 0 <= k < i - 1 implies !is_header(#[trigger] r[k], name) by {
            assert(r[k] == lines[k + 1]);
        }
        assert(!is_header(lines[0], name));
        lemma_header_index_is(r, name, i - 1);
    }
}

/// A section: the lines that its fields are read from.
#[derive(Debug, PartialEq, Eq)]
pub struct Section {
    pub lines: Vec<String>,
}

impl View for Section {
    type V = Seq<Seq<char>>;

    open spec fn view(&self) -> Seq<Seq<char>> {
        self.lines.deep_view()
    }
}

/// Whether `line` is a header of the field `name`.
pub fn line_is_header(line: &str, name: &str) -> (b: bool)
    ensures
        b == is_header(line@, name@),
{
    let v = chars_of(line);
    let n = chars_of(name);
    if v.len() <= n.len() {
        return false;
    }
    proof {
        assert(v@.skip(0) =~= v@);
    }
    let head = crate::text::holds_at(&v, 0, &n);
    let colon = v[n.len()] == ':';
    proof {
        let p = n@.push(':');
        let w = v@.subrange(0, p.len() as int);
        if head && colon {
            assert(n@ =~= v@.subrange(0, n@.len() as int));
            assert(p =~= w);
        } else if !head {
            if p =~= w {
                assert(n@ =~= v@.subrange(0, n@.len() as int)) by {
                    assert forall|k: int| 0 <= k < n@.len() implies n@[k] == v@[k] by {
                        assert(p[k] == w[k]);
                    }
                }
            }
        } else {
            assert(p[n@.len() as int] == ':');
            assert(w[n@.len() as int] == v@[n@.len() as int]);
        }
    }
    head && colon
}

/// `s` from its `n`-th character on.
fn skip_chars(s: &str, n: usize) -> (r: String)
    requires
        n <= s@.len(),
    ensures
        r@ == s@.skip(n as int),
{
    let v = chars_of(s);
    string_of(&v, n, v.len())
}

/// What a header line of the field `name` holds behind the colon.
fn value_of_header(line: &str, name: &str) -> (r: String)
    requires
        is_header(line@, name@),
    ensures
        r@ == header_value(line@, name@),
{
    let v = chars_of(line);
    let n = chars_of(name);
    proof {
        assert(name@.push(':').len() == name@.len() + 1);
        assert(n.len() + 1 <= v.len());
        assert(v@.subrange((n@.len() + 1) as int, v@.len() as int) =~= line@.skip(
            (name@.len() + 1) as int,
        ));
    }
    let (a, b) = trim_bounds(&v, n.len() + 1, v.len());
    string_of(&v, a, b)
}

impl Section {
    /// The section that `text` holds, line by line.
    pub fn parse(text: &str) -> (s: Section)
        ensures
            s@ == lines(text@),
    {
        Section { lines: lines_of(text) }
    }

    /// Index of the first header line of the field, or the number of lines.
    pub fn find_header(&self, name: &str) -> (i: usize)
        ensures
            i == header_index(self@, name@),
            i <= self.lines.len(),
            i < self.lines.len() ==> is_header(self.lines[i as int]@, name@),
    {
        let mut i: usize = 0;
        while i < self.lines.len() && !line_is_header(self.lines[i].as_str(), name)
            invariant
                i <= self.lines.len(),
                forall|k: int| 0 <= k < i ==> !is_header(#[trigger] self@[k], name@),
            decreases self.lines.len() - i,
        {
            i += 1;
        }
        proof {
            lemma_header_index_is(self@, name@, i as int);
        }
        i
    }

    /// The lines from index `from` on that start with `prefix`, each
    /// without it.
    fn take_run(&self, from: usize, prefix: &str) -> (out: Vec<String>)
        ensures
            out.deep_view() == run(self@, from as int, prefix@),
    {
        let mut out: Vec<String> = Vec::new();
        let n = crate::text::chars_of(prefix).len();
        let mut j: usize = from;
        proof {
            assert(out.deep_view() + run(self@, from as int, prefix@) =~= run(
                self@,
                from as int,
                prefix@,
            ));
        }
        while j < self.lines.len() && starts_with(self.lines[j].as_str(), prefix)
            invariant
                from <= j,
                n == prefix@.len(),
                run(self@, from as int, prefix@) == out.deep_view() + run(
                    self@,
                    j as int,
                    prefix@,
                ),
            decreases self.lines.len() - j,
        {
            let ghost before = out.deep_view();
            let item = skip_chars(self.lines[j].as_str(), n);
            out.push(item);
            proof {
                assert(out.deep_view() =~= before + seq![item@]);
                assert(before + (seq![item@] + run(self@, j + 1, prefix@)) =~= out.deep_view()
                    + run(self@, j + 1, prefix@));
            }
            j += 1;
        }
        proof {
            assert(out.deep_view() + Seq::<Seq<char>>::empty() =~= out.deep_view());
        }
        out
    }

    /// The field read as a single value.
    pub fn basic(&self, name: &str) -> (r: Option<String>)
        ensures
            r.deep_view() == basic_field(self@, name@),
    {
        let i = self.find_header(name);
        if i < self.lines.len() {
            Some(value_of_header(self.lines[i].as_str(), name))
        } else {
            None
        }
    }

    /// The field read as a list.
    pub fn list(&self, name: &str) -> (r: Option<Vec<String>>)
        ensures
            r.deep_view() == list_field(self@, name@),
    {
        let i = self.find_header(name);
        if i >= self.lines.len() {
            return None;
        }
        let items = self.take_run(i + 1, "- ");
        if items.len() > 0 {
            return Some(items);
        }
        let value = value_of_header(self.lines[i].as_str(), name);
        if value.as_str().is_empty() {
            return None;
        }
        let pieces = split(value.as_str(), ',');
        let mut out: Vec<String> = Vec::new();
        let mut k: usize = 0;
        while k < pieces.len()
            invariant
                k <= pieces.len(),
                out.len() == k,
                forall|j: int| 0 <= j < k ==> out[j]@ == trimmed(#[trigger] pieces[j]@),
            decreases pieces.len() - k,
        {
            out.push(trim(pieces[k].as_str()));
            k += 1;
        }
        proof {
            assert(out.deep_view() =~= trim_each(pieces.deep_view()));
        }
        Some(out)
    }

    /// The field read as a block.
    pub fn multiline(&self, name: &str) -> (r: Option<String>)
        ensures
            r.deep_view() == multiline_field(self@, name@),
    {
        let i = self.find_header(name);
        if i >= self.lines.len() {
            return None;
        }
        let block = self.take_run(i + 1, "    ");
        if block.len() == 0 {
            return None;
        }
        let mut out = String::new();
        out.append(block[0].as_str());
        let mut k: usize = 1;
        proof {
            assert(block.deep_view().take(1) =~= seq![block[0]@]);
        }
        while k < block.len()
            invariant
                1 <= k <= block.len(),
                out@ == join(block.deep_view().take(k as int), '\n'),
            decreases block.len() - k,
        {
            let ghost before = block.deep_view().take(k as int);
            crate::text::push_char(&mut out, '\n');
            out.append(block[k].as_str());
            k += 1;
            proof {
                let now = block.deep_view().take(k as int);
                assert(now.drop_last() =~= before);
                assert(now.last() == block[k - 1]@);
            }
        }
        proof {
            assert(block.deep_view().take(k as int) =~= block.deep_view());
        }
        Some(out)
    }
}

/// One entry of a contributor list, read as a contributor.
pub fn parse_contributor(entry: &str) -> (c: Contributor)
    ensures
        c@ == contributor_of(entry@),
{
    let v = chars_of(entry);
    let pat = chars_of(" (");
    proof {
        reveal_strlit(" (");
        assert(v@.skip(0) =~= v@);
        crate::text::lemma_find_sub_facts(v@, pat@);
    }
    let i = find_in(&v, 0, &pat);
    if i < v.len() && v[v.len() - 1] == ')' {
        proof {
            let rest = v@.skip(i as int);
            assert(pat@.len() == 2 && pat@[1] == '(');
            assert(pat@ =~= rest.subrange(0, 2));
            assert(rest.subrange(0, 2)[1] == rest[1]);
            assert(rest[1] == v@[i + 1]);
        }
        Contributor { who: string_of(&v, 0, i), what: Some(string_of(&v, i + 2, v.len() - 1)) }
    } else {
        proof {
            assert(v@.subrange(0, v@.len() as int) =~= v@);
        }
        Contributor { who: string_of(&v, 0, v.len()), what: None }
    }
}

impl Section {
    /// The field read as a list of contributors.
    pub fn contribution(&self, name: &str) -> (r: Option<Vec<Contributor>>)
        ensures
            r.deep_view() == contribution_field(self@, name@),
    {
        let entries = match self.list(name) {
            Some(entries) => entries,
            None => {
                return None;
            },
        };
        let mut out: Vec<Contributor> = Vec::new();
        let mut k: usize = 0;
        while k < entries.len()
            invariant
                k <= entries.len(),
                out.len() == k,
                forall|j: int| 0 <= j < k ==> out[j]@ == contributor_of(#[trigger] entries[j]@),
            decreases entries.len() - k,
        {
            out.push(parse_contributor(entries[k].as_str()));
            k += 1;
        }
        proof {
            assert(out.deep_view() =~= contributors_of(entries.deep_view()));
        }
        if out.len() == 0 || (out.len() == 1 && same_text(out[0].who.as_str(), "none")) {
            None
        } else {
            Some(out)
        }
    }
}

/// The field `name` of the section `s`, read as a single value.
pub fn get_basic_field(s: &str, name: &str) -> (r: Option<String>)
    ensures
        r.deep_view() == basic_field(lines(s@), name@),
{
    Section::parse(s).basic(name)
}

/// The field `name` of the section `s`, read as a list.
pub fn get_list_field(s: &str, name: &str) -> (r: Option<Vec<String>>)
    ensures
        r.deep_view() == list_field(lines(s@), name@),
{
    Section::parse(s).list(name)
}

/// The field `name` of the section `s`, read as a block.
pub fn get_multiline_field(s: &str, name: &str) -> (r: Option<String>)
    ensures
        r.deep_view() == multiline_field(lines(s@), name@),
{
    Section::parse(s).multiline(name)
}

/// The field `name` of the section `s`, read as a list of contributors.
pub fn get_contribution_field(s: &str, name: &str) -> (r: Option<Vec<Contributor>>)
    ensures
        r.deep_view() == contribution_field(lines(s@), name@),
{
    Section::parse(s).contribution(name)
}

/// A field whose header has no value behind its colon and neither a list
/// nor a block under it reads as absent, as a list, as a block and as a
/// list of contributors: never as something empty.
pub proof fn lemma_bare_header_is_absent(lines: Seq<Seq<char>>, name: Seq<char>)
    requires
        header_index(lines, name) < lines.len(),
        header_value(lines[header_index(lines, name)], name).len() == 0,
        run(lines, header_index(lines, name) + 1, "- "@).len() == 0,
        run(lines, header_index(lines, name) + 1, "    "@).len() == 0,
    ensures
        list_field(lines, name) is None,
        multiline_field(lines, name) is None,
        contribution_field(lines, name) is None,
{
    lemma_header_index_bounds(lines, name);
}

/// Read as a single value, a field whose header has nothing behind its
/// colon is there all the same, and empty.
pub proof fn lemma_bare_header_has_an_empty_value(lines: Seq<Seq<char>>, name: Seq<char>)
    requires
        header_index(lines, name) < lines.len(),
        header_value(lines[header_index(lines, name)], name).len() == 0,
    ensures
        basic_field(lines, name) == Some(Seq::<char>::empty()),
{
    lemma_header_index_bounds(lines, name);
    assert(header_value(lines[header_index(lines, name)], name) =~= Seq::<char>::empty());
}

/// A list or a block that is there is never empty, and a list of
/// contributors that is there names somebody.
pub proof fn lemma_present_fields_are_not_empty(lines: Seq<Seq<char>>, name: Seq<char>)
    ensures
        list_field(lines, name) matches Some(items) ==> items.len() > 0,
        contribution_field(lines, name) matches Some(list) ==> list.len() > 0 && !is_nobody(list),
{
    let i = header_index(lines, name);
    if 0 <= i < lines.len() {
        let value = header_value(lines[i], name);
        crate::text::lemma_index_of_nth_bounds(value, ',', 1);
    }
}

/// A list whose one entry is `none` names nobody: read as a list of
/// contributors, the field is absent.
pub proof fn lemma_none_alone_is_nobody(lines: Seq<Seq<char>>, name: Seq<char>)
    requires
        list_field(lines, name) == Some(seq!["none"@]),
    ensures
        contribution_field(lines, name) is None,
{
    reveal_strlit("none");
    reveal_strlit(" (");
    let entry = "none"@;
    let pat = " ("@;
    assert(find_sub(entry, pat) == 4) by {
        let s1 = entry.drop_first();
        let s2 = s1.drop_first();
        let s3 = s2.drop_first();
        let s4 = s3.drop_first();
        assert(!pat.is_prefix_of(entry)) by {
            assert(entry.subrange(0, 2)[0] == 'n');
        }
        assert(!pat.is_prefix_of(s1)) by {
            assert(s1.subrange(0, 2)[0] == 'o');
        }
        assert(!pat.is_prefix_of(s2)) by {
            assert(s2.subrange(0, 2)[0] == 'n');
        }
        assert(!pat.is_prefix_of(s3));
        assert(s4.len() == 0);
        assert(find_sub(s4, pat) == 0);
        assert(find_sub(s3, pat) == 1);
        assert(find_sub(s2, pat) == 2);
        assert(find_sub(s1, pat) == 3);
    }
    assert(contributor_of(entry).who == entry);
    assert(contributors_of(seq![entry])[0] == contributor_of(entry));
}

/// A field that the section does not name reads as absent in all four ways.
pub proof fn lemma_missing_field_is_absent(lines: Seq<Seq<char>>, name: Seq<char>)
    requires
        forall|k: int| 0 <= k < lines.len() ==> !is_header(#[trigger] lines[k], name),
    ensures
        basic_field(lines, name) is None,
        list_field(lines, name) is None,
        multiline_field(lines, name) is None,
        contribution_field(lines, name) is None,
{
    lemma_header_index_is(lines, name, lines.len() as int);
}

} // verus!
