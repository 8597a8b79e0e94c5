//! Splitting a document into sections.
//!
//! A separator is a line of eight or more hyphens that a line feed ends.
//! The sections are the texts between the separators, so a document has one
//! section more than it has separators.

use crate::text::{chars_of, find_char, first_index, string_of};
use vstd::prelude::*;

verus! {

/// Number of hyphens that `s` starts with.
pub open spec fn leading_hyphens(s: Seq<char>) -> nat
    decreases s.len(),
{
    if s.len() > 0 && s[0] == '-' {
        1 + leading_hyphens(s.drop_first())
    } else {
        0
    }
}

/// Length of the separator that `s` starts with, its line feed counted, or
/// zero where `s` starts with none. `s` starts at the start of a line.
pub open spec fn separator_len(s: Seq<char>) -> int {
    let k = leading_hyphens(s) as int;
    if k >= 8 && k < s.len() && s[k] == '\n' {
        k + 1
    } else {
        0
    }
}

/// Index at which the first separator of `s` starts, or `s.len()` where it
/// has none. `s` starts at the start of a line.
pub open spec fn first_separator(s: Seq<char>) -> int
    decreases s.len(),
{
    let n = first_index(s, '\n');
    if s.len() == 0 || separator_len(s) > 0 {
        0
    } else if 0 <= n < s.len() {
        n + 1 + first_separator(s.skip(n + 1))
    } else {
        s.len() as int
    }
}

/// The sections of a document.
pub open spec fn sections(doc: Seq<char>) -> Seq<Seq<char>>
    decreases doc.len(),
{
    let i = first_separator(doc);
    let k = separator_len(doc.skip(i));
    if 0 <= i < doc.len() && k > 0 {
        seq![doc.take(i)] + sections(doc.skip(i + k))
    } else {
        seq![doc]
    }
}

/// The run of hyphens at the start is as long as the index of the first
/// character that is none.
pub proof fn lemma_leading_hyphens_is(s: Seq<char>, k: int)
    requires
        0 <= k <= s.len(),
        forall|j: int| 0 <= j < k ==> s[j] == '-',
        k < s.len() ==> s[k] != '-',
    ensures
        leading_hyphens(s) == k,
    decreases k,
{
    if k > 0 {
        let r = s.drop_first();
        assert forall|j: int| 0 <= j < k - 1 implies r[j] == '-' by {
            assert(r[j] == s[j + 1]);
        }
        lemma_leading_hyphens_is(r, k - 1);
    }
}

pub proof fn lemma_first_separator_bounds(s: Seq<char>)
    ensures
        0 <= first_separator(s) <= s.len(),
        first_separator(s) < s.len() ==> separator_len(s.skip(first_separator(s))) > 0,
    decreases s.len(),
{
    let n = first_index(s, '\n');
    if s.len() == 0 {
    } else if separator_len(s) > 0 {
        assert(s.skip(0) =~= s);
    } else if 0 <= n < s.len() {
        let r = s.skip(n + 1);
        lemma_first_separator_bounds(r);
        let i = first_separator(r);
        assert(r.skip(i) =~= s.skip(n + 1 + i));
    }
}

/// Length of the separator that `v` holds at index `at`, or zero.
fn separator_at(v: &Vec<char>, at: usize) -> (k: usize)
    requires
        at <= v.len(),
    ensures
        k == separator_len(v@.skip(at as int)),
        at + k <= v.len(),
{
    let ghost rest = v@.skip(at as int);
    let mut end: usize = at;
    while end < v.len() && v[end] == '-'
        invariant
            at <= end <= v.len(),
            forall|j: int| at <= j < end ==> v@[j] == '-',
        decreases v.len() - end,
    {
        end += 1;
    }
    proof {
        assert forall|j: int| 0 <= j < end - at implies rest[j] == '-' by {
            assert(rest[j] == v@[at + j]);
        }
        if end < v.len() {
            assert(rest[end - at] == v@[end as int]);
        }
        lemma_leading_hyphens_is(rest, end - at);
    }
    if end - at >= 8 && end < v.len() && v[end] == '\n' {
        end - at + 1
    } else {
        0
    }
}

/// The sections of a document, each as a string of its own.
pub fn split_sections(doc: &str) -> (out: Vec<String>)
    ensures
        out.deep_view() == sections(doc@),
        out.len() >= 1,
{
    let v = chars_of(doc);
    let mut out: Vec<String> = Vec::new();
    let mut start: usize = 0;
    let mut pos: usize = 0;
    proof {
        assert(v@.skip(0) =~= v@);
        assert(out.deep_view() + sections(v@) =~= sections(v@));
    }
    loop
        invariant_except_break
            start <= pos <= v.len(),
            sections(v@) == out.deep_view() + sections(v@.skip(start as int)),
            first_separator(v@.skip(start as int)) == (pos - start) + first_separator(
                v@.skip(pos as int),
            ),
        ensures
            out.deep_view() == sections(v@),
            out.len() >= 1,
        decreases v.len() - pos,
    {
        let ghost whole = v@.skip(start as int);
        let ghost rest = v@.skip(pos as int);
        let ghost before = out.deep_view();
        proof {
            lemma_first_separator_bounds(rest);
        }
        let k = separator_at(&v, pos);
        if pos == v.len() || k > 0 {
            let piece = string_of(&v, start, pos);
            out.push(piece);
            proof {
                assert(out.deep_view() =~= before + seq![piece@]);
                assert(first_separator(whole) == pos - start);
                assert(whole.skip(pos - start) =~= rest);
                assert(whole.take(pos - start) =~= v@.subrange(start as int, pos as int));
            }
            if pos == v.len() {
                proof {
                    assert(whole =~= piece@);
                    assert(sections(whole) =~= seq![piece@]);
                }
                break;
            }
            proof {
                assert(whole.skip(pos - start + k) =~= v@.skip(pos + k));
                assert(sections(whole) =~= seq![piece@] + sections(v@.skip(pos + k)));
                assert(before + sections(whole) =~= out.deep_view() + sections(v@.skip(pos + k)));
            }
            start = pos + k;
            pos = start;
        } else {
            let n = find_char(&v, pos, '\n');
            proof {
                if n < v.len() {
                    assert(rest.skip(n - pos + 1) =~= v@.skip(n + 1));
                }
            }
            pos = if n < v.len() { n + 1 } else { n };
        }
    }
    out
}

} // verus!
