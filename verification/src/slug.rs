//! Directory names made from titles.
//!
//! A record without a directory of its own is filed under a slug of its
//! name: lower-case letters, digits and single hyphens.

use crate::text::{chars_of, string_of};
use vstd::prelude::*;

verus! {

/// Whether `c` is an ASCII letter or digit.
pub open spec fn is_alnum(c: char) -> bool {
    ('0' <= c <= '9') || ('a' <= c <= 'z') || ('A' <= c <= 'Z')
}

/// `c` in lower case, where it is an ASCII capital.
pub open spec fn lower(c: char) -> char {
    if 'A' <= c <= 'Z' {
        ((c as u8) + 32) as u8 as char
    } else {
        c
    }
}

/// Whether `c` may stand in a slug.
pub open spec fn is_slug_char(c: char) -> bool {
    ('0' <= c <= '9') || ('a' <= c <= 'z') || c == '-'
}

/// What one character of a name gives to the slug: a space gives a hyphen,
/// an ampersand the word `and`, a letter or digit itself in lower case, a
/// hyphen itself, and any other character nothing.
pub open spec fn slug_piece(c: char) -> Seq<char> {
    if c == ' ' || c == '-' {
        seq!['-']
    } else if c == '&' {
        seq!['a', 'n', 'd']
    } else if is_alnum(c) {
        seq![lower(c)]
    } else {
        Seq::empty()
    }
}

/// What the characters of a name give to the slug, in order.
pub open spec fn slug_pieces(s: Seq<char>) -> Seq<char>
    decreases s.len(),
{
    if s.len() == 0 {
        Seq::empty()
    } else {
        slug_pieces(s.drop_last()) + slug_piece(s.last())
    }
}

/// `s` with each run of hyphens made one hyphen.
pub open spec fn squeeze(s: Seq<char>) -> Seq<char>
    decreases s.len(),
{
    if s.len() == 0 {
        s
    } else if s.len() >= 2 && s.last() == '-' && s[s.len() - 2] == '-' {
        squeeze(s.drop_last())
    } else {
        squeeze(s.drop_last()).push(s.last())
    }
}

/// `s` without the hyphens at its start.
pub open spec fn drop_leading(s: Seq<char>) -> Seq<char>
    decreases s.len(),
{
    if s.len() > 0 && s[0] == '-' {
        drop_leading(s.drop_first())
    } else {
        s
    }
}

/// `s` without the hyphens at its end.
pub open spec fn drop_trailing(s: Seq<char>) -> Seq<char>
    decreases s.len(),
{
    if s.len() > 0 && s.last() == '-' {
        drop_trailing(s.drop_last())
    } else {
        s
    }
}

/// The slug of a name.
pub open spec fn slug(name: Seq<char>) -> Seq<char> {
    drop_trailing(drop_leading(squeeze(slug_pieces(name))))
}

/// Whether `s` is made of slug characters only.
pub open spec fn all_slug_chars(s: Seq<char>) -> bool {
    forall|i: int| 0 <= i < s.len() ==> is_slug_char(#[trigger] s[i])
}

/// Whether no hyphen of `s` follows another.
pub open spec fn no_hyphen_run(s: Seq<char>) -> bool {
    forall|i: int| 0 <= i < s.len() - 1 ==> !(#[trigger] s[i] == '-' && s[i + 1] == '-')
}

/// Whether `s` has the form of a slug: slug characters only, no hyphen
/// after another, and none at either end.
pub open spec fn is_slug(s: Seq<char>) -> bool {
    &&& all_slug_chars(s)
    &&& no_hyphen_run(s)
    &&& s.len() > 0 ==> s[0] != '-' && s.last() != '-'
}

proof fn lemma_pieces_are_slug_chars(s: Seq<char>)
    ensures
        all_slug_chars(slug_pieces(s)),
    decreases s.len(),
{
    if s.len() > 0 {
        lemma_pieces_are_slug_chars(s.drop_last());
        let c = s.last();
        assert(all_slug_chars(slug_piece(c))) by {
            if 'A' <= c <= 'Z' {
                assert('a' <= lower(c) <= 'z');
            }
        }
    }
}

proof fn lemma_squeeze(s: Seq<char>)
    ensures
        squeeze(s).len() <= s.len(),
        s.len() > 0 ==> squeeze(s).len() > 0 && squeeze(s).last() == s.last(),
        all_slug_chars(s) ==> all_slug_chars(squeeze(s)),
        no_hyphen_run(squeeze(s)),
    decreases s.len(),
{
    if s.len() > 0 {
        let p = s.drop_last();
        lemma_squeeze(p);
        if s.len() >= 2 {
            assert(p.last() == s[s.len() - 2]);
        }
        if all_slug_chars(s) {
            assert forall|i: int| 0 <= i < p.len() implies is_slug_char(#[trigger] p[i]) by {
                assert(p[i] == s[i]);
            }
        }
    }
}

proof fn lemma_drop_leading(s: Seq<char>)
    ensures
        drop_leading(s).len() <= s.len(),
        drop_leading(s) == s.skip(s.len() - drop_leading(s).len()),
        drop_leading(s).len() > 0 ==> drop_leading(s)[0] != '-',
    decreases s.len(),
{
    if s.len() > 0 && s[0] == '-' {
        let r = s.drop_first();
        lemma_drop_leading(r);
        assert(r.skip(r.len() - drop_leading(r).len()) =~= s.skip(s.len() - drop_leading(r).len()));
    } else {
        assert(s.skip(0) =~= s);
    }
}

proof fn lemma_drop_trailing(s: Seq<char>)
    ensures
        drop_trailing(s).len() <= s.len(),
        drop_trailing(s) == s.take(drop_trailing(s).len() as int),
        drop_trailing(s).len() > 0 ==> drop_trailing(s).last() != '-',
    decreases s.len(),
{
    if s.len() > 0 && s.last() == '-' {
        let r = s.drop_last();
        lemma_drop_trailing(r);
        assert(r.take(drop_trailing(r).len() as int) =~= s.take(drop_trailing(r).len() as int));
    } else {
        assert(s.take(s.len() as int) =~= s);
    }
}

/// Every name's slug has the form of a slug: whatever spaces and signs the
/// name holds, its slug has no hyphen after another and none at either end.
pub proof fn lemma_slug_is_slug(name: Seq<char>)
    ensures
        is_slug(slug(name)),
{
    let a = slug_pieces(name);
    let b = squeeze(a);
    let c = drop_leading(b);
    let d = drop_trailing(c);
    lemma_pieces_are_slug_chars(name);
    lemma_squeeze(a);
    lemma_drop_leading(b);
    lemma_drop_trailing(c);
    let k = b.len() - c.len();
    assert forall|i: int| 0 <= i < d.len() implies is_slug_char(#[trigger] d[i]) by {
        assert(d[i] == c[i]);
        assert(c[i] == b[i + k]);
    }
    assert forall|i: int| 0 <= i < d.len() - 1 implies !(#[trigger] d[i] == '-' && d[i + 1]
        == '-') by {
        assert(d[i] == b[i + k]);
        assert(d[i + 1] == b[i + k + 1]);
    }
    if d.len() > 0 {
        assert(d[0] == c[0]);
    }
}

/// What one character gives to the slug, appended to `out`.
fn push_piece(out: &mut Vec<char>, c: char)
    ensures
        final(out)@ == old(out)@ + slug_piece(c),
{
    if c == ' ' || c == '-' {
        out.push('-');
        assert(out@ =~= old(out)@ + seq!['-']);
    } else if c == '&' {
        out.push('a');
        out.push('n');
        out.push('d');
        assert(out@ =~= old(out)@ + seq!['a', 'n', 'd']);
    } else if ('0' <= c && c <= '9') || ('a' <= c && c <= 'z') {
        out.push(c);
        assert(out@ =~= old(out)@ + seq![c]);
    } else if 'A' <= c && c <= 'Z' {
        let l: char = ((c as u8) + 32) as char;
        out.push(l);
        assert(out@ =~= old(out)@ + seq![l]);
    } else {
        assert(out@ =~= old(out)@ + Seq::<char>::empty());
    }
}

/// The slug of `name`.
pub fn get_kebab_case(name: &str) -> (r: String)
    ensures
        r@ == slug(name@),
        is_slug(r@),
{
    let v = chars_of(name);
    let mut a: Vec<char> = Vec::new();
    let mut i: usize = 0;
    proof {
        assert(v@.take(0) =~= Seq::<char>::empty());
    }
    while i < v.len()
        invariant
            i <= v.len(),
            a@ == slug_pieces(v@.take(i as int)),
        decreases v.len() - i,
    {
        push_piece(&mut a, v[i]);
        i += 1;
        proof {
            let now = v@.take(i as int);
            assert(now.drop_last() =~= v@.take(i - 1));
            assert(now.last() == v@[i - 1]);
        }
    }
    proof {
        assert(v@.take(i as int) =~= v@);
    }
    let mut b: Vec<char> = Vec::new();
    let mut j: usize = 0;
    proof {
        assert(a@.take(0) =~= Seq::<char>::empty());
    }
    while j < a.len()
        invariant
            j <= a.len(),
            b@ == squeeze(a@.take(j as int)),
        decreases a.len() - j,
    {
        let ghost before = a@.take(j as int);
        if !(j >= 1 && a[j] == '-' && a[j - 1] == '-') {
            b.push(a[j]);
        }
        j += 1;
        proof {
            let now = a@.take(j as int);
            assert(now.drop_last() =~= before);
            assert(now.last() == a@[j - 1]);
            if j >= 2 {
                assert(now[now.len() - 2] == a@[j - 2]);
            }
        }
    }
    proof {
        assert(a@.take(j as int) =~= a@);
    }
    let mut from: usize = 0;
    proof {
        assert(b@.subrange(0, b@.len() as int) =~= b@);
    }
    while from < b.len() && b[from] == '-'
        invariant
            from <= b.len(),
            drop_leading(b@) == drop_leading(b@.subrange(from as int, b@.len() as int)),
        decreases b.len() - from,
    {
        proof {
            let cur = b@.subrange(from as int, b@.len() as int);
            assert(cur[0] == b@[from as int]);
            assert(cur.drop_first() =~= b@.subrange(from + 1, b@.len() as int));
        }
        from += 1;
    }
    proof {
        let cur = b@.subrange(from as int, b@.len() as int);
        if from < b.len() {
            assert(cur[0] == b@[from as int]);
        }
        assert(drop_leading(b@) == cur);
    }
    let mut to: usize = b.len();
    while to > from && b[to - 1] == '-'
        invariant
            from <= to <= b.len(),
            slug(v@) == drop_trailing(b@.subrange(from as int, to as int)),
        decreases to - from,
    {
        proof {
            let cur = b@.subrange(from as int, to as int);
            assert(cur.last() == b@[to - 1]);
            assert(cur.drop_last() =~= b@.subrange(from as int, to - 1));
        }
        to -= 1;
    }
    proof {
        let cur = b@.subrange(from as int, to as int);
        if to > from {
            assert(cur.last() == b@[to - 1]);
        }
        lemma_slug_is_slug(v@);
    }
    string_of(&b, from, to)
}

} // verus!
