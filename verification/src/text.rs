//! Character-sequence primitives that the field grammar is built from.
//!
//! Text is modelled as `Seq<char>`. Executable code turns a `&str` into a
//! `Vec<char>` once, works on indices, and turns the pieces it keeps back
//! into `String`s.

use vstd::prelude::*;

verus! {

/// Index of the `n`-th occurrence of `c` in `s`, counting from one, or
/// `s.len()` where `c` occurs fewer than `n` times.
pub open spec fn index_of_nth(s: Seq<char>, c: char, n: nat) -> int
    decreases s.len(),
{
    if s.len() == 0 {
        0
    } else if s[0] == c && n <= 1 {
        0
    } else if s[0] == c {
        1 + index_of_nth(s.drop_first(), c, (n - 1) as nat)
    } else {
        1 + index_of_nth(s.drop_first(), c, n)
    }
}

/// Index of the first occurrence of `c` in `s`, or `s.len()` where there is none.
pub open spec fn first_index(s: Seq<char>, c: char) -> int {
    index_of_nth(s, c, 1)
}

/// Number of occurrences of `c` in `s`.
pub open spec fn count_of(s: Seq<char>, c: char) -> nat
    decreases s.len(),
{
    if s.len() == 0 {
        0
    } else {
        count_of(s.drop_last(), c) + if s.last() == c { 1nat } else { 0nat }
    }
}

pub proof fn lemma_index_of_nth_bounds(s: Seq<char>, c: char, n: nat)
    ensures
        0 <= index_of_nth(s, c, n) <= s.len(),
    decreases s.len(),
{
    if s.len() > 0 {
        lemma_index_of_nth_bounds(s.drop_first(), c, n);
        if n >= 1 {
            lemma_index_of_nth_bounds(s.drop_first(), c, (n - 1) as nat);
        }
    }
}

/// Skipping a prefix that holds `k < n` occurrences moves the `n`-th
/// occurrence by the prefix's length.
pub proof fn lemma_index_of_nth_skip(s: Seq<char>, c: char, n: nat, i: int)
    requires
        0 <= i <= s.len(),
        n >= 1,
        count_of(s.take(i), c) < n,
    ensures
        index_of_nth(s, c, n) == i + index_of_nth(
            s.skip(i),
            c,
            (n - count_of(s.take(i), c)) as nat,
        ),
    decreases i,
{
    if i == 0 {
        assert(s.skip(0) =~= s);
        assert(s.take(0) =~= Seq::<char>::empty());
    } else {
        let t = s.take(i);
        let p = s.take(i - 1);
        assert(t.drop_last() =~= p);
        assert(t.last() == s[i - 1]);
        lemma_index_of_nth_skip(s, c, n, i - 1);
        let k = count_of(p, c);
        let r = s.skip(i - 1);
        assert(r.len() > 0);
        assert(r[0] == s[i - 1]);
        assert(r.drop_first() =~= s.skip(i));
    }
}

/// The first index is where the first occurrence is.
pub proof fn lemma_first_index_is(s: Seq<char>, c: char, i: int)
    requires
        0 <= i <= s.len(),
        forall|k: int| 0 <= k < i ==> s[k] != c,
        i < s.len() ==> s[i] == c,
    ensures
        first_index(s, c) == i,
    decreases i,
{
    if i == 0 {
    } else {
        let r = s.drop_first();
        assert forall|k: int| 0 <= k < i - 1 implies r[k] != c by {
            assert(r[k] == s[k + 1]);
        }
        lemma_first_index_is(r, c, i - 1);
    }
}

/// What the first index says of the sequence.
pub proof fn lemma_first_index_facts(s: Seq<char>, c: char)
    ensures
        0 <= first_index(s, c) <= s.len(),
        forall|k: int| 0 <= k < first_index(s, c) ==> s[k] != c,
        first_index(s, c) < s.len() ==> s[first_index(s, c)] == c,
        first_index(s, c) == s.len() <==> !s.contains(c),
    decreases s.len(),
{
    if s.len() == 0 {
        assert(!s.contains(c));
    } else if s[0] == c {
        assert(s.contains(c));
    } else {
        let r = s.drop_first();
        lemma_first_index_facts(r, c);
        let i = first_index(s, c);
        assert(i == 1 + first_index(r, c));
        assert forall|k: int| 0 <= k < i implies s[k] != c by {
            if k > 0 {
                assert(s[k] == r[k - 1]);
            }
        }
        if i < s.len() {
            assert(s[i] == r[i - 1]);
            assert(s.contains(c));
        } else {
            assert forall|k: int| 0 <= k < s.len() implies s[k] != c by {}
            assert(!s.contains(c));
        }
    }
}

/// The pieces of `s` between the occurrences of `c`: one more piece than
/// there are occurrences, so never none.
pub open spec fn split_on(s: Seq<char>, c: char) -> Seq<Seq<char>>
    decreases s.len(),
{
    let i = first_index(s, c);
    if 0 <= i < s.len() {
        seq![s.take(i)] + split_on(s.skip(i + 1), c)
    } else {
        seq![s]
    }
}

/// `s` without one carriage return at its end.
pub open spec fn strip_cr(s: Seq<char>) -> Seq<char> {
    if s.len() > 0 && s.last() == '\r' {
        s.drop_last()
    } else {
        s
    }
}

/// The lines of `s`. A line ends at a line feed, or at a carriage return
/// directly before one; the end of the last line need not be marked, and an
/// empty text has no line.
pub open spec fn lines(s: Seq<char>) -> Seq<Seq<char>>
    decreases s.len(),
{
    let i = first_index(s, '\n');
    if s.len() == 0 {
        Seq::empty()
    } else if 0 <= i < s.len() {
        seq![strip_cr(s.take(i))] + lines(s.skip(i + 1))
    } else {
        seq![s]
    }
}

/// The characters of `s`, in order.
pub fn chars_of(s: &str) -> (v: Vec<char>)
    ensures
        v@ == s@,
{
    let mut v: Vec<char> = Vec::new();
    for c in it: s.chars()
        invariant
            v@ == it.seq().take(it.index() as int),
            it.seq() == s@,
    {
        v.push(c);
    }
    v
}

/// Appends one character to a string, through `String::push`.
#[verifier::external_body]
pub(crate) fn push_char(s: &mut String, c: char)
    ensures
        final(s)@ == old(s)@.push(c),
{
    s.push(c);
}

/// The string that holds `v[from..to]`.
pub(crate) fn string_of(v: &Vec<char>, from: usize, to: usize) -> (s: String)
    requires
        from <= to <= v.len(),
    ensures
        s@ == v@.subrange(from as int, to as int),
{
    let mut s = String::new();
    let mut i: usize = from;
    while i < to
        invariant
            from <= i <= to <= v.len(),
            s@ == v@.subrange(from as int, i as int),
        decreases to - i,
    {
        push_char(&mut s, v[i]);
        i += 1;
        assert(v@.subrange(from as int, i as int) =~= v@.subrange(from as int, i - 1).push(
            v@[i - 1],
        ));
    }
    assert(v@.subrange(from as int, from as int) =~= Seq::<char>::empty());
    s
}

/// First index at or after `from` at which `v` holds `c`, or `v.len()`.
pub(crate) fn find_char(v: &Vec<char>, from: usize, c: char) -> (i: usize)
    requires
        from <= v.len(),
    ensures
        i == from + first_index(v@.skip(from as int), c),
        from <= i <= v.len(),
{
    let mut i: usize = from;
    while i < v.len() && v[i] != c
        invariant
            from <= i <= v.len(),
            forall|k: int| from <= k < i ==> v@[k] != c,
        decreases v.len() - i,
    {
        i += 1;
    }
    proof {
        let r = v@.skip(from as int);
        assert forall|k: int| 0 <= k < i - from implies r[k] != c by {
            assert(r[k] == v@[from + k]);
        }
        lemma_first_index_is(r, c, i - from);
    }
    i
}

/// The lines of `s`, each as a string of its own.
pub fn lines_of(s: &str) -> (out: Vec<String>)
    ensures
        out.deep_view() == lines(s@),
{
    let v = chars_of(s);
    let mut out: Vec<String> = Vec::new();
    let mut start: usize = 0;
    proof {
        assert(v@.skip(0) =~= v@);
        assert(out.deep_view() + lines(v@) =~= lines(v@));
    }
    while start < v.len()
        invariant
            start <= v.len(),
            lines(v@) == out.deep_view() + lines(v@.skip(start as int)),
        decreases v.len() - start,
    {
        let ghost rest = v@.skip(start as int);
        let end = find_char(&v, start, '\n');
        let mut stop = end;
        if end < v.len() && end > start && v[end - 1] == '\r' {
            stop = end - 1;
        }
        let line = string_of(&v, start, stop);
        let next = if end < v.len() { end + 1 } else { end };
        proof {
            let ghost before = out.deep_view();
            assert(rest.len() > 0);
            if end < v.len() {
                assert(rest.take(end - start) =~= v@.subrange(start as int, end as int));
                assert(rest.skip(end - start + 1) =~= v@.skip(next as int));
                if end > start {
                    assert(rest.take(end - start).last() == v@[end - 1]);
                }
                assert(strip_cr(rest.take(end - start)) =~= line@);
            } else {
                assert(rest =~= line@);
                assert(v@.skip(next as int).len() == 0);
            }
            assert(lines(rest) =~= seq![line@] + lines(v@.skip(next as int)));
        }
        let ghost before = out.deep_view();
        out.push(line);
        proof {
            assert(out.deep_view() =~= before + seq![line@]);
            assert(before + lines(rest) =~= out.deep_view() + lines(v@.skip(next as int)));
        }
        start = next;
    }
    proof {
        assert(v@.skip(start as int).len() == 0);
        assert(out.deep_view() + Seq::<Seq<char>>::empty() =~= out.deep_view());
    }
    out
}

/// Whether `c` is white space: the characters that Unicode gives the
/// property White_Space.
pub open spec fn is_space(c: char) -> bool {
    let n = c as u32;
    (0x09 <= n <= 0x0d) || n == 0x20 || n == 0x85 || n == 0xa0 || n == 0x1680 || (0x2000 <= n
        <= 0x200a) || n == 0x2028 || n == 0x2029 || n == 0x202f || n == 0x205f || n == 0x3000
}

/// `s` without the white space at its start.
pub open spec fn trim_start(s: Seq<char>) -> Seq<char>
    decreases s.len(),
{
    if s.len() > 0 && is_space(s[0]) {
        trim_start(s.drop_first())
    } else {
        s
    }
}

/// `s` without the white space at its end.
pub open spec fn trim_end(s: Seq<char>) -> Seq<char>
    decreases s.len(),
{
    if s.len() > 0 && is_space(s.last()) {
        trim_end(s.drop_last())
    } else {
        s
    }
}

/// `s` without the white space at either end.
pub open spec fn trimmed(s: Seq<char>) -> Seq<char> {
    trim_end(trim_start(s))
}

/// Whether `s` holds nothing but white space.
pub open spec fn is_blank(s: Seq<char>) -> bool {
    trimmed(s).len() == 0
}

/// Index of the first occurrence of `pat` in `s`, or `s.len()` where there
/// is none.
pub open spec fn find_sub(s: Seq<char>, pat: Seq<char>) -> int
    decreases s.len(),
{
    if s.len() == 0 || pat.is_prefix_of(s) {
        0
    } else {
        1 + find_sub(s.drop_first(), pat)
    }
}

pub proof fn lemma_find_sub_facts(s: Seq<char>, pat: Seq<char>)
    ensures
        0 <= find_sub(s, pat) <= s.len(),
        find_sub(s, pat) < s.len() ==> pat.is_prefix_of(s.skip(find_sub(s, pat))),
    decreases s.len(),
{
    if s.len() == 0 {
    } else if pat.is_prefix_of(s) {
        assert(s.skip(0) =~= s);
    } else {
        let r = s.drop_first();
        lemma_find_sub_facts(r, pat);
        let i = find_sub(r, pat);
        if i < r.len() {
            assert(r.skip(i) =~= s.skip(i + 1));
        }
    }
}

/// Index of the first of `items` that equals `wanted`, or `items.len()`
/// where none does.
pub open spec fn first_equal(items: Seq<Seq<char>>, wanted: Seq<char>) -> int
    decreases items.len(),
{
    if items.len() == 0 || items[0] == wanted {
        0
    } else {
        1 + first_equal(items.drop_first(), wanted)
    }
}

/// The first equal item is where the first equal item is.
pub proof fn lemma_first_equal_is(items: Seq<Seq<char>>, wanted: Seq<char>, i: int)
    requires
        0 <= i <= items.len(),
        forall|k: int| 0 <= k < i ==> items[k] != wanted,
        i < items.len() ==> items[i] == wanted,
    ensures
        first_equal(items, wanted) == i,
    decreases i,
{
    if i > 0 {
        let r = items.drop_first();
        assert forall|k: int| 0 <= k < i - 1 implies r[k] != wanted by {
            assert(r[k] == items[k + 1]);
        }
        lemma_first_equal_is(r, wanted, i - 1);
    }
}

/// What the index of the first equal item says of the items.
pub proof fn lemma_first_equal_facts(items: Seq<Seq<char>>, wanted: Seq<char>)
    ensures
        0 <= first_equal(items, wanted) <= items.len(),
        forall|k: int| 0 <= k < first_equal(items, wanted) ==> items[k] != wanted,
        first_equal(items, wanted) < items.len() ==> items[first_equal(items, wanted)] == wanted,
    decreases items.len(),
{
    if items.len() > 0 && items[0] != wanted {
        let r = items.drop_first();
        lemma_first_equal_facts(r, wanted);
        assert forall|k: int| 0 <= k < first_equal(items, wanted) implies items[k] != wanted by {
            if k > 0 {
                assert(items[k] == r[k - 1]);
            }
        }
    }
}

/// `s` without the copies of `suffix` at its end. An empty `suffix` has no
/// copy there.
pub open spec fn strip_suffix_all(s: Seq<char>, suffix: Seq<char>) -> Seq<char>
    decreases s.len(),
{
    if suffix.len() > 0 && suffix.is_suffix_of(s) {
        strip_suffix_all(s.take(s.len() - suffix.len()), suffix)
    } else {
        s
    }
}

/// What stands behind the first occurrence of `sep` in `s`, or all of `s`
/// where `sep` does not occur.
pub open spec fn tail_after(s: Seq<char>, sep: Seq<char>) -> Seq<char> {
    let i = find_sub(s, sep);
    if 0 <= i && i + sep.len() <= s.len() {
        s.skip(i + sep.len())
    } else {
        s
    }
}

/// `s` with every occurrence of `from` replaced by `to`, the occurrences
/// taken from the left and not overlapping. An empty `from` occurs nowhere.
pub open spec fn replace_all(s: Seq<char>, from: Seq<char>, to: Seq<char>) -> Seq<char>
    decreases s.len(),
{
    if s.len() == 0 || from.len() == 0 {
        s
    } else if from.is_prefix_of(s) {
        to + replace_all(s.skip(from.len() as int), from, to)
    } else {
        seq![s[0]] + replace_all(s.drop_first(), from, to)
    }
}

pub fn is_space_char(c: char) -> (b: bool)
    ensures
        b == is_space(c),
{
    let n: u32 = c as u32;
    (0x09 <= n && n <= 0x0d) || n == 0x20 || n == 0x85 || n == 0xa0 || n == 0x1680 || (0x2000
        <= n && n <= 0x200a) || n == 0x2028 || n == 0x2029 || n == 0x202f || n == 0x205f || n
        == 0x3000
}

/// The bounds of `v[from..to]` without the white space at either end.
pub(crate) fn trim_bounds(v: &Vec<char>, from: usize, to: usize) -> (r: (usize, usize))
    requires
        from <= to <= v.len(),
    ensures
        from <= r.0 <= r.1 <= to,
        v@.subrange(r.0 as int, r.1 as int) == trimmed(v@.subrange(from as int, to as int)),
{
    let ghost whole = v@.subrange(from as int, to as int);
    let mut a: usize = from;
    proof {
        assert(v@.subrange(a as int, to as int) =~= whole);
    }
    while a < to && is_space_char(v[a])
        invariant
            from <= a <= to <= v.len(),
            trim_start(whole) == trim_start(v@.subrange(a as int, to as int)),
        decreases to - a,
    {
        proof {
            let cur = v@.subrange(a as int, to as int);
            assert(cur[0] == v@[a as int]);
            assert(cur.drop_first() =~= v@.subrange(a + 1, to as int));
        }
        a += 1;
    }
    proof {
        let cur = v@.subrange(a as int, to as int);
        if a < to {
            assert(cur[0] == v@[a as int]);
        }
        assert(trim_start(whole) == cur);
    }
    let mut b: usize = to;
    while b > a && is_space_char(v[b - 1])
        invariant
            from <= a <= b <= to <= v.len(),
            trimmed(whole) == trim_end(v@.subrange(a as int, b as int)),
        decreases b - a,
    {
        proof {
            let cur = v@.subrange(a as int, b as int);
            assert(cur.last() == v@[b - 1]);
            assert(cur.drop_last() =~= v@.subrange(a as int, b - 1));
        }
        b -= 1;
    }
    proof {
        let cur = v@.subrange(a as int, b as int);
        if b > a {
            assert(cur.last() == v@[b - 1]);
        }
    }
    (a, b)
}

/// `s` without the white space at either end.
pub fn trim(s: &str) -> (r: String)
    ensures
        r@ == trimmed(s@),
{
    let v = chars_of(s);
    let (a, b) = trim_bounds(&v, 0, v.len());
    proof {
        assert(v@.subrange(0, v.len() as int) =~= v@);
    }
    string_of(&v, a, b)
}

/// Whether `v` holds `pat` from index `at` on.
pub(crate) fn holds_at(v: &Vec<char>, at: usize, pat: &Vec<char>) -> (b: bool)
    requires
        at <= v.len(),
    ensures
        b == pat@.is_prefix_of(v@.skip(at as int)),
{
    if pat.len() > v.len() - at {
        return false;
    }
    let mut i: usize = 0;
    while i < pat.len()
        invariant
            at <= v.len(),
            pat.len() <= v.len() - at,
            i <= pat.len(),
            forall|k: int| 0 <= k < i ==> pat@[k] == v@[at + k],
        decreases pat.len() - i,
    {
        if pat[i] != v[at + i] {
            proof {
                let w = v@.skip(at as int).subrange(0, pat@.len() as int);
                assert(w[i as int] == v@[at + i]);
            }
            return false;
        }
        i += 1;
    }
    proof {
        assert(pat@ =~= v@.skip(at as int).subrange(0, pat@.len() as int));
    }
    true
}

/// Whether `s` starts with `pat`.
pub fn starts_with(s: &str, pat: &str) -> (b: bool)
    ensures
        b == pat@.is_prefix_of(s@),
{
    let v = chars_of(s);
    let p = chars_of(pat);
    proof {
        assert(v@.skip(0) =~= v@);
    }
    holds_at(&v, 0, &p)
}

/// Whether the two strings hold the same characters.
pub fn same_text(a: &str, b: &str) -> (r: bool)
    ensures
        r == (a@ == b@),
{
    let v = chars_of(a);
    let w = chars_of(b);
    if v.len() != w.len() {
        return false;
    }
    proof {
        assert(v@.skip(0) =~= v@);
        assert(v@.subrange(0, w@.len() as int) =~= v@);
    }
    holds_at(&v, 0, &w)
}

/// Index of the first occurrence of `pat` in `v` at or after `from`, or
/// `v.len()` where there is none.
pub(crate) fn find_in(v: &Vec<char>, from: usize, pat: &Vec<char>) -> (i: usize)
    requires
        from <= v.len(),
    ensures
        from <= i <= v.len(),
        i == from + find_sub(v@.skip(from as int), pat@),
{
    let mut i: usize = from;
    proof {
        assert(v@.skip(from as int).skip(0) =~= v@.skip(from as int));
    }
    while i < v.len()
        invariant
            from <= i <= v.len(),
            from + find_sub(v@.skip(from as int), pat@) == i + find_sub(v@.skip(i as int), pat@),
        decreases v.len() - i,
    {
        if holds_at(v, i, pat) {
            return i;
        }
        proof {
            assert(v@.skip(i as int).drop_first() =~= v@.skip(i + 1));
        }
        i += 1;
    }
    i
}

/// The pieces of `s` between the occurrences of `c`.
pub fn split(s: &str, c: char) -> (out: Vec<String>)
    ensures
        out.deep_view() == split_on(s@, c),
{
    let v = chars_of(s);
    let mut out: Vec<String> = Vec::new();
    let mut start: usize = 0;
    proof {
        assert(v@.skip(0) =~= v@);
        assert(out.deep_view() + split_on(v@, c) =~= split_on(v@, c));
    }
    loop
        invariant_except_break
            start <= v.len(),
            split_on(v@, c) == out.deep_view() + split_on(v@.skip(start as int), c),
        ensures
            out.deep_view() == split_on(v@, c),
        decreases v.len() - start,
    {
        let ghost rest = v@.skip(start as int);
        let ghost before = out.deep_view();
        let end = find_char(&v, start, c);
        let piece = string_of(&v, start, end);
        out.push(piece);
        proof {
            assert(out.deep_view() =~= before + seq![piece@]);
            assert(rest.take(end - start) =~= v@.subrange(start as int, end as int));
        }
        if end < v.len() {
            proof {
                assert(rest.skip(end - start + 1) =~= v@.skip(end + 1));
                assert(split_on(rest, c) =~= seq![piece@] + split_on(v@.skip(end + 1), c));
                assert(before + split_on(rest, c) =~= out.deep_view() + split_on(
                    v@.skip(end + 1),
                    c,
                ));
            }
            start = end + 1;
        } else {
            proof {
                assert(rest =~= piece@);
                assert(split_on(rest, c) =~= seq![piece@]);
            }
            break;
        }
    }
    out
}

/// `s` with every occurrence of `from` replaced by `to`.
pub fn replace(s: &str, from: &str, to: &str) -> (r: String)
    ensures
        r@ == replace_all(s@, from@, to@),
{
    let v = chars_of(s);
    let f = chars_of(from);
    if f.len() == 0 {
        assert(v@.subrange(0, v@.len() as int) =~= v@);
        return string_of(&v, 0, v.len());
    }
    let mut r = String::new();
    let mut i: usize = 0;
    proof {
        assert(v@.skip(0) =~= v@);
        assert(r@ + replace_all(v@, f@, to@) =~= replace_all(v@, f@, to@));
    }
    while i < v.len()
        invariant
            i <= v.len(),
            f@.len() > 0,
            replace_all(v@, f@, to@) == r@ + replace_all(v@.skip(i as int), f@, to@),
        decreases v.len() - i,
    {
        let ghost rest = v@.skip(i as int);
        let ghost before = r@;
        if holds_at(&v, i, &f) {
            r.append(to);
            proof {
                assert(rest.skip(f@.len() as int) =~= v@.skip(i + f@.len()));
                assert(before + (to@ + replace_all(v@.skip(i + f@.len()), f@, to@)) =~= r@
                    + replace_all(v@.skip(i + f@.len()), f@, to@));
            }
            i += f.len();
        } else {
            push_char(&mut r, v[i]);
            proof {
                assert(rest.drop_first() =~= v@.skip(i + 1));
                assert(rest[0] == v@[i as int]);
                assert(before + (seq![rest[0]] + replace_all(v@.skip(i + 1), f@, to@)) =~= r@
                    + replace_all(v@.skip(i + 1), f@, to@));
            }
            i += 1;
        }
    }
    proof {
        assert(v@.skip(i as int).len() == 0);
        assert(r@ + Seq::<char>::empty() =~= r@);
    }
    r
}

/// `s` without the copies of `suffix` at its end.
pub fn strip_suffix(s: &str, suffix: &str) -> (r: String)
    ensures
        r@ == strip_suffix_all(s@, suffix@),
{
    let v = chars_of(s);
    let p = chars_of(suffix);
    if p.len() == 0 {
        assert(v@.subrange(0, v@.len() as int) =~= v@);
        return string_of(&v, 0, v.len());
    }
    let mut end: usize = v.len();
    proof {
        assert(v@.take(end as int) =~= v@);
    }
    while end >= p.len() && holds_at(&v, end - p.len(), &p)
        invariant
            end <= v.len(),
            p@.len() > 0,
            strip_suffix_all(v@, p@) == strip_suffix_all(v@.take(end as int), p@),
        decreases end,
    {
        proof {
            let cur = v@.take(end as int);
            let at = end - p@.len();
            assert(cur.subrange(cur.len() - p@.len(), cur.len() as int) =~= v@.skip(at).subrange(
                0,
                p@.len() as int,
            ));
            assert(p@.is_suffix_of(cur));
            assert(cur.take(cur.len() - p@.len()) =~= v@.take(at));
        }
        end -= p.len();
    }
    proof {
        let cur = v@.take(end as int);
        if end >= p.len() {
            let at = end - p@.len();
            assert(cur.subrange(cur.len() - p@.len(), cur.len() as int) =~= v@.skip(at).subrange(
                0,
                p@.len() as int,
            ));
        }
        assert(!p@.is_suffix_of(cur));
    }
    string_of(&v, 0, end)
}

/// What stands behind the first occurrence of `sep` in `s`, or all of `s`.
pub fn after_first(s: &str, sep: &str) -> (r: String)
    ensures
        r@ == tail_after(s@, sep@),
{
    let v = chars_of(s);
    let p = chars_of(sep);
    if p.len() == 0 {
        assert(v@.subrange(0, v@.len() as int) =~= v@);
        assert(p@.is_prefix_of(v@));
        assert(v@.skip(0) =~= v@);
        return string_of(&v, 0, v.len());
    }
    proof {
        assert(v@.skip(0) =~= v@);
        lemma_find_sub_facts(v@, p@);
    }
    let i = find_in(&v, 0, &p);
    if i < v.len() {
        proof {
            assert(v@.subrange(i + p@.len(), v@.len() as int) =~= v@.skip(i + p@.len()));
        }
        string_of(&v, i + p.len(), v.len())
    } else {
        proof {
            assert(v@.subrange(0, v@.len() as int) =~= v@);
        }
        string_of(&v, 0, v.len())
    }
}

/// The decimal digit that stands for `d`, which is below ten.
pub open spec fn digit_char(d: nat) -> char {
    (48 + d) as u8 as char
}

/// The decimal form of `n`, without leading zeros.
pub open spec fn decimal(n: nat) -> Seq<char>
    decreases n,
{
    if n < 10 {
        seq![digit_char(n)]
    } else {
        decimal(n / 10).push(digit_char(n % 10))
    }
}

/// Appends the decimal form of `n` to `out`.
pub fn push_decimal(out: &mut String, n: usize)
    ensures
        final(out)@ == old(out)@ + decimal(n as nat),
    decreases n,
{
    if n >= 10 {
        push_decimal(out, n / 10);
    }
    let d: u8 = (n % 10) as u8;
    push_char(out, (48u8 + d) as char);
    proof {
        if n >= 10 {
            assert(out@ =~= old(out)@ + decimal((n / 10) as nat).push(digit_char((n % 10) as nat)));
        } else {
            assert(out@ =~= old(out)@ + seq![digit_char(n as nat)]);
        }
    }
}

} // verus!
