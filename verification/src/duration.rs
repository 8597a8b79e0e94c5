//! Track lengths.

use crate::text::{chars_of, split, split_on};
use vstd::prelude::*;

verus! {

/// Whether `c` is a decimal digit.
pub open spec fn is_digit(c: char) -> bool {
    '0' <= c <= '9'
}

/// The number that a decimal digit stands for.
pub open spec fn digit_value(c: char) -> nat {
    (c as u32 - '0' as u32) as nat
}

/// The number that a run of decimal digits stands for.
pub open spec fn digits_value(s: Seq<char>) -> nat
    decreases s.len(),
{
    if s.len() == 0 {
        0
    } else {
        digits_value(s.drop_last()) * 10 + digit_value(s.last())
    }
}

/// Whether `s` is made of decimal digits only.
pub open spec fn all_digits(s: Seq<char>) -> bool {
    forall|i: int| 0 <= i < s.len() ==> is_digit(#[trigger] s[i])
}

/// `s` without a plus sign at its start.
pub open spec fn unsigned_part(s: Seq<char>) -> Seq<char> {
    if s.len() > 0 && s[0] == '+' {
        s.drop_first()
    } else {
        s
    }
}

/// The number that `s` is the decimal form of: one or more digits, a plus
/// sign before them or not, and a value of at most `u64::MAX`.
pub open spec fn number_of(s: Seq<char>) -> Option<nat> {
    let d = unsigned_part(s);
    if d.len() > 0 && all_digits(d) && digits_value(d) <= u64::MAX {
        Some(digits_value(d))
    } else {
        None
    }
}

/// The numbers that the parts are the decimal forms of, where each is one.
pub open spec fn numbers_of(parts: Seq<Seq<char>>) -> Option<Seq<nat>> {
    if forall|i: int| 0 <= i < parts.len() ==> number_of(#[trigger] parts[i]) is Some {
        Some(Seq::new(parts.len(), |i: int| number_of(parts[i])->0))
    } else {
        None
    }
}

/// The seconds in hours, minutes and seconds, or in minutes and seconds;
/// any other count of parts gives none.
pub open spec fn seconds_of(parts: Seq<nat>) -> nat {
    if parts.len() == 3 {
        parts[0] * 3600 + parts[1] * 60 + parts[2]
    } else if parts.len() == 2 {
        parts[0] * 60 + parts[1]
    } else {
        0
    }
}

/// The length in seconds that `text` states as `H:MM:SS` or `M:SS`. A text
/// of another form, or a length above `u64::MAX`, gives zero.
pub open spec fn duration_seconds(text: Seq<char>) -> nat {
    match numbers_of(split_on(text, ':')) {
        Some(parts) => if seconds_of(parts) <= u64::MAX {
            seconds_of(parts)
        } else {
            0
        },
        None => 0,
    }
}

proof fn lemma_digits_value_grows(s: Seq<char>, k: int)
    requires
        0 <= k <= s.len(),
    ensures
        digits_value(s.take(k)) <= digits_value(s),
    decreases s.len() - k,
{
    if k == s.len() {
        assert(s.take(k) =~= s);
    } else {
        let p = s.drop_last();
        lemma_digits_value_grows(p, k);
        assert(p.take(k) =~= s.take(k));
    }
}

/// The number that `s` is the decimal form of.
pub fn parse_number(s: &str) -> (r: Option<u64>)
    ensures
        match r {
            Some(n) => number_of(s@) == Some(n as nat),
            None => number_of(s@) is None,
        },
{
    let v = chars_of(s);
    let start: usize = if v.len() > 0 && v[0] == '+' { 1 } else { 0 };
    let ghost d = unsigned_part(v@);
    proof {
        assert(d =~= v@.skip(start as int));
    }
    if start == v.len() {
        return None;
    }
    let mut acc: u64 = 0;
    let mut i: usize = start;
    proof {
        assert(d.take(0) =~= Seq::<char>::empty());
    }
    while i < v.len()
        invariant
            start <= i <= v.len(),
            v@ == s@,
            d == unsigned_part(s@),
            d == v@.skip(start as int),
            all_digits(d.take(i - start)),
            acc == digits_value(d.take(i - start)),
        decreases v.len() - i,
    {
        let c = v[i];
        let ghost now = d.take(i - start + 1);
        proof {
            assert(now.drop_last() =~= d.take(i - start));
            assert(now.last() == c);
            assert(d[i - start] == c);
        }
        if !('0' <= c && c <= '9') {
            proof {
                assert(!is_digit(d[i - start]));
            }
            return None;
        }
        let digit: u64 = (c as u32 - '0' as u32) as u64;
        if acc > (u64::MAX - digit) / 10 {
            proof {
                assert(digits_value(now) > u64::MAX);
                lemma_digits_value_grows(d, i - start + 1);
            }
            return None;
        }
        acc = acc * 10 + digit;
        i += 1;
        proof {
            assert forall|k: int| 0 <= k < now.len() implies is_digit(#[trigger] now[k]) by {
                if k < now.len() - 1 {
                    assert(now[k] == d.take(i - start - 1)[k]);
                }
            }
        }
    }
    proof {
        assert(d.take(i - start) =~= d);
    }
    Some(acc)
}

/// The length in seconds that `duration` states.
pub fn get_duration_in_seconds(duration: &str) -> (r: u64)
    ensures
        r == duration_seconds(duration@),
{
    let parts = split(duration, ':');
    let mut nums: Vec<u64> = Vec::new();
    let mut k: usize = 0;
    while k < parts.len()
        invariant
            k <= parts.len(),
            nums.len() == k,
            parts.deep_view() == split_on(duration@, ':'),
            forall|j: int|
                0 <= j < k ==> number_of(#[trigger] parts.deep_view()[j]) == Some(nums[j] as nat),
        decreases parts.len() - k,
    {
        match parse_number(parts[k].as_str()) {
            Some(n) => {
                nums.push(n);
            },
            None => {
                proof {
                    assert(number_of(parts.deep_view()[k as int]) is None);
                }
                return 0;
            },
        }
        k += 1;
    }
    let ghost found = numbers_of(parts.deep_view());
    proof {
        assert(found is Some);
        assert(found->0.len() == nums.len());
        assert forall|j: int| 0 <= j < nums.len() implies found->0[j] == nums[j] as nat by {
            assert(number_of(parts.deep_view()[j]) == Some(nums[j] as nat));
        }
    }
    let total: u128 = if nums.len() == 3 {
        (nums[0] as u128) * 3600 + (nums[1] as u128) * 60 + (nums[2] as u128)
    } else if nums.len() == 2 {
        (nums[0] as u128) * 60 + (nums[1] as u128)
    } else {
        0
    };
    if total <= u64::MAX as u128 {
        total as u64
    } else {
        0
    }
}

} // verus!
