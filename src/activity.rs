//! The remote synchronisation cursor: the id of the latest remote activity
//! that has been applied.
//!
//! Activity ids are decimal numbers that the server hands out in increasing
//! order. The empty id stands for "no activity yet" and comes before all
//! others. An id that is not a decimal number fitting in 64 bits is only ever
//! equal to itself.

use vstd::prelude::*;
use vstd::string::*;
use crate::paths::str_eq;

verus! {

pub open spec fn is_digit(c: char) -> bool {
    '0' <= c && c <= '9'
}

pub open spec fn digit_value(c: char) -> nat {
    (c as u32 - '0' as u32) as nat
}

/// The value of a string of decimal digits.
pub open spec fn digits_value(s: Seq<char>) -> nat
    decreases s.len(),
{
    if s.len() == 0 {
        0
    } else {
        10 * digits_value(s.drop_last()) + digit_value(s.last())
    }
}

pub open spec fn is_decimal(s: Seq<char>) -> bool {
    s.len() > 0 && forall|i: int| 0 <= i < s.len() ==> is_digit(#[trigger] s[i])
}

/// Where an id stands in the activity stream, when it is a number.
pub open spec fn activity_position(s: Seq<char>) -> Option<nat> {
    if is_decimal(s) && digits_value(s) <= u64::MAX {
        Some(digits_value(s))
    } else {
        None
    }
}

/// `a` is the same id as `b`, or a later one.
pub open spec fn id_eq_or_newer(a: Seq<char>, b: Seq<char>) -> bool {
    ||| a == b
    ||| b.len() == 0
    ||| (activity_position(a) matches Some(x) && activity_position(b) matches Some(y) && x >= y)
}

proof fn lemma_digits_value_grows(s: Seq<char>, i: int)
    requires
        0 <= i <= s.len(),
    ensures
        digits_value(s.take(i)) <= digits_value(s),
    decreases s.len() - i,
{
    if i < s.len() {
        lemma_digits_value_grows(s, i + 1);
        assert(s.take(i + 1).drop_last() == s.take(i));
    } else {
        assert(s.take(i) == s);
    }
}

/// The position of `s` in the activity stream, if it has one.
pub fn parse_activity_id(s: &str) -> (r: Option<u64>)
    ensures
        r matches Some(v) ==> activity_position(s@) == Some(v as nat),
        r is None ==> activity_position(s@) is None,
{
    let n = s.unicode_len();
    if n == 0 {
        return None;
    }
    let mut v: u64 = 0;
    let mut i: usize = 0;
    while i < n
        invariant
            n == s@.len(),
            i <= n,
            v as nat == digits_value(s@.take(i as int)),
            forall|j: int| 0 <= j < i ==> is_digit(#[trigger] s@[j]),
        decreases n - i,
    {
        let c = s.get_char(i);
        if !('0' <= c && c <= '9') {
            return None;
        }
        let d = (c as u32 - '0' as u32) as u64;
        assert(s@.take(i + 1).drop_last() == s@.take(i as int));
        let m = v.checked_mul(10);
        match m {
            None => {
                proof { lemma_digits_value_grows(s@, i + 1); }
                return None;
            },
            Some(m) => {
                match m.checked_add(d) {
                    None => {
                        proof { lemma_digits_value_grows(s@, i + 1); }
                        return None;
                    },
                    Some(w) => {
                        v = w;
                    },
                }
            },
        }
        i = i + 1;
    }
    assert(s@.take(n as int) == s@);
    Some(v)
}

#[derive(Clone, Debug)]
pub struct NCState {
    pub latest_activity_id: String,
}

impl NCState {
    /// The cursor before any activity has been seen.
    pub fn new() -> (r: NCState)
        ensures
            r.latest_activity_id@.len() == 0,
    {
        NCState { latest_activity_id: String::new() }
    }

    /// `self` is the same position as `other`, or a later one.
    pub fn eq_or_newer_than(&self, other: &NCState) -> (r: bool)
        ensures
            r == id_eq_or_newer(self.latest_activity_id@, other.latest_activity_id@),
    {
        let a = self.latest_activity_id.as_str();
        let b = other.latest_activity_id.as_str();
        if str_eq(a, b) {
            return true;
        }
        if b.unicode_len() == 0 {
            return true;
        }
        match (parse_activity_id(a), parse_activity_id(b)) {
            (Some(x), Some(y)) => x >= y,
            _ => false,
        }
    }
}

/// Every cursor is at least as new as itself.
pub proof fn law_cursor_reflexive(a: NCState)
    ensures
        id_eq_or_newer(a.latest_activity_id@, a.latest_activity_id@),
{
}

/// "Same or newer" chains: a cursor that only ever moves to a same-or-newer
/// position never goes back behind where it started.
pub proof fn law_cursor_transitive(a: NCState, b: NCState, c: NCState)
    requires
        id_eq_or_newer(a.latest_activity_id@, b.latest_activity_id@),
        id_eq_or_newer(b.latest_activity_id@, c.latest_activity_id@),
    ensures
        id_eq_or_newer(a.latest_activity_id@, c.latest_activity_id@),
{
}

} // verus!
