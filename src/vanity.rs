//! Comparing an address with a wanted prefix.
use crate::tags::{chars_of, lowercase, lowercase_of};
use vstd::prelude::*;

verus! {

/// Whether two characters match, ignoring case unless `case_sensitive`.
pub open spec fn chars_match(x: char, y: char, case_sensitive: bool) -> bool {
    x == y || (!case_sensitive && lowercase_of(x) == lowercase_of(y))
}

fn same_lowercase(x: char, y: char) -> (r: bool)
    ensures
        r == (lowercase_of(x) == lowercase_of(y)),
{
    let a = lowercase(x);
    let b = lowercase(y);
    if a.len() != b.len() {
        return false;
    }
    let mut i: usize = 0;
    while i < a.len()
        invariant
            a@ == lowercase_of(x),
            b@ == lowercase_of(y),
            a@.len() == b@.len(),
            i <= a@.len(),
            forall|j: int| 0 <= j < i ==> a@[j] == b@[j],
        decreases a@.len() - i,
    {
        if a[i] != b[i] {
            assert(a@[i as int] != b@[i as int]);
            return false;
        }
        i = i + 1;
    }
    assert(a@ =~= b@);
    true
}

/// How many leading characters of `a` and `b` match, ignoring case unless
/// `case_sensitive`.
pub fn count_match(a: &str, b: &str, case_sensitive: bool) -> (r: usize)
    ensures
        r <= a@.len(),
        r <= b@.len(),
        forall|i: int| 0 <= i < r ==> chars_match(a@[i], b@[i], case_sensitive),
        r < a@.len() && r < b@.len() ==> !chars_match(a@[r as int], b@[r as int], case_sensitive),
{
    let x = chars_of(a);
    let y = chars_of(b);
    let mut count: usize = 0;
    while count < x.len() && count < y.len()
        invariant
            x@ == a@,
            y@ == b@,
            count <= x@.len(),
            count <= y@.len(),
            forall|i: int| 0 <= i < count ==> chars_match(a@[i], b@[i], case_sensitive),
        decreases x@.len() - count,
    {
        let c = x[count];
        let d = y[count];
        if !(c == d || (!case_sensitive && same_lowercase(c, d))) {
            return count;
        }
        count = count + 1;
    }
    count
}

} // verus!
