//! Small verified helpers over strings.

use vstd::prelude::*;

verus! {

/// Equality of two string slices by their character sequences.
pub fn str_eq(a: &str, b: &str) -> (r: bool)
    ensures
        r == (a@ == b@),
{
    let sa = a.to_owned();
    let sb = b.to_owned();
    sa.eq(&sb)
}

/// Equality of two owned strings by their character sequences.
pub fn string_eq(a: &String, b: &String) -> (r: bool)
    ensures
        r == (a@ == b@),
{
    a.eq(b)
}

/// Pointwise equality of two string lists.
pub fn string_list_eq(a: &Vec<String>, b: &Vec<String>) -> (r: bool)
    ensures
        r == (a@.map_values(|s: String| s@) == b@.map_values(|s: String| s@)),
{
    if a.len() != b.len() {
        proof {
            assert(a@.map_values(|s: String| s@).len() != b@.map_values(|s: String| s@).len());
        }
        return false;
    }
    let mut i: usize = 0;
    while i < a.len()
        invariant
            0 <= i <= a@.len(),
            a@.len() == b@.len(),
            forall|j: int| 0 <= j < i ==> (#[trigger] a@[j])@ == b@[j]@,
        decreases a@.len() - i,
    {
        if !a[i].eq(&b[i]) {
            proof {
                assert(a@.map_values(|s: String| s@)[i as int] != b@.map_values(|s: String| s@)[i as int]);
            }
            return false;
        }
        i = i + 1;
    }
    proof {
        assert(a@.map_values(|s: String| s@) =~= b@.map_values(|s: String| s@));
    }
    true
}

} // verus!
