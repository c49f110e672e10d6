//! Lane-wise forms of the per-register step-backs, for the multi-lane
//! generator: each function applies the scalar step-back to every lane.

use vstd::prelude::*;

use crate::rand32_rev::prev_s1_spec;
use crate::rand32_rev::prev_s2_spec;
use crate::rand32_rev::prev_s3_spec;

verus! {

/// Compute the previous value of the first register in every lane.
pub fn prev_s1(s: &Vec<u32>) -> (r: Vec<u32>)
    ensures
        r@.len() == s@.len(),
        forall|i: int| 0 <= i < s@.len() ==> r@[i] == prev_s1_spec(s@[i]),
{
    let mut out: Vec<u32> = Vec::new();
    let mut i: usize = 0;
    while i < s.len()
        invariant
            i <= s@.len(),
            out@.len() == i,
            forall|j: int| 0 <= j < i ==> out@[j] == prev_s1_spec(s@[j]),
        decreases s@.len() - i,
    {
        out.push(crate::rand32_rev::prev_s1(s[i]));
        i += 1;
    }
    out
}

/// Compute the previous value of the second register in every lane.
pub fn prev_s2(s: &Vec<u32>) -> (r: Vec<u32>)
    ensures
        r@.len() == s@.len(),
        forall|i: int| 0 <= i < s@.len() ==> r@[i] == prev_s2_spec(s@[i]),
{
    let mut out: Vec<u32> = Vec::new();
    let mut i: usize = 0;
    while i < s.len()
        invariant
            i <= s@.len(),
            out@.len() == i,
            forall|j: int| 0 <= j < i ==> out@[j] == prev_s2_spec(s@[j]),
        decreases s@.len() - i,
    {
        out.push(crate::rand32_rev::prev_s2(s[i]));
        i += 1;
    }
    out
}

/// Compute the previous value of the third register in every lane.
pub fn prev_s3(s: &Vec<u32>) -> (r: Vec<u32>)
    ensures
        r@.len() == s@.len(),
        forall|i: int| 0 <= i < s@.len() ==> r@[i] == prev_s3_spec(s@[i]),
{
    let mut out: Vec<u32> = Vec::new();
    let mut i: usize = 0;
    while i < s.len()
        invariant
            i <= s@.len(),
            out@.len() == i,
            forall|j: int| 0 <= j < i ==> out@[j] == prev_s3_spec(s@[j]),
        decreases s@.len() - i,
    {
        out.push(crate::rand32_rev::prev_s3(s[i]));
        i += 1;
    }
    out
}

} // verus!
