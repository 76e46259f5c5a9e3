//! Picking a path among candidates by what exists on disk.

use vstd::prelude::*;

verus! {

/// `Path::new(path).exists()`: whether something is at `path` now. It
/// depends on the file system, so nothing is claimed of the answer.
#[verifier::external_body]
fn path_exists(path: &str) -> (r: bool) {
    std::path::Path::new(path).exists()
}

/// `i` is the first candidate flagged as existing.
pub open spec fn first_flag_at(flags: Seq<bool>, i: int) -> bool {
    &&& 0 <= i < flags.len()
    &&& flags[i]
    &&& forall|j: int| 0 <= j < i ==> !flags[j]
}

/// The first candidate whose flag says it exists, or `None` when none
/// does.
pub fn first_flagged(candidates: &Vec<String>, exists: &Vec<bool>) -> (r: Option<String>)
    requires
        exists@.len() == candidates@.len(),
    ensures
        (forall|j: int| 0 <= j < exists@.len() ==> !exists@[j]) ==> r is None,
        forall|i: int| first_flag_at(exists@, i) ==> r is Some && r->0@ == candidates@[i]@,
{
    let mut i: usize = 0;
    while i < exists.len()
        invariant
            i <= exists@.len(),
            exists@.len() == candidates@.len(),
            forall|j: int| 0 <= j < i ==> !exists@[j],
        decreases exists@.len() - i,
    {
        if exists[i] {
            assert forall|k: int| first_flag_at(exists@, k) implies k == i by {
                if k < i {
                    assert(!exists@[k]);
                } else if k > i {
                    assert(exists@[i as int]);
                }
            }
            return Some(candidates[i].clone());
        }
        i = i + 1;
    }
    None
}

/// The first of `candidates` that exists; `None` when none does (or
/// there are none).
pub fn first_existing(candidates: &Vec<String>) -> (r: Option<String>)
    ensures
        candidates@.len() == 0 ==> r is None,
        r matches Some(p) ==> exists|i: int| 0 <= i < candidates@.len() && p@ == candidates@[i]@,
{
    let mut flags: Vec<bool> = Vec::new();
    let mut i: usize = 0;
    while i < candidates.len()
        invariant
            i <= candidates@.len(),
            flags@.len() == i,
        decreases candidates@.len() - i,
    {
        flags.push(path_exists(candidates[i].as_str()));
        i = i + 1;
    }
    let r = first_flagged(candidates, &flags);
    proof {
        if r is Some {
            if forall|j: int| 0 <= j < flags@.len() ==> !flags@[j] {
            } else {
                let k = choose|k: int| 0 <= k < flags@.len() && flags@[k];
                lemma_first_flag_exists(flags@, k);
                let f = choose|f: int| first_flag_at(flags@, f);
                assert(r->0@ == candidates@[f]@);
            }
        }
    }
    r
}

proof fn lemma_first_flag_exists(flags: Seq<bool>, k: int)
    requires
        0 <= k < flags.len(),
        flags[k],
    ensures
        exists|i: int| first_flag_at(flags, i),
    decreases k,
{
    if exists|j: int| 0 <= j < k && flags[j] {
        let j = choose|j: int| 0 <= j < k && flags[j];
        lemma_first_flag_exists(flags, j);
    } else {
        assert(first_flag_at(flags, k));
    }
}

} // verus!
