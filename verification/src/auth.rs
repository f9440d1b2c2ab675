use vstd::prelude::*;

verus! {

/// The authorization gate: a pure, side-effect-free equality test between a
/// calling identity and the stored owner identity. There is no hierarchy and
/// no delegation; a caller is authorized exactly when the two identities are
/// the same string.
pub fn check(caller: &String, owner: &String) -> (r: bool)
    ensures
        r == (caller@ == owner@),
{
    *caller == *owner
}

} // verus!
