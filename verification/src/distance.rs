//! Edit distance between character sequences.

use vstd::prelude::*;

verus! {

/// Minimum of two natural numbers.
pub open spec fn min_nat(a: nat, b: nat) -> nat {
    if a <= b {
        a
    } else {
        b
    }
}

/// Maximum of two natural numbers.
pub open spec fn max_nat(a: nat, b: nat) -> nat {
    if a >= b {
        a
    } else {
        b
    }
}

/// The Levenshtein edit distance: the minimum number of character insertions,
/// deletions and substitutions that turn `a` into `b`.
pub open spec fn edit_dist(a: Seq<char>, b: Seq<char>) -> nat
    decreases a.len(), b.len(),
{
    if a.len() == 0 {
        b.len()
    } else if b.len() == 0 {
        a.len()
    } else {
        let delete = edit_dist(a.drop_first(), b) + 1;
        let insert = edit_dist(a, b.drop_first()) + 1;
        let substitute = if a[0] == b[0] {
            edit_dist(a.drop_first(), b.drop_first())
        } else {
            edit_dist(a.drop_first(), b.drop_first()) + 1
        };
        min_nat(min_nat(delete, insert), substitute)
    }
}

/// The product of two values below `2^64` fits in a `u128`.
pub proof fn lemma_mul_fits_u128(x: u128, y: u128)
    by (nonlinear_arith)
    requires
        x <= 0xFFFF_FFFF_FFFF_FFFF,
        y <= 0xFFFF_FFFF_FFFF_FFFF,
    ensures
        x * y <= u128::MAX,
{
}

/// Relies on `strsim::levenshtein`: the minimum number of character
/// insertions, deletions and substitutions required to change one string
/// into the other, which is exactly `edit_dist` on the character sequences.
#[verifier::external_body]
pub(crate) fn edit_distance(a: &str, b: &str) -> (d: usize)
    ensures
        d == edit_dist(a@, b@),
{
    strsim::levenshtein(a, b)
}

} // verus!
