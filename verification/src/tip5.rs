//! The external TIP5 sponge primitive, reached through trusted wrappers.
//! Each digest text is named by an uninterpreted spec function: the hash and
//! its `Debug` rendering are pure functions of the field-element values
//! handed in, so the same inputs always yield the same text.

use vstd::prelude::*;
use twenty_first::prelude::BFieldElement;
use twenty_first::prelude::Digest;
use twenty_first::prelude::Tip5;

verus! {

/// The `Debug` text of the TIP5 digest of two field elements, each embedded
/// as the first slot of a five-slot digest whose other slots are zero.
pub uninterp spec fn pair_digest_of(a: u64, b: u64) -> Seq<char>;

/// The `Debug` text of the TIP5 digest of a variable-length sequence of
/// field elements.
pub uninterp spec fn varlen_digest_of(values: Seq<u64>) -> Seq<char>;

/// Relies on twenty_first's `Tip5::hash_pair`, `Digest::new` and
/// `BFieldElement::new`: each argument becomes the first element of a
/// five-element digest with the rest zero, the two digests are hashed
/// together, and the result's `Debug` text is returned. The hash and the
/// rendering depend on `a` and `b` alone.
#[verifier::external_body]
pub(crate) fn tip5_hash_pair(a: u64, b: u64) -> (r: String)
    ensures
        r@ == pair_digest_of(a, b),
{
    let z = BFieldElement::new(0);
    let left = Digest::new([BFieldElement::new(a), z, z, z, z]);
    let right = Digest::new([BFieldElement::new(b), z, z, z, z]);
    format!("{:?}", Tip5::hash_pair(left, right))
}

/// Relies on twenty_first's `Tip5::hash_varlen` and `BFieldElement::new`:
/// the values become field elements in order, the sequence is hashed, and
/// the result's `Debug` text is returned. The hash and the rendering depend
/// on the values alone.
#[verifier::external_body]
pub(crate) fn tip5_hash_varlen(values: &Vec<u64>) -> (r: String)
    ensures
        r@ == varlen_digest_of(values@),
{
    let mut elements: Vec<BFieldElement> = Vec::new();
    for v in values {
        elements.push(BFieldElement::new(*v));
    }
    format!("{:?}", Tip5::hash_varlen(&elements))
}

} // verus!
