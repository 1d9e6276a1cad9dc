//! The byte container that backends read and write.
//!
//! `sgdata::SGData` holds a value as a list of parts that share their
//! buffers, so duplicating one is cheap. Verus does not look inside it: what
//! it holds is named by `sg_parts`, and the few operations the backends use
//! are given contracts over that name.

use vstd::prelude::*;
use sgdata::SGData;

verus! {

/// `sgdata::SGData`, carried as it is. Nothing is known of a value but what
/// `sg_parts` names.
#[verifier::external_type_specification]
#[verifier::external_body]
pub struct ExSGData(SGData);

/// The parts of the container, in order, each as its bytes.
pub uninterp spec fn sg_parts(data: SGData) -> Seq<Seq<u8>>;

/// `SGData::from_single` makes a container of exactly one part, which is the
/// given vector.
pub assume_specification[ SGData::from_single ](v: Vec<u8>) -> (data: SGData)
    ensures
        sg_parts(data) == seq![v@],
;

/// `SGData::clone` copies the list of parts; each copy refers to the same
/// bytes as the part it was copied from.
pub assume_specification[ <SGData as Clone>::clone ](data: &SGData) -> (copy: SGData)
    ensures
        sg_parts(copy) == sg_parts(*data),
;

} // verus!
