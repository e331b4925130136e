use vstd::prelude::*;

pub mod folding;
pub mod msm;
pub mod points;
pub mod products;
pub mod prover;
pub mod scalars;
pub mod transcript;
pub mod verification;
pub mod wip;

verus! {

/// Order of the Pallas group, which is also the modulus of its scalar field.
pub open spec fn group_order() -> nat {
    0x40000000000000000000000000000000224698fc0994a8dd8c46eb2100000001nat
}

} // verus!
