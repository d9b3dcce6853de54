pub mod accounts;
pub mod errors;
pub mod instructions;
pub mod typedefs;

use vstd::prelude::*;

verus! {

/// The program's address.
pub const ID: [u8; 32] = [
    13, 4, 145, 104, 159, 113, 156, 117, 87, 208, 216, 95, 20, 101, 243, 94,
    116, 81, 145, 187, 83, 29, 105, 174, 98, 27, 164, 235, 251, 130, 211, 165,
];

} // verus!
