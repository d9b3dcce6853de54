pub mod accounts;
pub mod errors;
pub mod instructions;
pub mod typedefs;

use vstd::prelude::*;

verus! {

/// The program's address.
pub const ID: [u8; 32] = [
    13, 63, 217, 175, 77, 139, 63, 48, 250, 197, 190, 77, 127, 108, 120, 249,
    29, 39, 239, 5, 137, 200, 160, 31, 106, 30, 128, 200, 9, 86, 92, 87,
];

} // verus!
