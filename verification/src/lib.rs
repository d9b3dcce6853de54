pub mod bytes;
pub mod codec;
pub mod consts;
pub mod cvm;
pub mod error;
pub mod fields;
pub mod external;
pub mod helpers;
pub mod instruction;
pub mod opcode;
pub mod pdas;
pub mod sdk;
pub mod state;
pub mod types;
pub mod utils;
