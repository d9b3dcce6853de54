pub mod checks;
pub mod splitter;
pub mod timelock;
