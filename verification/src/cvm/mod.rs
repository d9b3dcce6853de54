pub mod account;
pub mod changelog;
pub mod memory;
pub mod messages;
pub mod pool;
pub mod state;
