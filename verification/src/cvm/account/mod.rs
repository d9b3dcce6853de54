pub mod nonce;
pub mod relay;
pub mod timelock;
pub mod virtual_account;
