pub mod airdrop;
pub mod transfer;
