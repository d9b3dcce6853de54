pub mod memory;
pub mod relay;
pub mod storage;
pub mod unlock;
pub mod vm;
pub mod withdraw;
