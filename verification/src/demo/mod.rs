pub mod address;
pub mod files;
pub mod network;
pub mod opcodes;
pub mod run;
pub mod transaction;
pub mod witness;
