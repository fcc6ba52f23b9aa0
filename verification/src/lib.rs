pub mod bytes;
pub mod channel;
pub mod constraint_system;
pub mod demo;
pub mod dsl;
pub mod fields;
pub mod hash;
pub mod machine;
pub mod script;
pub mod text;
