pub mod channel;
pub mod cm31;
pub mod m31;
pub mod qm31;
pub mod strings;
pub mod table;
