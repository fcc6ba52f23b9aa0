//! Values of the Mersenne-31 prime field and of its complex extension.

pub mod cm31;
pub mod m31;
