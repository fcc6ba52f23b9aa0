pub mod plonk;
pub mod primitives;
