pub mod dh;
pub mod ec;
pub mod field;
pub mod poseidon;
