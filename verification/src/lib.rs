pub mod le;
pub mod ieee754;
pub mod text;
pub mod dmo;
pub mod bytecode;
pub mod jit;
