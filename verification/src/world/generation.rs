pub mod randomness;
pub mod terrain;
