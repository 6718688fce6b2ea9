pub mod lean4_oracle;
pub mod problem;
pub mod market;
