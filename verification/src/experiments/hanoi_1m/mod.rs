pub mod harness;
pub mod agent;
