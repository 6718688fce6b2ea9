pub mod lean4_membrane;
pub mod lean4_membrane_tool;
pub mod evaluation;
pub mod batch;
