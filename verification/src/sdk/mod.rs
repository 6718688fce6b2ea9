pub mod membrane;
pub mod prompt;
pub mod protocol;
pub mod tools;
pub mod actor;
pub mod sandbox;
