pub mod math_membrane;
pub mod constitution;
pub mod reactor;
