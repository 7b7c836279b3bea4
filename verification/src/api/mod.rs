pub mod list;
pub mod math;
