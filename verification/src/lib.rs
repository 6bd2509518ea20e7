pub mod frequency;
pub mod solver;
pub mod timing;

pub use timing::CanBitTiming;
