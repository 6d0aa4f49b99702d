pub mod assignment;
pub mod fusion;
