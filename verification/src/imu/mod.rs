pub mod fusion;
pub mod trajectory;
