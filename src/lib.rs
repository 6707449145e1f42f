pub mod chess;
pub mod chess2;
pub mod errors;
