pub mod chess;
pub mod search;
pub mod move_sorting;
pub mod parameters;
pub mod uci;
