pub mod counting;
pub mod minefield;
pub mod towdarray;
