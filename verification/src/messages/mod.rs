pub mod entities;
pub mod ping;
pub mod position;
