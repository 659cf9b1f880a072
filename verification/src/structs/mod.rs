pub mod clients;
pub mod entities;
