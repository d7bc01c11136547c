pub mod decimal;
pub mod facade;
pub mod hashing;
pub mod payload;
pub mod producer;
pub mod record;
pub mod store;
pub mod checker;
