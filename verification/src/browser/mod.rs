pub mod catalog;
pub mod session;
