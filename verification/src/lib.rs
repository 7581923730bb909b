//! Finnish grocery catalogues for agents: K-Ruoka, S-Kaupat and Alko.
//!
//! The library decides what is asked of each service, what is made of the answers, and when a
//! session or a query is tried again. It opens no connection of its own.

pub mod alko_mcp;
pub mod browser;
pub mod grocery_mcp;
pub mod http;
pub mod json;
pub mod providers;
pub mod s_kaupat_mcp;
pub mod text;
