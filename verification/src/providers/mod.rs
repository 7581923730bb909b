//! Catalogue providers that are independent of K-Ruoka's browser session.

pub mod alko;
pub mod s_kaupat;
