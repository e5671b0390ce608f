//! Authentication core of a multi-tenant list and card keeper: password
//! hashing, signed session tokens, the request gate that checks them, and the
//! decisions of the sign-up and sign-in flows.
pub mod error;
pub mod config;
pub mod hasher;
pub mod text;
pub mod decimal;
pub mod models;
pub mod jsonstr;
pub mod payload;
pub mod token;
pub mod gate;
pub mod flows;
