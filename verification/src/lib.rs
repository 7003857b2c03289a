//! A url-shortening library: a base-61 codec that turns store-assigned row
//! ids into short reversible tokens, randomized padding that hides an id's
//! magnitude while staying decodable, a search/persistence abstraction
//! over share and user records with at-most-one-match semantics, and a
//! capability-based authentication guard for the privileged operations.
pub mod auth;
pub mod common;
pub mod database;
pub mod service;
pub mod url_id;
pub mod users;
