//! A small social-posting library: credential authentication with hashed
//! passwords and session binding, an in-memory relational store of users,
//! posts, follow edges and tags, and a feed assembler that expands posts
//! into threads from delimited ancestor-id chain references.

pub mod authentication;
pub mod config;
pub mod feed;
pub mod hashing;
pub mod model;
pub mod param;
pub mod routes;
pub mod store;
pub mod template;

pub use param::LoginCredentials;
pub use param::RegisterCredentials;
