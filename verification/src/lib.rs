//! A todo list with optional labels: entities and payloads, their validation
//! rules, the repository contracts, an in-memory store that meets them, and
//! the decisions that the HTTP endpoints and the relational store make.

pub mod decimal;
pub mod handlers;
pub mod repositories;
