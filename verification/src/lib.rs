//! Verified core of the Iceberg GitHub statistics API: request validation,
//! authentication decisions, GraphQL response handling, commit and language
//! aggregation, contribution streaks and error reporting.

pub mod text;
pub mod decimal;
pub mod error;
pub mod models;
pub mod github;
pub mod sorting;
pub mod dates;
pub mod config;
pub mod response;
pub mod cache;
