//! Talking to GitHub's GraphQL API and turning its answers into the API's
//! responses.

pub mod types;
pub mod domain;
pub mod languages;
pub mod commits;
pub mod streak;
pub mod client;
