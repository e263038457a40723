//! A client library for the Vtiger CRM REST API.
//!
//! [`Vtiger`] names an instance and its credentials and gives the request
//! for each API operation: user information (`/me`), module listing and
//! description, record retrieval, creation, update and revision, and
//! queries in Vtiger's SQL-like syntax. The [`export`] and [`sink`] modules
//! hold the decisions of a batched export of a module's records to JSON,
//! JSON Lines and CSV.

pub mod client;
pub mod export;
pub mod json;
pub mod sink;
pub mod text;
pub mod types;

pub use client::Vtiger;
pub use types::{ApiError, ExportFormat, VtigerQueryResponse, VtigerResponse};
