//! Asynchronous job/task pipeline core: a durable job store with single-flight
//! job creation per datasource view, a result cache with a cache-aside read
//! path, a paginated record fetcher, and an export reconciler with a
//! configurable conflict policy and compensating undo runs.

pub mod airtable;
pub mod cache;
pub mod download;
pub mod entities;
pub mod errors;
pub mod export;
pub mod external;
pub mod requests;
pub mod runner;
pub mod store;
pub mod types;
pub mod workspace;
