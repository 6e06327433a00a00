//! Core logic of a "bus factor" scanner for popular repositories: paging
//! arithmetic and reassembly for a paginated search endpoint, chunk planning
//! and order-preserving joins for a bounded worker pool, contribution-share
//! computation over exact rationals, and threshold aggregation with
//! first-error semantics. The HTTP transport, command line, and task
//! scheduling live outside this crate; everything here is plain data in,
//! plain data out, with a proved contract.

pub mod api_errors;
pub mod github_api;
pub mod github_data;
pub mod worker_pool;
