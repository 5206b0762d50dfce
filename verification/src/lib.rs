pub mod audit;
pub mod bytes;
pub mod ingest;
pub mod naming;
pub mod paths;
pub mod period;
pub mod retrieval;
pub mod store;
