//! Fraud detection by nearest neighbours over a clustered vector index.

pub mod bench;
pub mod build_laws;
pub mod builder;
pub mod bytes;
pub mod clock;
pub mod evaluation;
pub mod command_laws;
pub mod decision_laws;
pub mod feature_laws;
pub mod file_laws;
pub mod index_file;
pub mod index_writer;
pub mod kmeans;
pub mod layout_laws;
pub mod metric;
pub mod metric_laws;
mod parallel;
pub mod pass_laws;
pub mod probes;
pub mod response;
pub mod scan_laws;
pub mod scorer;
pub mod search;
pub mod search_laws;
pub mod top;
pub mod training_laws;
pub mod types;
pub mod vectorizer;
pub mod warmup;
