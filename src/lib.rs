//! Bank-statement ingestion and recurring-payment detection.
pub mod budget;
pub mod columns;
pub mod dates;
pub mod detect;
pub mod error;
pub mod fields;
pub mod frequency;
pub mod hash;
pub mod ingest;
pub mod models;
pub mod payee;
pub mod session;
pub mod text;
