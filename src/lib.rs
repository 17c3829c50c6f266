//! Detection engine for leaked credentials: rule loading, line matching and
//! aggregation of matches into findings, tag filters, ignore resolution and
//! the byte histogram behind the entropy measure.
pub mod text;
pub mod rules;
pub mod scan;
pub mod ignore;
pub mod filter;
pub mod git;
pub mod entropy;
