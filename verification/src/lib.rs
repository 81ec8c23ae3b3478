//! Verified logic for turning research PDFs into searchable knowledge.
//!
//! The crate holds the parts of a document pipeline that decide and compute:
//! repairing mangled LaTeX, reading tables, figures, links and algorithm
//! listings out of recognised pages, naming documents, bounding model calls,
//! and steering the long-running processing tasks. Every function carries a
//! contract over plain mathematical values; the surrounding application
//! performs the I/O.

pub mod algo_blocks;
pub mod algo_laws;
pub mod algorithm_embedding;
pub mod algorithm_extraction;
pub mod algorithm_runs;
pub mod backfill;
pub mod chunk;
pub mod code_reference;
pub mod conversion;
pub mod course_laws;
pub mod escape_laws;
pub mod figures;
pub mod graph;
pub mod heading_laws;
pub mod headings;
pub mod latex_laws;
pub mod latex_marks;
pub mod latex_measure;
pub mod latex_repair;
pub mod latex_rest;
pub mod layout;
pub mod limit_laws;
pub mod links;
pub mod media;
pub mod metadata;
pub mod metadata_laws;
pub mod naming;
pub mod order;
pub mod outcome_laws;
pub mod page_laws;
pub mod page_runs;
pub mod patterns;
pub mod pdf_plan;
pub mod pdf_processing;
pub mod reading_laws;
pub mod reference_codebase;
pub mod repo_detection;
pub mod repo_laws;
pub mod repos;
pub mod rewrite;
pub mod rewrite_laws;
pub mod run_laws;
pub mod safety_limits;
pub mod table_classification;
pub mod table_laws;
pub mod tables;
pub mod tasks;
pub mod text;
pub mod text_laws;
