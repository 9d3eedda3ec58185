//! Verified core of an embedded memory store for agents.
use vstd::prelude::*;

pub mod action_laws;
pub mod audit;
pub mod batch_laws;
pub mod boost_laws;
pub mod clock;
pub mod codec;
pub mod column_laws;
pub mod config;
pub mod contexts;
pub mod enrichment;
pub mod enrichment_laws;
pub mod entities;
pub mod entity_extraction;
pub mod entity_laws;
pub mod extraction_jobs;
pub mod field_laws;
pub mod float;
pub mod graph;
pub mod hybrid;
pub mod ids;
pub mod json;
pub mod keyed;
pub mod lifecycle;
pub mod memory;
pub mod mention_laws;
pub mod order;
pub mod phrase_laws;
pub mod plan_laws;
pub mod policies;
pub mod policy_laws;
pub mod policy_runs;
pub mod query;
pub mod recall;
pub mod recall_laws;
pub mod record_laws;
pub mod records;
pub mod rows;
pub mod run_laws;
pub mod search;
pub mod search_laws;
pub mod storage;
pub mod store_laws;
pub mod table_laws;
pub mod tables;
pub mod text;
pub mod text_laws;
pub mod traces;
pub mod write_laws;
pub mod writes;
