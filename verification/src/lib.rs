//! Report assembly, configuration resolution and run bookkeeping for a
//! multi-agent research engine, with their behaviour stated as contracts.

pub mod agents;
pub mod config;
pub mod keyed;
pub mod models;
pub mod report;
pub mod run;
pub mod schema;
pub mod search;
pub mod templates;
pub mod text;
