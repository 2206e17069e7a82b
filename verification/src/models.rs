//! The records that a run produces and that reports are made of.
//!
//! Times are carried as RFC 3339 text, and trend figures as the decimal
//! text that reports print, so that everything here is plain data.

use vstd::prelude::*;
use crate::keyed::NameMap;

verus! {

/// One search hit that an agent used as a source.
#[derive(Clone, Debug)]
pub struct SearchResult {
    pub title: String,
    pub url: String,
    pub snippet: String,
    pub source: String,
    pub published_date: Option<String>,
}

/// A finding that an agent derived from its sources.
#[derive(Clone, Debug)]
pub struct Insight {
    pub summary: String,
    pub confidence: u8,
    pub action_items: Vec<String>,
    pub sources: Vec<SearchResult>,
    pub tags: Vec<String>,
}

/// What one agent delivered.
#[derive(Clone, Debug)]
pub struct AgentOutput {
    pub agent_name: String,
    pub query_type: String,
    pub content: String,
    pub confidence: u8,
    pub duration_ms: u64,
    pub recursive_depth: u8,
    pub sources: Vec<SearchResult>,
    pub insights: Vec<Insight>,
}

/// An agent that did not deliver, with the error it failed with.
#[derive(Clone, Debug)]
pub struct AgentFailure {
    pub agent_name: String,
    pub error: String,
}

/// The outcome of one run of the swarm.
#[derive(Clone, Debug)]
pub struct SwarmResults {
    pub execution_id: String,
    pub timestamp: String,
    pub query: String,
    pub agent_outputs: NameMap<AgentOutput>,
    pub failed_agents: Vec<AgentFailure>,
    pub total_tokens: u64,
    pub duration_ms: u64,
}

/// One measured quantity compared with the previous run, as printed.
#[derive(Clone, Debug)]
pub struct Trend {
    pub current_value: String,
    pub previous_value: Option<String>,
    pub change_percent: String,
}

/// The trends of a run and one line per notable change.
#[derive(Clone, Debug)]
pub struct TrendAnalysis {
    pub trends: NameMap<Trend>,
    pub delta_summary: Vec<String>,
}

impl TrendAnalysis {
    /// No trends and no change lines.
    pub fn empty() -> (t: TrendAnalysis)
        ensures
            t.trends.view().len() == 0,
            t.delta_summary@.len() == 0,
    {
        TrendAnalysis { trends: NameMap::new(), delta_summary: Vec::new() }
    }
}

/// How a report was produced.
#[derive(Clone, Debug)]
pub struct RunMetadata {
    pub query: String,
    pub agent_count: usize,
    pub formats: Vec<String>,
    pub output_dir: String,
    pub resumed: bool,
    pub backend: String,
    pub model: String,
    pub api_base_url: String,
}

/// The report of one run.
#[derive(Clone, Debug)]
pub struct EnhancedReport {
    pub title: String,
    pub execution_id: String,
    pub timestamp: String,
    pub summary: String,
    pub trends: TrendAnalysis,
    pub action_items: Vec<String>,
    pub charts: NameMap<String>,
    pub agent_outputs: NameMap<AgentOutput>,
    pub export_formats: Vec<String>,
    pub confidence_score: u8,
    pub metadata: RunMetadata,
}

/// The state of a run that is saved after each completed agent, from which
/// the run can resume.
#[derive(Clone, Debug)]
pub struct Checkpoint {
    pub execution_id: String,
    pub query: String,
    pub completed_agents: Vec<String>,
    pub remaining_agents: Vec<String>,
    pub partial_results: NameMap<AgentOutput>,
    pub timestamp: String,
}

/// One line of the run history.
#[derive(Clone, Debug)]
pub struct RunSummary {
    pub execution_id: String,
    pub timestamp: String,
    pub query: String,
    pub status: String,
    pub duration_ms: u64,
    pub total_tokens: u64,
    pub confidence_score: u8,
}

/// Which sections a report includes.
#[derive(Clone, Debug)]
pub struct ReportTemplateConfig {
    pub name: String,
    pub include_trends: bool,
    pub include_action_items: bool,
    pub include_charts: bool,
    pub include_sources: bool,
}

} // verus!
