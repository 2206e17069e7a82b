//! The report templates.

use vstd::prelude::*;
use crate::models::ReportTemplateConfig;

verus! {

/// The report templates.
pub struct ReportTemplate;

impl ReportTemplate {
    /// The template with every section.
    pub fn full() -> (t: ReportTemplateConfig)
        ensures
            t.name@ == "full"@,
            t.include_trends && t.include_action_items && t.include_charts && t.include_sources,
    {
        ReportTemplateConfig {
            name: String::from_str("full"),
            include_trends: true,
            include_action_items: true,
            include_charts: true,
            include_sources: true,
        }
    }

    /// The template for executives: trends and action items, without charts
    /// and sources.
    pub fn executive() -> (t: ReportTemplateConfig)
        ensures
            t.name@ == "executive"@,
            t.include_trends && t.include_action_items,
            !t.include_charts && !t.include_sources,
    {
        ReportTemplateConfig {
            name: String::from_str("executive"),
            include_trends: true,
            include_action_items: true,
            include_charts: false,
            include_sources: false,
        }
    }
}

} // verus!
