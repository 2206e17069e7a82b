use bioswarm_engine::keyed::NameMap;
use bioswarm_engine::models::{AgentOutput, EnhancedReport, RunMetadata, SearchResult, TrendAnalysis};

fn sample_report() -> EnhancedReport {
    let output = AgentOutput {
        agent_name: "DeepResearcher".into(),
        query_type: "ai market intelligence".into(),
        content: "A sample output".into(),
        confidence: 88,
        duration_ms: 1200,
        recursive_depth: 2,
        sources: vec![SearchResult {
            title: "Example".into(),
            url: "https://example.com".into(),
            snippet: "Snippet".into(),
            source: "mock-exa".into(),
            published_date: Some("2026-04-08".into()),
        }],
        insights: vec![],
    };
    let mut outputs = NameMap::new();
    outputs.insert("DeepResearcher".into(), output);
    EnhancedReport {
        title: "Test Report".into(),
        execution_id: "exec-123".into(),
        timestamp: "2026-04-08T00:00:00+00:00".into(),
        summary: "summary".into(),
        trends: TrendAnalysis::empty(),
        action_items: vec!["Action".into()],
        charts: NameMap::new(),
        agent_outputs: outputs,
        export_formats: vec!["Markdown".into(), "Json".into(), "Html".into(), "Csv".into()],
        confidence_score: 88,
        metadata: RunMetadata {
            query: "ai market intelligence".into(),
            agent_count: 14,
            formats: vec!["Markdown".into()],
            output_dir: "outputs".into(),
            resumed: false,
            backend: "fireworks".into(),
            model: "accounts/fireworks/models/kimi-k2-instruct".into(),
            api_base_url: "https://api.fireworks.ai/inference/v1".into(),
        },
    }
}

const MARKDOWN: &str = "# Test Report\n\nsummary\n\n## Action items\n\n- Action\n\n## Agent findings\n\n### DeepResearcher\n\nA sample output\n\n";

#[test]
fn markdown_snapshot() {
    assert_eq!(sample_report().to_markdown(), MARKDOWN);
}

#[test]
fn csv_snapshot() {
    assert_eq!(
        sample_report().to_csv(),
        "agent_name,confidence,depth,content\nDeepResearcher,88,2,A sample output\n"
    );
}

#[test]
fn html_snapshot() {
    assert_eq!(
        sample_report().to_html(),
        format!("<html><body><pre>{}</pre></body></html>", MARKDOWN)
    );
}

#[test]
fn csv_quotes_fields_with_commas_and_quotes() {
    let mut report = sample_report();
    let mut outputs = NameMap::new();
    let mut output = report.agent_outputs.get("DeepResearcher").unwrap().clone();
    output.content = "a, \"b\"".into();
    outputs.insert("DeepResearcher".into(), output);
    report.agent_outputs = outputs;
    assert_eq!(
        report.to_csv(),
        "agent_name,confidence,depth,content\nDeepResearcher,88,2,\"a, \"\"b\"\"\"\n"
    );
}

#[test]
fn csv_quotes_line_breaks_and_keeps_empty_fields_bare() {
    let mut report = sample_report();
    let mut outputs = NameMap::new();
    let mut first = report.agent_outputs.get("DeepResearcher").unwrap().clone();
    first.content = "line one\nline two\r".into();
    let mut second = first.clone();
    second.agent_name = "Empty".into();
    second.content = "".into();
    outputs.insert("DeepResearcher".into(), first);
    outputs.insert("Empty".into(), second);
    report.agent_outputs = outputs;
    assert_eq!(
        report.to_csv(),
        "agent_name,confidence,depth,content\nDeepResearcher,88,2,\"line one\nline two\r\"\nEmpty,88,2,\n"
    );
}
