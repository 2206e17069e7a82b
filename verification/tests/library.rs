use bioswarm_engine::agents::AgentExecutor;
use bioswarm_engine::config::{
    default_agents, default_formats, parse_backend, parse_unsigned, ConfigError, ConfigOverrides,
    Environment, ExportFormat, FileConfig, ModelBackend, RuntimeConfig,
};
use bioswarm_engine::keyed::{text_precedes, NameMap};
use bioswarm_engine::models::{AgentFailure, AgentOutput, Checkpoint, Insight, SwarmResults, Trend, TrendAnalysis};
use bioswarm_engine::report::{
    confidence_score, deduplicate_agent_outputs, extract_action_items, generate_ascii_charts,
    generate_executive_summary,
};
use bioswarm_engine::run::{
    agent_prompt, assemble_agent_output, build_insights, export_file_name, format_sources,
    generate_report, plan_run, search_tool_queries, sources_prompt, ResumeProgress, RunPlan,
    SwarmProgress, ToolCall, ToolCallError,
};
use bioswarm_engine::search::{
    bearer_header, chat_completions_url, generation_text, is_test_key, live_search_allowed,
    mock_generation, mock_search_results, reply_content, results_from_items, results_from_response,
    search_request_text, search_results, slugify, GenerationError, RawField, RawSearchItem,
    SearchError,
};
use bioswarm_engine::templates::ReportTemplate;
use bioswarm_engine::text::{chars_of, trim_chars};

fn output(name: &str, content: &str, confidence: u8) -> AgentOutput {
    AgentOutput {
        agent_name: name.into(),
        query_type: "q".into(),
        content: content.into(),
        confidence,
        duration_ms: 5,
        recursive_depth: 2,
        sources: vec![],
        insights: vec![],
    }
}

fn results_with(outputs: Vec<AgentOutput>) -> SwarmResults {
    let mut map = NameMap::new();
    for o in outputs {
        map.insert(o.agent_name.clone(), o);
    }
    SwarmResults {
        execution_id: "run-1".into(),
        timestamp: "2026-01-01T00:00:00+00:00".into(),
        query: "fintech".into(),
        agent_outputs: map,
        failed_agents: vec![],
        total_tokens: 0,
        duration_ms: 42,
    }
}

fn no_overrides() -> ConfigOverrides {
    ConfigOverrides {
        output_dir: None,
        database_path: None,
        depth: None,
        formats: None,
        agents: None,
        backend: None,
        model: None,
        api_base_url: None,
        api_key_env: None,
    }
}

fn env(pairs: &[(&str, &str)]) -> Environment {
    Environment { vars: pairs.iter().map(|(k, v)| (k.to_string(), v.to_string())).collect() }
}

fn empty_file() -> FileConfig {
    FileConfig {
        fireworks_api_key: None,
        exa_api_key: None,
        rate_limit_rpm: None,
        database_path: None,
        output_dir: None,
        depth: None,
        agents: None,
        formats: None,
        backend: None,
        model: None,
        api_base_url: None,
        api_key_env: None,
    }
}

#[test]
fn export_format_names() {
    assert_eq!(ExportFormat::Markdown.extension(), "md");
    assert_eq!(ExportFormat::Json.extension(), "json");
    assert_eq!(ExportFormat::Html.extension(), "html");
    assert_eq!(ExportFormat::Csv.extension(), "csv");
    assert_eq!(ExportFormat::Markdown.name(), "markdown");
    assert_eq!(ExportFormat::Csv.variant_name(), "Csv");
    assert_eq!(ModelBackend::OpenAiCompatible.name(), "openai-compatible");
}

#[test]
fn defaults_lists() {
    assert_eq!(default_formats(), vec![ExportFormat::Markdown, ExportFormat::Json, ExportFormat::Html, ExportFormat::Csv]);
    let agents = default_agents();
    assert_eq!(agents.len(), 14);
    assert_eq!(agents[0], "DeepResearcher");
    assert_eq!(agents[13], "ClientIntelligence");
}

#[test]
fn parse_backend_accepts_names_and_aliases() {
    assert_eq!(parse_backend("  Ollama "), Some(ModelBackend::Ollama));
    assert_eq!(parse_backend("OPENAI"), Some(ModelBackend::OpenAiCompatible));
    assert_eq!(parse_backend("openai_compatible"), Some(ModelBackend::OpenAiCompatible));
    assert_eq!(parse_backend("codex"), Some(ModelBackend::Codex));
    assert_eq!(parse_backend("fireworks"), Some(ModelBackend::Fireworks));
    assert_eq!(parse_backend("gpt"), None);
}

#[test]
fn parse_unsigned_like_std() {
    assert_eq!(parse_unsigned("42", 255), Some(42));
    assert_eq!(parse_unsigned("+7", 255), Some(7));
    assert_eq!(parse_unsigned("256", 255), None);
    assert_eq!(parse_unsigned("-1", 255), None);
    assert_eq!(parse_unsigned("", 255), None);
    assert_eq!(parse_unsigned("+", 255), None);
    assert_eq!(parse_unsigned(" 3", 255), None);
    assert_eq!(parse_unsigned("4294967295", 4294967295), Some(4294967295));
}

#[test]
fn trim_follows_unicode_white_space() {
    let t = trim_chars(&chars_of("\u{3000} a b\t\n"));
    assert_eq!(t.iter().collect::<String>(), "a b");
}

#[test]
fn resolve_uses_precedence_and_defaults() {
    let mut file = empty_file();
    file.model = Some("file-model".into());
    file.depth = Some(4);
    file.rate_limit_rpm = Some(30);
    let e = env(&[("FIREWORKS_API_KEY", "key-1"), ("BIOSWARM_MODEL", "env-model"), ("OUTPUT_DIR", "env-out")]);
    let mut o = no_overrides();
    o.output_dir = Some("cli-out".into());
    let c = RuntimeConfig::resolve("q".into(), o, &e, Some(file)).unwrap();
    assert_eq!(c.backend, ModelBackend::Fireworks);
    assert_eq!(c.api_key_env, "FIREWORKS_API_KEY");
    assert_eq!(c.fireworks_api_key, "key-1");
    assert_eq!(c.model, "env-model");
    assert_eq!(c.output_dir, "cli-out");
    assert_eq!(c.database_path, "bioswarm.db");
    assert_eq!(c.depth, 4);
    assert_eq!(c.rate_limit_rpm, 30);
    assert_eq!(c.api_base_url, "https://api.fireworks.ai/inference/v1");
    assert_eq!(c.agents.len(), 14);
    assert_eq!(c.formats.len(), 4);
    assert_eq!(c.exa_api_key, None);
}

#[test]
fn resolve_ollama_needs_no_key() {
    let e = env(&[("BIOSWARM_BACKEND", "ollama"), ("EXA_API_KEY", "  ")]);
    let c = RuntimeConfig::resolve("q".into(), no_overrides(), &e, None).unwrap();
    assert_eq!(c.backend, ModelBackend::Ollama);
    assert_eq!(c.fireworks_api_key, "ollama");
    assert_eq!(c.api_key_env, "OLLAMA_API_KEY");
    assert_eq!(c.model, "kimi-k2.5:cloud");
    assert_eq!(c.exa_api_key, None);
}

#[test]
fn resolve_reports_each_error() {
    match RuntimeConfig::resolve("q".into(), no_overrides(), &env(&[]), None) {
        Err(ConfigError::MissingApiKey { env_name }) => assert_eq!(env_name, "FIREWORKS_API_KEY"),
        other => panic!("unexpected {:?}", other),
    }
    let e = env(&[("FIREWORKS_API_KEY", "k"), ("RATE_LIMIT_RPM", "0")]);
    let err = RuntimeConfig::resolve("q".into(), no_overrides(), &e, None).unwrap_err();
    assert_eq!(err.message(), "RATE_LIMIT_RPM must be greater than 0");
    let e = env(&[("FIREWORKS_API_KEY", "k"), ("BIOSWARM_DEPTH", "9")]);
    let err = RuntimeConfig::resolve("q".into(), no_overrides(), &e, None).unwrap_err();
    assert_eq!(err.message(), "depth must be between 1 and 5");
    let err = RuntimeConfig::resolve("q".into(), no_overrides(), &env(&[]), None).unwrap_err();
    assert_eq!(err.message(), "FIREWORKS_API_KEY is required. Add it to .env or bioswarm.toml");
}

#[test]
fn resolve_file_key_only_for_fireworks_variable() {
    let mut file = empty_file();
    file.fireworks_api_key = Some("file-key".into());
    let c = RuntimeConfig::resolve("q".into(), no_overrides(), &env(&[]), Some(file.clone())).unwrap();
    assert_eq!(c.fireworks_api_key, "file-key");
    let mut o = no_overrides();
    o.api_key_env = Some("OTHER_KEY".into());
    assert!(RuntimeConfig::resolve("q".into(), o, &env(&[]), Some(file)).is_err());
}

#[test]
fn name_map_orders_and_replaces() {
    let mut m = NameMap::new();
    m.insert("b".to_string(), 2);
    m.insert("a".to_string(), 1);
    m.insert("c".to_string(), 3);
    m.insert("b".to_string(), 20);
    assert_eq!(m.len(), 3);
    assert_eq!(m.keys(), vec!["a", "b", "c"]);
    assert_eq!(m.get("b"), Some(&20));
    assert_eq!(m.get("z"), None);
    assert!(text_precedes("Zeta", "alpha"));
    assert!(text_precedes("ab", "abc"));
    assert!(!text_precedes("abc", "abc"));
}

#[test]
fn dedup_keeps_first_by_key() {
    let mut map = NameMap::new();
    map.insert("b".to_string(), output("b", "same", 10));
    map.insert("a".to_string(), output("a", "same", 20));
    map.insert("c".to_string(), output("c", "other", 30));
    let d = deduplicate_agent_outputs(map);
    assert_eq!(d.keys(), vec!["a", "c"]);
}

#[test]
fn confidence_score_is_floor_mean() {
    assert_eq!(confidence_score(&results_with(vec![])), 0);
    let r = results_with(vec![output("a", "x", 80), output("b", "y", 91)]);
    assert_eq!(confidence_score(&r), 85);
}

#[test]
fn action_items_sorted_unique() {
    let mut a = output("a", "x", 80);
    a.insights = vec![Insight {
        summary: "s".into(),
        confidence: 1,
        action_items: vec!["zeta".into(), "alpha".into()],
        sources: vec![],
        tags: vec![],
    }];
    let mut b = output("b", "y", 80);
    b.insights = vec![Insight {
        summary: "s".into(),
        confidence: 1,
        action_items: vec!["alpha".into(), "mid".into()],
        sources: vec![],
        tags: vec![],
    }];
    assert_eq!(extract_action_items(&results_with(vec![a, b])), vec!["alpha", "mid", "zeta"]);
}

#[test]
fn chart_pads_names_and_draws_bars() {
    let r = results_with(vec![output("Scout", "x", 88), output("Low", "y", 3)]);
    let charts = generate_ascii_charts(&r);
    assert_eq!(charts.keys(), vec!["confidence"]);
    let expected = format!(
        "Confidence by agent\n\n{:<22} {} 3\n{:<22} {} 88\n",
        "Low",
        "#",
        "Scout",
        "#".repeat(17)
    );
    assert_eq!(charts.get("confidence").unwrap(), &expected);
}

#[test]
fn executive_summary_lists_contributors_failures_and_deltas() {
    let mut r = results_with(vec![
        output("a", "1", 80),
        output("b", "2", 70),
        output("c", "3", 60),
        output("d", "4", 50),
    ]);
    r.failed_agents = vec![AgentFailure { agent_name: "x".into(), error: "boom".into() }];
    let mut trends = TrendAnalysis::empty();
    trends.delta_summary = vec!["Token usage changed by 5.0% compared with the previous run.".into()];
    let s = generate_executive_summary(&r, &trends);
    assert_eq!(
        s,
        "## Executive summary\n\n- Query: fintech\n- Agents completed: 4\n- Agents failed: 1\n- Duration: 42 ms\n- Confidence score: 65\n- Strongest contributors: a (80), b (70), c (60)\n\n### Failures\n- x: boom\n\n### Trend deltas\n- Token usage changed by 5.0% compared with the previous run.\n"
    );
    let empty = generate_executive_summary(&results_with(vec![]), &TrendAnalysis::empty());
    assert!(empty.ends_with("- Strongest contributors: none\n"));
}

#[test]
fn markdown_lists_trends() {
    let r = results_with(vec![output("a", "x", 80)]);
    let mut trends = TrendAnalysis::empty();
    trends.trends.insert(
        "total_tokens".into(),
        Trend { current_value: "1200.00".into(), previous_value: None, change_percent: "0.0".into() },
    );
    let config = RuntimeConfig::resolve("fintech".into(), no_overrides(), &env(&[("FIREWORKS_API_KEY", "k")]), None).unwrap();
    let report = generate_report(r, trends, &config);
    assert_eq!(report.title, "BioSwarm v3.5 report - fintech");
    assert_eq!(report.export_formats, vec!["Markdown", "Json", "Html", "Csv"]);
    assert_eq!(report.metadata.backend, "fireworks");
    assert_eq!(report.metadata.agent_count, 14);
    assert_eq!(report.confidence_score, 80);
    assert!(report.to_markdown().contains("## Trends\n\n- **total_tokens** current 1200.00, change 0.0%\n\n"));
}

#[test]
fn test_keys_are_recognised() {
    assert!(is_test_key("  TEST "));
    assert!(is_test_key("test-123"));
    assert!(is_test_key("my-dummy-key"));
    assert!(is_test_key("Example"));
    assert!(is_test_key("   "));
    assert!(!is_test_key("sk-live-123"));
    assert!(!is_test_key("tester"));
    assert!(live_search_allowed(&Some("sk-live".into())));
    assert!(!live_search_allowed(&Some("test".into())));
    assert!(!live_search_allowed(&None));
}

#[test]
fn slugify_collapses_separators() {
    assert_eq!(slugify("Sri Lanka  FinTech -- opportunities!"), "sri-lanka-fintech-opportunities");
    assert_eq!(slugify("--a--"), "a");
    assert_eq!(slugify("ÄB c"), "b-c");
    assert_eq!(slugify(""), "");
}

#[test]
fn mock_results_and_generation() {
    let v = mock_search_results("ai market", "Scout", "mock-exa", "2026-01-02");
    assert_eq!(v.len(), 2);
    assert_eq!(v[0].title, "Scout primary signal for ai market");
    assert_eq!(v[0].url, "https://example.com/Scout/ai-market");
    assert_eq!(v[0].snippet, "Fresh market signal gathered for ai market using mock-exa.");
    assert_eq!(v[1].url, "https://example.com/Scout/ai-market/secondary");
    assert_eq!(v[1].published_date.as_deref(), Some("2026-01-02"));
    let g = mock_generation(&ModelBackend::Ollama, "m", "http://x", "first\r\nsecond", None);
    assert_eq!(
        g,
        "[ollama:m] via http://x\n\nStrategic research synthesis\n\nSynthesis:\n- first\n- Confidence weighted against source freshness\n- Recommended next action included"
    );
    let g2 = mock_generation(&ModelBackend::Codex, "m", "u", "only", Some("sys"));
    assert!(g2.contains("\n\nsys\n\nSynthesis:\n- only\n"));
}

#[test]
fn search_and_generation_choices() {
    let live = mock_search_results("x", "A", "exa", "d");
    let chosen = search_results(&Some("real".into()), Some(live.clone()), "q", "B", "d2");
    assert_eq!(chosen[0].title, live[0].title);
    let fallback = search_results(&Some("test".into()), Some(live), "q", "B", "d2");
    assert_eq!(fallback[0].source, "exa-fallback");
    let none = search_results(&None, None, "q", "B", "d2");
    assert_eq!(none[0].source, "mock-exa");
    assert_eq!(search_request_text("q", "A"), "q for A");
    let t = generation_text("real", Some("live text".into()), &ModelBackend::Fireworks, "m", "u", "p", None);
    assert_eq!(t, "live text");
    let t = generation_text("real", Some("  ".into()), &ModelBackend::Fireworks, "m", "u", "p", None);
    assert!(t.starts_with("[fireworks:m]"));
    assert_eq!(chat_completions_url("https://api.x/v1//"), "https://api.x/v1/chat/completions");
    assert_eq!(bearer_header("k"), "Bearer k");
}

fn item(title: RawField, text: RawField, snippet: RawField) -> RawSearchItem {
    RawSearchItem {
        title,
        url: RawField::Missing,
        text,
        snippet,
        published_date_camel: RawField::Missing,
        published_date_snake: RawField::Text("d".into()),
    }
}

#[test]
fn raw_items_get_defaults() {
    let items: Vec<RawSearchItem> = (0..7)
        .map(|i| {
            item(
                if i == 0 { RawField::Missing } else { RawField::Text(format!("t{i}")) },
                RawField::Missing,
                RawField::Missing,
            )
        })
        .collect();
    let v = results_from_items(items);
    assert_eq!(v.len(), 5);
    assert_eq!(v[0].title, "Untitled result");
    assert_eq!(v[0].url, "https://example.com");
    assert_eq!(v[0].snippet, "No snippet provided");
    assert_eq!(v[0].source, "exa");
    assert_eq!(v[0].published_date.as_deref(), Some("d"));
    assert_eq!(v[4].title, "t4");
}

#[test]
fn raw_items_prefer_text_and_camel_case_date() {
    let mut a = item(RawField::Other, RawField::Text("from text".into()), RawField::Text("from snippet".into()));
    a.published_date_camel = RawField::Text("camel".into());
    let b = item(RawField::Missing, RawField::Missing, RawField::Text("from snippet".into()));
    let mut c = item(RawField::Missing, RawField::Other, RawField::Text("from snippet".into()));
    c.published_date_camel = RawField::Other;
    let v = results_from_items(vec![a, b, c]);
    assert_eq!(v[0].title, "Untitled result");
    assert_eq!(v[0].snippet, "from text");
    assert_eq!(v[0].published_date.as_deref(), Some("camel"));
    assert_eq!(v[1].snippet, "from snippet");
    assert_eq!(v[1].published_date.as_deref(), Some("d"));
    assert_eq!(v[2].snippet, "No snippet provided");
    assert_eq!(v[2].published_date, None);
}

#[test]
fn search_reply_without_results_is_an_error() {
    let e = results_from_response(None).unwrap_err();
    assert_eq!(e, SearchError::MissingResults);
    assert_eq!(e.message(), "Exa response missing results array");
    let ok = results_from_response(Some(vec![])).unwrap();
    assert!(ok.is_empty());
}

#[test]
fn model_reply_takes_first_choice_content() {
    let t = reply_content(Some(vec![RawField::Text("first".into()), RawField::Text("second".into())]));
    assert_eq!(t.unwrap(), "first");
    for choices in [
        None,
        Some(vec![]),
        Some(vec![RawField::Missing, RawField::Text("second".into())]),
        Some(vec![RawField::Other]),
    ] {
        let e = reply_content(choices).unwrap_err();
        assert_eq!(e, GenerationError::MissingContent);
        assert_eq!(e.message(), "generation response missing choices[0].message.content");
    }
}

#[test]
fn backend_names_read_back() {
    for b in [
        ModelBackend::Fireworks,
        ModelBackend::Ollama,
        ModelBackend::OpenAiCompatible,
        ModelBackend::Codex,
    ] {
        assert_eq!(parse_backend(&b.name()), Some(b));
    }
}

#[test]
fn backend_parsing_ignores_case_and_spaces() {
    for s in ["fireworks", "Ollama", "openai_compatible", "CODEX", "nope", "", " openai "] {
        assert_eq!(parse_backend(&format!(" {} ", s.to_ascii_uppercase())), parse_backend(s));
    }
    assert_eq!(parse_backend(" OpenAI-Compatible "), Some(ModelBackend::OpenAiCompatible));
}

#[test]
fn slugs_keep_letters_and_digits_and_are_stable() {
    for input in ["  Hello, World!! ", "ÄÖÜ", "a--b", "--", "Top 10 AI-Tools (2026)", "x_Y.z9"] {
        let s = slugify(input);
        let kept: String = input
            .chars()
            .filter(|c| c.is_ascii_alphanumeric())
            .map(|c| c.to_ascii_lowercase())
            .collect();
        assert_eq!(s.replace('-', ""), kept);
        assert_eq!(slugify(&s), s);
    }
}

#[test]
fn dedup_keeps_the_first_output_of_each_content() {
    let mut map = NameMap::new();
    map.insert("c".to_string(), output("c", "same", 30));
    map.insert("a".to_string(), output("a", "other", 10));
    map.insert("b".to_string(), output("b", "same", 20));
    map.insert("d".to_string(), output("d", "other", 40));
    let d = deduplicate_agent_outputs(map);
    assert_eq!(d.keys(), vec!["a", "b"]);
    assert_eq!(d.get("b").unwrap().confidence, 20);
}

#[test]
fn checkpoints_grow_one_agent_per_delivery() {
    let agents: Vec<String> = vec!["Alpha".into(), "Beta".into(), "Gamma".into(), "Delta".into()];
    let mut p = SwarmProgress::new("id".into(), "q".into(), agents.clone());
    let mut previous: Vec<String> = vec![];
    let steps: Vec<Result<&str, &str>> =
        vec![Ok("Gamma"), Err("agent Beta generation failed"), Ok("Alpha"), Err("lost"), Ok("Delta")];
    let mut deliveries = 0;
    for step in steps {
        match step {
            Ok(name) => {
                p.record_output(output(name, name, 50));
                deliveries += 1;
            }
            Err(message) => p.record_failure(message.into()),
        }
        assert_eq!(p.completed_agents.len(), deliveries);
        assert!(p.completed_agents.starts_with(&previous));
        let mut keys = p.outputs.keys();
        let mut done = p.completed_agents.clone();
        keys.sort();
        done.sort();
        assert_eq!(keys, done);
        for r in &p.remaining_agents {
            assert!(agents.contains(r) && !p.completed_agents.contains(r));
        }
        previous = p.completed_agents.clone();
    }
    assert_eq!(p.completed_agents, vec!["Gamma", "Alpha", "Delta"]);
    let r = p.finish("t".into(), 1);
    for name in r.agent_outputs.keys() {
        assert!(agents.contains(&name));
        assert_eq!(r.agent_outputs.get(&name).unwrap().agent_name, name);
    }
    assert_eq!(r.total_tokens, 3600);
}

#[test]
fn agent_output_assembly() {
    let sources = mock_search_results("q", "A", "mock-exa", "d");
    let o = assemble_agent_output("A", "q", 2, "synth", sources, 7);
    assert_eq!(o.confidence, 80);
    assert_eq!(o.insights.len(), 2);
    assert_eq!(o.insights[0].confidence, 80);
    assert_eq!(o.insights[1].confidence, 77);
    assert_eq!(
        o.content,
        "synth\n\nKey findings:\n- A found a validated opportunity cluster around q.\n- A identified a next-step experiment for q."
    );
    let deep = assemble_agent_output("A", "q", 5, "s", vec![], 0);
    assert_eq!(deep.confidence, 95);
    let ins = build_insights("A", "q", &vec![], 1);
    assert_eq!(ins[1].action_items, vec!["Run a 2-week experiment based on A findings."]);
    assert_eq!(agent_prompt("A", "q", 3), "Agent A researching q at depth 3. Use the provided tool only when you need fresher or more targeted evidence.");
    let srcs = mock_search_results("q", "A", "s", "d");
    assert_eq!(format_sources(&srcs), "- A primary signal for q | https://example.com/A/q | Fresh market signal gathered for q using s.\n- A secondary signal for q | https://example.com/A/q/secondary | Cross-validated competitive context and trend notes.");
    assert!(sources_prompt("A", "q", 3, &srcs).starts_with("Agent A researching q at depth 3. Use these validated sources:\n- A primary"));
}

#[test]
fn swarm_progress_tracks_agents() {
    let agents = vec!["Alpha".to_string(), "Beta".to_string(), "Gamma".to_string()];
    let mut p = SwarmProgress::new("id".into(), "q".into(), agents);
    p.record_output(output("Beta", "b", 80));
    assert_eq!(p.completed_agents, vec!["Beta"]);
    assert_eq!(p.remaining_agents, vec!["Alpha", "Gamma"]);
    p.record_failure("agent Gamma generation failed: timeout".into());
    assert_eq!(p.failures[0].agent_name, "Gamma");
    assert_eq!(p.remaining_agents, vec!["Alpha"]);
    p.record_failure("mystery".into());
    assert_eq!(p.failures[1].agent_name, "unknown");
    p.record_lost_task("panicked".into());
    assert_eq!(p.failures.len(), 3);
    p.record_output(output("Alpha", "b", 70));
    let r = p.finish("t".into(), 9);
    assert_eq!(r.agent_outputs.keys(), vec!["Alpha"]);
    assert_eq!(r.total_tokens, 1200);
    assert_eq!(r.failed_agents.len(), 3);
}

#[test]
fn resume_records_checkpoint_lists() {
    let mut partial = NameMap::new();
    partial.insert("Beta".to_string(), output("Beta", "x", 70));
    let c = Checkpoint {
        execution_id: "id".into(),
        query: "q".into(),
        completed_agents: vec!["Beta".into()],
        remaining_agents: vec!["Gamma".into(), "Alpha".into()],
        partial_results: partial,
        timestamp: "t".into(),
    };
    assert!(matches!(plan_run(Some(&c), "q", "new".into()), RunPlan::Resume));
    match plan_run(Some(&c), "other", "new".into()) {
        RunPlan::Fresh { execution_id } => assert_eq!(execution_id, "id"),
        RunPlan::Resume => panic!("should not resume"),
    }
    match plan_run(None, "q", "new".into()) {
        RunPlan::Fresh { execution_id } => assert_eq!(execution_id, "new"),
        RunPlan::Resume => panic!("should not resume"),
    }
    let mut p = ResumeProgress::from_checkpoint(c);
    let (completed, remaining) = p.record("Gamma".into(), output("Gamma", "x", 90));
    assert_eq!(completed, vec!["Beta", "Gamma"]);
    assert_eq!(remaining, vec!["Alpha"]);
    let (completed, remaining) = p.record("Alpha".into(), output("Alpha", "y", 90));
    assert_eq!(completed, vec!["Alpha", "Beta", "Gamma"]);
    assert_eq!(remaining, vec!["Gamma"]);
    let r = p.finish("t".into(), 1);
    assert_eq!(r.total_tokens, 3600);
    assert_eq!(r.agent_outputs.keys(), vec!["Alpha", "Beta"]);
}

#[test]
fn export_names_and_templates() {
    assert_eq!(export_file_name("abc", ExportFormat::Markdown), "bioswarm_abc.md");
    assert_eq!(export_file_name("abc", ExportFormat::Json), "bioswarm_abc.json");
    let full = ReportTemplate::full();
    assert_eq!(full.name, "full");
    assert!(full.include_charts && full.include_sources);
    let exec = ReportTemplate::executive();
    assert_eq!(exec.name, "executive");
    assert!(exec.include_trends && !exec.include_charts && !exec.include_sources);
    assert_eq!(AgentExecutor::execute("Any"), "Intelligence generated");
}

#[test]
fn tool_calls_yield_search_queries() {
    let call = |name: &str, query: Option<&str>| ToolCall { name: name.into(), query: query.map(String::from) };
    let calls = vec![call("search_exa", Some("fresh data")), call("other", None), call("search_exa", Some("more"))];
    assert_eq!(search_tool_queries(&calls).unwrap(), vec!["fresh data", "more"]);
    let bad = vec![call("search_exa", Some("ok")), call("search_exa", Some("  "))];
    assert_eq!(search_tool_queries(&bad).unwrap_err(), ToolCallError::MissingQuery);
    let missing = vec![call("search_exa", None)];
    assert!(search_tool_queries(&missing).is_err());
    assert_eq!(search_tool_queries(&vec![]).unwrap(), Vec::<String>::new());
}

#[test]
fn migration_plan_follows_columns() {
    let cols = |v: &[&str]| v.iter().map(|s| s.to_string()).collect::<Vec<_>>();
    let plan = bioswarm_engine::schema::migration_plan(
        &cols(&["execution_id", "completed_agents"]),
        &cols(&["id", "query"]),
        &cols(&["execution_id", "sources_json"]),
    );
    assert!(plan.rebuild_checkpoints);
    assert!(plan.rebuild_executions);
    assert!(!plan.add_sources_column);
    let current = bioswarm_engine::schema::migration_plan(
        &cols(&["execution_id", "query"]),
        &cols(&["id", "query", "confidence_score"]),
        &cols(&["sources_json"]),
    );
    assert!(!current.rebuild_checkpoints && !current.rebuild_executions && !current.add_sources_column);
}

#[test]
fn slugs_have_slug_shape() {
    for input in ["  Hello, World!! ", "ÄÖÜ", "a--b", "--", "Top 10 AI-Tools (2026)"] {
        let s = slugify(input);
        assert!(!s.starts_with('-') && !s.ends_with('-') && !s.contains("--"));
        assert!(s.chars().all(|c| c.is_ascii_lowercase() || c.is_ascii_digit() || c == '-'));
    }
    assert_eq!(slugify("Top 10 AI-Tools (2026)"), "top-10-ai-tools-2026");
}

#[test]
fn dedup_twice_equals_once() {
    let mut map = NameMap::new();
    map.insert("x".to_string(), output("x", "same", 10));
    map.insert("y".to_string(), output("y", "same", 20));
    map.insert("z".to_string(), output("z", "diff", 30));
    let once = deduplicate_agent_outputs(map);
    let keys = once.keys();
    let twice = deduplicate_agent_outputs(once);
    assert_eq!(twice.keys(), keys);
    assert_eq!(keys, vec!["x", "z"]);
}
