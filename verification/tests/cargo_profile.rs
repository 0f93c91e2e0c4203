use typelude_tooling::cargo_profile::{
    infer_findings, render_text, CargoProfileAnalysis, CargoProfileAnalyzer, CargoProfileDomainKind,
    CargoProfileSemanticKind,
};
use typelude_tooling::chrome::{ChromeAggregate, ChromeEvent};
use typelude_tooling::summarize::{ArtifactSizeJson, DurationValue, SummarizeJson, SummarizeQueryJson};
use typelude_tooling::tally::{can_compact_text, compact_text};

fn event(name: &str, cat: &str, ts: u64, dur: u64, tid: u64, arg0: Option<&str>) -> ChromeEvent {
    ChromeEvent {
        name: name.to_string(),
        cat: Some(cat.to_string()),
        ts: Some(ts),
        dur: Some(dur),
        tid: Some(tid),
        arg0: arg0.map(|a| a.to_string()),
    }
}

fn sample_chrome() -> Vec<ChromeEvent> {
    vec![
        event("typeck", "Query", 1, 100, 3, Some("program_fibonacci::demo[1]::_")),
        event("check_match", "Query", 2, 80, 3, Some("program_fibonacci::demo[1]::_")),
        event(
            "evaluate_obligation",
            "Query",
            3,
            60,
            3,
            Some("CanonicalQueryInput { value: <typelude_vm::vm::runtime::run::RunVm<typelude_vm::vm::semantics::state::VmState<typelude_col::TArr<typelude_num::peano::Succ<typelude_num::peano::Zero>>>> as Trait> }"),
        ),
        event(
            "type_op_ascribe_user_type",
            "Query",
            4,
            40,
            3,
            Some("typelude_num::peano::Succ<typelude_num::peano::Zero>"),
        ),
        event("parse_crate", "GenericActivity", 5, 10, 3, None),
    ]
}

fn duration(secs: u64, nanos: u32) -> DurationValue {
    DurationValue { secs, nanos }
}

fn sample_summarize() -> SummarizeJson {
    SummarizeJson {
        query_data: vec![
            SummarizeQueryJson {
                label: "typeck".to_string(),
                time: duration(2, 0),
                self_time: duration(1, 500_000_000),
                number_of_cache_misses: 5,
                number_of_cache_hits: 10,
                invocation_count: 3,
            },
            SummarizeQueryJson {
                label: "evaluate_obligation".to_string(),
                time: duration(0, 400_000_000),
                self_time: duration(0, 100_000_000),
                number_of_cache_misses: 7,
                number_of_cache_hits: 99,
                invocation_count: 42,
            },
        ],
        artifact_sizes: vec![ArtifactSizeJson { label: "linked_artifact".to_string(), value: 1234 }],
        total_time: duration(3, 0),
    }
}

#[test]
fn analyzes_chrome_profile_stream() {
    let analysis = CargoProfileAnalyzer::new()
        .analyze_chrome_events(&sample_chrome(), 10)
        .expect("chrome profile should parse");

    assert_eq!(analysis.event_count, 5);
    assert_eq!(analysis.query_hotspots[0].name, "typeck");
    assert!(analysis.semantic_hotspots.iter().any(|entry| entry.label == CargoProfileSemanticKind::TypeCheck.label()));
    assert!(analysis.domain_hotspots.iter().any(|entry| entry.label == CargoProfileDomainKind::VmState.label()));
    assert_eq!(analysis.item_hotspots[0].item, "program_fibonacci::demo");
}

#[test]
fn analyzes_summarize_json() {
    let analysis = CargoProfileAnalyzer::new()
        .analyze_summarize_json(&sample_summarize(), 10)
        .expect("summarize json should parse");

    assert_eq!(analysis.total_time_us, 3_000_000);
    assert_eq!(analysis.top_self_time[0].label, "typeck");
    assert_eq!(analysis.top_total_time[1].label, "evaluate_obligation");
    assert_eq!(analysis.artifacts[0].label, "linked_artifact");
}

#[test]
fn merges_findings_from_both_sources() {
    let analyzer = CargoProfileAnalyzer::new();
    let chrome = analyzer.analyze_chrome_events(&sample_chrome(), 10).expect("chrome profile should parse");
    let self_profile = analyzer.analyze_summarize_json(&sample_summarize(), 10).expect("summarize json should parse");
    let merged = CargoProfileAnalysis {
        findings: infer_findings(Some(&chrome), Some(&self_profile)),
        chrome: Some(chrome),
        self_profile: Some(self_profile),
    };
    assert!(merged.chrome.is_some());
    assert!(merged.self_profile.is_some());
    assert!(!merged.findings.is_empty());
}

#[test]
fn empty_analysis_has_no_findings() {
    let merged = CargoProfileAnalyzer::new()
        .analyze_paths(None, None, None, 10)
        .expect("empty analysis should succeed");
    assert!(merged.findings.is_empty());
}

#[test]
fn chrome_tables_count_each_event_once() {
    let analysis = CargoProfileAnalyzer::new().analyze_chrome_events(&sample_chrome(), 10).unwrap();
    assert_eq!(analysis.total_duration_us, 290);
    assert_eq!(analysis.category_breakdown.len(), 2);
    assert_eq!(analysis.category_breakdown[0].label, "Query");
    assert_eq!(analysis.category_breakdown[0].total_us, 280);
    assert_eq!(analysis.category_breakdown[0].count, 4);
    assert_eq!(analysis.category_breakdown[1].label, "GenericActivity");
    assert_eq!(analysis.thread_breakdown[0].label, "3");
    assert_eq!(analysis.thread_breakdown[0].count, 5);
    assert_eq!(analysis.query_hotspots.len(), 4);
    assert_eq!(analysis.query_hotspots[1].name, "check_match");
    assert_eq!(analysis.query_hotspots[0].semantic_kinds, vec![CargoProfileSemanticKind::TypeCheck]);
    assert_eq!(analysis.semantic_hotspots[0].label, "type_check");
    assert_eq!(analysis.semantic_hotspots[4].label, "unknown");
    assert_eq!(analysis.item_hotspots[0].total_us, 180);
    assert_eq!(analysis.item_hotspots[0].query_breakdown[0].label, "typeck");
    assert_eq!(analysis.longest_events.len(), 5);
    assert_eq!(analysis.longest_events[0].total_us, 100);
    assert_eq!(analysis.longest_events[4].name, "parse_crate");
    assert_eq!(analysis.longest_events[4].arg0, None);
}

#[test]
fn chrome_example_argument_is_shortened_to_the_byte_limit() {
    let analysis = CargoProfileAnalyzer::new().analyze_chrome_events(&sample_chrome(), 10).unwrap();
    let solve = analysis.query_hotspots.iter().find(|q| q.name == "evaluate_obligation").unwrap();
    let example = solve.example_arg0.as_ref().unwrap();
    assert_eq!(example.len(), 160);
    assert!(example.ends_with("..."));
    assert!(example.starts_with("CanonicalQueryInput { value: <typelude_vm"));
}

#[test]
fn chrome_tables_are_cut_to_top() {
    let analysis = CargoProfileAnalyzer::new().analyze_chrome_events(&sample_chrome(), 2).unwrap();
    assert_eq!(analysis.query_hotspots.len(), 2);
    assert_eq!(analysis.longest_events.len(), 2);
    assert_eq!(analysis.longest_events[1].total_us, 80);
    assert_eq!(analysis.category_breakdown.len(), 2);
}

#[test]
fn longest_events_keep_the_twenty_longest() {
    let mut events = Vec::new();
    for i in 0..30u64 {
        events.push(event("typeck", "Query", i, i, 1, None));
    }
    let analysis = CargoProfileAnalyzer::new().analyze_chrome_events(&events, 25).unwrap();
    assert_eq!(analysis.longest_events.len(), 20);
    assert_eq!(analysis.longest_events[0].total_us, 29);
    assert_eq!(analysis.longest_events[19].total_us, 10);
}

#[test]
fn chrome_overflowing_durations_give_none() {
    let events = vec![event("a", "Query", 0, u64::MAX, 1, None), event("b", "Query", 0, 1, 1, None)];
    assert!(CargoProfileAnalyzer::new().analyze_chrome_events(&events, 5).is_none());
}

#[test]
fn chrome_example_cut_inside_a_character_gives_none() {
    let long: String = "é".repeat(100);
    let events = vec![event("typeck", "Query", 0, 1, 1, Some(&long))];
    assert!(CargoProfileAnalyzer::new().analyze_chrome_events(&events, 5).is_none());
    let odd: String = format!("a{}", "é".repeat(100));
    let events = vec![event("typeck", "Query", 0, 1, 1, Some(&odd))];
    let analysis = CargoProfileAnalyzer::new().analyze_chrome_events(&events, 5).unwrap();
    assert_eq!(analysis.query_hotspots[0].example_arg0.as_ref().unwrap().len(), 160);
}

#[test]
fn aggregate_observes_events_one_by_one() {
    let mut aggregate = ChromeAggregate::new();
    for e in sample_chrome() {
        aggregate.observe(e);
    }
    assert!(aggregate.examples_fit());
    let analysis = aggregate.finish(10);
    assert_eq!(analysis.event_count, 5);
}

#[test]
fn summary_ranks_queries_by_self_then_total_time() {
    let analysis = CargoProfileAnalyzer::new().analyze_summarize_json(&sample_summarize(), 1).unwrap();
    assert_eq!(analysis.top_self_time.len(), 1);
    assert_eq!(analysis.top_self_time[0].self_us, 1_500_000);
    assert_eq!(analysis.top_total_time[0].total_us, 2_000_000);
    assert_eq!(analysis.top_total_time[0].cache_hits, 10);
}

#[test]
fn summary_with_overflowing_duration_gives_none() {
    let mut summary = sample_summarize();
    summary.total_time = duration(u64::MAX, 999_999_999);
    assert!(CargoProfileAnalyzer::new().analyze_summarize_json(&summary, 10).is_none());
    summary.total_time = duration(u64::MAX, 999);
    assert_eq!(CargoProfileAnalyzer::new().analyze_summarize_json(&summary, 10).unwrap().total_time_us, u64::MAX);
}

#[test]
fn analyze_paths_prefers_the_summary_file() {
    let mut other = sample_summarize();
    other.total_time = duration(7, 0);
    let analysis = CargoProfileAnalyzer::new()
        .analyze_paths(Some(&sample_chrome()), Some(&sample_summarize()), Some(&other), 10)
        .unwrap();
    assert_eq!(analysis.self_profile.as_ref().unwrap().total_time_us, 3_000_000);
    assert_eq!(analysis.findings.len(), 5);
    let fallback = CargoProfileAnalyzer::new().analyze_paths(None, None, Some(&other), 10).unwrap();
    assert_eq!(fallback.self_profile.unwrap().total_time_us, 7_000_000);
    let text = render_text(&analysis);
    assert!(text.contains("self-profile self time is dominated by `typeck`"));
}

#[test]
fn compact_text_counts_bytes() {
    assert_eq!(compact_text("abcdef", 6), "abcdef");
    assert_eq!(compact_text("abcdefg", 6), "abc...");
    assert!(can_compact_text("ééé", 5));
    assert!(!can_compact_text("éééé", 6));
    assert_eq!(compact_text("aééé", 6), "aé...");
}

#[test]
fn shortening_needs_a_character_boundary() {
    assert!(typelude_tooling::tally::can_shorten_text("short", 10, 4));
    assert!(typelude_tooling::tally::can_shorten_text("abcdefgh", 4, 2));
    assert!(!typelude_tooling::tally::can_shorten_text("éééééé", 4, 3));
    assert_eq!(typelude_tooling::tally::shorten_text("abcdefgh", 4, 2), "ab...");
    assert_eq!(typelude_tooling::tally::shorten_text("éééééé", 4, 2), "é...");
}
