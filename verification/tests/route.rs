//! The route filter: configuration, lookup and selection.
use praxis_ai::grid::descriptor::{validate_candidates, CandidateConfig, CapabilityKind};
use praxis_ai::grid::overlay::{
    OverlayCandidate, OverlayDocument, RouteSnapshot, DEFAULT_DEBOUNCE_MS, MAX_OVERLAY_SIZE,
};
use praxis_ai::grid::route::{
    default_debounce_ms, default_model_header, default_reload_enabled, extract_lookup,
    score_candidate, select_candidate, GridRouteConfig, GridRouteFilter, Lookup, ReloadConfig,
    RouteOutcome, RouteRequest, MAX_HEADER_VALUE_LEN,
};
use yaml_serde::Value;

// ---- Configuration as YAML ----

fn text(value: &Value, name: &str) -> Result<Option<String>, String> {
    match value.get(name) {
        None | Some(Value::Null) => Ok(None),
        Some(held) => held.as_str().map(|s| Some(s.to_owned())).ok_or(format!("invalid type for `{name}`")),
    }
}

fn required(value: &Value, name: &str) -> Result<String, String> {
    text(value, name)?.ok_or(format!("missing field `{name}`"))
}

fn reload_of(value: &Value) -> ReloadConfig {
    ReloadConfig {
        enabled: value.get("enabled").and_then(Value::as_bool).unwrap_or(default_reload_enabled()),
        debounce_ms: value.get("debounce_ms").and_then(Value::as_u64).unwrap_or(default_debounce_ms()),
    }
}

fn config_of(yaml: &str) -> Result<GridRouteConfig, String> {
    let value: Value = yaml_serde::from_str(yaml).unwrap();
    let candidates = match value.get("candidates") {
        None | Some(Value::Null) => None,
        Some(list) => {
            let mut candidates = Vec::new();
            for item in list.as_sequence().ok_or("invalid candidates")? {
                candidates.push(CandidateConfig {
                    cluster: required(item, "cluster")?,
                    fresh: item.get("fresh").and_then(Value::as_bool).unwrap_or(true),
                    kind: CapabilityKind::from_overlay_str(&required(item, "kind")?).map_err(|e| e.message())?,
                    name: required(item, "name")?,
                    site: required(item, "site")?,
                });
            }
            Some(candidates)
        },
    };
    Ok(GridRouteConfig {
        candidates,
        local_site: text(&value, "local_site")?,
        model_header: text(&value, "model_header")?.unwrap_or(default_model_header()),
        overlay_file: text(&value, "overlay_file")?,
        reload: value.get("reload").map(reload_of),
    })
}

fn decode(content: &[u8]) -> Result<OverlayDocument, String> {
    let value: serde_json::Value = serde_json::from_slice(content).map_err(|e| e.to_string())?;
    let member = |item: &serde_json::Value, name: &str| {
        item.get(name).and_then(|v| v.as_str()).map(str::to_owned).ok_or(format!("missing field `{name}`"))
    };
    let mut candidates = Vec::new();
    for item in value.get("candidates").and_then(|v| v.as_array()).ok_or("missing field `candidates`")? {
        candidates.push(OverlayCandidate {
            admission_state: None,
            cluster: member(item, "cluster")?,
            fresh: item.get("fresh").and_then(|v| v.as_bool()).unwrap_or(true),
            kind: member(item, "kind")?,
            name: member(item, "name")?,
            rank: None,
            selection_tier: None,
            site: member(item, "site")?,
            stable_id: None,
        });
    }
    Ok(OverlayDocument { local_site: member(&value, "local_site")?, candidates, generated_at: None })
}

/// The filter of a configuration whose overlay file reads as `read`.
fn parse_with(yaml: &str, read: Result<Vec<u8>, String>) -> Result<GridRouteFilter, String> {
    let parsed = match &read {
        Ok(content) => decode(content),
        Err(reason) => Err(reason.clone()),
    };
    GridRouteFilter::from_config(config_of(yaml)?, read, parsed).map_err(|e| e.message())
}

fn parse(yaml: &str) -> Result<GridRouteFilter, String> {
    parse_with(yaml, Err("No such file or directory (os error 2)".to_owned()))
}

fn parse_err(yaml: &str) -> String {
    parse(yaml).err().expect("config should have been rejected")
}

fn make_filter(candidates: &[(&str, &str, &str, &str)]) -> GridRouteFilter {
    let scored: Vec<(&str, &str, &str, &str, bool)> =
        candidates.iter().map(|(k, n, s, c)| (*k, *n, *s, *c, true)).collect();
    make_scored_filter(&scored)
}

fn make_scored_filter(candidates: &[(&str, &str, &str, &str, bool)]) -> GridRouteFilter {
    let mut yaml = String::from("local_site: site-a\ncandidates:\n");
    for (kind, name, site, cluster, fresh) in candidates {
        yaml.push_str(&format!(
            "  - kind: {kind}\n    name: {name}\n    site: {site}\n    cluster: {cluster}\n    fresh: {fresh}\n"
        ));
    }
    parse(&yaml).unwrap()
}

fn empty_request() -> RouteRequest<'static> {
    RouteRequest { cluster: None, mcp_method: None, mcp_name: None, model: None }
}

fn model_request(model: &[u8]) -> RouteRequest<'_> {
    RouteRequest { model: Some(model), ..empty_request() }
}

fn mcp_request<'a>(method: &'a str, name: Option<&'a str>) -> RouteRequest<'a> {
    RouteRequest { mcp_method: Some(method), mcp_name: name, ..empty_request() }
}

fn route_note<'a>(outcome: &'a RouteOutcome, key: &str) -> Option<&'a str> {
    outcome.notes.iter().find(|n| n.key == key).map(|n| n.value.as_str())
}

fn assert_no_route_metadata(outcome: &RouteOutcome) {
    for key in ["kind", "name", "site", "cluster", "local_site"] {
        assert!(route_note(outcome, &format!("grid.route.{key}")).is_none());
    }
    assert!(outcome.notes.is_empty());
    assert!(outcome.cluster.is_none());
}

fn make_two_candidate_snapshot(cluster1: &str, site1: &str, cluster2: &str, site2: &str) -> RouteSnapshot {
    RouteSnapshot::from_static(
        validate_candidates(vec![
            CandidateConfig {
                cluster: cluster1.to_owned(),
                fresh: true,
                kind: CapabilityKind::InferenceModel,
                name: "llama".to_owned(),
                site: site1.to_owned(),
            },
            CandidateConfig {
                cluster: cluster2.to_owned(),
                fresh: true,
                kind: CapabilityKind::InferenceModel,
                name: "llama".to_owned(),
                site: site2.to_owned(),
            },
        ])
        .unwrap(),
        "site-a".to_owned(),
    )
}

fn make_snapshot(cluster: &str) -> RouteSnapshot {
    RouteSnapshot::from_static(
        validate_candidates(vec![CandidateConfig {
            cluster: cluster.to_owned(),
            fresh: true,
            kind: CapabilityKind::InferenceModel,
            name: "llama".to_owned(),
            site: "site-a".to_owned(),
        }])
        .unwrap(),
        "site-a".to_owned(),
    )
}

fn route_model(filter: &GridRouteFilter, model: &str) -> Option<String> {
    filter.on_request(&model_request(model.as_bytes())).cluster
}

#[test]
fn valid_minimal_config() {
    let yaml = "local_site: site-a\ncandidates:\n  - kind: inference_model\n    name: llama\n    site: site-a\n    cluster: inf\n    fresh: true\n";
    assert!(parse(yaml).is_ok(), "minimal valid config should parse");
}

#[test]
fn default_model_header_is_x_model() {
    let f = make_filter(&[("inference_model", "llama", "site-a", "inf")]);
    let outcome = f.on_request(&RouteRequest { model: Some(b"llama"), ..empty_request() });
    assert!(
        outcome.rejection.is_none(),
        "default model header X-Model should route"
    );
    assert_eq!(outcome.cluster.as_deref(), Some("inf"), "cluster should be set");
    assert_eq!(default_model_header(), "X-Model");
    assert_eq!(f.model_header, "x-model");
}

#[test]
fn blank_local_site_rejected() {
    let err = parse_err(
        "local_site: \"\"\ncandidates:\n  - kind: inference_model\n    name: m\n    site: s\n    cluster: c\n    fresh: true\n",
    );
    assert!(
        err.contains("blank") || err.contains("non-blank"),
        "blank local_site should be rejected: {err}"
    );
}

#[test]
fn missing_candidates_rejected() {
    let err = parse_err("local_site: site-a\ncandidates: []\n");
    assert!(
        err.contains("empty"),
        "empty candidates should be rejected: {err}"
    );
}

#[test]
fn blank_model_header_rejected() {
    let err = parse_err(
        "local_site: site-a\nmodel_header: \"\"\ncandidates:\n  - kind: inference_model\n    name: m\n    site: s\n    cluster: c\n    fresh: true\n",
    );
    assert!(
        err.contains("blank") || err.contains("empty"),
        "blank model_header should be rejected: {err}"
    );
}

#[test]
fn reserved_model_header_rejected() {
    let err = parse_err(
        "local_site: site-a\nmodel_header: x-praxis-foo\ncandidates:\n  - kind: inference_model\n    name: m\n    site: s\n    cluster: c\n    fresh: true\n",
    );
    assert!(
        err.contains("reserved"),
        "reserved model_header should be rejected: {err}"
    );
}

#[test]
fn invalid_candidate_rejected() {
    let err = parse_err(
        "local_site: site-a\ncandidates:\n  - kind: inference_model\n    name: \"\"\n    site: s\n    cluster: c\n    fresh: true\n",
    );
    assert!(
        err.contains("blank") || err.contains("non-blank"),
        "blank candidate name should be rejected: {err}"
    );
}

#[test]
fn absent_model_header_continues() {
    let f = make_filter(&[("inference_model", "llama", "site-a", "inf")]);
    let outcome = f.on_request(&empty_request());
    assert!(
        outcome.rejection.is_none(),
        "absent model header should continue without routing"
    );
    assert!(outcome.cluster.is_none(), "no cluster should be set");
    assert_no_route_metadata(&outcome);
}

#[test]
fn blank_model_header_rejects() {
    let f = make_filter(&[("inference_model", "llama", "site-a", "inf")]);
    let outcome = f.on_request(&RouteRequest { model: Some(b""), ..empty_request() });
    assert!(
        outcome.rejection == Some(400),
        "blank model header should reject 400"
    );
    assert_no_route_metadata(&outcome);
}

#[test]
fn unknown_model_rejects_404() {
    let f = make_filter(&[("inference_model", "llama", "site-a", "inf")]);
    let outcome = f.on_request(&RouteRequest { model: Some(b"unknown-model"), ..empty_request() });
    assert!(
        outcome.rejection == Some(404),
        "unknown model should reject 404"
    );
    assert_no_route_metadata(&outcome);
}

#[test]
fn local_inference_sets_cluster() {
    let f = make_filter(&[("inference_model", "llama", "site-a", "local-inf")]);
    let outcome = f.on_request(&RouteRequest { model: Some(b"llama"), ..empty_request() });
    assert!(outcome.rejection.is_none());
    assert_eq!(outcome.cluster.as_deref(), Some("local-inf"), "cluster should be set");
}

#[test]
fn remote_inference_sets_gateway_cluster() {
    let f = make_filter(&[("inference_model", "llama", "site-b", "remote-gw")]);
    let outcome = f.on_request(&RouteRequest { model: Some(b"llama"), ..empty_request() });
    assert!(outcome.rejection.is_none());
    assert_eq!(outcome.cluster.as_deref(), Some("remote-gw"));
}

#[test]
fn mcp_tools_call_routes_to_matching_tool() {
    let f = make_filter(&[
        ("mcp_tool", "weather", "site-c", "grid-site-c"),
        ("inference_model", "llama", "site-a", "local-inf"),
    ]);
    let outcome = f.on_request(&RouteRequest { mcp_method: Some("tools/call"), mcp_name: Some("weather"), ..empty_request() });
    assert!(outcome.rejection.is_none(), "valid MCP tool should route");
    assert_eq!(
        outcome.cluster.as_deref(),
        Some("grid-site-c"),
        "cluster should be mcp_tool cluster"
    );
    assert_eq!(route_note(&outcome, "grid.route.kind"), Some("mcp_tool"));
    assert_eq!(route_note(&outcome, "grid.route.name"), Some("weather"));
}

#[test]
fn mcp_tools_call_beats_model_header() {
    let f = make_filter(&[
        ("mcp_tool", "weather", "site-c", "mcp-cluster"),
        ("inference_model", "llama", "site-a", "inf-cluster"),
    ]);
    let outcome = f.on_request(&RouteRequest { mcp_method: Some("tools/call"), mcp_name: Some("weather"), model: Some(b"llama"), ..empty_request() });
    assert_eq!(
        outcome.cluster.as_deref(),
        Some("mcp-cluster"),
        "MCP metadata must win over model header"
    );
}

#[test]
fn mcp_non_tools_call_skips_even_with_model_header() {
    let f = make_filter(&[("inference_model", "llama", "site-a", "inf-cluster")]);
    let outcome = f.on_request(&RouteRequest { mcp_method: Some("initialize"), model: Some(b"llama"), ..empty_request() });
    assert!(
        outcome.rejection.is_none(),
        "non-tools/call MCP method must skip without routing"
    );
    assert!(outcome.cluster.is_none(), "no cluster should be set for non-tools/call");
    assert_no_route_metadata(&outcome);
}

#[test]
fn mcp_tools_call_missing_name_rejects_400() {
    let f = make_filter(&[("mcp_tool", "weather", "site-c", "c")]);
    let outcome = f.on_request(&RouteRequest { mcp_method: Some("tools/call"), ..empty_request() });
    assert!(
        outcome.rejection == Some(400),
        "missing mcp.name must reject 400"
    );
    assert_no_route_metadata(&outcome);
}

#[test]
fn mcp_tools_call_blank_name_rejects_400() {
    let f = make_filter(&[("mcp_tool", "weather", "site-c", "c")]);
    let outcome = f.on_request(&RouteRequest { mcp_method: Some("tools/call"), mcp_name: Some(""), ..empty_request() });
    assert!(
        outcome.rejection == Some(400),
        "blank mcp.name must reject 400"
    );
    assert_no_route_metadata(&outcome);
}

#[test]
fn unknown_mcp_tool_rejects_404() {
    let f = make_filter(&[("mcp_tool", "weather", "site-c", "c")]);
    let outcome = f.on_request(&RouteRequest { mcp_method: Some("tools/call"), mcp_name: Some("unknown-tool"), ..empty_request() });
    assert!(
        outcome.rejection == Some(404),
        "unknown mcp_tool must reject 404"
    );
    assert_no_route_metadata(&outcome);
}

#[test]
fn inference_candidate_not_matched_by_mcp_lookup() {
    let f = make_filter(&[("inference_model", "llama", "site-a", "inf")]);
    let outcome = f.on_request(&RouteRequest { mcp_method: Some("tools/call"), mcp_name: Some("llama"), ..empty_request() });
    assert!(
        outcome.rejection == Some(404),
        "inference_model candidates must not match MCP lookup"
    );
}

#[test]
fn mcp_tool_applies_scoring() {
    let f = make_scored_filter(&[
        ("mcp_tool", "weather", "site-b", "remote-mcp", true),
        ("mcp_tool", "weather", "site-a", "local-mcp", true),
    ]);
    let outcome = f.on_request(&RouteRequest { mcp_method: Some("tools/call"), mcp_name: Some("weather"), ..empty_request() });
    assert_eq!(outcome.cluster.as_deref(), Some("local-mcp"), "local MCP tool should win");
}

#[test]
fn preserves_existing_cluster() {
    let f = make_filter(&[("inference_model", "llama", "site-a", "inf")]);
    let outcome = f.on_request(&RouteRequest { cluster: Some("pre-set-cluster"), model: Some(b"llama"), ..empty_request() });
    assert!(outcome.rejection.is_none());
    assert!(outcome.cluster.is_none(), "pre-set cluster should be preserved");
    assert_no_route_metadata(&outcome);
}

#[test]
fn local_fresh_beats_remote_fresh() {
    let f = make_filter(&[
        ("inference_model", "llama", "site-b", "remote-inf"),
        ("inference_model", "llama", "site-a", "local-inf"),
    ]);
    let outcome = f.on_request(&RouteRequest { model: Some(b"llama"), ..empty_request() });
    assert_eq!(
        outcome.cluster.as_deref(),
        Some("local-inf"),
        "local candidate should win over remote"
    );
}

#[test]
fn config_order_breaks_equal_score_ties() {
    let f = make_filter(&[
        ("inference_model", "llama", "site-b", "first-remote"),
        ("inference_model", "llama", "site-c", "second-remote"),
    ]);
    let outcome = f.on_request(&RouteRequest { model: Some(b"llama"), ..empty_request() });
    assert_eq!(
        outcome.cluster.as_deref(),
        Some("first-remote"),
        "first configured candidate wins on equal score"
    );
}

#[test]
fn fresh_remote_beats_stale_remote() {
    let f = make_scored_filter(&[
        ("inference_model", "llama", "site-b", "stale-remote", false),
        ("inference_model", "llama", "site-c", "fresh-remote", true),
    ]);
    let outcome = f.on_request(&RouteRequest { model: Some(b"llama"), ..empty_request() });
    assert_eq!(
        outcome.cluster.as_deref(),
        Some("fresh-remote"),
        "fresh candidate should beat stale"
    );
}

#[test]
fn fresh_remote_beats_stale_local() {
    let f = make_scored_filter(&[
        ("inference_model", "llama", "site-a", "stale-local", false),
        ("inference_model", "llama", "site-b", "fresh-remote", true),
    ]);
    let outcome = f.on_request(&RouteRequest { model: Some(b"llama"), ..empty_request() });
    assert_eq!(
        outcome.cluster.as_deref(),
        Some("fresh-remote"),
        "fresh remote beats stale local"
    );
}

#[test]
fn stale_local_beats_stale_remote() {
    let f = make_scored_filter(&[
        ("inference_model", "llama", "site-b", "stale-remote", false),
        ("inference_model", "llama", "site-a", "stale-local", false),
    ]);
    let outcome = f.on_request(&RouteRequest { model: Some(b"llama"), ..empty_request() });
    assert_eq!(
        outcome.cluster.as_deref(),
        Some("stale-local"),
        "stale local beats stale remote"
    );
}

#[test]
fn scored_route_metadata_reflects_winner() {
    let f = make_filter(&[
        ("inference_model", "llama", "site-b", "remote-inf"),
        ("inference_model", "llama", "site-a", "local-inf"),
    ]);
    let outcome = f.on_request(&RouteRequest { model: Some(b"llama"), ..empty_request() });
    assert_eq!(route_note(&outcome, "grid.route.cluster"), Some("local-inf"));
    assert_eq!(route_note(&outcome, "grid.route.kind"), Some("inference_model"));
    assert_eq!(route_note(&outcome, "grid.route.name"), Some("llama"));
    assert_eq!(route_note(&outcome, "grid.route.site"), Some("site-a"));
    assert_eq!(route_note(&outcome, "grid.route.local_site"), Some("site-a"));
}

#[test]
fn local_route_writes_metadata() {
    let f = make_filter(&[("inference_model", "llama", "site-a", "local-inf")]);
    let outcome = f.on_request(&RouteRequest { model: Some(b"llama"), ..empty_request() });
    assert_eq!(route_note(&outcome, "grid.route.cluster"), Some("local-inf"));
    assert_eq!(route_note(&outcome, "grid.route.local_site"), Some("site-a"));
}

#[test]
fn remote_route_writes_metadata() {
    let f = make_filter(&[("inference_model", "llama", "site-b", "remote-gw")]);
    let outcome = f.on_request(&RouteRequest { model: Some(b"llama"), ..empty_request() });
    assert_eq!(route_note(&outcome, "grid.route.cluster"), Some("remote-gw"));
    assert_eq!(route_note(&outcome, "grid.route.site"), Some("site-b"));
}

#[test]
fn unknown_model_writes_no_metadata() {
    let f = make_filter(&[("inference_model", "llama", "site-a", "inf")]);
    let outcome = f.on_request(&RouteRequest { model: Some(b"unknown"), ..empty_request() });
    assert_no_route_metadata(&outcome);
}

#[test]
fn blank_model_writes_no_metadata() {
    let f = make_filter(&[("inference_model", "llama", "site-a", "inf")]);
    let outcome = f.on_request(&RouteRequest { model: Some(b""), ..empty_request() });
    assert_no_route_metadata(&outcome);
}

#[test]
fn missing_header_writes_no_metadata() {
    let f = make_filter(&[("inference_model", "llama", "site-a", "inf")]);
    let outcome = f.on_request(&empty_request());
    assert_no_route_metadata(&outcome);
}

#[test]
fn preserved_cluster_writes_no_metadata() {
    let f = make_filter(&[("inference_model", "llama", "site-a", "inf")]);
    let outcome = f.on_request(&RouteRequest { cluster: Some("pre-set"), ..empty_request() });
    assert!(outcome.rejection.is_none());
    assert!(
        route_note(&outcome, "grid.route.kind").is_none(),
        "preserved cluster path should not write route metadata"
    );
}

#[test]
fn from_config_overlay_file() {
    let path = "/etc/grid/grid-config.json";
    let content = r#"{"local_site":"site-a","candidates":[{"kind":"inference_model","name":"llama","site":"site-a","cluster":"local","fresh":true}]}"#;
    let yaml = format!("overlay_file: {}\nreload:\n  enabled: false\n", path);
    assert!(parse_with(&yaml, Ok(content.as_bytes().to_vec())).is_ok(), "overlay_file config should parse");
}

#[test]
fn from_config_overlay_file_missing() {
    let yaml = "overlay_file: /nonexistent/grid-config.json\nreload:\n  enabled: false\n";
    let err = parse_err(yaml);
    assert!(
        err.contains("failed to read"),
        "missing overlay file should error: {err}"
    );
}

#[test]
fn from_config_both_candidates_and_overlay() {
    let path = "/etc/grid/grid-config.json";
    let content = r#"{"local_site":"a","candidates":[{"kind":"inference_model","name":"m","site":"s","cluster":"c","fresh":true}]}"#;
    let yaml = format!(
        "overlay_file: {}\nlocal_site: site-a\ncandidates:\n  - kind: inference_model\n    name: m\n    site: s\n    cluster: c\n    fresh: true\n",
        path
    );
    let err = parse_with(&yaml, Ok(content.as_bytes().to_vec())).unwrap_err();
    assert!(
        err.contains("cannot set both"),
        "both overlay_file and candidates should be rejected: {err}"
    );
}

#[test]
fn from_config_neither_candidates_nor_overlay() {
    let yaml = "model_header: X-Model\n";
    let err = parse_err(yaml);
    assert!(
        err.contains("either overlay_file or candidates"),
        "neither source should be rejected: {err}"
    );
}

#[test]
fn from_config_static_backwards_compat() {
    let yaml = "local_site: site-a\ncandidates:\n  - kind: inference_model\n    name: llama\n    site: site-a\n    cluster: inf\n    fresh: true\n";
    assert!(parse(yaml).is_ok(), "existing static config should still work");
}

#[test]
fn reload_config_defaults() {
    let cfg = ReloadConfig::default();
    assert!(cfg.enabled, "default enabled should be true");
    assert_eq!(cfg.debounce_ms, DEFAULT_DEBOUNCE_MS, "default debounce_ms");
    assert_eq!((default_reload_enabled(), default_debounce_ms()), (cfg.enabled, cfg.debounce_ms));
}

#[test]
fn reload_config_custom_debounce() {
    let content = r#"{"local_site":"a","candidates":[{"kind":"inference_model","name":"m","site":"s","cluster":"c","fresh":true}]}"#;
    let yaml = "overlay_file: /etc/grid/grid-config.json\nreload:\n  debounce_ms: 1000\n";
    let watch = parse_with(yaml, Ok(content.as_bytes().to_vec())).unwrap().watch.unwrap();
    assert_eq!(watch.debounce_ms, 1000);
}

#[test]
fn reload_disabled_no_watcher() {
    let path = "/etc/grid/grid-config.json";
    let content = r#"{"local_site":"site-a","candidates":[{"kind":"inference_model","name":"m","site":"s","cluster":"c","fresh":true}]}"#;
    let yaml = format!("overlay_file: {}\nreload:\n  enabled: false\n", path);
    let filter = parse_with(&yaml, Ok(content.as_bytes().to_vec())).unwrap();
    assert!(filter.watch.is_none());
}

#[test]
fn reload_block_with_static_candidates_rejected() {
    let yaml = "local_site: site-a\nreload:\n  enabled: true\ncandidates:\n  - kind: inference_model\n    name: m\n    site: s\n    cluster: c\n    fresh: true\n";
    let err = parse_err(yaml);
    assert!(
        err.contains("reload block is not valid with static candidates"),
        "reload block with static candidates should be rejected: {err}"
    );
}

#[test]
fn reload_block_disabled_with_static_candidates_rejected() {
    let yaml = "local_site: site-a\nreload:\n  enabled: false\ncandidates:\n  - kind: inference_model\n    name: m\n    site: s\n    cluster: c\n    fresh: true\n";
    let err = parse_err(yaml);
    assert!(
        err.contains("reload block is not valid with static candidates"),
        "reload block with static candidates should be rejected even if enabled=false: {err}"
    );
}

#[test]
fn overlay_without_reload_block_uses_defaults() {
    let path = "/etc/grid/grid-config.json";
    let content = r#"{"local_site":"a","candidates":[{"kind":"inference_model","name":"m","site":"s","cluster":"c","fresh":true}]}"#;
    let yaml = format!("overlay_file: {}\n", path);
    assert!(parse_with(&yaml, Ok(content.as_bytes().to_vec())).is_ok(), "overlay without reload block should use defaults");
    let watch = parse_with(&yaml, Ok(content.as_bytes().to_vec())).unwrap().watch.unwrap();
    assert_eq!((watch.path.as_str(), watch.debounce_ms), (path, DEFAULT_DEBOUNCE_MS));
}

#[test]
fn overlay_with_reload_enabled_false() {
    let path = "/etc/grid/grid-config.json";
    let content = r#"{"local_site":"a","candidates":[{"kind":"inference_model","name":"m","site":"s","cluster":"c","fresh":true}]}"#;
    let yaml = format!("overlay_file: {}\nreload:\n  enabled: false\n", path);
    assert!(parse_with(&yaml, Ok(content.as_bytes().to_vec())).is_ok(), "overlay with reload disabled should work");
}

#[test]
fn overlay_with_reload_enabled_true() {
    let path = "/etc/grid/grid-config.json";
    let content = r#"{"local_site":"a","candidates":[{"kind":"inference_model","name":"m","site":"s","cluster":"c","fresh":true}]}"#;
    let yaml = format!(
        "overlay_file: {}\nreload:\n  enabled: true\n  debounce_ms: 100\n",
        path
    );
    assert!(parse_with(&yaml, Ok(content.as_bytes().to_vec())).is_ok(), "overlay with reload enabled should work");
    let watch = parse_with(&yaml, Ok(content.as_bytes().to_vec())).unwrap().watch.unwrap();
    assert_eq!(watch.debounce_ms, 100);
}

#[test]
fn static_candidates_no_reload_block() {
    let yaml = "local_site: site-a\ncandidates:\n  - kind: inference_model\n    name: m\n    site: s\n    cluster: c\n    fresh: true\n";
    assert!(
        parse(yaml).is_ok(),
        "static candidates without reload block should work"
    );
}

#[test]
fn overlay_with_custom_debounce() {
    let path = "/etc/grid/grid-config.json";
    let content = r#"{"local_site":"a","candidates":[{"kind":"inference_model","name":"m","site":"s","cluster":"c","fresh":true}]}"#;
    let yaml = format!(
        "overlay_file: {}\nreload:\n  enabled: false\n  debounce_ms: 2000\n",
        path
    );
    assert!(parse_with(&yaml, Ok(content.as_bytes().to_vec())).is_ok(), "overlay with custom debounce should work");
}

#[test]
fn neither_source_no_reload_rejected() {
    let yaml = "model_header: X-Model\nreload:\n  enabled: true\n";
    let err = parse_err(yaml);
    assert!(
        err.contains("either overlay_file or candidates"),
        "no source + reload should still be rejected: {err}"
    );
}

#[test]
fn stale_first_does_not_beat_fresh_later() {
    let f = make_scored_filter(&[
        ("inference_model", "llama", "site-a", "stale-local", false),
        ("inference_model", "llama", "site-b", "fresh-remote", true),
    ]);
    let outcome = f.on_request(&RouteRequest { model: Some(b"llama"), ..empty_request() });
    assert_eq!(
        outcome.cluster.as_deref(),
        Some("fresh-remote"),
        "stale candidate listed first must NOT beat fresh candidate listed later"
    );
}

#[test]
fn from_config_overlay_oversized() {
    let content = vec![b'x'; (MAX_OVERLAY_SIZE + 1) as usize];
    let yaml = format!("overlay_file: {}\nreload:\n  enabled: false\n", "/etc/grid/grid-config.json");
    let err = parse_with(&yaml, Ok(content)).unwrap_err();
    assert!(
        err.contains("exceeds"),
        "oversized overlay at startup should be rejected: {err}"
    );
    assert_eq!(
        err,
        "grid: failed to read overlay file /etc/grid/grid-config.json: overlay file exceeds 2097152 byte limit"
    );
}

#[test]
fn oversized_model_header_rejects_no_metadata() {
    let f = make_filter(&[("inference_model", "llama", "site-a", "inf")]);
    let big = "a".repeat(MAX_HEADER_VALUE_LEN + 1);
    let outcome = f.on_request(&model_request(big.as_bytes()));
    assert!(outcome.rejection == Some(400), "oversized model header should reject 400");
    assert_no_route_metadata(&outcome);
    let largest = "a".repeat(MAX_HEADER_VALUE_LEN);
    assert_eq!(f.on_request(&model_request(largest.as_bytes())).rejection, Some(404));
}

#[test]
fn invalid_utf8_model_header_rejects_no_metadata() {
    let f = make_filter(&[("inference_model", "llama", "site-a", "inf")]);
    let outcome = f.on_request(&model_request(b"\xff\xfe"));
    assert!(outcome.rejection == Some(400), "non-UTF-8 model header should reject 400");
    assert_no_route_metadata(&outcome);
}

#[test]
fn on_request_after_snapshot_swap() {
    let mut filter = GridRouteFilter {
        snapshot: make_snapshot("cluster-v1"),
        model_header: "x-model".to_owned(),
        watch: None,
    };
    assert_eq!(route_model(&filter, "llama").as_deref(), Some("cluster-v1"));
    filter.snapshot = make_snapshot("cluster-v2");
    assert_eq!(route_model(&filter, "llama").as_deref(), Some("cluster-v2"));
}

#[test]
fn reorder_after_reload_changes_selection() {
    let mut filter = GridRouteFilter {
        snapshot: make_two_candidate_snapshot("cluster-a", "site-b", "cluster-b", "site-a"),
        model_header: "x-model".to_owned(),
        watch: None,
    };
    assert_eq!(route_model(&filter, "llama").as_deref(), Some("cluster-b"));
    filter.snapshot = make_two_candidate_snapshot("cluster-c", "site-c", "cluster-a", "site-a");
    assert_eq!(route_model(&filter, "llama").as_deref(), Some("cluster-a"));
}

#[test]
fn scores_of_all_classes() {
    let f = make_scored_filter(&[
        ("inference_model", "llama", "site-a", "c", true),
        ("inference_model", "llama", "site-b", "c", true),
        ("inference_model", "llama", "site-a", "c", false),
        ("inference_model", "llama", "site-b", "c", false),
    ]);
    let scores: Vec<i32> = f.snapshot.candidates.iter().map(|c| score_candidate(c, "site-a")).collect();
    assert_eq!(scores, [10, 0, -90, -100]);
}

#[test]
fn selection_needs_kind_and_name() {
    let f = make_filter(&[("inference_model", "llama", "site-a", "c")]);
    let list = &f.snapshot.candidates;
    assert!(select_candidate(list, CapabilityKind::McpTool, "llama", "site-a").is_none());
    assert!(select_candidate(list, CapabilityKind::InferenceModel, "llam", "site-a").is_none());
    assert!(select_candidate(&[], CapabilityKind::InferenceModel, "llama", "site-a").is_none());
    let best = select_candidate(list, CapabilityKind::InferenceModel, "llama", "elsewhere");
    assert_eq!(best.unwrap().cluster, "c");
}

#[test]
fn notes_come_in_order() {
    let f = make_filter(&[("mcp_tool", "weather", "site-c", "grid-site-c")]);
    let outcome = f.on_request(&mcp_request("tools/call", Some("weather")));
    let notes: Vec<(&str, &str)> = outcome.notes.iter().map(|n| (n.key, n.value.as_str())).collect();
    assert_eq!(
        notes,
        [
            ("grid.route.kind", "mcp_tool"),
            ("grid.route.name", "weather"),
            ("grid.route.site", "site-c"),
            ("grid.route.cluster", "grid-site-c"),
            ("grid.route.local_site", "site-a"),
        ]
    );
    assert_eq!(outcome.rejection, None);
}

#[test]
fn lookups_of_all_kinds() {
    assert!(matches!(extract_lookup(&empty_request()), Lookup::Skip));
    assert!(matches!(extract_lookup(&mcp_request("tools/list", Some("x"))), Lookup::Skip));
    assert!(matches!(extract_lookup(&mcp_request("tools/call", None)), Lookup::Invalid));
    assert!(matches!(extract_lookup(&mcp_request("tools/call", Some(" \u{3000}"))), Lookup::Invalid));
    let wide = "é".repeat(128);
    assert!(matches!(
        extract_lookup(&mcp_request("tools/call", Some(&wide))),
        Lookup::Route { kind: CapabilityKind::McpTool, name } if name == wide
    ));
    let wider = "é".repeat(129);
    assert!(matches!(extract_lookup(&mcp_request("tools/call", Some(&wider))), Lookup::Invalid));
    assert!(matches!(extract_lookup(&model_request(b" \t ")), Lookup::Invalid));
    assert!(matches!(extract_lookup(&model_request(b"a\x01b")), Lookup::Invalid));
    assert!(matches!(
        extract_lookup(&model_request(b" padded ")),
        Lookup::Route { kind: CapabilityKind::InferenceModel, name } if name == " padded "
    ));
}

#[test]
fn model_header_is_kept_in_lower_case() {
    let yaml = "local_site: site-a\nmodel_header: X-My-Model\ncandidates:\n  - kind: inference_model\n    name: m\n    site: s\n    cluster: c\n";
    let filter = parse(yaml).unwrap();
    assert_eq!(filter.model_header, "x-my-model");
    assert_eq!(filter.name(), "grid_route");
    assert!(filter.selects_cluster());
    assert!(filter.watch.is_none());
    assert_eq!(filter.snapshot.content_hash, [0; 32]);
}

#[test]
fn bad_model_headers_are_named() {
    let with = |header: &str| {
        parse_err(&format!("local_site: site-a\nmodel_header: \"{header}\"\ncandidates: []\n"))
    };
    assert_eq!(with("a b"), "grid: model_header is invalid: a b");
    assert_eq!(with("X-Praxis-Foo"), "grid: model_header is reserved: X-Praxis-Foo");
    assert_eq!(with("x-ext-agent-id"), "grid: model_header is reserved: x-ext-agent-id");
    assert_eq!(with("x-ext-protocol-v"), "grid: model_header is reserved: x-ext-protocol-v");
    assert_eq!(with(" "), "grid: model_header must be non-blank");
}

#[test]
fn missing_local_site_rejected() {
    let err = parse_err("candidates:\n  - kind: inference_model\n    name: m\n    site: s\n    cluster: c\n");
    assert_eq!(err, "grid: local_site is required when candidates is set");
}

#[test]
fn file_is_asked_for_only_when_it_matters() {
    let asks = |yaml: &str| config_of(yaml).unwrap().overlay_to_read().map(str::to_owned);
    assert_eq!(asks("overlay_file: /a/b.json\n").as_deref(), Some("/a/b.json"));
    assert_eq!(asks("overlay_file: /a/b.json\nmodel_header: x-praxis-a\n"), None);
    assert_eq!(asks("overlay_file: /a/b.json\ncandidates: []\n"), None);
    assert_eq!(asks("local_site: a\n"), None);
}

#[test]
fn stale_overlay_candidates_are_routed_to() {
    let content = br#"{"local_site":"a","candidates":[{"kind":"mcp_tool","name":"t","site":"s","cluster":"c","fresh":false}]}"#;
    let filter = parse_with("overlay_file: /a/b.json\n", Ok(content.to_vec())).unwrap();
    let outcome = filter.on_request(&mcp_request("tools/call", Some("t")));
    assert_eq!(outcome.cluster.as_deref(), Some("c"));
    assert_eq!(route_note(&outcome, "grid.route.local_site"), Some("a"));
}
