//! The registry of filters.
use std::sync::Arc;

use praxis_ai::grid::credential_inject::{
    default_strategy, CredentialEntryConfig, CredentialInput, GridCredentialInjectFilter, SourceRead,
};
use praxis_ai::registry::{
    build_full_registry, extend_registry, AgenticFilters, AiFilters, AnthropicFilters, FilterEntry,
    GeneralAiFilters, GridFilters, OpenaiFilters, OpenaiResponseFilters, OpenaiResponsesFilters,
};
use praxis_filter::{FilterFactory, FilterRegistry};

fn factory() -> FilterFactory {
    FilterFactory::Http(Arc::new(|_| Err("not made here".into())))
}

fn ai_filters() -> AiFilters {
    AiFilters {
        agentic: AgenticFilters { a2a: factory(), mcp: factory() },
        general: GeneralAiFilters {
            ai_guardrails: factory(),
            model_to_header: factory(),
            prompt_enrich: factory(),
            token_count: factory(),
            token_usage_headers: factory(),
        },
        anthropic: AnthropicFilters {
            anthropic_messages_format: factory(),
            anthropic_messages_protocol: factory(),
            anthropic_stream_events: factory(),
            anthropic_to_openai: factory(),
            anthropic_validate: factory(),
        },
        openai: OpenaiFilters {
            responses: OpenaiResponsesFilters {
                openai_doc_extract: factory(),
                openai_file_resolve: factory(),
                openai_responses_format: factory(),
                openai_responses_model_rewrite: factory(),
                openai_responses_validate: factory(),
                openai_responses_rehydrate: factory(),
                answers: OpenaiResponseFilters {
                    openai_response_store: factory(),
                    openai_stream_events: factory(),
                    openai_responses_proxy: factory(),
                    openai_mcp_tool_resolve: factory(),
                    openai_tool_parse: factory(),
                    openai_web_search: factory(),
                    openai_mcp_dispatch: factory(),
                },
            },
            openai_conversations: factory(),
        },
        grid: GridFilters {
            grid_route: FilterFactory::Http(Arc::new(|_| Err("made by grid_route".into()))),
            grid_provider_route: factory(),
            grid_credential_inject: factory(),
        },
    }
}

fn entry(name: &str, security: bool) -> FilterEntry {
    FilterEntry { name: name.to_owned(), security, factory: factory() }
}

fn full(external: Vec<FilterEntry>) -> Result<FilterRegistry, String> {
    build_full_registry(ai_filters(), external).map_err(|e| e.message())
}

#[test]
fn grid_filters_are_registered_exactly_once() {
    let registry = full(Vec::new()).ok().unwrap();
    let names = registry.available_filters();
    for expected in ["grid_route", "grid_provider_route", "grid_credential_inject"] {
        assert_eq!(
            names.iter().filter(|name| **name == expected).count(),
            1,
            "{expected} must be registered exactly once"
        );
    }
    assert!(!registry.is_security_filter("grid_route"));
    assert!(registry.is_security_filter("grid_provider_route"));
    assert!(registry.is_security_filter("grid_credential_inject"));
}

#[test]
fn provider_pipeline_filters_construct_from_registry() {
    let registry = full(Vec::new()).ok().unwrap();
    let peer_config = yaml_serde::from_str(
        "trusted_peers:\n\
         \x20 - cert_digest: 0000000000000000000000000000000000000000000000000000000000000000\n\
         \x20   organization: ai-grid\n",
    )
    .expect("peer config");
    registry
        .create("peer_identity_trust", &peer_config)
        .unwrap_or_else(|error| panic!("peer_identity_trust must construct from the full registry: {error}"));
    assert!(registry.is_security_filter("peer_identity_trust"));

    let read = SourceRead::NotOpened(String::new());
    let entry = CredentialEntryConfig {
        name: "provider-token".to_owned(),
        namespace: "grid-system".to_owned(),
        key: "token".to_owned(),
        strategy: default_strategy(),
        value: Some("test-only-token".to_owned()),
        env_var: None,
        file: None,
    };
    assert!(GridCredentialInjectFilter::from_config(vec![CredentialInput { entry, read }]).is_ok());
}

#[test]
fn all_ai_filters_join_the_builtins() {
    let before = FilterRegistry::with_builtins().available_filters().len();
    let registry = full(Vec::new()).ok().unwrap();
    assert_eq!(registry.available_filters().len(), before + 29);
    for name in ["a2a", "token_usage_headers", "anthropic_validate", "openai_conversations", "router"] {
        assert!(registry.available_filters().contains(&name), "{name} must be registered");
        assert!(!registry.is_security_filter(name));
    }
    assert!(registry.is_security_filter("cors"));
}

#[test]
fn core_builtins_are_there_with_their_class() {
    let standard = [
        "access_log", "circuit_breaker", "compression", "endpoint_selector", "head_classifier", "headers",
        "grpc_detection", "grpc_status", "grpc_timeout", "grpc_web", "load_balancer", "path_rewrite", "redirect",
        "request_id", "router", "static_response", "sticky_sessions", "timeout", "trace_context", "url_rewrite",
        "json_body", "json_body_field", "json_rpc", "sni_router", "tcp_access_log", "tcp_load_balancer",
    ];
    let security = [
        "cors", "csrf", "credential_injection", "forwarded_headers", "guardrails", "ip_acl", "rate_limit",
        "peer_identity_trust",
    ];
    let optional = ["basic_auth", "cloud_events", "policy", "iterative_request_router"];
    let registry = full(vec![entry("extra", false)]).ok().unwrap();
    let names = registry.available_filters();
    for name in standard {
        assert!(names.contains(&name) && !registry.is_security_filter(name), "{name}");
    }
    for name in security {
        assert!(names.contains(&name) && registry.is_security_filter(name), "{name}");
    }
    for name in FilterRegistry::with_builtins().available_filters() {
        assert!(
            standard.contains(&name) || security.contains(&name) || optional.contains(&name),
            "{name} is not known to be built in"
        );
        assert!(full(vec![entry(name, false)]).is_err(), "{name} must be taken");
    }
}

#[test]
fn factories_are_registered_under_their_own_names() {
    let registry = full(vec![entry("extra", true)]).ok().unwrap();
    let config = yaml_serde::Value::Null;
    let made = |name: &str| registry.create(name, &config).err().unwrap().to_string();
    assert_eq!(made("grid_route"), "made by grid_route");
    assert_eq!(made("grid_provider_route"), "not made here");
    assert_eq!(made("extra"), "not made here");
    assert!(registry.is_security_filter("extra"));
}

#[test]
fn taken_names_are_refused() {
    assert_eq!(
        full(vec![entry("extra", false), entry("grid_route", false)]).err().unwrap(),
        "duplicate filter name: 'grid_route'"
    );
    assert_eq!(
        full(vec![entry("extra", false), entry("extra", true)]).err().unwrap(),
        "duplicate filter name: 'extra'"
    );
    assert_eq!(full(vec![entry("router", false)]).err().unwrap(), "duplicate filter name: 'router'");
    let twice = extend_registry(full(Vec::new()).ok().unwrap(), ai_filters(), Vec::new());
    assert_eq!(twice.err().unwrap().message(), "duplicate filter name: 'a2a'");
}
