//! The credential filter: configuration and injection.
use http::{header::AUTHORIZATION, HeaderMap, HeaderValue};
use praxis_ai::grid::credential_inject::{
    credential_source, default_strategy, entry_source, read_token_file, resolve_credential,
    validate_bounded, validate_count, validate_ref, validate_token, CredentialEntryConfig, CredentialInput, CredentialOutcome,
    CredentialRequest, GridCredentialInjectFilter, Source, SourceRead, MAX_CREDENTIALS,
    MAX_REFERENCE_LEN, MAX_SOURCE_LEN, MAX_TOKEN_BYTES, MAX_TOKEN_READ_BYTES,
};
use praxis_ai::grid::metadata::STRATEGY_BEARER_TOKEN;
use praxis_ai::secret::Secret;
use yaml_serde::Value;

fn credential_yaml(name: &str, namespace: &str, key: &str, value: &str) -> String {
    format!("credentials:\n  - name: {name}\n    namespace: {namespace}\n    key: {key}\n    value: \"{value}\"\n")
}

fn text(value: &Value, name: &str) -> Option<String> {
    value.get(name).and_then(Value::as_str).map(str::to_owned)
}

fn entry_of(value: &Value) -> CredentialEntryConfig {
    CredentialEntryConfig {
        name: text(value, "name").unwrap(),
        namespace: text(value, "namespace").unwrap(),
        key: text(value, "key").unwrap(),
        strategy: text(value, "strategy").unwrap_or(default_strategy()),
        value: text(value, "value"),
        env_var: text(value, "env_var"),
        file: text(value, "file"),
    }
}

/// The filter of a configuration whose sources all read as `read` gives them.
fn parse_with(
    yaml: &str,
    read: impl Fn(&CredentialEntryConfig) -> SourceRead,
) -> Result<GridCredentialInjectFilter, String> {
    let val: Value = yaml_serde::from_str(yaml).unwrap();
    let mut inputs = Vec::new();
    for item in val.get("credentials").unwrap().as_sequence().unwrap() {
        let entry = entry_of(item);
        let read = read(&entry);
        inputs.push(CredentialInput { entry, read });
    }
    GridCredentialInjectFilter::from_config(inputs).map_err(|e| e.message())
}

fn parse(yaml: &str) -> Result<GridCredentialInjectFilter, String> {
    parse_with(yaml, |_| SourceRead::NotOpened("environment variable not found".to_owned()))
}

fn make_inject_filter(name: &str, namespace: &str, key: &str, value: &str) -> GridCredentialInjectFilter {
    parse(&credential_yaml(name, namespace, key, value)).unwrap()
}

fn cred_metadata<'a>(name: &'a str, ns: &'a str, key: &'a str) -> CredentialRequest<'a> {
    CredentialRequest {
        name: Some(name),
        namespace: Some(ns),
        key: Some(key),
        strategy: Some(STRATEGY_BEARER_TOKEN),
    }
}

fn nothing() -> CredentialRequest<'static> {
    CredentialRequest { name: None, namespace: None, key: None, strategy: None }
}

fn entry(value: Option<&str>, env_var: Option<&str>, file: Option<&str>) -> CredentialEntryConfig {
    CredentialEntryConfig {
        name: "s1".to_owned(),
        namespace: "ns".to_owned(),
        key: "k".to_owned(),
        strategy: default_strategy(),
        value: value.map(str::to_owned),
        env_var: env_var.map(str::to_owned),
        file: file.map(str::to_owned),
    }
}

fn read_text(text: &str) -> SourceRead {
    SourceRead::Text(Secret::new(text.to_owned()))
}

fn resolved(entry: &CredentialEntryConfig, read: SourceRead) -> Result<String, String> {
    resolve_credential(entry, read)
        .map(|held| held.header_value.text().to_owned())
        .map_err(|e| e.message())
}

#[test]
fn empty_credentials_rejected() {
    let yaml = "credentials: []\n";
    assert!(parse(&yaml).is_err());
}

#[test]
fn too_many_credentials_rejected() {
    let entries = (0..=MAX_CREDENTIALS)
        .map(|i| format!("  - name: s{i}\n    namespace: ns\n    key: k\n    value: tok\n"))
        .collect::<String>();
    let val = &format!("credentials:\n{entries}");
    assert!(parse(&val).is_err());
}

#[test]
fn duplicate_credential_ref_rejected() {
    let yaml = [
        "credentials:\n",
        "  - name: s1\n    namespace: ns\n    key: k\n    value: tok1\n",
        "  - name: s1\n    namespace: ns\n    key: k\n    value: tok2\n",
    ]
    .concat();
    let result = parse(&yaml);
    assert!(result.is_err(), "duplicate credential ref must be rejected");
}

#[test]
fn unsupported_strategy_rejected_at_construction() {
    let yaml = "credentials:\n  - name: s1\n    namespace: ns\n    key: k\n    strategy: api_key\n    value: tok\n";
    let result = parse(&yaml);
    assert!(result.is_err(), "unsupported strategy must be rejected");
}

#[test]
fn blank_name_rejected() {
    let yaml = "credentials:\n  - name: ''\n    namespace: ns\n    key: k\n    value: tok\n";
    assert!(parse(&yaml).is_err());
}

#[test]
fn blank_namespace_rejected() {
    let yaml = "credentials:\n  - name: s1\n    namespace: ''\n    key: k\n    value: tok\n";
    assert!(parse(&yaml).is_err());
}

#[test]
fn blank_key_rejected() {
    let yaml = "credentials:\n  - name: s1\n    namespace: ns\n    key: ''\n    value: tok\n";
    assert!(parse(&yaml).is_err());
}

#[test]
fn oversized_reference_rejected() {
    let name = "n".repeat(MAX_REFERENCE_LEN + 1);
    let yaml = credential_yaml(&name, "ns", "k", "tok");
    assert!(parse(&yaml).is_err());
}

#[test]
fn empty_value_rejected() {
    let yaml = "credentials:\n  - name: s1\n    namespace: ns\n    key: k\n    value: ''\n";
    assert!(parse(&yaml).is_err());
}

#[test]
fn oversized_value_rejected() {
    let token = "t".repeat(MAX_TOKEN_BYTES + 1);
    let yaml = credential_yaml("s1", "ns", "k", &token);
    assert!(parse(&yaml).is_err());
}

#[test]
fn multiple_sources_rejected() {
    let yaml = "credentials:\n  - name: s1\n    namespace: ns\n    key: k\n    value: tok\n    env_var: FOO\n";
    let result = parse(&yaml);
    assert!(result.is_err(), "multiple sources must be rejected");
}

#[test]
fn no_source_rejected() {
    let yaml = "credentials:\n  - name: s1\n    namespace: ns\n    key: k\n";
    assert!(parse(&yaml).is_err());
}

#[test]
fn valid_value_source_accepted() {
    let f = make_inject_filter("s1", "ns", "k", "my-secret-token");
    assert_eq!(f.name(), "grid_credential_inject");
}

#[test]
fn missing_env_var_rejected_without_mutating_process_environment() {
    let yaml = [
        "credentials:\n",
        "  - name: s1\n",
        "    namespace: ns\n",
        "    key: k\n",
        "    env_var: PRAXIS_GRID_TEST_INTENTIONALLY_UNDEFINED_7E9D09E4\n",
    ]
    .concat();
    assert!(parse(&yaml).is_err());
}

#[test]
fn file_source_resolved() {
    let yaml = format!(
        "credentials:\n  - name: s1\n    namespace: ns\n    key: k\n    file: \"{}\"\n",
        "/var/run/token"
    );
    let f = parse_with(&yaml, |_| read_text("  file-token  \n")).unwrap();
    assert_eq!(f.name(), "grid_credential_inject");
    assert!(matches!(
        f.on_request(&cred_metadata("s1", "ns", "k")),
        CredentialOutcome::Authorize { value: "Bearer file-token", .. }
    ));
}

#[test]
fn oversized_file_rejected() {
    let content = String::from_utf8(vec![b't'; MAX_TOKEN_BYTES + 1]).unwrap();
    let yaml = format!(
        "credentials:\n  - name: s1\n    namespace: ns\n    key: k\n    file: \"{}\"\n",
        "/var/run/token"
    );
    let result = parse_with(&yaml, |_| read_text(&content));
    assert_eq!(
        result.err().unwrap(),
        "grid_credential_inject: credential file /var/run/token exceeds 16384 bytes"
    );
    assert_eq!(MAX_TOKEN_READ_BYTES, MAX_TOKEN_BYTES as u64 + 1);
}

// ---- Runtime behavior ----

#[test]
fn no_credential_metadata_continues_without_modification() {
    let f = make_inject_filter("s1", "ns", "k", "tok");
    assert!(
        matches!(f.on_request(&nothing()), CredentialOutcome::Continue),
        "no credential metadata means no Authorization modification"
    );
}

#[test]
fn valid_credential_replaces_authorization() {
    let f = make_inject_filter("s1", "ns", "k", "my-secret");
    let mut headers = HeaderMap::new();
    headers.append(AUTHORIZATION, HeaderValue::from_static("Bearer customer-token"));
    headers.append(AUTHORIZATION, HeaderValue::from_static("Basic customer-password"));
    let action = f.on_request(&cred_metadata("s1", "ns", "k"));
    let CredentialOutcome::Authorize { remove, set, value } = action else {
        panic!("must set new Authorization");
    };
    headers.remove(remove);
    assert!(!headers.contains_key(AUTHORIZATION), "must remove old Authorization");
    headers.insert(set, HeaderValue::from_str(value).unwrap());
    let new_auth: Vec<&HeaderValue> = headers.get_all(AUTHORIZATION).iter().collect();
    assert_eq!(new_auth, ["Bearer my-secret"], "must set resolved provider credential");
}

#[test]
fn credentials_are_taken_in_one_by_one() {
    let mut f = GridCredentialInjectFilter::without_credentials();
    assert!(matches!(f.on_request(&cred_metadata("s1", "ns", "k")), CredentialOutcome::Reject(503)));
    let first = CredentialInput { entry: entry(Some("one"), None, None), read: read_text("unused") };
    assert!(f.take_in(first).is_ok());
    let again = CredentialInput { entry: entry(None, None, Some("/f")), read: read_text("two") };
    assert_eq!(
        f.take_in(again).err().unwrap().message(),
        "grid_credential_inject: duplicate credential reference"
    );
    assert!(matches!(
        f.on_request(&cred_metadata("s1", "ns", "k")),
        CredentialOutcome::Authorize { value: "Bearer one", .. }
    ));
}

#[test]
fn entries_are_checked_before_they_are_read() {
    assert!(matches!(entry_source(&entry(None, None, Some("/f"))), Ok(Source::File("/f"))));
    let mut bad = entry(None, Some("VAR"), None);
    bad.key = " ".to_owned();
    assert_eq!(
        entry_source(&bad).err().unwrap().message(),
        "grid_credential_inject: key must be non-blank and at most 256 bytes"
    );
    bad.strategy = "api_key".to_owned();
    assert_eq!(
        entry_source(&bad).err().unwrap().message(),
        "grid_credential_inject: unsupported credential strategy"
    );
    assert_eq!(
        entry_source(&entry(None, None, None)).err().unwrap().message(),
        "grid_credential_inject: configure exactly one of value, env_var, or file per credential"
    );
    assert!(validate_count(MAX_CREDENTIALS).is_ok());
    for count in [0, MAX_CREDENTIALS + 1] {
        assert_eq!(
            validate_count(count).err().unwrap().message(),
            "grid_credential_inject: credentials must contain 1-1024 entries"
        );
    }
}

#[test]
fn unknown_credential_ref_rejected_503() {
    let f = make_inject_filter("s1", "ns", "k", "tok");
    let action = f.on_request(&cred_metadata("other-secret", "ns", "k"));
    assert!(
        matches!(action, CredentialOutcome::Reject(503)),
        "unknown credential ref must be rejected 503"
    );
}

#[test]
fn unsupported_strategy_at_runtime_rejected_503() {
    let f = make_inject_filter("s1", "ns", "k", "tok");
    let request = CredentialRequest { strategy: Some("api_key"), ..cred_metadata("s1", "ns", "k") };
    assert!(
        matches!(f.on_request(&request), CredentialOutcome::Reject(503)),
        "unsupported strategy at runtime must be rejected 503"
    );
}

#[test]
fn incomplete_credential_metadata_rejected_503() {
    let f = make_inject_filter("s1", "ns", "k", "tok");
    let request = CredentialRequest {
        name: Some("s1"),
        strategy: Some(STRATEGY_BEARER_TOKEN),
        ..nothing()
    };
    assert!(
        matches!(f.on_request(&request), CredentialOutcome::Reject(503)),
        "partial credential metadata must fail closed"
    );
}

#[test]
fn each_reference_leads_to_its_own_credential() {
    let yaml = "credentials:\n  - name: s1\n    namespace: ns\n    key: k\n    value: one\n  - name: s1\n    namespace: ns\n    key: l\n    value: two\n  - name: s1\n    namespace: other\n    key: k\n    env_var: TOKEN\n";
    let f = parse_with(yaml, |entry| match entry.env_var.as_deref() {
        Some("TOKEN") => read_text("three"),
        _ => SourceRead::NotRead("unused".to_owned()),
    })
    .unwrap();
    let sent = |namespace: &str, key: &str| match f.on_request(&cred_metadata("s1", namespace, key)) {
        CredentialOutcome::Authorize { value, .. } => value.to_owned(),
        _ => String::new(),
    };
    assert_eq!(sent("ns", "k"), "Bearer one");
    assert_eq!(sent("ns", "l"), "Bearer two");
    assert_eq!(sent("other", "k"), "Bearer three");
    assert_eq!(sent("other", "l"), "");
}

#[test]
fn first_fault_is_reported() {
    let yaml = "credentials:\n  - name: s1\n    namespace: ns\n    key: k\n    strategy: basic\n    value: ''\n  - name: ''\n    namespace: ns\n    key: k\n    value: tok\n";
    assert_eq!(
        parse(yaml).err().unwrap(),
        "grid_credential_inject: unsupported credential strategy"
    );
    assert_eq!(
        GridCredentialInjectFilter::from_config(Vec::new()).err().unwrap().message(),
        "grid_credential_inject: credentials must contain 1-1024 entries"
    );
    let twice = credential_yaml("s1", "ns", "k", "a") + "  - name: s1\n    namespace: ns\n    key: k\n    value: b\n";
    assert_eq!(
        parse(&twice).err().unwrap(),
        "grid_credential_inject: duplicate credential reference"
    );
}

#[test]
fn sources_are_told_apart() {
    assert!(matches!(credential_source(&entry(Some("v"), None, None)), Ok(Source::Inline)));
    assert!(matches!(credential_source(&entry(None, Some("VAR"), None)), Ok(Source::Variable("VAR"))));
    assert!(matches!(credential_source(&entry(None, None, Some("/f"))), Ok(Source::File("/f"))));
    let long = "p".repeat(MAX_SOURCE_LEN + 1);
    assert_eq!(
        credential_source(&entry(None, None, Some(&long))).err().unwrap().message(),
        "grid_credential_inject: file must be non-blank and at most 4096 bytes"
    );
    assert_eq!(
        credential_source(&entry(None, Some(" "), None)).err().unwrap().message(),
        "grid_credential_inject: env_var must be non-blank and at most 4096 bytes"
    );
    assert_eq!(
        credential_source(&entry(Some("v"), None, Some("/f"))).err().unwrap().message(),
        "grid_credential_inject: configure exactly one of value, env_var, or file per credential"
    );
}

#[test]
fn unreadable_sources_are_reported() {
    let var = entry(None, Some("VAR"), None);
    assert_eq!(
        resolved(&var, SourceRead::NotOpened("environment variable not found".to_owned())),
        Err("grid_credential_inject: environment source VAR is unavailable: environment variable not found".to_owned())
    );
    assert_eq!(
        resolved(&var, SourceRead::NotRead("not unicode".to_owned())),
        Err("grid_credential_inject: environment source VAR is unavailable: not unicode".to_owned())
    );
    let file = entry(None, None, Some("/f"));
    assert_eq!(
        resolved(&file, SourceRead::NotOpened("denied".to_owned())),
        Err("grid_credential_inject: cannot open credential file /f: denied".to_owned())
    );
    assert_eq!(
        resolved(&file, SourceRead::NotRead("stream did not contain valid UTF-8".to_owned())),
        Err("grid_credential_inject: cannot read credential file /f: stream did not contain valid UTF-8".to_owned())
    );
}

#[test]
fn resolved_credentials_are_checked() {
    assert_eq!(resolved(&entry(Some("tok"), None, None), read_text("unused")), Ok("Bearer tok".to_owned()));
    let var = entry(None, Some("VAR"), None);
    assert_eq!(resolved(&var, read_text(" padded ")), Ok("Bearer  padded ".to_owned()));
    assert_eq!(
        resolved(&var, read_text("two\nlines")),
        Err("grid_credential_inject: invalid bearer credential: failed to parse header value".to_owned())
    );
    let file = entry(None, None, Some("/f"));
    assert_eq!(
        resolved(&file, read_text(" \n")),
        Err("grid_credential_inject: resolved credential must contain 1-16384 bytes".to_owned())
    );
    let whole = "t".repeat(MAX_TOKEN_BYTES);
    assert_eq!(resolved(&var, read_text(&whole)), Ok(format!("Bearer {whole}")));
    assert!(resolved(&var, read_text(&format!("{whole}t"))).is_err());
    let token = read_token_file("/f", read_text("\u{a0}tok\u{2003}\r\n")).unwrap();
    assert_eq!(token.text(), "tok");
}

#[test]
fn bounds_are_inclusive() {
    assert!(validate_bounded("key", &"k".repeat(MAX_REFERENCE_LEN), MAX_REFERENCE_LEN).is_ok());
    assert!(validate_bounded("key", &"é".repeat(MAX_REFERENCE_LEN), MAX_REFERENCE_LEN).is_err());
    assert!(validate_token("t").is_ok());
    assert!(validate_token("\t").is_err());
    let mut bad = entry(Some("v"), None, None);
    assert!(validate_ref(&bad).is_ok());
    bad.key = String::new();
    assert_eq!(
        validate_ref(&bad).unwrap_err().message(),
        "grid_credential_inject: key must be non-blank and at most 256 bytes"
    );
    bad.namespace = " ".to_owned();
    assert_eq!(
        validate_ref(&bad).unwrap_err().message(),
        "grid_credential_inject: namespace must be non-blank and at most 256 bytes"
    );
}
