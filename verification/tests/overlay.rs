//! The overlay: conversion, reloading and watching.
use std::path::Path;

use praxis_ai::grid::descriptor::AdmissionState;
use praxis_ai::grid::overlay::{
    default_fresh, handle_overlay_reload, is_relevant_event, is_unchanged, join_step,
    read_overlay, read_overlay_bounded, watch_dir_for_parent, watch_dir_for_path, watch_step,
    EventKind, JoinStep, OverlayCandidate, OverlayDocument, Reload, RouteSnapshot, WatchAction,
    WatchEvent, WatchState, DEFAULT_DEBOUNCE_MS, JOIN_POLL_MS, JOIN_TIMEOUT_MS, MAX_OVERLAY_SIZE,
};
use serde_json::Value;

// ---- Decoding of overlay files ----

fn required(value: &Value, name: &str) -> Result<String, String> {
    match value.get(name) {
        Some(Value::String(text)) => Ok(text.clone()),
        Some(_) => Err(format!("invalid type for `{name}`")),
        None => Err(format!("missing field `{name}`")),
    }
}

fn optional(value: &Value, name: &str) -> Result<Option<String>, String> {
    match value.get(name) {
        None | Some(Value::Null) => Ok(None),
        Some(Value::String(text)) => Ok(Some(text.clone())),
        Some(_) => Err(format!("invalid type for `{name}`")),
    }
}

fn decode(content: &[u8]) -> Result<OverlayDocument, String> {
    let value: Value = serde_json::from_slice(content).map_err(|e| e.to_string())?;
    let list = value.get("candidates").and_then(Value::as_array).ok_or("missing field `candidates`")?;
    let mut candidates = Vec::new();
    for item in list {
        let fresh = match item.get("fresh") {
            None => default_fresh(),
            Some(held) => held.as_bool().ok_or("invalid type for `fresh`")?,
        };
        let rank = match item.get("rank") {
            None | Some(Value::Null) => None,
            Some(held) => Some(held.as_u64().and_then(|n| u32::try_from(n).ok()).ok_or("invalid rank")?),
        };
        candidates.push(OverlayCandidate {
            admission_state: optional(item, "admission_state")?,
            cluster: required(item, "cluster")?,
            fresh,
            kind: required(item, "kind")?,
            name: required(item, "name")?,
            rank,
            selection_tier: optional(item, "selection_tier")?,
            site: required(item, "site")?,
            stable_id: optional(item, "stable_id")?,
        });
    }
    Ok(OverlayDocument {
        local_site: required(&value, "local_site")?,
        candidates,
        generated_at: optional(&value, "generated_at")?,
    })
}

fn from_overlay(content: &[u8]) -> Result<RouteSnapshot, String> {
    RouteSnapshot::from_overlay(content, decode(content)).map_err(|e| e.message())
}

/// The snapshot in use after a file with `content` was read again.
fn reload(content: &[u8], current: RouteSnapshot) -> RouteSnapshot {
    reload_read(Ok(content.to_vec()), current)
}

fn reload_read(read: Result<Vec<u8>, String>, current: RouteSnapshot) -> RouteSnapshot {
    let parsed = match &read {
        Ok(content) => decode(content),
        Err(reason) => Err(reason.clone()),
    };
    match handle_overlay_reload(read, parsed, &current) {
        Reload::Swapped(snapshot) => snapshot,
        _ => current,
    }
}

fn make_overlay_json(local_site: &str, model: &str, cluster: &str) -> String {
    format!(
        r#"{{"local_site":"{local_site}","candidates":[{{"kind":"inference_model","name":"{model}","site":"{local_site}","cluster":"{cluster}","fresh":true}}]}}"#,
    )
}

fn make_valid_snapshot() -> (RouteSnapshot, [u8; 32]) {
    let json = make_overlay_json("site-a", "llama-3", "local");
    let snap = from_overlay(json.as_bytes()).unwrap();
    let hash = snap.content_hash;
    (snap, hash)
}

#[test]
fn parse_overlay_unknown_kind_rejected() {
    let json = r#"{
        "local_site": "site-a",
        "candidates": [{
            "kind": "unknown_type",
            "name": "foo",
            "site": "site-a",
            "cluster": "local",
            "fresh": true
        }]
    }"#;
    let result = from_overlay(json.as_bytes());
    assert!(result.is_err(), "unknown kind should be rejected");
}

#[test]
fn parse_overlay_empty_candidates() {
    let json = r#"{
        "local_site": "site-a",
        "candidates": []
    }"#;
    let result = from_overlay(json.as_bytes());
    assert!(result.is_err(), "empty candidates should be rejected");
}

#[test]
fn snapshot_from_grid_produced_overlay() {
    let json = r#"{
        "local_site": "us-east-1",
        "candidates": [{
            "kind": "inference_model",
            "name": "llama-3-70b",
            "site": "us-east-1",
            "cluster": "gpu-pool-a",
            "fresh": true,
            "stable_id": "cand-abc123",
            "admission_state": "new_and_existing",
            "selection_tier": "same_site",
            "rank": 0,
            "generated_at": "2026-07-24T12:00:00Z",
            "credential": {
                "strategy": "bearer_token",
                "secretRef": {
                    "name": "provider-token",
                    "namespace": "grid-system",
                    "key": "token"
                }
            }
        }]
    }"#;
    let snap = from_overlay(json.as_bytes()).unwrap();
    assert_eq!(snap.candidates.len(), 1);
    assert_eq!(snap.candidates[0].name, "llama-3-70b");
    assert_eq!(snap.local_site, "us-east-1");
}

#[test]
fn parse_overlay_with_all_metadata_fields() {
    let json = r#"{
        "local_site": "site-a",
        "generated_at": "2026-07-24T10:00:00Z",
        "candidates": [{
            "kind": "inference_model",
            "name": "llama-3",
            "site": "site-a",
            "cluster": "gpu-pool",
            "fresh": true,
            "stable_id": "inf/llama-3/site-a/gpu-pool",
            "admission_state": "new_and_existing",
            "selection_tier": "same_site",
            "rank": 0
        }]
    }"#;
    let snap = from_overlay(json.as_bytes()).unwrap();
    let c = &snap.candidates[0];
    assert_eq!(c.stable_id, "inf/llama-3/site-a/gpu-pool");
    assert_eq!(c.admission_state, AdmissionState::NewAndExisting);
    assert_eq!(c.selection_tier.as_deref(), Some("same_site"));
    assert_eq!(c.rank, Some(0));
}

#[test]
fn parse_overlay_defaults_missing_admission_state() {
    let json = r#"{
        "local_site": "site-a",
        "candidates": [{
            "kind": "inference_model",
            "name": "m",
            "site": "s",
            "cluster": "c",
            "fresh": true
        }]
    }"#;
    let snap = from_overlay(json.as_bytes()).unwrap();
    assert_eq!(snap.candidates[0].admission_state, AdmissionState::NewAndExisting);
}

#[test]
fn parse_overlay_admission_state_none_is_excluded() {
    let json = r#"{
        "local_site": "site-a",
        "candidates": [{
            "kind": "inference_model",
            "name": "m",
            "site": "s",
            "cluster": "c",
            "fresh": true,
            "admission_state": "none"
        }]
    }"#;
    let snap = from_overlay(json.as_bytes()).unwrap();
    assert_eq!(snap.candidates[0].admission_state, AdmissionState::Excluded);
}

#[test]
fn parse_overlay_unknown_admission_state_defaults() {
    let json = r#"{
        "local_site": "site-a",
        "candidates": [{
            "kind": "inference_model",
            "name": "m",
            "site": "s",
            "cluster": "c",
            "fresh": true,
            "admission_state": "future_state_v2"
        }]
    }"#;
    let snap = from_overlay(json.as_bytes()).unwrap();
    assert_eq!(
        snap.candidates[0].admission_state,
        AdmissionState::NewAndExisting,
        "unknown admission state should default to NewAndExisting for forward compatibility"
    );
}

#[test]
fn parse_overlay_stable_id_fallback() {
    let json = r#"{
        "local_site": "site-a",
        "candidates": [{
            "kind": "inference_model",
            "name": "llama",
            "site": "site-a",
            "cluster": "gpu",
            "fresh": true
        }]
    }"#;
    let snap = from_overlay(json.as_bytes()).unwrap();
    assert_eq!(
        snap.candidates[0].stable_id, "inference_model/llama/site-a/gpu",
        "absent stable_id should use deterministic default"
    );
}

#[test]
fn parse_overlay_existing_only_admission() {
    let json = r#"{
        "local_site": "site-a",
        "candidates": [{
            "kind": "inference_model",
            "name": "m",
            "site": "s",
            "cluster": "c",
            "fresh": true,
            "admission_state": "existing_only"
        }]
    }"#;
    let snap = from_overlay(json.as_bytes()).unwrap();
    assert_eq!(snap.candidates[0].admission_state, AdmissionState::ExistingOnly);
}

#[test]
fn parse_overlay_unknown_fields_still_accepted() {
    let json = r#"{
        "local_site": "site-a",
        "candidates": [{
            "kind": "inference_model",
            "name": "m",
            "site": "s",
            "cluster": "c",
            "fresh": true,
            "future_field": "anything",
            "another_future": 42
        }]
    }"#;
    let snap = from_overlay(json.as_bytes());
    assert!(snap.is_ok(), "unknown fields on candidates must still be accepted");
}

#[test]
fn snapshot_from_overlay_valid() {
    let json = r#"{
        "local_site": "site-a",
        "candidates": [{
            "kind": "inference_model",
            "name": "llama-3",
            "site": "site-a",
            "cluster": "local-inference",
            "fresh": true
        }]
    }"#;
    let snap = from_overlay(json.as_bytes()).unwrap();
    assert_eq!(snap.candidates.len(), 1);
    assert_eq!(snap.local_site, "site-a");
    assert_ne!(snap.content_hash, [0; 32]);
}

#[test]
fn snapshot_from_overlay_invalid_json() {
    let result = from_overlay(b"not json at all");
    assert!(result.is_err());
}

#[test]
fn snapshot_content_hash_deterministic() {
    let json = br#"{"local_site":"a","candidates":[{"kind":"inference_model","name":"m","site":"s","cluster":"c","fresh":true}]}"#;
    let s1 = from_overlay(json).unwrap();
    let s2 = from_overlay(json).unwrap();
    assert_eq!(s1.content_hash, s2.content_hash);
}

#[test]
fn snapshot_content_hash_differs() {
    let json_a = br#"{"local_site":"a","candidates":[{"kind":"inference_model","name":"m","site":"s","cluster":"c","fresh":true}]}"#;
    let json_b = br#"{"local_site":"b","candidates":[{"kind":"inference_model","name":"m","site":"s","cluster":"c","fresh":true}]}"#;
    let s1 = from_overlay(json_a).unwrap();
    let s2 = from_overlay(json_b).unwrap();
    assert_ne!(s1.content_hash, s2.content_hash);
}

#[test]
fn snapshot_from_static_zero_hash() {
    let snap = RouteSnapshot::from_static(vec![], "site-a".to_owned());
    assert_eq!(snap.content_hash, [0; 32]);
}

#[test]
fn watch_dir_for_path_bare_filename() {
    assert_eq!(
        watch_dir_for_path("grid-config.json"),
        ".",
        "bare filename should resolve to current directory"
    );
}

#[test]
fn watch_dir_for_path_with_directory() {
    assert_eq!(
        watch_dir_for_path("/etc/grid/grid-config.json"),
        "/etc/grid",
        "absolute path should use its parent directory"
    );
}

// ---- Bounded read ----

#[test]
fn read_bounded_rejects_oversized_file() {
    let content = vec![b'x'; (MAX_OVERLAY_SIZE + 1) as usize];
    let result = read_overlay_bounded(Ok(content));
    assert!(result.is_err(), "oversized file must be rejected");
    let reason = result.unwrap_err();
    assert!(reason.contains("exceeds"));
    assert_eq!(reason, "overlay file exceeds 2097152 byte limit");
}

#[test]
fn read_bounded_accepts_within_limit() {
    let json = make_overlay_json("site-a", "llama-3", "local");
    let result = read_overlay_bounded(Ok(json.clone().into_bytes()));
    assert!(result.is_ok());
    assert_eq!(result.unwrap(), json.as_bytes());
}

#[test]
fn read_bounded_missing_file() {
    let result = read_overlay_bounded(Err("No such file or directory (os error 2)".to_owned()));
    assert_eq!(result, Err("No such file or directory (os error 2)".to_owned()));
}

#[test]
fn read_bounded_accepts_exactly_the_limit() {
    let content = vec![b'x'; MAX_OVERLAY_SIZE as usize];
    assert_eq!(read_overlay_bounded(Ok(content.clone())), Ok(content.clone()));
    assert_eq!(read_overlay(Ok(content.clone())), Some(content));
    assert_eq!(read_overlay(Err("gone".to_owned())), None);
}

// ---- Last-known-good retention ----

#[test]
fn retain_on_read_failure() {
    let (snap, hash) = make_valid_snapshot();
    let snap = reload_read(Err("No such file or directory (os error 2)".to_owned()), snap);
    assert_eq!(snap.content_hash, hash);
}

#[test]
fn retain_on_empty_file() {
    let (snap, hash) = make_valid_snapshot();
    assert_eq!(reload(b"", snap).content_hash, hash);
}

#[test]
fn retain_on_malformed_json() {
    let (snap, hash) = make_valid_snapshot();
    assert_eq!(reload(b"{{not json}}", snap).content_hash, hash);
}

#[test]
fn retain_on_blank_local_site() {
    let json = r#"{"local_site":"","candidates":[{"kind":"inference_model","name":"m","site":"s","cluster":"c","fresh":true}]}"#;
    let (snap, hash) = make_valid_snapshot();
    assert_eq!(reload(json.as_bytes(), snap).content_hash, hash);
}

#[test]
fn retain_on_empty_candidates() {
    let (snap, hash) = make_valid_snapshot();
    assert_eq!(reload(br#"{"local_site":"a","candidates":[]}"#, snap).content_hash, hash);
}

#[test]
fn retain_on_unknown_kind() {
    let json =
        r#"{"local_site":"a","candidates":[{"kind":"bad_kind","name":"m","site":"s","cluster":"c","fresh":true}]}"#;
    let (snap, hash) = make_valid_snapshot();
    assert_eq!(reload(json.as_bytes(), snap).content_hash, hash);
}

#[test]
fn retain_on_oversized_reload() {
    let content = vec![b'x'; (MAX_OVERLAY_SIZE + 1) as usize];
    let (snap, hash) = make_valid_snapshot();
    assert_eq!(reload(&content, snap).content_hash, hash);
}

#[test]
fn reload_tells_what_it_came_to() {
    let (snap, _) = make_valid_snapshot();
    let same = make_overlay_json("site-a", "llama-3", "local").into_bytes();
    let parsed = decode(&same);
    assert!(is_unchanged(&same, &snap));
    assert!(!is_unchanged(b"", &snap));
    assert!(matches!(handle_overlay_reload(Ok(same), parsed, &snap), Reload::Unchanged));
    assert!(matches!(
        handle_overlay_reload(Err("gone".to_owned()), Err("unused".to_owned()), &snap),
        Reload::Unreadable(reason) if reason == "gone"
    ));
    assert!(matches!(
        handle_overlay_reload(Ok(b"{".to_vec()), Err("EOF while parsing".to_owned()), &snap),
        Reload::Invalid(e) if e.message() == "grid: overlay parse error: EOF while parsing"
    ));
}

#[test]
fn reloading_twice_changes_nothing_more() {
    let (snap, _) = make_valid_snapshot();
    let json = make_overlay_json("site-b", "gpt-4", "api-provider");
    let once = reload(json.as_bytes(), snap);
    assert_eq!(once.local_site, "site-b");
    let parsed = decode(json.as_bytes());
    assert!(matches!(
        handle_overlay_reload(Ok(json.into_bytes()), parsed, &once),
        Reload::Unchanged
    ));
}

#[test]
fn content_hash_is_sha256_of_the_file() {
    let parsed = decode(make_overlay_json("a", "m", "c").as_bytes());
    let snap = RouteSnapshot::from_overlay(b"abc", parsed).unwrap();
    assert_eq!(snap.content_hash[..4], [0xba, 0x78, 0x16, 0xbf]);
    assert_eq!(snap.content_hash[28..], [0xf2, 0x00, 0x15, 0xad]);
}

#[test]
fn overlay_order_and_metadata_are_kept() {
    let json = r#"{"local_site":"a","generated_at":"now","candidates":[
        {"kind":"mcp_tool","name":"t","site":"x","cluster":"c1","rank":7,"fresh":false},
        {"kind":"inference_model","name":"m","site":"y","cluster":"c2","selection_tier":"same_region"}]}"#;
    let snap = from_overlay(json.as_bytes()).unwrap();
    assert_eq!(snap.generated_at.as_deref(), Some("now"));
    assert_eq!(snap.candidates.len(), 2);
    assert_eq!(snap.candidates[0].kind.as_str(), "mcp_tool");
    assert_eq!(snap.candidates[0].rank, Some(7));
    assert!(!snap.candidates[0].fresh);
    assert_eq!(snap.candidates[0].selection_tier, None);
    assert_eq!(snap.candidates[0].stable_id, "mcp_tool/t/x/c1");
    assert_eq!(snap.candidates[1].cluster, "c2");
    assert_eq!(snap.candidates[1].rank, None);
    assert!(snap.candidates[1].fresh);
    assert_eq!(snap.candidates[1].selection_tier.as_deref(), Some("same_region"));
}

#[test]
fn first_fault_of_an_overlay_is_reported() {
    let unknown = r#"{"local_site":"a","candidates":[
        {"kind":"inference_model","name":" ","site":"s","cluster":"c"},
        {"kind":"other","name":"m","site":"s","cluster":"c"}]}"#;
    assert_eq!(
        from_overlay(unknown.as_bytes()).unwrap_err(),
        "grid: unknown candidate kind: other"
    );
    let blank = r#"{"local_site":"a","candidates":[
        {"kind":"inference_model","name":"m","site":"\t","cluster":"c"},
        {"kind":"inference_model","name":"","site":"s","cluster":"c"}]}"#;
    assert_eq!(
        from_overlay(blank.as_bytes()).unwrap_err(),
        "grid: candidate site must be non-blank"
    );
    let no_cluster = r#"{"local_site":"a","candidates":[
        {"kind":"inference_model","name":"m","site":"s","cluster":"　"}]}"#;
    assert_eq!(
        from_overlay(no_cluster.as_bytes()).unwrap_err(),
        "grid: candidate cluster must be non-blank"
    );
}

// ---- Watching ----

/// Take `events` in turn, reading `files` whenever the watcher asks for it.
fn watch(events: &[WatchEvent], files: &[String], current: RouteSnapshot) -> (WatchState, usize, RouteSnapshot) {
    let mut state = WatchState::Starting;
    let mut reads = 0;
    let mut snapshot = current;
    for event in events {
        let (next, action) = watch_step(state, *event, DEFAULT_DEBOUNCE_MS);
        state = next;
        if action == WatchAction::Reload || action == WatchAction::DrainAndReload {
            snapshot = reload(files[reads].as_bytes(), snapshot);
            reads += 1;
        }
    }
    (state, reads, snapshot)
}

#[test]
fn watcher_starts_and_stops() {
    let json = make_overlay_json("site-a", "llama-3", "local");
    let snap = from_overlay(json.as_bytes()).unwrap();
    let (state, reads, _) = watch(&[WatchEvent::Registered], &[json.clone()], snap);
    assert_eq!((state, reads), (WatchState::Idle, 1));
    assert_eq!(
        watch_step(state, WatchEvent::Shutdown, DEFAULT_DEBOUNCE_MS),
        (WatchState::Stopped, WatchAction::Exit)
    );
    assert_eq!(join_step(true, 0), JoinStep::Join);
    assert_eq!(join_step(false, 0), JoinStep::Wait(JOIN_POLL_MS));
    assert_eq!(join_step(false, JOIN_TIMEOUT_MS - 1), JoinStep::Wait(5));
    assert_eq!(join_step(false, JOIN_TIMEOUT_MS), JoinStep::Detach);
    assert_eq!(join_step(true, JOIN_TIMEOUT_MS), JoinStep::Join);
}

#[test]
fn watcher_catches_change_before_registration() {
    let json_v1 = make_overlay_json("site-a", "llama-3", "cluster-v1");
    let json_v2 = make_overlay_json("site-a", "gpt-4", "cluster-v2");
    let initial = from_overlay(json_v1.as_bytes()).unwrap();
    let v2_hash = from_overlay(json_v2.as_bytes()).unwrap().content_hash;
    let (_, _, snap) = watch(&[WatchEvent::Registered], &[json_v2], initial);
    assert_eq!(snap.content_hash, v2_hash);
    assert_eq!(
        snap.candidates[0].name, "gpt-4",
        "watcher should catch the change that happened before registration"
    );
}

#[test]
fn watcher_detects_file_change() {
    let json_v1 = make_overlay_json("site-a", "llama-3", "local");
    let json_v2 = make_overlay_json("site-a", "gpt-4", "api-provider");
    let initial = from_overlay(json_v1.as_bytes()).unwrap();
    let old_hash = initial.content_hash;
    let (_, reads, loaded) = watch(
        &[WatchEvent::Registered, WatchEvent::Changed, WatchEvent::WaitOver],
        &[json_v1, json_v2],
        initial,
    );
    assert_eq!(reads, 2);
    assert_ne!(loaded.content_hash, old_hash, "snapshot should be swapped after file change");
    assert_eq!(loaded.candidates.len(), 1);
    assert_eq!(loaded.candidates[0].name, "gpt-4");
}

#[test]
fn watcher_skips_unchanged_content() {
    let json = make_overlay_json("site-a", "llama-3", "local");
    let initial = from_overlay(json.as_bytes()).unwrap();
    let parsed = decode(json.as_bytes());
    assert!(matches!(
        handle_overlay_reload(Ok(json.into_bytes()), parsed, &initial),
        Reload::Unchanged
    ));
}

#[test]
fn watcher_survives_invalid_json() {
    let json_v1 = make_overlay_json("site-a", "llama-3", "local");
    let json_v2 = make_overlay_json("site-a", "gpt-4", "api-provider");
    let initial = from_overlay(json_v1.as_bytes()).unwrap();
    let old_hash = initial.content_hash;
    let invalid = "invalid json {{{{".to_owned();
    let events = [
        WatchEvent::Registered,
        WatchEvent::Changed,
        WatchEvent::WaitOver,
        WatchEvent::Changed,
        WatchEvent::WaitOver,
    ];
    let files = [json_v1, invalid, json_v2];
    let (_, reads, kept) = watch(&events[..3], &files, initial);
    assert_eq!(reads, 2);
    assert_eq!(kept.content_hash, old_hash, "snapshot should be retained after invalid JSON");
    let again = from_overlay(files[0].as_bytes()).unwrap();
    let (state, reads, loaded) = watch(&events, &files, again);
    assert_eq!((state, reads), (WatchState::Idle, 3));
    assert_ne!(loaded.content_hash, old_hash, "snapshot should recover after valid JSON");
    assert_eq!(loaded.candidates[0].name, "gpt-4");
}

#[test]
fn changes_in_a_row_are_read_once() {
    let json = make_overlay_json("site-a", "llama-3", "local");
    let snap = from_overlay(json.as_bytes()).unwrap();
    let events = [
        WatchEvent::Registered,
        WatchEvent::Changed,
        WatchEvent::Changed,
        WatchEvent::Changed,
        WatchEvent::WaitOver,
    ];
    let (state, reads, _) = watch(&events, &[json.clone(), json], snap);
    assert_eq!((state, reads), (WatchState::Idle, 2));
    assert_eq!(
        watch_step(WatchState::Idle, WatchEvent::Changed, 750),
        (WatchState::Debouncing, WatchAction::Wait(750))
    );
}

#[test]
fn shutdown_while_waiting_reads_nothing() {
    let json = make_overlay_json("site-a", "llama-3", "local");
    let snap = from_overlay(json.as_bytes()).unwrap();
    let events = [
        WatchEvent::Registered,
        WatchEvent::Changed,
        WatchEvent::Shutdown,
        WatchEvent::WaitOver,
        WatchEvent::Changed,
    ];
    let (state, reads, _) = watch(&events, &[json], snap);
    assert_eq!((state, reads), (WatchState::Stopped, 1));
    assert_eq!(
        watch_step(WatchState::Starting, WatchEvent::RegistrationFailed, 1),
        (WatchState::Stopped, WatchAction::Exit)
    );
}

// ---- Event kinds ----

#[test]
fn is_relevant_event_create() {
    assert!(is_relevant_event(EventKind::Create), "Create events should be relevant");
}

#[test]
fn is_relevant_event_modify_name() {
    assert!(
        is_relevant_event(EventKind::Modify),
        "Modify(Name) events should be relevant (covers renames)"
    );
}

#[test]
fn is_relevant_event_remove() {
    assert!(is_relevant_event(EventKind::Remove), "Remove events should be relevant");
}

#[test]
fn is_relevant_event_access_not_relevant() {
    assert!(!is_relevant_event(EventKind::Access), "Access events should not be relevant");
    assert!(!is_relevant_event(EventKind::Any));
    assert!(!is_relevant_event(EventKind::Other));
}

#[test]
fn watch_dir_of_other_paths() {
    assert_eq!(watch_dir_for_path(""), ".");
    assert_eq!(watch_dir_for_path("/"), ".");
    assert_eq!(watch_dir_for_path("/grid-config.json"), "/");
    assert_eq!(watch_dir_for_path("conf/grid/x.json"), "conf/grid");
    assert_eq!(watch_dir_for_path("../x.json"), "..");
    assert_eq!(watch_dir_for_path("./overlay.json"), ".");
    assert_eq!(watch_dir_for_path("a/../x"), "a/..");
    assert_eq!(watch_dir_for_path("v1./x"), "v1.");
    assert_eq!(watch_dir_for_path("a/.."), "a");
    assert_eq!(watch_dir_for_path("/etc/app:1/grid.json"), "/etc/app:1");
    assert_eq!(watch_dir_for_path("conf/grid:2.json"), "conf");
    assert_eq!(watch_dir_for_path("."), ".");
    assert_eq!(watch_dir_for_path("x/"), ".");
    for path in ["a/b//x", "a/b/./x", "a/b/x/", "a/b/x/.", "a//b/./x"] {
        assert_eq!(Path::new(&watch_dir_for_path(path)), Path::new("a/b"), "{path}");
    }
    assert_eq!(Path::new(&watch_dir_for_path("/./x")), Path::new("/"));
    assert_eq!(watch_dir_for_parent(None), ".");
    assert_eq!(watch_dir_for_parent(Some(String::new())), ".");
    assert_eq!(watch_dir_for_parent(Some("conf".to_owned())), "conf");
}
