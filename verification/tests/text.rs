//! Text, digests and capability names.
use praxis_ai::grid::descriptor::{
    validate_candidates, validate_local_site, validate_model_header, AdmissionState,
    CandidateConfig, CapabilityKind,
};
use praxis_ai::hash::hex;
use praxis_ai::secret::Secret;
use praxis_ai::text::{blank, byte_len, decimal, joined, same_bytes, same_text};

#[test]
fn blank_texts_show_nothing() {
    assert!(blank(""));
    assert!(blank(" \t\r\n\u{b}\u{c}\u{85}\u{a0}\u{1680}\u{2000}\u{200a}\u{2028}\u{2029}\u{202f}\u{205f}\u{3000}"));
    assert!(!blank(" a "));
    assert!(!blank("\u{200b}"));
    assert!(!blank("\0"));
}

#[test]
fn lengths_are_in_bytes() {
    assert_eq!(byte_len(""), 0);
    assert_eq!(byte_len("aé€😀"), 10);
}

#[test]
fn numbers_are_written_in_decimal() {
    assert_eq!(decimal(0), "0");
    assert_eq!(decimal(10), "10");
    assert_eq!(decimal(1029384756), "1029384756");
    assert_eq!(decimal(u64::MAX), u64::MAX.to_string());
}

#[test]
fn bytes_are_written_in_hexadecimal() {
    assert_eq!(hex(&[]), "");
    assert_eq!(hex(&[0x00, 0x0f, 0xa0, 0xff]), "000fa0ff");
}

#[test]
fn texts_are_compared_as_they_are() {
    assert!(same_text("é", "é"));
    assert!(!same_text("e\u{301}", "é"));
    assert!(!same_text("a", "ab"));
    assert!(same_bytes(b"ab", b"ab"));
    assert!(!same_bytes(b"ab", b"ac"));
    assert_eq!(joined("a", "b"), "ab");
}

#[test]
fn secrets_keep_their_text() {
    assert_eq!(Secret::new("tok\u{e9}n".to_owned()).text(), "tokén");
}

#[test]
fn kinds_are_found_by_name() {
    for kind in [CapabilityKind::InferenceModel, CapabilityKind::McpTool] {
        assert_eq!(CapabilityKind::from_overlay_str(kind.as_str()).ok(), Some(kind));
    }
    assert_eq!(
        CapabilityKind::from_overlay_str("MCP_TOOL").unwrap_err().message(),
        "grid: unknown candidate kind: MCP_TOOL"
    );
    assert_eq!(AdmissionState::from_overlay_str("new_and_existing"), AdmissionState::NewAndExisting);
    assert_eq!(AdmissionState::from_overlay_str("existing_only"), AdmissionState::ExistingOnly);
    assert_eq!(AdmissionState::from_overlay_str("none"), AdmissionState::Excluded);
    assert_eq!(AdmissionState::from_overlay_str("None"), AdmissionState::NewAndExisting);
}

#[test]
fn names_of_sites_and_headers_are_checked() {
    assert!(validate_local_site("site-a").is_ok());
    assert_eq!(validate_local_site("\n").unwrap_err().message(), "grid: local_site must be non-blank");
    assert_eq!(validate_model_header("X-Model").ok().as_deref(), Some("x-model"));
    assert!(validate_model_header("x model").is_err());
    assert!(validate_model_header("modèle").is_err());
    assert_eq!(
        validate_candidates(Vec::new()).unwrap_err().message(),
        "grid: candidates must not be empty"
    );
    let nameless = CandidateConfig {
        cluster: "c".to_owned(),
        fresh: true,
        kind: CapabilityKind::McpTool,
        name: " ".to_owned(),
        site: "s".to_owned(),
    };
    assert_eq!(
        validate_candidates(vec![nameless]).unwrap_err().message(),
        "grid: candidate name must be non-blank"
    );
}
