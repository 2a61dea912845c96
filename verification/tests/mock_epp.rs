//! The endpoint picker.
use praxis_ai::mock_epp::{
    body_continue_response, headers_response, model_response, parse_route, request_model,
    route_response, route_responses, BodyReader, HeaderAction, Message, ProcessingResponse, Routes,
};

fn routes(list: &[(&str, &str)]) -> Routes {
    Routes::from_list(list.iter().map(|(m, e)| ((*m).to_owned(), (*e).to_owned())).collect())
}

/// The endpoint that an answer sends to.
fn endpoint(response: &ProcessingResponse) -> Option<String> {
    match response {
        ProcessingResponse::RequestHeaders(Some(mutation)) => {
            assert_eq!(mutation.key, "x-gateway-destination-endpoint");
            assert_eq!(mutation.append_action, HeaderAction::OverwriteIfExistsOrAdd);
            Some(String::from_utf8(mutation.raw_value.clone()).unwrap())
        },
        ProcessingResponse::RequestHeaders(None) => None,
        ProcessingResponse::RequestBody => panic!("expected an answer on the headers"),
    }
}

#[test]
fn routes_are_split_at_the_first_equals_sign() {
    let read = |raw: &str| parse_route(raw).unwrap();
    assert_eq!(read("llama=10.0.0.1:8000"), ("llama".to_owned(), "10.0.0.1:8000".to_owned()));
    assert_eq!(read("m=a=b"), ("m".to_owned(), "a=b".to_owned()));
    assert_eq!(read("é=ü"), ("é".to_owned(), "ü".to_owned()));
}

#[test]
fn bad_routes_are_named() {
    assert_eq!(parse_route("llama"), Err("expected model=endpoint, got: llama".to_owned()));
    assert_eq!(parse_route(""), Err("expected model=endpoint, got: ".to_owned()));
    assert_eq!(parse_route("=e"), Err("model and endpoint must be non-empty: =e".to_owned()));
    assert_eq!(parse_route("m="), Err("model and endpoint must be non-empty: m=".to_owned()));
    assert_eq!(parse_route("="), Err("model and endpoint must be non-empty: =".to_owned()));
}

#[test]
fn last_route_of_a_model_counts() {
    let r = routes(&[("a", "one"), ("b", "two"), ("a", "three")]);
    assert_eq!(r.len(), 2);
    assert_eq!(r.get("a"), Some("three"));
    assert_eq!(r.get("b"), Some("two"));
    assert_eq!(r.get("c"), None);
}

#[test]
fn model_is_a_text_member_of_the_body() {
    assert_eq!(request_model(br#"{"model":"llama","stream":true}"#), Some("llama".to_owned()));
    assert_eq!(request_model(br#"{"model":7}"#), None);
    assert_eq!(request_model(br#"{"other":{"model":"llama"}}"#), None);
    assert_eq!(request_model(br#"["model"]"#), None);
    assert_eq!(request_model(b"model"), None);
    assert_eq!(request_model(b""), None);
}

#[test]
fn requests_go_to_the_endpoint_of_their_model() {
    let r = routes(&[("llama", "10.0.0.1:8000")]);
    assert_eq!(endpoint(&route_response(br#"{"model":"llama"}"#, &r)).as_deref(), Some("10.0.0.1:8000"));
    assert_eq!(endpoint(&route_response(br#"{"model":"gpt"}"#, &r)), None);
    assert_eq!(endpoint(&route_response(b"{}", &r)), None);
    assert_eq!(endpoint(&model_response(Some("llama".to_owned()), &r)).as_deref(), Some("10.0.0.1:8000"));
    assert_eq!(endpoint(&model_response(None, &r)), None);
    assert_eq!(endpoint(&headers_response(Some("e"))).as_deref(), Some("e"));
}

#[test]
fn headers_are_answered_before_the_body() {
    let r = routes(&[("llama", "e")]);
    let answers = route_responses(br#"{"model":"llama"}"#, &r);
    assert_eq!(answers.len(), 2);
    assert_eq!(endpoint(&answers[0]).as_deref(), Some("e"));
    assert!(matches!(answers[1], ProcessingResponse::RequestBody));
    assert!(matches!(body_continue_response(), ProcessingResponse::RequestBody));
}

#[test]
fn body_is_read_up_to_its_last_part() {
    let part = |body: &[u8], end_of_stream: bool| Message::RequestBody { body: body.to_vec(), end_of_stream };
    let mut reader = BodyReader::new();
    for message in [Message::RequestHeaders, part(b"ab", false), Message::Other, Message::Empty] {
        reader.receive(&message);
        assert!(!reader.complete);
    }
    reader.receive(&part(b"c", true));
    assert!(reader.complete && reader.saw_headers);
    reader.receive(&part(b"d", true));
    assert_eq!(reader.body, b"abc");
    assert_eq!(reader.finish().as_deref(), Some(b"abc".as_slice()));
    let mut bare = BodyReader::new();
    bare.receive(&part(b"", true));
    assert!(bare.complete && !bare.saw_headers);
    assert!(bare.body.is_empty());
    assert_eq!(bare.finish(), Some(Vec::new()));
}

#[test]
fn unfinished_bodies_are_not_given() {
    assert_eq!(BodyReader::new().finish(), None);
    let mut reader = BodyReader::new();
    reader.receive(&Message::RequestHeaders);
    reader.receive(&Message::RequestBody { body: b"ab".to_vec(), end_of_stream: false });
    assert_eq!(reader.finish(), None);
}
