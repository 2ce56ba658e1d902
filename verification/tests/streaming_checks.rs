use llamamanager::probe_router::{
    child_port_from_args, child_slot_state, router_child_from_listing, ChildSlotState, PortValue,
};
use llamamanager::server_readiness::ServerEndpoint;
use llamamanager::streaming_probe::{
    build_completion_request, build_get_request, check_stream_size, classify_sse_line,
    consume_sse_lines, control_read_step, find_bytes, finish_control_response, flush_sse_tail,
    parse_status_code, router_model_from_listing, router_slot_status, stream_head,
    validate_api_key, SseLine, SseScan, StreamingInferenceProbeError, MAX_CONTROL_BYTES,
    MAX_STREAM_BYTES,
};

fn empty_scan() -> SseScan {
    SseScan { event_count: 0, first_token: false, final_event: None }
}

#[test]
fn router_listing_picks_the_serving_model() {
    let body = br#"{"data":[{"id":"a","status":{"value":"loaded"}},{"id":"b","status":{"value":"unloaded"}}]}"#;
    assert_eq!(router_model_from_listing(200, body), Ok(Some("a".into())));
    assert_eq!(router_model_from_listing(404, b""), Ok(None));
    assert_eq!(
        router_model_from_listing(500, b""),
        Err(StreamingInferenceProbeError::HttpRejected { status_code: 500 })
    );
    assert_eq!(router_model_from_listing(200, b"not json"), Ok(None));
    assert_eq!(router_model_from_listing(200, br#"{"data":[{"id":"x"}]}"#), Ok(None));
    let none_loaded = br#"{"data":[{"id":"b","status":{"value":"unloaded"}}]}"#;
    assert_eq!(
        router_model_from_listing(200, none_loaded),
        Err(StreamingInferenceProbeError::NoLoadedRouterModel)
    );
    let two = br#"{"data":[{"id":"a","status":{"value":"loaded"}},{"id":"b","status":{"value":"sleeping"}}]}"#;
    assert_eq!(
        router_model_from_listing(200, two),
        Err(StreamingInferenceProbeError::AmbiguousRouterModels { count: 2 })
    );
}

#[test]
fn slot_statuses_are_classified() {
    assert_eq!(router_slot_status(200, "m"), Ok(()));
    assert_eq!(router_slot_status(404, "m"), Ok(()));
    assert_eq!(router_slot_status(503, "m"), Err(StreamingInferenceProbeError::Busy { model: "m".into() }));
    assert_eq!(router_slot_status(500, "m"), Err(StreamingInferenceProbeError::HttpRejected { status_code: 500 }));
}

#[test]
fn control_reads_stop_at_the_declared_length() {
    assert_eq!(control_read_step(b"HTTP/1.1 200 OK\r\n"), Ok(false));
    assert_eq!(control_read_step(b"HTTP/1.1 200 OK\r\nContent-Length: 4\r\n\r\nab"), Ok(false));
    assert_eq!(control_read_step(b"HTTP/1.1 200 OK\r\nContent-Length: 4\r\n\r\nabcd"), Ok(true));
    let huge = format!("HTTP/1.1 200 OK\r\nContent-Length: {}\r\n\r\n", MAX_CONTROL_BYTES);
    assert_eq!(
        control_read_step(huge.as_bytes()),
        Err(StreamingInferenceProbeError::ResponseTooLarge { limit: MAX_CONTROL_BYTES })
    );
}

#[test]
fn finished_control_reply_is_cut_to_its_length() {
    let r = finish_control_response(b"HTTP/1.1 200 OK\r\nContent-Length: 2\r\n\r\nabcd", "slots").unwrap();
    assert_eq!(r.status_code, 200);
    assert_eq!(r.body, b"ab".to_vec());
    assert_eq!(
        finish_control_response(b"HTTP/1.1 200 OK", "slots"),
        Err(StreamingInferenceProbeError::MissingHeaders)
    );
    assert_eq!(
        finish_control_response(b"HTTP/1.1 200 OK\r\nContent-Length: 9\r\n\r\nab", "slots"),
        Err(StreamingInferenceProbeError::Io {
            phase: "slots".into(),
            message: "response ended before declared Content-Length completed: received 40 of 47 bytes".into(),
        })
    );
    assert_eq!(
        finish_control_response(b"nonsense\r\n\r\n", "slots"),
        Err(StreamingInferenceProbeError::InvalidStatusLine)
    );
}

#[test]
fn status_line_and_search_helpers() {
    assert_eq!(parse_status_code(b"HTTP/1.1 204 No Content"), Ok(204));
    assert_eq!(parse_status_code(b"HTTP/1.1"), Err(StreamingInferenceProbeError::InvalidStatusLine));
    assert_eq!(find_bytes(b"abcabc", b"ca"), Some(2));
    assert_eq!(find_bytes(b"abc", b"x"), None);
}

#[test]
fn completion_request_names_the_model_when_routed() {
    let endpoint = ServerEndpoint::loopback(8080);
    let body = "{\"model\":\"m\",\"n_predict\":4,\"prompt\":\"Telemetry probe: reply OK\",\"stream\":true,\"temperature\":0}";
    assert_eq!(
        build_completion_request(&endpoint, Some("m")),
        format!(
            "POST /completion HTTP/1.1\r\nHost: 127.0.0.1:8080\r\nConnection: close\r\nAccept: text/event-stream\r\nContent-Type: application/json\r\nContent-Length: {}\r\n\r\n{}",
            body.len(),
            body
        )
    );
    assert!(build_completion_request(&endpoint, None).ends_with(
        "\r\n\r\n{\"n_predict\":4,\"prompt\":\"Telemetry probe: reply OK\",\"stream\":true,\"temperature\":0}"
    ));
}

#[test]
fn get_requests_carry_a_valid_key_only() {
    let mut endpoint = ServerEndpoint::loopback(1);
    endpoint.api_key = Some("abc".into());
    assert_eq!(validate_api_key(&endpoint), Ok(()));
    assert!(build_get_request(&endpoint, "/slots").contains("Authorization: Bearer abc\r\n"));
    endpoint.api_key = Some("a\nb".into());
    assert_eq!(validate_api_key(&endpoint), Err(StreamingInferenceProbeError::InvalidApiKey));
}

#[test]
fn event_lines_are_classified() {
    assert_eq!(classify_sse_line(b""), SseLine::Ignored);
    assert_eq!(classify_sse_line(b"data: [DONE]"), SseLine::Ignored);
    assert_eq!(classify_sse_line(b"data: {broken"), SseLine::Ignored);
    assert_eq!(
        classify_sse_line(b"data: {\"content\":\"O\"}\r"),
        SseLine::Event { has_token: true, is_final: false, payload: "{\"content\":\"O\"}".into() }
    );
    assert_eq!(
        classify_sse_line(b"data: {\"content\":\"\",\"timings\":{}}"),
        SseLine::Event { has_token: false, is_final: true, payload: "{\"content\":\"\",\"timings\":{}}".into() }
    );
}

#[test]
fn stream_scan_stops_after_the_final_event() {
    let mut pending = b"data: {\"content\":\"a\"}\n\ndata: {\"timings\":{}}\ndata: {\"content\":\"b\"}\npartial".to_vec();
    let mut scan = empty_scan();
    consume_sse_lines(&mut pending, &mut scan);
    assert_eq!(scan.event_count, 2);
    assert!(scan.first_token);
    assert_eq!(scan.final_event.as_deref(), Some("{\"timings\":{}}"));
    assert_eq!(pending, b"data: {\"content\":\"b\"}\npartial".to_vec());
}

#[test]
fn stream_tail_without_newline_is_read_at_the_end() {
    let mut pending = b"data: {\"timings\":{\"n\":1}}".to_vec();
    let mut scan = empty_scan();
    consume_sse_lines(&mut pending, &mut scan);
    assert_eq!(scan.final_event, None);
    flush_sse_tail(&mut pending, &mut scan);
    assert_eq!(scan.final_event.as_deref(), Some("{\"timings\":{\"n\":1}}"));
    let mut blank = b"  \r".to_vec();
    let mut untouched = empty_scan();
    flush_sse_tail(&mut blank, &mut untouched);
    assert_eq!(blank, b"  \r".to_vec());
    assert_eq!(untouched, empty_scan());
}

#[test]
fn stream_size_and_head_are_checked() {
    assert_eq!(check_stream_size(MAX_STREAM_BYTES), Ok(()));
    assert_eq!(
        check_stream_size(MAX_STREAM_BYTES + 1),
        Err(StreamingInferenceProbeError::ResponseTooLarge { limit: MAX_STREAM_BYTES })
    );
    assert_eq!(stream_head(b"HTTP/1.1 200 OK\r\n"), Ok(None));
    assert_eq!(stream_head(b"HTTP/1.1 200 OK\r\n\r\ndata"), Ok(Some((200, b"data".to_vec()))));
    assert_eq!(
        stream_head(b"HTTP/1.1 429 Too Many\r\n\r\n"),
        Err(StreamingInferenceProbeError::HttpRejected { status_code: 429 })
    );
}

#[test]
fn child_endpoint_is_read_from_a_loopback_router_listing() {
    let endpoint = ServerEndpoint {
        host: "localhost".into(),
        port: 8080,
        api_key: Some("k".into()),
        allow_non_loopback: false,
    };
    let body = br#"{"data":[{"id":"a","status":{"value":"loaded","args":["--port","9001"]}}]}"#;
    let (id, child) = router_child_from_listing(&endpoint, true, 200, body).unwrap().unwrap();
    assert_eq!(id, "a");
    assert_eq!(child.host, "127.0.0.1");
    assert_eq!(child.port, 9001);
    assert_eq!(child.api_key.as_deref(), Some("k"));
    assert_eq!(router_child_from_listing(&endpoint, false, 200, body), Ok(None));
    assert_eq!(router_child_from_listing(&endpoint, true, 500, body), Ok(None));
    assert!(router_child_from_listing(&endpoint, true, 200, b"{").is_err());
    let same_port = br#"{"data":[{"id":"a","status":{"value":"loaded","args":["--port","8080"]}}]}"#;
    assert_eq!(router_child_from_listing(&endpoint, true, 200, same_port), Ok(None));
}

#[test]
fn child_ports_and_slots_are_read() {
    let args = vec![PortValue::Text("--port".into()), PortValue::Text("9100".into())];
    assert_eq!(child_port_from_args(&args), Some(9100));
    let joined = vec![PortValue::Text("--port=9200".into())];
    assert_eq!(child_port_from_args(&joined), Some(9200));
    assert_eq!(child_slot_state(200), Ok(ChildSlotState::Available));
    assert_eq!(child_slot_state(503), Ok(ChildSlotState::Busy));
}

#[test]
fn api_key_header_injection_is_rejected_before_network_io() {
    let mut endpoint = ServerEndpoint::loopback(1);
    endpoint.api_key = Some("secret\r\nInjected: yes".into());
    assert_eq!(validate_api_key(&endpoint), Err(StreamingInferenceProbeError::InvalidApiKey));
}
