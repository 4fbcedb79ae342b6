use shadow_proxy::exchange::{
    client_reply, conclude_request, is_relayed_response_header, relayed_headers, ClientReply,
    Exchange,
};
use shadow_proxy::proxy::{
    body_preview, client_status, forwarded_headers, full_path, is_forwardable_header,
    plan_upstream_requests, request_info, target_url, ProxyResult, RequestInfo, ResponseInfo,
    ServerGroup, UpstreamOutcome, UpstreamRequest,
};
use shadow_proxy::summary::LogSummary;

fn response(server: &str, status: u16, elapsed_ms: u64, success: bool, body: &str) -> ResponseInfo {
    ResponseInfo {
        server: server.to_string(),
        status,
        elapsed_ms,
        success,
        error: if success { None } else { Some("failed".to_string()) },
        body_preview: body.to_string(),
    }
}

#[test]
fn test_response_info_success() {
    let info = ResponseInfo {
        server: "http://localhost:8080".to_string(),
        status: 200,
        elapsed_ms: 42,
        success: true,
        error: None,
        body_preview: "OK".to_string(),
    };

    assert!(info.success);
    assert!(info.error.is_none());
}

#[test]
fn test_response_info_error() {
    let info = ResponseInfo {
        server: "http://localhost:8080".to_string(),
        status: 0,
        elapsed_ms: 100,
        success: false,
        error: Some("Connection refused".to_string()),
        body_preview: String::new(),
    };

    assert!(!info.success);
    assert!(info.error.is_some());
}

#[test]
fn test_log_result_doesnt_panic() {
    let result = ProxyResult {
        timestamp: "2024-01-01T00:00:00Z".to_string(),
        request: RequestInfo {
            method: "GET".to_string(),
            path: "/test".to_string(),
            headers: vec![],
        },
        old_responses: vec![ResponseInfo {
            server: "http://localhost:8080".to_string(),
            status: 200,
            elapsed_ms: 10,
            success: true,
            error: None,
            body_preview: "OK".to_string(),
        }],
        new_responses: vec![ResponseInfo {
            server: "http://localhost:8082".to_string(),
            status: 200,
            elapsed_ms: 12,
            success: true,
            error: None,
            body_preview: "OK".to_string(),
        }],
    };

    let _summary = LogSummary::of(&result);
}

#[test]
fn summary_counts_only_successes() {
    let result = ProxyResult {
        timestamp: "t".to_string(),
        request: RequestInfo {
            method: "POST".to_string(),
            path: "/x".to_string(),
            headers: vec![],
        },
        old_responses: vec![
            response("a", 200, 5, true, ""),
            response("b", 0, 7, false, ""),
            response("c", 404, 9, true, ""),
        ],
        new_responses: vec![response("d", 500, 1, false, "")],
    };
    let s = LogSummary::of(&result);
    assert_eq!(s.old_success, 2);
    assert_eq!(s.old_total, 3);
    assert_eq!(s.new_success, 0);
    assert_eq!(s.new_total, 1);
    assert_eq!(s.old_statuses, vec![200, 404]);
    assert_eq!(s.old_times, vec![5, 9]);
    assert!(s.new_statuses.is_empty());
    assert!(s.new_times.is_empty());
}

#[test]
fn full_path_appends_non_empty_query() {
    assert_eq!(full_path("/api", None), "/api");
    assert_eq!(full_path("/api", Some("")), "/api");
    assert_eq!(full_path("/api", Some("a=1&b=2")), "/api?a=1&b=2");
}

#[test]
fn target_url_drops_trailing_slashes() {
    assert_eq!(target_url("http://a:1", "/p?q"), "http://a:1/p?q");
    assert_eq!(target_url("http://a:1/", "/p"), "http://a:1/p");
    assert_eq!(target_url("http://a:1///", "/"), "http://a:1/");
    assert_eq!(target_url("http://a:1", "/p"), target_url("http://a:1/", "/p"));
}

#[test]
fn hop_headers_are_not_forwarded() {
    assert!(!is_forwardable_header("host"));
    assert!(!is_forwardable_header("Host"));
    assert!(!is_forwardable_header("CONTENT-LENGTH"));
    assert!(!is_forwardable_header("transfer-encoding"));
    assert!(is_forwardable_header("accept"));
    assert!(is_forwardable_header("hosts"));
    assert!(is_forwardable_header("x-host"));
    for name in ["host", "HoSt", "Content-Length", "transfer-Encoding", "te", "\u{212a}ey"].iter() {
        let original = matches!(
            name.to_lowercase().as_str(),
            "host" | "content-length" | "transfer-encoding"
        );
        assert_eq!(is_forwardable_header(name), !original, "name {:?}", name);
    }
}

#[test]
fn forwarded_headers_filter_then_append() {
    let request = vec![
        ("host".to_string(), Some("proxy:8081".to_string())),
        ("accept".to_string(), Some("*/*".to_string())),
        ("x-binary".to_string(), None),
        ("content-length".to_string(), Some("3".to_string())),
        ("user-agent".to_string(), Some("curl".to_string())),
    ];
    let additional = vec![("x-shadow".to_string(), "1".to_string())];
    let out = forwarded_headers(&request, &additional);
    assert_eq!(
        out,
        vec![
            ("accept".to_string(), "*/*".to_string()),
            ("user-agent".to_string(), "curl".to_string()),
            ("x-shadow".to_string(), "1".to_string()),
        ]
    );
}

#[test]
fn request_info_logs_every_header() {
    let headers = vec![
        ("host".to_string(), Some("h".to_string())),
        ("x-binary".to_string(), None),
    ];
    let info = request_info("GET".to_string(), "/p?q".to_string(), &headers);
    assert_eq!(info.method, "GET");
    assert_eq!(info.path, "/p?q");
    assert_eq!(
        info.headers,
        vec![
            ("host".to_string(), "h".to_string()),
            ("x-binary".to_string(), String::new()),
        ]
    );
}

#[test]
fn body_preview_keeps_short_bodies() {
    assert_eq!(body_preview(String::new()), "");
    let exact = "a".repeat(1000);
    assert_eq!(body_preview(exact.clone()), exact);
}

#[test]
fn body_preview_truncates_long_bodies() {
    let long = "b".repeat(1001);
    let expected = format!("{}... (truncated)", &long[..1000]);
    assert_eq!(body_preview(long), expected);
    let mixed = format!("{}{}", "c".repeat(998), "éé".repeat(10));
    let expected = format!("{}... (truncated)", &mixed[..1000]);
    assert_eq!(body_preview(mixed), expected);
}

#[test]
fn body_preview_cuts_at_char_boundary() {
    let body = format!("{}é{}", "a".repeat(999), "b");
    assert_eq!(body.len(), 1002);
    assert_eq!(
        body_preview(body),
        format!("{}... (truncated)", "a".repeat(999))
    );
    let four = format!("{}{}", "z".repeat(998), "😀😀");
    assert_eq!(
        body_preview(four),
        format!("{}... (truncated)", "z".repeat(998))
    );
}

#[test]
fn completed_outcome_with_split_character_is_logged() {
    let info = ResponseInfo::from_outcome(
        "http://a",
        5,
        &UpstreamOutcome::Completed {
            status: 200,
            headers: vec![],
            text: format!("{}é{}", "a".repeat(999), "b"),
        },
    );
    assert!(info.success);
    assert!(info.error.is_none());
    assert!(info.body_preview.starts_with(&"a".repeat(999)));
    assert!(info.body_preview.ends_with("... (truncated)"));
    assert!(info.body_preview.len() <= 1000 + "... (truncated)".len());
}

#[test]
fn outcome_request_failed() {
    let info = ResponseInfo::from_outcome(
        "http://a",
        100,
        &UpstreamOutcome::RequestFailed {
            error: "Connection refused".to_string(),
        },
    );
    assert_eq!(info.server, "http://a");
    assert_eq!(info.status, 0);
    assert_eq!(info.elapsed_ms, 100);
    assert!(!info.success);
    assert_eq!(info.error.as_deref(), Some("Connection refused"));
    assert_eq!(info.body_preview, "");
}

#[test]
fn outcome_body_unreadable() {
    let info = ResponseInfo::from_outcome(
        "http://a",
        3,
        &UpstreamOutcome::BodyUnreadable {
            status: 200,
            error: "bad utf-8".to_string(),
        },
    );
    assert_eq!(info.status, 200);
    assert!(!info.success);
    assert_eq!(
        info.error.as_deref(),
        Some("Failed to read response body: bad utf-8")
    );
    assert_eq!(info.body_preview, "");
}

#[test]
fn outcome_completed() {
    let info = ResponseInfo::from_outcome(
        "http://a",
        12,
        &UpstreamOutcome::Completed {
            status: 201,
            headers: vec![],
            text: "x".repeat(1500),
        },
    );
    assert_eq!(info.status, 201);
    assert!(info.success);
    assert!(info.error.is_none());
    assert_eq!(info.body_preview, format!("{}... (truncated)", "x".repeat(1000)));
}

#[test]
fn client_status_maps_invalid_codes() {
    assert_eq!(client_status(200), 200);
    assert_eq!(client_status(100), 100);
    assert_eq!(client_status(999), 999);
    assert_eq!(client_status(99), 500);
    assert_eq!(client_status(0), 500);
    assert_eq!(client_status(1000), 500);
}

fn sample_config() -> shadow_proxy::ProxyConfig {
    shadow_proxy::ProxyConfig {
        address: shadow_proxy::default_proxy_addr(),
        old_servers: vec!["http://old1/".to_string(), "http://old2".to_string()],
        new_servers: vec!["http://new1".to_string()],
        old_servers_timeout_secs: 5,
        new_servers_timeout_secs: 9,
        old_servers_additional_headers: vec![("x-side".to_string(), "old".to_string())],
        new_servers_additional_headers: vec![],
        max_concurrent_requests: 1000,
    }
}

#[test]
fn plan_reaches_every_server_once() {
    let headers = vec![
        ("host".to_string(), Some("proxy".to_string())),
        ("accept".to_string(), Some("*/*".to_string())),
    ];
    let plan = plan_upstream_requests(&sample_config(), "GET", "/p?x=1", &headers, 3);
    assert_eq!(plan.len(), 3);
    assert!(plan.iter().all(|u| u.method == "GET"));
    assert_eq!(plan[0].group, ServerGroup::Old);
    assert_eq!(plan[0].server, "http://old1/");
    assert_eq!(plan[0].url, "http://old1/p?x=1");
    assert_eq!(plan[0].timeout_secs, 5);
    assert_eq!(
        plan[0].headers,
        vec![
            ("accept".to_string(), "*/*".to_string()),
            ("x-side".to_string(), "old".to_string()),
        ]
    );
    assert_eq!(plan[1].url, "http://old2/p?x=1");
    assert_eq!(plan[1].group, ServerGroup::Old);
    assert_eq!(plan[2].group, ServerGroup::New);
    assert_eq!(plan[2].url, "http://new1/p?x=1");
    assert_eq!(plan[2].timeout_secs, 9);
    assert_eq!(plan[2].headers, vec![("accept".to_string(), "*/*".to_string())]);
    assert!(plan.iter().all(|u| u.send_body));
    let empty_body = plan_upstream_requests(&sample_config(), "POST", "/", &headers, 0);
    assert!(empty_body.iter().all(|u| u.method == "POST"));
    assert!(empty_body.iter().all(|u| !u.send_body));
}


fn completed(status: u16, headers: Vec<(String, Option<String>)>, text: &str) -> Option<Exchange> {
    Some(Exchange {
        elapsed_ms: 7,
        outcome: UpstreamOutcome::Completed {
            status,
            headers,
            text: text.to_string(),
        },
    })
}

fn sample_plan() -> Vec<UpstreamRequest> {
    plan_upstream_requests(&sample_config(), "GET", "/p", &vec![], 0)
}

fn is_bad_gateway(reply: &ClientReply) -> bool {
    reply.status == 502
        && reply.headers.is_empty()
        && reply.body == "Upstream old server error"
        && !reply.relayed
}

#[test]
fn reply_relays_whole_body_and_response_headers() {
    let body = "é".repeat(1200);
    let headers = vec![
        ("content-type".to_string(), Some("text/plain".to_string())),
        ("Content-Length".to_string(), Some("2400".to_string())),
        ("connection".to_string(), Some("keep-alive".to_string())),
        ("Transfer-Encoding".to_string(), Some("chunked".to_string())),
        ("x-binary".to_string(), None),
        ("x-trace".to_string(), Some("abc".to_string())),
    ];
    let exchanges = vec![
        completed(200, headers, &body),
        completed(500, vec![], "second"),
        completed(404, vec![], "new"),
    ];
    let reply = client_reply(&sample_plan(), &exchanges);
    assert!(reply.relayed);
    assert_eq!(reply.status, 200);
    assert_eq!(reply.body, body);
    assert!(reply.body.len() > 1015);
    assert_eq!(
        reply.headers,
        vec![
            ("content-type".to_string(), "text/plain".to_string()),
            ("x-trace".to_string(), "abc".to_string()),
        ]
    );
}

#[test]
fn reply_with_out_of_range_status_is_500() {
    let exchanges = vec![completed(42, vec![], "odd"), None, None];
    let reply = client_reply(&sample_plan(), &exchanges);
    assert!(reply.relayed);
    assert_eq!(reply.status, 500);
    assert_eq!(reply.body, "odd");
}

#[test]
fn reply_is_about_first_old_server_only() {
    let exchanges = vec![None, completed(200, vec![], "ok"), completed(200, vec![], "new")];
    assert!(is_bad_gateway(&client_reply(&sample_plan(), &exchanges)));
    let failed = vec![
        Some(Exchange {
            elapsed_ms: 3,
            outcome: UpstreamOutcome::RequestFailed {
                error: "refused".to_string(),
            },
        }),
        completed(200, vec![], "ok"),
        completed(200, vec![], "new"),
    ];
    assert!(is_bad_gateway(&client_reply(&sample_plan(), &failed)));
    let unreadable = vec![
        Some(Exchange {
            elapsed_ms: 3,
            outcome: UpstreamOutcome::BodyUnreadable {
                status: 200,
                error: "bad".to_string(),
            },
        }),
        completed(200, vec![], "ok"),
        completed(200, vec![], "new"),
    ];
    assert!(is_bad_gateway(&client_reply(&sample_plan(), &unreadable)));
    assert!(is_bad_gateway(&client_reply(&vec![], &vec![])));
}

#[test]
fn reply_errors_still_relay_404() {
    let exchanges = vec![completed(404, vec![], "nf"), completed(200, vec![], "ok"), None];
    let reply = client_reply(&sample_plan(), &exchanges);
    assert!(reply.relayed);
    assert_eq!(reply.status, 404);
    assert_eq!(reply.body, "nf");
}

#[test]
fn conclude_records_follow_plan() {
    let request = RequestInfo {
        method: "GET".to_string(),
        path: "/p".to_string(),
        headers: vec![],
    };
    let exchanges = vec![
        completed(200, vec![], "old one"),
        completed(201, vec![], "old two"),
        completed(202, vec![], "new one"),
    ];
    let (result, reply) = conclude_request(
        "2024-01-01T00:00:00+00:00".to_string(),
        request,
        &sample_plan(),
        &exchanges,
    );
    assert_eq!(result.timestamp, "2024-01-01T00:00:00+00:00");
    assert_eq!(result.request.path, "/p");
    let old: Vec<&str> = result.old_responses.iter().map(|r| r.server.as_str()).collect();
    assert_eq!(old, vec!["http://old1/", "http://old2"]);
    assert_eq!(result.old_responses[1].status, 201);
    assert_eq!(result.old_responses[1].body_preview, "old two");
    assert_eq!(result.old_responses[0].elapsed_ms, 7);
    assert_eq!(result.new_responses.len(), 1);
    assert_eq!(result.new_responses[0].server, "http://new1");
    assert_eq!(result.new_responses[0].status, 202);
    assert_eq!(reply.status, 200);
    assert_eq!(reply.body, "old one");
}

#[test]
fn conclude_leaves_unfinished_tasks_out_of_record() {
    let request = RequestInfo {
        method: "GET".to_string(),
        path: "/".to_string(),
        headers: vec![],
    };
    let exchanges = vec![None, completed(201, vec![], "made"), completed(200, vec![], "fine")];
    let (result, reply) = conclude_request("t".to_string(), request, &sample_plan(), &exchanges);
    assert_eq!(result.old_responses.len(), 1);
    assert_eq!(result.old_responses[0].server, "http://old2");
    assert_eq!(result.new_responses.len(), 1);
    assert!(is_bad_gateway(&reply));
}

#[test]
fn conclude_records_failures() {
    let request = RequestInfo {
        method: "GET".to_string(),
        path: "/".to_string(),
        headers: vec![],
    };
    let exchanges = vec![
        Some(Exchange {
            elapsed_ms: 9,
            outcome: UpstreamOutcome::RequestFailed {
                error: "refused".to_string(),
            },
        }),
        completed(200, vec![], "ok"),
        completed(200, vec![], "fine"),
    ];
    let (result, reply) = conclude_request("t".to_string(), request, &sample_plan(), &exchanges);
    assert_eq!(result.old_responses[0].status, 0);
    assert!(!result.old_responses[0].success);
    assert_eq!(result.old_responses[0].error.as_deref(), Some("refused"));
    assert_eq!(reply.status, 502);
    assert_eq!(reply.body, "Upstream old server error");
}

#[test]
fn relayed_response_headers() {
    assert!(!is_relayed_response_header("content-length"));
    assert!(!is_relayed_response_header("CONNECTION"));
    assert!(!is_relayed_response_header("Transfer-Encoding"));
    assert!(is_relayed_response_header("content-type"));
    assert!(is_relayed_response_header("set-cookie"));
    let out = relayed_headers(&vec![
        ("set-cookie".to_string(), Some("a=1".to_string())),
        ("set-cookie".to_string(), Some("b=2".to_string())),
        ("connection".to_string(), Some("close".to_string())),
    ]);
    assert_eq!(
        out,
        vec![
            ("set-cookie".to_string(), "a=1".to_string()),
            ("set-cookie".to_string(), "b=2".to_string()),
        ]
    );
}
