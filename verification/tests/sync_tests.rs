use pcplayerpicker::sync::{fetch_headers, fetch_mode, FetchMode};
use pcplayerpicker::json::{JsonMember, JsonValue};
use pcplayerpicker::sync::{
    advance_pull, error_body_for_display, format_error_body_for_display, api_base, auth_token_url, body_matches_cloudflare_daily_quota_error,
    events_to_push, format_cloudflare_daily_quota_error_for_display, go_online_url,
    http_error_message, pull_events_url, push_new_events_url, resolve_token_url,
    response_header_summary, should_cache_token_info, start_pull, sync_key,
    token_info_cache_key, SyncState, TokenInfo,
};

#[test]
fn body_matches_cloudflare_daily_quota_error_for_html_error_pages() {
    let body = r#"<html><title>Cloudflare Error 1027</title><body>error code: 1027</body></html>"#;
    assert!(body_matches_cloudflare_daily_quota_error(body));
}

#[test]
fn other_error_bodies_are_not_quota_errors() {
    assert!(!body_matches_cloudflare_daily_quota_error("error 1028"));
    assert!(body_matches_cloudflare_daily_quota_error("ERROR 1027"));
}

#[test]
fn quota_message_names_the_reset_time() {
    let formatted = format_cloudflare_daily_quota_error_for_display(None);
    assert!(formatted.contains("Cloudflare Worker daily quota reached (Error 1027)."));
    assert!(formatted.contains("midnight UTC"));
    assert!(formatted.contains("remain available offline"));
    let with_local = format_cloudflare_daily_quota_error_for_display(Some("Tue 1:00 AM".to_string()));
    assert!(with_local.contains("midnight UTC (Tue 1:00 AM in your local time)"));
    let blank = format_cloudflare_daily_quota_error_for_display(Some("  ".to_string()));
    assert_eq!(blank, formatted);
}

#[test]
fn api_base_follows_the_page_origin() {
    assert_eq!(api_base(Some("http://localhost:8080")), "http://localhost:8787");
    assert_eq!(api_base(Some("https://pcplayerpicker.com")), "https://pcplayerpicker.com");
    assert_eq!(api_base(None), "");
}

#[test]
fn share_links_and_endpoints_are_built_from_the_base() {
    let state = SyncState {
        session_id: "s1".to_string(),
        last_pushed_seq: 0,
        assistant_token: "at".to_string(),
        player_token: "pt".to_string(),
        coach_key: "ck".to_string(),
    };
    assert_eq!(state.assistant_url("https://x"), "https://x/a/at");
    assert_eq!(state.player_url("https://x"), "https://x/p/pt");
    assert_eq!(go_online_url("https://x"), "https://x/api/sessions");
    assert_eq!(push_new_events_url("https://x", "s1"), "https://x/api/sessions/s1/events");
    assert_eq!(pull_events_url("https://x", "s1", 42), "https://x/api/sessions/s1/events?since=42");
    assert_eq!(resolve_token_url("https://x", "t"), "https://x/api/t/t");
    assert_eq!(auth_token_url("https://x", "t"), "https://x/api/t/t/auth");
    assert_eq!(sync_key("s1"), "pcpp_sync_s1");
    assert_eq!(token_info_cache_key("t"), "pcpp_token_info_t");
}

#[test]
fn only_complete_token_resolutions_are_cached() {
    let info = TokenInfo { session_id: "s".to_string(), role: "player".to_string(), requires_pin: false };
    assert!(should_cache_token_info(&info));
    let locked = TokenInfo { session_id: String::new(), role: String::new(), requires_pin: true };
    assert!(!should_cache_token_info(&locked));
}

#[test]
fn failed_requests_report_status_url_and_details() {
    assert_eq!(http_error_message(500, "https://x/api", "", ""), "HTTP 500 from https://x/api");
    assert_eq!(
        http_error_message(500, "https://x/api", "boom", "cf-ray=1"),
        "HTTP 500 from https://x/api: boom | cf-ray=1"
    );
    assert_eq!(
        response_header_summary(Some(" abc "), None, Some("text/html")),
        "cf-ray=abc, content-type=text/html"
    );
    assert_eq!(response_header_summary(Some("  "), None, None), "");
}

#[test]
fn only_events_past_the_cursor_are_pushed() {
    assert_eq!(events_to_push(&[1, 2, 3, 4], 2), vec![2, 3]);
    assert!(events_to_push(&[1, 2], 5).is_empty());
}

#[test]
fn pulling_stops_at_an_empty_page() {
    let progress = start_pull(5, 9);
    assert_eq!(progress.since, 5);
    let (progress, done) = advance_pull(progress, 3, 12);
    assert!(!done);
    assert_eq!(progress.since, 12);
    assert_eq!(progress.last_pushed_seq, 12);
    assert_eq!(progress.new_server_events_seen, 3);
    let (progress, done) = advance_pull(progress, 0, 12);
    assert!(done);
    assert_eq!(progress.new_server_events_seen, 3);
    assert_eq!(progress.last_pushed_seq, 12);
}

fn display(body: &str) -> String {
    format_error_body_for_display(body, None)
}

#[test]
fn format_error_body_for_display_includes_high_signal_context() {
    let body = r#"{
        "error":"internal_server_error",
        "route":"POST /api/sessions",
        "message":"D1_TYPE_ERROR",
        "context":{"session_id":"abc","event_count":11}
    }"#;

    assert_eq!(
        display(body),
        "internal_server_error; route=POST /api/sessions; message=D1_TYPE_ERROR; session_id=\"abc\"; event_count=11"
    );
}

#[test]
fn format_error_body_for_display_rewrites_cloudflare_daily_quota_errors() {
    let formatted = display("Cloudflare Error 1027");
    assert!(formatted.contains("Cloudflare Worker daily quota reached (Error 1027)."));
    assert!(formatted.contains("midnight UTC"));
    assert!(formatted.contains("remain available offline"));
}

#[test]
fn error_bodies_without_known_fields_are_shown_trimmed() {
    assert_eq!(display("  plain failure \n"), "plain failure");
    assert_eq!(display("   "), "");
    assert_eq!(display("{\"other\":1}"), "{\"other\":1}");
    assert_eq!(display("[1,2]"), "[1,2]");
    assert_eq!(
        display("{\"context\":{\"path\":\"/a\\\"b\",\"method\":[1,{\"x\":null}]}}"),
        "method=[1,{\"x\":null}]; path=\"/a\\\"b\""
    );
}

#[test]
fn requests_pick_their_mode_and_headers() {
    assert_eq!(fetch_mode("https://a", "https://a"), FetchMode::SameOrigin);
    assert_eq!(fetch_mode("", ""), FetchMode::Cors);
    assert_eq!(fetch_mode("https://a", "https://b"), FetchMode::Cors);
    assert_eq!(
        fetch_headers(true, Some("k")),
        vec![
            ("Content-Type".to_string(), "application/json".to_string()),
            ("X-Coach-Key".to_string(), "k".to_string())
        ]
    );
    assert!(fetch_headers(false, Some("")).is_empty());
}

#[test]
fn error_bodies_are_shown_from_the_parsed_value_given() {
    let member = |key: &str, value: JsonValue, text: &str| JsonMember {
        key: key.to_string(),
        value,
        text: text.to_string(),
    };
    let parsed = JsonValue::Object(vec![
        member("error", JsonValue::Str("boom".to_string()), "\"boom\""),
        member(
            "context",
            JsonValue::Object(vec![member("event_count", JsonValue::Number("7".to_string()), "7")]),
            "{\"event_count\":7}",
        ),
    ]);
    assert_eq!(error_body_for_display(" {} ", Some(parsed), None), "boom; event_count=7");
    assert_eq!(error_body_for_display(" {} ", None, None), "{}");
    assert_eq!(error_body_for_display(" {} ", Some(JsonValue::Null), None), "{}");
}

#[test]
fn unicode_white_space_is_trimmed_from_error_bodies() {
    assert_eq!(display("\u{3000}\u{85}plain\u{2028}\u{a0}"), "plain");
    assert_eq!(display("\u{200b}x"), "\u{200b}x");
}
