use pcplayerpicker::api::plan_upload;
use pcplayerpicker::api::{authorize_append, AppendAccess};
use pcplayerpicker::api::{plan_set_pin, plan_set_token_pin};
use pcplayerpicker::json::JsonValue;
use pcplayerpicker::api::{admin_security_headers, cors_headers, event_insert_sql};
use pcplayerpicker::admin::{
    hex_of_bytes, password_from_decoded, cors_origin, hash_matches, header_has_admin_access, html_escape, legacy_simple_hash,
    parse_basic_auth_password, simple_hash, timing_safe_eq,
};
use pcplayerpicker::admin_page::{
    render_admin_html_page, AdminOverviewTotals, AdminPageData, AdminPageRow, EMPTY_TABLE_ROW,
};
use pcplayerpicker::api::{
    appended_sequence_numbers, authenticate_token, authorize_archive, authorize_assistant,
    authorize_coach, build_events_response_json_body, check_append_request,
    check_coach_key_header, check_device_id, check_recovery_pin, check_session_pin,
    check_token_pin, check_upload_request, existing_share_tokens, fallback_token, gen_token,
    json_member_count, member_count, resolve_token_info, route_request, route_session,
    session_overview_status, statement_batches, token_from_bytes, token_pin_hash, upload_cursor,
    ApiRoute, HttpMethod, ListedShareToken, SessionAction, SessionRoute, ShareTokenRow,
    StoredEventRow,
};

#[test]
fn build_events_response_json_body_keeps_stored_payloads_verbatim() {
    let rows = vec![
        StoredEventRow {
            seq: 3,
            payload: "{\"session_version\":3}".to_string(),
        },
        StoredEventRow {
            seq: 4,
            payload: "{\"session_version\":4}".to_string(),
        },
    ];

    assert_eq!(
        build_events_response_json_body(&rows, 1),
        "{\"events\":[{\"session_version\":3},{\"session_version\":4}],\"cursor\":4}"
    );
}

#[test]
fn build_events_response_json_body_uses_fallback_cursor_for_empty_pages() {
    assert_eq!(
        build_events_response_json_body(&[], 12),
        "{\"events\":[],\"cursor\":12}"
    );
}

#[test]
fn parse_basic_auth_password_reads_the_password_field() {
    assert_eq!(
        parse_basic_auth_password("Basic dXNlcjpzZWNyZXQ=").as_deref(),
        Some("secret")
    );
    assert_eq!(parse_basic_auth_password("Bearer secret"), None);
}

#[test]
fn timing_safe_eq_matches_only_identical_values() {
    assert!(timing_safe_eq("secret", "secret"));
    assert!(!timing_safe_eq("secret", "Secret"));
    assert!(!timing_safe_eq("secret", "secret2"));
}

#[test]
fn header_has_admin_access_accepts_basic_bearer_and_x_token() {
    assert!(header_has_admin_access(
        None,
        Some("Basic dXNlcjpzZWNyZXQ="),
        "secret",
    ));
    assert!(header_has_admin_access(None, Some("Bearer secret"), "secret"));
    assert!(header_has_admin_access(Some("secret"), None, "secret"));
    assert!(!header_has_admin_access(Some("wrong"), None, "secret"));
}

#[test]
fn admin_access_is_never_granted_with_an_empty_secret() {
    assert!(!header_has_admin_access(Some(""), Some("Bearer "), ""));
}

#[test]
fn admin_headers_are_trimmed_before_comparing() {
    assert!(header_has_admin_access(Some("  secret \n"), None, "secret"));
    assert!(header_has_admin_access(None, Some("Bearer  secret "), "secret"));
}

#[test]
fn basic_auth_rejects_bad_base64_and_missing_colon() {
    assert_eq!(parse_basic_auth_password("Basic !!!"), None);
    // "user" without a colon
    assert_eq!(parse_basic_auth_password("Basic dXNlcg=="), None);
}

#[test]
fn salted_hash_is_sha256_hex_of_salt_colon_secret() {
    assert_eq!(
        simple_hash("1234", "session-1"),
        "f9522bc516be37dcae4048973c5d00d6130103bc328f35c4c861872ec466f7e9"
    );
    assert_eq!(legacy_simple_hash("1234", "session-1"), "45bfedcd658f77d5");
}

#[test]
fn stored_hashes_accept_their_secret_in_both_forms() {
    let current = simple_hash("4321", "sess");
    let legacy = legacy_simple_hash("4321", "sess");
    assert!(hash_matches(&current, "4321", "sess"));
    assert!(hash_matches(&legacy, "4321", "sess"));
    assert!(!hash_matches(&current, "4322", "sess"));
    assert!(!hash_matches(&current, "4321", "other"));
}

#[test]
fn cors_answers_allowed_origins_and_falls_back_to_production() {
    assert_eq!(cors_origin(Some("http://localhost:8080")), "http://localhost:8080");
    assert_eq!(cors_origin(Some("https://evil.example")), "https://pcplayerpicker.com");
    assert_eq!(cors_origin(None), "https://pcplayerpicker.com");
}

#[test]
fn html_escape_escapes_markup_characters() {
    assert_eq!(
        html_escape("<a href=\"x\">Tom & Jerry's</a>"),
        "&lt;a href=&quot;x&quot;&gt;Tom &amp; Jerry&#39;s&lt;/a&gt;"
    );
}

#[test]
fn admin_page_lists_sessions_with_escaped_fields() {
    let page = render_admin_html_page(&AdminPageData {
        generated_at_iso: "2024-01-01T00:00:00Z".to_string(),
        totals: AdminOverviewTotals {
            total_sessions: 3,
            live_sessions: 2,
            archived_sessions: 1,
            sessions_last_24h: 1,
            sessions_last_7d: 2,
        },
        sessions: vec![AdminPageRow {
            session_id: "s<1>".to_string(),
            created_at_iso: "2024-01-01".to_string(),
            archived_at_iso: None,
            status: "live-only".to_string(),
            sport: String::new(),
            team_size: Some(5),
            player_count: 10,
            ranking_count: 0,
        }],
    });
    assert!(page.starts_with("<!doctype html>"));
    assert!(page.contains("<tr><td><code>s&lt;1&gt;</code></td><td>2024-01-01</td><td>—</td><td>live-only</td><td>—</td><td>5</td><td>10</td><td>0</td></tr>"));
    assert!(page.contains("<span class=\"label\">Total Sessions</span><span class=\"value\">3</span>"));
    assert!(page.contains(":root { color-scheme: light; }"));
    assert!(page.ends_with("</tbody></table></main></body></html>"));
}

#[test]
fn admin_page_without_sessions_says_so() {
    let page = render_admin_html_page(&AdminPageData {
        generated_at_iso: "now".to_string(),
        totals: AdminOverviewTotals {
            total_sessions: 0,
            live_sessions: 0,
            archived_sessions: 0,
            sessions_last_24h: 0,
            sessions_last_7d: 0,
        },
        sessions: vec![],
    });
    assert!(page.contains(EMPTY_TABLE_ROW));
}

#[test]
fn overview_counts_players_and_rankings_from_stored_json() {
    assert_eq!(
        json_member_count(Some("{\"1\":\"Alice\",\"2\":\"Bob\",\"3\":\"Casey\"}")),
        3
    );
    assert_eq!(
        json_member_count(Some("[{\"player_id\":\"1\"},{\"player_id\":\"2\"}]")),
        2
    );
    assert_eq!(json_member_count(Some("null")), 0);
    assert_eq!(json_member_count(Some("not json")), 0);
    assert_eq!(json_member_count(None), 0);
    assert_eq!(member_count(Some(JsonValue::Array(vec![JsonValue::Null, JsonValue::Bool(true)]))), 2);
    assert_eq!(member_count(Some(JsonValue::Str("ab".to_string()))), 0);
    assert_eq!(member_count(None), 0);
    assert_eq!(session_overview_status(true, true), "live+archived");
    assert_eq!(session_overview_status(true, false), "live-only");
    assert_eq!(session_overview_status(false, true), "archived-only");
    assert_eq!(session_overview_status(false, false), "unknown");
}

#[test]
fn requests_route_to_their_handlers() {
    assert!(matches!(route_request(HttpMethod::Options, "/anything"), ApiRoute::Preflight));
    assert!(matches!(route_request(HttpMethod::Get, "/api/health"), ApiRoute::Health));
    assert!(matches!(route_request(HttpMethod::Post, "/api/sessions"), ApiRoute::Upload));
    match route_request(HttpMethod::Post, "/api/t/tok123/auth") {
        ApiRoute::AuthToken { token } => assert_eq!(token, "tok123"),
        _ => panic!("expected the auth route"),
    }
    match route_request(HttpMethod::Post, "/api/t/tok123/pin") {
        ApiRoute::SetTokenPin { token } => assert_eq!(token, "tok123"),
        _ => panic!("expected the token pin route"),
    }
    match route_request(HttpMethod::Get, "/api/t/tok123/auth") {
        ApiRoute::ResolveToken { token } => assert_eq!(token, "tok123/auth"),
        _ => panic!("expected the resolve route"),
    }
    match route_request(HttpMethod::Get, "/api/sessions/abc/events") {
        ApiRoute::Session(SessionRoute::Handle { session_id, action }) => {
            assert_eq!(session_id, "abc");
            assert_eq!(action, SessionAction::GetEvents);
        }
        _ => panic!("expected the events route"),
    }
    assert!(matches!(
        route_request(HttpMethod::Get, "/api/admin/sessions"),
        ApiRoute::AdminSessionsJson
    ));
    assert!(matches!(
        route_request(HttpMethod::Get, "/_internal/admin/sessions"),
        ApiRoute::AdminSessionsPage
    ));
    assert!(matches!(route_request(HttpMethod::Get, "/api/nope"), ApiRoute::ApiNotFound));
    assert!(matches!(route_request(HttpMethod::Get, "/index.html"), ApiRoute::AssetNotFound));
}

#[test]
fn session_routes_need_an_id_and_a_known_action() {
    assert!(matches!(
        route_session(HttpMethod::Post, "/api/sessions//events"),
        SessionRoute::MissingSessionId
    ));
    assert!(matches!(
        route_session(HttpMethod::Delete, "/api/sessions/abc/events"),
        SessionRoute::NotFound
    ));
    match route_session(HttpMethod::Post, "/api/sessions/abc/heartbeat") {
        SessionRoute::Handle { session_id, action } => {
            assert_eq!(session_id, "abc");
            assert_eq!(action, SessionAction::PostHeartbeat);
        }
        _ => panic!("expected the heartbeat route"),
    }
    assert!(matches!(route_session(HttpMethod::Get, "/api/sessions/abc"), SessionRoute::NotFound));
}

#[test]
fn request_checks_refuse_with_status_and_message() {
    let e = check_upload_request("", 3).unwrap_err();
    assert_eq!((e.status, e.message.as_str()), (400, "session_id and events required"));
    let e = check_upload_request("s", 1001).unwrap_err();
    assert_eq!((e.status, e.message.as_str()), (400, "Too many events (max 1000 per upload)"));
    assert!(check_upload_request("s", 1000).is_ok());
    let e = check_append_request(0).unwrap_err();
    assert_eq!((e.status, e.message.as_str()), (400, "events required"));
    let e = check_append_request(101).unwrap_err();
    assert_eq!((e.status, e.message.as_str()), (400, "Too many events (max 100 per append)"));
    assert!(check_append_request(100).is_ok());
    let e = check_coach_key_header("").unwrap_err();
    assert_eq!((e.status, e.message.as_str()), (401, "Missing X-Coach-Key header"));
    assert!(check_coach_key_header("k").is_ok());
}

#[test]
fn pins_are_four_to_eight_digits() {
    assert!(check_session_pin("1234").is_ok());
    assert!(check_session_pin("12345678").is_ok());
    let e = check_session_pin("123").unwrap_err();
    assert_eq!((e.status, e.message.as_str()), (400, "PIN must be 4–8 digits"));
    assert!(check_session_pin("123456789").is_err());
    assert!(check_session_pin("12a4").is_err());
    assert!(check_token_pin("").is_ok());
    let e = check_token_pin("12").unwrap_err();
    assert_eq!(e.message, "PIN must be 4–8 digits, or empty to clear");
}

#[test]
fn device_ids_are_one_to_sixty_four_bytes() {
    assert!(check_device_id("d").is_ok());
    assert!(check_device_id(&"x".repeat(64)).is_ok());
    let e = check_device_id(&"x".repeat(65)).unwrap_err();
    assert_eq!((e.status, e.message.as_str()), (400, "device_id must be 1–64 characters"));
    assert!(check_device_id("").is_err());
    // 22 three-byte characters are 66 bytes
    assert!(check_device_id(&"€".repeat(22)).is_err());
}

#[test]
fn coach_writes_need_the_key_whose_hash_is_stored() {
    let stored = simple_hash("key-1", "sess");
    assert!(authorize_coach(Some(&stored), "key-1", "sess").is_ok());
    let e = authorize_coach(Some(&stored), "key-2", "sess").unwrap_err();
    assert_eq!((e.status, e.message.as_str()), (403, "Invalid coach key"));
    let e = authorize_coach(None, "key-1", "sess").unwrap_err();
    assert_eq!((e.status, e.message.as_str()), (404, "Session not found"));
    assert_eq!(authorize_coach(Some(""), "key-1", "sess").unwrap_err().status, 404);
    assert_eq!(authorize_archive(Some(""), "key-1", "sess").unwrap_err().status, 403);
    assert_eq!(authorize_archive(None, "key-1", "sess").unwrap_err().status, 404);
    assert!(authorize_archive(Some(&stored), "key-1", "sess").is_ok());
}

#[test]
fn assistants_append_only_with_their_own_sessions_token() {
    let row = ShareTokenRow {
        session_id: Some("sess".to_string()),
        role: Some("assistant".to_string()),
        pin_hash: None,
    };
    assert!(authorize_assistant(Some(&row), "sess").is_ok());
    let e = authorize_assistant(Some(&row), "other").unwrap_err();
    assert_eq!((e.status, e.message.as_str()), (403, "Token does not match session"));
    let player_row = ShareTokenRow {
        session_id: Some("sess".to_string()),
        role: Some("player".to_string()),
        pin_hash: None,
    };
    let e = authorize_assistant(Some(&player_row), "sess").unwrap_err();
    assert_eq!(e.message, "This token cannot append events");
    let e = authorize_assistant(None, "sess").unwrap_err();
    assert_eq!((e.status, e.message.as_str()), (403, "Invalid token"));
}

#[test]
fn recovery_needs_the_stored_pin() {
    let stored = simple_hash("2468", "sess");
    assert!(check_recovery_pin(Some(&stored), "2468", "sess").is_ok());
    let e = check_recovery_pin(Some(&stored), "1357", "sess").unwrap_err();
    assert_eq!((e.status, e.message.as_str()), (403, "Invalid PIN"));
    let e = check_recovery_pin(None, "2468", "sess").unwrap_err();
    assert_eq!((e.status, e.message.as_str()), (404, "No recovery PIN set for this session"));
}

#[test]
fn pin_protected_tokens_reveal_nothing_until_authenticated() {
    let hash = token_pin_hash("1234", "tok").unwrap();
    let row = ShareTokenRow {
        session_id: Some("sess".to_string()),
        role: Some("player".to_string()),
        pin_hash: Some(hash),
    };
    let hidden = resolve_token_info(Some(&row)).unwrap();
    assert!(hidden.requires_pin);
    assert_eq!(hidden.session_id, "");
    assert_eq!(hidden.role, "");
    let revealed = authenticate_token(Some(&row), "1234", "tok").unwrap();
    assert!(!revealed.requires_pin);
    assert_eq!(revealed.session_id, "sess");
    assert_eq!(revealed.role, "player");
    let e = authenticate_token(Some(&row), "9999", "tok").unwrap_err();
    assert_eq!((e.status, e.message.as_str()), (403, "Invalid PIN"));
    let e = resolve_token_info(None).unwrap_err();
    assert_eq!((e.status, e.message.as_str()), (404, "Invalid or expired token"));
    assert_eq!(token_pin_hash("", "tok"), None);
}

#[test]
fn tokens_without_pin_are_revealed_directly() {
    let row = ShareTokenRow {
        session_id: Some("sess".to_string()),
        role: None,
        pin_hash: Some(String::new()),
    };
    let info = resolve_token_info(Some(&row)).unwrap();
    assert!(!info.requires_pin);
    assert_eq!(info.session_id, "sess");
    assert_eq!(info.role, "");
}

#[test]
fn existing_tokens_are_found_by_role() {
    let rows = vec![
        ListedShareToken { token: "a1".to_string(), role: "assistant".to_string() },
        ListedShareToken { token: "p1".to_string(), role: "player".to_string() },
        ListedShareToken { token: "a2".to_string(), role: "assistant".to_string() },
        ListedShareToken { token: "x".to_string(), role: "other".to_string() },
    ];
    let (assistant, player) = existing_share_tokens(&rows);
    assert_eq!(assistant.as_deref(), Some("a2"));
    assert_eq!(player.as_deref(), Some("p1"));
    assert_eq!(existing_share_tokens(&[]), (None, None));
}

#[test]
fn upload_cursor_is_the_highest_version() {
    assert_eq!(upload_cursor(&[3, 9, 4]), (9, 10));
    assert_eq!(upload_cursor(&[]), (0, 1));
    assert_eq!(upload_cursor(&[u32::MAX as u64]), (u32::MAX, u32::MAX));
    // versions are cut to 32 bits
    assert_eq!(upload_cursor(&[(1u64 << 32) + 5]), (5, 6));
}

#[test]
fn appended_events_get_consecutive_sequence_numbers() {
    assert_eq!(appended_sequence_numbers(7, 3), vec![7, 8, 9]);
    assert!(appended_sequence_numbers(7, 0).is_empty());
}

#[test]
fn statements_go_out_in_batches_of_a_hundred() {
    assert_eq!(statement_batches(250), vec![(0, 100), (100, 200), (200, 250)]);
    assert_eq!(statement_batches(100), vec![(0, 100)]);
    assert!(statement_batches(0).is_empty());
}

#[test]
fn fresh_tokens_are_thirty_two_hex_digits() {
    let token = gen_token(255);
    assert!(token.len() == 32 || token == "ff");
    assert!(token.chars().all(|c| c.is_ascii_hexdigit() && !c.is_ascii_uppercase()));
    assert_eq!(token_from_bytes(&[0, 15, 255]), "000fff");
    assert_eq!(fallback_token(255), "ff");
}

#[test]
fn responses_carry_cors_and_admin_security_headers() {
    let cors = cors_headers("http://localhost:8080");
    assert_eq!(cors[0], ("Access-Control-Allow-Origin".to_string(), "http://localhost:8080".to_string()));
    assert_eq!(cors.len(), 4);
    assert_eq!(cors[3], ("Vary".to_string(), "Origin".to_string()));
    assert_eq!(admin_security_headers(false).len(), 5);
    let html = admin_security_headers(true);
    assert_eq!(html.len(), 6);
    assert_eq!(html[5].0, "Content-Security-Policy");
    assert!(event_insert_sql(true).starts_with("INSERT OR IGNORE"));
    assert!(event_insert_sql(false).starts_with("INSERT INTO"));
}

#[test]
fn decoded_credentials_give_the_text_after_the_first_colon() {
    assert_eq!(password_from_decoded(Some(b"user:pa:ss".to_vec())).as_deref(), Some("pa:ss"));
    assert_eq!(password_from_decoded(Some(b"nocolon".to_vec())), None);
    assert_eq!(password_from_decoded(Some(vec![0xff, b':'])), None);
    assert_eq!(password_from_decoded(None), None);
    assert_eq!(hex_of_bytes(&[0xde, 0xad, 0x01]), "dead01");
}

#[test]
fn uploads_are_planned_only_after_their_checks() {
    let plan = plan_upload("sess", &[3, 7, (1u64 << 32) + 2], "key").unwrap();
    assert_eq!(plan.cursor, 7);
    assert_eq!(plan.next_seq, 8);
    assert_eq!(plan.event_seqs, vec![3, 7, 2]);
    assert_eq!(plan.coach_key_hash, simple_hash("key", "sess"));
    let e = plan_upload("", &[1], "key").err().unwrap();
    assert_eq!((e.status, e.message.as_str()), (400, "session_id and events required"));
    let e = plan_upload("sess", &vec![1u64; 1001], "key").err().unwrap();
    assert_eq!((e.status, e.message.as_str()), (400, "Too many events (max 1000 per upload)"));
}

#[test]
fn appends_check_the_batch_before_who_asks() {
    let stored = simple_hash("key-1", "sess");
    let coach = |header: &str| AppendAccess::Coach {
        coach_key_header: header.to_string(),
        stored_coach_key_hash: Some(stored.clone()),
    };
    assert!(authorize_append(3, &coach("key-1"), "sess").is_ok());
    assert_eq!(authorize_append(0, &coach(""), "sess").err().unwrap().message, "events required");
    assert_eq!(authorize_append(2, &coach(""), "sess").err().unwrap().status, 401);
    assert_eq!(authorize_append(2, &coach("key-2"), "sess").err().unwrap().status, 403);
    let assistant = AppendAccess::Assistant {
        token_row: Some(ShareTokenRow {
            session_id: Some("sess".to_string()),
            role: Some("assistant".to_string()),
            pin_hash: None,
        }),
    };
    assert!(authorize_append(1, &assistant, "sess").is_ok());
    assert_eq!(
        authorize_append(1, &assistant, "other").err().unwrap().message,
        "Token does not match session"
    );
    assert_eq!(
        authorize_append(101, &assistant, "sess").err().unwrap().message,
        "Too many events (max 100 per append)"
    );
    let unknown = AppendAccess::Assistant { token_row: None };
    assert_eq!(authorize_append(1, &unknown, "sess").err().unwrap().message, "Invalid token");
}

#[test]
fn pin_changes_are_planned_in_the_workers_order() {
    let stored = simple_hash("key-1", "sess");
    let plan = plan_set_pin("key-1", Ok("1234".to_string()), Some(&stored), "sess");
    assert_eq!(plan.unwrap(), simple_hash("1234", "sess"));
    let e = plan_set_pin("", Err("Invalid JSON".to_string()), None, "sess").err().unwrap();
    assert_eq!(e.status, 401);
    let e = plan_set_pin("key-1", Err("Invalid JSON".to_string()), None, "sess").err().unwrap();
    assert_eq!((e.status, e.message.as_str()), (400, "Invalid JSON"));
    let e = plan_set_pin("key-1", Ok("12".to_string()), None, "sess").err().unwrap();
    assert_eq!(e.message, "PIN must be 4–8 digits");
    let e = plan_set_pin("key-1", Ok("1234".to_string()), None, "sess").err().unwrap();
    assert_eq!((e.status, e.message.as_str()), (404, "Session not found"));
    let e = plan_set_pin("key-2", Ok("1234".to_string()), Some(&stored), "sess").err().unwrap();
    assert_eq!((e.status, e.message.as_str()), (403, "Invalid coach key"));

    assert_eq!(
        plan_set_token_pin(Ok("5678".to_string()), "tok", true).unwrap(),
        Some(simple_hash("5678", "tok"))
    );
    assert_eq!(plan_set_token_pin(Ok(String::new()), "tok", true).unwrap(), None);
    let e = plan_set_token_pin(Ok("5678".to_string()), "tok", false).err().unwrap();
    assert_eq!((e.status, e.message.as_str()), (404, "Token not found"));
    let e = plan_set_token_pin(Ok("x".to_string()), "tok", false).err().unwrap();
    assert_eq!(e.message, "PIN must be 4–8 digits, or empty to clear");
    let e = plan_set_token_pin(Err("Invalid JSON".to_string()), "tok", true).err().unwrap();
    assert_eq!((e.status, e.message.as_str()), (400, "Invalid JSON"));
}
