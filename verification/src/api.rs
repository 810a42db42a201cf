//! The worker's request decisions: which handler a request reaches, which
//! requests are refused and with what status and message, who may write to a
//! session, what a share token reveals, and the JSON body of an event page.
//!
//! The handlers themselves read the request, talk to the database and send
//! the response; every decision between those steps is made here.
use vstd::prelude::*;

use crate::admin::{first_index_of, first_index_of_exec, hash_accepts, hash_matches, hex_bytes, hex_of_bytes,
    salted_hash, simple_hash};
use crate::json::{json_parsed, parse_json_value, JsonValue};
use crate::sync::TokenInfo;
use crate::text::{chars_between, chars_equal, chars_from, chars_of, char_views, decimal, has_prefix,
    hex, hex_padded, join, join_chars, push_all, push_decimal, push_hex, push_hex_padded,
    starts_with_chars, string_from_chars};

verus! {

// ── Routing ─────────────────────────────────────────────────────────────────

/// The HTTP methods a request can carry.
#[derive(Debug, Clone, Copy, PartialEq, Eq, Structural)]
pub enum HttpMethod {
    Head,
    Get,
    Post,
    Put,
    Patch,
    Delete,
    Options,
    Connect,
    Trace,
    Report,
}

/// What a request under `/api/sessions/:id/` asks for.
#[derive(Debug, Clone, Copy, PartialEq, Eq, Structural)]
pub enum SessionAction {
    GetEvents,
    AppendEvents,
    GetShare,
    SetPin,
    Recover,
    Archive,
    PostHeartbeat,
    GetHeartbeat,
}

/// Where a request under `/api/sessions/` goes.
#[derive(Debug, Clone)]
pub enum SessionRoute {
    /// The path names no session: answered with 400.
    MissingSessionId,
    /// A handler for the named session.
    Handle { session_id: String, action: SessionAction },
    /// No handler for this method and path: answered with 404.
    NotFound,
}

/// Where a request goes.
#[derive(Debug, Clone)]
pub enum ApiRoute {
    /// A CORS preflight (`OPTIONS`).
    Preflight,
    /// `GET /api/health`.
    Health,
    /// `POST /api/sessions`.
    Upload,
    /// `POST /api/t/:token/auth`.
    AuthToken { token: String },
    /// `POST /api/t/:token/pin`.
    SetTokenPin { token: String },
    /// Any other request under `/api/t/`: resolve what follows the prefix.
    ResolveToken { token: String },
    /// A request under `/api/sessions/`.
    Session(SessionRoute),
    /// `GET /api/admin/sessions`.
    AdminSessionsJson,
    /// `GET /_internal/admin/sessions`.
    AdminSessionsPage,
    /// Any other path under `/api/`: a JSON 404.
    ApiNotFound,
    /// Anything else: left to the static assets, a plain 404 here.
    AssetNotFound,
}

/// `s` with every leading repetition of `p` removed (`str::trim_start_matches`).
pub open spec fn trim_start_matches(s: Seq<char>, p: Seq<char>) -> Seq<char>
    decreases s.len(),
{
    if p.len() > 0 && has_prefix(s, p) {
        trim_start_matches(s.skip(p.len() as int), p)
    } else {
        s
    }
}

/// `s` split at its first `c` (`str::split_once`).
pub open spec fn split_once(s: Seq<char>, c: char) -> Option<(Seq<char>, Seq<char>)> {
    match first_index_of(s, c) {
        Some(i) => Some((s.take(i), s.skip(i + 1))),
        None => None,
    }
}

/// The session action for a method and the path after `/api/sessions/:id/`.
pub open spec fn session_action_for(method: HttpMethod, rest: Seq<char>) -> Option<SessionAction> {
    if method == HttpMethod::Get && rest == "events"@ {
        Some(SessionAction::GetEvents)
    } else if method == HttpMethod::Post && rest == "events"@ {
        Some(SessionAction::AppendEvents)
    } else if method == HttpMethod::Get && rest == "share"@ {
        Some(SessionAction::GetShare)
    } else if method == HttpMethod::Post && rest == "pin"@ {
        Some(SessionAction::SetPin)
    } else if method == HttpMethod::Post && rest == "recover"@ {
        Some(SessionAction::Recover)
    } else if method == HttpMethod::Post && rest == "archive"@ {
        Some(SessionAction::Archive)
    } else if method == HttpMethod::Post && rest == "heartbeat"@ {
        Some(SessionAction::PostHeartbeat)
    } else if method == HttpMethod::Get && rest == "heartbeat"@ {
        Some(SessionAction::GetHeartbeat)
    } else {
        None
    }
}

/// The session id and the rest of a path under `/api/sessions/`.
pub open spec fn session_path_parts(path: Seq<char>) -> (Seq<char>, Seq<char>) {
    let after = trim_start_matches(path, "/api/sessions/"@);
    match split_once(after, '/') {
        Some((id, rest)) => (id, rest),
        None => (after, Seq::empty()),
    }
}

/// `r` is where a request with `method` and `path` under `/api/sessions/` goes.
pub open spec fn session_route_is(method: HttpMethod, path: Seq<char>, r: SessionRoute) -> bool {
    let (id, rest) = session_path_parts(path);
    if id.len() == 0 {
        r is MissingSessionId
    } else {
        match session_action_for(method, rest) {
            Some(a) => r matches SessionRoute::Handle { session_id, action } && session_id@ == id
                && action == a,
            None => r is NotFound,
        }
    }
}

/// `r` is where a request with `method` and `path` goes.
pub open spec fn api_route_is(method: HttpMethod, path: Seq<char>, r: ApiRoute) -> bool {
    if method == HttpMethod::Options {
        r is Preflight
    } else if method == HttpMethod::Get && path == "/api/health"@ {
        r is Health
    } else if method == HttpMethod::Post && path == "/api/sessions"@ {
        r is Upload
    } else if has_prefix(path, "/api/t/"@) {
        let after = trim_start_matches(path, "/api/t/"@);
        match split_once(after, '/') {
            Some((token, rest)) => if rest == "auth"@ && method == HttpMethod::Post {
                r matches ApiRoute::AuthToken { token: t } && t@ == token
            } else if rest == "pin"@ && method == HttpMethod::Post {
                r matches ApiRoute::SetTokenPin { token: t } && t@ == token
            } else {
                r matches ApiRoute::ResolveToken { token: t } && t@ == after
            },
            None => r matches ApiRoute::ResolveToken { token: t } && t@ == after,
        }
    } else if has_prefix(path, "/api/sessions/"@) {
        r matches ApiRoute::Session(s) && session_route_is(method, path, s)
    } else if method == HttpMethod::Get && path == "/api/admin/sessions"@ {
        r is AdminSessionsJson
    } else if method == HttpMethod::Get && path == "/_internal/admin/sessions"@ {
        r is AdminSessionsPage
    } else if has_prefix(path, "/api/"@) {
        r is ApiNotFound
    } else {
        r is AssetNotFound
    }
}

fn trim_start_matches_chars(s: &[char], p: &[char]) -> (r: Vec<char>)
    ensures
        r@ == trim_start_matches(s@, p@),
{
    let mut cur: Vec<char> = chars_from(s, 0);
    proof {
        assert(s@.skip(0) == s@);
    }
    if p.len() == 0 {
        return cur;
    }
    while starts_with_chars(cur.as_slice(), p)
        invariant
            p@.len() > 0,
            trim_start_matches(cur@, p@) == trim_start_matches(s@, p@),
        decreases cur@.len(),
    {
        cur = chars_from(cur.as_slice(), p.len());
    }
    cur
}

fn text_is(s: &[char], literal: &str) -> (r: bool)
    ensures
        r == (s@ == literal@),
{
    chars_equal(s, chars_of(literal).as_slice())
}

fn split_once_chars(s: &[char], c: char) -> (r: Option<(Vec<char>, Vec<char>)>)
    ensures
        match r {
            Some((a, b)) => split_once(s@, c) == Some((a@, b@)),
            None => split_once(s@, c) is None,
        },
{
    match first_index_of_exec(s, c) {
        Some(i) => {
            let head = chars_between(s, 0, i);
            let tail = chars_from(s, i + 1);
            proof {
                assert(head@ == s@.take(i as int));
            }
            Some((head, tail))
        },
        None => None,
    }
}

fn session_action(method: HttpMethod, rest: &[char]) -> (r: Option<SessionAction>)
    ensures
        r == session_action_for(method, rest@),
{
    let get = method == HttpMethod::Get;
    let post = method == HttpMethod::Post;
    if get && text_is(rest, "events") {
        Some(SessionAction::GetEvents)
    } else if post && text_is(rest, "events") {
        Some(SessionAction::AppendEvents)
    } else if get && text_is(rest, "share") {
        Some(SessionAction::GetShare)
    } else if post && text_is(rest, "pin") {
        Some(SessionAction::SetPin)
    } else if post && text_is(rest, "recover") {
        Some(SessionAction::Recover)
    } else if post && text_is(rest, "archive") {
        Some(SessionAction::Archive)
    } else if post && text_is(rest, "heartbeat") {
        Some(SessionAction::PostHeartbeat)
    } else if get && text_is(rest, "heartbeat") {
        Some(SessionAction::GetHeartbeat)
    } else {
        None
    }
}

/// Where a request under `/api/sessions/` goes: the segment after the prefix
/// names the session, what follows its `/` names the action.
pub fn route_session(method: HttpMethod, path: &str) -> (r: SessionRoute)
    ensures
        session_route_is(method, path@, r),
{
    let after = trim_start_matches_chars(chars_of(path).as_slice(), chars_of("/api/sessions/").as_slice());
    let (id, rest) = match split_once_chars(after.as_slice(), '/') {
        Some((id, rest)) => (id, rest),
        None => (after, Vec::new()),
    };
    if id.len() == 0 {
        return SessionRoute::MissingSessionId;
    }
    match session_action(method, rest.as_slice()) {
        Some(action) => SessionRoute::Handle { session_id: string_from_chars(id.as_slice()), action },
        None => SessionRoute::NotFound,
    }
}

/// Where a request with `method` and `path` goes.
pub fn route_request(method: HttpMethod, path: &str) -> (r: ApiRoute)
    ensures
        api_route_is(method, path@, r),
{
    if method == HttpMethod::Options {
        return ApiRoute::Preflight;
    }
    let p = chars_of(path);
    if method == HttpMethod::Get && text_is(p.as_slice(), "/api/health") {
        return ApiRoute::Health;
    }
    if method == HttpMethod::Post && text_is(p.as_slice(), "/api/sessions") {
        return ApiRoute::Upload;
    }
    let token_prefix = chars_of("/api/t/");
    if starts_with_chars(p.as_slice(), token_prefix.as_slice()) {
        let after = trim_start_matches_chars(p.as_slice(), token_prefix.as_slice());
        match split_once_chars(after.as_slice(), '/') {
            Some((token, rest)) => {
                if text_is(rest.as_slice(), "auth") && method == HttpMethod::Post {
                    return ApiRoute::AuthToken { token: string_from_chars(token.as_slice()) };
                }
                if text_is(rest.as_slice(), "pin") && method == HttpMethod::Post {
                    return ApiRoute::SetTokenPin { token: string_from_chars(token.as_slice()) };
                }
                return ApiRoute::ResolveToken { token: string_from_chars(after.as_slice()) };
            },
            None => {
                return ApiRoute::ResolveToken { token: string_from_chars(after.as_slice()) };
            },
        }
    }
    if starts_with_chars(p.as_slice(), chars_of("/api/sessions/").as_slice()) {
        return ApiRoute::Session(route_session(method, path));
    }
    if method == HttpMethod::Get && text_is(p.as_slice(), "/api/admin/sessions") {
        return ApiRoute::AdminSessionsJson;
    }
    if method == HttpMethod::Get && text_is(p.as_slice(), "/_internal/admin/sessions") {
        return ApiRoute::AdminSessionsPage;
    }
    if starts_with_chars(p.as_slice(), chars_of("/api/").as_slice()) {
        return ApiRoute::ApiNotFound;
    }
    ApiRoute::AssetNotFound
}

// ── Routing laws ────────────────────────────────────────────────────────────

/// The path of an action on a session: `/api/sessions/<id>/<segment>`.
pub open spec fn session_action_path(id: Seq<char>, segment: Seq<char>) -> Seq<char> {
    "/api/sessions/"@ + id + "/"@ + segment
}

/// `r` hands the request to the handler of `action` for session `id`.
pub open spec fn handled_as(r: SessionRoute, id: Seq<char>, action: SessionAction) -> bool {
    r matches SessionRoute::Handle { session_id, action: a } && session_id@ == id && a == action
}

/// The worker's table of session actions: `GET events`, `POST events`,
/// `GET share`, `POST pin`, `POST recover`, `POST archive`, `POST heartbeat`
/// and `GET heartbeat`.
pub open spec fn in_action_table(method: HttpMethod, segment: Seq<char>) -> bool {
    ||| method == HttpMethod::Get && (segment == "events"@ || segment == "share"@ || segment
        == "heartbeat"@)
    ||| method == HttpMethod::Post && (segment == "events"@ || segment == "pin"@ || segment
        == "recover"@ || segment == "archive"@ || segment == "heartbeat"@)
}

proof fn lemma_first_index_after(a: Seq<char>, b: Seq<char>, c: char)
    requires
        !a.contains(c),
        b.len() > 0,
        b[0] == c,
    ensures
        first_index_of(a + b, c) == Some(a.len() as int),
    decreases a.len(),
{
    if a.len() > 0 {
        assert(!a.drop_first().contains(c)) by {
            if a.drop_first().contains(c) {
                let k = choose|k: int| 0 <= k < a.drop_first().len() && a.drop_first()[k] == c;
                assert(a[k + 1] == c);
            }
        }
        assert(a[0] != c);
        lemma_first_index_after(a.drop_first(), b, c);
        assert((a + b).drop_first() =~= a.drop_first() + b);
    }
}

proof fn lemma_session_path_parts(id: Seq<char>, segment: Seq<char>)
    requires
        id.len() > 0,
        !id.contains('/'),
    ensures
        session_path_parts(session_action_path(id, segment)) == (id, segment),
{
    reveal_strlit("/api/sessions/");
    reveal_strlit("/");
    let prefix = "/api/sessions/"@;
    let rest = id + "/"@ + segment;
    let path = session_action_path(id, segment);
    assert(path =~= prefix + rest);
    assert(path.take(prefix.len() as int) =~= prefix);
    assert(path.skip(prefix.len() as int) =~= rest);
    assert(rest[0] == id[0]);
    assert(id[0] != '/') by {
        assert(id.contains(id[0]));
    }
    assert(!has_prefix(rest, prefix)) by {
        if has_prefix(rest, prefix) {
            assert(rest.take(prefix.len() as int)[0] == prefix[0]);
        }
    }
    assert(trim_start_matches(rest, prefix) == rest);
    assert(trim_start_matches(path, prefix) == rest);
    lemma_first_index_after(id, "/"@ + segment, '/');
    assert(rest =~= id + ("/"@ + segment));
    assert(rest.take(id.len() as int) =~= id);
    assert(rest.skip(id.len() as int + 1) =~= segment);
}

/// Every action of the worker's table on a named session (an id that is not
/// empty and holds no `/`) reaches its own handler with that session id, and
/// any other method and segment is not found.
pub proof fn lemma_session_actions_reach_handlers(
    method: HttpMethod,
    id: Seq<char>,
    segment: Seq<char>,
    r: SessionRoute,
)
    requires
        id.len() > 0,
        !id.contains('/'),
        session_route_is(method, session_action_path(id, segment), r),
    ensures
        method == HttpMethod::Get && segment == "events"@ ==> handled_as(r, id, SessionAction::GetEvents),
        method == HttpMethod::Post && segment == "events"@ ==> handled_as(r, id, SessionAction::AppendEvents),
        method == HttpMethod::Get && segment == "share"@ ==> handled_as(r, id, SessionAction::GetShare),
        method == HttpMethod::Post && segment == "pin"@ ==> handled_as(r, id, SessionAction::SetPin),
        method == HttpMethod::Post && segment == "recover"@ ==> handled_as(r, id, SessionAction::Recover),
        method == HttpMethod::Post && segment == "archive"@ ==> handled_as(r, id, SessionAction::Archive),
        method == HttpMethod::Post && segment == "heartbeat"@ ==> handled_as(
            r,
            id,
            SessionAction::PostHeartbeat,
        ),
        method == HttpMethod::Get && segment == "heartbeat"@ ==> handled_as(r, id, SessionAction::GetHeartbeat),
        !in_action_table(method, segment) ==> r is NotFound,
{
    lemma_session_path_parts(id, segment);
    reveal_strlit("events");
    reveal_strlit("share");
    reveal_strlit("pin");
    reveal_strlit("recover");
    reveal_strlit("archive");
    reveal_strlit("heartbeat");
    assert("archive"@ != "recover"@) by {
        assert("archive"@[0] != "recover"@[0]);
    }
}

/// A request for an action on a named session goes to the session routes,
/// and from there to the handler of its action, whatever the method
/// (but a preflight).
pub proof fn lemma_requests_reach_session_handlers(
    method: HttpMethod,
    id: Seq<char>,
    segment: Seq<char>,
    r: ApiRoute,
)
    requires
        id.len() > 0,
        !id.contains('/'),
        method != HttpMethod::Options,
        api_route_is(method, session_action_path(id, segment), r),
    ensures
        r is Session,
        method == HttpMethod::Get && segment == "events"@ ==> handled_as(r->0, id, SessionAction::GetEvents),
        method == HttpMethod::Post && segment == "events"@ ==> handled_as(r->0, id, SessionAction::AppendEvents),
        method == HttpMethod::Get && segment == "share"@ ==> handled_as(r->0, id, SessionAction::GetShare),
        method == HttpMethod::Post && segment == "pin"@ ==> handled_as(r->0, id, SessionAction::SetPin),
        method == HttpMethod::Post && segment == "recover"@ ==> handled_as(r->0, id, SessionAction::Recover),
        method == HttpMethod::Post && segment == "archive"@ ==> handled_as(r->0, id, SessionAction::Archive),
        method == HttpMethod::Post && segment == "heartbeat"@ ==> handled_as(
            r->0,
            id,
            SessionAction::PostHeartbeat,
        ),
        method == HttpMethod::Get && segment == "heartbeat"@ ==> handled_as(r->0, id, SessionAction::GetHeartbeat),
        !in_action_table(method, segment) ==> r->0 is NotFound,
{
    reveal_strlit("/api/sessions/");
    reveal_strlit("/api/health");
    reveal_strlit("/api/sessions");
    reveal_strlit("/api/t/");
    reveal_strlit("/");
    let path = session_action_path(id, segment);
    assert(path.len() > 15);
    assert(path[5] == 's');
    assert(!has_prefix(path, "/api/t/"@)) by {
        if has_prefix(path, "/api/t/"@) {
            assert(path.take(7)[5] == "/api/t/"@[5]);
        }
    }
    assert(has_prefix(path, "/api/sessions/"@)) by {
        assert(path.take(14) =~= "/api/sessions/"@);
    }
    let s = r->0;
    lemma_session_actions_reach_handlers(method, id, segment, s);
}

proof fn lemma_first_index_absent(a: Seq<char>, c: char)
    requires
        !a.contains(c),
    ensures
        first_index_of(a, c) is None,
    decreases a.len(),
{
    if a.len() > 0 {
        assert(!a.drop_first().contains(c)) by {
            if a.drop_first().contains(c) {
                let k = choose|k: int| 0 <= k < a.drop_first().len() && a.drop_first()[k] == c;
                assert(a[k + 1] == c);
            }
        }
        assert(a[0] != c) by {
            assert(a.contains(a[0]));
        }
        lemma_first_index_absent(a.drop_first(), c);
    }
}

/// What follows `/api/t/` in a path that names `token` (not empty, no `/`).
proof fn lemma_token_path_after(token: Seq<char>, tail: Seq<char>)
    requires
        token.len() > 0,
        !token.contains('/'),
    ensures
        has_prefix("/api/t/"@ + token + tail, "/api/t/"@),
        trim_start_matches("/api/t/"@ + token + tail, "/api/t/"@) == token + tail,
        ("/api/t/"@ + token + tail).len() > 7,
        ("/api/t/"@ + token + tail)[5] == 't',
{
    reveal_strlit("/api/t/");
    let prefix = "/api/t/"@;
    let rest = token + tail;
    let path = prefix + token + tail;
    assert(path =~= prefix + rest);
    assert(path.take(prefix.len() as int) =~= prefix);
    assert(path.skip(prefix.len() as int) =~= rest);
    assert(token[0] != '/') by {
        assert(token.contains(token[0]));
    }
    assert(rest[0] == token[0]);
    assert(!has_prefix(rest, prefix)) by {
        if has_prefix(rest, prefix) {
            assert(rest.take(prefix.len() as int)[0] == prefix[0]);
        }
    }
    assert(trim_start_matches(rest, prefix) == rest);
    assert(trim_start_matches(path, prefix) == trim_start_matches(path.skip(prefix.len() as int), prefix));
}

/// Share-token requests reach their handlers for any token that is not
/// empty and holds no `/`: `POST /api/t/<token>/auth` authenticates it,
/// `POST /api/t/<token>/pin` sets its PIN, and `/api/t/<token>` resolves it.
pub proof fn lemma_token_requests_reach_handlers(method: HttpMethod, token: Seq<char>, r1: ApiRoute, r2: ApiRoute, r3: ApiRoute)
    requires
        token.len() > 0,
        !token.contains('/'),
        method != HttpMethod::Options,
        api_route_is(method, "/api/t/"@ + token + "/auth"@, r1),
        api_route_is(method, "/api/t/"@ + token + "/pin"@, r2),
        api_route_is(method, "/api/t/"@ + token, r3),
    ensures
        method == HttpMethod::Post ==> (r1 matches ApiRoute::AuthToken { token: t } && t@ == token),
        method == HttpMethod::Post ==> (r2 matches ApiRoute::SetTokenPin { token: t } && t@ == token),
        r3 matches ApiRoute::ResolveToken { token: t } && t@ == token,
{
    reveal_strlit("/api/health");
    reveal_strlit("/api/sessions");
    reveal_strlit("/auth");
    reveal_strlit("/pin");
    reveal_strlit("auth");
    reveal_strlit("pin");
    reveal_strlit("/");
    lemma_token_path_after(token, "/auth"@);
    lemma_token_path_after(token, "/pin"@);
    lemma_token_path_after(token, Seq::empty());
    assert("/api/t/"@ + token + Seq::<char>::empty() =~= "/api/t/"@ + token);
    assert(token + Seq::<char>::empty() =~= token);
    assert("/auth"@ =~= "/"@ + "auth"@);
    assert("/pin"@ =~= "/"@ + "pin"@);
    lemma_first_index_after(token, "/auth"@, '/');
    lemma_first_index_after(token, "/pin"@, '/');
    lemma_first_index_absent(token, '/');
    assert((token + "/auth"@).take(token.len() as int) =~= token);
    assert((token + "/auth"@).skip(token.len() as int + 1) =~= "auth"@);
    assert((token + "/pin"@).take(token.len() as int) =~= token);
    assert((token + "/pin"@).skip(token.len() as int + 1) =~= "pin"@);
    assert("pin"@ != "auth"@) by {
        assert("pin"@.len() != "auth"@.len());
    }
}

// ── Refusals ────────────────────────────────────────────────────────────────

/// Uploads carry at most this many events.
pub const MAX_EVENTS_UPLOAD: usize = 1000;

/// Appends carry at most this many events.
pub const MAX_EVENTS_APPEND: usize = 100;

/// A refused request: the HTTP status and the message sent back.
#[derive(Debug, Clone)]
pub struct ApiError {
    pub status: u16,
    pub message: String,
}

/// `r` refuses with `status` and `message`.
pub open spec fn refuses<T>(r: Result<T, ApiError>, status: u16, message: Seq<char>) -> bool {
    r matches Err(e) && e.status == status && e.message@ == message
}

fn refusal(status: u16, message: &str) -> (e: ApiError)
    ensures
        e.status == status,
        e.message@ == message@,
{
    ApiError { status, message: string_from_chars(chars_of(message).as_slice()) }
}

/// An upload needs a session id and between one and
/// [`MAX_EVENTS_UPLOAD`] events.
pub fn check_upload_request(session_id: &str, event_count: usize) -> (r: Result<(), ApiError>)
    ensures
        if session_id@.len() == 0 || event_count == 0 {
            refuses(r, 400, "session_id and events required"@)
        } else if event_count > MAX_EVENTS_UPLOAD {
            refuses(r, 400, "Too many events (max 1000 per upload)"@)
        } else {
            r is Ok
        },
{
    if session_id.is_empty() || event_count == 0 {
        return Err(refusal(400, "session_id and events required"));
    }
    if event_count > MAX_EVENTS_UPLOAD {
        return Err(refusal(400, "Too many events (max 1000 per upload)"));
    }
    Ok(())
}

/// An append carries between one and [`MAX_EVENTS_APPEND`] events.
pub fn check_append_request(event_count: usize) -> (r: Result<(), ApiError>)
    ensures
        if event_count == 0 {
            refuses(r, 400, "events required"@)
        } else if event_count > MAX_EVENTS_APPEND {
            refuses(r, 400, "Too many events (max 100 per append)"@)
        } else {
            r is Ok
        },
{
    if event_count == 0 {
        return Err(refusal(400, "events required"));
    }
    if event_count > MAX_EVENTS_APPEND {
        return Err(refusal(400, "Too many events (max 100 per append)"));
    }
    Ok(())
}

/// Coach-only requests carry a non-empty `X-Coach-Key` header.
pub fn check_coach_key_header(coach_key_header: &str) -> (r: Result<(), ApiError>)
    ensures
        if coach_key_header@.len() == 0 {
            refuses(r, 401, "Missing X-Coach-Key header"@)
        } else {
            r is Ok
        },
{
    if coach_key_header.is_empty() {
        return Err(refusal(401, "Missing X-Coach-Key header"));
    }
    Ok(())
}

/// An ASCII decimal digit.
pub open spec fn is_ascii_digit(c: char) -> bool {
    '0' <= c <= '9'
}

/// A PIN: four to eight ASCII digits.
pub open spec fn is_pin(pin: Seq<char>) -> bool {
    4 <= pin.len() <= 8 && forall|i: int| 0 <= i < pin.len() ==> is_ascii_digit(#[trigger] pin[i])
}

fn pin_is_valid(pin: &str) -> (r: bool)
    ensures
        r == is_pin(pin@),
{
    let cs = chars_of(pin);
    if cs.len() < 4 || cs.len() > 8 {
        return false;
    }
    let mut i: usize = 0;
    while i < cs.len()
        invariant
            i <= cs.len(),
            cs@ == pin@,
            forall|k: int| 0 <= k < i ==> is_ascii_digit(#[trigger] cs@[k]),
        decreases cs.len() - i,
    {
        if !('0' <= cs[i] && cs[i] <= '9') {
            return false;
        }
        i = i + 1;
    }
    true
}

/// A session's recovery PIN must be a PIN.
pub fn check_session_pin(pin: &str) -> (r: Result<(), ApiError>)
    ensures
        if is_pin(pin@) {
            r is Ok
        } else {
            refuses(r, 400, "PIN must be 4–8 digits"@)
        },
{
    if !pin_is_valid(pin) {
        return Err(refusal(400, "PIN must be 4–8 digits"));
    }
    Ok(())
}

/// A share token's PIN must be a PIN, or empty to clear it.
pub fn check_token_pin(pin: &str) -> (r: Result<(), ApiError>)
    ensures
        if pin@.len() == 0 || is_pin(pin@) {
            r is Ok
        } else {
            refuses(r, 400, "PIN must be 4–8 digits, or empty to clear"@)
        },
{
    if !pin.is_empty() && !pin_is_valid(pin) {
        return Err(refusal(400, "PIN must be 4–8 digits, or empty to clear"));
    }
    Ok(())
}

/// A heartbeat's device id is 1 to 64 bytes of UTF-8.
pub fn check_device_id(device_id: &str) -> (r: Result<(), ApiError>)
    ensures
        if 1 <= vstd::utf8::encode_utf8(device_id@).len() <= 64 {
            r is Ok
        } else {
            refuses(r, 400, "device_id must be 1–64 characters"@)
        },
{
    let byte_len = device_id.as_bytes().len();
    if byte_len == 0 || byte_len > 64 {
        return Err(refusal(400, "device_id must be 1–64 characters"));
    }
    Ok(())
}

// ── Who may write ───────────────────────────────────────────────────────────

/// The view of an optional string.
pub open spec fn opt_view(s: Option<&str>) -> Option<Seq<char>> {
    match s {
        Some(t) => Some(t@),
        None => None,
    }
}

/// The coach of a session proves itself with the key whose hash the session
/// stores: no stored hash (or an empty one) is 404, a key that the hash does
/// not accept is 403.
pub fn authorize_coach(stored_hash: Option<&str>, coach_key: &str, session_id: &str) -> (r: Result<
    (),
    ApiError,
>)
    ensures
        match opt_view(stored_hash) {
            Some(h) if h.len() > 0 => if hash_accepts(h, coach_key@, session_id@) {
                r is Ok
            } else {
                refuses(r, 403, "Invalid coach key"@)
            },
            _ => refuses(r, 404, "Session not found"@),
        },
{
    match stored_hash {
        Some(h) => {
            if h.is_empty() {
                return Err(refusal(404, "Session not found"));
            }
            if !hash_matches(h, coach_key, session_id) {
                return Err(refusal(403, "Invalid coach key"));
            }
            Ok(())
        },
        None => Err(refusal(404, "Session not found")),
    }
}

/// Archiving checks the coach key too, but a session row without a stored
/// hash is 403 rather than 404.
pub fn authorize_archive(stored_hash: Option<&str>, coach_key: &str, session_id: &str) -> (r:
    Result<(), ApiError>)
    ensures
        match opt_view(stored_hash) {
            Some(h) => if h.len() > 0 && hash_accepts(h, coach_key@, session_id@) {
                r is Ok
            } else {
                refuses(r, 403, "Invalid coach key"@)
            },
            None => refuses(r, 404, "Session not found"@),
        },
{
    match stored_hash {
        Some(h) => {
            if h.is_empty() || !hash_matches(h, coach_key, session_id) {
                return Err(refusal(403, "Invalid coach key"));
            }
            Ok(())
        },
        None => Err(refusal(404, "Session not found")),
    }
}

/// A share token's row: each column's text, where it has one.
#[derive(Debug, Clone)]
pub struct ShareTokenRow {
    pub session_id: Option<String>,
    pub role: Option<String>,
    pub pin_hash: Option<String>,
}

/// The view of an optional owned string.
pub open spec fn opt_string_view(s: Option<String>) -> Option<Seq<char>> {
    match s {
        Some(t) => Some(t@),
        None => None,
    }
}

fn opt_text_is(s: &Option<String>, literal: &str) -> (r: bool)
    ensures
        r == (opt_string_view(*s) == Some(literal@)),
{
    match s {
        Some(t) => text_is(chars_of(t.as_str()).as_slice(), literal),
        None => false,
    }
}

/// An assistant appends with its share token: an unknown token is refused,
/// so is a token of another session or of another role.
pub fn authorize_assistant(row: Option<&ShareTokenRow>, session_id: &str) -> (r: Result<
    (),
    ApiError,
>)
    ensures
        match row {
            None => refuses(r, 403, "Invalid token"@),
            Some(t) => if opt_string_view(t.session_id) != Some(session_id@) {
                refuses(r, 403, "Token does not match session"@)
            } else if opt_string_view(t.role) != Some("assistant"@) {
                refuses(r, 403, "This token cannot append events"@)
            } else {
                r is Ok
            },
        },
{
    match row {
        None => Err(refusal(403, "Invalid token")),
        Some(t) => {
            let same_session = match &t.session_id {
                Some(id) => chars_equal(chars_of(id.as_str()).as_slice(), chars_of(session_id).as_slice()),
                None => false,
            };
            if !same_session {
                return Err(refusal(403, "Token does not match session"));
            }
            if !opt_text_is(&t.role, "assistant") {
                return Err(refusal(403, "This token cannot append events"));
            }
            Ok(())
        },
    }
}

/// Recovering a session needs the PIN whose hash it stores.
pub fn check_recovery_pin(stored_hash: Option<&str>, pin: &str, session_id: &str) -> (r: Result<
    (),
    ApiError,
>)
    ensures
        match opt_view(stored_hash) {
            Some(h) if h.len() > 0 => if hash_accepts(h, pin@, session_id@) {
                r is Ok
            } else {
                refuses(r, 403, "Invalid PIN"@)
            },
            _ => refuses(r, 404, "No recovery PIN set for this session"@),
        },
{
    match stored_hash {
        Some(h) => {
            if h.is_empty() {
                return Err(refusal(404, "No recovery PIN set for this session"));
            }
            if !hash_matches(h, pin, session_id) {
                return Err(refusal(403, "Invalid PIN"));
            }
            Ok(())
        },
        None => Err(refusal(404, "No recovery PIN set for this session")),
    }
}

// ── What a share token reveals ──────────────────────────────────────────────

/// A column's text, empty where it has none.
pub open spec fn text_or_empty(s: Option<String>) -> Seq<char> {
    match s {
        Some(t) => t@,
        None => Seq::empty(),
    }
}

fn owned_text_or_empty(s: &Option<String>) -> (r: String)
    ensures
        r@ == text_or_empty(*s),
{
    match s {
        Some(t) => string_from_chars(chars_of(t.as_str()).as_slice()),
        None => string_from_chars(Vec::<char>::new().as_slice()),
    }
}

/// The session and role of a token row, revealed.
pub open spec fn reveals(info: TokenInfo, row: ShareTokenRow) -> bool {
    &&& info.session_id@ == text_or_empty(row.session_id)
    &&& info.role@ == text_or_empty(row.role)
    &&& !info.requires_pin
}

/// A token row, revealed.
fn revealed(row: &ShareTokenRow) -> (info: TokenInfo)
    ensures
        reveals(info, *row),
{
    TokenInfo {
        session_id: owned_text_or_empty(&row.session_id),
        role: owned_text_or_empty(&row.role),
        requires_pin: false,
    }
}

/// What resolving a token answers: an unknown token is 404; a token with a
/// PIN reveals neither session nor role, only that a PIN is needed; any
/// other token reveals both.
pub fn resolve_token_info(row: Option<&ShareTokenRow>) -> (r: Result<TokenInfo, ApiError>)
    ensures
        match row {
            None => refuses(r, 404, "Invalid or expired token"@),
            Some(t) => if text_or_empty(t.pin_hash).len() > 0 {
                r matches Ok(info) && info.session_id@.len() == 0 && info.role@.len() == 0
                    && info.requires_pin
            } else {
                r matches Ok(info) && reveals(info, *t)
            },
        },
{
    match row {
        None => Err(refusal(404, "Invalid or expired token")),
        Some(t) => {
            let pin_hash = owned_text_or_empty(&t.pin_hash);
            if !pin_hash.as_str().is_empty() {
                Ok(TokenInfo {
                    session_id: string_from_chars(Vec::<char>::new().as_slice()),
                    role: string_from_chars(Vec::<char>::new().as_slice()),
                    requires_pin: true,
                })
            } else {
                Ok(revealed(t))
            }
        },
    }
}

/// What authenticating to a token with `pin` answers: an unknown token is
/// 404; a token without a PIN is revealed; a token with a PIN is revealed
/// when its hash accepts `pin` (salted with the token), and 403 otherwise.
pub fn authenticate_token(row: Option<&ShareTokenRow>, pin: &str, token: &str) -> (r: Result<
    TokenInfo,
    ApiError,
>)
    ensures
        match row {
            None => refuses(r, 404, "Invalid or expired token"@),
            Some(t) => if text_or_empty(t.pin_hash).len() == 0 || hash_accepts(
                text_or_empty(t.pin_hash),
                pin@,
                token@,
            ) {
                r matches Ok(info) && reveals(info, *t)
            } else {
                refuses(r, 403, "Invalid PIN"@)
            },
        },
{
    match row {
        None => Err(refusal(404, "Invalid or expired token")),
        Some(t) => {
            let pin_hash = owned_text_or_empty(&t.pin_hash);
            if pin_hash.as_str().is_empty() {
                return Ok(revealed(t));
            }
            if !hash_matches(pin_hash.as_str(), pin, token) {
                return Err(refusal(403, "Invalid PIN"));
            }
            Ok(revealed(t))
        },
    }
}

/// The hash to store for a token's new PIN: none for an empty PIN (which
/// clears it), otherwise the PIN hashed with the token as salt.
pub fn token_pin_hash(pin: &str, token: &str) -> (r: Option<String>)
    ensures
        match r {
            None => pin@.len() == 0,
            Some(h) => pin@.len() > 0 && h@ == salted_hash(pin@, token@),
        },
{
    if pin.is_empty() {
        None
    } else {
        Some(simple_hash(pin, token))
    }
}

/// Once a PIN is set on a token, authenticating with that PIN is accepted:
/// the condition under which `authenticate_token` reveals the token holds.
pub proof fn lemma_token_pin_round_trip(row: ShareTokenRow, pin: Seq<char>, token: Seq<char>)
    requires
        text_or_empty(row.pin_hash) == salted_hash(pin, token),
    ensures
        text_or_empty(row.pin_hash).len() == 0 || hash_accepts(text_or_empty(row.pin_hash), pin, token),
{
}

/// A token of a session, as listed from the share-token table (a missing
/// column reads as empty).
#[derive(Debug, Clone)]
pub struct ListedShareToken {
    pub token: String,
    pub role: String,
}

/// The token of the last listed row with `role`.
pub open spec fn last_token_with_role(rows: Seq<ListedShareToken>, role: Seq<char>) -> Option<
    Seq<char>,
>
    decreases rows.len(),
{
    if rows.len() == 0 {
        None
    } else if rows.last().role@ == role {
        Some(rows.last().token@)
    } else {
        last_token_with_role(rows.drop_last(), role)
    }
}

/// The assistant and player tokens a session already has: for each role, the
/// token of the last row listed with it.
pub fn existing_share_tokens(rows: &[ListedShareToken]) -> (r: (Option<String>, Option<String>))
    ensures
        opt_string_view(r.0) == last_token_with_role(rows@, "assistant"@),
        opt_string_view(r.1) == last_token_with_role(rows@, "player"@),
{
    let mut assistant: Option<String> = None;
    let mut player: Option<String> = None;
    let mut i: usize = 0;
    while i < rows.len()
        invariant
            i <= rows.len(),
            opt_string_view(assistant) == last_token_with_role(rows@.take(i as int), "assistant"@),
            opt_string_view(player) == last_token_with_role(rows@.take(i as int), "player"@),
        decreases rows.len() - i,
    {
        let role = chars_of(rows[i].role.as_str());
        proof {
            reveal_strlit("assistant");
            reveal_strlit("player");
            assert(rows@.take(i as int + 1).drop_last() == rows@.take(i as int));
            assert(rows@.take(i as int + 1).last() == rows@[i as int]);
        }
        if text_is(role.as_slice(), "assistant") {
            assistant = Some(string_from_chars(chars_of(rows[i].token.as_str()).as_slice()));
            proof {
                assert("assistant"@.len() != "player"@.len());
                assert(rows@[i as int].role@ != "player"@);
            }
        } else if text_is(role.as_slice(), "player") {
            player = Some(string_from_chars(chars_of(rows[i].token.as_str()).as_slice()));
        }
        i = i + 1;
    }
    proof {
        assert(rows@.take(rows.len() as int) == rows@);
    }
    (assistant, player)
}

// ── Sequence numbers ────────────────────────────────────────────────────────

/// The highest of the event versions, each cut to 32 bits; 0 for none.
pub open spec fn max_version(versions: Seq<u64>) -> u32
    decreases versions.len(),
{
    if versions.len() == 0 {
        0
    } else {
        let rest = max_version(versions.drop_last());
        let v = versions.last() as u32;
        if v > rest {
            v
        } else {
            rest
        }
    }
}

/// An upload's cursor (its highest event version) and the next sequence
/// number the session hands out (one more, saturating).
pub fn upload_cursor(versions: &[u64]) -> (r: (u32, u32))
    ensures
        r.0 == max_version(versions@),
        r.1 == if r.0 == u32::MAX {
            u32::MAX
        } else {
            (r.0 + 1) as u32
        },
{
    let mut cursor: u32 = 0;
    let mut i: usize = 0;
    while i < versions.len()
        invariant
            i <= versions.len(),
            cursor == max_version(versions@.take(i as int)),
        decreases versions.len() - i,
    {
        let v = versions[i] as u32;
        proof {
            assert(versions@.take(i as int + 1).drop_last() == versions@.take(i as int));
        }
        if v > cursor {
            cursor = v;
        }
        i = i + 1;
    }
    proof {
        assert(versions@.take(versions.len() as int) == versions@);
    }
    (cursor, cursor.saturating_add(1))
}

/// The sequence numbers of appended events: consecutive from the start of
/// the reserved range.
pub fn appended_sequence_numbers(start_seq: u32, count: usize) -> (r: Vec<u32>)
    requires
        start_seq + count <= u32::MAX + 1,
    ensures
        r@.len() == count,
        forall|i: int| 0 <= i < count ==> r@[i] == start_seq + i,
{
    let mut r: Vec<u32> = Vec::new();
    let mut offset: usize = 0;
    while offset < count
        invariant
            offset <= count,
            start_seq + count <= u32::MAX + 1,
            r@.len() == offset,
            forall|i: int| 0 <= i < offset ==> r@[i] == start_seq + i,
        decreases count - offset,
    {
        r.push(start_seq + offset as u32);
        offset = offset + 1;
    }
    r
}

/// Database writes go out in batches of at most this many statements.
pub const MAX_D1_BATCH_STATEMENTS: usize = 100;

/// The batches for `count` statements: consecutive ranges of
/// [`MAX_D1_BATCH_STATEMENTS`], the last one possibly shorter.
pub fn statement_batches(count: usize) -> (r: Vec<(usize, usize)>)
    ensures
        r@.len() == (count + MAX_D1_BATCH_STATEMENTS - 1) / MAX_D1_BATCH_STATEMENTS as int,
        forall|i: int|
            0 <= i < r@.len() ==> (#[trigger] r@[i]).0 == i * MAX_D1_BATCH_STATEMENTS && r@[i].1
                == if (i + 1) * MAX_D1_BATCH_STATEMENTS < count {
                (i + 1) * MAX_D1_BATCH_STATEMENTS
            } else {
                count as int
            },
{
    let mut r: Vec<(usize, usize)> = Vec::new();
    let mut start: usize = 0;
    while start < count
        invariant
            start <= count,
            start == r@.len() * MAX_D1_BATCH_STATEMENTS || start == count,
            r@.len() * MAX_D1_BATCH_STATEMENTS >= start,
            r@.len() == 0 || (r@.len() - 1) * MAX_D1_BATCH_STATEMENTS < count,
            forall|i: int|
                0 <= i < r@.len() ==> (#[trigger] r@[i]).0 == i * MAX_D1_BATCH_STATEMENTS && r@[i].1
                    == if (i + 1) * MAX_D1_BATCH_STATEMENTS < count {
                    (i + 1) * MAX_D1_BATCH_STATEMENTS
                } else {
                    count as int
                },
        decreases count - start,
    {
        let end = if count - start > MAX_D1_BATCH_STATEMENTS {
            start + MAX_D1_BATCH_STATEMENTS
        } else {
            count
        };
        r.push((start, end));
        start = end;
    }
    proof {
        let k = r@.len() as int;
        let n = count as int;
        assert(k == (n + 99) / 100) by (nonlinear_arith)
            requires
                k * 100 >= n,
                k == 0 || (k - 1) * 100 < n,
                n >= 0,
                k >= 0,
        ;
    }
    r
}

// ── Event pages ─────────────────────────────────────────────────────────────

/// An event as stored: its sequence number and its JSON text.
#[derive(Debug, Clone)]
pub struct StoredEventRow {
    pub seq: u32,
    pub payload: String,
}

/// The payloads of stored rows.
pub open spec fn payloads(rows: Seq<StoredEventRow>) -> Seq<Seq<char>> {
    rows.map_values(|row: StoredEventRow| row.payload@)
}

/// The cursor of a page: the last row's sequence number, or the fallback for
/// an empty page.
pub open spec fn page_cursor(rows: Seq<StoredEventRow>, fallback: u32) -> u32 {
    if rows.len() == 0 {
        fallback
    } else {
        rows.last().seq
    }
}

/// `{"events":[p1,p2,...],"cursor":N}` with the stored payloads verbatim.
pub open spec fn events_body(payloads: Seq<Seq<char>>, cursor: nat) -> Seq<char> {
    "{\"events\":["@ + join(payloads, ","@) + "],\"cursor\":"@ + decimal(cursor) + "}"@
}

/// The JSON body of an event page, built from the stored payloads without
/// parsing them again.
pub fn build_events_response_json_body(rows: &[StoredEventRow], fallback_cursor: u32) -> (r:
    String)
    ensures
        r@ == events_body(payloads(rows@), page_cursor(rows@, fallback_cursor) as nat),
{
    let mut parts: Vec<Vec<char>> = Vec::new();
    let mut i: usize = 0;
    while i < rows.len()
        invariant
            i <= rows.len(),
            char_views(parts@) == payloads(rows@).take(i as int),
        decreases rows.len() - i,
    {
        parts.push(chars_of(rows[i].payload.as_str()));
        proof {
            assert(payloads(rows@).take(i as int + 1) == payloads(rows@).take(i as int).push(
                rows@[i as int].payload@,
            ));
            assert(char_views(parts@) == char_views(parts@.drop_last()).push(parts@.last()@));
        }
        i = i + 1;
    }
    proof {
        assert(payloads(rows@).take(rows.len() as int) == payloads(rows@));
    }
    let cursor = if rows.len() == 0 {
        fallback_cursor
    } else {
        rows[rows.len() - 1].seq
    };
    let mut body = chars_of("{\"events\":[");
    push_all(&mut body, join_chars(&parts, chars_of(",").as_slice()).as_slice());
    push_all(&mut body, chars_of("],\"cursor\":").as_slice());
    push_decimal(&mut body, cursor as u64);
    push_all(&mut body, chars_of("}").as_slice());
    string_from_chars(body.as_slice())
}

// ── Admin overview rows ─────────────────────────────────────────────────────

/// How many members a parsed JSON value has: the elements of an array, the
/// members of an object; 0 when there is no value or it is of another kind.
pub open spec fn members_of(parsed: Option<JsonValue>) -> nat {
    match parsed {
        Some(JsonValue::Array(items)) => items@.len(),
        Some(JsonValue::Object(members)) => members@.len(),
        _ => 0,
    }
}

/// The count shown for a stored JSON collection, given the column as
/// `serde_json` reads it.
pub fn member_count(parsed: Option<JsonValue>) -> (r: usize)
    ensures
        r == members_of(parsed),
{
    match parsed {
        Some(JsonValue::Array(items)) => items.len(),
        Some(JsonValue::Object(members)) => members.len(),
        _ => 0,
    }
}

/// The number of members of a stored JSON array or object; 0 when the column
/// is missing, is not JSON, or holds something else.
pub fn json_member_count(raw_json: Option<&str>) -> (r: usize)
    ensures
        r == match raw_json {
            Some(raw) => members_of(json_parsed(raw@)),
            None => 0,
        },
{
    match raw_json {
        Some(raw) => member_count(parse_json_value(raw)),
        None => 0,
    }
}

/// The status shown for a session: where its data lives.
pub open spec fn overview_status(is_live: bool, has_archive: bool) -> Seq<char> {
    if is_live && has_archive {
        "live+archived"@
    } else if is_live {
        "live-only"@
    } else if has_archive {
        "archived-only"@
    } else {
        "unknown"@
    }
}

/// The status shown for a session in the admin overview.
pub fn session_overview_status(is_live: bool, has_archive: bool) -> (r: String)
    ensures
        r@ == overview_status(is_live, has_archive),
{
    let s = if is_live && has_archive {
        "live+archived"
    } else if is_live {
        "live-only"
    } else if has_archive {
        "archived-only"
    } else {
        "unknown"
    };
    string_from_chars(chars_of(s).as_slice())
}

// ── Fresh tokens ────────────────────────────────────────────────────────────

/// Sixteen bytes from the system's random source (`getrandom::getrandom`),
/// or `None` when that source reports an error. Of the bytes only their
/// number is stated: they are random.
#[verifier::external_body]
fn random_token_bytes() -> (r: Option<Vec<u8>>)
    ensures
        r matches Some(bytes) ==> bytes@.len() == 16,
{
    let mut bytes = [0u8;16];
    match getrandom::getrandom(&mut bytes) {
        Ok(()) => Some(bytes.to_vec()),
        Err(_) => None,
    }
}

proof fn lemma_byte_hex_len(b: u8)
    ensures
        hex_padded(b as nat, 2).len() == 2,
{
    let n = b as nat;
    if n >= 16 {
        assert(n / 16 < 16);
        assert(hex(n / 16).len() == 1);
    }
}

/// Each byte takes two hex digits.
pub proof fn lemma_hex_bytes_len(bytes: Seq<u8>)
    ensures
        hex_bytes(bytes).len() == 2 * bytes.len(),
    decreases bytes.len(),
{
    if bytes.len() > 0 {
        lemma_hex_bytes_len(bytes.drop_last());
        lemma_byte_hex_len(bytes.last());
    }
}

/// A token made of `bytes`: their lower-case hex, two digits each.
pub fn token_from_bytes(bytes: &[u8]) -> (r: String)
    ensures
        r@ == hex_bytes(bytes@),
        r@.len() == 2 * bytes@.len(),
{
    let r = hex_of_bytes(bytes);
    proof {
        lemma_hex_bytes_len(bytes@);
    }
    r
}

/// The token used when no random bytes can be had: the current time in
/// milliseconds, in lower-case hex.
pub fn fallback_token(now_ms: u64) -> (r: String)
    ensures
        r@ == hex(now_ms as nat),
{
    let mut out: Vec<char> = Vec::new();
    push_hex(&mut out, now_ms);
    proof {
        assert(Seq::<char>::empty() + hex(now_ms as nat) == hex(now_ms as nat));
    }
    string_from_chars(out.as_slice())
}

/// A fresh share token or coach key: sixteen random bytes as 32 lower-case
/// hex digits; where the random source fails, the time `now_ms` in
/// lower-case hex (as [`fallback_token`] gives it).
pub fn gen_token(now_ms: u64) -> (r: String)
    ensures
        (r@.len() == 32 && exists|bytes: Seq<u8>| bytes.len() == 16 && r@ == hex_bytes(bytes))
            || r@ == hex(now_ms as nat),
{
    match random_token_bytes() {
        Some(bytes) => {
            let t = token_from_bytes(bytes.as_slice());
            proof {
                assert(bytes@.len() == 16 && t@ == hex_bytes(bytes@));
            }
            t
        },
        None => fallback_token(now_ms),
    }
}

// ── Response headers and statements ─────────────────────────────────────────

/// Header names and values as text.
pub open spec fn header_views(headers: Seq<(String, String)>) -> Seq<(Seq<char>, Seq<char>)> {
    headers.map_values(|h: (String, String)| (h.0@, h.1@))
}

fn header(name: &str, value: &str) -> (r: (String, String))
    ensures
        r.0@ == name@,
        r.1@ == value@,
{
    (string_from_chars(chars_of(name).as_slice()), string_from_chars(chars_of(value).as_slice()))
}

/// The CORS headers of every API response and of the preflight answer.
pub fn cors_headers(origin: &str) -> (r: Vec<(String, String)>)
    ensures
        header_views(r@) == seq![
            ("Access-Control-Allow-Origin"@, origin@),
            ("Access-Control-Allow-Methods"@, "GET, POST, OPTIONS"@),
            ("Access-Control-Allow-Headers"@, "Authorization, Content-Type, X-Token, X-Coach-Key"@),
            ("Vary"@, "Origin"@),
        ],
{
    let r = vec![
        header("Access-Control-Allow-Origin", origin),
        header("Access-Control-Allow-Methods", "GET, POST, OPTIONS"),
        header("Access-Control-Allow-Headers", "Authorization, Content-Type, X-Token, X-Coach-Key"),
        header("Vary", "Origin"),
    ];
    proof {
        assert(header_views(r@) =~= seq![
            ("Access-Control-Allow-Origin"@, origin@),
            ("Access-Control-Allow-Methods"@, "GET, POST, OPTIONS"@),
            ("Access-Control-Allow-Headers"@, "Authorization, Content-Type, X-Token, X-Coach-Key"@),
            ("Vary"@, "Origin"@),
        ]);
    }
    r
}

/// The headers that keep admin responses out of caches, crawlers and frames;
/// the HTML page also gets a content security policy that allows only its
/// inline style.
pub fn admin_security_headers(is_html: bool) -> (r: Vec<(String, String)>)
    ensures
        header_views(r@) == seq![
            ("Cache-Control"@, "no-store, max-age=0"@),
            ("Pragma"@, "no-cache"@),
            ("X-Robots-Tag"@, "noindex, nofollow, noarchive"@),
            ("X-Frame-Options"@, "DENY"@),
            ("Referrer-Policy"@, "same-origin"@),
        ] + if is_html {
            seq![
                (
                    "Content-Security-Policy"@,
                    "default-src 'none'; style-src 'unsafe-inline'; img-src 'none'; base-uri 'none'; frame-ancestors 'none'; form-action 'none'"@,
                ),
            ]
        } else {
            Seq::empty()
        },
{
    let mut r = vec![
        header("Cache-Control", "no-store, max-age=0"),
        header("Pragma", "no-cache"),
        header("X-Robots-Tag", "noindex, nofollow, noarchive"),
        header("X-Frame-Options", "DENY"),
        header("Referrer-Policy", "same-origin"),
    ];
    if is_html {
        r.push(
            header(
                "Content-Security-Policy",
                "default-src 'none'; style-src 'unsafe-inline'; img-src 'none'; base-uri 'none'; frame-ancestors 'none'; form-action 'none'",
            ),
        );
    }
    proof {
        assert(header_views(r@) =~= seq![
            ("Cache-Control"@, "no-store, max-age=0"@),
            ("Pragma"@, "no-cache"@),
            ("X-Robots-Tag"@, "noindex, nofollow, noarchive"@),
            ("X-Frame-Options"@, "DENY"@),
            ("Referrer-Policy"@, "same-origin"@),
        ] + if is_html {
            seq![
                (
                    "Content-Security-Policy"@,
                    "default-src 'none'; style-src 'unsafe-inline'; img-src 'none'; base-uri 'none'; frame-ancestors 'none'; form-action 'none'"@,
                ),
            ]
        } else {
            Seq::empty()
        });
    }
    r
}

/// The statement that stores an event: uploads ignore events already
/// stored, appends insert (and fail on a clash).
pub fn event_insert_sql(insert_or_ignore: bool) -> (r: &'static str)
    ensures
        r@ == if insert_or_ignore {
            "INSERT OR IGNORE INTO events (session_id, seq, payload) VALUES (?1, ?2, ?3)"@
        } else {
            "INSERT INTO events (session_id, seq, payload) VALUES (?1, ?2, ?3)"@
        },
{
    if insert_or_ignore {
        "INSERT OR IGNORE INTO events (session_id, seq, payload) VALUES (?1, ?2, ?3)"
    } else {
        "INSERT INTO events (session_id, seq, payload) VALUES (?1, ?2, ?3)"
    }
}

// ── Request plans ───────────────────────────────────────────────────────────
//
// Each write request is decided before anything is written: its checks run
// in the worker's order, the first that fails is the answer, and only a
// request that passes them all gets a plan of what to write.

/// `r` answers with `refusal` when there is one, and succeeds otherwise.
pub open spec fn outcome_is<T>(r: Result<T, ApiError>, refusal: Option<(u16, Seq<char>)>) -> bool {
    match refusal {
        Some((status, message)) => refuses(r, status, message),
        None => r is Ok,
    }
}

/// Why the coach key is refused, if it is (see [`authorize_coach`]).
pub open spec fn coach_refusal(stored_hash: Option<Seq<char>>, coach_key: Seq<char>, session_id: Seq<
    char,
>) -> Option<(u16, Seq<char>)> {
    match stored_hash {
        Some(h) if h.len() > 0 => if hash_accepts(h, coach_key, session_id) {
            None
        } else {
            Some((403, "Invalid coach key"@))
        },
        _ => Some((404, "Session not found"@)),
    }
}

/// Why an assistant's token is refused, if it is (see
/// [`authorize_assistant`]).
pub open spec fn assistant_refusal(row: Option<ShareTokenRow>, session_id: Seq<char>) -> Option<
    (u16, Seq<char>),
> {
    match row {
        None => Some((403, "Invalid token"@)),
        Some(t) => if opt_string_view(t.session_id) != Some(session_id) {
            Some((403, "Token does not match session"@))
        } else if opt_string_view(t.role) != Some("assistant"@) {
            Some((403, "This token cannot append events"@))
        } else {
            None
        },
    }
}

/// The view of a parsed request body: its field, or the parse error.
pub open spec fn body_view(body: Result<String, String>) -> Result<Seq<char>, Seq<char>> {
    match body {
        Ok(t) => Ok(t@),
        Err(m) => Err(m@),
    }
}

fn refused_with<T>(e: ApiError) -> (r: Result<T, ApiError>)
    ensures
        r matches Err(x) && x == e,
{
    Err(e)
}

/// What an upload writes: the session row's cursor and next sequence
/// number, the hash of the new coach key, and each event's sequence number
/// (its version cut to 32 bits).
pub struct UploadPlan {
    pub cursor: u32,
    pub next_seq: u32,
    pub coach_key_hash: String,
    pub event_seqs: Vec<u32>,
}

/// Why an upload is refused, if it is (see [`check_upload_request`]).
pub open spec fn upload_refusal(session_id: Seq<char>, event_count: nat) -> Option<(u16, Seq<char>)> {
    if session_id.len() == 0 || event_count == 0 {
        Some((400, "session_id and events required"@))
    } else if event_count > MAX_EVENTS_UPLOAD {
        Some((400, "Too many events (max 1000 per upload)"@))
    } else {
        None
    }
}

/// Decides an upload of events with the given versions, under the fresh
/// `coach_key`: refused as [`check_upload_request`] refuses, and otherwise
/// the plan of what to write.
pub fn plan_upload(session_id: &str, versions: &[u64], coach_key: &str) -> (r: Result<
    UploadPlan,
    ApiError,
>)
    ensures
        outcome_is(r, upload_refusal(session_id@, versions@.len())),
        r matches Ok(plan) ==> {
            &&& plan.cursor == max_version(versions@)
            &&& plan.next_seq == if plan.cursor == u32::MAX {
                u32::MAX
            } else {
                (plan.cursor + 1) as u32
            }
            &&& plan.coach_key_hash@ == salted_hash(coach_key@, session_id@)
            &&& plan.event_seqs@ == versions@.map_values(|v: u64| v as u32)
        },
{
    if let Err(e) = check_upload_request(session_id, versions.len()) {
        return refused_with(e);
    }
    let (cursor, next_seq) = upload_cursor(versions);
    let mut event_seqs: Vec<u32> = Vec::new();
    let mut i: usize = 0;
    while i < versions.len()
        invariant
            i <= versions.len(),
            event_seqs@ == versions@.take(i as int).map_values(|v: u64| v as u32),
        decreases versions.len() - i,
    {
        event_seqs.push(versions[i] as u32);
        proof {
            assert(versions@.take(i as int + 1).map_values(|v: u64| v as u32) =~= versions@.take(
                i as int,
            ).map_values(|v: u64| v as u32).push(versions@[i as int] as u32));
        }
        i = i + 1;
    }
    proof {
        assert(versions@.take(versions.len() as int) == versions@);
    }
    Ok(UploadPlan { cursor, next_seq, coach_key_hash: simple_hash(coach_key, session_id), event_seqs })
}

/// Who asks to append: an assistant with its share token's row (`None`
/// for an unknown token), or the coach with the `X-Coach-Key` header and
/// the session's stored key hash.
pub enum AppendAccess {
    Assistant { token_row: Option<ShareTokenRow> },
    Coach { coach_key_header: String, stored_coach_key_hash: Option<String> },
}

/// Why an append is refused, if it is: the batch size first, then the
/// token or the coach key.
pub open spec fn append_refusal(event_count: nat, access: AppendAccess, session_id: Seq<char>) -> Option<
    (u16, Seq<char>),
> {
    if event_count == 0 {
        Some((400, "events required"@))
    } else if event_count > MAX_EVENTS_APPEND {
        Some((400, "Too many events (max 100 per append)"@))
    } else {
        match access {
            AppendAccess::Assistant { token_row } => assistant_refusal(token_row, session_id),
            AppendAccess::Coach { coach_key_header, stored_coach_key_hash } => if coach_key_header@.len()
                == 0 {
                Some((401, "Missing X-Coach-Key header"@))
            } else {
                coach_refusal(opt_string_view(stored_coach_key_hash), coach_key_header@, session_id)
            },
        }
    }
}

/// Decides whether an append of `event_count` events may reserve sequence
/// numbers and write; nothing is written on a refusal.
pub fn authorize_append(event_count: usize, access: &AppendAccess, session_id: &str) -> (r: Result<
    (),
    ApiError,
>)
    ensures
        outcome_is(r, append_refusal(event_count as nat, *access, session_id@)),
{
    if let Err(e) = check_append_request(event_count) {
        return refused_with(e);
    }
    match access {
        AppendAccess::Assistant { token_row } => authorize_assistant(token_row.as_ref(), session_id),
        AppendAccess::Coach { coach_key_header, stored_coach_key_hash } => {
            if let Err(e) = check_coach_key_header(coach_key_header.as_str()) {
                return refused_with(e);
            }
            let stored: Option<&str> = match stored_coach_key_hash {
                Some(h) => Some(h.as_str()),
                None => None,
            };
            authorize_coach(stored, coach_key_header.as_str(), session_id)
        },
    }
}

/// Why setting a session's recovery PIN is refused, if it is: the coach
/// key header, the request body, the PIN, then the coach key.
pub open spec fn set_pin_refusal(
    coach_key_header: Seq<char>,
    body_pin: Result<Seq<char>, Seq<char>>,
    stored_coach_key_hash: Option<Seq<char>>,
    session_id: Seq<char>,
) -> Option<(u16, Seq<char>)> {
    if coach_key_header.len() == 0 {
        Some((401, "Missing X-Coach-Key header"@))
    } else {
        match body_pin {
            Err(message) => Some((400, message)),
            Ok(pin) => if !is_pin(pin) {
                Some((400, "PIN must be 4–8 digits"@))
            } else {
                coach_refusal(stored_coach_key_hash, coach_key_header, session_id)
            },
        }
    }
}

/// Decides a request to set a session's recovery PIN; `body_pin` is the
/// body's PIN or the error reading the body. The plan is the hash to store:
/// the PIN salted with the session id.
pub fn plan_set_pin(
    coach_key_header: &str,
    body_pin: Result<String, String>,
    stored_coach_key_hash: Option<&str>,
    session_id: &str,
) -> (r: Result<String, ApiError>)
    ensures
        outcome_is(
            r,
            set_pin_refusal(coach_key_header@, body_view(body_pin), opt_view(stored_coach_key_hash), session_id@),
        ),
        r matches Ok(h) ==> body_pin matches Ok(pin) && h@ == salted_hash(pin@, session_id@),
{
    if let Err(e) = check_coach_key_header(coach_key_header) {
        return refused_with(e);
    }
    let pin = match body_pin {
        Ok(pin) => pin,
        Err(message) => {
            return Err(ApiError { status: 400, message });
        },
    };
    if let Err(e) = check_session_pin(pin.as_str()) {
        return refused_with(e);
    }
    if let Err(e) = authorize_coach(stored_coach_key_hash, coach_key_header, session_id) {
        return refused_with(e);
    }
    Ok(simple_hash(pin.as_str(), session_id))
}

/// Why setting a share token's PIN is refused, if it is: the request body,
/// the PIN, then whether the token exists.
pub open spec fn set_token_pin_refusal(body_pin: Result<Seq<char>, Seq<char>>, token_exists: bool) -> Option<
    (u16, Seq<char>),
> {
    match body_pin {
        Err(message) => Some((400, message)),
        Ok(pin) => if !(pin.len() == 0 || is_pin(pin)) {
            Some((400, "PIN must be 4–8 digits, or empty to clear"@))
        } else if !token_exists {
            Some((404, "Token not found"@))
        } else {
            None
        },
    }
}

/// Decides a request to set a share token's PIN; the plan is the hash to
/// store, or `None` to clear it (for an empty PIN).
pub fn plan_set_token_pin(body_pin: Result<String, String>, token: &str, token_exists: bool) -> (r:
    Result<Option<String>, ApiError>)
    ensures
        outcome_is(r, set_token_pin_refusal(body_view(body_pin), token_exists)),
        r matches Ok(h) ==> body_pin matches Ok(pin) && match h {
            None => pin@.len() == 0,
            Some(x) => pin@.len() > 0 && x@ == salted_hash(pin@, token@),
        },
{
    let pin = match body_pin {
        Ok(pin) => pin,
        Err(message) => {
            return Err(ApiError { status: 400, message });
        },
    };
    if let Err(e) = check_token_pin(pin.as_str()) {
        return refused_with(e);
    }
    if !token_exists {
        return Err(refusal(404, "Token not found"));
    }
    Ok(token_pin_hash(pin.as_str(), token))
}

} // verus!
