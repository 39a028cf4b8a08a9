//! What the web interface is asked, and what it answers.

use vstd::prelude::*;

use crate::block::{Block, BlockView};
use crate::fts::match_expr;
use crate::json::{
    display_json, flag_json, int_json, json_display, json_text,
    lemma_array_is, no_fields, number_of, text_json, try_text, Fields, Json, JsonView,
};
use crate::query::{
    anywhere, anywhere_pattern, at_start, lemma_put_at_end, lemma_put_in_more, plan_search, put_in,
    search_query, shape, shape_of, title,
    title_of, Count, Queued, SearchLine, SearchPlan, SessionLine, Shape, Shown, Surface, Totals,
};
use crate::text::{
    is_white, join, joined, law_joining_goes_on, law_white_space_parts_words,
    law_word_is_its_own_word, law_words_are_words, opt_str, opt_text, or_empty, split_whitespace,
    starts_with, str_eq, words,
};
use crate::url::{get_i64, get_str, int_of, int_param, map_texts, text_param, Params};

verus! {

/// What a path asks for.
pub enum Route {
    /// The page itself.
    Page,
    /// The list of sessions.
    Sessions,
    /// The sessions that another one spawned.
    Subagents,
    /// A search.
    Search,
    /// The counts.
    Stats,
    /// The session with an id, or with the beginning of one.
    Session(String),
    /// Nothing that is known.
    NotFound,
}

/// The model of what a path asks for.
pub enum RouteView {
    Page,
    Sessions,
    Subagents,
    Search,
    Stats,
    Session(Seq<char>),
    NotFound,
}

impl View for Route {
    type V = RouteView;

    open spec fn view(&self) -> RouteView {
        match self {
            Route::Page => RouteView::Page,
            Route::Sessions => RouteView::Sessions,
            Route::Subagents => RouteView::Subagents,
            Route::Search => RouteView::Search,
            Route::Stats => RouteView::Stats,
            Route::Session(id) => RouteView::Session(id@),
            Route::NotFound => RouteView::NotFound,
        }
    }
}

/// The text without the prefix, as often as it stands at the front.
pub open spec fn without_prefix(s: Seq<char>, prefix: Seq<char>) -> Seq<char>
    decreases s.len(),
{
    if prefix.len() > 0 && prefix.is_prefix_of(s) {
        without_prefix(s.skip(prefix.len() as int), prefix)
    } else {
        s
    }
}

/// What a path asks for.
pub open spec fn route_of(path: Seq<char>) -> RouteView {
    if path == "/"@ || path == "/index.html"@ {
        RouteView::Page
    } else if path == "/api/sessions"@ {
        RouteView::Sessions
    } else if path == "/api/subagents"@ {
        RouteView::Subagents
    } else if path == "/api/search"@ {
        RouteView::Search
    } else if path == "/api/stats"@ {
        RouteView::Stats
    } else if "/api/session/"@.is_prefix_of(path) {
        RouteView::Session(without_prefix(path, "/api/session/"@))
    } else {
        RouteView::NotFound
    }
}

fn strip_prefix(s: &str, prefix: &str) -> (r: String)
    ensures
        r@ == without_prefix(s@, prefix@),
    decreases s@.len(),
{
    let n = prefix.unicode_len();
    if n > 0 && starts_with(s, prefix) {
        let len = s.unicode_len();
        assert(s@.subrange(n as int, len as int) == s@.skip(n as int));
        strip_prefix(s.substring_char(n, len), prefix)
    } else {
        s.to_owned()
    }
}

/// What a path asks for.
pub fn route(path: &str) -> (r: Route)
    ensures
        r@ == route_of(path@),
{
    if str_eq(path, "/") || str_eq(path, "/index.html") {
        Route::Page
    } else if str_eq(path, "/api/sessions") {
        Route::Sessions
    } else if str_eq(path, "/api/subagents") {
        Route::Subagents
    } else if str_eq(path, "/api/search") {
        Route::Search
    } else if str_eq(path, "/api/stats") {
        Route::Stats
    } else if starts_with(path, "/api/session/") {
        Route::Session(strip_prefix(path, "/api/session/"))
    } else {
        Route::NotFound
    }
}

/// An answer to a request. Where no type is given, the body is plain text.
pub struct Reply {
    pub status: u16,
    pub content_type: Option<String>,
    pub body: String,
}

/// The answer with the page.
pub fn html_response(body: &str) -> (r: Reply)
    ensures
        r.status == 200,
        opt_text(r.content_type) == Some("text/html; charset=utf-8"@),
        r.body@ == body@,
{
    Reply {
        status: 200,
        content_type: Some("text/html; charset=utf-8".to_owned()),
        body: body.to_owned(),
    }
}

/// The answer to a path that is not known.
pub fn not_found() -> (r: Reply)
    ensures
        r.status == 404,
        r.content_type is None,
        r.body@ == "not found"@,
{
    Reply { status: 404, content_type: None, body: "not found".to_owned() }
}

/// The answer with a text in JSON.
pub fn response_with_json(body: String, status: u16) -> (r: Reply)
    ensures
        r.status == status,
        opt_text(r.content_type) == Some("application/json; charset=utf-8"@),
        r.body@ == body@,
{
    Reply {
        status,
        content_type: Some("application/json; charset=utf-8".to_owned()),
        body,
    }
}

/// An object that says what went wrong.
pub open spec fn error_json(message: Seq<char>) -> JsonView {
    JsonView::Object(no_fields().insert("error"@, JsonView::Str(message)))
}

/// An object that says what went wrong.
pub fn error_object(message: &str) -> (r: Json)
    ensures
        r@ == error_json(message@),
{
    Fields::new().with("error", Json::Str(message.to_owned())).object()
}

/// The answer with the text of a value; null where it has none.
pub fn value_response(text: Option<String>) -> (r: Reply)
    ensures
        r.status == 200,
        opt_text(r.content_type) == Some("application/json; charset=utf-8"@),
        r.body@ == match opt_text(text) {
            Some(t) => t,
            None => "null"@,
        },
{
    match text {
        Some(t) => response_with_json(t, 200),
        None => response_with_json("null".to_owned(), 200),
    }
}

/// The answer with a value, or with what went wrong when it was looked up.
pub fn json_response(value: &Result<Json, String>) -> (r: Reply)
    ensures
        opt_text(r.content_type) == Some("application/json; charset=utf-8"@),
        match value {
            Ok(v) => r.status == 200 && r.body@ == json_text(v@),
            Err(e) => r.status == 500 && r.body@ == json_display(error_json(e@)),
        },
{
    match value {
        Ok(v) => value_response(try_text(v)),
        Err(e) => response_with_json(display_json(&error_object(e.as_str())), 500),
    }
}

/// The number of rows that a request may ask for.
pub open spec fn limit_of(p: Map<Seq<char>, Seq<char>>, default: i64, max: i64) -> i64 {
    let n = int_param(p, "limit"@, default);
    if n < 1 {
        1
    } else if n > max {
        max
    } else {
        n
    }
}

fn limit(p: &Params, default: i64, max: i64) -> (r: i64)
    ensures
        r == limit_of(map_texts(p@), default, max),
{
    let n = get_i64(p, "limit", default);
    if n < 1 {
        1
    } else if n > max {
        max
    } else {
        n
    }
}

/// The number of rows is always in range.
pub proof fn law_limits_are_in_range(p: Map<Seq<char>, Seq<char>>, default: i64, max: i64)
    requires
        1 <= max,
    ensures
        1 <= limit_of(p, default, max) <= max,
{
}

/// The query for the sessions that no other one spawned, newest first, of one project or of all,
/// each with how many it spawned itself.
pub open spec fn top_sessions_query(by_project: bool) -> Seq<char> {
    "SELECT session_id, COALESCE(cwd, project_path), custom_title, ai_title, git_branch, last_timestamp, message_count, (SELECT COUNT(*) FROM sessions c WHERE c.parent_session_id = sessions.session_id) FROM sessions WHERE parent_session_id IS NULL"@
        + (if by_project {
        " AND (cwd LIKE ?1 OR project_path LIKE ?1 OR project_dir LIKE ?1)"@
    } else {
        Seq::empty()
    }) + " ORDER BY last_timestamp DESC LIMIT ?2"@
}

/// A list of sessions to ask the database for: the query, and what is bound to its parameters.
pub struct SessionsPlan {
    pub sql: String,
    pub project: String,
    pub limit: i64,
}

/// The list of sessions that a request asks for.
pub fn plan_sessions(p: &Params) -> (r: SessionsPlan)
    ensures
        r.sql@ == top_sessions_query(text_param(map_texts(p@), "project"@) is Some),
        r.project@ == anywhere(Surface::Page, text_param(map_texts(p@), "project"@)),
        r.limit == limit_of(map_texts(p@), 100, 1000),
{
    let project = get_str(p, "project");
    let mut sql = "SELECT session_id, COALESCE(cwd, project_path), custom_title, ai_title, git_branch, last_timestamp, message_count, (SELECT COUNT(*) FROM sessions c WHERE c.parent_session_id = sessions.session_id) FROM sessions WHERE parent_session_id IS NULL".to_owned();
    let ghost head = sql@;
    if project.is_some() {
        sql.append(" AND (cwd LIKE ?1 OR project_path LIKE ?1 OR project_dir LIKE ?1)");
    }
    assert(sql@ == head + if project is Some {
        " AND (cwd LIKE ?1 OR project_path LIKE ?1 OR project_dir LIKE ?1)"@
    } else {
        Seq::empty()
    });
    sql.append(" ORDER BY last_timestamp DESC LIMIT ?2");
    SessionsPlan { sql, project: anywhere_pattern(&Surface::Page, project), limit: limit(p, 100, 1000) }
}

/// A session in the list, with how many it spawned.
pub struct TopSession {
    pub session: SessionLine,
    pub subagents: i64,
}

/// A session in the list, as JSON.
pub open spec fn session_json(s: TopSession) -> JsonView {
    JsonView::Object(
        no_fields().insert("session_id"@, JsonView::Str(s.session.session_id@)).insert(
            "project"@,
            text_json(opt_text(s.session.project)),
        ).insert(
            "title"@,
            JsonView::Str(title_of(opt_text(s.session.custom_title), opt_text(s.session.ai_title))),
        ).insert("branch"@, text_json(opt_text(s.session.branch))).insert(
            "last"@,
            text_json(opt_text(s.session.last)),
        ).insert("messages"@, int_json(s.session.messages)).insert(
            "subagent_count"@,
            int_json(s.subagents),
        ),
    )
}

fn session_object(s: &TopSession) -> (r: Json)
    ensures
        r@ == session_json(*s),
{
    Fields::new().with("session_id", Json::Str(s.session.session_id.clone())).with(
        "project",
        Json::from_opt(&s.session.project),
    ).with("title", Json::Str(title(&s.session.custom_title, &s.session.ai_title))).with(
        "branch",
        Json::from_opt(&s.session.branch),
    ).with("last", Json::from_opt(&s.session.last)).with(
        "messages",
        Json::from_i64(s.session.messages),
    ).with("subagent_count", Json::from_i64(s.subagents)).object()
}

/// An object with one list in it.
pub open spec fn list_json(key: Seq<char>, items: Seq<JsonView>) -> JsonView {
    JsonView::Object(no_fields().insert(key, JsonView::Array(items)))
}

/// The list of sessions, as JSON.
pub open spec fn sessions_reply(rows: Seq<TopSession>) -> JsonView {
    list_json("sessions"@, rows.map_values(|s: TopSession| session_json(s)))
}

/// The answer to a request for the list of sessions.
pub fn api_sessions(rows: &Vec<TopSession>) -> (r: Json)
    ensures
        r@ == sessions_reply(rows@),
{
    let mut items: Vec<Json> = Vec::new();
    for i in 0..rows.len()
        invariant
            items@.len() == i,
            forall|j: int| 0 <= j < i ==> (#[trigger] items@[j])@ == session_json(rows@[j]),
    {
        items.push(session_object(&rows[i]));
    }
    proof {
        lemma_array_is(items@, rows@.map_values(|s: TopSession| session_json(s)));
    }
    Fields::new().with("sessions", Json::Array(items)).object()
}

/// A session that another one spawned.
pub struct SubagentLine {
    pub session_id: String,
    pub last: Option<String>,
    pub messages: i64,
    pub prompt: Option<String>,
}

/// The title of a session that another one spawned: what it was asked to do, on one line.
pub open spec fn subagent_title_of(prompt: Option<Seq<char>>) -> Seq<char> {
    let t = joined(words(or_empty(prompt)), seq![' ']);
    if t.len() == 0 {
        "(subagent)"@
    } else {
        t
    }
}

/// The title of a session that another one spawned: what it was asked to do, on one line.
pub fn subagent_title(prompt: &Option<String>) -> (r: String)
    ensures
        r@ == subagent_title_of(opt_text(*prompt)),
{
    let t = match prompt {
        Some(p) => {
            proof {
                reveal_strlit(" ");
                assert(" "@ == seq![' ']);
            }
            join(&split_whitespace(p.as_str()), " ")
        },
        None => String::new(),
    };
    assert(t@ == joined(words(or_empty(opt_text(*prompt))), seq![' ']));
    if t.as_str().is_empty() {
        "(subagent)".to_owned()
    } else {
        t
    }
}

/// A session that another one spawned, as JSON.
pub open spec fn subagent_json(s: SubagentLine) -> JsonView {
    JsonView::Object(
        no_fields().insert("session_id"@, JsonView::Str(s.session_id@)).insert(
            "title"@,
            JsonView::Str(subagent_title_of(opt_text(s.prompt))),
        ).insert("last"@, text_json(opt_text(s.last))).insert("messages"@, int_json(s.messages)),
    )
}

/// The sessions that another one spawned, as JSON.
pub open spec fn subagents_reply(rows: Seq<SubagentLine>) -> JsonView {
    list_json("subagents"@, rows.map_values(|s: SubagentLine| subagent_json(s)))
}

/// The answer to a request for the sessions that another one spawned.
pub fn api_subagents(rows: &Vec<SubagentLine>) -> (r: Json)
    ensures
        r@ == subagents_reply(rows@),
{
    let mut items: Vec<Json> = Vec::new();
    for i in 0..rows.len()
        invariant
            items@.len() == i,
            forall|j: int| 0 <= j < i ==> (#[trigger] items@[j])@ == subagent_json(rows@[j]),
    {
        let s = &rows[i];
        let item = Fields::new().with("session_id", Json::Str(s.session_id.clone())).with(
            "title",
            Json::Str(subagent_title(&s.prompt)),
        ).with("last", Json::from_opt(&s.last)).with(
            "messages",
            Json::from_i64(s.messages),
        ).object();
        items.push(item);
    }
    proof {
        lemma_array_is(items@, rows@.map_values(|s: SubagentLine| subagent_json(s)));
    }
    Fields::new().with("subagents", Json::Array(items)).object()
}

/// A search to put to the database, and how many rows it may give.
pub struct SearchRequest {
    pub plan: SearchPlan,
    pub limit: i64,
}

/// What is searched for; nothing where the request does not say.
pub open spec fn wanted(p: Map<Seq<char>, Seq<char>>) -> Seq<char> {
    match text_param(p, "q"@) {
        Some(q) => match_expr(q),
        None => Seq::empty(),
    }
}

/// The search that a request asks for. Nothing where there is nothing to search for.
pub fn plan_api_search(p: &Params) -> (r: Option<SearchRequest>)
    ensures
        match r {
            Some(s) => {
                let params = map_texts(p@);
                &&& s.plan.match_expr@ == wanted(params)
                &&& wanted(params).len() > 0
                &&& s.plan.sql@ == search_query(
                    Surface::Page,
                    text_param(params, "type"@) is Some,
                    text_param(params, "role"@) is Some,
                    text_param(params, "session"@) is Some,
                )
                &&& s.plan.block_type@ == or_empty(text_param(params, "type"@))
                &&& s.plan.role@ == or_empty(text_param(params, "role"@))
                &&& s.plan.session@ == at_start(Surface::Page, text_param(params, "session"@))
                &&& s.limit == limit_of(params, 50, 500)
            },
            None => wanted(map_texts(p@)).len() == 0,
        },
{
    let query = match get_str(p, "q") {
        Some(q) => q,
        None => {
            return None;
        },
    };
    let plan = plan_search(
        query,
        get_str(p, "type"),
        get_str(p, "role"),
        get_str(p, "session"),
        &Surface::Page,
    );
    match plan {
        Some(plan) => Some(SearchRequest { plan, limit: limit(p, 50, 500) }),
        None => None,
    }
}

/// A block that was found, as JSON.
pub open spec fn found_json(f: SearchLine) -> JsonView {
    JsonView::Object(
        no_fields().insert("block_id"@, int_json(f.block_id)).insert(
            "session_id"@,
            JsonView::Str(f.session_id@),
        ).insert("block_type"@, JsonView::Str(f.block_type@)).insert(
            "role"@,
            text_json(opt_text(f.role)),
        ).insert("snippet"@, JsonView::Str(f.snippet@)).insert(
            "timestamp"@,
            text_json(opt_text(f.timestamp)),
        ),
    )
}

/// What a search found, as JSON; where it failed, nothing and why.
pub open spec fn results_json(found: Result<Seq<SearchLine>, Seq<char>>) -> JsonView {
    match found {
        Ok(rows) => list_json("results"@, rows.map_values(|f: SearchLine| found_json(f))),
        Err(e) => JsonView::Object(
            no_fields().insert("results"@, JsonView::Array(Seq::empty())).insert(
                "error"@,
                JsonView::Str(e),
            ),
        ),
    }
}

/// The model of what came of a search.
pub open spec fn outcome_of(found: Result<Vec<SearchLine>, String>) -> Result<
    Seq<SearchLine>,
    Seq<char>,
> {
    match found {
        Ok(rows) => Ok(rows@),
        Err(e) => Err(e@),
    }
}

/// The answer to a search. A query that the database does not understand gives no results, and the
/// reason.
pub fn api_search(found: &Result<Vec<SearchLine>, String>) -> (r: Json)
    ensures
        r@ == results_json(outcome_of(*found)),
{
    let mut items: Vec<Json> = Vec::new();
    match found {
        Ok(rows) => {
            for i in 0..rows.len()
                invariant
                    items@.len() == i,
                    forall|j: int| 0 <= j < i ==> (#[trigger] items@[j])@ == found_json(rows@[j]),
            {
                let f = &rows[i];
                let item = Fields::new().with("block_id", Json::from_i64(f.block_id)).with(
                    "session_id",
                    Json::Str(f.session_id.clone()),
                ).with("block_type", Json::Str(f.block_type.clone())).with(
                    "role",
                    Json::from_opt(&f.role),
                ).with("snippet", Json::Str(f.snippet.clone())).with(
                    "timestamp",
                    Json::from_opt(&f.timestamp),
                ).object();
                items.push(item);
            }
            proof {
                lemma_array_is(items@, rows@.map_values(|f: SearchLine| found_json(f)));
            }
            Fields::new().with("results", Json::Array(items)).object()
        },
        Err(e) => {
            proof {
                lemma_array_is(items@, Seq::<JsonView>::empty());
            }
            Fields::new().with("results", Json::Array(items)).with(
                "error",
                Json::Str(e.clone()),
            ).object()
        },
    }
}

/// What is known of a session as a whole.
pub struct SessionMeta {
    pub title: String,
    pub project: Option<String>,
    pub branch: Option<String>,
    pub version: Option<String>,
    pub first: Option<String>,
    pub last: Option<String>,
    pub messages: i64,
}

/// What is known of a session as a whole, as JSON; only its id where nothing else is.
pub open spec fn meta_json(session_id: Seq<char>, meta: Option<SessionMeta>) -> JsonView {
    let id = no_fields().insert("session_id"@, JsonView::Str(session_id));
    JsonView::Object(
        match meta {
            Some(m) => id.insert("title"@, JsonView::Str(m.title@)).insert(
                "project"@,
                text_json(opt_text(m.project)),
            ).insert("branch"@, text_json(opt_text(m.branch))).insert(
                "version"@,
                text_json(opt_text(m.version)),
            ).insert("first"@, text_json(opt_text(m.first))).insert(
                "last"@,
                text_json(opt_text(m.last)),
            ).insert("messages"@, int_json(m.messages)),
            None => id,
        },
    )
}

fn meta_object(session_id: &str, meta: &Option<SessionMeta>) -> (r: Json)
    ensures
        r@ == meta_json(session_id@, *meta),
{
    let id = Fields::new().with("session_id", Json::Str(session_id.to_owned()));
    match meta {
        Some(m) => id.with("title", Json::Str(m.title.clone())).with(
            "project",
            Json::from_opt(&m.project),
        ).with("branch", Json::from_opt(&m.branch)).with(
            "version",
            Json::from_opt(&m.version),
        ).with("first", Json::from_opt(&m.first)).with("last", Json::from_opt(&m.last)).with(
            "messages",
            Json::from_i64(m.messages),
        ).object(),
        None => id.object(),
    }
}

/// A block of a message, as JSON.
pub open spec fn block_json(b: BlockView) -> JsonView {
    JsonView::Object(
        no_fields().insert("block_type"@, JsonView::Str(b.block_type)).insert(
            "text"@,
            text_json(b.text),
        ).insert("tool_name"@, text_json(b.tool_name)).insert(
            "tool_input"@,
            text_json(b.tool_input),
        ).insert("is_error"@, flag_json(b.is_error)).insert(
            "tool_result"@,
            text_json(b.tool_result),
        ),
    )
}

fn block_object(b: &Block) -> (r: Json)
    ensures
        r@ == block_json(b@),
{
    Fields::new().with("block_type", Json::Str(b.block_type.clone())).with(
        "text",
        Json::from_opt(&b.text),
    ).with("tool_name", Json::from_opt(&b.tool_name)).with(
        "tool_input",
        Json::from_opt(&b.tool_input),
    ).with("is_error", Json::from_flag(b.is_error)).with(
        "tool_result",
        Json::from_opt(&b.tool_result),
    ).object()
}

/// A message, as JSON.
pub open spec fn message_item(s: Shown) -> JsonView {
    JsonView::Object(
        no_fields().insert("kind"@, JsonView::Str("message"@)).insert(
            "role"@,
            JsonView::Str(s.record_type@),
        ).insert("model"@, text_json(opt_text(s.model))).insert(
            "timestamp"@,
            text_json(opt_text(s.timestamp)),
        ).insert("blocks"@, JsonView::Array(s.blocks@.map_values(|b: Block| block_json(b@)))),
    )
}

/// A message, as JSON.
pub fn message_json(s: &Shown) -> (r: Json)
    ensures
        r@ == message_item(*s),
{
    let mut blocks: Vec<Json> = Vec::new();
    for i in 0..s.blocks.len()
        invariant
            blocks@.len() == i,
            forall|j: int| 0 <= j < i ==> (#[trigger] blocks@[j])@ == block_json(s.blocks@[j]@),
    {
        blocks.push(block_object(&s.blocks[i]));
    }
    proof {
        lemma_array_is(blocks@, s.blocks@.map_values(|b: Block| block_json(b@)));
    }
    Fields::new().with("kind", Json::Str("message".to_owned())).with(
        "role",
        Json::Str(s.record_type.clone()),
    ).with("model", Json::from_opt(&s.model)).with("timestamp", Json::from_opt(&s.timestamp)).with(
        "blocks",
        Json::Array(blocks),
    ).object()
}

/// A queued message, as JSON.
pub open spec fn queued_item(q: Queued, timestamp: Option<Seq<char>>) -> JsonView {
    JsonView::Object(
        no_fields().insert("kind"@, JsonView::Str("queued"@)).insert(
            "operation"@,
            text_json(opt_text(q.operation)),
        ).insert("timestamp"@, text_json(timestamp)).insert("text"@, text_json(opt_text(q.text))),
    )
}

/// The first message that a record queued, as JSON; nothing where it queued none.
pub fn queued_json(s: &Shown) -> (r: Option<Json>)
    ensures
        match r {
            Some(j) => s.queued@.len() > 0 && j@ == queued_item(
                s.queued@[0],
                opt_text(s.timestamp),
            ),
            None => s.queued@.len() == 0,
        },
{
    if s.queued.len() == 0 {
        return None;
    }
    Some(
        Fields::new().with("kind", Json::Str("queued".to_owned())).with(
            "operation",
            Json::from_opt(&s.queued[0].operation),
        ).with("timestamp", Json::from_opt(&s.timestamp)).with(
            "text",
            Json::from_opt(&s.queued[0].text),
        ).object(),
    )
}

/// An event, as JSON.
pub open spec fn event_item(s: Shown) -> JsonView {
    JsonView::Object(
        no_fields().insert("kind"@, JsonView::Str("event"@)).insert(
            "event_type"@,
            JsonView::Str(s.record_type@),
        ).insert("timestamp"@, text_json(opt_text(s.timestamp))).insert(
            "summary"@,
            text_json(opt_text(s.summary)),
        ),
    )
}

fn event_json(s: &Shown) -> (r: Json)
    ensures
        r@ == event_item(*s),
{
    Fields::new().with("kind", Json::Str("event".to_owned())).with(
        "event_type",
        Json::Str(s.record_type.clone()),
    ).with("timestamp", Json::from_opt(&s.timestamp)).with(
        "summary",
        Json::from_opt(&s.summary),
    ).object()
}

/// A record, as JSON: a message, a queued message, or else an event.
pub open spec fn record_item(s: Shown) -> JsonView {
    match shape_of(s.record_type@) {
        Shape::Message => message_item(s),
        Shape::Queue => if s.queued@.len() > 0 {
            queued_item(s.queued@[0], opt_text(s.timestamp))
        } else {
            event_item(s)
        },
        Shape::Event => event_item(s),
    }
}

/// A record, as JSON: a message, a queued message, or else an event.
pub fn record_json(s: &Shown) -> (r: Json)
    ensures
        r@ == record_item(*s),
{
    match shape(s.record_type.as_str()) {
        Shape::Message => message_json(s),
        Shape::Queue => match queued_json(s) {
            Some(q) => q,
            None => event_json(s),
        },
        Shape::Event => event_json(s),
    }
}

/// A session with all its records, as JSON.
pub open spec fn session_reply(
    session_id: Seq<char>,
    meta: Option<SessionMeta>,
    records: Seq<Shown>,
) -> JsonView {
    JsonView::Object(
        no_fields().insert("session"@, meta_json(session_id, meta)).insert(
            "items"@,
            JsonView::Array(records.map_values(|s: Shown| record_item(s))),
        ),
    )
}

/// The answer to a request for a session: every record in order, so that all types are represented.
pub fn api_session(session_id: &str, meta: &Option<SessionMeta>, records: &Vec<Shown>) -> (r: Json)
    ensures
        r@ == session_reply(session_id@, *meta, records@),
{
    let mut items: Vec<Json> = Vec::new();
    for i in 0..records.len()
        invariant
            items@.len() == i,
            forall|j: int| 0 <= j < i ==> (#[trigger] items@[j])@ == record_item(records@[j]),
    {
        items.push(record_json(&records[i]));
    }
    proof {
        lemma_array_is(items@, records@.map_values(|s: Shown| record_item(s)));
    }
    Fields::new().with("session", meta_object(session_id, meta)).with(
        "items",
        Json::Array(items),
    ).object()
}

/// The answer to a request for a session that is not there.
pub fn session_not_found() -> (r: Json)
    ensures
        r@ == error_json("session not found"@),
{
    error_object("session not found")
}

/// A count, as JSON.
pub open spec fn count_json(c: Count) -> JsonView {
    JsonView::Object(
        no_fields().insert("name"@, JsonView::Str(c.name@)).insert("count"@, int_json(c.count)),
    )
}

/// A list of counts, as JSON.
pub open spec fn counts_json(counts: Seq<Count>) -> JsonView {
    JsonView::Array(counts.map_values(|c: Count| count_json(c)))
}

fn counts_array(counts: &Vec<Count>) -> (r: Json)
    ensures
        r@ == counts_json(counts@),
{
    let mut items: Vec<Json> = Vec::new();
    for i in 0..counts.len()
        invariant
            items@.len() == i,
            forall|j: int| 0 <= j < i ==> (#[trigger] items@[j])@ == count_json(counts@[j]),
    {
        let item = Fields::new().with("name", Json::Str(counts[i].name.clone())).with(
            "count",
            Json::from_i64(counts[i].count),
        ).object();
        items.push(item);
    }
    proof {
        lemma_array_is(items@, counts@.map_values(|c: Count| count_json(c)));
    }
    Json::Array(items)
}

/// The counts of a database, as JSON.
pub open spec fn stats_reply(t: Totals) -> JsonView {
    JsonView::Object(
        no_fields().insert("sessions"@, int_json(t.sessions)).insert(
            "records"@,
            int_json(t.records),
        ).insert("blocks"@, int_json(t.blocks)).insert(
            "record_types"@,
            counts_json(t.record_types@),
        ).insert("block_types"@, counts_json(t.block_types@)).insert(
            "tools"@,
            counts_json(t.tools@),
        ),
    )
}

/// The answer to a request for the counts.
pub fn api_stats(t: &Totals) -> (r: Json)
    ensures
        r@ == stats_reply(*t),
{
    Fields::new().with("sessions", Json::from_i64(t.sessions)).with(
        "records",
        Json::from_i64(t.records),
    ).with("blocks", Json::from_i64(t.blocks)).with(
        "record_types",
        counts_array(&t.record_types),
    ).with("block_types", counts_array(&t.block_types)).with(
        "tools",
        counts_array(&t.tools),
    ).object()
}

/// Whatever stands behind the path of sessions is taken as an id, or the beginning of one.
pub proof fn law_session_ids_are_routed(id: Seq<char>)
    requires
        !"/api/session/"@.is_prefix_of(id),
    ensures
        route_of("/api/session/"@ + id) == RouteView::Session(id),
{
    let prefix = "/api/session/"@;
    let path = prefix + id;
    reveal_strlit("/api/session/");
    reveal_strlit("/");
    reveal_strlit("/index.html");
    reveal_strlit("/api/sessions");
    reveal_strlit("/api/subagents");
    reveal_strlit("/api/search");
    reveal_strlit("/api/stats");
    assert(path[12] == '/');
    assert(path[7] == 's');
    assert("/api/sessions"@[12] == 's');
    assert("/api/subagents"@[7] == 'b');
    assert(path.take(prefix.len() as int) =~= prefix);
    assert(prefix.is_prefix_of(path));
    assert(path.skip(prefix.len() as int) =~= id);
    assert(without_prefix(path, prefix) == without_prefix(id, prefix));
}

/// The answer for a session has an item for each of its records, in order, and each item says what
/// it is.
pub proof fn law_every_record_is_answered(
    session_id: Seq<char>,
    meta: Option<SessionMeta>,
    records: Seq<Shown>,
    i: int,
)
    requires
        0 <= i < records.len(),
    ensures
        session_reply(session_id, meta, records).get("items"@) matches Some(JsonView::Array(items))
            && items.len() == records.len() && items[i].str_at("kind"@) == Some(
            kind_text(records[i]),
        ),
{
    reveal_strlit("kind");
    reveal_strlit("role");
    reveal_strlit("model");
    reveal_strlit("timestamp");
    reveal_strlit("blocks");
    reveal_strlit("operation");
    reveal_strlit("text");
    reveal_strlit("event_type");
    reveal_strlit("summary");
    assert("kind"@[0] == 'k');
    assert("role"@[0] == 'r');
    assert("text"@[0] == 't');
    let items = records.map_values(|s: Shown| record_item(s));
    assert(items[i] == record_item(records[i]));
}

/// What the item for a record says it is.
pub open spec fn kind_text(s: Shown) -> Seq<char> {
    match shape_of(s.record_type@) {
        Shape::Message => "message"@,
        Shape::Queue => if s.queued@.len() > 0 {
            "queued"@
        } else {
            "event"@
        },
        Shape::Event => "event"@,
    }
}

proof fn lemma_joined_has(parts: Seq<Seq<char>>, sep: Seq<char>, c: char)
    requires
        joined(parts, sep).contains(c),
    ensures
        sep.contains(c) || exists|k: int| 0 <= k < parts.len() && (#[trigger] parts[k]).contains(c),
    decreases parts.len(),
{
    if parts.len() == 1 {
        assert(parts[0].contains(c));
    } else if parts.len() > 1 {
        let front = parts.drop_last();
        let a = joined(front, sep);
        let s = joined(parts, sep);
        let last = parts[parts.len() - 1];
        let i = choose|i: int| 0 <= i < s.len() && s[i] == c;
        if i < a.len() {
            assert(a[i] == c);
            assert(a.contains(c));
            lemma_joined_has(front, sep, c);
            if !sep.contains(c) {
                let k = choose|k: int| 0 <= k < front.len() && (#[trigger] front[k]).contains(c);
                assert(parts[k].contains(c));
            }
        } else if i < a.len() + sep.len() {
            assert(sep[i - a.len()] == c);
        } else {
            assert(last[i - a.len() - sep.len()] == c);
            assert(last.contains(c));
        }
    }
}

/// The title of a session that another one spawned is never empty, and holds no white space but
/// spaces.
pub proof fn law_subagent_titles_are_one_line(prompt: Option<Seq<char>>, c: char)
    requires
        is_white(c),
        c != ' ',
    ensures
        subagent_title_of(prompt).len() > 0,
        !subagent_title_of(prompt).contains(c),
{
    reveal_strlit("(subagent)");
    let s = or_empty(prompt);
    let t = joined(words(s), seq![' ']);
    if t.contains(c) {
        lemma_joined_has(words(s), seq![' '], c);
        let k = choose|k: int| 0 <= k < words(s).len() && (#[trigger] words(s)[k]).contains(c);
        law_words_are_words(s, k);
        let w = words(s)[k];
        let i = choose|i: int| 0 <= i < w.len() && w[i] == c;
        assert(!is_white(w[i]));
    }
    assert forall|i: int| 0 <= i < "(subagent)"@.len() implies "(subagent)"@[i] != c by {}
}

/// A value at a key is this text, or null where there is none.
pub open spec fn holds_text(v: Option<JsonView>, text: Option<Seq<char>>) -> bool {
    match text {
        Some(s) => v == Some(JsonView::Str(s)),
        None => v == Some(JsonView::Null),
    }
}

/// A value at a key is this flag, or null where there is none.
pub open spec fn holds_flag(v: Option<JsonView>, flag: Option<bool>) -> bool {
    match flag {
        Some(b) => v == Some(JsonView::Bool(b)),
        None => v == Some(JsonView::Null),
    }
}

/// A value at a key is this integer.
pub open spec fn holds_int(v: Option<JsonView>, i: i64) -> bool {
    v == Some(JsonView::Number(number_of(i)))
}

/// A block hands out each of its fields under the name of that field.
pub open spec fn answers_block(v: JsonView, b: BlockView) -> bool {
    &&& v.get("block_type"@) == Some(JsonView::Str(b.block_type))
    &&& holds_text(v.get("text"@), b.text)
    &&& holds_text(v.get("tool_name"@), b.tool_name)
    &&& holds_text(v.get("tool_input"@), b.tool_input)
    &&& holds_flag(v.get("is_error"@), b.is_error)
    &&& holds_text(v.get("tool_result"@), b.tool_result)
}

proof fn lemma_block_answered(b: BlockView)
    ensures
        answers_block(block_json(b), b),
{
    reveal_strlit("block_type");
    reveal_strlit("text");
    reveal_strlit("tool_name");
    reveal_strlit("tool_input");
    reveal_strlit("is_error");
    reveal_strlit("tool_result");
    assert("block_type"@[0] == 'b' && "tool_input"@[0] == 't');
    assert("block_type"@.len() == 10 && "text"@.len() == 4 && "tool_name"@.len() == 9 && "tool_input"@.len() == 10 && "is_error"@.len() == 8 && "tool_result"@.len() == 11);
}

/// A list of blocks is answered in order, each with all its fields.
pub open spec fn answers_blocks(v: Option<JsonView>, blocks: Seq<Block>) -> bool {
    v matches Some(JsonView::Array(items)) && items.len() == blocks.len() && forall|j: int|
        0 <= j < blocks.len() ==> answers_block(#[trigger] items[j], blocks[j]@)
}

/// In the answer for a session every block of every message is there, in order, with each of its
/// fields under the name of that field; and so are who speaks, by which model, and when.
pub proof fn law_every_block_is_answered(
    session_id: Seq<char>,
    meta: Option<SessionMeta>,
    records: Seq<Shown>,
    i: int,
)
    requires
        0 <= i < records.len(),
        records[i].record_type@ == "user"@ || records[i].record_type@ == "assistant"@,
    ensures
        session_reply(session_id, meta, records).get("items"@) matches Some(JsonView::Array(items))
            && items.len() == records.len() && answers_blocks(
            items[i].get("blocks"@),
            records[i].blocks@,
        ) && items[i].get("role"@) == Some(JsonView::Str(records[i].record_type@)) && holds_text(
            items[i].get("model"@),
            opt_text(records[i].model),
        ) && holds_text(items[i].get("timestamp"@), opt_text(records[i].timestamp)),
{
    lemma_reply_items(session_id, meta, records);
    lemma_message_shape(records[i].record_type@);
    reveal_strlit("kind");
    reveal_strlit("role");
    reveal_strlit("model");
    reveal_strlit("timestamp");
    reveal_strlit("blocks");
    assert("kind"@[0] == 'k' && "role"@[0] == 'r');
    assert("kind"@.len() == 4 && "role"@.len() == 4 && "model"@.len() == 5 && "timestamp"@.len() == 9 && "blocks"@.len() == 6);
    let items = records.map_values(|s: Shown| record_item(s));
    assert(items[i] == message_item(records[i]));
    let blocks = records[i].blocks@;
    let answered = blocks.map_values(|b: Block| block_json(b@));
    assert forall|j: int| 0 <= j < blocks.len() implies answers_block(
        #[trigger] answered[j],
        blocks[j]@,
    ) by {
        lemma_block_answered(blocks[j]@);
    }
    assert(items[i].get("blocks"@) == Some(JsonView::Array(answered)));
}

proof fn lemma_reply_items(session_id: Seq<char>, meta: Option<SessionMeta>, records: Seq<Shown>)
    ensures
        session_reply(session_id, meta, records).get("items"@) == Some(
            JsonView::Array(records.map_values(|s: Shown| record_item(s))),
        ),
        session_reply(session_id, meta, records).get("session"@) == Some(
            meta_json(session_id, meta),
        ),
{
    reveal_strlit("session");
    reveal_strlit("items");
    assert("session"@.len() == 7 && "items"@.len() == 5);
}

proof fn lemma_message_shape(rtype: Seq<char>)
    ensures
        rtype == "user"@ || rtype == "assistant"@ ==> shape_of(rtype) is Message,
        rtype == "queue-operation"@ ==> shape_of(rtype) is Queue,
        rtype != "user"@ && rtype != "assistant"@ && rtype != "queue-operation"@ ==> shape_of(
            rtype,
        ) is Event,
{
    reveal_strlit("user");
    reveal_strlit("assistant");
    reveal_strlit("queue-operation");
    assert("user"@.len() == 4 && "assistant"@.len() == 9 && "queue-operation"@.len() == 15);
}

/// In the answer for a session a queue operation that queued a message gives that message, with its
/// operation and time, and every other record that is not a message gives its type, time and
/// summary.
pub proof fn law_queued_messages_and_events_are_answered(
    session_id: Seq<char>,
    meta: Option<SessionMeta>,
    records: Seq<Shown>,
    i: int,
)
    requires
        0 <= i < records.len(),
        records[i].record_type@ != "user"@,
        records[i].record_type@ != "assistant"@,
    ensures
        ({
            let s = records[i];
            let queued = s.record_type@ == "queue-operation"@ && s.queued@.len() > 0;
            session_reply(session_id, meta, records).get("items"@) matches Some(
                JsonView::Array(items),
            ) && items.len() == records.len() && holds_text(
                items[i].get("timestamp"@),
                opt_text(s.timestamp),
            ) && (queued ==> holds_text(
                items[i].get("operation"@),
                opt_text(s.queued@[0].operation),
            ) && holds_text(items[i].get("text"@), opt_text(s.queued@[0].text))) && (!queued
                ==> items[i].get("event_type"@) == Some(JsonView::Str(s.record_type@))
                && holds_text(items[i].get("summary"@), opt_text(s.summary)))
        }),
{
    lemma_reply_items(session_id, meta, records);
    lemma_message_shape(records[i].record_type@);
    reveal_strlit("event_type");
    reveal_strlit("kind");
    reveal_strlit("operation");
    reveal_strlit("summary");
    reveal_strlit("text");
    reveal_strlit("timestamp");
    assert("kind"@[0] == 'k' && "text"@[0] == 't');
    assert("operation"@[0] == 'o' && "timestamp"@[0] == 't');
    assert("event_type"@.len() == 10 && "kind"@.len() == 4 && "operation"@.len() == 9 && "summary"@.len() == 7 && "text"@.len() == 4 && "timestamp"@.len() == 9);
    let items = records.map_values(|s: Shown| record_item(s));
    assert(items[i] == record_item(records[i]));
}

/// The answer for a session says what is known of it as a whole, each thing under its name; where
/// nothing is known, its id.
pub proof fn law_sessions_are_described(
    session_id: Seq<char>,
    meta: Option<SessionMeta>,
    records: Seq<Shown>,
)
    ensures
        session_reply(session_id, meta, records).get("session"@) matches Some(v) && v.get(
            "session_id"@,
        ) == Some(JsonView::Str(session_id)) && (meta matches Some(m) ==> {
            &&& v.get("title"@) == Some(JsonView::Str(m.title@))
            &&& holds_text(v.get("project"@), opt_text(m.project))
            &&& holds_text(v.get("branch"@), opt_text(m.branch))
            &&& holds_text(v.get("version"@), opt_text(m.version))
            &&& holds_text(v.get("first"@), opt_text(m.first))
            &&& holds_text(v.get("last"@), opt_text(m.last))
            &&& holds_int(v.get("messages"@), m.messages)
        }) && (meta is None ==> v.get("title"@) is None),
{
    lemma_reply_items(session_id, meta, records);
    reveal_strlit("session_id");
    reveal_strlit("title");
    reveal_strlit("project");
    reveal_strlit("branch");
    reveal_strlit("version");
    reveal_strlit("first");
    reveal_strlit("last");
    reveal_strlit("messages");
    assert("title"@[0] == 't' && "first"@[0] == 'f');
    assert("project"@[0] == 'p' && "version"@[0] == 'v');
    assert("session_id"@.len() == 10 && "title"@.len() == 5 && "project"@.len() == 7 && "branch"@.len() == 6 && "version"@.len() == 7 && "first"@.len() == 5 && "last"@.len() == 4 && "messages"@.len() == 8);
}

/// Every session of the list is answered, in order, each thing that is known of it under its name.
pub proof fn law_every_session_is_answered(rows: Seq<TopSession>, i: int)
    ensures
        sessions_reply(rows).get("sessions"@) matches Some(JsonView::Array(items)) && items.len()
            == rows.len() && (0 <= i < rows.len() ==> {
            let s = rows[i].session;
            let v = items[i];
            &&& v.get("session_id"@) == Some(JsonView::Str(s.session_id@))
            &&& holds_text(v.get("project"@), opt_text(s.project))
            &&& v.get("title"@) == Some(
                JsonView::Str(title_of(opt_text(s.custom_title), opt_text(s.ai_title))),
            )
            &&& holds_text(v.get("branch"@), opt_text(s.branch))
            &&& holds_text(v.get("last"@), opt_text(s.last))
            &&& holds_int(v.get("messages"@), s.messages)
            &&& holds_int(v.get("subagent_count"@), rows[i].subagents)
        }),
{
    reveal_strlit("session_id");
    reveal_strlit("project");
    reveal_strlit("title");
    reveal_strlit("branch");
    reveal_strlit("last");
    reveal_strlit("messages");
    reveal_strlit("subagent_count");
    assert("session_id"@.len() == 10 && "project"@.len() == 7 && "title"@.len() == 5 && "branch"@.len() == 6 && "last"@.len() == 4 && "messages"@.len() == 8 && "subagent_count"@.len() == 14);
    let items = rows.map_values(|s: TopSession| session_json(s));
    if 0 <= i < rows.len() {
        assert(items[i] == session_json(rows[i]));
    }
}

/// Every session that another one spawned is answered, in order, each thing that is known of it
/// under its name.
pub proof fn law_every_subagent_is_answered(rows: Seq<SubagentLine>, i: int)
    ensures
        subagents_reply(rows).get("subagents"@) matches Some(JsonView::Array(items)) && items.len()
            == rows.len() && (0 <= i < rows.len() ==> {
            let s = rows[i];
            let v = items[i];
            &&& v.get("session_id"@) == Some(JsonView::Str(s.session_id@))
            &&& v.get("title"@) == Some(JsonView::Str(subagent_title_of(opt_text(s.prompt))))
            &&& holds_text(v.get("last"@), opt_text(s.last))
            &&& holds_int(v.get("messages"@), s.messages)
        }),
{
    reveal_strlit("session_id");
    reveal_strlit("title");
    reveal_strlit("last");
    reveal_strlit("messages");
    assert("session_id"@.len() == 10 && "title"@.len() == 5 && "last"@.len() == 4 && "messages"@.len() == 8);
    let items = rows.map_values(|s: SubagentLine| subagent_json(s));
    if 0 <= i < rows.len() {
        assert(items[i] == subagent_json(rows[i]));
    }
}

/// Every match is answered, in order, each thing that is known of it under its name; a search that
/// failed gives no matches and says why.
pub proof fn law_every_match_is_answered(rows: Seq<SearchLine>, i: int, why: Seq<char>)
    ensures
        results_json(Ok(rows)).get("results"@) matches Some(JsonView::Array(items)) && items.len()
            == rows.len() && (0 <= i < rows.len() ==> {
            let f = rows[i];
            let v = items[i];
            &&& holds_int(v.get("block_id"@), f.block_id)
            &&& v.get("session_id"@) == Some(JsonView::Str(f.session_id@))
            &&& v.get("block_type"@) == Some(JsonView::Str(f.block_type@))
            &&& holds_text(v.get("role"@), opt_text(f.role))
            &&& v.get("snippet"@) == Some(JsonView::Str(f.snippet@))
            &&& holds_text(v.get("timestamp"@), opt_text(f.timestamp))
        }),
        results_json(Ok(rows)).get("error"@) is None,
        results_json(Err(why)).get("results"@) matches Some(JsonView::Array(items)) && items.len()
            == 0,
        results_json(Err(why)).get("error"@) == Some(JsonView::Str(why)),
{
    reveal_strlit("block_id");
    reveal_strlit("session_id");
    reveal_strlit("block_type");
    reveal_strlit("role");
    reveal_strlit("snippet");
    reveal_strlit("timestamp");
    assert("session_id"@[0] == 's' && "block_type"@[0] == 'b');
    assert("block_id"@.len() == 8 && "session_id"@.len() == 10 && "block_type"@.len() == 10 && "role"@.len() == 4 && "snippet"@.len() == 7 && "timestamp"@.len() == 9);
    reveal_strlit("results");
    reveal_strlit("error");
    assert("results"@.len() == 7 && "error"@.len() == 5);
    let items = rows.map_values(|f: SearchLine| found_json(f));
    if 0 <= i < rows.len() {
        assert(items[i] == found_json(rows[i]));
    }
}

/// A list of counts is answered in order, each with its name and number.
pub open spec fn answers_counts(v: Option<JsonView>, counts: Seq<Count>) -> bool {
    v matches Some(JsonView::Array(items)) && items.len() == counts.len() && forall|i: int|
        0 <= i < counts.len() ==> (#[trigger] items[i]).get("name"@) == Some(
            JsonView::Str(counts[i].name@),
        ) && holds_int(items[i].get("count"@), counts[i].count)
}

proof fn lemma_counts_answered(counts: Seq<Count>)
    ensures
        answers_counts(Some(counts_json(counts)), counts),
{
    reveal_strlit("name");
    reveal_strlit("count");
    assert("name"@.len() == 4 && "count"@.len() == 5);
    let items = counts.map_values(|c: Count| count_json(c));
    assert forall|i: int| 0 <= i < counts.len() implies (#[trigger] items[i]).get("name"@) == Some(
        JsonView::Str(counts[i].name@),
    ) && holds_int(items[i].get("count"@), counts[i].count) by {
        assert(items[i] == count_json(counts[i]));
    }
}

/// The counts are answered each under its name, the tables with all their rows.
pub proof fn law_every_count_is_answered(t: Totals)
    ensures
        holds_int(stats_reply(t).get("sessions"@), t.sessions),
        holds_int(stats_reply(t).get("records"@), t.records),
        holds_int(stats_reply(t).get("blocks"@), t.blocks),
        answers_counts(stats_reply(t).get("record_types"@), t.record_types@),
        answers_counts(stats_reply(t).get("block_types"@), t.block_types@),
        answers_counts(stats_reply(t).get("tools"@), t.tools@),
{
    reveal_strlit("sessions");
    reveal_strlit("records");
    reveal_strlit("blocks");
    reveal_strlit("record_types");
    reveal_strlit("block_types");
    reveal_strlit("tools");
    assert("sessions"@.len() == 8 && "records"@.len() == 7 && "blocks"@.len() == 6 && "record_types"@.len() == 12 && "block_types"@.len() == 11 && "tools"@.len() == 5);
    lemma_counts_answered(t.record_types@);
    lemma_counts_answered(t.block_types@);
    lemma_counts_answered(t.tools@);
}

/// What went wrong is said under its name, and nothing else is.
pub proof fn law_errors_are_said(message: Seq<char>, key: Seq<char>)
    ensures
        error_json(message).get("error"@) == Some(JsonView::Str(message)),
        key != "error"@ ==> error_json(message).get(key) is None,
{
}

/// A number of rows that is in range is the one that was asked for; one that is not is the nearest
/// that is; and the default is taken where none was asked for.
pub proof fn law_limits_are_what_was_asked_for(
    p: Map<Seq<char>, Seq<char>>,
    default: i64,
    max: i64,
    n: int,
)
    requires
        1 <= default <= max,
    ensures
        p.contains_key("limit"@) && int_of(p["limit"@]) == Some(n) && 1 <= n <= max ==> limit_of(
            p,
            default,
            max,
        ) == n,
        p.contains_key("limit"@) && int_of(p["limit"@]) == Some(n) && i64::MIN <= n < 1 ==> limit_of(
            p,
            default,
            max,
        ) == 1,
        p.contains_key("limit"@) && int_of(p["limit"@]) == Some(n) && max < n <= i64::MAX
            ==> limit_of(p, default, max) == max,
        !p.contains_key("limit"@) || int_of(p["limit"@]) is None ==> limit_of(p, default, max)
            == default,
{
}

/// A filter by project is put into the query for the sessions whole, and the rest of the query stays
/// as it is.
pub proof fn law_project_filter_is_put_in()
    ensures
        put_in(
            " AND (cwd LIKE ?1 OR project_path LIKE ?1 OR project_dir LIKE ?1)"@,
            top_sessions_query(false),
            top_sessions_query(true),
        ),
{
    let head = "SELECT session_id, COALESCE(cwd, project_path), custom_title, ai_title, git_branch, last_timestamp, message_count, (SELECT COUNT(*) FROM sessions c WHERE c.parent_session_id = sessions.session_id) FROM sessions WHERE parent_session_id IS NULL"@;
    let part = " AND (cwd LIKE ?1 OR project_path LIKE ?1 OR project_dir LIKE ?1)"@;
    lemma_put_at_end(head, part);
    lemma_put_in_more(
        part,
        head + Seq::empty(),
        head + part,
        " ORDER BY last_timestamp DESC LIMIT ?2"@,
    );
}

/// A prefix is taken off as often as it stands at the front: what is left does not start with it, and
/// ends the text.
pub proof fn law_prefixes_are_taken_off(s: Seq<char>, prefix: Seq<char>)
    requires
        prefix.len() > 0,
    ensures
        !prefix.is_prefix_of(without_prefix(s, prefix)),
        without_prefix(s, prefix).is_suffix_of(s),
        without_prefix(prefix + s, prefix) == without_prefix(s, prefix),
    decreases s.len(),
{
    assert((prefix + s).take(prefix.len() as int) =~= prefix);
    assert((prefix + s).skip(prefix.len() as int) =~= s);
    if prefix.is_prefix_of(s) {
        let rest = s.skip(prefix.len() as int);
        law_prefixes_are_taken_off(rest, prefix);
        let r = without_prefix(s, prefix);
        assert(s.skip(s.len() - r.len()) =~= rest.skip(rest.len() - r.len()));
    } else {
        assert(s.skip(0) =~= s);
    }
}

/// The title of a session that another one spawned has the words of what it was asked to do, all of
/// them and in order.
pub proof fn law_subagent_titles_keep_the_words(prompt: Seq<char>)
    ensures
        words(prompt).len() > 0 ==> words(subagent_title_of(Some(prompt))) == words(prompt),
        words(prompt).len() == 0 ==> subagent_title_of(Some(prompt)) == subagent_title_of(None),
{
    let ws = words(prompt);
    assert forall|k: int| 0 <= k < ws.len() implies is_word(#[trigger] ws[k]) by {
        law_words_are_words(prompt, k);
    }
    lemma_words_joined(ws);
    let t = joined(ws, seq![' ']);
    if ws.len() > 0 && t.len() == 0 {
        assert(words(t).len() == 0);
    }
    assert(words(Seq::<char>::empty()) =~= Seq::<Seq<char>>::empty());
}

/// The text is one word.
pub open spec fn is_word(w: Seq<char>) -> bool {
    w.len() > 0 && forall|i: int| 0 <= i < w.len() ==> !is_white(#[trigger] w[i])
}

proof fn lemma_words_joined(ws: Seq<Seq<char>>)
    requires
        forall|k: int| 0 <= k < ws.len() ==> is_word(#[trigger] ws[k]),
    ensures
        words(joined(ws, seq![' '])) == ws,
    decreases ws.len(),
{
    if ws.len() == 0 {
        assert(words(joined(ws, seq![' '])) =~= ws);
    } else {
        let front = ws.drop_last();
        let last = ws[ws.len() - 1];
        assert(is_word(last));
        assert forall|k: int| 0 <= k < front.len() implies is_word(#[trigger] front[k]) by {
            assert(front[k] == ws[k]);
        }
        lemma_words_joined(front);
        law_word_is_its_own_word(last);
        assert(front.push(last) =~= ws);
        law_joining_goes_on(front, seq![' '], last);
        if front.len() > 0 {
            law_white_space_parts_words(joined(front, seq![' ']), ' ', last);
            assert(front + seq![last] =~= ws);
        } else {
            assert(seq![last] =~= ws);
        }
    }
}

/// Each path asks for one thing: the page, a list, a search, the counts and the sessions have theirs,
/// and any other path asks for nothing that is known.
pub proof fn law_paths_are_routed(path: Seq<char>)
    ensures
        route_of(path) is Page <==> path == "/"@ || path == "/index.html"@,
        route_of(path) is Sessions <==> path == "/api/sessions"@,
        route_of(path) is Subagents <==> path == "/api/subagents"@,
        route_of(path) is Search <==> path == "/api/search"@,
        route_of(path) is Stats <==> path == "/api/stats"@,
        route_of(path) is Session <==> "/api/session/"@.is_prefix_of(path),
{
    reveal_strlit("/");
    reveal_strlit("/index.html");
    reveal_strlit("/api/sessions");
    reveal_strlit("/api/subagents");
    reveal_strlit("/api/search");
    reveal_strlit("/api/stats");
    reveal_strlit("/api/session/");
    assert("/index.html"@[1] == 'i' && "/api/search"@[1] == 'a');
    assert("/api/sessions"@[12] == 's' && "/api/session/"@[12] == '/');
    assert("/"@.len() == 1 && "/index.html"@.len() == 11 && "/api/sessions"@.len() == 13 && "/api/subagents"@.len() == 14 && "/api/search"@.len() == 11 && "/api/stats"@.len() == 10 && "/api/session/"@.len() == 13);
    let prefix = "/api/session/"@;
    if prefix.is_prefix_of(path) {
        assert(path.take(13) =~= prefix);
        assert(path.take(13)[12] == '/');
        assert(path[12] == '/');
        assert(path.take(13)[7] == 's');
        assert(path[7] == 's');
    }
    assert("/api/sessions"@[12] == 's');
    assert("/api/subagents"@[7] == 'b');
}

/// A request searches for what its query says, and for nothing where it has none.
pub proof fn law_requests_search_for_their_query(p: Map<Seq<char>, Seq<char>>, q: Seq<char>)
    ensures
        q.len() > 0 ==> wanted(p.insert("q"@, q)) == match_expr(q),
        wanted(p.insert("q"@, Seq::empty())).len() == 0,
        !p.contains_key("q"@) ==> wanted(p).len() == 0,
{
}

} // verus!
