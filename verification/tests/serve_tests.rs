use claude_history::block::Block;
use claude_history::json::{compact_json, parse, Json};
use claude_history::query::{Count, Queued, SearchLine, SessionLine, Shown, Totals};
use claude_history::serve::{
    api_search, api_session, api_sessions, api_stats, api_subagents, error_object, html_response,
    json_response, message_json, not_found, plan_api_search, plan_sessions, queued_json,
    record_json, response_with_json, route, session_not_found, subagent_title, value_response, Route, SessionMeta, SubagentLine,
    TopSession,
};
use claude_history::url::parse_query;

fn some(s: &str) -> Option<String> {
    Some(s.to_string())
}

fn record(kind: &str) -> Shown {
    Shown {
        record_type: kind.to_string(),
        timestamp: some("t"),
        raw_json: "{}".to_string(),
        model: some("m"),
        blocks: vec![],
        queued: vec![],
        summary: some("s"),
    }
}

fn session_id(path: &str) -> String {
    match route(path) {
        Route::Session(id) => id,
        _ => panic!("not a session: {}", path),
    }
}

#[test]
fn paths_are_routed() {
    assert!(matches!(route("/"), Route::Page));
    assert!(matches!(route("/index.html"), Route::Page));
    assert!(matches!(route("/api/sessions"), Route::Sessions));
    assert!(matches!(route("/api/subagents"), Route::Subagents));
    assert!(matches!(route("/api/search"), Route::Search));
    assert!(matches!(route("/api/stats"), Route::Stats));
    assert!(matches!(route("/api/session"), Route::NotFound));
    assert!(matches!(route("/favicon.ico"), Route::NotFound));
    assert!(matches!(route(""), Route::NotFound));
    assert_eq!(session_id("/api/session/127956ee"), "127956ee");
    assert_eq!(session_id("/api/session/"), "");
    assert_eq!(session_id("/api/session//api/session/x"), "/api/session/x".trim_start_matches("/api/session/"));
    assert_eq!(session_id("/api/session/a/api/session/b"), "a/api/session/b");
}

#[test]
fn answers_have_status_and_type() {
    let r = html_response("<p>");
    assert_eq!(r.status, 200);
    assert_eq!(r.content_type, some("text/html; charset=utf-8"));
    assert_eq!(r.body, "<p>");
    let r = not_found();
    assert_eq!(r.status, 404);
    assert_eq!(r.content_type, None);
    assert_eq!(r.body, "not found");
    let r = json_response(&Ok(parse("{\"a\": [1]}").unwrap()));
    assert_eq!(r.status, 200);
    assert_eq!(r.content_type, some("application/json; charset=utf-8"));
    assert_eq!(r.body, "{\"a\":[1]}");
    let r = json_response(&Err("no \"such\" table".to_string()));
    assert_eq!(r.status, 500);
    assert_eq!(r.content_type, some("application/json; charset=utf-8"));
    assert_eq!(r.body, "{\"error\":\"no \\\"such\\\" table\"}");
}

#[test]
fn a_value_without_text_is_null() {
    let r = value_response(None);
    assert_eq!(r.status, 200);
    assert_eq!(r.body, "null");
    let r = value_response(some("[1]"));
    assert_eq!(r.body, "[1]");
    let r = response_with_json("{}".to_string(), 418);
    assert_eq!(r.status, 418);
    assert_eq!(r.content_type, some("application/json; charset=utf-8"));
    assert_eq!(r.body, "{}");
}

#[test]
fn limits_are_kept_in_range() {
    let limit = |q: &str| plan_sessions(&parse_query(q)).limit;
    assert_eq!(limit(""), 100);
    assert_eq!(limit("limit=7"), 7);
    assert_eq!(limit("limit=0"), 1);
    assert_eq!(limit("limit=-5"), 1);
    assert_eq!(limit("limit=99999"), 1000);
    assert_eq!(limit("limit=x"), 100);
    let limit = |q: &str| plan_api_search(&parse_query(q)).unwrap().limit;
    assert_eq!(limit("q=a"), 50);
    assert_eq!(limit("q=a&limit=501"), 500);
}

#[test]
fn only_top_sessions_are_asked_for() {
    let p = plan_sessions(&parse_query(""));
    assert!(p.sql.ends_with(
        " FROM sessions WHERE parent_session_id IS NULL ORDER BY last_timestamp DESC LIMIT ?2"
    ));
    assert_eq!(p.project, "");
    let p = plan_sessions(&parse_query("project=side+k_q"));
    assert!(p.sql.ends_with(
        " WHERE parent_session_id IS NULL AND (cwd LIKE ?1 OR project_path LIKE ?1 OR project_dir LIKE ?1) ORDER BY last_timestamp DESC LIMIT ?2"
    ));
    assert_eq!(p.project, "%side k_q%");
}

#[test]
fn searches_are_planned_from_parameters() {
    let s = plan_api_search(&parse_query("q=vector.yaml&type=text&role=user&session=1_2")).unwrap();
    assert_eq!(s.plan.match_expr, "\"vector.yaml\"");
    assert!(s.plan.sql.contains("'\u{2039}', '\u{203a}', '\u{2026}', 48"));
    assert!(s.plan.sql.ends_with(
        " AND s.block_type = ?2 AND s.role = ?3 AND s.session_id LIKE ?4 ORDER BY rank LIMIT ?5"
    ));
    assert_eq!(s.plan.block_type, "text");
    assert_eq!(s.plan.role, "user");
    assert_eq!(s.plan.session, "1_2%");
    assert!(plan_api_search(&parse_query("")).is_none());
    assert!(plan_api_search(&parse_query("q=")).is_none());
    assert!(plan_api_search(&parse_query("q=*")).is_none());
    let s = plan_api_search(&parse_query("q=a&type=")).unwrap();
    assert!(s.plan.sql.ends_with("MATCH ?1 ORDER BY rank LIMIT ?5"));
}

#[test]
fn sessions_are_answered() {
    let rows = vec![TopSession {
        session: SessionLine {
            session_id: "s".to_string(),
            project: None,
            custom_title: some(""),
            ai_title: None,
            branch: some("main"),
            last: some("t"),
            messages: 3,
        },
        subagents: 2,
    }];
    assert_eq!(
        compact_json(&api_sessions(&rows)),
        "{\"sessions\":[{\"branch\":\"main\",\"last\":\"t\",\"messages\":3,\"project\":null,\"session_id\":\"s\",\"subagent_count\":2,\"title\":\"(untitled)\"}]}"
    );
    assert_eq!(compact_json(&api_sessions(&vec![])), "{\"sessions\":[]}");
}

#[test]
fn subagents_are_titled_by_their_prompt() {
    assert_eq!(subagent_title(&some("  find\n the\tbug ")), "find the bug");
    assert_eq!(subagent_title(&some(" \n ")), "(subagent)");
    assert_eq!(subagent_title(&None), "(subagent)");
    let rows = vec![SubagentLine {
        session_id: "a".to_string(),
        last: None,
        messages: 1,
        prompt: some("go"),
    }];
    assert_eq!(
        compact_json(&api_subagents(&rows)),
        "{\"subagents\":[{\"last\":null,\"messages\":1,\"session_id\":\"a\",\"title\":\"go\"}]}"
    );
    assert_eq!(compact_json(&api_subagents(&vec![])), "{\"subagents\":[]}");
}

#[test]
fn results_are_answered() {
    let rows = vec![SearchLine {
        block_id: 5,
        session_id: "s".to_string(),
        block_type: "text".to_string(),
        role: None,
        snippet: "‹a›".to_string(),
        timestamp: some("t"),
    }];
    assert_eq!(
        compact_json(&api_search(&Ok(rows))),
        "{\"results\":[{\"block_id\":5,\"block_type\":\"text\",\"role\":null,\"session_id\":\"s\",\"snippet\":\"‹a›\",\"timestamp\":\"t\"}]}"
    );
    assert_eq!(compact_json(&api_search(&Ok(vec![]))), "{\"results\":[]}");
    assert_eq!(
        compact_json(&api_search(&Err("fts5: syntax error".to_string()))),
        "{\"error\":\"fts5: syntax error\",\"results\":[]}"
    );
}

#[test]
fn records_are_answered_as_what_they_are() {
    let mut message = record("user");
    message.blocks.push(Block {
        block_type: "tool_result".to_string(),
        text: None,
        tool_name: None,
        tool_use_id: some("hidden"),
        tool_input: None,
        is_error: Some(true),
        tool_result: some("r"),
    });
    let text = "{\"blocks\":[{\"block_type\":\"tool_result\",\"is_error\":true,\"text\":null,\"tool_input\":null,\"tool_name\":null,\"tool_result\":\"r\"}],\"kind\":\"message\",\"model\":\"m\",\"role\":\"user\",\"timestamp\":\"t\"}";
    assert_eq!(compact_json(&record_json(&message)), text);
    assert_eq!(compact_json(&message_json(&message)), text);
    let event = "{\"event_type\":\"queue-operation\",\"kind\":\"event\",\"summary\":\"s\",\"timestamp\":\"t\"}";
    let mut queue = record("queue-operation");
    assert!(queued_json(&queue).is_none());
    assert_eq!(compact_json(&record_json(&queue)), event);
    queue.queued.push(Queued { operation: some("enqueue"), text: some("x") });
    queue.queued.push(Queued { operation: None, text: None });
    assert_eq!(
        compact_json(&record_json(&queue)),
        "{\"kind\":\"queued\",\"operation\":\"enqueue\",\"text\":\"x\",\"timestamp\":\"t\"}"
    );
    assert_eq!(
        compact_json(&record_json(&record("mode"))),
        "{\"event_type\":\"mode\",\"kind\":\"event\",\"summary\":\"s\",\"timestamp\":\"t\"}"
    );
}

#[test]
fn every_record_of_a_session_is_answered() {
    let meta = SessionMeta {
        title: "T".to_string(),
        project: some("/p"),
        branch: None,
        version: some("1"),
        first: some("a"),
        last: some("b"),
        messages: 2,
    };
    let records = vec![record("user"), record("mode"), record("assistant")];
    let reply = api_session("s", &Some(meta), &records);
    match reply.get("items") {
        Some(Json::Array(items)) => {
            let kinds: Vec<&str> =
                items.iter().map(|i| i.get("kind").unwrap().as_str().unwrap()).collect();
            assert_eq!(kinds, vec!["message", "event", "message"]);
        }
        _ => panic!("no items"),
    }
    assert_eq!(
        compact_json(reply.get("session").unwrap()),
        "{\"branch\":null,\"first\":\"a\",\"last\":\"b\",\"messages\":2,\"project\":\"/p\",\"session_id\":\"s\",\"title\":\"T\",\"version\":\"1\"}"
    );
    assert_eq!(
        compact_json(&api_session("s", &None, &vec![])),
        "{\"items\":[],\"session\":{\"session_id\":\"s\"}}"
    );
    assert_eq!(compact_json(&session_not_found()), "{\"error\":\"session not found\"}");
    assert_eq!(compact_json(&error_object("x")), "{\"error\":\"x\"}");
}

#[test]
fn counts_are_answered() {
    let totals = Totals {
        sessions: 1,
        records: 2,
        blocks: 3,
        record_types: vec![Count { name: "user".to_string(), count: 2 }],
        block_types: vec![],
        tools: vec![Count { name: "Bash".to_string(), count: -1 }],
        tokens: Some(9),
    };
    assert_eq!(
        compact_json(&api_stats(&totals)),
        "{\"block_types\":[],\"blocks\":3,\"record_types\":[{\"count\":2,\"name\":\"user\"}],\"records\":2,\"sessions\":1,\"tools\":[{\"count\":-1,\"name\":\"Bash\"}]}"
    );
}
