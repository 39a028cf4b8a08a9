use claude_history::block::Block;
use claude_history::import::{import_file, FileName};
use claude_history::record::Detail;
use claude_history::query::{
    anywhere_pattern, block_lines, found_lines, no_session, plan_search, print_event,
    print_message, print_queued, search, session_lines, sessions, sessions_sql, shape, short_id,
    show, show_record, start_pattern, stats, stats_part, stats_parts, title, Count, Heading,
    Queued, SearchLine, SessionLine, Shape, Shown, Surface, Totals,
};

fn some(s: &str) -> Option<String> {
    Some(s.to_string())
}

fn block(kind: &str) -> Block {
    Block {
        block_type: kind.to_string(),
        text: None,
        tool_name: None,
        tool_use_id: None,
        tool_input: None,
        is_error: None,
        tool_result: None,
    }
}

fn record(kind: &str, raw: &str) -> Shown {
    Shown {
        record_type: kind.to_string(),
        timestamp: some("2025-06-01T12:34:56Z"),
        raw_json: raw.to_string(),
        model: None,
        blocks: vec![],
        queued: vec![],
        summary: None,
    }
}

fn session(id: &str) -> SessionLine {
    SessionLine {
        session_id: id.to_string(),
        project: some("/p"),
        custom_title: None,
        ai_title: some("made up"),
        branch: some("main"),
        last: some("2025-06-01T12:34:56Z"),
        messages: 12,
    }
}

#[test]
fn ids_are_cut_to_eight_bytes() {
    assert_eq!(short_id("127956ee-1234"), "127956ee");
    assert_eq!(short_id("abc"), "abc");
    assert_eq!(short_id(""), "");
    assert_eq!(short_id("ääääx"), "ääää");
}

#[test]
fn given_title_goes_before_made_up_one() {
    assert_eq!(title(&some("c"), &some("a")), "c");
    assert_eq!(title(&some(""), &some("a")), "a");
    assert_eq!(title(&None, &some("")), "");
    assert_eq!(title(&some(""), &None), "(untitled)");
    assert_eq!(title(&None, &None), "(untitled)");
}

#[test]
fn patterns_match_anywhere_or_at_the_start() {
    assert_eq!(anywhere_pattern(&Surface::Terminal, Some("sidekiq")), "%sidekiq%");
    assert_eq!(anywhere_pattern(&Surface::Terminal, None), "");
    assert_eq!(start_pattern(&Surface::Terminal, Some("127956ee")), "127956ee%");
    assert_eq!(start_pattern(&Surface::Terminal, None), "");
    assert_eq!(anywhere_pattern(&Surface::Terminal, Some("my_app")), "%my\\_app%");
    assert_eq!(anywhere_pattern(&Surface::Terminal, Some("100%\\")), "%100\\%\\\\%");
    assert_eq!(start_pattern(&Surface::Terminal, Some("_a%b")), "\\_a\\%b%");
    assert_eq!(start_pattern(&Surface::Terminal, Some("")), "%");
    assert_eq!(anywhere_pattern(&Surface::Page, Some("my_app")), "%my_app%");
    assert_eq!(start_pattern(&Surface::Page, Some("a%\\b")), "a%\\b%");
    assert_eq!(start_pattern(&Surface::Page, None), "");
}

#[test]
fn sessions_are_asked_for_newest_first() {
    let all = sessions_sql(false);
    assert!(all.ends_with(" FROM sessions ORDER BY last_timestamp DESC LIMIT ?2"));
    let some = sessions_sql(true);
    assert!(some.ends_with(
        " FROM sessions WHERE (cwd LIKE ?1 ESCAPE '\\' OR project_path LIKE ?1 ESCAPE '\\' OR project_dir LIKE ?1 ESCAPE '\\') ORDER BY last_timestamp DESC LIMIT ?2"
    ));
}

#[test]
fn sessions_are_listed() {
    assert_eq!(
        session_lines(&session("127956ee-1234")),
        "2025-06-01 12:34    12 msgs  made up\n    127956ee  [/p]  @main\n"
    );
    let bare = SessionLine {
        session_id: "x".to_string(),
        project: None,
        custom_title: some(&"t".repeat(80)),
        ai_title: None,
        branch: some(""),
        last: None,
        messages: 12345,
    };
    assert_eq!(
        session_lines(&bare),
        format!("  12345 msgs  {}…\n    x  []\n", "t".repeat(70))
    );
    let text = sessions(&vec![session("a"), session("b")]);
    assert!(text.ends_with("    b  [/p]  @main\n\n2 session(s).\n"));
    assert_eq!(sessions(&vec![]), "No sessions found. Run `cch import` first.\n");
}

#[test]
fn search_is_planned_with_its_filters() {
    let p = plan_search("vector.yaml", None, None, None, &Surface::Terminal).unwrap();
    assert_eq!(p.match_expr, "\"vector.yaml\"");
    assert!(p.sql.contains("snippet(search_index, 0, '«', '»', '…', 48)"));
    assert!(p.sql.ends_with("WHERE search_index MATCH ?1 ORDER BY rank LIMIT ?5"));
    assert_eq!(p.block_type, "");
    assert_eq!(p.role, "");
    assert_eq!(p.session, "");
    let p = plan_search("x", Some("text"), Some("user"), Some("1_2"), &Surface::Terminal).unwrap();
    assert!(p.sql.ends_with(
        "MATCH ?1 AND s.block_type = ?2 AND s.role = ?3 AND s.session_id LIKE ?4 ESCAPE '\\' ORDER BY rank LIMIT ?5"
    ));
    assert_eq!(p.block_type, "text");
    assert_eq!(p.role, "user");
    assert_eq!(p.session, "1\\_2%");
    let p = plan_search("x", None, Some("user"), None, &Surface::Terminal).unwrap();
    assert!(p.sql.ends_with("MATCH ?1 AND s.role = ?3 ORDER BY rank LIMIT ?5"));
    assert!(plan_search("*", None, None, None, &Surface::Terminal).is_none());
    assert!(plan_search("  ", None, None, None, &Surface::Terminal).is_none());
}

#[test]
fn matches_are_listed() {
    let f = SearchLine {
        block_id: 3,
        session_id: "127956ee-1234".to_string(),
        block_type: "text".to_string(),
        role: some("user"),
        snippet: "a «b»\nc".to_string(),
        timestamp: some("2025-06-01T12:34:56Z"),
    };
    let expected = format!(
        "{}  {:<11} {:<6} {}\n    a «b» c\n",
        "2025-06-01 12:34", "[text]", "user", "127956ee"
    );
    assert_eq!(found_lines(&f), expected);
    assert_eq!(search("b", &vec![f]), format!("{}\n1 match(es).\n", expected));
    assert_eq!(search("q x", &vec![]), "No matches for: q x\n");
    let bare = SearchLine {
        block_id: 1,
        session_id: "s".to_string(),
        block_type: "tool_result".to_string(),
        role: None,
        snippet: "y".repeat(501),
        timestamp: None,
    };
    assert_eq!(
        found_lines(&bare),
        format!("  [tool_result]        s\n    {}…\n", "y".repeat(500))
    );
}

#[test]
fn blocks_are_marked_as_what_they_are() {
    let mut b = block("text");
    b.text = some("one\ntwo");
    assert_eq!(block_lines(&b), "    one\n    two\n");
    assert_eq!(block_lines(&block("text")), "");
    let mut b = block("thinking");
    assert_eq!(block_lines(&b), "  · thinking ·\n");
    b.text = some("one\ntwo");
    assert_eq!(block_lines(&b), "  · thinking ·\n    one two\n");
    let mut b = block("tool_use");
    assert_eq!(block_lines(&b), "  ⚙ tool_use:  \n");
    b.tool_name = some("Bash");
    b.tool_input = Some("i".repeat(301));
    assert_eq!(block_lines(&b), format!("  ⚙ tool_use: Bash {}…\n", "i".repeat(300)));
    let mut b = block("tool_result");
    b.tool_result = some("done");
    assert_eq!(block_lines(&b), "  ⮐ tool_result:\n    done\n");
    b.is_error = Some(true);
    assert_eq!(block_lines(&b), "  ⮐ tool_result (error):\n    done\n");
    b.is_error = Some(false);
    b.tool_result = None;
    assert_eq!(block_lines(&b), "  ⮐ tool_result:\n");
    let mut b = block("image");
    b.text = some("[image]");
    assert_eq!(block_lines(&b), "  [image] [image]\n");
}

#[test]
fn messages_are_printed_with_their_marker() {
    let mut b = block("text");
    b.text = some("hi");
    assert_eq!(
        print_message("user", "when", &None, &vec![b]),
        "▶ USER  when\n    hi\n\n"
    );
    assert_eq!(
        print_message("assistant", "when", &some("m"), &vec![]),
        "◆ ASSISTANT  when  (m)\n\n"
    );
    assert_eq!(print_message("other", "", &None, &vec![]), "other  \n\n");
}

#[test]
fn queued_messages_are_printed() {
    let rows = vec![
        Queued { operation: some("enqueue"), text: some("do\nit") },
        Queued { operation: None, text: None },
    ];
    assert_eq!(
        print_queued(&rows, "when"),
        some("⏳ QUEUED (enqueue)  when\n    do it\n\n⏳ QUEUED ()  when\n\n")
    );
    assert_eq!(print_queued(&vec![], "when"), None);
}

#[test]
fn events_are_printed_on_one_line() {
    assert_eq!(print_event("mode", "when", &some("plan")), "· mode when  plan\n");
    assert_eq!(print_event("mode", "", &None), "· mode   \n");
    assert_eq!(
        print_event("x", "w", &Some("s".repeat(161))),
        format!("· x w  {}…\n", "s".repeat(160))
    );
}

#[test]
fn queued_messages_are_not_hidden_behind_events() {
    let mut r = record("queue-operation", "{}");
    r.summary = some("dequeue:");
    assert_eq!(show_record(&r, false, false), "");
    assert_eq!(show_record(&r, true, false), "· queue-operation 2025-06-01 12:34  dequeue:\n");
    r.queued.push(Queued { operation: some("enqueue"), text: some("x") });
    let text = "⏳ QUEUED (enqueue)  2025-06-01 12:34\n    x\n\n";
    assert_eq!(show_record(&r, false, false), text);
    assert_eq!(show_record(&r, true, false), text);
    assert!(matches!(shape("queue-operation"), Shape::Queue));
    assert!(matches!(shape("user"), Shape::Message));
    assert!(matches!(shape("assistant"), Shape::Message));
    assert!(matches!(shape("mode"), Shape::Event));
}

#[test]
fn transcript_has_a_heading_unless_raw() {
    let heading = Some(Heading {
        session_id: "127956ee-1234".to_string(),
        title: "T".to_string(),
        project: some("/p"),
        branch: some("main"),
    });
    let mut event = record("mode", "{\"type\":\"mode\"}");
    event.summary = some("plan");
    let records = vec![record("user", "{\"type\":\"user\"}"), event];
    let head = "═══ T ═══\nsession 127956ee-1234  [/p]  @main\n\n";
    let turn = "▶ USER  2025-06-01 12:34\n\n";
    assert_eq!(show(&heading, &records, false, false), format!("{}{}", head, turn));
    assert_eq!(
        show(&heading, &records, true, false),
        format!("{}{}· mode 2025-06-01 12:34  plan\n", head, turn)
    );
    assert_eq!(show(&None, &records, false, false), turn);
    assert_eq!(
        show(&heading, &records, true, true),
        "{\"type\":\"user\"}\n{\"type\":\"mode\"}\n"
    );
    assert_eq!(no_session("zz"), "No session matching 'zz'.\n");
}

#[test]
fn raw_transcript_gives_the_file_back() {
    let file = "{\"type\":\"user\"}\n{\"type\":\"mode\", \"mode\":\"plan\"}\n[1]\n";
    let name = FileName {
        session_id: "s".to_string(),
        project_dir: "d".to_string(),
        path: "d/s.jsonl".to_string(),
    };
    let lines: Vec<String> = file.lines().map(String::from).collect();
    let import = import_file(&name, &lines, 0, 0);
    let records: Vec<Shown> = import
        .records
        .iter()
        .map(|s| record(&s.record.record_type, &s.record.raw_json))
        .collect();
    assert_eq!(show(&None, &records, false, true), file);
}

#[test]
fn raw_transcript_can_be_imported_again() {
    let name = FileName {
        session_id: "s".to_string(),
        project_dir: "d".to_string(),
        path: "d/s.jsonl".to_string(),
    };
    let raw = |lines: &Vec<String>| {
        let records: Vec<Shown> = import_file(&name, lines, 0, 0)
            .records
            .iter()
            .map(|s| record(&s.record.record_type, &s.record.raw_json))
            .collect();
        show(&None, &records, true, true)
    };
    let lines: Vec<String> =
        ["{}", "", "{bad", "[2]", "  "].iter().map(|l| l.to_string()).collect();
    let first = raw(&lines);
    assert_eq!(first, "{}\n[2]\n");
    let again: Vec<String> = first.lines().map(String::from).collect();
    assert_eq!(raw(&again), first);
}

#[test]
fn records_are_shown_as_they_are_stored() {
    let name = FileName {
        session_id: "s".to_string(),
        project_dir: "d".to_string(),
        path: "d/s.jsonl".to_string(),
    };
    let lines: Vec<String> = [
        r#"{"type":"user"}"#,
        r#"{"type":"assistant"}"#,
        r#"{"type":"queue-operation","content":"x"}"#,
        r#"{"type":"mode"}"#,
    ]
    .iter()
    .map(|l| l.to_string())
    .collect();
    for stored in import_file(&name, &lines, 0, 0).records {
        match (shape(&stored.record.record_type), stored.detail) {
            (Shape::Message, Detail::Message { .. }) => {}
            (Shape::Queue, Detail::Event { queued, .. }) => assert!(queued.is_some()),
            (Shape::Event, Detail::Event { queued, .. }) => assert!(queued.is_none()),
            _ => panic!("shown as something else: {}", stored.record.record_type),
        }
    }
}

#[test]
fn counts_are_shown_in_columns() {
    let count = |name: &str, count: i64| Count { name: name.to_string(), count };
    let totals = Totals {
        sessions: 2,
        records: 30,
        blocks: 40,
        record_types: vec![count("user", 20), count("assistant", 10)],
        block_types: vec![count("text", 40)],
        tools: vec![],
        tokens: Some(99),
    };
    let expected = format!(
        "Sessions: 2\nRecords:  30\nBlocks:   40\n\nRecord types:\n  {:<24} {:>8}\n  {:<24} {:>8}\n\nContent block types (clearly marked):\n  {:<24} {:>8}\n\nTop tools used:\n",
        "user", 20, "assistant", 10, "text", 40
    );
    let parts: String = stats_parts().iter().map(|part| stats_part(&totals, part)).collect();
    assert_eq!(parts, stats(&totals));
    assert_eq!(stats(&totals), format!("{}\nTotal tokens (in+out): 99\n", expected));
    assert_eq!(stats(&Totals { tokens: None, ..totals }), expected);
}
