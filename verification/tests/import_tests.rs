use claude_history::block::{
    cap, cap_body, flatten_content, kind, parse_block, search_body, Block, INDEX_CAP,
};
use claude_history::event::summarize_event;
use claude_history::import::{
    block_count, decode_project_dir, file_unchanged, import_file, import_kept, is_transcript,
    keep_lines, merge_session, must_import, FileImport, FileName, ImportStats, KeptLine,
    KnownSession, Outcome,
};
use claude_history::json::{parse, Json};
use claude_history::record::{
    import_message, import_record, is_message_type, Detail, EventRow, MessageRow, BlockRow,
};

fn json(text: &str) -> Json {
    parse(text).unwrap()
}

fn some(s: &str) -> Option<String> {
    Some(s.to_string())
}

fn message_of(text: &str) -> (MessageRow, Vec<BlockRow>) {
    match import_record(1, text, &json(text)).detail {
        Detail::Message { message, blocks } => (message, blocks),
        Detail::Event { .. } => panic!("not a message"),
    }
}

fn event_of(text: &str) -> (EventRow, Option<BlockRow>) {
    match import_record(1, text, &json(text)).detail {
        Detail::Message { .. } => panic!("not an event"),
        Detail::Event { event, queued } => (event, queued),
    }
}

fn import(lines: &[&str]) -> FileImport {
    let name = FileName {
        session_id: "s1".to_string(),
        project_dir: "-Users-indy-projects-foo".to_string(),
        path: "/x/-Users-indy-projects-foo/s1.jsonl".to_string(),
    };
    let lines: Vec<String> = lines.iter().map(|l| l.to_string()).collect();
    import_file(&name, &lines, 10, 20)
}

#[test]
fn project_directories_are_decoded() {
    assert_eq!(decode_project_dir("-Users-indy-projects-foo"), "/Users/indy/projects/foo");
    assert_eq!(decode_project_dir(""), "");
    assert_eq!(decode_project_dir("plain"), "plain");
}

#[test]
fn only_jsonl_files_are_transcripts() {
    assert!(is_transcript(Some("jsonl")));
    assert!(!is_transcript(Some("json")));
    assert!(!is_transcript(Some("JSONL")));
    assert!(!is_transcript(None));
}

#[test]
fn unchanged_files_are_skipped() {
    assert!(file_unchanged(Some((10, 20)), 10, 20));
    assert!(!file_unchanged(Some((10, 20)), 11, 20));
    assert!(!file_unchanged(Some((10, 20)), 10, 21));
    assert!(!file_unchanged(None, 10, 20));
    assert!(!must_import(false, Some((10, 20)), 10, 20));
    assert!(must_import(true, Some((10, 20)), 10, 20));
    assert!(must_import(false, Some((10, 20)), 10, 21));
    assert!(must_import(false, None, 10, 20));
}

#[test]
fn imported_file_is_known_again() {
    let r = import(&["{}"]);
    assert_eq!(r.file.path, "/x/-Users-indy-projects-foo/s1.jsonl");
    assert_eq!(r.file.session_id, "s1");
    assert!(!must_import(false, Some((r.file.size, r.file.mtime)), 10, 20));
}

#[test]
fn blocks_of_text_and_thought() {
    let b = parse_block(&json(r#"{"type":"text","text":"hi"}"#));
    assert_eq!(b.block_type, "text");
    assert_eq!(b.text, some("hi"));
    assert_eq!(b.tool_name, None);
    let b = parse_block(&json(r#"{"type":"thinking","thinking":"","signature":"x"}"#));
    assert_eq!(b.block_type, "thinking");
    assert_eq!(b.text, some(""));
    assert_eq!(search_body(&b), None);
    let b = Block::text("hello".to_string());
    assert_eq!(b.block_type, "text");
    assert_eq!(b.text, some("hello"));
    assert_eq!(b.is_error, None);
}

#[test]
fn blocks_of_tools() {
    let b = parse_block(&json(
        r#"{"type":"tool_use","name":"Bash","id":"t1","input":{"command": "ls"}}"#,
    ));
    assert_eq!(b.block_type, "tool_use");
    assert_eq!(b.text, None);
    assert_eq!(b.tool_name, some("Bash"));
    assert_eq!(b.tool_use_id, some("t1"));
    assert_eq!(b.tool_input, some(r#"{"command":"ls"}"#));
    assert_eq!(search_body(&b), some(r#" Bash {"command":"ls"}"#));
    let b = parse_block(&json(
        r#"{"type":"tool_result","tool_use_id":"t1","is_error":true,"content":[{"type":"text","text":"a"},{"type":"image"},{"type":"x","n":1}]}"#,
    ));
    assert_eq!(b.tool_use_id, some("t1"));
    assert_eq!(b.is_error, Some(true));
    assert_eq!(b.tool_result, some("a\n[image]\n{\"n\":1,\"type\":\"x\"}"));
    assert_eq!(b.tool_name, None);
}

#[test]
fn other_blocks_are_kept() {
    let b = parse_block(&json(r#"{"type":"image","source":{}}"#));
    assert_eq!(b.block_type, "image");
    assert_eq!(b.text, some("[image]"));
    let b = parse_block(&json(r#"{"type":"server_tool","x":[1]}"#));
    assert_eq!(b.block_type, "server_tool");
    assert_eq!(b.text, some(r#"{"type":"server_tool","x":[1]}"#));
    let b = parse_block(&json("7"));
    assert_eq!(b.block_type, "unknown");
    assert_eq!(b.text, some("7"));
    assert_eq!(kind(&json(r#"{"type":3}"#)), "unknown");
}

#[test]
fn content_is_flattened() {
    assert_eq!(flatten_content(&json(r#""plain""#)), "plain");
    assert_eq!(flatten_content(&json("[]")), "");
    assert_eq!(flatten_content(&json(r#"[{"type":"text"},{"type":"text","text":"b"}]"#)), "\nb");
    assert_eq!(flatten_content(&json(r#"{"a": 1}"#)), r#"{"a":1}"#);
    assert_eq!(flatten_content(&json("null")), "null");
}

#[test]
fn index_is_capped_between_characters() {
    assert_eq!(INDEX_CAP, 16384);
    let fits = "x".repeat(16384);
    assert_eq!(cap_body(&fits), fits);
    let long = "x".repeat(16385);
    assert_eq!(cap_body(&long), fits);
    let wide = format!("x{}", "ü".repeat(9000));
    let capped = cap_body(&wide);
    assert_eq!(capped.len(), 16383);
    assert!(wide.starts_with(&capped));
    assert_eq!(cap_body(&capped), capped);
    assert_eq!(cap("a€😀", 7), "a€");
    assert_eq!(cap("a€😀", 8), "a€😀");
    assert_eq!(cap("a€😀", 3), "a");
}

#[test]
fn messages_are_decoded() {
    let (m, blocks) = message_of(
        r#"{"type":"assistant","uuid":"u","parentUuid":"p","timestamp":"t","message":{"role":"assistant","model":"m","id":"i","stop_reason":"end","usage":{"input_tokens":3,"output_tokens":4},"content":[{"type":"text","text":"one"},{"type":"tool_use","name":"Bash","input":{}},{"type":"text","text":"two"},{"type":"thinking","thinking":"hm"}]}}"#,
    );
    assert_eq!(m.uuid, some("u"));
    assert_eq!(m.parent_uuid, some("p"));
    assert_eq!(m.role, "assistant");
    assert_eq!(m.model, some("m"));
    assert_eq!(m.message_id, some("i"));
    assert_eq!(m.stop_reason, some("end"));
    assert_eq!(m.timestamp, some("t"));
    assert_eq!(m.input_tokens, Some(3));
    assert_eq!(m.output_tokens, Some(4));
    assert_eq!(m.text_content, some("one\ntwo"));
    assert_eq!(blocks.len(), 4);
    for (i, b) in blocks.iter().enumerate() {
        assert_eq!(b.seq, i);
        assert_eq!(b.role, some("assistant"));
        assert_eq!(b.message_uuid, some("u"));
        assert_eq!(b.timestamp, some("t"));
    }
    assert_eq!(blocks[1].block.block_type, "tool_use");
    assert_eq!(blocks[1].search_body, some(" Bash {}"));
    assert_eq!(blocks[3].search_body, some("hm"));
}

#[test]
fn message_content_may_be_a_string_or_missing() {
    let (m, blocks) = message_of(r#"{"type":"user","message":{"content":"hi"}}"#);
    assert_eq!(m.role, "user");
    assert_eq!(m.text_content, some("hi"));
    assert_eq!(blocks.len(), 1);
    assert_eq!(blocks[0].block.text, some("hi"));
    let (m, blocks) = message_of(r#"{"type":"user"}"#);
    assert_eq!(m.text_content, None);
    assert_eq!(m.input_tokens, None);
    assert!(blocks.is_empty());
    let (m, blocks) = import_message("user", &json(r#"{"message":{"role":"assistant","content":{}}}"#));
    assert_eq!(m.role, "assistant");
    assert!(blocks.is_empty());
}

#[test]
fn events_are_summarised() {
    let cases = [
        ("system", r#"{"subtype":"info","content":"a\nb"}"#, Some("[info] a b")),
        ("system", "{}", Some("[]")),
        ("custom-title", r#"{"customTitle":" T "}"#, Some("T")),
        ("ai-title", r#"{"aiTitle":"A"}"#, Some("A")),
        ("ai-title", "{}", None),
        ("last-prompt", r#"{"lastPrompt":"p"}"#, Some("p")),
        ("last-prompt", "{}", None),
        (
            "pr-link",
            r#"{"prRepository":"o/r","prNumber":12,"prUrl":"http://x"}"#,
            Some("o/r #12 http://x"),
        ),
        ("pr-link", r#"{"prNumber":"7"}"#, Some("#\"7\"")),
        ("mode", r#"{"mode":"plan"}"#, Some("plan")),
        ("permission-mode", r#"{"permissionMode":"ask"}"#, Some("ask")),
        ("agent-name", r#"{"agentName":"n"}"#, Some("n")),
        ("queue-operation", r#"{"operation":"enqueue","content":"do it"}"#, Some("enqueue: do it")),
        ("queue-operation", r#"{"operation":"dequeue"}"#, Some("dequeue:")),
        ("attachment", r#"{"attachment":{"type":"file"}}"#, Some("file")),
        ("attachment", "{}", Some("attachment")),
        ("file-history-snapshot", r#"{"messageId":"m"}"#, Some("snapshot for m")),
        ("file-history-snapshot", "{}", Some("snapshot")),
        ("bridge-session", r#"{"bridgeSessionId":"b"}"#, Some("b")),
        ("whatever", r#"{"content":"x"}"#, None),
    ];
    for (kind, text, expected) in cases {
        assert_eq!(
            summarize_event(kind, &json(text)),
            expected.map(String::from),
            "{} {}",
            kind,
            text
        );
    }
}

#[test]
fn long_summaries_are_cut() {
    let long = "x".repeat(300);
    let v = json(&format!(r#"{{"lastPrompt":"{0}","content":"{0}","operation":"enqueue"}}"#, long));
    let expected = format!("{}…", "x".repeat(200));
    assert_eq!(summarize_event("last-prompt", &v), Some(expected.clone()));
    assert_eq!(summarize_event("system", &v), Some(format!("[] {}", expected)));
    assert_eq!(
        summarize_event("queue-operation", &v),
        Some(format!("enqueue: {}…", "x".repeat(160)))
    );
}

#[test]
fn queued_messages_are_stored_as_blocks() {
    let (event, queued) = event_of(
        r#"{"type":"queue-operation","operation":"popAll","uuid":"u","timestamp":"t","content":"also this"}"#,
    );
    assert_eq!(event.event_type, "queue-operation");
    assert_eq!(event.summary, some("popAll: also this"));
    let q = queued.unwrap();
    assert_eq!(q.block.block_type, "queued");
    assert_eq!(q.block.text, some("also this"));
    assert_eq!(q.block.tool_name, some("popAll"));
    assert_eq!(q.search_body, some("also this"));
    assert_eq!(q.message_uuid, some("u"));
    assert_eq!(q.timestamp, some("t"));
    assert_eq!(q.role, None);
    assert_eq!(q.seq, 0);
    let (_, queued) = event_of(r#"{"type":"queue-operation","content":"x"}"#);
    assert_eq!(queued.unwrap().block.tool_name, some("enqueue"));
}

#[test]
fn queue_operations_without_text_are_events_only() {
    let (event, queued) = event_of(r#"{"type":"queue-operation","operation":"dequeue"}"#);
    assert_eq!(event.summary, some("dequeue:"));
    assert!(queued.is_none());
    let (_, queued) = event_of(r#"{"type":"queue-operation","content":" \n"}"#);
    assert!(queued.is_none());
    let (_, queued) = event_of(r#"{"type":"system","content":"x"}"#);
    assert!(queued.is_none());
}

#[test]
fn records_keep_their_line() {
    let line = r#"{"type":"system","uuid":"u","parentUuid":"p","timestamp":"t","isSidechain":true,"isMeta":false,"userType":"external","cwd":"/c","gitBranch":"main","version":"1"}"#;
    let r = import_record(7, line, &json(line)).record;
    assert_eq!(r.seq, 7);
    assert_eq!(r.record_type, "system");
    assert_eq!(r.uuid, some("u"));
    assert_eq!(r.parent_uuid, some("p"));
    assert_eq!(r.timestamp, some("t"));
    assert_eq!(r.is_sidechain, Some(true));
    assert_eq!(r.is_meta, Some(false));
    assert_eq!(r.user_type, some("external"));
    assert_eq!(r.cwd, some("/c"));
    assert_eq!(r.git_branch, some("main"));
    assert_eq!(r.version, some("1"));
    assert_eq!(r.raw_json, line);
    assert!(is_message_type("user"));
    assert!(is_message_type("assistant"));
    assert!(!is_message_type("system"));
}

#[test]
fn every_good_line_of_a_file_is_stored() {
    let lines = [
        r#"{"type":"user","timestamp":"t1","message":{"content":"hi"}}"#,
        "",
        "   ",
        "{broken",
        r#"{"type":"mode","mode":"plan"}"#,
        "[1, 2]",
    ];
    let r = import(&lines);
    let stored: Vec<(usize, &str)> =
        r.records.iter().map(|s| (s.record.seq, s.record.raw_json.as_str())).collect();
    assert_eq!(stored, vec![(1, lines[0]), (5, lines[4]), (6, lines[5])]);
    assert_eq!(r.records[2].record.record_type, "unknown");
    assert_eq!(r.session.record_count, 3);
    assert_eq!(r.session.message_count, 1);
    assert_eq!(block_count(&r.records), Some(1));
}

#[test]
fn lines_are_kept_under_their_numbers() {
    let lines: Vec<String> = ["", "7", "x", " {} "].iter().map(|l| l.to_string()).collect();
    let kept = keep_lines(&lines);
    let found: Vec<(usize, &str)> = kept.iter().map(|k| (k.seq, k.line.as_str())).collect();
    assert_eq!(found, vec![(2, "7"), (4, " {} ")]);
    assert_eq!(kept[0].value.as_i64(), Some(7));
}

#[test]
fn kept_lines_are_stored_as_they_are() {
    let name = FileName {
        session_id: "s".to_string(),
        project_dir: "p".to_string(),
        path: "p/s.jsonl".to_string(),
    };
    let value = Json::Object(vec![
        ("type".to_string(), Json::Str("user".to_string())),
        ("timestamp".to_string(), Json::Str("t".to_string())),
    ]);
    let kept = vec![KeptLine { seq: 3, line: "the line".to_string(), value }];
    let r = import_kept(&name, &kept, 1, 2);
    assert_eq!(r.records[0].record.seq, 3);
    assert_eq!(r.records[0].record.raw_json, "the line");
    assert_eq!(r.records[0].record.record_type, "user");
    assert_eq!(r.session.first_timestamp, some("t"));
    assert_eq!(r.session.message_count, 1);
    assert_eq!(r.file.size, 1);
    assert_eq!(r.file.mtime, 2);
}

#[test]
fn session_is_gathered_from_its_records() {
    let r = import(&[
        r#"{"type":"mode"}"#,
        r#"{"type":"user","timestamp":"t1","cwd":"/a","sessionId":"s1"}"#,
        r#"{"type":"custom-title","customTitle":"first"}"#,
        r#"{"type":"assistant","timestamp":"t2","cwd":"/b","gitBranch":"main","version":"2"}"#,
        r#"{"type":"custom-title","customTitle":"second","gitBranch":"dev"}"#,
        r#"{"type":"ai-title","aiTitle":"made up"}"#,
        r#"{"type":"ai-title"}"#,
    ]);
    let s = r.session;
    assert_eq!(s.session_id, "s1");
    assert_eq!(s.project_dir, "-Users-indy-projects-foo");
    assert_eq!(s.project_path, "/Users/indy/projects/foo");
    assert_eq!(s.file_path, "/x/-Users-indy-projects-foo/s1.jsonl");
    assert_eq!(s.first_timestamp, some("t1"));
    assert_eq!(s.last_timestamp, some("t2"));
    assert_eq!(s.cwd, some("/a"));
    assert_eq!(s.git_branch, some("main"));
    assert_eq!(s.version, some("2"));
    assert_eq!(s.custom_title, some("second"));
    assert_eq!(s.ai_title, None);
    assert_eq!(s.message_count, 2);
    assert_eq!(s.parent_session_id, None);
}

#[test]
fn subagents_know_the_session_that_spawned_them() {
    let r = import(&[
        r#"{"type":"user","sessionId":"s1"}"#,
        r#"{"type":"user","isSidechain":true,"sessionId":"main"}"#,
        r#"{"type":"user","isSidechain":true,"sessionId":"other"}"#,
    ]);
    assert_eq!(r.session.parent_session_id, some("main"));
    let r = import(&[
        r#"{"type":"user","sessionId":"other"}"#,
        r#"{"type":"user","isSidechain":false,"sessionId":"another"}"#,
    ]);
    assert_eq!(r.session.parent_session_id, None);
}

#[test]
fn growth_keeps_what_was_stored() {
    let lines = [r#"{"type":"user","timestamp":"t1"}"#, r#"{"type":"mode","timestamp":"t2"}"#];
    let before = import(&lines[..1]);
    let after = import(&lines);
    assert_eq!(after.records[0].record.raw_json, before.records[0].record.raw_json);
    assert_eq!(after.session.first_timestamp, before.session.first_timestamp);
    assert_eq!(after.session.last_timestamp, some("t2"));
}

#[test]
fn titles_outlive_an_import_without_any() {
    let known = KnownSession {
        custom_title: some("kept"),
        ai_title: some("old"),
        parent_session_id: some("main"),
    };
    let r = import(&[r#"{"type":"ai-title","aiTitle":"new"}"#]);
    let merged = merge_session(Some(known), r.session);
    assert_eq!(merged.custom_title, some("kept"));
    assert_eq!(merged.ai_title, some("new"));
    assert_eq!(merged.parent_session_id, some("main"));
    assert_eq!(merged.record_count, 1);
    let merged = merge_session(None, import(&["{}"]).session);
    assert_eq!(merged.custom_title, None);
}

#[test]
fn importing_again_gives_the_same_session() {
    let lines = [r#"{"type":"custom-title","customTitle":"T"}"#];
    let first = merge_session(None, import(&lines).session);
    let known = KnownSession {
        custom_title: first.custom_title.clone(),
        ai_title: first.ai_title.clone(),
        parent_session_id: first.parent_session_id.clone(),
    };
    let second = merge_session(Some(known), import(&lines).session);
    assert_eq!(second.custom_title, first.custom_title);
    assert_eq!(second.ai_title, first.ai_title);
    assert_eq!(second.record_count, first.record_count);
}

#[test]
fn blocks_of_messages_and_queue_are_counted() {
    let r = import(&[
        r#"{"type":"user","message":{"content":[{"type":"text","text":"a"},{"type":"image"}]}}"#,
        r#"{"type":"queue-operation","content":"q"}"#,
        r#"{"type":"queue-operation"}"#,
        r#"{"type":"mode"}"#,
    ]);
    assert_eq!(block_count(&r.records), Some(3));
}

#[test]
fn run_is_counted_and_reported() {
    let s = ImportStats::new();
    let s = s.count(&Outcome::Imported { records: 5, blocks: 7 }).unwrap();
    let s = s.count(&Outcome::Skipped).unwrap();
    let s = s.count(&Outcome::Imported { records: 1, blocks: 0 }).unwrap();
    assert_eq!(s.files_scanned, 3);
    assert_eq!(s.files_imported, 2);
    assert_eq!(s.files_skipped, 1);
    assert_eq!(s.records, 6);
    assert_eq!(s.blocks, 7);
    assert_eq!(
        s.report(),
        "Done. 3 file(s) scanned, 2 imported, 1 unchanged. 6 records, 7 content blocks."
    );
    assert!(s.count(&Outcome::Imported { records: usize::MAX, blocks: 0 }).is_none());
}
