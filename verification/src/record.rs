//! What is stored of one line of a transcript.

use vstd::prelude::*;
use vstd::utf8::encode_utf8;

use crate::block::{
    bare_block, block_of, body_of, cap_body, capped, flatten_content, flattened, kind, kind_of,
    law_capped_is_longest_beginning, parse_block, search_body, search_body_of, text_block, Block,
    BlockView, INDEX_CAP,
};
use crate::event::{summarize_event, summary_of};
use crate::json::{bool_field, i64_field, lemma_array_model, str_field, Json, JsonView};
use crate::text::{blank, is_blank, join, joined, law_joining_goes_on, opt_text, str_eq, texts};

verus! {

/// The model of a row about a record.
pub struct RecordView {
    pub seq: nat,
    pub record_type: Seq<char>,
    pub uuid: Option<Seq<char>>,
    pub parent_uuid: Option<Seq<char>>,
    pub timestamp: Option<Seq<char>>,
    pub is_sidechain: Option<bool>,
    pub is_meta: Option<bool>,
    pub user_type: Option<Seq<char>>,
    pub cwd: Option<Seq<char>>,
    pub git_branch: Option<Seq<char>>,
    pub version: Option<Seq<char>>,
    pub raw_json: Seq<char>,
}

/// A row about a record. `seq` is the number of its line, from 1, and `raw_json` the whole line.
pub struct RecordRow {
    pub seq: usize,
    pub record_type: String,
    pub uuid: Option<String>,
    pub parent_uuid: Option<String>,
    pub timestamp: Option<String>,
    pub is_sidechain: Option<bool>,
    pub is_meta: Option<bool>,
    pub user_type: Option<String>,
    pub cwd: Option<String>,
    pub git_branch: Option<String>,
    pub version: Option<String>,
    pub raw_json: String,
}

impl View for RecordRow {
    type V = RecordView;

    open spec fn view(&self) -> RecordView {
        RecordView {
            seq: self.seq as nat,
            record_type: self.record_type@,
            uuid: opt_text(self.uuid),
            parent_uuid: opt_text(self.parent_uuid),
            timestamp: opt_text(self.timestamp),
            is_sidechain: self.is_sidechain,
            is_meta: self.is_meta,
            user_type: opt_text(self.user_type),
            cwd: opt_text(self.cwd),
            git_branch: opt_text(self.git_branch),
            version: opt_text(self.version),
            raw_json: self.raw_json@,
        }
    }
}

/// The model of a row about a message.
pub struct MessageView {
    pub uuid: Option<Seq<char>>,
    pub parent_uuid: Option<Seq<char>>,
    pub role: Seq<char>,
    pub model: Option<Seq<char>>,
    pub message_id: Option<Seq<char>>,
    pub stop_reason: Option<Seq<char>>,
    pub timestamp: Option<Seq<char>>,
    pub input_tokens: Option<i64>,
    pub output_tokens: Option<i64>,
    pub text_content: Option<Seq<char>>,
}

/// A row about a message, a turn of the user or of the assistant.
pub struct MessageRow {
    pub uuid: Option<String>,
    pub parent_uuid: Option<String>,
    pub role: String,
    pub model: Option<String>,
    pub message_id: Option<String>,
    pub stop_reason: Option<String>,
    pub timestamp: Option<String>,
    pub input_tokens: Option<i64>,
    pub output_tokens: Option<i64>,
    pub text_content: Option<String>,
}

impl View for MessageRow {
    type V = MessageView;

    open spec fn view(&self) -> MessageView {
        MessageView {
            uuid: opt_text(self.uuid),
            parent_uuid: opt_text(self.parent_uuid),
            role: self.role@,
            model: opt_text(self.model),
            message_id: opt_text(self.message_id),
            stop_reason: opt_text(self.stop_reason),
            timestamp: opt_text(self.timestamp),
            input_tokens: self.input_tokens,
            output_tokens: self.output_tokens,
            text_content: opt_text(self.text_content),
        }
    }
}

/// The model of a row about a content block.
pub struct BlockRowView {
    pub message_uuid: Option<Seq<char>>,
    pub seq: nat,
    pub role: Option<Seq<char>>,
    pub block: BlockView,
    pub timestamp: Option<Seq<char>>,
    pub search_body: Option<Seq<char>>,
}

/// A row about a content block. `seq` is its place within the message, and `search_body` what the
/// full-text index gets of it, if anything.
pub struct BlockRow {
    pub message_uuid: Option<String>,
    pub seq: usize,
    pub role: Option<String>,
    pub block: Block,
    pub timestamp: Option<String>,
    pub search_body: Option<String>,
}

impl View for BlockRow {
    type V = BlockRowView;

    open spec fn view(&self) -> BlockRowView {
        BlockRowView {
            message_uuid: opt_text(self.message_uuid),
            seq: self.seq as nat,
            role: opt_text(self.role),
            block: self.block@,
            timestamp: opt_text(self.timestamp),
            search_body: opt_text(self.search_body),
        }
    }
}

/// The models of a list of block rows.
pub open spec fn block_rows(rows: Seq<BlockRow>) -> Seq<BlockRowView> {
    rows.map_values(|r: BlockRow| r@)
}

/// The model of a row about an event.
pub struct EventView {
    pub seq: nat,
    pub event_type: Seq<char>,
    pub timestamp: Option<Seq<char>>,
    pub summary: Option<Seq<char>>,
    pub raw_json: Seq<char>,
}

/// A row about an event, a record that is not a message.
pub struct EventRow {
    pub seq: usize,
    pub event_type: String,
    pub timestamp: Option<String>,
    pub summary: Option<String>,
    pub raw_json: String,
}

impl View for EventRow {
    type V = EventView;

    open spec fn view(&self) -> EventView {
        EventView {
            seq: self.seq as nat,
            event_type: self.event_type@,
            timestamp: opt_text(self.timestamp),
            summary: opt_text(self.summary),
            raw_json: self.raw_json@,
        }
    }
}

/// The model of the rows that go with a record.
pub enum DetailView {
    Message { message: MessageView, blocks: Seq<BlockRowView> },
    Event { event: EventView, queued: Option<BlockRowView> },
}

/// The rows that go with a record: a message with its blocks, or an event with the block of a
/// queued message, if it carries one.
pub enum Detail {
    Message { message: MessageRow, blocks: Vec<BlockRow> },
    Event { event: EventRow, queued: Option<BlockRow> },
}

impl View for Detail {
    type V = DetailView;

    open spec fn view(&self) -> DetailView {
        match self {
            Detail::Message { message, blocks } => DetailView::Message {
                message: message@,
                blocks: block_rows(blocks@),
            },
            Detail::Event { event, queued } => DetailView::Event {
                event: event@,
                queued: match queued {
                    Some(b) => Some(b@),
                    None => None,
                },
            },
        }
    }
}

/// The model of all that is stored of a line.
pub struct StoredView {
    pub record: RecordView,
    pub detail: DetailView,
}

/// All that is stored of a line.
pub struct Stored {
    pub record: RecordRow,
    pub detail: Detail,
}

impl View for Stored {
    type V = StoredView;

    open spec fn view(&self) -> StoredView {
        StoredView { record: self.record@, detail: self.detail@ }
    }
}

/// The text at a key of the message inside a record.
pub open spec fn message_str(v: JsonView, key: Seq<char>) -> Option<Seq<char>> {
    match v.get("message"@) {
        Some(m) => m.str_at(key),
        None => None,
    }
}

/// The number of tokens at a key of the usage of the message inside a record.
pub open spec fn message_tokens(v: JsonView, key: Seq<char>) -> Option<i64> {
    match v.get("message"@) {
        Some(m) => match m.get("usage"@) {
            Some(u) => u.i64_at(key),
            None => None,
        },
        None => None,
    }
}

/// Who speaks: the role of the message, or else the type of the record.
pub open spec fn role_of(rtype: Seq<char>, v: JsonView) -> Seq<char> {
    match message_str(v, "role"@) {
        Some(r) => r,
        None => rtype,
    }
}

/// The blocks of the message inside a record.
pub open spec fn message_blocks(v: JsonView) -> Seq<BlockView> {
    let content = match v.get("message"@) {
        Some(m) => m.get("content"@),
        None => None,
    };
    match content {
        Some(JsonView::Str(s)) => seq![text_block(s)],
        Some(JsonView::Array(items)) => items.map_values(|item: JsonView| block_of(item)),
        _ => Seq::empty(),
    }
}

/// The texts of the blocks of plain text.
pub open spec fn text_parts(blocks: Seq<BlockView>) -> Seq<Seq<char>>
    decreases blocks.len(),
{
    if blocks.len() == 0 {
        Seq::empty()
    } else {
        let front = text_parts(blocks.drop_last());
        match blocks.last().text {
            Some(t) => if blocks.last().block_type == "text"@ {
                front.push(t)
            } else {
                front
            },
            None => front,
        }
    }
}

/// The plain text of a message; nothing where no block has any.
pub open spec fn text_content_of(blocks: Seq<BlockView>) -> Option<Seq<char>> {
    let parts = text_parts(blocks);
    if parts.len() == 0 {
        None
    } else {
        Some(joined(parts, seq!['\n']))
    }
}

/// The row about the message inside a record.
pub open spec fn message_of(rtype: Seq<char>, v: JsonView) -> MessageView {
    MessageView {
        uuid: v.str_at("uuid"@),
        parent_uuid: v.str_at("parentUuid"@),
        role: role_of(rtype, v),
        model: message_str(v, "model"@),
        message_id: message_str(v, "id"@),
        stop_reason: message_str(v, "stop_reason"@),
        timestamp: v.str_at("timestamp"@),
        input_tokens: message_tokens(v, "input_tokens"@),
        output_tokens: message_tokens(v, "output_tokens"@),
        text_content: text_content_of(message_blocks(v)),
    }
}

/// The rows about the blocks of the message inside a record.
pub open spec fn message_block_rows(rtype: Seq<char>, v: JsonView) -> Seq<BlockRowView> {
    message_blocks(v).map(
        |i: int, b: BlockView|
            BlockRowView {
                message_uuid: v.str_at("uuid"@),
                seq: i as nat,
                role: Some(role_of(rtype, v)),
                block: b,
                timestamp: v.str_at("timestamp"@),
                search_body: search_body_of(b),
            },
    )
}

fn message_field(v: &Json, key: &str) -> (r: Option<String>)
    ensures
        opt_text(r) == message_str(v@, key@),
{
    match v.get("message") {
        Some(m) => str_field(m, key),
        None => None,
    }
}

fn tokens_field(v: &Json, key: &str) -> (r: Option<i64>)
    ensures
        r == message_tokens(v@, key@),
{
    match v.get("message") {
        Some(m) => match m.get("usage") {
            Some(u) => i64_field(u, key),
            None => None,
        },
        None => None,
    }
}

/// The models of a list of blocks.
pub open spec fn block_views(blocks: Seq<Block>) -> Seq<BlockView> {
    blocks.map_values(|b: Block| b@)
}

fn parse_blocks(v: &Json) -> (r: Vec<Block>)
    ensures
        block_views(r@) == message_blocks(v@),
{
    let content = match v.get("message") {
        Some(m) => m.get("content"),
        None => None,
    };
    let mut blocks: Vec<Block> = Vec::new();
    match content {
        Some(Json::Str(s)) => {
            blocks.push(Block::text(s.clone()));
            assert(block_views(blocks@) == message_blocks(v@));
        },
        Some(Json::Array(items)) => {
            for i in 0..items.len()
                invariant
                    blocks@.len() == i,
                    forall|j: int| 0 <= j < i ==> (#[trigger] blocks@[j])@ == block_of(items@[j]@),
            {
                blocks.push(parse_block(&items[i]));
            }
            proof {
                lemma_array_model(items@);
                assert(block_views(blocks@) =~= message_blocks(v@));
            }
        },
        _ => {
            assert(block_views(blocks@) =~= message_blocks(v@));
        },
    }
    blocks
}

fn text_content(blocks: &Vec<Block>) -> (r: Option<String>)
    ensures
        opt_text(r) == text_content_of(block_views(blocks@)),
{
    let mut parts: Vec<String> = Vec::new();
    for i in 0..blocks.len()
        invariant
            texts(parts@) == text_parts(block_views(blocks@).take(i as int)),
    {
        proof {
            let all = block_views(blocks@);
            assert(all.take(i + 1).drop_last() == all.take(i as int));
            assert(all.take(i + 1).last() == blocks@[i as int]@);
        }
        match &blocks[i].text {
            Some(t) => {
                if str_eq(blocks[i].block_type.as_str(), "text") {
                    let t = t.clone();
                    assert(texts(parts@.push(t)) == texts(parts@).push(t@));
                    parts.push(t);
                }
            },
            None => {},
        }
    }
    assert(block_views(blocks@).take(blocks@.len() as int) == block_views(blocks@));
    if parts.len() == 0 {
        None
    } else {
        proof {
            reveal_strlit("\n");
            assert("\n"@ == seq!['\n']);
        }
        Some(join(&parts, "\n"))
    }
}

/// The rows about the message inside a record.
pub fn import_message(rtype: &str, v: &Json) -> (r: (MessageRow, Vec<BlockRow>))
    ensures
        r.0@ == message_of(rtype@, v@),
        block_rows(r.1@) == message_block_rows(rtype@, v@),
{
    let role = match message_field(v, "role") {
        Some(role) => role,
        None => rtype.to_owned(),
    };
    let blocks = parse_blocks(v);
    let message = MessageRow {
        uuid: str_field(v, "uuid"),
        parent_uuid: str_field(v, "parentUuid"),
        role: role.clone(),
        model: message_field(v, "model"),
        message_id: message_field(v, "id"),
        stop_reason: message_field(v, "stop_reason"),
        timestamp: str_field(v, "timestamp"),
        input_tokens: tokens_field(v, "input_tokens"),
        output_tokens: tokens_field(v, "output_tokens"),
        text_content: text_content(&blocks),
    };
    let mut rows: Vec<BlockRow> = Vec::new();
    let ghost views = block_views(blocks@);
    let ghost expected = message_block_rows(rtype@, v@);
    for block in it: blocks
        invariant
            it.seq() == blocks@,
            views == block_views(blocks@),
            views == message_blocks(v@),
            expected == message_block_rows(rtype@, v@),
            role@ == role_of(rtype@, v@),
            rows@.len() == it.index(),
            forall|j: int| 0 <= j < rows@.len() ==> (#[trigger] rows@[j])@ == expected[j],
    {
        assert(views[it.index()] == block@);
        let row = BlockRow {
            message_uuid: str_field(v, "uuid"),
            seq: rows.len(),
            role: Some(role.clone()),
            search_body: search_body(&block),
            block,
            timestamp: str_field(v, "timestamp"),
        };
        assert(row@ == expected[it.index()]);
        rows.push(row);
    }
    assert(block_rows(rows@) =~= expected);
    (message, rows)
}

/// The row about a queued message. The operation is kept for display; only the text of the message
/// is indexed.
pub open spec fn queued_row(v: JsonView, text: Seq<char>) -> BlockRowView {
    BlockRowView {
        message_uuid: v.str_at("uuid"@),
        seq: 0,
        role: None,
        block: BlockView {
            text: Some(text),
            tool_name: Some(
                match v.str_at("operation"@) {
                    Some(op) => op,
                    None => "enqueue"@,
                },
            ),
            ..bare_block("queued"@)
        },
        timestamp: v.str_at("timestamp"@),
        search_body: Some(capped(text, INDEX_CAP as nat)),
    }
}

/// The row about the queued message that an event carries, if it does.
pub open spec fn queued_of(rtype: Seq<char>, v: JsonView) -> Option<BlockRowView> {
    if rtype != "queue-operation"@ {
        None
    } else {
        match v.get("content"@) {
            Some(c) => if blank(flattened(c)) {
                None
            } else {
                Some(queued_row(v, flattened(c)))
            },
            None => None,
        }
    }
}

/// The row about a queued message.
fn insert_queued_block(v: &Json, text: String) -> (r: BlockRow)
    ensures
        r@ == queued_row(v@, text@),
{
    let operation = match str_field(v, "operation") {
        Some(op) => op,
        None => "enqueue".to_owned(),
    };
    BlockRow {
        message_uuid: str_field(v, "uuid"),
        seq: 0,
        role: None,
        search_body: Some(cap_body(text.as_str())),
        block: Block {
            block_type: "queued".to_owned(),
            text: Some(text),
            tool_name: Some(operation),
            tool_use_id: None,
            tool_input: None,
            is_error: None,
            tool_result: None,
        },
        timestamp: str_field(v, "timestamp"),
    }
}

fn import_queued(rtype: &str, v: &Json) -> (r: Option<BlockRow>)
    ensures
        match r {
            Some(b) => queued_of(rtype@, v@) == Some(b@),
            None => queued_of(rtype@, v@) is None,
        },
{
    if !str_eq(rtype, "queue-operation") {
        return None;
    }
    match v.get("content") {
        Some(c) => {
            let text = flatten_content(c);
            if is_blank(text.as_str()) {
                None
            } else {
                Some(insert_queued_block(v, text))
            }
        },
        None => None,
    }
}

/// The record is a turn of the user or of the assistant.
pub open spec fn is_message(rtype: Seq<char>) -> bool {
    rtype == "user"@ || rtype == "assistant"@
}

/// Is the record a turn of the user or of the assistant?
pub fn is_message_type(rtype: &str) -> (r: bool)
    ensures
        r == is_message(rtype@),
{
    str_eq(rtype, "user") || str_eq(rtype, "assistant")
}

/// The row about a record.
pub open spec fn record_of(seq: nat, line: Seq<char>, v: JsonView) -> RecordView {
    RecordView {
        seq,
        record_type: kind_of(v),
        uuid: v.str_at("uuid"@),
        parent_uuid: v.str_at("parentUuid"@),
        timestamp: v.str_at("timestamp"@),
        is_sidechain: v.bool_at("isSidechain"@),
        is_meta: v.bool_at("isMeta"@),
        user_type: v.str_at("userType"@),
        cwd: v.str_at("cwd"@),
        git_branch: v.str_at("gitBranch"@),
        version: v.str_at("version"@),
        raw_json: line,
    }
}

/// All that is stored of a line with a number and the value that it holds.
pub open spec fn stored_of(seq: nat, line: Seq<char>, v: JsonView) -> StoredView {
    let rtype = kind_of(v);
    StoredView {
        record: record_of(seq, line, v),
        detail: if is_message(rtype) {
            DetailView::Message {
                message: message_of(rtype, v),
                blocks: message_block_rows(rtype, v),
            }
        } else {
            DetailView::Event {
                event: EventView {
                    seq,
                    event_type: rtype,
                    timestamp: v.str_at("timestamp"@),
                    summary: summary_of(rtype, v),
                    raw_json: line,
                },
                queued: queued_of(rtype, v),
            }
        },
    }
}

/// All that is stored of a line with a number and the value that it holds.
pub fn import_record(seq: usize, line: &str, v: &Json) -> (r: Stored)
    ensures
        r@ == stored_of(seq as nat, line@, v@),
{
    let rtype = kind(v);
    let record = RecordRow {
        seq,
        record_type: rtype.clone(),
        uuid: str_field(v, "uuid"),
        parent_uuid: str_field(v, "parentUuid"),
        timestamp: str_field(v, "timestamp"),
        is_sidechain: bool_field(v, "isSidechain"),
        is_meta: bool_field(v, "isMeta"),
        user_type: str_field(v, "userType"),
        cwd: str_field(v, "cwd"),
        git_branch: str_field(v, "gitBranch"),
        version: str_field(v, "version"),
        raw_json: line.to_owned(),
    };
    let detail = if is_message_type(rtype.as_str()) {
        let (message, blocks) = import_message(rtype.as_str(), v);
        Detail::Message { message, blocks }
    } else {
        let event = EventRow {
            seq,
            summary: summarize_event(rtype.as_str(), v),
            timestamp: str_field(v, "timestamp"),
            raw_json: line.to_owned(),
            event_type: rtype.clone(),
        };
        let queued = import_queued(rtype.as_str(), v);
        Detail::Event { event, queued }
    };
    Stored { record, detail }
}

/// Every record is stored as what it is: as a message where it is a turn of the user or of the
/// assistant, and as an event otherwise, under its type.
pub proof fn law_every_record_is_marked(seq: nat, line: Seq<char>, v: JsonView)
    ensures
        stored_of(seq, line, v).record.record_type == kind_of(v),
        stored_of(seq, line, v).detail is Message <==> is_message(kind_of(v)),
        stored_of(seq, line, v).detail matches DetailView::Event { event, .. } ==> event.event_type
            == kind_of(v) && event.raw_json == line,
{
}

/// The text that a block row is searched by is never over the size of the index.
pub open spec fn within_cap(row: BlockRowView) -> bool {
    match row.search_body {
        Some(body) => encode_utf8(body).len() <= INDEX_CAP,
        None => true,
    }
}

/// What goes into the index is bounded, for the blocks of messages and for queued messages.
pub proof fn law_index_is_bounded(seq: nat, line: Seq<char>, v: JsonView)
    ensures
        match stored_of(seq, line, v).detail {
            DetailView::Message { blocks, .. } => forall|i: int|
                0 <= i < blocks.len() ==> within_cap(#[trigger] blocks[i]),
            DetailView::Event { queued, .. } => match queued {
                Some(row) => within_cap(row),
                None => true,
            },
        },
{
    let rows = message_block_rows(kind_of(v), v);
    assert forall|i: int| 0 <= i < rows.len() implies within_cap(#[trigger] rows[i]) by {
        law_capped_is_longest_beginning(body_of(message_blocks(v)[i]), INDEX_CAP as nat);
    }
    match v.get("content"@) {
        Some(c) => law_capped_is_longest_beginning(flattened(c), INDEX_CAP as nat),
        None => {},
    }
}

/// A queued message is stored as a searchable block of its own, with its whole text; a queue
/// operation without text gives none.
pub proof fn law_queued_messages_are_searchable(seq: nat, line: Seq<char>, v: JsonView)
    requires
        kind_of(v) == "queue-operation"@,
    ensures
        stored_of(seq, line, v).detail matches DetailView::Event { queued, .. } && (match v.get(
            "content"@,
        ) {
            Some(c) => if blank(flattened(c)) {
                queued is None
            } else {
                queued matches Some(row) && row.block.block_type == "queued"@ && row.block.text
                    == Some(flattened(c)) && row.search_body == Some(
                    capped(flattened(c), INDEX_CAP as nat),
                )
            },
            None => queued is None,
        }),
{
    reveal_strlit("queue-operation");
    reveal_strlit("user");
    reveal_strlit("assistant");
    assert("queue-operation"@.len() != "user"@.len());
    assert("queue-operation"@.len() != "assistant"@.len());
}

/// Blocks are numbered by their place in the message, from 0.
pub proof fn law_blocks_are_numbered(rtype: Seq<char>, v: JsonView, i: int)
    requires
        0 <= i < message_block_rows(rtype, v).len(),
    ensures
        message_block_rows(rtype, v).len() == message_blocks(v).len(),
        message_block_rows(rtype, v)[i].seq == i,
        message_block_rows(rtype, v)[i].block == message_blocks(v)[i],
{
}

/// A record keeps the fields of its line, each under its own name.
pub proof fn law_records_keep_their_fields(seq: nat, line: Seq<char>, v: JsonView)
    ensures
        ({
            let r = stored_of(seq, line, v).record;
            &&& r.seq == seq
            &&& r.raw_json == line
            &&& r.uuid == v.str_at("uuid"@)
            &&& r.parent_uuid == v.str_at("parentUuid"@)
            &&& r.timestamp == v.str_at("timestamp"@)
            &&& r.is_sidechain == v.bool_at("isSidechain"@)
            &&& r.is_meta == v.bool_at("isMeta"@)
            &&& r.user_type == v.str_at("userType"@)
            &&& r.cwd == v.str_at("cwd"@)
            &&& r.git_branch == v.str_at("gitBranch"@)
            &&& r.version == v.str_at("version"@)
        }),
{
}

/// A message keeps what its record and the message inside say of it, each under its own name.
pub proof fn law_messages_keep_their_fields(rtype: Seq<char>, v: JsonView, inner: JsonView, usage: JsonView)
    requires
        v.get("message"@) == Some(inner),
        inner.get("usage"@) == Some(usage),
    ensures
        ({
            let m = message_of(rtype, v);
            &&& m.uuid == v.str_at("uuid"@)
            &&& m.parent_uuid == v.str_at("parentUuid"@)
            &&& m.timestamp == v.str_at("timestamp"@)
            &&& inner.str_at("role"@) matches Some(role) ==> m.role == role
            &&& inner.str_at("role"@) is None ==> m.role == rtype
            &&& m.model == inner.str_at("model"@)
            &&& m.message_id == inner.str_at("id"@)
            &&& m.stop_reason == inner.str_at("stop_reason"@)
            &&& m.input_tokens == usage.i64_at("input_tokens"@)
            &&& m.output_tokens == usage.i64_at("output_tokens"@)
        }),
{
}

/// A record without a message inside gives a message that says nothing.
pub proof fn law_missing_messages_are_empty(rtype: Seq<char>, v: JsonView)
    requires
        v.get("message"@) is None,
    ensures
        message_of(rtype, v).role == rtype,
        message_of(rtype, v).model is None,
        message_of(rtype, v).input_tokens is None,
        message_of(rtype, v).output_tokens is None,
        message_of(rtype, v).text_content is None,
        message_block_rows(rtype, v).len() == 0,
{
}

/// Every item of a message's content is stored as a block, in order, with the role, the id and the
/// time of the message; a content that is one text is stored as one block with that text.
pub proof fn law_every_item_is_stored(rtype: Seq<char>, v: JsonView, inner: JsonView, i: int)
    requires
        v.get("message"@) == Some(inner),
    ensures
        inner.get("content"@) matches Some(JsonView::Array(items)) ==> {
            &&& message_block_rows(rtype, v).len() == items.len()
            &&& 0 <= i < items.len() ==> message_block_rows(rtype, v)[i].block == block_of(items[i])
        },
        inner.get("content"@) matches Some(JsonView::Str(s)) ==> {
            &&& message_block_rows(rtype, v).len() == 1
            &&& message_block_rows(rtype, v)[0].block.block_type == "text"@
            &&& message_block_rows(rtype, v)[0].block.text == Some(s)
            &&& message_block_rows(rtype, v)[0].block.tool_name is None
            &&& message_block_rows(rtype, v)[0].block.tool_input is None
            &&& message_block_rows(rtype, v)[0].block.tool_result is None
            &&& message_of(rtype, v).text_content == Some(s)
        },
        !(inner.get("content"@) matches Some(JsonView::Array(_))) && !(inner.get(
            "content"@,
        ) matches Some(JsonView::Str(_))) ==> message_block_rows(rtype, v).len() == 0 && message_of(
            rtype,
            v,
        ).text_content is None,
        0 <= i < message_block_rows(rtype, v).len() ==> {
            let row = message_block_rows(rtype, v)[i];
            &&& row.role == Some(message_of(rtype, v).role)
            &&& row.message_uuid == v.str_at("uuid"@)
            &&& row.timestamp == v.str_at("timestamp"@)
            &&& row.search_body == search_body_of(row.block)
        },
{
    if let Some(JsonView::Str(s)) = inner.get("content"@) {
        let blocks = message_blocks(v);
        assert(blocks =~= seq![text_block(s)]);
        assert(blocks.drop_last() =~= Seq::<BlockView>::empty());
        assert(text_parts(blocks.drop_last()) =~= Seq::<Seq<char>>::empty());
        assert(text_parts(blocks) =~= seq![s]);
    }
}

/// The text of a message is that of its blocks of plain text, each on lines of its own: one more
/// such block goes behind the others, and any other block changes nothing.
pub proof fn law_text_of_messages_grows(blocks: Seq<BlockView>, b: BlockView)
    ensures
        b.block_type == "text"@ && b.text is Some ==> text_content_of(blocks.push(b)) == Some(
            match text_content_of(blocks) {
                Some(s) => s + seq!['\n'] + b.text->0,
                None => b.text->0,
            },
        ),
        !(b.block_type == "text"@ && b.text is Some) ==> text_content_of(blocks.push(b))
            == text_content_of(blocks),
        text_content_of(Seq::empty()) is None,
{
    assert(blocks.push(b).drop_last() =~= blocks);
    if let Some(t) = b.text {
        law_joining_goes_on(text_parts(blocks), seq!['\n'], t);
    }
}

/// An event keeps its number, its time and its summary, and a queued message the operation, the id
/// and the time of its record.
pub proof fn law_events_keep_their_fields(seq: nat, line: Seq<char>, v: JsonView)
    ensures
        stored_of(seq, line, v).detail matches DetailView::Event { event, queued } ==> {
            &&& event.seq == seq
            &&& event.timestamp == v.str_at("timestamp"@)
            &&& event.summary == summary_of(kind_of(v), v)
            &&& queued matches Some(row) ==> {
                &&& kind_of(v) == "queue-operation"@
                &&& row.message_uuid == v.str_at("uuid"@)
                &&& row.timestamp == v.str_at("timestamp"@)
                &&& row.role is None
                &&& row.seq == 0
                &&& row.block.tool_use_id is None
                &&& row.block.tool_input is None
                &&& row.block.tool_result is None
                &&& row.block.is_error is None
                &&& v.str_at("operation"@) matches Some(op) ==> row.block.tool_name == Some(op)
                &&& v.str_at("operation"@) is None ==> row.block.tool_name == Some("enqueue"@)
            }
        },
        stored_of(seq, line, v).detail matches DetailView::Message { message, blocks } ==> message
            == message_of(kind_of(v), v) && blocks == message_block_rows(kind_of(v), v),
        kind_of(v) == match v.str_at("type"@) {
            Some(t) => t,
            None => "unknown"@,
        },
{
}

/// Turns of the user and of the assistant are messages, and nothing else is.
pub proof fn law_turns_are_messages(rtype: Seq<char>)
    ensures
        is_message("user"@) && is_message("assistant"@),
        is_message(rtype) ==> rtype == "user"@ || rtype == "assistant"@,
{
}

} // verus!
