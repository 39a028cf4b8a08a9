//! What is stored of a transcript file, and which files are read again.

use vstd::prelude::*;

use crate::block::{kind, kind_of};
use crate::format::{decimal, decimal_u64, lemma_replaced_one};
use crate::json::{bool_field, json_parse, parse, str_field, Json, JsonView};
use crate::record::{
    import_record, is_message, is_message_type, stored_of, Detail, DetailView, Stored, StoredView,
};
use crate::text::{
    blank, is_blank, lemma_made_more, lemma_made_next, lemma_made_own, made_of, opt_str, opt_text,
    replace, replaced, str_eq, texts,
};

verus! {

/// The model of a line that is kept.
pub struct Kept {
    pub seq: nat,
    pub line: Seq<char>,
    pub value: JsonView,
}

/// A line that is kept: its number, from 1, its text, and the value that it holds.
pub struct KeptLine {
    pub seq: usize,
    pub line: String,
    pub value: Json,
}

impl View for KeptLine {
    type V = Kept;

    open spec fn view(&self) -> Kept {
        Kept { seq: self.seq as nat, line: self.line@, value: self.value@ }
    }
}

/// The models of a list of lines that are kept.
pub open spec fn kept_views(kept: Seq<KeptLine>) -> Seq<Kept> {
    kept.map_values(|k: KeptLine| k@)
}

/// The lines that are kept: those that are not blank and hold a JSON value, in order.
pub open spec fn kept_lines(lines: Seq<Seq<char>>) -> Seq<Kept>
    decreases lines.len(),
{
    if lines.len() == 0 {
        Seq::empty()
    } else {
        let front = kept_lines(lines.drop_last());
        let line = lines.last();
        if blank(line) {
            front
        } else {
            match json_parse(line) {
                Some(value) => front.push(Kept { seq: lines.len(), line, value }),
                None => front,
            }
        }
    }
}

/// The first text that a record has at a key.
pub open spec fn first_text(kept: Seq<Kept>, key: Seq<char>) -> Option<Seq<char>>
    decreases kept.len(),
{
    if kept.len() == 0 {
        None
    } else {
        match first_text(kept.drop_last(), key) {
            Some(s) => Some(s),
            None => kept.last().value.str_at(key),
        }
    }
}

/// The last text that a record has at a key.
pub open spec fn last_text(kept: Seq<Kept>, key: Seq<char>) -> Option<Seq<char>>
    decreases kept.len(),
{
    if kept.len() == 0 {
        None
    } else {
        match kept.last().value.str_at(key) {
            Some(s) => Some(s),
            None => last_text(kept.drop_last(), key),
        }
    }
}

/// The text at a key of the last record of a type.
pub open spec fn title_text(kept: Seq<Kept>, rtype: Seq<char>, key: Seq<char>) -> Option<Seq<char>>
    decreases kept.len(),
{
    if kept.len() == 0 {
        None
    } else if kind_of(kept.last().value) == rtype {
        kept.last().value.str_at(key)
    } else {
        title_text(kept.drop_last(), rtype, key)
    }
}

/// The record comes from a subagent, not from the main thread.
pub open spec fn is_sidechain(value: JsonView) -> bool {
    value.bool_at("isSidechain"@) == Some(true)
}

/// The id of another session that a record of a subagent says it belongs to.
pub open spec fn other_session(value: JsonView, session_id: Seq<char>) -> Option<Seq<char>> {
    if !is_sidechain(value) {
        None
    } else {
        match value.str_at("sessionId"@) {
            Some(s) => if s == session_id {
                None
            } else {
                Some(s)
            },
            None => None,
        }
    }
}

/// The first id of another session that a record of a subagent says it belongs to.
pub open spec fn parent_text(kept: Seq<Kept>, session_id: Seq<char>) -> Option<Seq<char>>
    decreases kept.len(),
{
    if kept.len() == 0 {
        None
    } else {
        match parent_text(kept.drop_last(), session_id) {
            Some(s) => Some(s),
            None => other_session(kept.last().value, session_id),
        }
    }
}

/// How many records are messages.
pub open spec fn message_count(kept: Seq<Kept>) -> nat
    decreases kept.len(),
{
    if kept.len() == 0 {
        0
    } else if is_message(kind_of(kept.last().value)) {
        message_count(kept.drop_last()) + 1
    } else {
        message_count(kept.drop_last())
    }
}

/// The model of a row about a session.
pub struct SessionView {
    pub session_id: Seq<char>,
    pub project_dir: Seq<char>,
    pub project_path: Seq<char>,
    pub file_path: Seq<char>,
    pub custom_title: Option<Seq<char>>,
    pub ai_title: Option<Seq<char>>,
    pub git_branch: Option<Seq<char>>,
    pub cwd: Option<Seq<char>>,
    pub version: Option<Seq<char>>,
    pub first_timestamp: Option<Seq<char>>,
    pub last_timestamp: Option<Seq<char>>,
    pub record_count: nat,
    pub message_count: nat,
    pub parent_session_id: Option<Seq<char>>,
}

/// A row about a session. `parent_session_id` is set for the transcript of a subagent: the id of
/// the session that spawned it.
pub struct SessionRow {
    pub session_id: String,
    pub project_dir: String,
    pub project_path: String,
    pub file_path: String,
    pub custom_title: Option<String>,
    pub ai_title: Option<String>,
    pub git_branch: Option<String>,
    pub cwd: Option<String>,
    pub version: Option<String>,
    pub first_timestamp: Option<String>,
    pub last_timestamp: Option<String>,
    pub record_count: usize,
    pub message_count: usize,
    pub parent_session_id: Option<String>,
}

impl View for SessionRow {
    type V = SessionView;

    open spec fn view(&self) -> SessionView {
        SessionView {
            session_id: self.session_id@,
            project_dir: self.project_dir@,
            project_path: self.project_path@,
            file_path: self.file_path@,
            custom_title: opt_text(self.custom_title),
            ai_title: opt_text(self.ai_title),
            git_branch: opt_text(self.git_branch),
            cwd: opt_text(self.cwd),
            version: opt_text(self.version),
            first_timestamp: opt_text(self.first_timestamp),
            last_timestamp: opt_text(self.last_timestamp),
            record_count: self.record_count as nat,
            message_count: self.message_count as nat,
            parent_session_id: opt_text(self.parent_session_id),
        }
    }
}

/// Where a transcript file stands.
pub struct FileName {
    /// The name of the file without its extension, which is the id of the session.
    pub session_id: String,
    /// The name of the directory that holds it.
    pub project_dir: String,
    /// The whole path.
    pub path: String,
}

/// The row about the session that a file with these lines holds.
pub open spec fn session_of(name: FileName, kept: Seq<Kept>) -> SessionView {
    SessionView {
        session_id: name.session_id@,
        project_dir: name.project_dir@,
        project_path: project_path_of(name.project_dir@),
        file_path: name.path@,
        custom_title: title_text(kept, "custom-title"@, "customTitle"@),
        ai_title: title_text(kept, "ai-title"@, "aiTitle"@),
        git_branch: first_text(kept, "gitBranch"@),
        cwd: first_text(kept, "cwd"@),
        version: first_text(kept, "version"@),
        first_timestamp: first_text(kept, "timestamp"@),
        last_timestamp: last_text(kept, "timestamp"@),
        record_count: kept.len(),
        message_count: message_count(kept),
        parent_session_id: parent_text(kept, name.session_id@),
    }
}

/// A row about a file, by which an unchanged file is known again.
pub struct FileRow {
    pub path: String,
    pub session_id: String,
    pub size: i64,
    pub mtime: i64,
}

/// All that is stored of a file.
pub struct FileImport {
    pub records: Vec<Stored>,
    pub session: SessionRow,
    pub file: FileRow,
}

/// The models of a list of stored records.
pub open spec fn stored_views(records: Seq<Stored>) -> Seq<StoredView> {
    records.map_values(|r: Stored| r@)
}

/// What is stored of the lines that are kept.
pub open spec fn stored_lines(kept: Seq<Kept>) -> Seq<StoredView> {
    kept.map_values(|k: Kept| stored_of(k.seq, k.line, k.value))
}

/// What is known of a session from the lines read so far.
struct Progress {
    records: Vec<Stored>,
    message_count: usize,
    first_ts: Option<String>,
    last_ts: Option<String>,
    custom_title: Option<String>,
    ai_title: Option<String>,
    git_branch: Option<String>,
    cwd: Option<String>,
    version: Option<String>,
    parent: Option<String>,
}

impl Progress {
    /// What is known is what the kept lines say.
    spec fn knows(self, kept: Seq<Kept>, session_id: Seq<char>) -> bool {
        &&& stored_views(self.records@) == stored_lines(kept)
        &&& self.message_count == message_count(kept)
        &&& opt_text(self.first_ts) == first_text(kept, "timestamp"@)
        &&& opt_text(self.last_ts) == last_text(kept, "timestamp"@)
        &&& opt_text(self.custom_title) == title_text(kept, "custom-title"@, "customTitle"@)
        &&& opt_text(self.ai_title) == title_text(kept, "ai-title"@, "aiTitle"@)
        &&& opt_text(self.git_branch) == first_text(kept, "gitBranch"@)
        &&& opt_text(self.cwd) == first_text(kept, "cwd"@)
        &&& opt_text(self.version) == first_text(kept, "version"@)
        &&& opt_text(self.parent) == parent_text(kept, session_id)
    }

    /// Nothing is known yet.
    fn start(Ghost(session_id): Ghost<Seq<char>>) -> (p: Progress)
        ensures
            p.knows(Seq::empty(), session_id),
    {
        let p = Progress {
            records: Vec::new(),
            message_count: 0,
            first_ts: None,
            last_ts: None,
            custom_title: None,
            ai_title: None,
            git_branch: None,
            cwd: None,
            version: None,
            parent: None,
        };
        assert(stored_views(p.records@) == stored_lines(Seq::empty()));
        p
    }

    /// Takes in one more line that is kept.
    fn add(
        self,
        seq: usize,
        line: &str,
        v: &Json,
        session_id: &str,
        Ghost(kept): Ghost<Seq<Kept>>,
    ) -> (p: Progress)
        requires
            self.knows(kept, session_id@),
            kept.len() < usize::MAX,
        ensures
            p.knows(kept.push(Kept { seq: seq as nat, line: line@, value: v@ }), session_id@),
    {
        let ghost more = kept.push(Kept { seq: seq as nat, line: line@, value: v@ });
        proof {
            assert(more.drop_last() == kept);
            lemma_message_count(kept);
        }
        let rtype = kind(v);
        let first_ts = first_of(self.first_ts, v, "timestamp");
        let last_ts = last_of(self.last_ts, v, "timestamp");
        let cwd = first_of(self.cwd, v, "cwd");
        let git_branch = first_of(self.git_branch, v, "gitBranch");
        let version = first_of(self.version, v, "version");
        let parent = parent_of(self.parent, v, session_id);
        let custom_title = title_of(self.custom_title, &rtype, "custom-title", v, "customTitle");
        let ai_title = title_of(self.ai_title, &rtype, "ai-title", v, "aiTitle");
        let message_count = if is_message_type(rtype.as_str()) {
            self.message_count + 1
        } else {
            self.message_count
        };
        let mut records = self.records;
        let stored = import_record(seq, line, v);
        records.push(stored);
        proof {
            assert(stored_views(records@) =~= stored_views(self.records@).push(stored@));
            assert(stored_lines(more) =~= stored_lines(kept).push(stored@));
        }
        Progress {
            records,
            message_count,
            first_ts,
            last_ts,
            custom_title,
            ai_title,
            git_branch,
            cwd,
            version,
            parent,
        }
    }
}

/// The text that was found before, or else the one at a key.
fn first_of(found: Option<String>, v: &Json, key: &str) -> (r: Option<String>)
    ensures
        opt_text(r) == match opt_text(found) {
            Some(s) => Some(s),
            None => v@.str_at(key@),
        },
{
    match found {
        Some(s) => Some(s),
        None => str_field(v, key),
    }
}

/// The text at a key, or else the one that was found before.
fn last_of(found: Option<String>, v: &Json, key: &str) -> (r: Option<String>)
    ensures
        opt_text(r) == match v@.str_at(key@) {
            Some(s) => Some(s),
            None => opt_text(found),
        },
{
    match str_field(v, key) {
        Some(s) => Some(s),
        None => found,
    }
}

/// The text at a key where the record has the wanted type, or else the one that was found before.
fn title_of(
    found: Option<String>,
    rtype: &String,
    wanted: &str,
    v: &Json,
    key: &str,
) -> (r: Option<String>)
    ensures
        opt_text(r) == if rtype@ == wanted@ {
            v@.str_at(key@)
        } else {
            opt_text(found)
        },
{
    if str_eq(rtype.as_str(), wanted) {
        str_field(v, key)
    } else {
        found
    }
}

/// The id of another session that was found before, or else the one that the record of a subagent
/// names.
fn parent_of(found: Option<String>, v: &Json, session_id: &str) -> (r: Option<String>)
    ensures
        opt_text(r) == match opt_text(found) {
            Some(s) => Some(s),
            None => other_session(v@, session_id@),
        },
{
    match found {
        Some(s) => Some(s),
        None => {
            let sidechain = match bool_field(v, "isSidechain") {
                Some(b) => b,
                None => false,
            };
            if !sidechain {
                return None;
            }
            match str_field(v, "sessionId") {
                Some(id) => if str_eq(id.as_str(), session_id) {
                    None
                } else {
                    Some(id)
                },
                None => None,
            }
        },
    }
}

/// There are no more messages than records.
proof fn lemma_message_count(kept: Seq<Kept>)
    ensures
        message_count(kept) <= kept.len(),
    decreases kept.len(),
{
    if kept.len() > 0 {
        lemma_message_count(kept.drop_last());
    }
}

/// The lines that are kept. Malformed lines are left out, and the rest of the file is still read.
pub fn keep_lines(lines: &Vec<String>) -> (r: Vec<KeptLine>)
    ensures
        kept_views(r@) == kept_lines(texts(lines@)),
{
    let ghost all = texts(lines@);
    let mut r: Vec<KeptLine> = Vec::new();
    assert(kept_views(r@) =~= kept_lines(all.take(0)));
    for idx in 0..lines.len()
        invariant
            all == texts(lines@),
            kept_views(r@) == kept_lines(all.take(idx as int)),
    {
        let line = lines[idx].as_str();
        proof {
            assert(all.take(idx + 1).drop_last() == all.take(idx as int));
            assert(all.take(idx + 1).last() == line@);
        }
        if !is_blank(line) {
            match parse(line) {
                Some(value) => {
                    let one = KeptLine { seq: idx + 1, line: line.to_owned(), value };
                    assert(kept_views(r@.push(one)) =~= kept_views(r@).push(one@));
                    r.push(one);
                },
                None => {},
            }
        }
    }
    assert(all.take(lines@.len() as int) == all);
    r
}

/// All that is stored of a file of which these lines are kept, of this size and age.
pub fn import_kept(name: &FileName, kept: &Vec<KeptLine>, size: i64, mtime: i64) -> (r: FileImport)
    ensures
        stored_views(r.records@) == stored_lines(kept_views(kept@)),
        r.session@ == session_of(*name, kept_views(kept@)),
        r.file.path@ == name.path@,
        r.file.session_id@ == name.session_id@,
        r.file.size == size,
        r.file.mtime == mtime,
{
    let ghost all = kept_views(kept@);
    let session_id = name.session_id.as_str();
    let mut p = Progress::start(Ghost(session_id@));
    assert(all.take(0) == Seq::<Kept>::empty());
    for i in 0..kept.len()
        invariant
            all == kept_views(kept@),
            session_id@ == name.session_id@,
            p.knows(all.take(i as int), session_id@),
    {
        let k = &kept[i];
        assert(all.take(i + 1) == all.take(i as int).push(k@));
        p = p.add(k.seq, k.line.as_str(), &k.value, session_id, Ghost(all.take(i as int)));
    }
    assert(all.take(kept@.len() as int) == all);
    let session = SessionRow {
        session_id: name.session_id.clone(),
        project_dir: name.project_dir.clone(),
        project_path: decode_project_dir(name.project_dir.as_str()),
        file_path: name.path.clone(),
        custom_title: p.custom_title,
        ai_title: p.ai_title,
        git_branch: p.git_branch,
        cwd: p.cwd,
        version: p.version,
        first_timestamp: p.first_ts,
        last_timestamp: p.last_ts,
        record_count: p.records.len(),
        message_count: p.message_count,
        parent_session_id: p.parent,
    };
    assert(stored_lines(all).len() == all.len());
    let file = FileRow {
        path: name.path.clone(),
        session_id: name.session_id.clone(),
        size,
        mtime,
    };
    FileImport { records: p.records, session, file }
}

/// All that is stored of a file with these lines, of this size and age.
pub fn import_file(name: &FileName, lines: &Vec<String>, size: i64, mtime: i64) -> (r: FileImport)
    ensures
        stored_views(r.records@) == stored_lines(kept_lines(texts(lines@))),
        r.session@ == session_of(*name, kept_lines(texts(lines@))),
        r.file.path@ == name.path@,
        r.file.session_id@ == name.session_id@,
        r.file.size == size,
        r.file.mtime == mtime,
{
    import_kept(name, &keep_lines(lines), size, mtime)
}

/// What an earlier import may have found out about a session that its transcript no longer says.
pub struct KnownSession {
    pub custom_title: Option<String>,
    pub ai_title: Option<String>,
    pub parent_session_id: Option<String>,
}

/// What is new, or else what was known.
pub open spec fn or_known(new: Option<Seq<char>>, known: Option<Seq<char>>) -> Option<Seq<char>> {
    match new {
        Some(s) => Some(s),
        None => known,
    }
}

/// The row about a session that was known before. Its titles and its parent stay unless there are
/// new ones; the rest is as the transcript has it now.
pub open spec fn merged(known: Option<KnownSession>, new: SessionView) -> SessionView {
    match known {
        Some(k) => SessionView {
            custom_title: or_known(new.custom_title, opt_text(k.custom_title)),
            ai_title: or_known(new.ai_title, opt_text(k.ai_title)),
            parent_session_id: or_known(new.parent_session_id, opt_text(k.parent_session_id)),
            ..new
        },
        None => new,
    }
}

/// What is new, or else what was known.
fn new_or_known(new: Option<String>, known: Option<String>) -> (r: Option<String>)
    ensures
        opt_text(r) == or_known(opt_text(new), opt_text(known)),
{
    match new {
        Some(s) => Some(s),
        None => known,
    }
}

/// The row about a session that was known before.
pub fn merge_session(known: Option<KnownSession>, new: SessionRow) -> (r: SessionRow)
    ensures
        r@ == merged(known, new@),
{
    match known {
        Some(k) => SessionRow {
            session_id: new.session_id,
            project_dir: new.project_dir,
            project_path: new.project_path,
            file_path: new.file_path,
            custom_title: new_or_known(new.custom_title, k.custom_title),
            ai_title: new_or_known(new.ai_title, k.ai_title),
            git_branch: new.git_branch,
            cwd: new.cwd,
            version: new.version,
            first_timestamp: new.first_timestamp,
            last_timestamp: new.last_timestamp,
            record_count: new.record_count,
            message_count: new.message_count,
            parent_session_id: new_or_known(new.parent_session_id, k.parent_session_id),
        },
        None => new,
    }
}

/// The row says of a session what is to be known of it at the next import.
pub open spec fn is_known_as(k: KnownSession, row: SessionView) -> bool {
    &&& opt_text(k.custom_title) == row.custom_title
    &&& opt_text(k.ai_title) == row.ai_title
    &&& opt_text(k.parent_session_id) == row.parent_session_id
}

/// Importing the same transcript again leaves the row about its session as it is.
pub proof fn law_importing_again_changes_nothing(
    known: Option<KnownSession>,
    again: KnownSession,
    new: SessionView,
)
    requires
        is_known_as(again, merged(known, new)),
    ensures
        merged(Some(again), new) == merged(known, new),
{
}

/// A title is never lost to an import that finds none.
pub proof fn law_titles_are_not_lost(known: KnownSession, new: SessionView)
    ensures
        known.custom_title is Some ==> merged(Some(known), new).custom_title is Some,
        known.ai_title is Some ==> merged(Some(known), new).ai_title is Some,
        new.custom_title is Some ==> merged(Some(known), new).custom_title == new.custom_title,
        new.ai_title is Some ==> merged(Some(known), new).ai_title == new.ai_title,
{
}

/// The path that the name of a project's directory stands for.
pub open spec fn project_path_of(dir: Seq<char>) -> Seq<char> {
    replaced(dir, '-', seq!['/'])
}

/// `-Users-indy-projects-foo` -> `/Users/indy/projects/foo`
pub fn decode_project_dir(dir: &str) -> (r: String)
    ensures
        r@ == project_path_of(dir@),
{
    proof {
        reveal_strlit("/");
        assert("/"@ == seq!['/']);
    }
    replace(dir, '-', "/")
}

/// A decoded path is as long as the name of the directory, and holds no dash.
pub proof fn law_project_paths_hold_no_dash(dir: Seq<char>)
    ensures
        project_path_of(dir).len() == dir.len(),
        !project_path_of(dir).contains('-'),
{
    lemma_replaced_one(dir, '-', '/');
    let p = project_path_of(dir);
    assert forall|i: int| 0 <= i < p.len() implies p[i] != '-' by {
        assert(p[i] == replaced(dir, '-', seq!['/'])[i]);
    }
}

/// How many content blocks are stored with a record.
pub open spec fn blocks_in(s: StoredView) -> nat {
    match s.detail {
        DetailView::Message { blocks, .. } => blocks.len(),
        DetailView::Event { queued, .. } => if queued is Some {
            1
        } else {
            0
        },
    }
}

/// How many content blocks are stored with a list of records.
pub open spec fn block_total(records: Seq<StoredView>) -> nat
    decreases records.len(),
{
    if records.len() == 0 {
        0
    } else {
        block_total(records.drop_last()) + blocks_in(records.last())
    }
}

/// The number, where it fits.
pub open spec fn fitting(n: nat) -> Option<usize> {
    if n <= usize::MAX {
        Some(n as usize)
    } else {
        None
    }
}

proof fn lemma_block_total_grows(records: Seq<StoredView>, k: int)
    requires
        0 <= k <= records.len(),
    ensures
        block_total(records.take(k)) <= block_total(records),
    decreases records.len() - k,
{
    if k < records.len() {
        assert(records.take(k + 1).drop_last() == records.take(k));
        lemma_block_total_grows(records, k + 1);
    } else {
        assert(records.take(k) == records);
    }
}

/// How many content blocks are stored with a list of records; nothing where the number does not
/// fit.
pub fn block_count(records: &Vec<Stored>) -> (r: Option<usize>)
    ensures
        r == fitting(block_total(stored_views(records@))),
{
    let ghost all = stored_views(records@);
    let mut total: usize = 0;
    for i in 0..records.len()
        invariant
            all == stored_views(records@),
            total == block_total(all.take(i as int)),
    {
        let n = match &records[i].detail {
            Detail::Message { blocks, .. } => blocks.len(),
            Detail::Event { queued, .. } => match queued {
                Some(_) => 1,
                None => 0,
            },
        };
        proof {
            assert(all.take(i + 1).drop_last() == all.take(i as int));
            assert(all.take(i + 1).last() == records@[i as int]@);
            assert(n == blocks_in(records@[i as int]@));
            lemma_block_total_grows(all, i + 1);
        }
        match total.checked_add(n) {
            Some(t) => {
                total = t;
            },
            None => {
                return None;
            },
        }
    }
    assert(all.take(all.len() as int) == all);
    Some(total)
}

/// Is a file with this extension a transcript?
pub fn is_transcript(extension: Option<&str>) -> (r: bool)
    ensures
        r == (opt_str(extension) == Some("jsonl"@)),
{
    match extension {
        Some(e) => str_eq(e, "jsonl"),
        None => false,
    }
}

/// Does a file have the size and age with which it was imported last?
pub fn file_unchanged(found: Option<(i64, i64)>, size: i64, mtime: i64) -> (r: bool)
    ensures
        r == (found == Some((size, mtime))),
{
    match found {
        Some((s, m)) => s == size && m == mtime,
        None => false,
    }
}

/// A file is read unless it is unchanged and nothing forces it.
pub open spec fn is_due(force: bool, found: Option<(i64, i64)>, size: i64, mtime: i64) -> bool {
    force || found != Some((size, mtime))
}

/// Is the file to be read?
pub fn must_import(force: bool, found: Option<(i64, i64)>, size: i64, mtime: i64) -> (r: bool)
    ensures
        r == is_due(force, found, size, mtime),
{
    force || !file_unchanged(found, size, mtime)
}

/// What a run of the import has done so far.
pub struct ImportStats {
    pub files_scanned: usize,
    pub files_imported: usize,
    pub files_skipped: usize,
    pub records: usize,
    pub blocks: usize,
}

/// What became of a file.
pub enum Outcome {
    /// It was unchanged, and not read.
    Skipped,
    /// It was read, and gave so many records and content blocks.
    Imported { records: usize, blocks: usize },
}

/// The counts of a run, of any size.
pub struct Tally {
    pub files_scanned: nat,
    pub files_imported: nat,
    pub files_skipped: nat,
    pub records: nat,
    pub blocks: nat,
}

impl View for ImportStats {
    type V = Tally;

    open spec fn view(&self) -> Tally {
        Tally {
            files_scanned: self.files_scanned as nat,
            files_imported: self.files_imported as nat,
            files_skipped: self.files_skipped as nat,
            records: self.records as nat,
            blocks: self.blocks as nat,
        }
    }
}

impl Tally {
    /// The counts with one more file.
    pub open spec fn with(self, outcome: Outcome) -> Tally {
        match outcome {
            Outcome::Skipped => Tally {
                files_scanned: self.files_scanned + 1,
                files_skipped: self.files_skipped + 1,
                ..self
            },
            Outcome::Imported { records, blocks } => Tally {
                files_scanned: self.files_scanned + 1,
                files_imported: self.files_imported + 1,
                records: self.records + records as nat,
                blocks: self.blocks + blocks as nat,
                ..self
            },
        }
    }

    /// Every count fits.
    pub open spec fn fits(self) -> bool {
        &&& self.files_scanned <= usize::MAX
        &&& self.files_imported <= usize::MAX
        &&& self.files_skipped <= usize::MAX
        &&& self.records <= usize::MAX
        &&& self.blocks <= usize::MAX
    }
}

/// The counts after a list of files.
pub open spec fn tally_of(outcomes: Seq<Outcome>) -> Tally
    decreases outcomes.len(),
{
    if outcomes.len() == 0 {
        Tally { files_scanned: 0, files_imported: 0, files_skipped: 0, records: 0, blocks: 0 }
    } else {
        tally_of(outcomes.drop_last()).with(outcomes.last())
    }
}

impl ImportStats {
    /// The counts before the first file.
    pub fn new() -> (r: ImportStats)
        ensures
            r@ == tally_of(Seq::empty()),
    {
        ImportStats {
            files_scanned: 0,
            files_imported: 0,
            files_skipped: 0,
            records: 0,
            blocks: 0,
        }
    }

    /// The counts with one more file; nothing where a count does not fit.
    pub fn count(&self, outcome: &Outcome) -> (r: Option<ImportStats>)
        ensures
            match r {
                Some(s) => s@ == self@.with(*outcome),
                None => !self@.with(*outcome).fits(),
            },
    {
        let (imported, skipped, records, blocks): (usize, usize, usize, usize) = match outcome {
            Outcome::Skipped => (0, 1, 0, 0),
            Outcome::Imported { records, blocks } => (1, 0, *records, *blocks),
        };
        match (
            self.files_scanned.checked_add(1),
            self.files_imported.checked_add(imported),
            self.files_skipped.checked_add(skipped),
            self.records.checked_add(records),
            self.blocks.checked_add(blocks),
        ) {
            (
                Some(files_scanned),
                Some(files_imported),
                Some(files_skipped),
                Some(records),
                Some(blocks),
            ) => Some(
                ImportStats { files_scanned, files_imported, files_skipped, records, blocks },
            ),
            _ => None,
        }
    }

    /// What is said at the end of a run.
    pub fn report(&self) -> (r: String)
        ensures
            r@ == report_of(self@),
    {
        let mut r = "Done. ".to_owned();
        r.append(decimal_u64(self.files_scanned as u64).as_str());
        r.append(" file(s) scanned, ");
        r.append(decimal_u64(self.files_imported as u64).as_str());
        r.append(" imported, ");
        r.append(decimal_u64(self.files_skipped as u64).as_str());
        r.append(" unchanged. ");
        r.append(decimal_u64(self.records as u64).as_str());
        r.append(" records, ");
        r.append(decimal_u64(self.blocks as u64).as_str());
        r.append(" content blocks.");
        r
    }
}

/// What is said at the end of a run with these counts.
pub open spec fn report_of(t: Tally) -> Seq<char> {
    "Done. "@ + decimal(t.files_scanned as int) + " file(s) scanned, "@ + decimal(
        t.files_imported as int,
    ) + " imported, "@ + decimal(t.files_skipped as int) + " unchanged. "@ + decimal(
        t.records as int,
    ) + " records, "@ + decimal(t.blocks as int) + " content blocks."@
}

/// What is kept comes from the lines: its number is that of a line, from 1, and its text and value
/// are those of that line, which is not blank.
pub proof fn law_kept_comes_from_lines(lines: Seq<Seq<char>>, k: int)
    requires
        0 <= k < kept_lines(lines).len(),
    ensures
        1 <= kept_lines(lines)[k].seq <= lines.len(),
        kept_lines(lines)[k].line == lines[kept_lines(lines)[k].seq - 1],
        !blank(kept_lines(lines)[k].line),
        json_parse(kept_lines(lines)[k].line) == Some(kept_lines(lines)[k].value),
    decreases lines.len(),
{
    let front = kept_lines(lines.drop_last());
    if k < front.len() {
        law_kept_comes_from_lines(lines.drop_last(), k);
        assert(kept_lines(lines)[k] == front[k]);
    }
}

/// Nothing is lost: every line that is not blank and holds a JSON value is stored, whole, under its
/// number.
pub proof fn law_nothing_is_lost(lines: Seq<Seq<char>>, i: int)
    requires
        0 <= i < lines.len(),
        !blank(lines[i]),
        json_parse(lines[i]) is Some,
    ensures
        exists|k: int|
            0 <= k < stored_lines(kept_lines(lines)).len() && (#[trigger] stored_lines(
                kept_lines(lines),
            )[k]).record.raw_json == lines[i] && stored_lines(kept_lines(lines))[k].record.seq == i
                + 1,
    decreases lines.len(),
{
    let stored = stored_lines(kept_lines(lines));
    let front = kept_lines(lines.drop_last());
    if i < lines.len() - 1 {
        law_nothing_is_lost(lines.drop_last(), i);
        let before = stored_lines(front);
        let k = choose|k: int|
            0 <= k < before.len() && (#[trigger] before[k]).record.raw_json == lines[i]
                && before[k].record.seq == i + 1;
        assert(stored[k] == before[k]);
    } else {
        let k = front.len() as int;
        assert(stored[k].record.raw_json == lines[i]);
    }
}

/// Nothing is made up: every record that is stored is the whole text of the line with its number.
pub proof fn law_nothing_is_made_up(lines: Seq<Seq<char>>, k: int)
    requires
        0 <= k < stored_lines(kept_lines(lines)).len(),
    ensures
        1 <= stored_lines(kept_lines(lines))[k].record.seq <= lines.len(),
        stored_lines(kept_lines(lines))[k].record.raw_json == lines[stored_lines(
            kept_lines(lines),
        )[k].record.seq - 1],
{
    law_kept_comes_from_lines(lines, k);
}

/// Records are stored in the order of their lines, and no line twice.
pub proof fn law_records_are_in_order(lines: Seq<Seq<char>>, i: int, j: int)
    requires
        0 <= i < j < stored_lines(kept_lines(lines)).len(),
    ensures
        stored_lines(kept_lines(lines))[i].record.seq < stored_lines(
            kept_lines(lines),
        )[j].record.seq,
    decreases lines.len(),
{
    let front = kept_lines(lines.drop_last());
    if j < front.len() {
        law_records_are_in_order(lines.drop_last(), i, j);
        assert(kept_lines(lines)[i] == front[i]);
        assert(kept_lines(lines)[j] == front[j]);
    } else {
        law_kept_comes_from_lines(lines.drop_last(), i);
    }
}

/// A blank line changes nothing of what is kept, nor does one that holds no JSON value.
pub proof fn law_malformed_lines_are_left_out(lines: Seq<Seq<char>>, bad: Seq<char>)
    requires
        blank(bad) || json_parse(bad) is None,
    ensures
        kept_lines(lines.push(bad)) == kept_lines(lines),
{
    assert(lines.push(bad).drop_last() == lines);
}

/// When a transcript grows, what is stored of its earlier lines stays as it was.
pub proof fn law_growth_keeps_records(lines: Seq<Seq<char>>, more: Seq<Seq<char>>)
    ensures
        stored_lines(kept_lines(lines)).is_prefix_of(stored_lines(kept_lines(lines + more))),
    decreases more.len(),
{
    if more.len() == 0 {
        assert(lines + more == lines);
    } else {
        law_growth_keeps_records(lines, more.drop_last());
        assert((lines + more).drop_last() == lines + more.drop_last());
    }
}

/// The record is stored as a message.
pub open spec fn stored_message(s: StoredView) -> bool {
    s.detail is Message
}

/// How many of a list of records are stored as messages.
pub open spec fn stored_messages(records: Seq<StoredView>) -> nat
    decreases records.len(),
{
    if records.len() == 0 {
        0
    } else {
        stored_messages(records.drop_last()) + if stored_message(records.last()) {
            1nat
        } else {
            0nat
        }
    }
}

/// The counts of a session are those of what is stored of it.
pub proof fn law_session_counts_what_is_stored(name: FileName, lines: Seq<Seq<char>>)
    ensures
        session_of(name, kept_lines(lines)).record_count == stored_lines(kept_lines(lines)).len(),
        session_of(name, kept_lines(lines)).message_count == stored_messages(
            stored_lines(kept_lines(lines)),
        ),
{
    lemma_stored_messages(kept_lines(lines));
}

proof fn lemma_stored_messages(kept: Seq<Kept>)
    ensures
        message_count(kept) == stored_messages(stored_lines(kept)),
    decreases kept.len(),
{
    if kept.len() > 0 {
        lemma_stored_messages(kept.drop_last());
        assert(stored_lines(kept).drop_last() == stored_lines(kept.drop_last()));
    }
}

/// A session has a first time exactly when it has a last one.
pub proof fn law_times_come_together(name: FileName, kept: Seq<Kept>)
    ensures
        session_of(name, kept).first_timestamp is Some <==> session_of(
            name,
            kept,
        ).last_timestamp is Some,
    decreases kept.len(),
{
    if kept.len() > 0 {
        law_times_come_together(name, kept.drop_last());
    }
}

/// The first time stays when a transcript grows, and the last time becomes the newest.
pub proof fn law_times_follow_growth(name: FileName, kept: Seq<Kept>, one: Kept)
    ensures
        session_of(name, kept).first_timestamp is Some ==> session_of(
            name,
            kept.push(one),
        ).first_timestamp == session_of(name, kept).first_timestamp,
        one.value.str_at("timestamp"@) is Some ==> session_of(name, kept.push(one)).last_timestamp
            == one.value.str_at("timestamp"@),
{
    assert(kept.push(one).drop_last() == kept);
}

/// The title that was set last is the title of the session.
pub proof fn law_last_title_wins(name: FileName, kept: Seq<Kept>, one: Kept)
    ensures
        kind_of(one.value) == "custom-title"@ ==> session_of(name, kept.push(one)).custom_title
            == one.value.str_at("customTitle"@),
        kind_of(one.value) == "ai-title"@ ==> session_of(name, kept.push(one)).ai_title
            == one.value.str_at("aiTitle"@),
        kind_of(one.value) != "custom-title"@ ==> session_of(name, kept.push(one)).custom_title
            == session_of(name, kept).custom_title,
        kind_of(one.value) != "ai-title"@ ==> session_of(name, kept.push(one)).ai_title
            == session_of(name, kept).ai_title,
{
    assert(kept.push(one).drop_last() == kept);
}

/// A session is never its own parent.
pub proof fn law_no_session_is_its_own_parent(name: FileName, kept: Seq<Kept>)
    ensures
        session_of(name, kept).parent_session_id != Some(name.session_id@),
    decreases kept.len(),
{
    if kept.len() > 0 {
        law_no_session_is_its_own_parent(name, kept.drop_last());
    }
}

/// A session of the main thread has no parent, whatever ids its records carry.
pub proof fn law_main_sessions_have_no_parent(name: FileName, kept: Seq<Kept>)
    requires
        forall|i: int| 0 <= i < kept.len() ==> !is_sidechain((#[trigger] kept[i]).value),
    ensures
        session_of(name, kept).parent_session_id is None,
    decreases kept.len(),
{
    if kept.len() > 0 {
        let front = kept.drop_last();
        assert forall|i: int| 0 <= i < front.len() implies !is_sidechain(
            (#[trigger] front[i]).value,
        ) by {
            assert(front[i] == kept[i]);
        }
        assert(!is_sidechain(kept[kept.len() - 1].value));
        law_main_sessions_have_no_parent(name, front);
    }
}

/// Every file that was looked at was either imported or skipped.
pub proof fn law_every_file_is_counted_once(outcomes: Seq<Outcome>)
    ensures
        tally_of(outcomes).files_scanned == outcomes.len(),
        tally_of(outcomes).files_scanned == tally_of(outcomes).files_imported + tally_of(
            outcomes,
        ).files_skipped,
    decreases outcomes.len(),
{
    if outcomes.len() > 0 {
        law_every_file_is_counted_once(outcomes.drop_last());
    }
}

/// A file that was imported is left alone by the next run as long as its size and age stay the
/// same, and only so long; a forced run reads it in any case.
pub proof fn law_only_changed_files_are_read_again(file: FileRow, size: i64, mtime: i64)
    ensures
        is_due(false, Some((file.size, file.mtime)), size, mtime) <==> size != file.size || mtime
            != file.mtime,
        is_due(true, Some((file.size, file.mtime)), size, mtime),
        is_due(false, None, size, mtime),
{
}

/// A transcript file as a run of the import comes upon it.
pub struct Seen {
    pub path: Seq<char>,
    pub size: i64,
    pub mtime: i64,
}

/// The size and age with which a file was imported last, where it was.
pub open spec fn last_import(known: Map<Seq<char>, (i64, i64)>, path: Seq<char>) -> Option<
    (i64, i64),
> {
    if known.contains_key(path) {
        Some(known[path])
    } else {
        None
    }
}

/// The file is read by a run that knows these files.
pub open spec fn is_read(force: bool, known: Map<Seq<char>, (i64, i64)>, file: Seen) -> bool {
    is_due(force, last_import(known, file.path), file.size, file.mtime)
}

/// What is known of files after a run has come upon these.
pub open spec fn known_after(
    force: bool,
    known: Map<Seq<char>, (i64, i64)>,
    files: Seq<Seen>,
) -> Map<Seq<char>, (i64, i64)>
    decreases files.len(),
{
    if files.len() == 0 {
        known
    } else {
        let before = known_after(force, known, files.drop_last());
        let file = files.last();
        if is_read(force, before, file) {
            before.insert(file.path, (file.size, file.mtime))
        } else {
            before
        }
    }
}

/// The run comes upon no file twice.
pub open spec fn distinct_paths(files: Seq<Seen>) -> bool {
    forall|i: int, j: int|
        0 <= i < j < files.len() ==> (#[trigger] files[i]).path != (#[trigger] files[j]).path
}

/// Running the import again reads only what has changed: of the files that a run came upon, the
/// next one reads exactly those whose size or age is another by then.
pub proof fn law_next_run_reads_only_changes(
    force: bool,
    known: Map<Seq<char>, (i64, i64)>,
    files: Seq<Seen>,
    i: int,
    now: Seen,
)
    requires
        distinct_paths(files),
        0 <= i < files.len(),
        now.path == files[i].path,
    ensures
        is_read(false, known_after(force, known, files), now) <==> now.size != files[i].size
            || now.mtime != files[i].mtime,
    decreases files.len(),
{
    let front = files.drop_last();
    let last = files[files.len() - 1];
    if i < files.len() - 1 {
        assert(front[i] == files[i]);
        assert(files[i].path != last.path);
        assert forall|a: int, b: int| 0 <= a < b < front.len() implies (#[trigger] front[a]).path
            != (#[trigger] front[b]).path by {
            assert(front[a] == files[a]);
            assert(front[b] == files[b]);
        }
        law_next_run_reads_only_changes(force, known, front, i, now);
    }
}

/// Every line that is not blank and holds a JSON value is stored with all that is stored of that
/// value, under its number.
pub proof fn law_every_line_is_stored(lines: Seq<Seq<char>>, i: int, v: JsonView)
    requires
        0 <= i < lines.len(),
        !blank(lines[i]),
        json_parse(lines[i]) == Some(v),
    ensures
        stored_lines(kept_lines(lines)).contains(stored_of((i + 1) as nat, lines[i], v)),
    decreases lines.len(),
{
    let stored = stored_lines(kept_lines(lines));
    let front = kept_lines(lines.drop_last());
    let one = stored_of((i + 1) as nat, lines[i], v);
    if i < lines.len() - 1 {
        law_every_line_is_stored(lines.drop_last(), i, v);
        let before = stored_lines(front);
        let k = choose|k: int| 0 <= k < before.len() && before[k] == one;
        assert(stored[k] == before[k]);
    } else {
        assert(stored[front.len() as int] == one);
    }
}

/// A session is known by its file, before any line of it is read.
pub proof fn law_sessions_are_named_by_their_files(name: FileName, kept: Seq<Kept>)
    ensures
        session_of(name, kept).session_id == name.session_id@,
        session_of(name, kept).project_dir == name.project_dir@,
        session_of(name, kept).project_path == project_path_of(name.project_dir@),
        session_of(name, kept).file_path == name.path@,
        session_of(name, Seq::empty()).record_count == 0,
        session_of(name, Seq::empty()).message_count == 0,
        session_of(name, Seq::empty()).custom_title is None,
        session_of(name, Seq::empty()).ai_title is None,
        session_of(name, Seq::empty()).git_branch is None,
        session_of(name, Seq::empty()).cwd is None,
        session_of(name, Seq::empty()).version is None,
        session_of(name, Seq::empty()).first_timestamp is None,
        session_of(name, Seq::empty()).last_timestamp is None,
        session_of(name, Seq::empty()).parent_session_id is None,
{
}

/// What one more line adds to a session: it is counted; its directory, branch, version, time and
/// parent are taken where none was known; and its time is the last.
pub proof fn law_sessions_grow_line_by_line(name: FileName, kept: Seq<Kept>, one: Kept)
    ensures
        ({
            let before = session_of(name, kept);
            let after = session_of(name, kept.push(one));
            let v = one.value;
            &&& after.record_count == before.record_count + 1
            &&& after.message_count == before.message_count + if is_message(kind_of(v)) {
                1int
            } else {
                0
            }
            &&& after.cwd == or_known(before.cwd, v.str_at("cwd"@))
            &&& after.git_branch == or_known(before.git_branch, v.str_at("gitBranch"@))
            &&& after.version == or_known(before.version, v.str_at("version"@))
            &&& after.first_timestamp == or_known(before.first_timestamp, v.str_at("timestamp"@))
            &&& after.last_timestamp == or_known(v.str_at("timestamp"@), before.last_timestamp)
            &&& before.parent_session_id is Some ==> after.parent_session_id
                == before.parent_session_id
            &&& before.parent_session_id is None ==> {
                &&& v.bool_at("isSidechain"@) == Some(true) && v.str_at("sessionId"@) != Some(
                    name.session_id@,
                ) ==> after.parent_session_id == v.str_at("sessionId"@)
                &&& v.bool_at("isSidechain"@) != Some(true) || v.str_at("sessionId"@) == Some(
                    name.session_id@,
                ) ==> after.parent_session_id is None
            }
        }),
{
    assert(kept.push(one).drop_last() =~= kept);
}

/// What is new goes before what was known, and what was known before nothing.
pub proof fn law_new_goes_before_known(s: Seq<char>, known: Option<Seq<char>>)
    ensures
        or_known(Some(s), known) == Some(s),
        or_known(None, known) == known,
{
}

/// A merged row is the new one in all but its titles and its parent, and these are kept only where
/// the new row has none.
pub proof fn law_merging_keeps_the_rest(known: KnownSession, new: SessionView)
    ensures
        ({
            let r = merged(Some(known), new);
            &&& r.session_id == new.session_id
            &&& r.project_dir == new.project_dir
            &&& r.project_path == new.project_path
            &&& r.file_path == new.file_path
            &&& r.git_branch == new.git_branch
            &&& r.cwd == new.cwd
            &&& r.version == new.version
            &&& r.first_timestamp == new.first_timestamp
            &&& r.last_timestamp == new.last_timestamp
            &&& r.record_count == new.record_count
            &&& r.message_count == new.message_count
            &&& new.custom_title is None ==> r.custom_title == opt_text(known.custom_title)
            &&& new.ai_title is None ==> r.ai_title == opt_text(known.ai_title)
            &&& new.parent_session_id is None ==> r.parent_session_id == opt_text(
                known.parent_session_id,
            )
            &&& new.parent_session_id is Some ==> r.parent_session_id == new.parent_session_id
        }),
        merged(None, new) == new,
{
}

/// A decoded path has a slash for each dash of the name, and everything else as it is.
pub proof fn law_dashes_become_slashes(dir: Seq<char>, i: int)
    requires
        0 <= i < dir.len(),
    ensures
        project_path_of(dir).len() == dir.len(),
        project_path_of(dir)[i] == if dir[i] == '-' {
            '/'
        } else {
            dir[i]
        },
{
    lemma_replaced_one(dir, '-', '/');
}

/// Every block of every record is counted, those of messages and those that were queued.
pub proof fn law_every_block_is_counted(records: Seq<StoredView>, one: StoredView)
    ensures
        block_total(records.push(one)) == block_total(records) + match one.detail {
            DetailView::Message { blocks, .. } => blocks.len(),
            DetailView::Event { queued, .. } => if queued is Some {
                1nat
            } else {
                0nat
            },
        },
        block_total(Seq::empty()) == 0,
{
    assert(records.push(one).drop_last() =~= records);
}

/// A run adds up what its files gave: a file that was read adds its records and blocks, and one that
/// was skipped nothing.
pub proof fn law_runs_add_up(outcomes: Seq<Outcome>, records: usize, blocks: usize)
    ensures
        ({
            let before = tally_of(outcomes);
            let read = tally_of(outcomes.push(Outcome::Imported { records, blocks }));
            let skipped = tally_of(outcomes.push(Outcome::Skipped));
            &&& read.records == before.records + records
            &&& read.blocks == before.blocks + blocks
            &&& read.files_imported == before.files_imported + 1
            &&& read.files_skipped == before.files_skipped
            &&& skipped.records == before.records
            &&& skipped.blocks == before.blocks
            &&& skipped.files_imported == before.files_imported
            &&& skipped.files_skipped == before.files_skipped + 1
        }),
        tally_of(Seq::empty()).records == 0 && tally_of(Seq::empty()).blocks == 0,
{
    assert(outcomes.push(Outcome::Imported { records, blocks }).drop_last() =~= outcomes);
    assert(outcomes.push(Outcome::Skipped).drop_last() =~= outcomes);
}

/// The report of a run gives its counts, in order.
pub proof fn law_reports_give_the_counts(t: Tally)
    ensures
        made_of(
            report_of(t),
            seq![
                decimal(t.files_scanned as int),
                decimal(t.files_imported as int),
                decimal(t.files_skipped as int),
                decimal(t.records as int),
                decimal(t.blocks as int),
            ],
            73,
        ),
{
    let a = decimal(t.files_scanned as int);
    let b = decimal(t.files_imported as int);
    let c = decimal(t.files_skipped as int);
    let d = decimal(t.records as int);
    let e = decimal(t.blocks as int);
    reveal_strlit("Done. ");
    let w0 = "Done. "@;
    lemma_made_own(w0);
    lemma_made_next(w0, Seq::<Seq<char>>::empty(), 6, a);
    let w1 = w0 + a;
    let wp1 = Seq::<Seq<char>>::empty().push(a);
    reveal_strlit(" file(s) scanned, ");
    lemma_made_more(w1, wp1, 6, " file(s) scanned, "@);
    let w2 = w1 + " file(s) scanned, "@;
    lemma_made_next(w2, wp1, 24, b);
    let w3 = w2 + b;
    let wp3 = wp1.push(b);
    reveal_strlit(" imported, ");
    lemma_made_more(w3, wp3, 24, " imported, "@);
    let w4 = w3 + " imported, "@;
    lemma_made_next(w4, wp3, 35, c);
    let w5 = w4 + c;
    let wp5 = wp3.push(c);
    reveal_strlit(" unchanged. ");
    lemma_made_more(w5, wp5, 35, " unchanged. "@);
    let w6 = w5 + " unchanged. "@;
    lemma_made_next(w6, wp5, 47, d);
    let w7 = w6 + d;
    let wp7 = wp5.push(d);
    reveal_strlit(" records, ");
    lemma_made_more(w7, wp7, 47, " records, "@);
    let w8 = w7 + " records, "@;
    lemma_made_next(w8, wp7, 57, e);
    let w9 = w8 + e;
    let wp9 = wp7.push(e);
    reveal_strlit(" content blocks.");
    lemma_made_more(w9, wp9, 57, " content blocks."@);
    let w10 = w9 + " content blocks."@;
    assert(wp9 =~= seq![a, b, c, d, e]);
}

/// A number that fits is given as it is, and counts fit as long as each of them does.
pub proof fn law_numbers_that_fit_are_given(n: nat, t: Tally)
    ensures
        n <= usize::MAX ==> fitting(n) == Some(n as usize),
        n > usize::MAX ==> fitting(n) is None,
        t.files_scanned <= usize::MAX && t.files_imported <= usize::MAX && t.files_skipped
            <= usize::MAX && t.records <= usize::MAX && t.blocks <= usize::MAX ==> t.fits(),
{
}

} // verus!
