//! What is asked of the database, and how the answers are shown on a terminal.

use vstd::prelude::*;
use vstd::utf8::{decode_utf8, encode_utf8, is_ascii_chars, is_char_boundary};

use crate::block::{Block, BlockView};
use crate::format::{
    decimal, decimal_i64, decimal_u64, indent, indented, is_line, left_in, lemma_lines_append,
    lines_of, minute, pad_left, pad_right, right_in, short_time, shortened, truncate,
};
use crate::fts::{build_match, match_expr};
use crate::import::{kept_lines, law_kept_comes_from_lines, stored_lines, Kept};
use crate::json::{json_parse, JsonView};
use crate::record::{is_message, is_message_type, stored_of, DetailView};
use crate::text::{
    blank, chars_of, lemma_made_more, lemma_made_next, lemma_made_own, made_of, occurs, opt_str,
    opt_text, or_empty, str_eq,
};

verus! {

/// The texts one behind the other.
pub open spec fn glued(parts: Seq<Seq<char>>) -> Seq<char>
    decreases parts.len(),
{
    if parts.len() == 0 {
        Seq::empty()
    } else {
        glued(parts.drop_last()) + parts.last()
    }
}

/// The string inside, or an empty one.
fn string_or_empty(o: &Option<String>) -> (r: String)
    ensures
        r@ == or_empty(opt_text(*o)),
{
    match o {
        Some(s) => s.clone(),
        None => String::new(),
    }
}

/// How many bytes of an id are shown.
pub open spec fn short_len(id: Seq<char>) -> int {
    let n = encode_utf8(id).len() as int;
    if n < 8 {
        n
    } else {
        8
    }
}

/// The id can be cut off where it is for showing: not inside a character.
pub open spec fn can_shorten(id: Seq<char>) -> bool {
    is_char_boundary(encode_utf8(id), short_len(id))
}

/// The first bytes of an id.
pub open spec fn short_of(id: Seq<char>) -> Seq<char> {
    decode_utf8(encode_utf8(id).take(short_len(id)))
}

/// The first bytes of an id.
pub fn short_id(id: &str) -> (r: String)
    requires
        can_shorten(id@),
    ensures
        r@ == short_of(id@),
{
    let bytes = id.as_bytes().len();
    let n = if bytes < 8 {
        bytes
    } else {
        8
    };
    let (front, _) = id.split_at(n);
    proof {
        vstd::utf8::encode_utf8_decode_utf8(front@);
        assert(encode_utf8(front@) == encode_utf8(id@).take(n as int));
    }
    front.to_owned()
}

/// The title of a session: the one given to it, or else the one made up for it.
pub open spec fn title_of(custom: Option<Seq<char>>, ai: Option<Seq<char>>) -> Seq<char> {
    match custom {
        Some(c) => if c.len() > 0 {
            c
        } else {
            match ai {
                Some(a) => a,
                None => "(untitled)"@,
            }
        },
        None => match ai {
            Some(a) => a,
            None => "(untitled)"@,
        },
    }
}

/// The title of a session: the one given to it, or else the one made up for it.
pub fn title(custom: &Option<String>, ai: &Option<String>) -> (r: String)
    ensures
        r@ == title_of(opt_text(*custom), opt_text(*ai)),
{
    match custom {
        Some(c) => {
            if !c.as_str().is_empty() {
                return c.clone();
            }
        },
        None => {},
    }
    match ai {
        Some(a) => a.clone(),
        None => "(untitled)".to_owned(),
    }
}

/// The branch behind a session's project, where it has one.
pub open spec fn branch_tag(branch: Option<Seq<char>>) -> Seq<char> {
    match branch {
        Some(b) => if b.len() > 0 {
            "  @"@ + b
        } else {
            Seq::empty()
        },
        None => Seq::empty(),
    }
}

fn branch_text(branch: &Option<String>) -> (r: String)
    ensures
        r@ == branch_tag(opt_text(*branch)),
{
    match branch {
        Some(b) => if b.as_str().is_empty() {
            String::new()
        } else {
            let mut r = "  @".to_owned();
            r.append(b.as_str());
            r
        },
        None => String::new(),
    }
}

/// The minute of an optional time.
pub open spec fn when_of(ts: Option<Seq<char>>) -> Seq<char> {
    match ts {
        Some(t) => minute(t),
        None => Seq::empty(),
    }
}

fn when_text(ts: &Option<String>) -> (r: String)
    ensures
        r@ == when_of(opt_text(*ts)),
{
    match ts {
        Some(t) => short_time(t.as_str()),
        None => String::new(),
    }
}

/// The character means something else than itself in a pattern of LIKE.
pub open spec fn is_special(c: char) -> bool {
    c == '%' || c == '_' || c == '\\'
}

/// The text with a backslash before each character that would mean something else in a pattern.
pub open spec fn like_escaped(s: Seq<char>) -> Seq<char>
    decreases s.len(),
{
    if s.len() == 0 {
        Seq::empty()
    } else {
        (if is_special(s[0]) {
            seq!['\\', s[0]]
        } else {
            seq![s[0]]
        }) + like_escaped(s.drop_first())
    }
}

/// The one text that a pattern stands for, where a backslash takes the character behind it as it
/// is; nothing where the pattern has a wildcard in it.
pub open spec fn literal_of(pattern: Seq<char>) -> Option<Seq<char>>
    decreases pattern.len(),
{
    if pattern.len() == 0 {
        Some(Seq::empty())
    } else if pattern[0] == '\\' {
        if pattern.len() < 2 {
            None
        } else {
            match literal_of(pattern.skip(2)) {
                Some(rest) => Some(seq![pattern[1]] + rest),
                None => None,
            }
        }
    } else if is_special(pattern[0]) {
        None
    } else {
        match literal_of(pattern.drop_first()) {
            Some(rest) => Some(seq![pattern[0]] + rest),
            None => None,
        }
    }
}

/// In a pattern a text that was escaped stands for itself, whatever characters are in it.
pub proof fn law_escaped_patterns_are_literal(s: Seq<char>)
    ensures
        literal_of(like_escaped(s)) == Some(s),
    decreases s.len(),
{
    if s.len() > 0 {
        let rest = s.drop_first();
        law_escaped_patterns_are_literal(rest);
        let e = like_escaped(s);
        if is_special(s[0]) {
            assert(e.skip(2) =~= like_escaped(rest));
        } else {
            assert(e.drop_first() =~= like_escaped(rest));
        }
        assert(seq![s[0]] + rest =~= s);
    } else {
        assert(literal_of(like_escaped(s))->0 =~= s);
    }
}

fn escape_like(s: &str) -> (r: String)
    ensures
        r@ == like_escaped(s@),
{
    let chars = chars_of(s);
    let mut r = String::new();
    assert(chars@.skip(0) == chars@);
    assert(r@ + like_escaped(chars@) == like_escaped(chars@));
    for i in 0..chars.len()
        invariant
            chars@ == s@,
            r@ + like_escaped(chars@.skip(i as int)) == like_escaped(s@),
    {
        let c = chars[i];
        let ghost rest = chars@.skip(i as int);
        let ghost before = r@;
        assert(rest.drop_first() == chars@.skip(i + 1));
        if c == '%' || c == '_' || c == '\\' {
            r.push('\\');
        }
        r.push(c);
        assert(r@ + like_escaped(chars@.skip(i + 1)) == before + like_escaped(rest));
    }
    assert(r@ + like_escaped(chars@.skip(chars@.len() as int)) == r@);
    r
}

/// Where a question is asked.
///
/// On a terminal a filter is a plain text. On the page it is the inside of a pattern of LIKE: `%`
/// in it stands for any characters, and `_` for any one.
pub enum Surface {
    Terminal,
    Page,
}

/// The inside of the pattern for a filter.
pub open spec fn filter_of(at: Surface, p: Seq<char>) -> Seq<char> {
    match at {
        Surface::Terminal => like_escaped(p),
        Surface::Page => p,
    }
}

fn filter_text(at: &Surface, p: &str) -> (r: String)
    ensures
        r@ == filter_of(*at, p@),
{
    match at {
        Surface::Terminal => escape_like(p),
        Surface::Page => p.to_owned(),
    }
}

/// The pattern for what holds a text anywhere; empty where there is none.
pub open spec fn anywhere(at: Surface, p: Option<Seq<char>>) -> Seq<char> {
    match p {
        Some(p) => "%"@ + filter_of(at, p) + "%"@,
        None => Seq::empty(),
    }
}

/// The pattern for what holds a text anywhere; empty where there is none.
pub fn anywhere_pattern(at: &Surface, p: Option<&str>) -> (r: String)
    ensures
        r@ == anywhere(*at, opt_str(p)),
{
    match p {
        Some(p) => {
            let mut r = "%".to_owned();
            r.append(filter_text(at, p).as_str());
            r.append("%");
            r
        },
        None => String::new(),
    }
}

/// The pattern for what starts with a text; empty where there is none.
pub open spec fn at_start(at: Surface, p: Option<Seq<char>>) -> Seq<char> {
    match p {
        Some(p) => filter_of(at, p) + "%"@,
        None => Seq::empty(),
    }
}

/// The pattern for what starts with a text; empty where there is none.
pub fn start_pattern(at: &Surface, p: Option<&str>) -> (r: String)
    ensures
        r@ == at_start(*at, opt_str(p)),
{
    match p {
        Some(p) => {
            let mut r = filter_text(at, p);
            r.append("%");
            r
        },
        None => String::new(),
    }
}

/// The query for the list of sessions, newest first, of one project or of all.
pub open spec fn sessions_query(by_project: bool) -> Seq<char> {
    "SELECT session_id, COALESCE(cwd, project_path), custom_title, ai_title, git_branch, last_timestamp, message_count FROM sessions"@
        + (if by_project {
        " WHERE (cwd LIKE ?1 ESCAPE '\\' OR project_path LIKE ?1 ESCAPE '\\' OR project_dir LIKE ?1 ESCAPE '\\')"@
    } else {
        Seq::empty()
    }) + " ORDER BY last_timestamp DESC LIMIT ?2"@
}

/// The query for the list of sessions, newest first, of one project or of all.
pub fn sessions_sql(by_project: bool) -> (r: String)
    ensures
        r@ == sessions_query(by_project),
{
    let mut sql = "SELECT session_id, COALESCE(cwd, project_path), custom_title, ai_title, git_branch, last_timestamp, message_count FROM sessions".to_owned();
    if by_project {
        sql.append(" WHERE (cwd LIKE ?1 ESCAPE '\\' OR project_path LIKE ?1 ESCAPE '\\' OR project_dir LIKE ?1 ESCAPE '\\')");
    }
    sql.append(" ORDER BY last_timestamp DESC LIMIT ?2");
    assert(sql@ == sessions_query(by_project));
    sql
}

/// A session in the list.
pub struct SessionLine {
    pub session_id: String,
    pub project: Option<String>,
    pub custom_title: Option<String>,
    pub ai_title: Option<String>,
    pub branch: Option<String>,
    pub last: Option<String>,
    pub messages: i64,
}

/// The two lines about a session in the list.
pub open spec fn session_text(s: SessionLine) -> Seq<char> {
    when_of(opt_text(s.last)) + "  "@ + right_in(decimal(s.messages as int), 4) + " msgs  "@
        + shortened(title_of(opt_text(s.custom_title), opt_text(s.ai_title)), 70) + "\n    "@
        + short_of(s.session_id@) + "  ["@ + or_empty(opt_text(s.project)) + "]"@ + branch_tag(
        opt_text(s.branch),
    ) + "\n"@
}

/// The two lines about a session in the list.
pub fn session_lines(s: &SessionLine) -> (r: String)
    requires
        can_shorten(s.session_id@),
    ensures
        r@ == session_text(*s),
{
    let mut r = when_text(&s.last);
    r.append("  ");
    r.append(pad_left(decimal_i64(s.messages).as_str(), 4).as_str());
    r.append(" msgs  ");
    r.append(truncate(title(&s.custom_title, &s.ai_title).as_str(), 70).as_str());
    r.append("\n    ");
    r.append(short_id(s.session_id.as_str()).as_str());
    r.append("  [");
    r.append(string_or_empty(&s.project).as_str());
    r.append("]");
    r.append(branch_text(&s.branch).as_str());
    r.append("\n");
    r
}

/// The list of sessions, and how many there are.
pub open spec fn sessions_text(rows: Seq<SessionLine>) -> Seq<char> {
    if rows.len() == 0 {
        "No sessions found. Run `cch import` first.\n"@
    } else {
        glued(rows.map_values(|s: SessionLine| session_text(s))) + "\n"@ + decimal(
            rows.len() as int,
        ) + " session(s).\n"@
    }
}

/// The list of sessions, and how many there are.
pub fn sessions(rows: &Vec<SessionLine>) -> (r: String)
    requires
        forall|i: int| 0 <= i < rows@.len() ==> can_shorten((#[trigger] rows@[i]).session_id@),
    ensures
        r@ == sessions_text(rows@),
{
    if rows.len() == 0 {
        return "No sessions found. Run `cch import` first.\n".to_owned();
    }
    let ghost all = rows@.map_values(|s: SessionLine| session_text(s));
    let mut r = String::new();
    for i in 0..rows.len()
        invariant
            all == rows@.map_values(|s: SessionLine| session_text(s)),
            forall|i: int| 0 <= i < rows@.len() ==> can_shorten((#[trigger] rows@[i]).session_id@),
            r@ == glued(all.take(i as int)),
    {
        r.append(session_lines(&rows[i]).as_str());
        assert(all.take(i + 1).drop_last() == all.take(i as int));
    }
    assert(all.take(all.len() as int) == all);
    r.append("\n");
    r.append(decimal_u64(rows.len() as u64).as_str());
    r.append(" session(s).\n");
    r
}

/// The mark before what was found.
pub open spec fn open_of(at: Surface) -> Seq<char> {
    match at {
        Surface::Terminal => "«"@,
        Surface::Page => "‹"@,
    }
}

/// The mark behind what was found.
pub open spec fn close_of(at: Surface) -> Seq<char> {
    match at {
        Surface::Terminal => "»"@,
        Surface::Page => "›"@,
    }
}

/// The condition on the session of what is found.
pub open spec fn session_filter(at: Surface) -> Seq<char> {
    match at {
        Surface::Terminal => " AND s.session_id LIKE ?4 ESCAPE '\\'"@,
        Surface::Page => " AND s.session_id LIKE ?4"@,
    }
}

/// The query for a search, with the marks around what was found.
pub open spec fn search_query(
    at: Surface,
    by_type: bool,
    by_role: bool,
    by_session: bool,
) -> Seq<char> {
    "SELECT s.block_id, s.session_id, s.block_type, s.role, snippet(search_index, 0, '"@ + open_of(
        at,
    ) + "', '"@ + close_of(at)
        + "', '…', 48) AS snip, cb.timestamp FROM search_index s JOIN content_blocks cb ON cb.id = s.block_id WHERE search_index MATCH ?1"@
        + (if by_type {
        " AND s.block_type = ?2"@
    } else {
        Seq::empty()
    }) + (if by_role {
        " AND s.role = ?3"@
    } else {
        Seq::empty()
    }) + (if by_session {
        session_filter(at)
    } else {
        Seq::empty()
    }) + " ORDER BY rank LIMIT ?5"@
}

fn search_sql(at: &Surface, by_type: bool, by_role: bool, by_session: bool) -> (r: String)
    ensures
        r@ == search_query(*at, by_type, by_role, by_session),
{
    let (open, close, in_session) = match at {
        Surface::Terminal => ("«", "»", " AND s.session_id LIKE ?4 ESCAPE '\\'"),
        Surface::Page => ("‹", "›", " AND s.session_id LIKE ?4"),
    };
    let mut sql = "SELECT s.block_id, s.session_id, s.block_type, s.role, snippet(search_index, 0, '".to_owned();
    sql.append(open);
    sql.append("', '");
    sql.append(close);
    sql.append(
        "', '…', 48) AS snip, cb.timestamp FROM search_index s JOIN content_blocks cb ON cb.id = s.block_id WHERE search_index MATCH ?1",
    );
    let ghost a = sql@;
    if by_type {
        sql.append(" AND s.block_type = ?2");
    }
    assert(sql@ == a + if by_type {
        " AND s.block_type = ?2"@
    } else {
        Seq::empty()
    });
    let ghost b = sql@;
    if by_role {
        sql.append(" AND s.role = ?3");
    }
    assert(sql@ == b + if by_role {
        " AND s.role = ?3"@
    } else {
        Seq::empty()
    });
    let ghost c = sql@;
    if by_session {
        sql.append(in_session);
    }
    assert(sql@ == c + if by_session {
        session_filter(*at)
    } else {
        Seq::empty()
    });
    sql.append(" ORDER BY rank LIMIT ?5");
    sql
}

/// A search to put to the database: the query, and what is bound to its parameters.
pub struct SearchPlan {
    pub sql: String,
    pub match_expr: String,
    pub block_type: String,
    pub role: String,
    pub session: String,
}

/// The search for what a user typed, among the blocks that the filters let through. Nothing where
/// there is nothing to search for.
pub fn plan_search(
    query: &str,
    block_type: Option<&str>,
    role: Option<&str>,
    session: Option<&str>,
    at: &Surface,
) -> (r: Option<SearchPlan>)
    ensures
        match r {
            Some(p) => {
                &&& p.match_expr@ == match_expr(query@)
                &&& p.match_expr@.len() > 0
                &&& p.sql@ == search_query(
                    *at,
                    block_type is Some,
                    role is Some,
                    session is Some,
                )
                &&& p.block_type@ == or_empty(opt_str(block_type))
                &&& p.role@ == or_empty(opt_str(role))
                &&& p.session@ == at_start(*at, opt_str(session))
            },
            None => match_expr(query@).len() == 0,
        },
{
    let match_expr = build_match(query);
    if match_expr.as_str().is_empty() {
        return None;
    }
    let sql = search_sql(at, block_type.is_some(), role.is_some(), session.is_some());
    Some(
        SearchPlan {
            sql,
            match_expr,
            block_type: match block_type {
                Some(t) => t.to_owned(),
                None => String::new(),
            },
            role: match role {
                Some(t) => t.to_owned(),
                None => String::new(),
            },
            session: start_pattern(at, session),
        },
    )
}

/// A block that was found.
pub struct SearchLine {
    pub block_id: i64,
    pub session_id: String,
    pub block_type: String,
    pub role: Option<String>,
    pub snippet: String,
    pub timestamp: Option<String>,
}

/// The two lines about a block that was found.
pub open spec fn found_text(f: SearchLine) -> Seq<char> {
    when_of(opt_text(f.timestamp)) + "  "@ + left_in("["@ + f.block_type@ + "]"@, 11) + " "@
        + left_in(or_empty(opt_text(f.role)), 6) + " "@ + short_of(f.session_id@) + "\n    "@
        + shortened(f.snippet@, 500) + "\n"@
}

/// The two lines about a block that was found.
pub fn found_lines(f: &SearchLine) -> (r: String)
    requires
        can_shorten(f.session_id@),
    ensures
        r@ == found_text(*f),
{
    let mut kind = "[".to_owned();
    kind.append(f.block_type.as_str());
    kind.append("]");
    let mut r = when_text(&f.timestamp);
    r.append("  ");
    r.append(pad_right(kind.as_str(), 11).as_str());
    r.append(" ");
    r.append(pad_right(string_or_empty(&f.role).as_str(), 6).as_str());
    r.append(" ");
    r.append(short_id(f.session_id.as_str()).as_str());
    r.append("\n    ");
    r.append(truncate(f.snippet.as_str(), 500).as_str());
    r.append("\n");
    r
}

/// What a search found, and how much it is.
pub open spec fn search_text(query: Seq<char>, rows: Seq<SearchLine>) -> Seq<char> {
    if rows.len() == 0 {
        "No matches for: "@ + query + "\n"@
    } else {
        glued(rows.map_values(|f: SearchLine| found_text(f))) + "\n"@ + decimal(rows.len() as int)
            + " match(es).\n"@
    }
}

/// What a search found, and how much it is.
pub fn search(query: &str, rows: &Vec<SearchLine>) -> (r: String)
    requires
        forall|i: int| 0 <= i < rows@.len() ==> can_shorten((#[trigger] rows@[i]).session_id@),
    ensures
        r@ == search_text(query@, rows@),
{
    if rows.len() == 0 {
        let mut r = "No matches for: ".to_owned();
        r.append(query);
        r.append("\n");
        return r;
    }
    let ghost all = rows@.map_values(|f: SearchLine| found_text(f));
    let mut r = String::new();
    for i in 0..rows.len()
        invariant
            all == rows@.map_values(|f: SearchLine| found_text(f)),
            forall|i: int| 0 <= i < rows@.len() ==> can_shorten((#[trigger] rows@[i]).session_id@),
            r@ == glued(all.take(i as int)),
    {
        r.append(found_lines(&rows[i]).as_str());
        assert(all.take(i + 1).drop_last() == all.take(i as int));
    }
    assert(all.take(all.len() as int) == all);
    r.append("\n");
    r.append(decimal_u64(rows.len() as u64).as_str());
    r.append(" match(es).\n");
    r
}

/// What is shown where no session has the id.
pub fn no_session(session: &str) -> (r: String)
    ensures
        r@ == "No session matching '"@ + session@ + "'.\n"@,
{
    let mut r = "No session matching '".to_owned();
    r.append(session);
    r.append("'.\n");
    r
}

/// What stands above a transcript.
pub struct Heading {
    pub session_id: String,
    pub title: String,
    pub project: Option<String>,
    pub branch: Option<String>,
}

/// What stands above a transcript.
pub open spec fn heading_text(h: Heading) -> Seq<char> {
    "═══ "@ + h.title@ + " ═══\nsession "@ + h.session_id@ + "  ["@ + or_empty(opt_text(h.project))
        + "]"@ + branch_tag(opt_text(h.branch)) + "\n\n"@
}

fn heading_lines(h: &Heading) -> (r: String)
    ensures
        r@ == heading_text(*h),
{
    let mut r = "═══ ".to_owned();
    r.append(h.title.as_str());
    r.append(" ═══\nsession ");
    r.append(h.session_id.as_str());
    r.append("  [");
    r.append(string_or_empty(&h.project).as_str());
    r.append("]");
    r.append(branch_text(&h.branch).as_str());
    r.append("\n\n");
    r
}

/// What a record is shown as.
pub enum Shape {
    /// A message with its blocks.
    Message,
    /// A message that was queued, or else an event.
    Queue,
    /// An event.
    Event,
}

/// What a record of a type is shown as.
pub open spec fn shape_of(rtype: Seq<char>) -> Shape {
    if is_message(rtype) {
        Shape::Message
    } else if rtype == "queue-operation"@ {
        Shape::Queue
    } else {
        Shape::Event
    }
}

/// What a record of a type is shown as.
pub fn shape(rtype: &str) -> (r: Shape)
    ensures
        r == shape_of(rtype@),
{
    if is_message_type(rtype) {
        Shape::Message
    } else if str_eq(rtype, "queue-operation") {
        Shape::Queue
    } else {
        Shape::Event
    }
}

/// A queued message: the operation and the text.
pub struct Queued {
    pub operation: Option<String>,
    pub text: Option<String>,
}

/// A record with what is stored beside it: of a message its model and blocks, of a queue operation
/// the messages that were queued, and of an event its summary.
pub struct Shown {
    pub record_type: String,
    pub timestamp: Option<String>,
    pub raw_json: String,
    pub model: Option<String>,
    pub blocks: Vec<Block>,
    pub queued: Vec<Queued>,
    pub summary: Option<String>,
}

/// Who speaks, as it is marked in a transcript.
pub open spec fn marker_of(rtype: Seq<char>) -> Seq<char> {
    if rtype == "user"@ {
        "▶ USER"@
    } else if rtype == "assistant"@ {
        "◆ ASSISTANT"@
    } else {
        rtype
    }
}

fn marker(rtype: &str) -> (r: String)
    ensures
        r@ == marker_of(rtype@),
{
    if str_eq(rtype, "user") {
        "▶ USER".to_owned()
    } else if str_eq(rtype, "assistant") {
        "◆ ASSISTANT".to_owned()
    } else {
        rtype.to_owned()
    }
}

/// A text on lines of its own, where there is one.
pub open spec fn paragraph(o: Option<Seq<char>>) -> Seq<char> {
    match o {
        Some(t) => indented(t) + "\n"@,
        None => Seq::empty(),
    }
}

/// A text on a line of its own, cut off where it is longer, where there is one.
pub open spec fn cut_paragraph(o: Option<Seq<char>>, max: nat) -> Seq<char> {
    match o {
        Some(t) => indented(shortened(t, max)) + "\n"@,
        None => Seq::empty(),
    }
}

fn paragraph_text(o: &Option<String>) -> (r: String)
    ensures
        r@ == paragraph(opt_text(*o)),
{
    match o {
        Some(t) => {
            let mut r = indent(t.as_str());
            r.append("\n");
            r
        },
        None => String::new(),
    }
}

fn cut_paragraph_text(o: &Option<String>, max: usize) -> (r: String)
    ensures
        r@ == cut_paragraph(opt_text(*o), max as nat),
{
    match o {
        Some(t) => {
            let mut r = indent(truncate(t.as_str(), max).as_str());
            r.append("\n");
            r
        },
        None => String::new(),
    }
}

/// A block in a transcript, marked as what it is.
pub open spec fn block_text(b: BlockView) -> Seq<char> {
    if b.block_type == "text"@ {
        paragraph(b.text)
    } else if b.block_type == "thinking"@ {
        "  · thinking ·\n"@ + cut_paragraph(b.text, 4000)
    } else if b.block_type == "tool_use"@ {
        "  ⚙ tool_use: "@ + or_empty(b.tool_name) + " "@ + shortened(or_empty(b.tool_input), 300)
            + "\n"@
    } else if b.block_type == "tool_result"@ {
        (if b.is_error == Some(true) {
            "  ⮐ tool_result (error):\n"@
        } else {
            "  ⮐ tool_result:\n"@
        }) + cut_paragraph(b.tool_result, 2000)
    } else {
        "  ["@ + b.block_type + "] "@ + shortened(or_empty(b.text), 300) + "\n"@
    }
}

/// A block in a transcript, marked as what it is.
pub fn block_lines(b: &Block) -> (r: String)
    ensures
        r@ == block_text(b@),
{
    let kind = b.block_type.as_str();
    if str_eq(kind, "text") {
        paragraph_text(&b.text)
    } else if str_eq(kind, "thinking") {
        let mut r = "  · thinking ·\n".to_owned();
        r.append(cut_paragraph_text(&b.text, 4000).as_str());
        r
    } else if str_eq(kind, "tool_use") {
        let mut r = "  ⚙ tool_use: ".to_owned();
        r.append(string_or_empty(&b.tool_name).as_str());
        r.append(" ");
        r.append(truncate(string_or_empty(&b.tool_input).as_str(), 300).as_str());
        r.append("\n");
        r
    } else if str_eq(kind, "tool_result") {
        let failed = match b.is_error {
            Some(e) => e,
            None => false,
        };
        let mut r = if failed {
            "  ⮐ tool_result (error):\n".to_owned()
        } else {
            "  ⮐ tool_result:\n".to_owned()
        };
        r.append(cut_paragraph_text(&b.tool_result, 2000).as_str());
        r
    } else {
        let mut r = "  [".to_owned();
        r.append(kind);
        r.append("] ");
        r.append(truncate(string_or_empty(&b.text).as_str(), 300).as_str());
        r.append("\n");
        r
    }
}

/// The model behind a turn, where it is known.
pub open spec fn model_tag(model: Option<Seq<char>>) -> Seq<char> {
    match model {
        Some(m) => "  ("@ + m + ")"@,
        None => Seq::empty(),
    }
}

/// A turn in a transcript, with all its blocks.
pub open spec fn message_text(
    rtype: Seq<char>,
    when: Seq<char>,
    model: Option<Seq<char>>,
    blocks: Seq<Block>,
) -> Seq<char> {
    marker_of(rtype) + "  "@ + when + model_tag(model) + "\n"@ + glued(
        blocks.map_values(|b: Block| block_text(b@)),
    ) + "\n"@
}

/// A turn in a transcript, with all its blocks.
pub fn print_message(rtype: &str, when: &str, model: &Option<String>, blocks: &Vec<Block>) -> (r:
    String)
    ensures
        r@ == message_text(rtype@, when@, opt_text(*model), blocks@),
{
    let mut r = marker(rtype);
    r.append("  ");
    r.append(when);
    let ghost head = r@;
    match model {
        Some(m) => {
            r.append("  (");
            r.append(m.as_str());
            r.append(")");
        },
        None => {},
    }
    assert(r@ == head + model_tag(opt_text(*model)));
    r.append("\n");
    let ghost all = blocks@.map_values(|b: Block| block_text(b@));
    let ghost head = r@;
    assert(head + glued(all.take(0)) == head);
    for i in 0..blocks.len()
        invariant
            all == blocks@.map_values(|b: Block| block_text(b@)),
            r@ == head + glued(all.take(i as int)),
    {
        r.append(block_lines(&blocks[i]).as_str());
        assert(all.take(i + 1).drop_last() == all.take(i as int));
        assert(r@ == head + glued(all.take(i + 1)));
    }
    assert(all.take(all.len() as int) == all);
    r.append("\n");
    r
}

/// A queued message in a transcript.
pub open spec fn queued_text(q: Queued, when: Seq<char>) -> Seq<char> {
    "⏳ QUEUED ("@ + or_empty(opt_text(q.operation)) + ")  "@ + when + "\n"@ + cut_paragraph(
        opt_text(q.text),
        4000,
    ) + "\n"@
}

/// The queued messages of a record in a transcript.
pub open spec fn all_queued_text(rows: Seq<Queued>, when: Seq<char>) -> Seq<char> {
    glued(rows.map_values(|q: Queued| queued_text(q, when)))
}

/// The queued messages of a record in a transcript; nothing where it has none.
pub fn print_queued(rows: &Vec<Queued>, when: &str) -> (r: Option<String>)
    ensures
        opt_text(r) == if rows@.len() == 0 {
            None
        } else {
            Some(all_queued_text(rows@, when@))
        },
{
    if rows.len() == 0 {
        return None;
    }
    let ghost all = rows@.map_values(|q: Queued| queued_text(q, when@));
    let mut r = String::new();
    for i in 0..rows.len()
        invariant
            all == rows@.map_values(|q: Queued| queued_text(q, when@)),
            r@ == glued(all.take(i as int)),
    {
        let mut one = "⏳ QUEUED (".to_owned();
        one.append(string_or_empty(&rows[i].operation).as_str());
        one.append(")  ");
        one.append(when);
        one.append("\n");
        one.append(cut_paragraph_text(&rows[i].text, 4000).as_str());
        one.append("\n");
        assert(one@ == all[i as int]);
        r.append(one.as_str());
        assert(all.take(i + 1).drop_last() == all.take(i as int));
    }
    assert(all.take(all.len() as int) == all);
    Some(r)
}

/// An event in a transcript.
pub open spec fn event_line(
    etype: Seq<char>,
    when: Seq<char>,
    summary: Option<Seq<char>>,
) -> Seq<char> {
    "· "@ + etype + " "@ + when + "  "@ + shortened(or_empty(summary), 160) + "\n"@
}

/// An event in a transcript.
pub fn print_event(etype: &str, when: &str, summary: &Option<String>) -> (r: String)
    ensures
        r@ == event_line(etype@, when@, opt_text(*summary)),
{
    let mut r = "· ".to_owned();
    r.append(etype);
    r.append(" ");
    r.append(when);
    r.append("  ");
    r.append(truncate(string_or_empty(summary).as_str(), 160).as_str());
    r.append("\n");
    r
}

/// A record in a transcript. Raw, it is its line. Otherwise messages and queued messages are always
/// shown, and events where they are asked for.
pub open spec fn shown_text(s: Shown, include_events: bool, raw: bool) -> Seq<char> {
    let when = when_of(opt_text(s.timestamp));
    let event = if include_events {
        event_line(s.record_type@, when, opt_text(s.summary))
    } else {
        Seq::empty()
    };
    if raw {
        s.raw_json@ + "\n"@
    } else {
        match shape_of(s.record_type@) {
            Shape::Message => message_text(
                s.record_type@,
                when,
                opt_text(s.model),
                s.blocks@,
            ),
            Shape::Queue => if s.queued@.len() > 0 {
                all_queued_text(s.queued@, when)
            } else {
                event
            },
            Shape::Event => event,
        }
    }
}

/// A record in a transcript.
pub fn show_record(s: &Shown, include_events: bool, raw: bool) -> (r: String)
    ensures
        r@ == shown_text(*s, include_events, raw),
{
    if raw {
        let mut r = s.raw_json.clone();
        r.append("\n");
        return r;
    }
    let when = when_text(&s.timestamp);
    match shape(s.record_type.as_str()) {
        Shape::Message => {
            return print_message(s.record_type.as_str(), when.as_str(), &s.model, &s.blocks);
        },
        Shape::Queue => match print_queued(&s.queued, when.as_str()) {
            Some(r) => {
                return r;
            },
            None => {},
        },
        Shape::Event => {},
    }
    if include_events {
        print_event(s.record_type.as_str(), when.as_str(), &s.summary)
    } else {
        String::new()
    }
}

/// A whole transcript: what stands above it, unless it is raw, and its records.
pub open spec fn transcript(
    heading: Option<Heading>,
    records: Seq<Shown>,
    include_events: bool,
    raw: bool,
) -> Seq<char> {
    (match heading {
        Some(h) => if raw {
            Seq::empty()
        } else {
            heading_text(h)
        },
        None => Seq::empty(),
    }) + glued(records.map_values(|s: Shown| shown_text(s, include_events, raw)))
}

/// A whole transcript: what stands above it, unless it is raw, and its records.
pub fn show(heading: &Option<Heading>, records: &Vec<Shown>, include_events: bool, raw: bool) -> (r:
    String)
    ensures
        r@ == transcript(*heading, records@, include_events, raw),
{
    let mut r = String::new();
    if !raw {
        match heading {
            Some(h) => {
                r = heading_lines(h);
            },
            None => {},
        }
    }
    let ghost head = r@;
    let ghost all = records@.map_values(|s: Shown| shown_text(s, include_events, raw));
    assert(head + glued(all.take(0)) == head);
    for i in 0..records.len()
        invariant
            all == records@.map_values(|s: Shown| shown_text(s, include_events, raw)),
            r@ == head + glued(all.take(i as int)),
    {
        r.append(show_record(&records[i], include_events, raw).as_str());
        assert(all.take(i + 1).drop_last() == all.take(i as int));
        assert(r@ == head + glued(all.take(i + 1)));
    }
    assert(all.take(all.len() as int) == all);
    r
}

/// How often a name occurs.
pub struct Count {
    pub name: String,
    pub count: i64,
}

/// The counts of a database.
pub struct Totals {
    pub sessions: i64,
    pub records: i64,
    pub blocks: i64,
    pub record_types: Vec<Count>,
    pub block_types: Vec<Count>,
    pub tools: Vec<Count>,
    pub tokens: Option<i64>,
}

/// A row of a table of counts.
pub open spec fn count_line(c: Count) -> Seq<char> {
    "  "@ + left_in(c.name@, 24) + " "@ + right_in(decimal(c.count as int), 8) + "\n"@
}

/// A table of counts.
pub open spec fn count_table(counts: Seq<Count>) -> Seq<char> {
    glued(counts.map_values(|c: Count| count_line(c)))
}

fn count_lines(counts: &Vec<Count>) -> (r: String)
    ensures
        r@ == count_table(counts@),
{
    let ghost all = counts@.map_values(|c: Count| count_line(c));
    let mut r = String::new();
    for i in 0..counts.len()
        invariant
            all == counts@.map_values(|c: Count| count_line(c)),
            r@ == glued(all.take(i as int)),
    {
        let mut one = "  ".to_owned();
        one.append(pad_right(counts[i].name.as_str(), 24).as_str());
        one.append(" ");
        one.append(pad_left(decimal_i64(counts[i].count).as_str(), 8).as_str());
        one.append("\n");
        assert(one@ == all[i as int]);
        r.append(one.as_str());
        assert(all.take(i + 1).drop_last() == all.take(i as int));
    }
    assert(all.take(all.len() as int) == all);
    r
}

/// A part of the counts, as they are shown one after the other.
pub enum Part {
    Totals,
    RecordTypes,
    BlockTypes,
    Tools,
    Tokens,
}

/// The parts of the counts, in the order in which they are shown.
pub open spec fn part_order() -> Seq<Part> {
    seq![Part::Totals, Part::RecordTypes, Part::BlockTypes, Part::Tools, Part::Tokens]
}

/// The parts of the counts, in the order in which they are shown.
pub fn stats_parts() -> (r: Vec<Part>)
    ensures
        r@ == part_order(),
{
    vec![Part::Totals, Part::RecordTypes, Part::BlockTypes, Part::Tools, Part::Tokens]
}

/// A part of the counts, as it is shown on a terminal.
pub open spec fn part_text(t: Totals, part: Part) -> Seq<char> {
    match part {
        Part::Totals => "Sessions: "@ + decimal(t.sessions as int) + "\nRecords:  "@ + decimal(
            t.records as int,
        ) + "\nBlocks:   "@ + decimal(t.blocks as int) + "\n"@,
        Part::RecordTypes => "\nRecord types:\n"@ + count_table(t.record_types@),
        Part::BlockTypes => "\nContent block types (clearly marked):\n"@ + count_table(
            t.block_types@,
        ),
        Part::Tools => "\nTop tools used:\n"@ + count_table(t.tools@),
        Part::Tokens => match t.tokens {
            Some(n) => "\nTotal tokens (in+out): "@ + decimal(n as int) + "\n"@,
            None => Seq::empty(),
        },
    }
}

/// A part of the counts, as it is shown on a terminal.
pub fn stats_part(t: &Totals, part: &Part) -> (r: String)
    ensures
        r@ == part_text(*t, *part),
{
    match part {
        Part::Totals => {
            let mut r = "Sessions: ".to_owned();
            r.append(decimal_i64(t.sessions).as_str());
            r.append("\nRecords:  ");
            r.append(decimal_i64(t.records).as_str());
            r.append("\nBlocks:   ");
            r.append(decimal_i64(t.blocks).as_str());
            r.append("\n");
            r
        },
        Part::RecordTypes => {
            let mut r = "\nRecord types:\n".to_owned();
            r.append(count_lines(&t.record_types).as_str());
            r
        },
        Part::BlockTypes => {
            let mut r = "\nContent block types (clearly marked):\n".to_owned();
            r.append(count_lines(&t.block_types).as_str());
            r
        },
        Part::Tools => {
            let mut r = "\nTop tools used:\n".to_owned();
            r.append(count_lines(&t.tools).as_str());
            r
        },
        Part::Tokens => match t.tokens {
            Some(n) => {
                let mut r = "\nTotal tokens (in+out): ".to_owned();
                r.append(decimal_i64(n).as_str());
                r.append("\n");
                r
            },
            None => String::new(),
        },
    }
}

/// The counts of a database, as they are shown on a terminal.
pub open spec fn stats_text(t: Totals) -> Seq<char> {
    glued(part_order().map_values(|part: Part| part_text(t, part)))
}

/// The counts of a database, as they are shown on a terminal.
pub fn stats(t: &Totals) -> (r: String)
    ensures
        r@ == stats_text(*t),
{
    let parts = stats_parts();
    let ghost all = parts@.map_values(|part: Part| part_text(*t, part));
    let mut r = String::new();
    for i in 0..parts.len()
        invariant
            all == parts@.map_values(|part: Part| part_text(*t, part)),
            r@ == glued(all.take(i as int)),
    {
        r.append(stats_part(t, &parts[i]).as_str());
        assert(all.take(i + 1).drop_last() == all.take(i as int));
    }
    assert(all.take(all.len() as int) == all);
    r
}

/// An id in ASCII, as ids of sessions are, can always be cut off for showing: its first characters
/// are left.
pub proof fn law_plain_ids_can_be_shortened(id: Seq<char>)
    requires
        is_ascii_chars(id),
    ensures
        can_shorten(id),
        short_of(id) == if id.len() < 8 {
            id
        } else {
            id.take(8)
        },
{
    let bytes = encode_utf8(id);
    let n = short_len(id);
    vstd::utf8::encode_utf8_valid_utf8(id);
    vstd::utf8::is_ascii_chars_encode_utf8(id);
    if n < bytes.len() {
        assert(id[n] as u8 == bytes[n]);
        assert('\0' <= id[n] <= '\u{7f}');
        vstd::utf8::is_char_boundary_iff_not_is_continuation_byte(bytes, n);
    } else {
        vstd::utf8::is_char_boundary_start_end_of_seq(bytes);
    }
    let front = id.take(n);
    assert forall|i: int| 0 <= i < front.len() implies '\0' <= #[trigger] front[i] <= '\u{7f}' by {
        assert(front[i] == id[i]);
    }
    vstd::utf8::is_ascii_chars_encode_utf8(front);
    assert forall|i: int| 0 <= i < n implies encode_utf8(front)[i] == bytes[i] by {
        assert(front[i] as u8 == encode_utf8(front)[i]);
        assert(id[i] as u8 == bytes[i]);
    }
    assert(encode_utf8(front) =~= bytes.take(n));
    vstd::utf8::encode_utf8_decode_utf8(front);
    if id.len() < 8 {
        assert(front == id);
    }
}

/// Messages and queued messages are shown whether events are asked for or not.
pub proof fn law_messages_are_never_hidden(s: Shown)
    requires
        shape_of(s.record_type@) is Message || (shape_of(s.record_type@) is Queue && s.queued@.len()
            > 0),
    ensures
        shown_text(s, false, false) == shown_text(s, true, false),
        shown_text(s, false, false).len() > 0,
{
    let when = when_of(opt_text(s.timestamp));
    reveal_strlit("\n");
    if shape_of(s.record_type@) is Queue {
        let all = s.queued@.map_values(|q: Queued| queued_text(q, when));
        assert(all.last() == queued_text(s.queued@.last(), when));
        assert(all.last().len() > 0);
        assert(glued(all).len() >= all.last().len());
    }
}

/// What is neither a message nor a queued message is shown as one line where events are asked for,
/// and not at all otherwise.
pub proof fn law_events_are_shown_on_demand(s: Shown)
    requires
        shape_of(s.record_type@) is Event || (shape_of(s.record_type@) is Queue && s.queued@.len()
            == 0),
    ensures
        shown_text(s, false, false).len() == 0,
        shown_text(s, true, false) == event_line(
            s.record_type@,
            when_of(opt_text(s.timestamp)),
            opt_text(s.summary),
        ),
{
}

/// The lines as they stand in a file.
pub open spec fn file_text(lines: Seq<Seq<char>>) -> Seq<char> {
    glued(lines.map_values(|l: Seq<char>| l + "\n"@))
}

/// The records are those that the import of a file with these lines stored, in order.
pub open spec fn shows_import(records: Seq<Shown>, lines: Seq<Seq<char>>) -> bool {
    let stored = stored_lines(kept_lines(lines));
    &&& records.len() == stored.len()
    &&& forall|i: int|
        0 <= i < records.len() ==> (#[trigger] records[i]).raw_json@ == stored[i].record.raw_json
}

/// The texts of the lines that are kept of a file.
pub open spec fn kept_texts(lines: Seq<Seq<char>>) -> Seq<Seq<char>> {
    kept_lines(lines).map_values(|k: Kept| k.line)
}

/// A raw transcript gives back every line that was kept, whole and in order, and nothing else.
pub proof fn law_raw_transcript_gives_lines_back(
    heading: Option<Heading>,
    records: Seq<Shown>,
    include_events: bool,
    lines: Seq<Seq<char>>,
)
    requires
        shows_import(records, lines),
    ensures
        transcript(heading, records, include_events, true) == file_text(kept_texts(lines)),
{
    let shown = records.map_values(|s: Shown| shown_text(s, include_events, true));
    let back = kept_texts(lines).map_values(|l: Seq<char>| l + "\n"@);
    assert forall|i: int| 0 <= i < shown.len() implies shown[i] == back[i] by {
        assert(records[i].raw_json@ == stored_lines(kept_lines(lines))[i].record.raw_json);
    }
    assert(shown =~= back);
    assert(Seq::<char>::empty() + glued(shown) =~= glued(shown));
}

proof fn lemma_all_kept(lines: Seq<Seq<char>>)
    requires
        forall|i: int| 0 <= i < lines.len() ==> !blank(#[trigger] lines[i]),
        forall|i: int| 0 <= i < lines.len() ==> json_parse(#[trigger] lines[i]) is Some,
    ensures
        kept_texts(lines) == lines,
    decreases lines.len(),
{
    if lines.len() > 0 {
        let front = lines.drop_last();
        assert forall|i: int| 0 <= i < front.len() implies !blank(#[trigger] front[i])
            && json_parse(front[i]) is Some by {
            assert(front[i] == lines[i]);
            assert(!blank(lines[i]));
        }
        lemma_all_kept(front);
        let last = lines[lines.len() - 1];
        assert(!blank(last));
        assert(kept_texts(lines) =~= kept_texts(front).push(last));
        assert(front.push(last) =~= lines);
    } else {
        assert(kept_texts(lines) =~= lines);
    }
}

/// Where every line of a file holds a JSON value, its raw transcript is the whole file.
pub proof fn law_raw_transcript_is_the_file(
    heading: Option<Heading>,
    records: Seq<Shown>,
    include_events: bool,
    lines: Seq<Seq<char>>,
)
    requires
        shows_import(records, lines),
        forall|i: int| 0 <= i < lines.len() ==> !blank(#[trigger] lines[i]),
        forall|i: int| 0 <= i < lines.len() ==> json_parse(#[trigger] lines[i]) is Some,
    ensures
        transcript(heading, records, include_events, true) == file_text(lines),
{
    law_raw_transcript_gives_lines_back(heading, records, include_events, lines);
    lemma_all_kept(lines);
}

/// What was written as lines is read back as the same lines.
pub proof fn law_file_text_is_read_back(lines: Seq<Seq<char>>)
    requires
        forall|i: int| 0 <= i < lines.len() ==> is_line(#[trigger] lines[i]),
    ensures
        lines_of(file_text(lines)) == lines,
    decreases lines.len(),
{
    reveal_strlit("\n");
    assert("\n"@ =~= seq!['\n']);
    if lines.len() == 0 {
        assert(lines_of(file_text(lines)) =~= lines);
    } else {
        let front = lines.drop_last();
        let last = lines[lines.len() - 1];
        assert forall|i: int| 0 <= i < front.len() implies is_line(#[trigger] front[i]) by {
            assert(front[i] == lines[i]);
        }
        law_file_text_is_read_back(front);
        let all = lines.map_values(|l: Seq<char>| l + "\n"@);
        assert(all.drop_last() =~= front.map_values(|l: Seq<char>| l + "\n"@));
        assert(all.last() == last + "\n"@);
        let s = file_text(front);
        assert(file_text(lines) =~= s + last + seq!['\n']);
        if front.len() > 0 {
            let before = front.map_values(|l: Seq<char>| l + "\n"@);
            assert(before.last() == front.last() + "\n"@);
            assert(s.last() == '\n');
        }
        assert(is_line(last));
        lemma_lines_append(s, last);
        assert(front.push(last) =~= lines);
    }
}

/// A raw transcript can be imported again: its lines are those that were kept, and all of them are
/// kept once more.
pub proof fn law_raw_transcript_can_be_imported(
    heading: Option<Heading>,
    records: Seq<Shown>,
    include_events: bool,
    lines: Seq<Seq<char>>,
)
    requires
        shows_import(records, lines),
        forall|i: int| 0 <= i < kept_texts(lines).len() ==> is_line(#[trigger] kept_texts(lines)[i]),
    ensures
        lines_of(transcript(heading, records, include_events, true)) == kept_texts(lines),
        kept_texts(kept_texts(lines)) == kept_texts(lines),
{
    let kept = kept_texts(lines);
    law_raw_transcript_gives_lines_back(heading, records, include_events, lines);
    assert forall|i: int| 0 <= i < kept.len() implies !blank(#[trigger] kept[i]) by {
        law_kept_comes_from_lines(lines, i);
    }
    assert forall|i: int| 0 <= i < kept.len() implies json_parse(#[trigger] kept[i]) is Some by {
        law_kept_comes_from_lines(lines, i);
    }
    law_file_text_is_read_back(kept);
    lemma_all_kept(kept);
}

/// A record is shown as what it is stored as: a message as a message, and a queue operation with a
/// queued message as that.
pub proof fn law_records_are_shown_as_stored(seq: nat, line: Seq<char>, v: JsonView)
    ensures
        shape_of(stored_of(seq, line, v).record.record_type) is Message <==> stored_of(
            seq,
            line,
            v,
        ).detail is Message,
        stored_of(seq, line, v).detail matches DetailView::Event { queued: Some(_), .. }
            ==> shape_of(stored_of(seq, line, v).record.record_type) is Queue,
{
}

/// Texts are put one behind the other: one more goes behind all others.
pub proof fn law_gluing_goes_on(parts: Seq<Seq<char>>, part: Seq<char>)
    ensures
        glued(parts.push(part)) == glued(parts) + part,
        glued(Seq::<Seq<char>>::empty()).len() == 0,
{
    assert(parts.push(part).drop_last() =~= parts);
}

/// The list shows every session, once and in order, and then how many there are: one more session
/// adds its two lines behind those of the others.
pub proof fn law_every_session_is_listed(rows: Seq<SessionLine>, s: SessionLine)
    ensures
        ({
            let before = "\n"@ + decimal(rows.len() as int) + " session(s).\n"@;
            let after = "\n"@ + decimal(rows.len() as int + 1) + " session(s).\n"@;
            let text = sessions_text(rows);
            let list = if rows.len() == 0 {
                Seq::empty()
            } else {
                text.take(text.len() - before.len())
            };
            &&& rows.len() > 0 ==> text == list + before
            &&& sessions_text(rows.push(s)) == list + session_text(s) + after
        }),
{
    let all = rows.map_values(|s: SessionLine| session_text(s));
    assert(rows.push(s).map_values(|s: SessionLine| session_text(s)) =~= all.push(session_text(s)));
    law_gluing_goes_on(all, session_text(s));
    let before = "\n"@ + decimal(rows.len() as int) + " session(s).\n"@;
    let after = "\n"@ + decimal(rows.len() as int + 1) + " session(s).\n"@;
    let text = sessions_text(rows);
    assert(sessions_text(rows.push(s)) =~= glued(all) + session_text(s) + after);
    if rows.len() > 0 {
        assert(text =~= glued(all) + before);
        assert(text.take(text.len() - before.len()) =~= glued(all));
    } else {
        assert(glued(all) =~= Seq::<char>::empty());
    }
}

/// The list shows every match, once and in order of rank, and then how many there are: one more
/// match adds its two lines behind those of the others.
pub proof fn law_every_match_is_listed(query: Seq<char>, rows: Seq<SearchLine>, f: SearchLine)
    ensures
        ({
            let before = "\n"@ + decimal(rows.len() as int) + " match(es).\n"@;
            let after = "\n"@ + decimal(rows.len() as int + 1) + " match(es).\n"@;
            let text = search_text(query, rows);
            let list = if rows.len() == 0 {
                Seq::empty()
            } else {
                text.take(text.len() - before.len())
            };
            &&& rows.len() > 0 ==> text == list + before
            &&& search_text(query, rows.push(f)) == list + found_text(f) + after
        }),
{
    let all = rows.map_values(|f: SearchLine| found_text(f));
    assert(rows.push(f).map_values(|f: SearchLine| found_text(f)) =~= all.push(found_text(f)));
    law_gluing_goes_on(all, found_text(f));
    let before = "\n"@ + decimal(rows.len() as int) + " match(es).\n"@;
    let after = "\n"@ + decimal(rows.len() as int + 1) + " match(es).\n"@;
    let text = search_text(query, rows);
    assert(search_text(query, rows.push(f)) =~= glued(all) + found_text(f) + after);
    if rows.len() > 0 {
        assert(text =~= glued(all) + before);
        assert(text.take(text.len() - before.len()) =~= glued(all));
    } else {
        assert(glued(all) =~= Seq::<char>::empty());
    }
}

/// The lines about a session say when it was, how many messages it has, its title, its id, its
/// project and its branch, in order.
pub proof fn law_session_lines_say_it_all(s: SessionLine)
    ensures
        made_of(
            session_text(s),
            seq![
                when_of(opt_text(s.last)),
                right_in(decimal(s.messages as int), 4),
                shortened(title_of(opt_text(s.custom_title), opt_text(s.ai_title)), 70),
                short_of(s.session_id@),
                or_empty(opt_text(s.project)),
                branch_tag(opt_text(s.branch)),
            ],
            19,
        ),
{
    let a = when_of(opt_text(s.last));
    let b = right_in(decimal(s.messages as int), 4);
    let c = shortened(title_of(opt_text(s.custom_title), opt_text(s.ai_title)), 70);
    let d = short_of(s.session_id@);
    let e = or_empty(opt_text(s.project));
    let f = branch_tag(opt_text(s.branch));
    lemma_made_own(Seq::empty());
    lemma_made_next(Seq::empty(), Seq::<Seq<char>>::empty(), 0, a);
    let w0 = a;
    assert(Seq::<char>::empty() + a =~= w0);
    let wp0 = Seq::<Seq<char>>::empty().push(a);
    reveal_strlit("  ");
    lemma_made_more(w0, wp0, 0, "  "@);
    let w1 = w0 + "  "@;
    lemma_made_next(w1, wp0, 2, b);
    let w2 = w1 + b;
    let wp2 = wp0.push(b);
    reveal_strlit(" msgs  ");
    lemma_made_more(w2, wp2, 2, " msgs  "@);
    let w3 = w2 + " msgs  "@;
    lemma_made_next(w3, wp2, 9, c);
    let w4 = w3 + c;
    let wp4 = wp2.push(c);
    reveal_strlit("\n    ");
    lemma_made_more(w4, wp4, 9, "\n    "@);
    let w5 = w4 + "\n    "@;
    lemma_made_next(w5, wp4, 14, d);
    let w6 = w5 + d;
    let wp6 = wp4.push(d);
    reveal_strlit("  [");
    lemma_made_more(w6, wp6, 14, "  ["@);
    let w7 = w6 + "  ["@;
    lemma_made_next(w7, wp6, 17, e);
    let w8 = w7 + e;
    let wp8 = wp6.push(e);
    reveal_strlit("]");
    lemma_made_more(w8, wp8, 17, "]"@);
    let w9 = w8 + "]"@;
    lemma_made_next(w9, wp8, 18, f);
    let w10 = w9 + f;
    let wp10 = wp8.push(f);
    reveal_strlit("\n");
    lemma_made_more(w10, wp10, 18, "\n"@);
    let w11 = w10 + "\n"@;
    assert(wp10 =~= seq![a, b, c, d, e, f]);
}

/// A title that was given goes before one that was made up, and any title before none.
pub proof fn law_given_titles_go_first(given: Seq<char>, made: Seq<char>)
    ensures
        given.len() > 0 ==> title_of(Some(given), Some(made)) == given && title_of(
            Some(given),
            None,
        ) == given,
        title_of(None, Some(made)) == made,
        title_of(Some(Seq::empty()), Some(made)) == made,
        title_of(None, None) == title_of(Some(Seq::empty()), None),
        title_of(None, None).len() > 0,
{
    reveal_strlit("(untitled)");
}

/// A branch is shown behind its mark, and none where there is none.
pub proof fn law_branches_are_shown(b: Seq<char>)
    ensures
        b.len() > 0 ==> made_of(branch_tag(Some(b)), seq![b], 3),
        branch_tag(Some(Seq::empty())).len() == 0,
        branch_tag(None).len() == 0,
{
    reveal_strlit("  @");
    lemma_made_own("  @"@);
    lemma_made_next("  @"@, Seq::empty(), 3, b);
    assert(Seq::<Seq<char>>::empty().push(b) =~= seq![b]);
}

/// A time is shown to the minute, and none where there is none.
pub proof fn law_times_are_shown(t: Seq<char>)
    ensures
        when_of(Some(t)) == minute(t),
        when_of(None).len() == 0,
{
}

/// The lines about a match say when it was, of which type and role, in which session, and what was
/// found, in order.
pub proof fn law_match_lines_say_it_all(f: SearchLine)
    ensures
        made_of(
            found_text(f),
            seq![
                when_of(opt_text(f.timestamp)),
                left_in(seq!['['] + f.block_type@ + seq![']'], 11),
                left_in(or_empty(opt_text(f.role)), 6),
                short_of(f.session_id@),
                shortened(f.snippet@, 500),
            ],
            10,
        ),
{
    reveal_strlit("[");
    reveal_strlit("]");
    assert("["@ =~= seq!['[']);
    assert("]"@ =~= seq![']']);
    let a = when_of(opt_text(f.timestamp));
    let b = left_in("["@ + f.block_type@ + "]"@, 11);
    let c = left_in(or_empty(opt_text(f.role)), 6);
    let d = short_of(f.session_id@);
    let e = shortened(f.snippet@, 500);
    lemma_made_own(Seq::empty());
    lemma_made_next(Seq::empty(), Seq::<Seq<char>>::empty(), 0, a);
    let w0 = a;
    assert(Seq::<char>::empty() + a =~= w0);
    let wp0 = Seq::<Seq<char>>::empty().push(a);
    reveal_strlit("  ");
    lemma_made_more(w0, wp0, 0, "  "@);
    let w1 = w0 + "  "@;
    lemma_made_next(w1, wp0, 2, b);
    let w2 = w1 + b;
    let wp2 = wp0.push(b);
    reveal_strlit(" ");
    lemma_made_more(w2, wp2, 2, " "@);
    let w3 = w2 + " "@;
    lemma_made_next(w3, wp2, 3, c);
    let w4 = w3 + c;
    let wp4 = wp2.push(c);
    reveal_strlit(" ");
    lemma_made_more(w4, wp4, 3, " "@);
    let w5 = w4 + " "@;
    lemma_made_next(w5, wp4, 4, d);
    let w6 = w5 + d;
    let wp6 = wp4.push(d);
    reveal_strlit("\n    ");
    lemma_made_more(w6, wp6, 4, "\n    "@);
    let w7 = w6 + "\n    "@;
    lemma_made_next(w7, wp6, 9, e);
    let w8 = w7 + e;
    let wp8 = wp6.push(e);
    reveal_strlit("\n");
    lemma_made_more(w8, wp8, 9, "\n"@);
    let w9 = w8 + "\n"@;
    assert(wp8 =~= seq![a, b, c, d, e]);
}

/// A filter is put into the query of a search where it is asked for, at one place and whole, and the
/// rest of the query stays as it is.
pub proof fn law_filters_are_put_in(at: Surface, by_type: bool, by_role: bool, by_session: bool)
    ensures
        put_in(
            " AND s.block_type = ?2"@,
            search_query(at, false, by_role, by_session),
            search_query(at, true, by_role, by_session),
        ),
        put_in(
            " AND s.role = ?3"@,
            search_query(at, by_type, false, by_session),
            search_query(at, by_type, true, by_session),
        ),
        at is Page ==> put_in(
            " AND s.session_id LIKE ?4"@,
            search_query(at, by_type, by_role, false),
            search_query(at, by_type, by_role, true),
        ),
        at is Terminal ==> put_in(
            " AND s.session_id LIKE ?4 ESCAPE '\\'"@,
            search_query(at, by_type, by_role, false),
            search_query(at, by_type, by_role, true),
        ),
        put_in(
            " WHERE (cwd LIKE ?1 ESCAPE '\\' OR project_path LIKE ?1 ESCAPE '\\' OR project_dir LIKE ?1 ESCAPE '\\')"@,
            sessions_query(false),
            sessions_query(true),
        ),
{
    let head = "SELECT s.block_id, s.session_id, s.block_type, s.role, snippet(search_index, 0, '"@
        + open_of(at) + "', '"@ + close_of(at)
        + "', '…', 48) AS snip, cb.timestamp FROM search_index s JOIN content_blocks cb ON cb.id = s.block_id WHERE search_index MATCH ?1"@;
    let none = Seq::<char>::empty();
    let t = " AND s.block_type = ?2"@;
    let r = " AND s.role = ?3"@;
    let s = session_filter(at);
    let end = " ORDER BY rank LIMIT ?5"@;
    let tt = if by_type {
        t
    } else {
        none
    };
    let rr = if by_role {
        r
    } else {
        none
    };
    let ss = if by_session {
        s
    } else {
        none
    };
    lemma_put_at_end(head, t);
    lemma_put_in_more(t, head + none, head + t, rr);
    lemma_put_in_more(t, head + none + rr, head + t + rr, ss);
    lemma_put_in_more(t, head + none + rr + ss, head + t + rr + ss, end);
    lemma_put_at_end(head + tt, r);
    lemma_put_in_more(r, head + tt + none, head + tt + r, ss);
    lemma_put_in_more(r, head + tt + none + ss, head + tt + r + ss, end);
    lemma_put_at_end(head + tt + rr, s);
    lemma_put_in_more(s, head + tt + rr + none, head + tt + rr + s, end);
    let list = "SELECT session_id, COALESCE(cwd, project_path), custom_title, ai_title, git_branch, last_timestamp, message_count FROM sessions"@;
    let w = " WHERE (cwd LIKE ?1 ESCAPE '\\' OR project_path LIKE ?1 ESCAPE '\\' OR project_dir LIKE ?1 ESCAPE '\\')"@;
    lemma_put_at_end(list, w);
    lemma_put_in_more(w, list + none, list + w, " ORDER BY last_timestamp DESC LIMIT ?2"@);
}

/// One text is another with a part put in at one place.
pub open spec fn put_in(part: Seq<char>, without: Seq<char>, with: Seq<char>) -> bool {
    exists|i: int|
        0 <= i <= without.len() && with == #[trigger] without.take(i) + part + without.skip(i)
}

/// A part may be put in at the end.
pub proof fn lemma_put_at_end(a: Seq<char>, part: Seq<char>)
    ensures
        put_in(part, a + Seq::empty(), a + part),
{
    let without = a + Seq::empty();
    let i = a.len() as int;
    assert(without.take(i) + part + without.skip(i) =~= a + part);
}

/// What is put in stays put in when both texts grow.
pub proof fn lemma_put_in_more(part: Seq<char>, without: Seq<char>, with: Seq<char>, more: Seq<char>)
    requires
        put_in(part, without, with),
    ensures
        put_in(part, without + more, with + more),
{
    let i = choose|i: int|
        0 <= i <= without.len() && with == #[trigger] without.take(i) + part + without.skip(i);
    let longer = without + more;
    assert(longer.take(i) =~= without.take(i));
    assert(longer.skip(i) =~= without.skip(i) + more);
    assert(with + more =~= longer.take(i) + part + longer.skip(i));
}

/// A filter of the terminal stands for its text, and one of the page goes into the pattern as it is:
/// behind a wildcard and before one, or only before one.
pub proof fn law_filters_become_patterns(p: Seq<char>)
    ensures
        ({
            let any = anywhere(Surface::Terminal, Some(p));
            let start = at_start(Surface::Terminal, Some(p));
            &&& any.len() >= 2 && any[0] == '%' && any.last() == '%'
            &&& literal_of(any.subrange(1, any.len() - 1)) == Some(p)
            &&& start.len() >= 1 && start.last() == '%'
            &&& literal_of(start.drop_last()) == Some(p)
        }),
        anywhere(Surface::Page, Some(p)) == seq!['%'] + p + seq!['%'],
        at_start(Surface::Page, Some(p)) == p + seq!['%'],
        anywhere(Surface::Page, None).len() == 0 && anywhere(Surface::Terminal, None).len() == 0,
        at_start(Surface::Page, None).len() == 0 && at_start(Surface::Terminal, None).len() == 0,
{
    reveal_strlit("%");
    assert("%"@ =~= seq!['%']);
    law_escaped_patterns_are_literal(p);
    let any = anywhere(Surface::Terminal, Some(p));
    let start = at_start(Surface::Terminal, Some(p));
    assert(any.subrange(1, any.len() - 1) =~= like_escaped(p));
    assert(start.drop_last() =~= like_escaped(p));
}

/// A turn grows with its blocks: one more block is shown behind the others, before the empty line at
/// the end.
pub proof fn law_every_block_is_shown(
    rtype: Seq<char>,
    when: Seq<char>,
    model: Option<Seq<char>>,
    blocks: Seq<Block>,
    b: Block,
)
    ensures
        ({
            let text = message_text(rtype, when, model, blocks);
            &&& text.len() > 0 && text.last() == '\n'
            &&& message_text(rtype, when, model, blocks.push(b)) == text.drop_last() + block_text(b@)
                + seq!['\n']
        }),
{
    reveal_strlit("\n");
    assert("\n"@ =~= seq!['\n']);
    let all = blocks.map_values(|b: Block| block_text(b@));
    assert(blocks.push(b).map_values(|b: Block| block_text(b@)) =~= all.push(block_text(b@)));
    law_gluing_goes_on(all, block_text(b@));
    let head = marker_of(rtype) + "  "@ + when + model_tag(model) + "\n"@;
    let text = message_text(rtype, when, model, blocks);
    assert(text =~= head + glued(all) + "\n"@);
    assert(text.drop_last() =~= head + glued(all));
    assert(message_text(rtype, when, model, blocks.push(b)) =~= head + glued(all) + block_text(b@)
        + "\n"@);
}

/// A turn starts with who speaks, when, and by which model.
pub proof fn law_turns_say_who_speaks(rtype: Seq<char>, when: Seq<char>, model: Option<Seq<char>>)
    ensures
        made_of(
            message_text(rtype, when, model, Seq::empty()),
            seq![marker_of(rtype), when, model_tag(model)],
            4,
        ),
        model matches Some(m) ==> made_of(model_tag(model), seq![m], 4),
        model is None ==> model_tag(model).len() == 0,
        marker_of("user"@) != marker_of("assistant"@),
        !is_message(rtype) ==> marker_of(rtype) == rtype,
{
    reveal_strlit("user");
    reveal_strlit("assistant");
    reveal_strlit("▶ USER");
    reveal_strlit("◆ ASSISTANT");
    assert("user"@.len() == 4 && "assistant"@.len() == 9);
    assert("▶ USER"@.len() == 6 && "◆ ASSISTANT"@.len() == 11);
    let a = marker_of(rtype);
    let c = model_tag(model);
    lemma_made_own(Seq::empty());
    lemma_made_next(Seq::empty(), Seq::<Seq<char>>::empty(), 0, a);
    let w0 = a;
    assert(Seq::<char>::empty() + a =~= w0);
    let wp0 = Seq::<Seq<char>>::empty().push(a);
    reveal_strlit("  ");
    lemma_made_more(w0, wp0, 0, "  "@);
    let w1 = w0 + "  "@;
    lemma_made_next(w1, wp0, 2, when);
    let w2 = w1 + when;
    let wp2 = wp0.push(when);
    lemma_made_next(w2, wp2, 2, c);
    let w3 = w2 + c;
    let wp3 = wp2.push(c);
    reveal_strlit("\n");
    lemma_made_more(w3, wp3, 2, "\n"@);
    let w4 = w3 + "\n"@;
    reveal_strlit("\n");
    lemma_made_more(w4, wp3, 3, "\n"@);
    assert(wp3 =~= seq![a, when, c]);
    let none = Seq::<Block>::empty().map_values(|b: Block| block_text(b@));
    assert(none =~= Seq::<Seq<char>>::empty());
    assert(glued(none) =~= Seq::<char>::empty());
    assert(message_text(rtype, when, model, Seq::empty()) =~= w4 + "\n"@);
    if let Some(m) = model {
        reveal_strlit("  (");
        reveal_strlit(")");
        lemma_made_own("  ("@);
        lemma_made_next("  ("@, Seq::empty(), 3, m);
        lemma_made_more("  ("@ + m, Seq::<Seq<char>>::empty().push(m), 3, ")"@);
        assert(Seq::<Seq<char>>::empty().push(m) =~= seq![m]);
    }
}

/// A text is shown whole, each of its lines moved to the right, and nothing where there is none.
pub proof fn law_texts_are_shown_whole(b: BlockView)
    requires
        b.block_type == "text"@,
    ensures
        b.text matches Some(t) ==> block_text(b) == indented(t).push('\n'),
        b.text is None ==> block_text(b).len() == 0,
{
    reveal_strlit("\n");
    if let Some(t) = b.text {
        assert(indented(t) + "\n"@ =~= indented(t).push('\n'));
    }
}

/// The types of blocks that are shown in ways of their own.
proof fn lemma_block_types()
    ensures
        "text"@.len() == 4,
        "thinking"@.len() == 8,
        "thinking"@[1] == 'h',
        "tool_use"@.len() == 8,
        "tool_use"@[1] == 'o',
        "tool_result"@.len() == 11,
{
    reveal_strlit("text");
    reveal_strlit("thinking");
    reveal_strlit("tool_use");
    reveal_strlit("tool_result");
}

/// A thought is marked, and its text is shown behind the mark on one line.
pub proof fn law_thoughts_are_shown(b: BlockView)
    requires
        b.block_type == "thinking"@,
    ensures
        b.text matches Some(t) ==> made_of(
            block_text(b),
            seq![indented(shortened(t, 4000))],
            16,
        ),
        b.text is None ==> block_text(b).len() == 15,
        occurs("thinking"@, block_text(b)),
{
    lemma_block_types();
    reveal_strlit("thinking");
    reveal_strlit("  · thinking ·\n");
    assert("thinking"@.is_prefix_of(block_text(b).skip(4))) by {
        assert(block_text(b).skip(4).take(8) =~= "thinking"@);
    }
    if let Some(t) = b.text {
        let x = indented(shortened(t, 4000));
        reveal_strlit("  · thinking ·\n");
        let w0 = "  · thinking ·\n"@;
        lemma_made_own(w0);
        lemma_made_next(w0, Seq::<Seq<char>>::empty(), 15, x);
        let w1 = w0 + x;
        let wp1 = Seq::<Seq<char>>::empty().push(x);
        reveal_strlit("\n");
        lemma_made_more(w1, wp1, 15, "\n"@);
        let w2 = w1 + "\n"@;
        assert(wp1 =~= seq![x]);
        assert(block_text(b) =~= w2);
    }
}

/// The result of a tool is marked, as an error where it is one, and shown behind the mark on one
/// line.
pub proof fn law_tool_results_are_shown(b: BlockView)
    requires
        b.block_type == "tool_result"@,
    ensures
        b.tool_result matches Some(t) ==> made_of(
            block_text(b),
            seq![indented(shortened(t, 2000))],
            if b.is_error == Some(true) {
                26
            } else {
                18
            },
        ),
        b.tool_result is None ==> block_text(b).len() == if b.is_error == Some(true) {
            25int
        } else {
            17int
        },
        b.is_error == Some(true) ==> occurs(" (error)"@, block_text(b)),
{
    lemma_block_types();
    reveal_strlit("  ⮐ tool_result:\n");
    reveal_strlit("  ⮐ tool_result (error):\n");
    if b.is_error == Some(true) {
        reveal_strlit(" (error)");
        assert(" (error)"@.is_prefix_of(block_text(b).skip(15))) by {
            assert(block_text(b).skip(15).take(8) =~= " (error)"@);
        }
        if let Some(t) = b.tool_result {
            let x = indented(shortened(t, 2000));
            reveal_strlit("  ⮐ tool_result (error):\n");
            let w0 = "  ⮐ tool_result (error):\n"@;
            lemma_made_own(w0);
            lemma_made_next(w0, Seq::<Seq<char>>::empty(), 25, x);
            let w1 = w0 + x;
            let wp1 = Seq::<Seq<char>>::empty().push(x);
            reveal_strlit("\n");
            lemma_made_more(w1, wp1, 25, "\n"@);
            let w2 = w1 + "\n"@;
            assert(wp1 =~= seq![x]);
            assert(block_text(b) =~= w2);
        }
    } else if let Some(t) = b.tool_result {
        let x = indented(shortened(t, 2000));
        reveal_strlit("  ⮐ tool_result:\n");
        let w0 = "  ⮐ tool_result:\n"@;
        lemma_made_own(w0);
        lemma_made_next(w0, Seq::<Seq<char>>::empty(), 17, x);
        let w1 = w0 + x;
        let wp1 = Seq::<Seq<char>>::empty().push(x);
        reveal_strlit("\n");
        lemma_made_more(w1, wp1, 17, "\n"@);
        let w2 = w1 + "\n"@;
        assert(wp1 =~= seq![x]);
        assert(block_text(b) =~= w2);
    }
}

/// A call of a tool is shown with the name of the tool and what it is given, on one line.
pub proof fn law_tool_calls_are_shown(b: BlockView)
    requires
        b.block_type == "tool_use"@,
    ensures
        made_of(
            block_text(b),
            seq![or_empty(b.tool_name), shortened(or_empty(b.tool_input), 300)],
            16,
        ),
{
    lemma_block_types();
    let x = or_empty(b.tool_name);
    let y = shortened(or_empty(b.tool_input), 300);
    reveal_strlit("  ⚙ tool_use: ");
    let w0 = "  ⚙ tool_use: "@;
    lemma_made_own(w0);
    lemma_made_next(w0, Seq::<Seq<char>>::empty(), 14, x);
    let w1 = w0 + x;
    let wp1 = Seq::<Seq<char>>::empty().push(x);
    reveal_strlit(" ");
    lemma_made_more(w1, wp1, 14, " "@);
    let w2 = w1 + " "@;
    lemma_made_next(w2, wp1, 15, y);
    let w3 = w2 + y;
    let wp3 = wp1.push(y);
    reveal_strlit("\n");
    lemma_made_more(w3, wp3, 15, "\n"@);
    let w4 = w3 + "\n"@;
    assert(wp3 =~= seq![x, y]);
}

/// A block of any other type is shown with its type and its text, on one line.
pub proof fn law_other_blocks_are_shown(b: BlockView)
    requires
        b.block_type != "text"@,
        b.block_type != "thinking"@,
        b.block_type != "tool_use"@,
        b.block_type != "tool_result"@,
    ensures
        made_of(block_text(b), seq![b.block_type, shortened(or_empty(b.text), 300)], 6),
{
    let x = b.block_type;
    let y = shortened(or_empty(b.text), 300);
    reveal_strlit("  [");
    let w0 = "  ["@;
    lemma_made_own(w0);
    lemma_made_next(w0, Seq::<Seq<char>>::empty(), 3, x);
    let w1 = w0 + x;
    let wp1 = Seq::<Seq<char>>::empty().push(x);
    reveal_strlit("] ");
    lemma_made_more(w1, wp1, 3, "] "@);
    let w2 = w1 + "] "@;
    lemma_made_next(w2, wp1, 5, y);
    let w3 = w2 + y;
    let wp3 = wp1.push(y);
    reveal_strlit("\n");
    lemma_made_more(w3, wp3, 5, "\n"@);
    let w4 = w3 + "\n"@;
    assert(wp3 =~= seq![x, y]);
}

/// Every queued message of a record is shown, in order: one more is shown behind the others.
pub proof fn law_every_queued_message_is_shown(rows: Seq<Queued>, q: Queued, when: Seq<char>)
    ensures
        all_queued_text(rows.push(q), when) == all_queued_text(rows, when) + queued_text(q, when),
        all_queued_text(Seq::empty(), when).len() == 0,
{
    let all = rows.map_values(|q: Queued| queued_text(q, when));
    assert(rows.push(q).map_values(|q: Queued| queued_text(q, when)) =~= all.push(
        queued_text(q, when),
    ));
    law_gluing_goes_on(all, queued_text(q, when));
    assert(Seq::<Queued>::empty().map_values(|q: Queued| queued_text(q, when)) =~= Seq::<
        Seq<char>,
    >::empty());
}

/// A queued message is shown with its operation and its time, and its text behind them on one line.
pub proof fn law_queued_messages_say_it_all(q: Queued, when: Seq<char>)
    ensures
        match opt_text(q.text) {
            Some(t) => made_of(
                queued_text(q, when),
                seq![or_empty(opt_text(q.operation)), when, indented(shortened(t, 4000))],
                16,
            ),
            None => made_of(
                queued_text(q, when),
                seq![or_empty(opt_text(q.operation)), when],
                15,
            ),
        },
{
    let x = or_empty(opt_text(q.operation));
    reveal_strlit("⏳ QUEUED (");
    let w0 = "⏳ QUEUED ("@;
    lemma_made_own(w0);
    lemma_made_next(w0, Seq::<Seq<char>>::empty(), 10, x);
    let w1 = w0 + x;
    let wp1 = Seq::<Seq<char>>::empty().push(x);
    reveal_strlit(")  ");
    lemma_made_more(w1, wp1, 10, ")  "@);
    let w2 = w1 + ")  "@;
    lemma_made_next(w2, wp1, 13, when);
    let w3 = w2 + when;
    let wp3 = wp1.push(when);
    reveal_strlit("\n");
    lemma_made_more(w3, wp3, 13, "\n"@);
    let w4 = w3 + "\n"@;
    match opt_text(q.text) {
        Some(t) => {
            let y = indented(shortened(t, 4000));
            lemma_made_next(w4, wp3, 14, y);
            lemma_made_more(w4 + y, wp3.push(y), 14, "\n"@);
            lemma_made_more(w4 + y + "\n"@, wp3.push(y), 15, "\n"@);
            assert(wp3.push(y) =~= seq![x, when, y]);
            assert(queued_text(q, when) =~= w4 + y + "\n"@ + "\n"@);
        },
        None => {
            lemma_made_more(w4, wp3, 14, "\n"@);
            assert(wp3 =~= seq![x, when]);
            assert(queued_text(q, when) =~= w4 + "\n"@);
        },
    }
}

/// An event is shown with its type, its time and its summary, in order.
pub proof fn law_events_say_it_all(etype: Seq<char>, when: Seq<char>, summary: Option<Seq<char>>)
    ensures
        made_of(
            event_line(etype, when, summary),
            seq![etype, when, shortened(or_empty(summary), 160)],
            6,
        ),
{
    let x = shortened(or_empty(summary), 160);
    reveal_strlit("· ");
    let w0 = "· "@;
    lemma_made_own(w0);
    lemma_made_next(w0, Seq::<Seq<char>>::empty(), 2, etype);
    let w1 = w0 + etype;
    let wp1 = Seq::<Seq<char>>::empty().push(etype);
    reveal_strlit(" ");
    lemma_made_more(w1, wp1, 2, " "@);
    let w2 = w1 + " "@;
    lemma_made_next(w2, wp1, 3, when);
    let w3 = w2 + when;
    let wp3 = wp1.push(when);
    reveal_strlit("  ");
    lemma_made_more(w3, wp3, 3, "  "@);
    let w4 = w3 + "  "@;
    lemma_made_next(w4, wp3, 5, x);
    let w5 = w4 + x;
    let wp5 = wp3.push(x);
    reveal_strlit("\n");
    lemma_made_more(w5, wp5, 5, "\n"@);
    let w6 = w5 + "\n"@;
    assert(wp5 =~= seq![etype, when, x]);
}

/// Above a transcript stand its title, its id, its project and its branch, in order.
pub proof fn law_headings_say_it_all(h: Heading)
    ensures
        made_of(
            heading_text(h),
            seq![
                h.title@,
                h.session_id@,
                or_empty(opt_text(h.project)),
                branch_tag(opt_text(h.branch)),
            ],
            23,
        ),
{
    let x = h.title@;
    let y = h.session_id@;
    let z = or_empty(opt_text(h.project));
    let u = branch_tag(opt_text(h.branch));
    reveal_strlit("═══ ");
    let w0 = "═══ "@;
    lemma_made_own(w0);
    lemma_made_next(w0, Seq::<Seq<char>>::empty(), 4, x);
    let w1 = w0 + x;
    let wp1 = Seq::<Seq<char>>::empty().push(x);
    reveal_strlit(" ═══\nsession ");
    lemma_made_more(w1, wp1, 4, " ═══\nsession "@);
    let w2 = w1 + " ═══\nsession "@;
    lemma_made_next(w2, wp1, 17, y);
    let w3 = w2 + y;
    let wp3 = wp1.push(y);
    reveal_strlit("  [");
    lemma_made_more(w3, wp3, 17, "  ["@);
    let w4 = w3 + "  ["@;
    lemma_made_next(w4, wp3, 20, z);
    let w5 = w4 + z;
    let wp5 = wp3.push(z);
    reveal_strlit("]");
    lemma_made_more(w5, wp5, 20, "]"@);
    let w6 = w5 + "]"@;
    lemma_made_next(w6, wp5, 21, u);
    let w7 = w6 + u;
    let wp7 = wp5.push(u);
    reveal_strlit("\n\n");
    lemma_made_more(w7, wp7, 21, "\n\n"@);
    let w8 = w7 + "\n\n"@;
    assert(wp7 =~= seq![x, y, z, u]);
}

/// A transcript shows every record, once and in order, below its heading: one more record is shown
/// behind the others. A raw transcript has no heading.
pub proof fn law_every_record_is_shown(
    heading: Option<Heading>,
    records: Seq<Shown>,
    s: Shown,
    include_events: bool,
    raw: bool,
)
    ensures
        transcript(heading, records.push(s), include_events, raw) == transcript(
            heading,
            records,
            include_events,
            raw,
        ) + shown_text(s, include_events, raw),
        heading matches Some(h) ==> transcript(heading, Seq::empty(), include_events, false)
            == heading_text(h),
        transcript(heading, Seq::empty(), include_events, true).len() == 0,
        transcript(None, Seq::empty(), include_events, raw).len() == 0,
{
    let f = |s: Shown| shown_text(s, include_events, raw);
    let all = records.map_values(f);
    assert(records.push(s).map_values(f) =~= all.push(shown_text(s, include_events, raw)));
    law_gluing_goes_on(all, shown_text(s, include_events, raw));
    let one = transcript(heading, records, include_events, raw);
    assert(transcript(heading, records.push(s), include_events, raw) =~= one + shown_text(
        s,
        include_events,
        raw,
    ));
    let none = Seq::<Shown>::empty();
    let g = |s: Shown| shown_text(s, include_events, false);
    let k = |s: Shown| shown_text(s, include_events, true);
    assert(none.map_values(f) =~= Seq::<Seq<char>>::empty());
    assert(none.map_values(g) =~= Seq::<Seq<char>>::empty());
    assert(none.map_values(k) =~= Seq::<Seq<char>>::empty());
    if let Some(h) = heading {
        assert(transcript(heading, none, include_events, false) =~= heading_text(h));
    }
}

/// A record is shown raw as its line, and otherwise as a message, as its queued messages, or as an
/// event, with its own time.
pub proof fn law_records_are_shown_by_type(s: Shown, include_events: bool)
    ensures
        shown_text(s, include_events, true) == s.raw_json@.push('\n'),
        s.record_type@ == "user"@ || s.record_type@ == "assistant"@ ==> shown_text(
            s,
            include_events,
            false,
        ) == message_text(
            s.record_type@,
            when_of(opt_text(s.timestamp)),
            opt_text(s.model),
            s.blocks@,
        ),
        s.record_type@ == "queue-operation"@ && s.queued@.len() > 0 ==> shown_text(
            s,
            include_events,
            false,
        ) == all_queued_text(s.queued@, when_of(opt_text(s.timestamp))),
        s.record_type@ != "user"@ && s.record_type@ != "assistant"@ && s.record_type@
            != "queue-operation"@ ==> shown_text(s, include_events, false) == if include_events {
            event_line(s.record_type@, when_of(opt_text(s.timestamp)), opt_text(s.summary))
        } else {
            Seq::empty()
        },
        shape_of(s.record_type@) is Message <==> s.record_type@ == "user"@ || s.record_type@
            == "assistant"@,
        shape_of(s.record_type@) is Queue <==> s.record_type@ == "queue-operation"@,
{
    reveal_strlit("\n");
    reveal_strlit("user");
    reveal_strlit("assistant");
    reveal_strlit("queue-operation");
    assert("user"@.len() == 4 && "assistant"@.len() == 9 && "queue-operation"@.len() == 15);
    assert(s.raw_json@ + "\n"@ =~= s.raw_json@.push('\n'));
}

/// Each table of the counts has a row for each of its entries, in order: one more entry is one more
/// row behind the others.
pub proof fn law_every_count_has_a_row(t: Totals, more: Totals, c: Count)
    ensures
        more.record_types@ == t.record_types@.push(c) ==> part_text(more, Part::RecordTypes)
            == part_text(t, Part::RecordTypes) + count_line(c),
        more.block_types@ == t.block_types@.push(c) ==> part_text(more, Part::BlockTypes)
            == part_text(t, Part::BlockTypes) + count_line(c),
        more.tools@ == t.tools@.push(c) ==> part_text(more, Part::Tools) == part_text(t, Part::Tools)
            + count_line(c),
{
    lemma_count_table_push(t.record_types@, c);
    lemma_count_table_push(t.block_types@, c);
    lemma_count_table_push(t.tools@, c);
    if more.record_types@ == t.record_types@.push(c) {
        assert(part_text(more, Part::RecordTypes) =~= part_text(t, Part::RecordTypes) + count_line(
            c,
        ));
    }
    if more.block_types@ == t.block_types@.push(c) {
        assert(part_text(more, Part::BlockTypes) =~= part_text(t, Part::BlockTypes) + count_line(c));
    }
    if more.tools@ == t.tools@.push(c) {
        assert(part_text(more, Part::Tools) =~= part_text(t, Part::Tools) + count_line(c));
    }
}

proof fn lemma_count_table_push(counts: Seq<Count>, c: Count)
    ensures
        count_table(counts.push(c)) == count_table(counts) + count_line(c),
{
    let all = counts.map_values(|c: Count| count_line(c));
    assert(counts.push(c).map_values(|c: Count| count_line(c)) =~= all.push(count_line(c)));
    law_gluing_goes_on(all, count_line(c));
}

/// A table without entries is its title alone, whatever else is counted.
pub proof fn law_empty_tables_have_no_rows(t: Totals)
    ensures
        t.record_types@.len() == 0 ==> part_text(t, Part::RecordTypes).len() == 15,
        t.block_types@.len() == 0 ==> part_text(t, Part::BlockTypes).len() == 39,
        t.tools@.len() == 0 ==> part_text(t, Part::Tools).len() == 17,
{
    reveal_strlit("\nRecord types:\n");
    reveal_strlit("\nContent block types (clearly marked):\n");
    reveal_strlit("\nTop tools used:\n");
}

/// A row of the counts has the name and the number, in columns.
pub proof fn law_rows_say_name_and_number(c: Count)
    ensures
        made_of(
            count_line(c),
            seq![left_in(c.name@, 24), right_in(decimal(c.count as int), 8)],
            4,
        ),
{
    let x = left_in(c.name@, 24);
    let y = right_in(decimal(c.count as int), 8);
    reveal_strlit("  ");
    let w0 = "  "@;
    lemma_made_own(w0);
    lemma_made_next(w0, Seq::<Seq<char>>::empty(), 2, x);
    let w1 = w0 + x;
    let wp1 = Seq::<Seq<char>>::empty().push(x);
    reveal_strlit(" ");
    lemma_made_more(w1, wp1, 2, " "@);
    let w2 = w1 + " "@;
    lemma_made_next(w2, wp1, 3, y);
    let w3 = w2 + y;
    let wp3 = wp1.push(y);
    reveal_strlit("\n");
    lemma_made_more(w3, wp3, 3, "\n"@);
    let w4 = w3 + "\n"@;
    assert(wp3 =~= seq![x, y]);
}

/// The totals are given in order, and the tokens where they are known.
pub proof fn law_totals_are_given(t: Totals)
    ensures
        made_of(
            part_text(t, Part::Totals),
            seq![decimal(t.sessions as int), decimal(t.records as int), decimal(t.blocks as int)],
            33,
        ),
        t.tokens matches Some(n) ==> made_of(
            part_text(t, Part::Tokens),
            seq![decimal(n as int)],
            25,
        ),
        t.tokens is None ==> part_text(t, Part::Tokens).len() == 0,
{
    let x = decimal(t.sessions as int);
    let y = decimal(t.records as int);
    let z = decimal(t.blocks as int);
    reveal_strlit("Sessions: ");
    let w0 = "Sessions: "@;
    lemma_made_own(w0);
    lemma_made_next(w0, Seq::<Seq<char>>::empty(), 10, x);
    let w1 = w0 + x;
    let wp1 = Seq::<Seq<char>>::empty().push(x);
    reveal_strlit("\nRecords:  ");
    lemma_made_more(w1, wp1, 10, "\nRecords:  "@);
    let w2 = w1 + "\nRecords:  "@;
    lemma_made_next(w2, wp1, 21, y);
    let w3 = w2 + y;
    let wp3 = wp1.push(y);
    reveal_strlit("\nBlocks:   ");
    lemma_made_more(w3, wp3, 21, "\nBlocks:   "@);
    let w4 = w3 + "\nBlocks:   "@;
    lemma_made_next(w4, wp3, 32, z);
    let w5 = w4 + z;
    let wp5 = wp3.push(z);
    reveal_strlit("\n");
    lemma_made_more(w5, wp5, 32, "\n"@);
    let w6 = w5 + "\n"@;
    assert(wp5 =~= seq![x, y, z]);
    if let Some(tokens) = t.tokens {
        let n = decimal(tokens as int);
        reveal_strlit("\nTotal tokens (in+out): ");
        let v0 = "\nTotal tokens (in+out): "@;
        lemma_made_own(v0);
        lemma_made_next(v0, Seq::<Seq<char>>::empty(), 24, n);
        let v1 = v0 + n;
        let vp1 = Seq::<Seq<char>>::empty().push(n);
        reveal_strlit("\n");
        lemma_made_more(v1, vp1, 24, "\n"@);
        let v2 = v1 + "\n"@;
        assert(vp1 =~= seq![n]);
    }
}

/// The counts are all their parts, one behind the other, and nothing else.
pub proof fn law_counts_are_all_their_parts(t: Totals)
    ensures
        stats_text(t) == part_text(t, Part::Totals) + part_text(t, Part::RecordTypes) + part_text(
            t,
            Part::BlockTypes,
        ) + part_text(t, Part::Tools) + part_text(t, Part::Tokens),
{
    let a = part_text(t, Part::Totals);
    let b = part_text(t, Part::RecordTypes);
    let c = part_text(t, Part::BlockTypes);
    let d = part_text(t, Part::Tools);
    let e = part_text(t, Part::Tokens);
    let none = Seq::<Seq<char>>::empty();
    assert(part_order().map_values(|part: Part| part_text(t, part)) =~= none.push(a).push(b).push(
        c,
    ).push(d).push(e));
    law_gluing_goes_on(none, a);
    law_gluing_goes_on(none.push(a), b);
    law_gluing_goes_on(none.push(a).push(b), c);
    law_gluing_goes_on(none.push(a).push(b).push(c), d);
    law_gluing_goes_on(none.push(a).push(b).push(c).push(d), e);
    assert(glued(none) + a =~= a);
}

/// The short form of an id has its first eight bytes, or all of them where they are fewer.
pub proof fn law_short_ids_are_beginnings(id: Seq<char>)
    requires
        can_shorten(id),
    ensures
        encode_utf8(id).len() <= 8 ==> short_of(id) == id,
        encode_utf8(id).len() > 8 ==> encode_utf8(short_of(id)) == encode_utf8(id).take(8),
{
    let bytes = encode_utf8(id);
    let n = short_len(id);
    vstd::utf8::encode_utf8_valid_utf8(id);
    vstd::utf8::encode_utf8_decode_utf8(id);
    if bytes.len() <= 8 {
        assert(bytes.take(n) =~= bytes);
    } else {
        vstd::utf8::valid_utf8_split(bytes, n);
        assert(bytes.subrange(0, n) =~= bytes.take(n));
        vstd::utf8::decode_utf8_encode_utf8(bytes.take(n));
    }
}

} // verus!
