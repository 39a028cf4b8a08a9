//! Which statements bring a database into shape.

use vstd::prelude::*;

use crate::text::{
    lemma_made_more, lemma_made_next, lemma_made_own, made_of, str_eq, texts,
};

verus! {

/// The tables of the database.
pub enum Table {
    SearchIndex,
    ContentBlocks,
    Messages,
    Events,
    Records,
    Sessions,
    Files,
}

/// The name of a table.
pub open spec fn name_of(t: Table) -> Seq<char> {
    match t {
        Table::SearchIndex => "search_index"@,
        Table::ContentBlocks => "content_blocks"@,
        Table::Messages => "messages"@,
        Table::Events => "events"@,
        Table::Records => "records"@,
        Table::Sessions => "sessions"@,
        Table::Files => "files"@,
    }
}

impl Table {
    /// The name of this table.
    pub fn name(&self) -> (r: &'static str)
        ensures
            r@ == name_of(*self),
    {
        match self {
            Table::SearchIndex => "search_index",
            Table::ContentBlocks => "content_blocks",
            Table::Messages => "messages",
            Table::Events => "events",
            Table::Records => "records",
            Table::Sessions => "sessions",
            Table::Files => "files",
        }
    }
}

/// The rows of one table are held to those of another: by a foreign key, or, in the index, by the
/// ids of the blocks.
pub open spec fn refers_to(a: Table, b: Table) -> bool {
    ||| a is ContentBlocks && b is Records
    ||| a is Messages && b is Records
    ||| a is SearchIndex && b is ContentBlocks
}

/// All tables, in the order in which they are dropped.
pub open spec fn drop_order() -> Seq<Table> {
    seq![
        Table::SearchIndex,
        Table::ContentBlocks,
        Table::Messages,
        Table::Events,
        Table::Records,
        Table::Sessions,
        Table::Files,
    ]
}

/// The tables that hold what was imported of a session, in the order in which they are cleared.
pub open spec fn clear_order() -> Seq<Table> {
    seq![
        Table::SearchIndex,
        Table::ContentBlocks,
        Table::Messages,
        Table::Events,
        Table::Records,
    ]
}

/// The statement that drops a table.
pub open spec fn drop_of(t: Table) -> Seq<char> {
    "DROP TABLE IF EXISTS "@ + name_of(t) + ";"@
}

/// The statement that takes the rows of a session out of a table.
///
/// The session of a row of the index is not itself indexed, so those rows are found by the ids of
/// the session's blocks.
pub open spec fn clear_of(t: Table) -> Seq<char> {
    if t is SearchIndex {
        "DELETE FROM search_index WHERE rowid IN (SELECT id FROM content_blocks WHERE session_id = ?1)"@
    } else {
        "DELETE FROM "@ + name_of(t) + " WHERE session_id = ?1"@
    }
}

fn drop_table(t: &Table) -> (r: String)
    ensures
        r@ == drop_of(*t),
{
    let mut r = "DROP TABLE IF EXISTS ".to_owned();
    r.append(t.name());
    r.append(";");
    r
}

fn clear_table(t: &Table) -> (r: String)
    ensures
        r@ == clear_of(*t),
{
    match t {
        Table::SearchIndex => "DELETE FROM search_index WHERE rowid IN (SELECT id FROM content_blocks WHERE session_id = ?1)".to_owned(),
        _ => {
            let mut r = "DELETE FROM ".to_owned();
            r.append(t.name());
            r.append(" WHERE session_id = ?1");
            r
        },
    }
}

/// The statements that drop everything, so that an import starts fresh.
pub fn reset_schema() -> (r: Vec<String>)
    ensures
        texts(r@) == drop_order().map_values(|t: Table| drop_of(t)),
{
    let r = vec![
        drop_table(&Table::SearchIndex),
        drop_table(&Table::ContentBlocks),
        drop_table(&Table::Messages),
        drop_table(&Table::Events),
        drop_table(&Table::Records),
        drop_table(&Table::Sessions),
        drop_table(&Table::Files),
    ];
    assert(texts(r@) =~= drop_order().map_values(|t: Table| drop_of(t)));
    r
}

/// The statements that take out what was imported of a session before.
pub fn clear_session() -> (r: Vec<String>)
    ensures
        texts(r@) == clear_order().map_values(|t: Table| clear_of(t)),
{
    let r = vec![
        clear_table(&Table::SearchIndex),
        clear_table(&Table::ContentBlocks),
        clear_table(&Table::Messages),
        clear_table(&Table::Events),
        clear_table(&Table::Records),
    ];
    assert(texts(r@) =~= clear_order().map_values(|t: Table| clear_of(t)));
    r
}

/// Rows go before the rows that they are held to, both when a session is cleared and when tables
/// are dropped, and nothing is dropped twice.
pub proof fn law_children_go_first(i: int, j: int)
    ensures
        0 <= i < drop_order().len() && 0 <= j < drop_order().len() && refers_to(
            drop_order()[i],
            drop_order()[j],
        ) ==> i < j,
        0 <= i < clear_order().len() && 0 <= j < clear_order().len() && refers_to(
            clear_order()[i],
            clear_order()[j],
        ) ==> i < j,
        0 <= i < j < drop_order().len() ==> drop_order()[i] != drop_order()[j],
{
}

/// A reset leaves no table behind.
pub proof fn law_reset_drops_every_table(t: Table)
    ensures
        drop_order().contains(t),
{
    let order = drop_order();
    let i: int = match t {
        Table::SearchIndex => 0,
        Table::ContentBlocks => 1,
        Table::Messages => 2,
        Table::Events => 3,
        Table::Records => 4,
        Table::Sessions => 5,
        Table::Files => 6,
    };
    assert(order[i] == t);
}

/// A step that brings a database of an older version up to date.
pub enum Change {
    /// The column with the id of the spawning session is added.
    AddParent,
    /// It is filled in from the records that are there.
    FillParent,
    /// It is indexed, unless it is already.
    IndexParent,
}

/// The steps for a table of sessions with these columns. The index needs the column, so it comes
/// last.
pub open spec fn migration(columns: Seq<Seq<char>>) -> Seq<Change> {
    if columns.contains("parent_session_id"@) {
        seq![Change::IndexParent]
    } else {
        seq![Change::AddParent, Change::FillParent, Change::IndexParent]
    }
}

/// The columns after a list of steps.
pub open spec fn columns_after(columns: Seq<Seq<char>>, changes: Seq<Change>) -> Seq<Seq<char>>
    decreases changes.len(),
{
    if changes.len() == 0 {
        columns
    } else {
        let before = columns_after(columns, changes.drop_last());
        if changes.last() is AddParent {
            before.push("parent_session_id"@)
        } else {
            before
        }
    }
}

/// Is there a column of this name?
pub fn has_column(columns: &Vec<String>, column: &str) -> (r: bool)
    ensures
        r == texts(columns@).contains(column@),
{
    let ghost all = texts(columns@);
    for i in 0..columns.len()
        invariant
            all == texts(columns@),
            forall|j: int| 0 <= j < i ==> all[j] != column@,
    {
        if str_eq(columns[i].as_str(), column) {
            assert(all[i as int] == column@);
            return true;
        }
    }
    false
}

/// The steps that bring a table of sessions with these columns up to date.
pub fn migrate(columns: &Vec<String>) -> (r: Vec<Change>)
    ensures
        r@ == migration(texts(columns@)),
{
    if has_column(columns, "parent_session_id") {
        vec![Change::IndexParent]
    } else {
        vec![Change::AddParent, Change::FillParent, Change::IndexParent]
    }
}

/// A database that is up to date stays as it is: after the steps the column is there, and they are
/// not taken a second time.
pub proof fn law_migration_happens_once(columns: Seq<Seq<char>>)
    ensures
        columns_after(columns, migration(columns)).contains("parent_session_id"@),
        migration(columns_after(columns, migration(columns))) == seq![Change::IndexParent],
        columns.contains("parent_session_id"@) ==> columns_after(columns, migration(columns))
            == columns,
{
    let column = "parent_session_id"@;
    reveal_with_fuel(columns_after, 4);
    if columns.contains(column) {
        assert(migration(columns).drop_last() =~= Seq::<Change>::empty());
    } else {
        let all = migration(columns);
        assert(all.drop_last() =~= seq![Change::AddParent, Change::FillParent]);
        assert(all.drop_last().drop_last() =~= seq![Change::AddParent]);
        assert(all.drop_last().drop_last().drop_last() =~= Seq::<Change>::empty());
        let after = columns_after(columns, all);
        assert(after == columns.push(column));
        assert(after[columns.len() as int] == column);
    }
}

/// Statements name the table that they are about, and no two tables have the same name.
pub proof fn law_statements_name_their_tables(t: Table, other: Table)
    ensures
        made_of(drop_of(t), seq![name_of(t)], 22),
        !(t is SearchIndex) ==> made_of(clear_of(t), seq![name_of(t)], 34),
        t != other ==> name_of(t) != name_of(other),
{
    reveal_strlit("DROP TABLE IF EXISTS ");
    reveal_strlit(";");
    reveal_strlit("DELETE FROM ");
    reveal_strlit(" WHERE session_id = ?1");
    reveal_strlit("search_index");
    reveal_strlit("content_blocks");
    reveal_strlit("messages");
    reveal_strlit("events");
    reveal_strlit("records");
    reveal_strlit("sessions");
    reveal_strlit("files");
    assert("search_index"@.len() == 12 && "content_blocks"@.len() == 14 && "messages"@.len() == 8);
    assert("events"@.len() == 6 && "records"@.len() == 7 && "sessions"@.len() == 8);
    assert("files"@.len() == 5);
    assert("messages"@[0] == 'm' && "sessions"@[0] == 's');
    let n = name_of(t);
    let none = Seq::<Seq<char>>::empty();
    assert(none.push(n) =~= seq![n]);
    lemma_made_own("DROP TABLE IF EXISTS "@);
    lemma_made_next("DROP TABLE IF EXISTS "@, none, 21, n);
    lemma_made_more("DROP TABLE IF EXISTS "@ + n, none.push(n), 21, ";"@);
    lemma_made_own("DELETE FROM "@);
    lemma_made_next("DELETE FROM "@, none, 12, n);
    lemma_made_more("DELETE FROM "@ + n, none.push(n), 12, " WHERE session_id = ?1"@);
}

/// All that was imported of a session is cleared: the tables are those with records, messages,
/// events, blocks and the index, and each of them once.
pub proof fn law_clearing_takes_all_that_was_imported(t: Table)
    ensures
        clear_order().contains(t) <==> !(t is Sessions) && !(t is Files),
        clear_order().len() == 5,
{
    let order = clear_order();
    assert(order[0] is SearchIndex && order[1] is ContentBlocks && order[2] is Messages);
    assert(order[3] is Events && order[4] is Records);
    if t is SearchIndex {
        assert(order[0] == t);
    } else if t is ContentBlocks {
        assert(order[1] == t);
    } else if t is Messages {
        assert(order[2] == t);
    } else if t is Events {
        assert(order[3] == t);
    } else if t is Records {
        assert(order[4] == t);
    }
}

} // verus!
