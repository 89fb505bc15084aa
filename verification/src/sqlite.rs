//! The SQLite connection (rusqlite) behind the keystroke store, as Verus sees
//! it: the declared outside types, the names of what the three tables hold,
//! and one trusted wrapper per kind of statement the store runs. Each wrapper
//! takes the SQL text from verified code, requires it to be the statement its
//! contract describes, and states what SQLite does with it.
//!
//! A database file can be written by other connections (the recorder runs
//! while reports are read), so between two statements of one connection its
//! rows may change. Each statement is atomic: it finds the rows as they are
//! when it runs and, when it writes, leaves the rows it found with its own
//! change. The contracts state each result and change over the rows the
//! statement found. Only for a database in the connection's own memory are
//! these the rows the connection's previous statement left.

use vstd::prelude::*;
use vstd::multiset::Multiset;
use rusqlite::Connection;
use crate::db::{
    KeyRow, BigramRow, TrigramRow, SCHEMA_SQL, INSERT_KEYSTROKE_SQL, INSERT_BIGRAM_SQL,
    INSERT_TRIGRAM_SQL, DELETE_KEYSTROKES_SQL, DELETE_BIGRAMS_SQL, DELETE_TRIGRAMS_SQL,
    DELETE_KEYSTROKES_APP_SQL, DELETE_BIGRAMS_APP_SQL, DELETE_TRIGRAMS_APP_SQL, KEYS_SELECT,
    KEYS_GROUP, KEY_MODS_SQL, APPS_SQL, BIGRAMS_SELECT, BIGRAMS_GROUP, TRIGRAMS_SELECT,
    TRIGRAMS_GROUP, FIRST_TS_SQL, grouped_sql, ranked, is_min_ts, raw_rows_view, count_query,
    raw_key_count, raw_key_mods_count, raw_app_count, raw_bigram_count, raw_trigram_count,
    keystrokes_in, keystrokes_outside, bigrams_outside, trigrams_outside,
};
use crate::text::views;
use rusqlite::types::Value;

verus! {

#[verifier::external_type_specification]
#[verifier::external_body]
pub struct ExConnection(rusqlite::Connection);

#[verifier::external_type_specification]
#[verifier::external_body]
pub struct ExSqliteError(rusqlite::Error);

/// The rows of the `keystrokes` table: (ts, key, modifiers, app_class,
/// app_title), as the connection's latest statement left them.
pub uninterp spec fn keystroke_table(conn: Connection) -> Multiset<KeyRow>;

/// The rows of the `bigrams` table:
/// (ts, prev_key, prev_mods, curr_key, curr_mods, app_class).
pub uninterp spec fn bigram_table(conn: Connection) -> Multiset<BigramRow>;

/// The rows of the `trigrams` table: (ts, first_key, first_mods, mid_key,
/// mid_mods, last_key, last_mods, app_class).
pub uninterp spec fn trigram_table(conn: Connection) -> Multiset<TrigramRow>;

/// Whether the connection's database lives in the connection's own memory
/// (`Connection::open_in_memory`): no other connection can reach it, so a
/// statement finds the rows the connection's previous statement left.
pub uninterp spec fn in_memory(conn: Connection) -> bool;

/// The busy timeout of the connection in milliseconds: how long a
/// statement waits for a lock another connection holds before it fails.
pub uninterp spec fn busy_timeout_ms(conn: Connection) -> int;

/// The database file the connection was opened on, as the path given to
/// `Connection::open`.
pub uninterp spec fn database_file(conn: Connection) -> std::path::PathBuf;

/// Whether a statement on a connection can have found the rows `seen`, the
/// connection's own rows being `rows`: exactly those when no other
/// connection can write to its database; any rows otherwise.
pub open spec fn could_see<R>(private: bool, rows: Multiset<R>, seen: Multiset<R>) -> bool {
    private ==> seen == rows
}

/// The three tables are as they were.
pub open spec fn tables_unchanged(a: Connection, b: Connection) -> bool {
    &&& keystroke_table(a) == keystroke_table(b)
    &&& bigram_table(a) == bigram_table(b)
    &&& trigram_table(a) == trigram_table(b)
}

#[verifier::external_type_specification]
#[verifier::external_body]
pub struct ExPathBuf(std::path::PathBuf);

/// `Connection::open` of a database file (created when missing): the
/// connection is on that file. Nothing is stated of the rows: they are
/// whatever the file holds, and other connections may open it too.
#[verifier::external_body]
pub(crate) fn open_path(path: &std::path::PathBuf) -> (r: Result<Connection, rusqlite::Error>)
    ensures
        r matches Ok(c) ==> database_file(c) == *path,
{
    Connection::open(path)
}

/// `Connection::open_in_memory`: a new database in the connection's own
/// memory, which holds no rows (and no tables yet).
#[verifier::external_body]
pub(crate) fn open_in_memory() -> (r: Result<Connection, rusqlite::Error>)
    ensures
        r matches Ok(c) ==> {
            &&& in_memory(c)
            &&& keystroke_table(c) == Multiset::<KeyRow>::empty()
            &&& bigram_table(c) == Multiset::<BigramRow>::empty()
            &&& trigram_table(c) == Multiset::<TrigramRow>::empty()
        },
{
    Connection::open_in_memory()
}

/// `Connection::busy_timeout` with `Duration::from_secs(secs)`: on success
/// the connection's busy timeout is `secs * 1000` milliseconds. It panics on
/// a timeout over `i32::MAX` milliseconds, which `requires` leaves out. It
/// runs no statement, so it touches no row, and the connection stays on its
/// database.
#[verifier::external_body]
pub(crate) fn busy_timeout(conn: &mut Connection, secs: u64) -> (r: Result<(), rusqlite::Error>)
    requires
        secs <= 2_000_000,
    ensures
        r is Ok ==> busy_timeout_ms(*final(conn)) == secs * 1000,
        in_memory(*final(conn)) == in_memory(*old(conn)),
        database_file(*final(conn)) == database_file(*old(conn)),
        tables_unchanged(*old(conn), *final(conn)),
{
    conn.busy_timeout(std::time::Duration::from_secs(secs))
}

/// `Connection::execute_batch` on the store's schema: a journal-mode pragma
/// and `CREATE TABLE/INDEX IF NOT EXISTS` statements, none of which adds,
/// changes or removes a row, nor the busy timeout. Of a database that other
/// connections can write, nothing is stated of the rows afterwards.
#[verifier::external_body]
pub(crate) fn execute_schema(conn: &mut Connection, sql: &str) -> (r: Result<(), rusqlite::Error>)
    requires
        sql@ == SCHEMA_SQL@,
    ensures
        in_memory(*final(conn)) == in_memory(*old(conn)),
        busy_timeout_ms(*final(conn)) == busy_timeout_ms(*old(conn)),
        database_file(*final(conn)) == database_file(*old(conn)),
        in_memory(*old(conn)) ==> tables_unchanged(*old(conn), *final(conn)),
{
    conn.execute_batch(sql)
}

/// The statements the store runs through `Connection::execute`, each with
/// the number of integer and text parameters it binds.
pub open spec fn execute_statement(sql: Seq<char>, ints: nat, texts: nat) -> bool {
    ||| sql == INSERT_KEYSTROKE_SQL@ && ints == 1 && texts == 4
    ||| sql == INSERT_BIGRAM_SQL@ && ints == 1 && texts == 5
    ||| sql == INSERT_TRIGRAM_SQL@ && ints == 1 && texts == 7
    ||| (sql == DELETE_KEYSTROKES_SQL@ || sql == DELETE_BIGRAMS_SQL@ || sql == DELETE_TRIGRAMS_SQL@)
        && ints == 0 && texts == 0
    ||| (sql == DELETE_KEYSTROKES_APP_SQL@ || sql == DELETE_BIGRAMS_APP_SQL@ || sql
        == DELETE_TRIGRAMS_APP_SQL@) && ints == 0 && texts == 1
}

/// What a statement that writes one table leaves in it, `seen` being the
/// rows it found: on success the change, on an error the rows as found.
pub open spec fn written<R>(seen: Multiset<R>, ok: bool, changed: Multiset<R>, after: Multiset<R>) -> bool {
    after == if ok {
        changed
    } else {
        seen
    }
}

/// `Connection::execute` of one of the store's statements, the integers
/// bound first (`?1..`) and the texts after them. The statement finds the
/// rows of its table as they are when it runs (`could_see`) and is atomic: a
/// failed statement changes nothing (SQLite rolls a statement back as a
/// whole). On success an `INSERT` adds the one row of its parameters;
/// `DELETE FROM <table>` empties the table and counts the rows it found;
/// `DELETE FROM <table> WHERE app_class = ?1` removes exactly the rows of
/// that application and counts them. No statement touches another table.
#[verifier::external_body]
pub(crate) fn execute(conn: &mut Connection, sql: &str, ints: &[i64], texts: &[&str]) -> (r: Result<
    usize,
    rusqlite::Error,
>)
    requires
        execute_statement(sql@, ints@.len(), texts@.len()),
    ensures
        in_memory(*final(conn)) == in_memory(*old(conn)),
        sql@ == INSERT_KEYSTROKE_SQL@ ==> {
            &&& exists|k: Multiset<KeyRow>|
                #[trigger] could_see(in_memory(*old(conn)), keystroke_table(*old(conn)), k) && written(
                    k,
                    r is Ok,
                    k.insert((ints@[0], texts@[0]@, texts@[1]@, texts@[2]@, texts@[3]@)),
                    keystroke_table(*final(conn)),
                )
            &&& in_memory(*old(conn)) ==> bigram_table(*final(conn)) == bigram_table(*old(conn))
            &&& in_memory(*old(conn)) ==> trigram_table(*final(conn)) == trigram_table(*old(conn))
        },
        sql@ == INSERT_BIGRAM_SQL@ ==> {
            &&& exists|b: Multiset<BigramRow>|
                #[trigger] could_see(in_memory(*old(conn)), bigram_table(*old(conn)), b) && written(
                    b,
                    r is Ok,
                    b.insert((ints@[0], texts@[0]@, texts@[1]@, texts@[2]@, texts@[3]@, texts@[4]@)),
                    bigram_table(*final(conn)),
                )
            &&& in_memory(*old(conn)) ==> keystroke_table(*final(conn)) == keystroke_table(*old(conn))
            &&& in_memory(*old(conn)) ==> trigram_table(*final(conn)) == trigram_table(*old(conn))
        },
        sql@ == INSERT_TRIGRAM_SQL@ ==> {
            &&& exists|t: Multiset<TrigramRow>|
                #[trigger] could_see(in_memory(*old(conn)), trigram_table(*old(conn)), t) && written(
                    t,
                    r is Ok,
                    t.insert(
                        (
                            ints@[0],
                            texts@[0]@,
                            texts@[1]@,
                            texts@[2]@,
                            texts@[3]@,
                            texts@[4]@,
                            texts@[5]@,
                            texts@[6]@,
                        ),
                    ),
                    trigram_table(*final(conn)),
                )
            &&& in_memory(*old(conn)) ==> keystroke_table(*final(conn)) == keystroke_table(*old(conn))
            &&& in_memory(*old(conn)) ==> bigram_table(*final(conn)) == bigram_table(*old(conn))
        },
        sql@ == DELETE_KEYSTROKES_SQL@ ==> {
            &&& exists|k: Multiset<KeyRow>|
                #[trigger] could_see(in_memory(*old(conn)), keystroke_table(*old(conn)), k) && written(
                    k,
                    r is Ok,
                    Multiset::<KeyRow>::empty(),
                    keystroke_table(*final(conn)),
                ) && (r matches Ok(n) ==> n == k.len())
            &&& in_memory(*old(conn)) ==> bigram_table(*final(conn)) == bigram_table(*old(conn))
            &&& in_memory(*old(conn)) ==> trigram_table(*final(conn)) == trigram_table(*old(conn))
        },
        sql@ == DELETE_BIGRAMS_SQL@ ==> {
            &&& exists|b: Multiset<BigramRow>|
                #[trigger] could_see(in_memory(*old(conn)), bigram_table(*old(conn)), b) && written(
                    b,
                    r is Ok,
                    Multiset::<BigramRow>::empty(),
                    bigram_table(*final(conn)),
                )
            &&& in_memory(*old(conn)) ==> keystroke_table(*final(conn)) == keystroke_table(*old(conn))
            &&& in_memory(*old(conn)) ==> trigram_table(*final(conn)) == trigram_table(*old(conn))
        },
        sql@ == DELETE_TRIGRAMS_SQL@ ==> {
            &&& exists|t: Multiset<TrigramRow>|
                #[trigger] could_see(in_memory(*old(conn)), trigram_table(*old(conn)), t) && written(
                    t,
                    r is Ok,
                    Multiset::<TrigramRow>::empty(),
                    trigram_table(*final(conn)),
                )
            &&& in_memory(*old(conn)) ==> keystroke_table(*final(conn)) == keystroke_table(*old(conn))
            &&& in_memory(*old(conn)) ==> bigram_table(*final(conn)) == bigram_table(*old(conn))
        },
        sql@ == DELETE_KEYSTROKES_APP_SQL@ ==> {
            &&& exists|k: Multiset<KeyRow>|
                #[trigger] could_see(in_memory(*old(conn)), keystroke_table(*old(conn)), k) && written(
                    k,
                    r is Ok,
                    keystrokes_outside(k, texts@[0]@),
                    keystroke_table(*final(conn)),
                ) && (r matches Ok(n) ==> n == keystrokes_in(k, texts@[0]@).len())
            &&& in_memory(*old(conn)) ==> bigram_table(*final(conn)) == bigram_table(*old(conn))
            &&& in_memory(*old(conn)) ==> trigram_table(*final(conn)) == trigram_table(*old(conn))
        },
        sql@ == DELETE_BIGRAMS_APP_SQL@ ==> {
            &&& exists|b: Multiset<BigramRow>|
                #[trigger] could_see(in_memory(*old(conn)), bigram_table(*old(conn)), b) && written(
                    b,
                    r is Ok,
                    bigrams_outside(b, texts@[0]@),
                    bigram_table(*final(conn)),
                )
            &&& in_memory(*old(conn)) ==> keystroke_table(*final(conn)) == keystroke_table(*old(conn))
            &&& in_memory(*old(conn)) ==> trigram_table(*final(conn)) == trigram_table(*old(conn))
        },
        sql@ == DELETE_TRIGRAMS_APP_SQL@ ==> {
            &&& exists|t: Multiset<TrigramRow>|
                #[trigger] could_see(in_memory(*old(conn)), trigram_table(*old(conn)), t) && written(
                    t,
                    r is Ok,
                    trigrams_outside(t, texts@[0]@),
                    trigram_table(*final(conn)),
                )
            &&& in_memory(*old(conn)) ==> keystroke_table(*final(conn)) == keystroke_table(*old(conn))
            &&& in_memory(*old(conn)) ==> bigram_table(*final(conn)) == bigram_table(*old(conn))
        },
{
    let ints = ints.iter().map(|i| Value::Integer(*i));
    let params = ints.chain(texts.iter().map(|t| Value::Text(t.to_string())));
    conn.execute(sql, rusqlite::params_from_iter(params))
}

/// `Connection::prepare` and `Statement::query_map` of one of the store's
/// count queries, the application names bound as text to `?1..?n` and the
/// limit as an integer to `?n+1`, each row read as its `columns` text
/// columns and its count. The query finds the rows of its table as they are
/// when it runs (`could_see`). SQLite groups them (of the named applications
/// when names are given; for the application query, of a non-empty
/// application) by the grouped columns, orders the groups by row count,
/// largest first, and returns at most `limit` of them (all when `limit` is
/// negative). Groups of equal count come in an order left open.
#[verifier::external_body]
pub(crate) fn query_counts(conn: &Connection, sql: &str, names: &[String], limit: i64, columns: usize) -> (r:
    Result<Vec<(Vec<String>, i64)>, rusqlite::Error>)
    requires
        count_query(sql@, names@.len(), columns as nat),
    ensures
        r matches Ok(rows) ==> {
            &&& forall|i: int| 0 <= i < rows@.len() ==> (#[trigger] rows@[i]).0@.len() == columns
            &&& sql@ == grouped_sql(KEYS_SELECT@, KEYS_GROUP@, names@.len()) ==> exists|k: Multiset<KeyRow>|
                #[trigger] could_see(in_memory(*conn), keystroke_table(*conn), k) && ranked(
                    raw_rows_view(rows@),
                    |gs: Seq<Seq<char>>| raw_key_count(k, views(names@), gs),
                    limit as int,
                )
            &&& sql@ == KEY_MODS_SQL@ ==> exists|k: Multiset<KeyRow>|
                #[trigger] could_see(in_memory(*conn), keystroke_table(*conn), k) && ranked(
                    raw_rows_view(rows@),
                    |gs: Seq<Seq<char>>| raw_key_mods_count(k, gs),
                    limit as int,
                )
            &&& sql@ == APPS_SQL@ ==> exists|k: Multiset<KeyRow>|
                #[trigger] could_see(in_memory(*conn), keystroke_table(*conn), k) && ranked(
                    raw_rows_view(rows@),
                    |gs: Seq<Seq<char>>| raw_app_count(k, gs),
                    limit as int,
                )
            &&& sql@ == grouped_sql(BIGRAMS_SELECT@, BIGRAMS_GROUP@, names@.len()) ==> exists|
                b: Multiset<BigramRow>,
            |
                #[trigger] could_see(in_memory(*conn), bigram_table(*conn), b) && ranked(
                    raw_rows_view(rows@),
                    |gs: Seq<Seq<char>>| raw_bigram_count(b, views(names@), gs),
                    limit as int,
                )
            &&& sql@ == grouped_sql(TRIGRAMS_SELECT@, TRIGRAMS_GROUP@, names@.len()) ==> exists|
                t: Multiset<TrigramRow>,
            |
                #[trigger] could_see(in_memory(*conn), trigram_table(*conn), t) && ranked(
                    raw_rows_view(rows@),
                    |gs: Seq<Seq<char>>| raw_trigram_count(t, views(names@), gs),
                    limit as int,
                )
        },
{
    let mut params: Vec<Value> = names.iter().map(|a| Value::Text(a.clone())).collect();
    params.push(Value::Integer(limit));
    let mut stmt = conn.prepare(sql)?;
    let rows = stmt.query_map(rusqlite::params_from_iter(params), |row| {
        let texts: rusqlite::Result<Vec<String>> = (0..columns).map(|i| row.get(i)).collect();
        Ok((texts?, row.get(columns)?))
    })?;
    let out = rows.collect();
    out
}

/// `Connection::query_row` of `SELECT MIN(ts) FROM keystrokes`, read as an
/// optional integer over the rows the query finds: none when there is none
/// (MIN gives NULL), else the smallest timestamp.
#[verifier::external_body]
pub(crate) fn query_first_ts(conn: &Connection, sql: &str) -> (r: Result<Option<i64>, rusqlite::Error>)
    requires
        sql@ == FIRST_TS_SQL@,
    ensures
        r matches Ok(v) ==> exists|k: Multiset<KeyRow>|
            #[trigger] could_see(in_memory(*conn), keystroke_table(*conn), k) && is_min_ts(k, v),
{
    conn.query_row(sql, (), |row| row.get(0))
}

} // verus!
