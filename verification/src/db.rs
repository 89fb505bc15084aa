//! The keystroke store: three SQLite tables (keystrokes, bigrams, trigrams),
//! the statements the recorder and the reports run on them, and their
//! contracts over what the tables hold. Every statement is stated over the
//! rows it finds when it runs (`could_see`): those the store's previous
//! statement left when the store is in memory, any rows when other
//! connections may write to the database file between two statements.

use vstd::prelude::*;
use vstd::multiset::Multiset;
use vstd::string::*;
use rusqlite::Connection;
use crate::text::{decimal, append_usize, append_digits, views};
use crate::sqlite::{
    keystroke_table, bigram_table, trigram_table, in_memory, busy_timeout_ms, database_file, could_see,
    written, open_in_memory,
    open_path, busy_timeout, execute_schema, execute, query_counts, query_first_ts,
};

verus! {

broadcast use vstd::multiset::group_multiset_axioms;

/// A keystroke row: (ts, key, modifiers, app_class, app_title).
pub type KeyRow = (i64, Seq<char>, Seq<char>, Seq<char>, Seq<char>);

/// A bigram row: (ts, prev_key, prev_mods, curr_key, curr_mods, app_class).
pub type BigramRow = (i64, Seq<char>, Seq<char>, Seq<char>, Seq<char>, Seq<char>);

/// A trigram row: (ts, first_key, first_mods, mid_key, mid_mods, last_key,
/// last_mods, app_class).
pub type TrigramRow = (i64, Seq<char>, Seq<char>, Seq<char>, Seq<char>, Seq<char>, Seq<char>, Seq<char>);

pub const SCHEMA_SQL: &'static str = "PRAGMA journal_mode=WAL;
CREATE TABLE IF NOT EXISTS keystrokes (
    id        INTEGER PRIMARY KEY,
    ts        INTEGER NOT NULL,
    key       TEXT    NOT NULL,
    modifiers TEXT    NOT NULL,
    app_class TEXT    NOT NULL,
    app_title TEXT    NOT NULL
);
CREATE INDEX IF NOT EXISTS idx_app ON keystrokes(app_class);
CREATE TABLE IF NOT EXISTS bigrams (
    id        INTEGER PRIMARY KEY,
    ts        INTEGER NOT NULL,
    prev_key  TEXT    NOT NULL,
    prev_mods TEXT    NOT NULL,
    curr_key  TEXT    NOT NULL,
    curr_mods TEXT    NOT NULL,
    app_class TEXT    NOT NULL
);
CREATE INDEX IF NOT EXISTS idx_bigrams_app  ON bigrams(app_class);
CREATE INDEX IF NOT EXISTS idx_bigrams_prev ON bigrams(prev_key);
CREATE INDEX IF NOT EXISTS idx_bigrams_curr ON bigrams(curr_key);
CREATE TABLE IF NOT EXISTS trigrams (
    id         INTEGER PRIMARY KEY,
    ts         INTEGER NOT NULL,
    first_key  TEXT    NOT NULL,
    first_mods TEXT    NOT NULL,
    mid_key    TEXT    NOT NULL,
    mid_mods   TEXT    NOT NULL,
    last_key   TEXT    NOT NULL,
    last_mods  TEXT    NOT NULL,
    app_class  TEXT    NOT NULL
);
CREATE INDEX IF NOT EXISTS idx_trigrams_app ON trigrams(app_class);
";

pub const INSERT_KEYSTROKE_SQL: &'static str =
    "INSERT INTO keystrokes (ts, key, modifiers, app_class, app_title) VALUES (?1, ?2, ?3, ?4, ?5)";

pub const INSERT_BIGRAM_SQL: &'static str =
    "INSERT INTO bigrams (ts, prev_key, prev_mods, curr_key, curr_mods, app_class) VALUES (?1, ?2, ?3, ?4, ?5, ?6)";

pub const INSERT_TRIGRAM_SQL: &'static str =
    "INSERT INTO trigrams (ts, first_key, first_mods, mid_key, mid_mods, last_key, last_mods, app_class) VALUES (?1, ?2, ?3, ?4, ?5, ?6, ?7, ?8)";

pub const DELETE_KEYSTROKES_SQL: &'static str = "DELETE FROM keystrokes";

pub const DELETE_BIGRAMS_SQL: &'static str = "DELETE FROM bigrams";

pub const DELETE_TRIGRAMS_SQL: &'static str = "DELETE FROM trigrams";

pub const DELETE_KEYSTROKES_APP_SQL: &'static str = "DELETE FROM keystrokes WHERE app_class = ?1";

pub const DELETE_BIGRAMS_APP_SQL: &'static str = "DELETE FROM bigrams WHERE app_class = ?1";

pub const DELETE_TRIGRAMS_APP_SQL: &'static str = "DELETE FROM trigrams WHERE app_class = ?1";

pub const KEYS_SELECT: &'static str = "SELECT key, modifiers, app_class, COUNT(*) FROM keystrokes";

pub const KEYS_GROUP: &'static str =
    " GROUP BY key, modifiers, app_class ORDER BY COUNT(*) DESC LIMIT ?";

pub const KEY_MODS_SQL: &'static str =
    "SELECT key, modifiers, COUNT(*) FROM keystrokes GROUP BY key, modifiers ORDER BY COUNT(*) DESC LIMIT ?1";

pub const APPS_SQL: &'static str =
    "SELECT app_class, COUNT(*) FROM keystrokes WHERE app_class != '' GROUP BY app_class ORDER BY COUNT(*) DESC LIMIT ?1";

pub const BIGRAMS_SELECT: &'static str =
    "SELECT prev_key, prev_mods, curr_key, curr_mods, app_class, COUNT(*) FROM bigrams";

pub const BIGRAMS_GROUP: &'static str =
    " GROUP BY prev_key, prev_mods, curr_key, curr_mods, app_class ORDER BY COUNT(*) DESC LIMIT ?";

pub const TRIGRAMS_SELECT: &'static str =
    "SELECT first_key, first_mods, mid_key, mid_mods, last_key, last_mods, app_class, COUNT(*) FROM trigrams";

pub const TRIGRAMS_GROUP: &'static str =
    " GROUP BY first_key, first_mods, mid_key, mid_mods, last_key, last_mods, app_class ORDER BY COUNT(*) DESC LIMIT ?";

pub const WHERE_APP_IN: &'static str = " WHERE app_class IN (";

pub const FIRST_TS_SQL: &'static str = "SELECT MIN(ts) FROM keystrokes";

/// The placeholder `?i`.
pub open spec fn placeholder(i: nat) -> Seq<char> {
    seq!['?'] + decimal(i as int)
}

/// `?1, ?2, ..., ?n`.
pub open spec fn placeholders(n: nat) -> Seq<char>
    decreases n,
{
    if n == 0 {
        Seq::empty()
    } else if n == 1 {
        placeholder(1)
    } else {
        placeholders((n - 1) as nat) + seq![',', ' '] + placeholder(n)
    }
}

/// A grouped count query over `n` application names: the select, then, when
/// there are names, `WHERE app_class IN (?1, .., ?n)`, then the grouping and
/// ordering, and the limit bound to `?n+1`.
pub open spec fn grouped_sql(select: Seq<char>, group: Seq<char>, n: nat) -> Seq<char> {
    select + (if n == 0 {
        Seq::empty()
    } else {
        WHERE_APP_IN@ + placeholders(n) + seq![')']
    }) + group + decimal((n + 1) as int)
}

/// Whether rows of `class` count when filtering by `apps` (no names: all do).
pub open spec fn selected(apps: Seq<Seq<char>>, class: Seq<char>) -> bool {
    apps.len() == 0 || apps.contains(class)
}

/// The value bound to `LIMIT`: the number as an `i64`, or -1 (no limit).
pub open spec fn limit_value(limit: Option<usize>) -> int {
    match limit {
        Some(n) => (n as i64) as int,
        None => -1,
    }
}

/// Whether the group `g` is among the result rows.
pub open spec fn listed<G>(rows: Seq<(G, int)>, g: G) -> bool {
    exists|i: int| 0 <= i < rows.len() && rows[i].0 == g
}

/// What `GROUP BY .. ORDER BY COUNT(*) DESC LIMIT limit` returns, given the
/// number of rows in each group: distinct groups, each with its count (which
/// is positive), largest counts first, at most `limit` rows when `limit` is
/// not negative, and a group is missing only when the limit is reached and
/// its count is no larger than the last one listed.
pub open spec fn ranked<G>(rows: Seq<(G, int)>, count: spec_fn(G) -> nat, limit: int) -> bool {
    &&& forall|i: int| 0 <= i < rows.len() ==> rows[i].1 == count(rows[i].0) && rows[i].1 > 0
    &&& forall|i: int, j: int| 0 <= i < j < rows.len() ==> rows[i].0 != rows[j].0
    &&& forall|i: int, j: int| 0 <= i < j < rows.len() ==> rows[i].1 >= rows[j].1
    &&& limit >= 0 ==> rows.len() <= limit
    &&& forall|g: G|
        #![trigger count(g)]
        count(g) > 0 && !listed(rows, g) ==> {
            &&& limit >= 0
            &&& rows.len() == limit
            &&& rows.len() > 0 ==> count(g) <= rows.last().1
        }
}

/// Number of keystrokes of (key, modifiers, app_class) among the selected applications.
pub open spec fn key_count(t: Multiset<KeyRow>, apps: Seq<Seq<char>>, g: (Seq<char>, Seq<char>, Seq<char>)) -> nat {
    t.filter(|r: KeyRow| r.1 == g.0 && r.2 == g.1 && r.3 == g.2 && selected(apps, r.3)).len()
}

/// Number of keystrokes of (key, modifiers), over all applications.
pub open spec fn key_mods_count(t: Multiset<KeyRow>, g: (Seq<char>, Seq<char>)) -> nat {
    t.filter(|r: KeyRow| r.1 == g.0 && r.2 == g.1).len()
}

/// Number of keystrokes in the application `class`; the empty class is not counted.
pub open spec fn app_count(t: Multiset<KeyRow>, class: Seq<char>) -> nat {
    if class.len() == 0 {
        0
    } else {
        t.filter(|r: KeyRow| r.3 == class).len()
    }
}

/// Number of bigrams equal to `g` (prev_key, prev_mods, curr_key, curr_mods,
/// app_class) among the selected applications.
pub open spec fn bigram_count(
    t: Multiset<BigramRow>,
    apps: Seq<Seq<char>>,
    g: (Seq<char>, Seq<char>, Seq<char>, Seq<char>, Seq<char>),
) -> nat {
    t.filter(
        |r: BigramRow|
            r.1 == g.0 && r.2 == g.1 && r.3 == g.2 && r.4 == g.3 && r.5 == g.4 && selected(apps, r.5),
    ).len()
}

/// Number of trigrams equal to `g` (first_key, first_mods, mid_key, mid_mods,
/// last_key, last_mods, app_class) among the selected applications.
pub open spec fn trigram_count(
    t: Multiset<TrigramRow>,
    apps: Seq<Seq<char>>,
    g: (Seq<char>, Seq<char>, Seq<char>, Seq<char>, Seq<char>, Seq<char>, Seq<char>),
) -> nat {
    t.filter(
        |r: TrigramRow|
            r.1 == g.0 && r.2 == g.1 && r.3 == g.2 && r.4 == g.3 && r.5 == g.4 && r.6 == g.5
                && r.7 == g.6 && selected(apps, r.7),
    ).len()
}

/// Result rows of the key query as (group, count).
pub open spec fn key_rows_view(rows: Seq<(String, String, String, i64)>) -> Seq<((Seq<char>, Seq<char>, Seq<char>), int)> {
    rows.map_values(|r: (String, String, String, i64)| ((r.0@, r.1@, r.2@), r.3 as int))
}

/// Result rows of the global key query as (group, count).
pub open spec fn key_mods_rows_view(rows: Seq<(String, String, i64)>) -> Seq<((Seq<char>, Seq<char>), int)> {
    rows.map_values(|r: (String, String, i64)| ((r.0@, r.1@), r.2 as int))
}

/// Result rows of the application query as (class, count).
pub open spec fn app_rows_view(rows: Seq<(String, i64)>) -> Seq<(Seq<char>, int)> {
    rows.map_values(|r: (String, i64)| (r.0@, r.1 as int))
}

/// Result rows of the bigram query as (group, count).
pub open spec fn bigram_rows_view(rows: Seq<(String, String, String, String, String, i64)>) -> Seq<
    ((Seq<char>, Seq<char>, Seq<char>, Seq<char>, Seq<char>), int),
> {
    rows.map_values(
        |r: (String, String, String, String, String, i64)| ((r.0@, r.1@, r.2@, r.3@, r.4@), r.5 as int),
    )
}

/// Result rows of the trigram query as (group, count).
pub open spec fn trigram_rows_view(rows: Seq<(String, String, String, String, String, String, String, i64)>) -> Seq<
    ((Seq<char>, Seq<char>, Seq<char>, Seq<char>, Seq<char>, Seq<char>, Seq<char>), int),
> {
    rows.map_values(
        |r: (String, String, String, String, String, String, String, i64)|
            ((r.0@, r.1@, r.2@, r.3@, r.4@, r.5@, r.6@), r.7 as int),
    )
}

/// `MIN(ts)`: none for no rows, else the smallest timestamp.
pub open spec fn is_min_ts(t: Multiset<KeyRow>, v: Option<i64>) -> bool {
    match v {
        None => t.len() == 0,
        Some(m) => {
            &&& exists|r: KeyRow| t.contains(r) && r.0 == m
            &&& forall|r: KeyRow| t.contains(r) ==> m <= r.0
        },
    }
}

/// A result row as read: the views of its text columns, and its count.
pub open spec fn raw_rows_view(rows: Seq<(Vec<String>, i64)>) -> Seq<(Seq<Seq<char>>, int)> {
    rows.map_values(|r: (Vec<String>, i64)| (views(r.0@), r.1 as int))
}

/// The count queries the store runs, each with the number of application
/// names it binds and the number of text columns it reads.
pub open spec fn count_query(sql: Seq<char>, names: nat, columns: nat) -> bool {
    ||| sql == grouped_sql(KEYS_SELECT@, KEYS_GROUP@, names) && columns == 3
    ||| sql == KEY_MODS_SQL@ && names == 0 && columns == 2
    ||| sql == APPS_SQL@ && names == 0 && columns == 1
    ||| sql == grouped_sql(BIGRAMS_SELECT@, BIGRAMS_GROUP@, names) && columns == 5
    ||| sql == grouped_sql(TRIGRAMS_SELECT@, TRIGRAMS_GROUP@, names) && columns == 7
}

/// `key_count` of a group read as three texts; nothing for another shape.
pub open spec fn raw_key_count(t: Multiset<KeyRow>, apps: Seq<Seq<char>>, gs: Seq<Seq<char>>) -> nat {
    if gs.len() == 3 {
        key_count(t, apps, (gs[0], gs[1], gs[2]))
    } else {
        0
    }
}

/// `key_mods_count` of a group read as two texts; nothing for another shape.
pub open spec fn raw_key_mods_count(t: Multiset<KeyRow>, gs: Seq<Seq<char>>) -> nat {
    if gs.len() == 2 {
        key_mods_count(t, (gs[0], gs[1]))
    } else {
        0
    }
}

/// `app_count` of a group read as one text; nothing for another shape.
pub open spec fn raw_app_count(t: Multiset<KeyRow>, gs: Seq<Seq<char>>) -> nat {
    if gs.len() == 1 {
        app_count(t, gs[0])
    } else {
        0
    }
}

/// `bigram_count` of a group read as five texts; nothing for another shape.
pub open spec fn raw_bigram_count(t: Multiset<BigramRow>, apps: Seq<Seq<char>>, gs: Seq<Seq<char>>) -> nat {
    if gs.len() == 5 {
        bigram_count(t, apps, (gs[0], gs[1], gs[2], gs[3], gs[4]))
    } else {
        0
    }
}

/// `trigram_count` of a group read as seven texts; nothing for another shape.
pub open spec fn raw_trigram_count(t: Multiset<TrigramRow>, apps: Seq<Seq<char>>, gs: Seq<Seq<char>>) -> nat {
    if gs.len() == 7 {
        trigram_count(t, apps, (gs[0], gs[1], gs[2], gs[3], gs[4], gs[5], gs[6]))
    } else {
        0
    }
}

/// A ranked result stays ranked when its groups are written another way,
/// one for one.
proof fn lemma_ranked_regroup<G, H>(
    rows1: Seq<(G, int)>,
    c1: spec_fn(G) -> nat,
    rows2: Seq<(H, int)>,
    c2: spec_fn(H) -> nat,
    to_h: spec_fn(G) -> H,
    to_g: spec_fn(H) -> G,
    limit: int,
)
    requires
        ranked(rows1, c1, limit),
        rows2.len() == rows1.len(),
        forall|i: int| 0 <= i < rows1.len() ==> #[trigger] rows2[i] == (to_h(rows1[i].0), rows1[i].1),
        forall|g: G| #[trigger] c1(g) > 0 ==> to_g(to_h(g)) == g,
        forall|h: H| #[trigger] c2(h) == c1(to_g(h)),
        forall|h: H| #[trigger] to_h(to_g(h)) == h,
    ensures
        ranked(rows2, c2, limit),
{
    assert forall|i: int| 0 <= i < rows2.len() implies rows2[i].1 == c2(rows2[i].0) && rows2[i].1 > 0 by {
        let g = rows1[i].0;
        assert(c1(g) > 0);
        assert(c2(to_h(g)) == c1(to_g(to_h(g))));
    }
    assert forall|i: int, j: int| 0 <= i < j < rows2.len() implies rows2[i].0 != rows2[j].0 by {
        let gi = rows1[i].0;
        let gj = rows1[j].0;
        assert(c1(gi) > 0 && c1(gj) > 0);
        assert(to_g(to_h(gi)) == gi && to_g(to_h(gj)) == gj);
        assert(rows2[i] == (to_h(gi), rows1[i].1));
        assert(rows2[j] == (to_h(gj), rows1[j].1));
    }
    assert forall|i: int, j: int| 0 <= i < j < rows2.len() implies rows2[i].1 >= rows2[j].1 by {
        assert(rows2[i] == (to_h(rows1[i].0), rows1[i].1));
        assert(rows2[j] == (to_h(rows1[j].0), rows1[j].1));
    }
    assert forall|h: H| #![trigger c2(h)] c2(h) > 0 && !listed(rows2, h) implies {
        &&& limit >= 0
        &&& rows2.len() == limit
        &&& rows2.len() > 0 ==> c2(h) <= rows2.last().1
    } by {
        let g = to_g(h);
        assert(c1(g) > 0);
        if listed(rows1, g) {
            let i = choose|i: int| 0 <= i < rows1.len() && rows1[i].0 == g;
            assert(rows2[i] == (to_h(g), rows1[i].1));
            assert(rows2[i].0 == h);
        }
        if rows2.len() > 0 {
            assert(rows2[rows2.len() - 1] == (to_h(rows1[rows1.len() - 1].0), rows1[rows1.len() - 1].1));
        }
    }
}

/// Builds the text of a grouped count query over `n` application names.
fn grouped_query(select: &str, group: &str, n: usize) -> (s: String)
    ensures
        s@ == grouped_sql(select@, group@, n as nat),
{
    let mut s = String::from_str(select);
    if n > 0 {
        s.append(WHERE_APP_IN);
        let ghost before = s@;
        let mut i: usize = 0;
        while i < n
            invariant
                i <= n,
                s@ == before + placeholders(i as nat),
            decreases n - i,
        {
            proof {
                reveal_strlit("?");
                reveal_strlit(", ");
            }
            if i > 0 {
                s.append(", ");
            }
            s.append("?");
            append_usize(&mut s, i + 1);
            assert(s@ =~= before + placeholders((i + 1) as nat));
            i = i + 1;
        }
        proof {
            reveal_strlit(")");
        }
        s.append(")");
    }
    s.append(group);
    append_digits(&mut s, n as u128 + 1);
    proof {
        if n > 0 {
            assert(s@ =~= grouped_sql(select@, group@, n as nat));
        } else {
            assert(s@ =~= grouped_sql(select@, group@, n as nat));
        }
    }
    s
}

/// The value bound to `LIMIT`.
fn limit_param(limit: Option<usize>) -> (v: i64)
    ensures
        v as int == limit_value(limit),
{
    match limit {
        Some(n) => n as i64,
        None => -1,
    }
}

/// Key rows from rows read with three text columns.
fn key_tuples(raw: &Vec<(Vec<String>, i64)>) -> (rows: Vec<(String, String, String, i64)>)
    requires
        forall|i: int| 0 <= i < raw@.len() ==> (#[trigger] raw@[i]).0@.len() == 3,
    ensures
        rows@.len() == raw@.len(),
        forall|i: int|
            0 <= i < raw@.len() ==> #[trigger] key_rows_view(rows@)[i] == (
                (raw@[i].0@[0]@, raw@[i].0@[1]@, raw@[i].0@[2]@),
                raw@[i].1 as int,
            ),
{
    let mut rows: Vec<(String, String, String, i64)> = Vec::new();
    let mut i: usize = 0;
    while i < raw.len()
        invariant
            i <= raw@.len(),
            rows@.len() == i,
            forall|j: int| 0 <= j < raw@.len() ==> (#[trigger] raw@[j]).0@.len() == 3,
            forall|j: int|
                0 <= j < i ==> (#[trigger] rows@[j]).0@ == raw@[j].0@[0]@ && rows@[j].1@ == raw@[j].0@[1]@ && rows@[j].2@ == raw@[j].0@[2]@ && rows@[j].3 == raw@[j].1,
        decreases raw@.len() - i,
    {
        let t = &raw[i].0;
        rows.push((t[0].clone(), t[1].clone(), t[2].clone(), raw[i].1));
        i = i + 1;
    }
    rows
}

/// (key, modifiers) rows from rows read with two text columns.
fn key_mods_tuples(raw: &Vec<(Vec<String>, i64)>) -> (rows: Vec<(String, String, i64)>)
    requires
        forall|i: int| 0 <= i < raw@.len() ==> (#[trigger] raw@[i]).0@.len() == 2,
    ensures
        rows@.len() == raw@.len(),
        forall|i: int|
            0 <= i < raw@.len() ==> #[trigger] key_mods_rows_view(rows@)[i] == (
                (raw@[i].0@[0]@, raw@[i].0@[1]@),
                raw@[i].1 as int,
            ),
{
    let mut rows: Vec<(String, String, i64)> = Vec::new();
    let mut i: usize = 0;
    while i < raw.len()
        invariant
            i <= raw@.len(),
            rows@.len() == i,
            forall|j: int| 0 <= j < raw@.len() ==> (#[trigger] raw@[j]).0@.len() == 2,
            forall|j: int|
                0 <= j < i ==> (#[trigger] rows@[j]).0@ == raw@[j].0@[0]@ && rows@[j].1@ == raw@[j].0@[1]@ && rows@[j].2 == raw@[j].1,
        decreases raw@.len() - i,
    {
        let t = &raw[i].0;
        rows.push((t[0].clone(), t[1].clone(), raw[i].1));
        i = i + 1;
    }
    rows
}

/// Application rows from rows read with one text column.
fn app_tuples(raw: &Vec<(Vec<String>, i64)>) -> (rows: Vec<(String, i64)>)
    requires
        forall|i: int| 0 <= i < raw@.len() ==> (#[trigger] raw@[i]).0@.len() == 1,
    ensures
        rows@.len() == raw@.len(),
        forall|i: int|
            0 <= i < raw@.len() ==> #[trigger] app_rows_view(rows@)[i] == (raw@[i].0@[0]@, raw@[i].1 as int),
{
    let mut rows: Vec<(String, i64)> = Vec::new();
    let mut i: usize = 0;
    while i < raw.len()
        invariant
            i <= raw@.len(),
            rows@.len() == i,
            forall|j: int| 0 <= j < raw@.len() ==> (#[trigger] raw@[j]).0@.len() == 1,
            forall|j: int| 0 <= j < i ==> (#[trigger] rows@[j]).0@ == raw@[j].0@[0]@ && rows@[j].1 == raw@[j].1,
        decreases raw@.len() - i,
    {
        let t = &raw[i].0;
        rows.push((t[0].clone(), raw[i].1));
        i = i + 1;
    }
    rows
}

/// Bigram rows from rows read with five text columns.
fn bigram_tuples(raw: &Vec<(Vec<String>, i64)>) -> (rows: Vec<(String, String, String, String, String, i64)>)
    requires
        forall|i: int| 0 <= i < raw@.len() ==> (#[trigger] raw@[i]).0@.len() == 5,
    ensures
        rows@.len() == raw@.len(),
        forall|i: int|
            0 <= i < raw@.len() ==> #[trigger] bigram_rows_view(rows@)[i] == (
                (raw@[i].0@[0]@, raw@[i].0@[1]@, raw@[i].0@[2]@, raw@[i].0@[3]@, raw@[i].0@[4]@),
                raw@[i].1 as int,
            ),
{
    let mut rows: Vec<(String, String, String, String, String, i64)> = Vec::new();
    let mut i: usize = 0;
    while i < raw.len()
        invariant
            i <= raw@.len(),
            rows@.len() == i,
            forall|j: int| 0 <= j < raw@.len() ==> (#[trigger] raw@[j]).0@.len() == 5,
            forall|j: int|
                0 <= j < i ==> (#[trigger] rows@[j]).0@ == raw@[j].0@[0]@ && rows@[j].1@ == raw@[j].0@[1]@ && rows@[j].2@ == raw@[j].0@[2]@ && rows@[j].3@ == raw@[j].0@[3]@ && rows@[j].4@ == raw@[j].0@[4]@ && rows@[j].5 == raw@[j].1,
        decreases raw@.len() - i,
    {
        let t = &raw[i].0;
        rows.push((t[0].clone(), t[1].clone(), t[2].clone(), t[3].clone(), t[4].clone(), raw[i].1));
        i = i + 1;
    }
    rows
}

/// Trigram rows from rows read with seven text columns.
fn trigram_tuples(raw: &Vec<(Vec<String>, i64)>) -> (rows: Vec<(String, String, String, String, String, String, String, i64)>)
    requires
        forall|i: int| 0 <= i < raw@.len() ==> (#[trigger] raw@[i]).0@.len() == 7,
    ensures
        rows@.len() == raw@.len(),
        forall|i: int|
            0 <= i < raw@.len() ==> #[trigger] trigram_rows_view(rows@)[i] == (
                (
                    raw@[i].0@[0]@,
                    raw@[i].0@[1]@,
                    raw@[i].0@[2]@,
                    raw@[i].0@[3]@,
                    raw@[i].0@[4]@,
                    raw@[i].0@[5]@,
                    raw@[i].0@[6]@,
                ),
                raw@[i].1 as int,
            ),
{
    let mut rows: Vec<(String, String, String, String, String, String, String, i64)> = Vec::new();
    let mut i: usize = 0;
    while i < raw.len()
        invariant
            i <= raw@.len(),
            rows@.len() == i,
            forall|j: int| 0 <= j < raw@.len() ==> (#[trigger] raw@[j]).0@.len() == 7,
            forall|j: int|
                0 <= j < i ==> (#[trigger] rows@[j]).0@ == raw@[j].0@[0]@ && rows@[j].1@ == raw@[j].0@[1]@ && rows@[j].2@ == raw@[j].0@[2]@ && rows@[j].3@ == raw@[j].0@[3]@ && rows@[j].4@ == raw@[j].0@[4]@ && rows@[j].5@ == raw@[j].0@[5]@ && rows@[j].6@ == raw@[j].0@[6]@ && rows@[j].7 == raw@[j].1,
        decreases raw@.len() - i,
    {
        let t = &raw[i].0;
        rows.push(
            (
                t[0].clone(),
                t[1].clone(),
                t[2].clone(),
                t[3].clone(),
                t[4].clone(),
                t[5].clone(),
                t[6].clone(),
                raw[i].1,
            ),
        );
        i = i + 1;
    }
    rows
}

/// The error of a failed statement.
#[derive(Debug)]
pub struct DbError {
    pub source: rusqlite::Error,
}

/// The keystroke store.
pub struct Db {
    conn: Connection,
}

impl Db {
    /// The rows of the keystroke table as the store's latest statement left
    /// them; for a store in memory, the rows it holds.
    pub closed spec fn keystrokes(&self) -> Multiset<KeyRow> {
        keystroke_table(self.conn)
    }

    /// The rows of the bigram table as the store's latest statement left
    /// them; for a store in memory, the rows it holds.
    pub closed spec fn bigrams(&self) -> Multiset<BigramRow> {
        bigram_table(self.conn)
    }

    /// The rows of the trigram table as the store's latest statement left
    /// them; for a store in memory, the rows it holds.
    pub closed spec fn trigrams(&self) -> Multiset<TrigramRow> {
        trigram_table(self.conn)
    }

    /// How long, in milliseconds, a statement of the store waits for a lock
    /// that another connection holds before it fails.
    pub closed spec fn busy_timeout_ms(&self) -> int {
        busy_timeout_ms(self.conn)
    }

    /// The database file the store was opened on.
    pub closed spec fn file(&self) -> std::path::PathBuf {
        database_file(self.conn)
    }

    /// Whether the store lives in its own memory, where no other connection
    /// can change its rows between two of its statements.
    pub closed spec fn in_memory(&self) -> bool {
        in_memory(self.conn)
    }

    /// Sets up the store on an open connection: a busy timeout of five
    /// seconds and the schema, created where it is missing. Rows already
    /// there stay as they are.
    fn from_connection(conn: Connection) -> (r: Result<Db, DbError>)
        ensures
            r matches Ok(db) ==> {
                &&& db.in_memory() == in_memory(conn)
                &&& db.busy_timeout_ms() == 5000
                &&& db.file() == database_file(conn)
                &&& in_memory(conn) ==> {
                    &&& db.keystrokes() == keystroke_table(conn)
                    &&& db.bigrams() == bigram_table(conn)
                    &&& db.trigrams() == trigram_table(conn)
                }
            },
    {
        let mut conn = conn;
        match busy_timeout(&mut conn, 5) {
            Ok(()) => {},
            Err(e) => { return Err(DbError { source: e }); },
        }
        match execute_schema(&mut conn, SCHEMA_SQL) {
            Ok(()) => Ok(Db { conn }),
            Err(e) => Err(DbError { source: e }),
        }
    }

    /// Opens the store in a database file, creating the file and the schema
    /// where they are missing; rows already there stay as they are. A
    /// statement waits up to five seconds for a lock held by another
    /// connection (the recorder and a report may run at once).
    pub fn open(path: &std::path::PathBuf) -> (r: Result<Db, DbError>)
        ensures
            r matches Ok(db) ==> db.file() == *path && db.busy_timeout_ms() == 5000,
    {
        match open_path(path) {
            Ok(conn) => Db::from_connection(conn),
            Err(e) => Err(DbError { source: e }),
        }
    }

    /// A new store in memory, with the schema and no rows.
    pub fn open_in_memory() -> (r: Result<Db, DbError>)
        ensures
            r matches Ok(db) ==> {
                &&& db.in_memory()
                &&& db.busy_timeout_ms() == 5000
                &&& db.keystrokes() == Multiset::<KeyRow>::empty()
                &&& db.bigrams() == Multiset::<BigramRow>::empty()
                &&& db.trigrams() == Multiset::<TrigramRow>::empty()
            },
    {
        match open_in_memory() {
            Ok(conn) => Db::from_connection(conn),
            Err(e) => Err(DbError { source: e }),
        }
    }

    /// Records one keystroke: the keystroke rows the statement found, with
    /// the new one on success.
    pub fn insert(&mut self, ts: i64, key: &str, modifiers: &str, app_class: &str, app_title: &str) -> (r:
        Result<(), DbError>)
        ensures
            final(self).in_memory() == old(self).in_memory(),
            exists|k: Multiset<KeyRow>|
                #[trigger] could_see(old(self).in_memory(), old(self).keystrokes(), k) && written(
                    k,
                    r is Ok,
                    k.insert((ts, key@, modifiers@, app_class@, app_title@)),
                    final(self).keystrokes(),
                ),
            old(self).in_memory() ==> final(self).bigrams() == old(self).bigrams(),
            old(self).in_memory() ==> final(self).trigrams() == old(self).trigrams(),
    {
        let ghost before = *self;
        let res = execute(&mut self.conn, INSERT_KEYSTROKE_SQL, &[ts], &[key, modifiers, app_class, app_title]);
        proof {
            let k = choose|k: Multiset<KeyRow>|
                could_see(in_memory(before.conn), keystroke_table(before.conn), k) && written(
                    k,
                    res is Ok,
                    k.insert((ts, key@, modifiers@, app_class@, app_title@)),
                    keystroke_table(self.conn),
                );
            assert(could_see(before.in_memory(), before.keystrokes(), k));
        }
        match res {
            Ok(_) => Ok(()),
            Err(e) => Err(DbError { source: e }),
        }
    }

    /// Records one bigram: `curr` pressed after `prev` in `app_class`.
    pub fn insert_bigram(
        &mut self,
        ts: i64,
        prev_key: &str,
        prev_mods: &str,
        curr_key: &str,
        curr_mods: &str,
        app_class: &str,
    ) -> (r: Result<(), DbError>)
        ensures
            final(self).in_memory() == old(self).in_memory(),
            exists|b: Multiset<BigramRow>|
                #[trigger] could_see(old(self).in_memory(), old(self).bigrams(), b) && written(
                    b,
                    r is Ok,
                    b.insert((ts, prev_key@, prev_mods@, curr_key@, curr_mods@, app_class@)),
                    final(self).bigrams(),
                ),
            old(self).in_memory() ==> final(self).keystrokes() == old(self).keystrokes(),
            old(self).in_memory() ==> final(self).trigrams() == old(self).trigrams(),
    {
        let ghost before = *self;
        let res = execute(
            &mut self.conn,
            INSERT_BIGRAM_SQL,
            &[ts],
            &[prev_key, prev_mods, curr_key, curr_mods, app_class],
        );
        proof {
            let b = choose|b: Multiset<BigramRow>|
                could_see(in_memory(before.conn), bigram_table(before.conn), b) && written(
                    b,
                    res is Ok,
                    b.insert((ts, prev_key@, prev_mods@, curr_key@, curr_mods@, app_class@)),
                    bigram_table(self.conn),
                );
            assert(could_see(before.in_memory(), before.bigrams(), b));
        }
        match res {
            Ok(_) => Ok(()),
            Err(e) => Err(DbError { source: e }),
        }
    }

    /// Records one trigram: `first`, then `mid`, then `last` in `app_class`.
    pub fn insert_trigram(
        &mut self,
        ts: i64,
        first_key: &str,
        first_mods: &str,
        mid_key: &str,
        mid_mods: &str,
        last_key: &str,
        last_mods: &str,
        app_class: &str,
    ) -> (r: Result<(), DbError>)
        ensures
            final(self).in_memory() == old(self).in_memory(),
            exists|t: Multiset<TrigramRow>|
                #[trigger] could_see(old(self).in_memory(), old(self).trigrams(), t) && written(
                    t,
                    r is Ok,
                    t.insert((ts, first_key@, first_mods@, mid_key@, mid_mods@, last_key@, last_mods@, app_class@)),
                    final(self).trigrams(),
                ),
            old(self).in_memory() ==> final(self).keystrokes() == old(self).keystrokes(),
            old(self).in_memory() ==> final(self).bigrams() == old(self).bigrams(),
    {
        let ghost before = *self;
        let res = execute(
            &mut self.conn,
            INSERT_TRIGRAM_SQL,
            &[ts],
            &[first_key, first_mods, mid_key, mid_mods, last_key, last_mods, app_class],
        );
        proof {
            let t = choose|t: Multiset<TrigramRow>|
                could_see(in_memory(before.conn), trigram_table(before.conn), t) && written(
                    t,
                    res is Ok,
                    t.insert((ts, first_key@, first_mods@, mid_key@, mid_mods@, last_key@, last_mods@, app_class@)),
                    trigram_table(self.conn),
                );
            assert(could_see(before.in_memory(), before.trigrams(), t));
        }
        match res {
            Ok(_) => Ok(()),
            Err(e) => Err(DbError { source: e }),
        }
    }

    /// The most frequent bigrams of the named applications (of all when none
    /// is named), at most `limit` of them.
    pub fn top_bigrams(&self, apps: &[String], limit: Option<usize>) -> (r: Result<
        Vec<(String, String, String, String, String, i64)>,
        DbError,
    >)
        ensures
            r matches Ok(rows) ==> exists|b: Multiset<BigramRow>|
                #[trigger] could_see(self.in_memory(), self.bigrams(), b) && ranked(
                bigram_rows_view(rows@),
                |g: (Seq<char>, Seq<char>, Seq<char>, Seq<char>, Seq<char>)|
                    bigram_count(b, views(apps@), g),
                limit_value(limit),
            ),
    {
        let lim = limit_param(limit);
        let sql = grouped_query(BIGRAMS_SELECT, BIGRAMS_GROUP, apps.len());
        let raw = match query_counts(&self.conn, sql.as_str(), apps, lim, 5) {
            Ok(raw) => raw,
            Err(e) => { return Err(DbError { source: e }); },
        };
        let rows = bigram_tuples(&raw);
        proof {
            let b = choose|b: Multiset<BigramRow>|
                could_see(self.in_memory(), self.bigrams(), b) && ranked(raw_rows_view(raw@), |gs: Seq<Seq<char>>| raw_bigram_count(b, views(apps@), gs), lim as int);
            let c1 = |gs: Seq<Seq<char>>| raw_bigram_count(b, views(apps@), gs);
            let c2 = |g: (Seq<char>, Seq<char>, Seq<char>, Seq<char>, Seq<char>)|
                bigram_count(b, views(apps@), g);
            let to_h = |gs: Seq<Seq<char>>| (gs[0], gs[1], gs[2], gs[3], gs[4]);
            let to_g = |g: (Seq<char>, Seq<char>, Seq<char>, Seq<char>, Seq<char>)| seq![g.0, g.1, g.2, g.3, g.4];
            assert forall|gs: Seq<Seq<char>>| #[trigger] c1(gs) > 0 implies to_g(to_h(gs)) == gs by {
                assert(to_g(to_h(gs)) =~= gs);
            }
            assert forall|g: (Seq<char>, Seq<char>, Seq<char>, Seq<char>, Seq<char>)| #[trigger] c2(g) == c1(to_g(g)) by {
                assert(to_h(to_g(g)) == g);
            }
            assert forall|i: int| 0 <= i < raw_rows_view(raw@).len() implies #[trigger] bigram_rows_view(rows@)[i] == (
                to_h(raw_rows_view(raw@)[i].0),
                raw_rows_view(raw@)[i].1,
            ) by {
                assert(bigram_rows_view(rows@)[i] == (
                    (raw@[i].0@[0]@, raw@[i].0@[1]@, raw@[i].0@[2]@, raw@[i].0@[3]@, raw@[i].0@[4]@),
                    raw@[i].1 as int,
                ));
            }
            lemma_ranked_regroup(raw_rows_view(raw@), c1, bigram_rows_view(rows@), c2, to_h, to_g, lim as int);
            assert(could_see(self.in_memory(), self.bigrams(), b));
        }
        Ok(rows)
    }

    /// The most frequent trigrams of the named applications (of all when none
    /// is named), at most `limit` of them.
    pub fn top_trigrams(&self, apps: &[String], limit: Option<usize>) -> (r: Result<
        Vec<(String, String, String, String, String, String, String, i64)>,
        DbError,
    >)
        ensures
            r matches Ok(rows) ==> exists|t: Multiset<TrigramRow>|
                #[trigger] could_see(self.in_memory(), self.trigrams(), t) && ranked(
                trigram_rows_view(rows@),
                |g: (Seq<char>, Seq<char>, Seq<char>, Seq<char>, Seq<char>, Seq<char>, Seq<char>)|
                    trigram_count(t, views(apps@), g),
                limit_value(limit),
            ),
    {
        let lim = limit_param(limit);
        let sql = grouped_query(TRIGRAMS_SELECT, TRIGRAMS_GROUP, apps.len());
        let raw = match query_counts(&self.conn, sql.as_str(), apps, lim, 7) {
            Ok(raw) => raw,
            Err(e) => { return Err(DbError { source: e }); },
        };
        let rows = trigram_tuples(&raw);
        proof {
            let t = choose|t: Multiset<TrigramRow>|
                could_see(self.in_memory(), self.trigrams(), t) && ranked(raw_rows_view(raw@), |gs: Seq<Seq<char>>| raw_trigram_count(t, views(apps@), gs), lim as int);
            let c1 = |gs: Seq<Seq<char>>| raw_trigram_count(t, views(apps@), gs);
            let c2 = |g: (Seq<char>, Seq<char>, Seq<char>, Seq<char>, Seq<char>, Seq<char>, Seq<char>)|
                trigram_count(t, views(apps@), g);
            let to_h = |gs: Seq<Seq<char>>| (gs[0], gs[1], gs[2], gs[3], gs[4], gs[5], gs[6]);
            let to_g = |g: (Seq<char>, Seq<char>, Seq<char>, Seq<char>, Seq<char>, Seq<char>, Seq<char>)|
                seq![g.0, g.1, g.2, g.3, g.4, g.5, g.6];
            assert forall|gs: Seq<Seq<char>>| #[trigger] c1(gs) > 0 implies to_g(to_h(gs)) == gs by {
                assert(to_g(to_h(gs)) =~= gs);
            }
            assert forall|g: (Seq<char>, Seq<char>, Seq<char>, Seq<char>, Seq<char>, Seq<char>, Seq<char>)|
                #[trigger] c2(g) == c1(to_g(g)) by {
                assert(to_h(to_g(g)) == g);
            }
            assert forall|i: int| 0 <= i < raw_rows_view(raw@).len() implies #[trigger] trigram_rows_view(rows@)[i] == (
                to_h(raw_rows_view(raw@)[i].0),
                raw_rows_view(raw@)[i].1,
            ) by {
                assert(trigram_rows_view(rows@)[i] == (
                    (
                        raw@[i].0@[0]@,
                        raw@[i].0@[1]@,
                        raw@[i].0@[2]@,
                        raw@[i].0@[3]@,
                        raw@[i].0@[4]@,
                        raw@[i].0@[5]@,
                        raw@[i].0@[6]@,
                    ),
                    raw@[i].1 as int,
                ));
            }
            lemma_ranked_regroup(raw_rows_view(raw@), c1, trigram_rows_view(rows@), c2, to_h, to_g, lim as int);
            assert(could_see(self.in_memory(), self.trigrams(), t));
        }
        Ok(rows)
    }

    /// The most frequent (key, modifiers) pairs over all applications, at
    /// most `limit` of them.
    pub fn top_keys_global(&self, limit: Option<usize>) -> (r: Result<Vec<(String, String, i64)>, DbError>)
        ensures
            r matches Ok(rows) ==> exists|k: Multiset<KeyRow>|
                #[trigger] could_see(self.in_memory(), self.keystrokes(), k) && ranked(
                key_mods_rows_view(rows@),
                |g: (Seq<char>, Seq<char>)| key_mods_count(k, g),
                limit_value(limit),
            ),
    {
        let lim = limit_param(limit);
        let raw = match query_counts(&self.conn, KEY_MODS_SQL, &[], lim, 2) {
            Ok(raw) => raw,
            Err(e) => { return Err(DbError { source: e }); },
        };
        let rows = key_mods_tuples(&raw);
        proof {
            let k = choose|k: Multiset<KeyRow>|
                could_see(self.in_memory(), self.keystrokes(), k) && ranked(raw_rows_view(raw@), |gs: Seq<Seq<char>>| raw_key_mods_count(k, gs), lim as int);
            let c1 = |gs: Seq<Seq<char>>| raw_key_mods_count(k, gs);
            let c2 = |g: (Seq<char>, Seq<char>)| key_mods_count(k, g);
            let to_h = |gs: Seq<Seq<char>>| (gs[0], gs[1]);
            let to_g = |g: (Seq<char>, Seq<char>)| seq![g.0, g.1];
            assert forall|gs: Seq<Seq<char>>| #[trigger] c1(gs) > 0 implies to_g(to_h(gs)) == gs by {
                assert(to_g(to_h(gs)) =~= gs);
            }
            assert forall|g: (Seq<char>, Seq<char>)| #[trigger] c2(g) == c1(to_g(g)) by {
                assert(to_h(to_g(g)) == g);
            }
            assert forall|i: int| 0 <= i < raw_rows_view(raw@).len() implies #[trigger] key_mods_rows_view(rows@)[i] == (
                to_h(raw_rows_view(raw@)[i].0),
                raw_rows_view(raw@)[i].1,
            ) by {
                assert(key_mods_rows_view(rows@)[i] == ((raw@[i].0@[0]@, raw@[i].0@[1]@), raw@[i].1 as int));
            }
            lemma_ranked_regroup(raw_rows_view(raw@), c1, key_mods_rows_view(rows@), c2, to_h, to_g, lim as int);
            assert(could_see(self.in_memory(), self.keystrokes(), k));
        }
        Ok(rows)
    }

    /// The most frequent (key, modifiers, application) triples of the named
    /// applications (of all when none is named), at most `limit` of them.
    pub fn top_keys(&self, apps: &[String], limit: Option<usize>) -> (r: Result<
        Vec<(String, String, String, i64)>,
        DbError,
    >)
        ensures
            r matches Ok(rows) ==> exists|k: Multiset<KeyRow>|
                #[trigger] could_see(self.in_memory(), self.keystrokes(), k) && ranked(
                key_rows_view(rows@),
                |g: (Seq<char>, Seq<char>, Seq<char>)| key_count(k, views(apps@), g),
                limit_value(limit),
            ),
    {
        let lim = limit_param(limit);
        let sql = grouped_query(KEYS_SELECT, KEYS_GROUP, apps.len());
        let raw = match query_counts(&self.conn, sql.as_str(), apps, lim, 3) {
            Ok(raw) => raw,
            Err(e) => { return Err(DbError { source: e }); },
        };
        let rows = key_tuples(&raw);
        proof {
            let k = choose|k: Multiset<KeyRow>|
                could_see(self.in_memory(), self.keystrokes(), k) && ranked(raw_rows_view(raw@), |gs: Seq<Seq<char>>| raw_key_count(k, views(apps@), gs), lim as int);
            let c1 = |gs: Seq<Seq<char>>| raw_key_count(k, views(apps@), gs);
            let c2 = |g: (Seq<char>, Seq<char>, Seq<char>)| key_count(k, views(apps@), g);
            let to_h = |gs: Seq<Seq<char>>| (gs[0], gs[1], gs[2]);
            let to_g = |g: (Seq<char>, Seq<char>, Seq<char>)| seq![g.0, g.1, g.2];
            assert forall|gs: Seq<Seq<char>>| #[trigger] c1(gs) > 0 implies to_g(to_h(gs)) == gs by {
                assert(to_g(to_h(gs)) =~= gs);
            }
            assert forall|g: (Seq<char>, Seq<char>, Seq<char>)| #[trigger] c2(g) == c1(to_g(g)) by {
                assert(to_h(to_g(g)) == g);
            }
            assert forall|i: int| 0 <= i < raw_rows_view(raw@).len() implies #[trigger] key_rows_view(rows@)[i] == (
                to_h(raw_rows_view(raw@)[i].0),
                raw_rows_view(raw@)[i].1,
            ) by {
                assert(key_rows_view(rows@)[i] == ((raw@[i].0@[0]@, raw@[i].0@[1]@, raw@[i].0@[2]@), raw@[i].1 as int));
            }
            lemma_ranked_regroup(raw_rows_view(raw@), c1, key_rows_view(rows@), c2, to_h, to_g, lim as int);
            assert(could_see(self.in_memory(), self.keystrokes(), k));
        }
        Ok(rows)
    }

    /// The applications with the most keystrokes (the empty class left out),
    /// at most `limit` of them.
    pub fn top_apps(&self, limit: Option<usize>) -> (r: Result<Vec<(String, i64)>, DbError>)
        ensures
            r matches Ok(rows) ==> exists|k: Multiset<KeyRow>|
                #[trigger] could_see(self.in_memory(), self.keystrokes(), k) && ranked(
                app_rows_view(rows@),
                |g: Seq<char>| app_count(k, g),
                limit_value(limit),
            ),
    {
        let lim = limit_param(limit);
        let raw = match query_counts(&self.conn, APPS_SQL, &[], lim, 1) {
            Ok(raw) => raw,
            Err(e) => { return Err(DbError { source: e }); },
        };
        let rows = app_tuples(&raw);
        proof {
            let k = choose|k: Multiset<KeyRow>|
                could_see(self.in_memory(), self.keystrokes(), k) && ranked(raw_rows_view(raw@), |gs: Seq<Seq<char>>| raw_app_count(k, gs), lim as int);
            let c1 = |gs: Seq<Seq<char>>| raw_app_count(k, gs);
            let c2 = |g: Seq<char>| app_count(k, g);
            let to_h = |gs: Seq<Seq<char>>| gs[0];
            let to_g = |g: Seq<char>| seq![g];
            assert forall|gs: Seq<Seq<char>>| #[trigger] c1(gs) > 0 implies to_g(to_h(gs)) == gs by {
                assert(to_g(to_h(gs)) =~= gs);
            }
            assert forall|g: Seq<char>| #[trigger] c2(g) == c1(to_g(g)) by {
                assert(to_h(to_g(g)) == g);
            }
            assert forall|i: int| 0 <= i < raw_rows_view(raw@).len() implies #[trigger] app_rows_view(rows@)[i] == (
                to_h(raw_rows_view(raw@)[i].0),
                raw_rows_view(raw@)[i].1,
            ) by {
                assert(app_rows_view(rows@)[i] == (raw@[i].0@[0]@, raw@[i].1 as int));
            }
            lemma_ranked_regroup(raw_rows_view(raw@), c1, app_rows_view(rows@), c2, to_h, to_g, lim as int);
            assert(could_see(self.in_memory(), self.keystrokes(), k));
        }
        Ok(rows)
    }

    /// The timestamp of the earliest keystroke, none when there is none.
    pub fn first_ts(&self) -> (r: Result<Option<i64>, DbError>)
        ensures
            r matches Ok(v) ==> exists|k: Multiset<KeyRow>|
                #[trigger] could_see(self.in_memory(), self.keystrokes(), k) && is_min_ts(k, v),
    {
        match query_first_ts(&self.conn, FIRST_TS_SQL) {
            Ok(v) => {
                proof {
                    let k = choose|k: Multiset<KeyRow>|
                        could_see(in_memory(self.conn), keystroke_table(self.conn), k) && is_min_ts(k, v);
                    assert(could_see(self.in_memory(), self.keystrokes(), k));
                }
                Ok(v)
            },
            Err(e) => Err(DbError { source: e }),
        }
    }

    /// Deletes the recorded keystrokes, bigrams and trigrams of one
    /// application, or of all when none is given, and returns how many
    /// keystrokes were deleted. The tables are cleared one statement each,
    /// in the order bigrams, trigrams, keystrokes; on an error the tables
    /// cleared before it stay cleared.
    pub fn clear(&mut self, app_class: Option<&str>) -> (r: Result<usize, DbError>)
        ensures
            final(self).in_memory() == old(self).in_memory(),
            r matches Ok(n) ==> exists|k: Multiset<KeyRow>|
                #[trigger] could_see(old(self).in_memory(), old(self).keystrokes(), k) && final(self).keystrokes()
                    == keystrokes_after_clear(k, app_view(app_class)) && n == cleared_count(k, app_view(app_class)),
            old(self).in_memory() ==> {
                &&& r is Ok ==> final(self).bigrams() == bigrams_after_clear(old(self).bigrams(), app_view(app_class))
                &&& r is Ok ==> final(self).trigrams() == trigrams_after_clear(
                    old(self).trigrams(),
                    app_view(app_class),
                )
                &&& r is Err ==> {
                    &&& final(self).keystrokes() == old(self).keystrokes()
                    &&& final(self).bigrams() == old(self).bigrams() || final(self).bigrams()
                        == bigrams_after_clear(old(self).bigrams(), app_view(app_class))
                    &&& final(self).trigrams() == old(self).trigrams() || {
                        &&& final(self).trigrams() == trigrams_after_clear(old(self).trigrams(), app_view(app_class))
                        &&& final(self).bigrams() == bigrams_after_clear(old(self).bigrams(), app_view(app_class))
                    }
                }
            },
    {
        let ghost start = *self;
        match app_class {
            Some(app) => {
                if let Err(e) = execute(&mut self.conn, DELETE_BIGRAMS_APP_SQL, &[], &[app]) {
                    return Err(DbError { source: e });
                }
                if let Err(e) = execute(&mut self.conn, DELETE_TRIGRAMS_APP_SQL, &[], &[app]) {
                    return Err(DbError { source: e });
                }
                let ghost before = *self;
                match execute(&mut self.conn, DELETE_KEYSTROKES_APP_SQL, &[], &[app]) {
                    Ok(n) => {
                        proof {
                            let k = choose|k: Multiset<KeyRow>|
                                could_see(before.in_memory(), before.keystrokes(), k) && written(
                                    k,
                                    true,
                                    keystrokes_outside(k, app@),
                                    self.keystrokes(),
                                ) && n == keystrokes_in(k, app@).len();
                            assert(could_see(start.in_memory(), start.keystrokes(), k));
                        }
                        Ok(n)
                    },
                    Err(e) => Err(DbError { source: e }),
                }
            },
            None => {
                if let Err(e) = execute(&mut self.conn, DELETE_BIGRAMS_SQL, &[], &[]) {
                    return Err(DbError { source: e });
                }
                if let Err(e) = execute(&mut self.conn, DELETE_TRIGRAMS_SQL, &[], &[]) {
                    return Err(DbError { source: e });
                }
                let ghost before = *self;
                match execute(&mut self.conn, DELETE_KEYSTROKES_SQL, &[], &[]) {
                    Ok(n) => {
                        proof {
                            let k = choose|k: Multiset<KeyRow>|
                                could_see(before.in_memory(), before.keystrokes(), k) && written(
                                    k,
                                    true,
                                    Multiset::<KeyRow>::empty(),
                                    self.keystrokes(),
                                ) && n == k.len();
                            assert(could_see(start.in_memory(), start.keystrokes(), k));
                        }
                        Ok(n)
                    },
                    Err(e) => Err(DbError { source: e }),
                }
            },
        }
    }
}

/// The application a clear is for, as text: none for every application.
pub open spec fn app_view(app: Option<&str>) -> Option<Seq<char>> {
    match app {
        Some(a) => Some(a@),
        None => None,
    }
}

/// The keystroke rows of `t` in the application `a`.
pub open spec fn keystrokes_in(t: Multiset<KeyRow>, a: Seq<char>) -> Multiset<KeyRow> {
    t.filter(|r: KeyRow| r.3 == a)
}

/// The keystroke rows of `t` in other applications than `a`.
pub open spec fn keystrokes_outside(t: Multiset<KeyRow>, a: Seq<char>) -> Multiset<KeyRow> {
    t.filter(|r: KeyRow| r.3 != a)
}

/// The bigram rows of `t` in other applications than `a`.
pub open spec fn bigrams_outside(t: Multiset<BigramRow>, a: Seq<char>) -> Multiset<BigramRow> {
    t.filter(|r: BigramRow| r.5 != a)
}

/// The trigram rows of `t` in other applications than `a`.
pub open spec fn trigrams_outside(t: Multiset<TrigramRow>, a: Seq<char>) -> Multiset<TrigramRow> {
    t.filter(|r: TrigramRow| r.7 != a)
}

/// The keystroke rows of `t` a clear of `app` keeps: those of the other
/// applications, or none when the clear is of every application.
pub open spec fn keystrokes_after_clear(t: Multiset<KeyRow>, app: Option<Seq<char>>) -> Multiset<KeyRow> {
    match app {
        Some(a) => keystrokes_outside(t, a),
        None => Multiset::empty(),
    }
}

/// The bigram rows of `t` a clear of `app` keeps.
pub open spec fn bigrams_after_clear(t: Multiset<BigramRow>, app: Option<Seq<char>>) -> Multiset<BigramRow> {
    match app {
        Some(a) => bigrams_outside(t, a),
        None => Multiset::empty(),
    }
}

/// The trigram rows of `t` a clear of `app` keeps.
pub open spec fn trigrams_after_clear(t: Multiset<TrigramRow>, app: Option<Seq<char>>) -> Multiset<TrigramRow> {
    match app {
        Some(a) => trigrams_outside(t, a),
        None => Multiset::empty(),
    }
}

/// How many keystroke rows of `t` a clear of `app` deletes.
pub open spec fn cleared_count(t: Multiset<KeyRow>, app: Option<Seq<char>>) -> nat {
    match app {
        Some(a) => keystrokes_in(t, a).len(),
        None => t.len(),
    }
}

/// How many elements of `m` with `v` added satisfy `f`.
proof fn lemma_filter_insert<V>(m: Multiset<V>, v: V, f: spec_fn(V) -> bool)
    ensures
        m.insert(v).filter(f).len() == m.filter(f).len() + if f(v) { 1nat } else { 0nat },
{
    if f(v) {
        assert(m.insert(v).filter(f) =~= m.filter(f).insert(v));
    } else {
        assert(m.insert(v).filter(f) =~= m.filter(f));
    }
}

/// Recording a keystroke adds one to the count of its own (key, modifiers,
/// application) group, when its application is selected, and leaves every
/// other count as it was.
pub proof fn law_insert_adds_one_keystroke(
    t: Multiset<KeyRow>,
    row: KeyRow,
    apps: Seq<Seq<char>>,
    g: (Seq<char>, Seq<char>, Seq<char>),
)
    ensures
        key_count(t.insert(row), apps, g) == key_count(t, apps, g) + if (row.1, row.2, row.3) == g
            && selected(apps, row.3) {
            1nat
        } else {
            0nat
        },
{
    lemma_filter_insert(
        t,
        row,
        |r: KeyRow| r.1 == g.0 && r.2 == g.1 && r.3 == g.2 && selected(apps, r.3),
    );
}

/// Recording a bigram adds one to the count of its own group, when its
/// application is selected, and leaves every other count as it was.
pub proof fn law_insert_adds_one_bigram(
    t: Multiset<BigramRow>,
    row: BigramRow,
    apps: Seq<Seq<char>>,
    g: (Seq<char>, Seq<char>, Seq<char>, Seq<char>, Seq<char>),
)
    ensures
        bigram_count(t.insert(row), apps, g) == bigram_count(t, apps, g) + if (
        row.1,
        row.2,
        row.3,
        row.4,
        row.5,
        ) == g && selected(apps, row.5) {
            1nat
        } else {
            0nat
        },
{
    lemma_filter_insert(
        t,
        row,
        |r: BigramRow|
            r.1 == g.0 && r.2 == g.1 && r.3 == g.2 && r.4 == g.3 && r.5 == g.4 && selected(apps, r.5),
    );
}

/// Recording a trigram adds one to the count of its own group, when its
/// application is selected, and leaves every other count as it was.
pub proof fn law_insert_adds_one_trigram(
    t: Multiset<TrigramRow>,
    row: TrigramRow,
    apps: Seq<Seq<char>>,
    g: (Seq<char>, Seq<char>, Seq<char>, Seq<char>, Seq<char>, Seq<char>, Seq<char>),
)
    ensures
        trigram_count(t.insert(row), apps, g) == trigram_count(t, apps, g) + if (
        row.1,
        row.2,
        row.3,
        row.4,
        row.5,
        row.6,
        row.7,
        ) == g && selected(apps, row.7) {
            1nat
        } else {
            0nat
        },
{
    lemma_filter_insert(
        t,
        row,
        |r: TrigramRow|
            r.1 == g.0 && r.2 == g.1 && r.3 == g.2 && r.4 == g.3 && r.5 == g.4 && r.6 == g.5 && r.7
                == g.6 && selected(apps, r.7),
    );
}

/// Clearing one application leaves no keystroke of it to count and every
/// count of the other applications as it was.
pub proof fn law_clear_app_keystrokes(
    t: Multiset<KeyRow>,
    app: Seq<char>,
    apps: Seq<Seq<char>>,
    g: (Seq<char>, Seq<char>, Seq<char>),
)
    ensures
        key_count(keystrokes_outside(t, app), apps, g) == if g.2 == app {
            0
        } else {
            key_count(t, apps, g)
        },
{
    let q = |r: KeyRow| r.1 == g.0 && r.2 == g.1 && r.3 == g.2 && selected(apps, r.3);
    if g.2 == app {
        assert(keystrokes_outside(t, app).filter(q) =~= Multiset::empty());
    } else {
        assert(keystrokes_outside(t, app).filter(q) =~= t.filter(q));
    }
}

/// Clearing one application leaves no bigram of it to count and every
/// count of the other applications as it was.
pub proof fn law_clear_app_bigrams(
    t: Multiset<BigramRow>,
    app: Seq<char>,
    apps: Seq<Seq<char>>,
    g: (Seq<char>, Seq<char>, Seq<char>, Seq<char>, Seq<char>),
)
    ensures
        bigram_count(bigrams_outside(t, app), apps, g) == if g.4 == app {
            0
        } else {
            bigram_count(t, apps, g)
        },
{
    let q = |r: BigramRow|
        r.1 == g.0 && r.2 == g.1 && r.3 == g.2 && r.4 == g.3 && r.5 == g.4 && selected(apps, r.5);
    if g.4 == app {
        assert(bigrams_outside(t, app).filter(q) =~= Multiset::empty());
    } else {
        assert(bigrams_outside(t, app).filter(q) =~= t.filter(q));
    }
}

/// Naming applications keeps the counts of the named ones as they are over
/// all applications and drops the others: the filter is a union of the
/// named applications.
pub proof fn law_filter_is_union_of_apps(
    t: Multiset<KeyRow>,
    apps: Seq<Seq<char>>,
    g: (Seq<char>, Seq<char>, Seq<char>),
)
    requires
        apps.len() > 0,
    ensures
        key_count(t, apps, g) == if apps.contains(g.2) {
            key_count(t, Seq::empty(), g)
        } else {
            0
        },
{
    let q = |r: KeyRow| r.1 == g.0 && r.2 == g.1 && r.3 == g.2 && selected(apps, r.3);
    let all = |r: KeyRow| r.1 == g.0 && r.2 == g.1 && r.3 == g.2 && selected(Seq::empty(), r.3);
    if apps.contains(g.2) {
        assert(t.filter(q) =~= t.filter(all));
    } else {
        assert(t.filter(q) =~= Multiset::empty());
    }
}

/// With nothing to count, a grouped count query answers no rows: after
/// clearing everything the reports are empty.
pub proof fn law_nothing_to_count<G>(rows: Seq<(G, int)>, count: spec_fn(G) -> nat, limit: int)
    requires
        ranked(rows, count, limit),
        forall|g: G| #[trigger] count(g) == 0,
    ensures
        rows.len() == 0,
{
    if rows.len() > 0 {
        assert(rows[0].1 == count(rows[0].0));
    }
}

/// The earliest timestamp after recording a keystroke is the smaller of the
/// earlier one and the new keystroke's.
pub proof fn law_first_ts_after_insert(t: Multiset<KeyRow>, row: KeyRow, first: Option<i64>)
    requires
        is_min_ts(t, first),
    ensures
        is_min_ts(
            t.insert(row),
            Some(
                match first {
                    Some(m) => if m <= row.0 {
                        m
                    } else {
                        row.0
                    },
                    None => row.0,
                },
            ),
        ),
{
    let u = t.insert(row);
    assert(u.contains(row));
    match first {
        Some(m) => {
            let w = choose|r: KeyRow| t.contains(r) && r.0 == m;
            assert(u.contains(w));
            let lo = if m <= row.0 { m } else { row.0 };
            assert forall|r: KeyRow| u.contains(r) implies lo <= r.0 by {
                if r != row {
                    assert(t.contains(r));
                }
            }
        },
        None => {
            assert forall|r: KeyRow| u.contains(r) implies row.0 <= r.0 by {
                if r != row {
                    assert(t.count(r) > 0);
                    assert(t.len() > 0) by {
                        vstd::multiset::lemma_multiset_empty_len(t);
                    }
                }
            }
        },
    }
}

/// Clearing one application leaves no trigram of it to count and every
/// count of the other applications as it was.
pub proof fn law_clear_app_trigrams(
    t: Multiset<TrigramRow>,
    app: Seq<char>,
    apps: Seq<Seq<char>>,
    g: (Seq<char>, Seq<char>, Seq<char>, Seq<char>, Seq<char>, Seq<char>, Seq<char>),
)
    ensures
        trigram_count(trigrams_outside(t, app), apps, g) == if g.6 == app {
            0
        } else {
            trigram_count(t, apps, g)
        },
{
    let q = |r: TrigramRow|
        r.1 == g.0 && r.2 == g.1 && r.3 == g.2 && r.4 == g.3 && r.5 == g.4 && r.6 == g.5 && r.7 == g.6
            && selected(apps, r.7);
    if g.6 == app {
        assert(trigrams_outside(t, app).filter(q) =~= Multiset::empty());
    } else {
        assert(trigrams_outside(t, app).filter(q) =~= t.filter(q));
    }
}

/// Naming applications keeps the bigram counts of the named ones as they
/// are over all applications and drops the others.
pub proof fn law_bigram_filter_is_union_of_apps(
    t: Multiset<BigramRow>,
    apps: Seq<Seq<char>>,
    g: (Seq<char>, Seq<char>, Seq<char>, Seq<char>, Seq<char>),
)
    requires
        apps.len() > 0,
    ensures
        bigram_count(t, apps, g) == if apps.contains(g.4) {
            bigram_count(t, Seq::empty(), g)
        } else {
            0
        },
{
    let q = |r: BigramRow|
        r.1 == g.0 && r.2 == g.1 && r.3 == g.2 && r.4 == g.3 && r.5 == g.4 && selected(apps, r.5);
    let all = |r: BigramRow|
        r.1 == g.0 && r.2 == g.1 && r.3 == g.2 && r.4 == g.3 && r.5 == g.4 && selected(Seq::empty(), r.5);
    if apps.contains(g.4) {
        assert(t.filter(q) =~= t.filter(all));
    } else {
        assert(t.filter(q) =~= Multiset::empty());
    }
}

/// Without a limit a grouped count query lists every group that has rows.
pub proof fn law_unlimited_lists_every_group<G>(rows: Seq<(G, int)>, count: spec_fn(G) -> nat, g: G)
    requires
        ranked(rows, count, -1),
        count(g) > 0,
    ensures
        listed(rows, g),
{
}

/// What a read gives back of a write: after a keystroke is recorded in a
/// selected application, the unlimited key query lists its group with one
/// more than the count it had before.
pub proof fn law_recorded_key_is_listed(
    t: Multiset<KeyRow>,
    row: KeyRow,
    apps: Seq<Seq<char>>,
    rows: Seq<((Seq<char>, Seq<char>, Seq<char>), int)>,
)
    requires
        selected(apps, row.3),
        ranked(rows, |g: (Seq<char>, Seq<char>, Seq<char>)| key_count(t.insert(row), apps, g), -1),
    ensures
        exists|i: int|
            0 <= i < rows.len() && rows[i].0 == (row.1, row.2, row.3) && rows[i].1 == key_count(
                t,
                apps,
                (row.1, row.2, row.3),
            ) + 1,
{
    let g = (row.1, row.2, row.3);
    let count = |g: (Seq<char>, Seq<char>, Seq<char>)| key_count(t.insert(row), apps, g);
    law_insert_adds_one_keystroke(t, row, apps, g);
    assert(count(g) > 0);
    law_unlimited_lists_every_group(rows, count, g);
    let i = choose|i: int| 0 <= i < rows.len() && rows[i].0 == g;
    assert(rows[i].1 == count(rows[i].0));
}

/// A second clear of the same application, or of everything, finds nothing
/// more to delete: it counts no keystroke and keeps every row the first one
/// kept.
pub proof fn law_clear_twice(
    k: Multiset<KeyRow>,
    b: Multiset<BigramRow>,
    t: Multiset<TrigramRow>,
    app: Option<Seq<char>>,
)
    ensures
        cleared_count(keystrokes_after_clear(k, app), app) == 0,
        keystrokes_after_clear(keystrokes_after_clear(k, app), app) == keystrokes_after_clear(k, app),
        bigrams_after_clear(bigrams_after_clear(b, app), app) == bigrams_after_clear(b, app),
        trigrams_after_clear(trigrams_after_clear(t, app), app) == trigrams_after_clear(t, app),
{
    match app {
        Some(a) => {
            assert(keystrokes_in(keystrokes_outside(k, a), a) =~= Multiset::empty());
            assert(keystrokes_outside(keystrokes_outside(k, a), a) =~= keystrokes_outside(k, a));
            assert(bigrams_outside(bigrams_outside(b, a), a) =~= bigrams_outside(b, a));
            assert(trigrams_outside(trigrams_outside(t, a), a) =~= trigrams_outside(t, a));
        },
        None => {},
    }
}

/// Without a limit, a grouped count query lists each group that has rows
/// once, with its count, and nothing else.
proof fn lemma_unlimited_rows<G>(rows: Seq<(G, int)>, count: spec_fn(G) -> nat)
    requires
        ranked(rows, count, -1),
    ensures
        forall|p: (G, int)|
            #[trigger] rows.to_multiset().count(p) == if count(p.0) > 0 && p.1 == count(p.0) {
                1nat
            } else {
                0nat
            },
{
    broadcast use vstd::seq_lib::group_to_multiset_ensures;

    assert(rows.no_duplicates()) by {
        assert forall|i: int, j: int| 0 <= i < rows.len() && 0 <= j < rows.len() && i != j implies rows[i]
            != rows[j] by {
            if i < j {
                assert(rows[i].0 != rows[j].0);
            } else {
                assert(rows[j].0 != rows[i].0);
            }
        }
    }
    rows.lemma_multiset_has_no_duplicates();
    assert forall|p: (G, int)| #[trigger] rows.to_multiset().count(p) == if count(p.0) > 0 && p.1 == count(
        p.0,
    ) {
        1nat
    } else {
        0nat
    } by {
        if count(p.0) > 0 && p.1 == count(p.0) {
            assert(listed(rows, p.0));
            let i = choose|i: int| 0 <= i < rows.len() && rows[i].0 == p.0;
            assert(rows[i] == p);
            assert(rows.contains(p));
        } else if rows.contains(p) {
            let i = choose|i: int| 0 <= i < rows.len() && rows[i] == p;
            assert(rows[i].1 == count(rows[i].0));
        }
    }
}

/// Two unlimited queries whose counts agree list the same rows, up to order.
proof fn lemma_same_counts_same_rows<G>(
    rows1: Seq<(G, int)>,
    count1: spec_fn(G) -> nat,
    rows2: Seq<(G, int)>,
    count2: spec_fn(G) -> nat,
)
    requires
        ranked(rows1, count1, -1),
        ranked(rows2, count2, -1),
        forall|g: G| #[trigger] count1(g) == count2(g),
    ensures
        rows1.to_multiset() == rows2.to_multiset(),
{
    lemma_unlimited_rows(rows1, count1);
    lemma_unlimited_rows(rows2, count2);
    assert(rows1.to_multiset() =~= rows2.to_multiset());
}

/// An unlimited query whose counts are the sums of two others', of which at
/// most one is positive for each group, lists the rows of both.
proof fn lemma_disjoint_counts_add_rows<G>(
    rows: Seq<(G, int)>,
    count: spec_fn(G) -> nat,
    rows1: Seq<(G, int)>,
    count1: spec_fn(G) -> nat,
    rows2: Seq<(G, int)>,
    count2: spec_fn(G) -> nat,
)
    requires
        ranked(rows, count, -1),
        ranked(rows1, count1, -1),
        ranked(rows2, count2, -1),
        forall|g: G| #[trigger] count(g) == count1(g) + count2(g),
        forall|g: G| #[trigger] count1(g) == 0 || count2(g) == 0,
    ensures
        rows.to_multiset() == rows1.to_multiset().add(rows2.to_multiset()),
{
    lemma_unlimited_rows(rows, count);
    lemma_unlimited_rows(rows1, count1);
    lemma_unlimited_rows(rows2, count2);
    assert forall|p: (G, int)| #[trigger] rows.to_multiset().count(p) == rows1.to_multiset().count(p)
        + rows2.to_multiset().count(p) by {
        assert(count(p.0) == count1(p.0) + count2(p.0));
        assert(count1(p.0) == 0 || count2(p.0) == 0);
    }
    assert(rows.to_multiset() =~= rows1.to_multiset().add(rows2.to_multiset()));
}

/// Whether two lists of application names name the same applications.
pub open spec fn same_names(a: Seq<Seq<char>>, c: Seq<Seq<char>>) -> bool {
    a.to_set() == c.to_set()
}

/// Lists naming the same applications select the same rows.
proof fn lemma_same_names_select_alike(a: Seq<Seq<char>>, c: Seq<Seq<char>>, class: Seq<char>)
    requires
        same_names(a, c),
    ensures
        selected(a, class) == selected(c, class),
{
    if a.len() > 0 {
        assert(a.to_set().contains(a[0]));
        assert(c.to_set().contains(a[0]));
    }
    if c.len() > 0 {
        assert(c.to_set().contains(c[0]));
        assert(a.to_set().contains(c[0]));
    }
    assert(a.contains(class) == a.to_set().contains(class));
    assert(c.contains(class) == c.to_set().contains(class));
}

/// What the two lists name together.
proof fn lemma_concat_contains(a: Seq<Seq<char>>, b: Seq<Seq<char>>, x: Seq<char>)
    ensures
        (a + b).contains(x) <==> a.contains(x) || b.contains(x),
{
    if a.contains(x) {
        let i = choose|i: int| 0 <= i < a.len() && a[i] == x;
        assert((a + b)[i] == x);
    }
    if b.contains(x) {
        let i = choose|i: int| 0 <= i < b.len() && b[i] == x;
        assert((a + b)[a.len() + i] == x);
    }
    if (a + b).contains(x) {
        let i = choose|i: int| 0 <= i < (a + b).len() && (a + b)[i] == x;
        if i < a.len() {
            assert(a[i] == x);
        } else {
            assert(b[i - a.len()] == x);
        }
    }
}

/// The application filter of the key query is a set of names: lists that
/// name the same applications, in any order and with any repeats, give
/// every group the same count, and without a limit the query lists the same
/// rows for both.
pub proof fn law_key_app_list_is_a_set(
    t: Multiset<KeyRow>,
    a: Seq<Seq<char>>,
    c: Seq<Seq<char>>,
    rows_a: Seq<((Seq<char>, Seq<char>, Seq<char>), int)>,
    rows_c: Seq<((Seq<char>, Seq<char>, Seq<char>), int)>,
)
    requires
        same_names(a, c),
        ranked(rows_a, |g: (Seq<char>, Seq<char>, Seq<char>)| key_count(t, a, g), -1),
        ranked(rows_c, |g: (Seq<char>, Seq<char>, Seq<char>)| key_count(t, c, g), -1),
    ensures
        forall|g: (Seq<char>, Seq<char>, Seq<char>)| #[trigger] key_count(t, a, g) == key_count(t, c, g),
        rows_a.to_multiset() == rows_c.to_multiset(),
{
    assert forall|g: (Seq<char>, Seq<char>, Seq<char>)| #[trigger] key_count(t, a, g) == key_count(t, c, g) by {
        lemma_same_names_select_alike(a, c, g.2);
        let qa = |r: KeyRow| r.1 == g.0 && r.2 == g.1 && r.3 == g.2 && selected(a, r.3);
        let qc = |r: KeyRow| r.1 == g.0 && r.2 == g.1 && r.3 == g.2 && selected(c, r.3);
        assert(t.filter(qa) =~= t.filter(qc));
    }
    lemma_same_counts_same_rows(
        rows_a,
        |g: (Seq<char>, Seq<char>, Seq<char>)| key_count(t, a, g),
        rows_c,
        |g: (Seq<char>, Seq<char>, Seq<char>)| key_count(t, c, g),
    );
}

/// Naming two lists of applications with no name in common counts each
/// group as the sum of its counts over each list, and without a limit the
/// key query over both lists lists exactly the rows of the queries over each.
pub proof fn law_key_disjoint_app_lists_add(
    t: Multiset<KeyRow>,
    a: Seq<Seq<char>>,
    b: Seq<Seq<char>>,
    rows_ab: Seq<((Seq<char>, Seq<char>, Seq<char>), int)>,
    rows_a: Seq<((Seq<char>, Seq<char>, Seq<char>), int)>,
    rows_b: Seq<((Seq<char>, Seq<char>, Seq<char>), int)>,
)
    requires
        a.len() > 0,
        b.len() > 0,
        forall|x: Seq<char>| a.contains(x) ==> !b.contains(x),
        ranked(rows_ab, |g: (Seq<char>, Seq<char>, Seq<char>)| key_count(t, a + b, g), -1),
        ranked(rows_a, |g: (Seq<char>, Seq<char>, Seq<char>)| key_count(t, a, g), -1),
        ranked(rows_b, |g: (Seq<char>, Seq<char>, Seq<char>)| key_count(t, b, g), -1),
    ensures
        forall|g: (Seq<char>, Seq<char>, Seq<char>)|
            #[trigger] key_count(t, a + b, g) == key_count(t, a, g) + key_count(t, b, g),
        rows_ab.to_multiset() == rows_a.to_multiset().add(rows_b.to_multiset()),
{
    assert forall|g: (Seq<char>, Seq<char>, Seq<char>)|
        #[trigger] key_count(t, a + b, g) == key_count(t, a, g) + key_count(t, b, g) by {
        lemma_concat_contains(a, b, g.2);
        law_filter_is_union_of_apps(t, a + b, g);
        law_filter_is_union_of_apps(t, a, g);
        law_filter_is_union_of_apps(t, b, g);
    }
    assert forall|g: (Seq<char>, Seq<char>, Seq<char>)|
        #[trigger] key_count(t, a, g) == 0 || key_count(t, b, g) == 0 by {
        law_filter_is_union_of_apps(t, a, g);
        law_filter_is_union_of_apps(t, b, g);
    }
    lemma_disjoint_counts_add_rows(
        rows_ab,
        |g: (Seq<char>, Seq<char>, Seq<char>)| key_count(t, a + b, g),
        rows_a,
        |g: (Seq<char>, Seq<char>, Seq<char>)| key_count(t, a, g),
        rows_b,
        |g: (Seq<char>, Seq<char>, Seq<char>)| key_count(t, b, g),
    );
}

/// The application filter of the bigram query is a set of names: lists that
/// name the same applications, in any order and with any repeats, give
/// every group the same count, and without a limit the query lists the same
/// rows for both.
pub proof fn law_bigram_app_list_is_a_set(
    t: Multiset<BigramRow>,
    a: Seq<Seq<char>>,
    c: Seq<Seq<char>>,
    rows_a: Seq<((Seq<char>, Seq<char>, Seq<char>, Seq<char>, Seq<char>), int)>,
    rows_c: Seq<((Seq<char>, Seq<char>, Seq<char>, Seq<char>, Seq<char>), int)>,
)
    requires
        same_names(a, c),
        ranked(rows_a, |g: (Seq<char>, Seq<char>, Seq<char>, Seq<char>, Seq<char>)| bigram_count(t, a, g), -1),
        ranked(rows_c, |g: (Seq<char>, Seq<char>, Seq<char>, Seq<char>, Seq<char>)| bigram_count(t, c, g), -1),
    ensures
        forall|g: (Seq<char>, Seq<char>, Seq<char>, Seq<char>, Seq<char>)| #[trigger] bigram_count(t, a, g) == bigram_count(t, c, g),
        rows_a.to_multiset() == rows_c.to_multiset(),
{
    assert forall|g: (Seq<char>, Seq<char>, Seq<char>, Seq<char>, Seq<char>)| #[trigger] bigram_count(t, a, g) == bigram_count(t, c, g) by {
        lemma_same_names_select_alike(a, c, g.4);
        let qa = |r: BigramRow|
            r.1 == g.0 && r.2 == g.1 && r.3 == g.2 && r.4 == g.3 && r.5 == g.4 && selected(a, r.5);
        let qc = |r: BigramRow|
            r.1 == g.0 && r.2 == g.1 && r.3 == g.2 && r.4 == g.3 && r.5 == g.4 && selected(c, r.5);
        assert(t.filter(qa) =~= t.filter(qc));
    }
    lemma_same_counts_same_rows(
        rows_a,
        |g: (Seq<char>, Seq<char>, Seq<char>, Seq<char>, Seq<char>)| bigram_count(t, a, g),
        rows_c,
        |g: (Seq<char>, Seq<char>, Seq<char>, Seq<char>, Seq<char>)| bigram_count(t, c, g),
    );
}

/// Naming two lists of applications with no name in common counts each
/// group as the sum of its counts over each list, and without a limit the
/// bigram query over both lists lists exactly the rows of the queries over each.
pub proof fn law_bigram_disjoint_app_lists_add(
    t: Multiset<BigramRow>,
    a: Seq<Seq<char>>,
    b: Seq<Seq<char>>,
    rows_ab: Seq<((Seq<char>, Seq<char>, Seq<char>, Seq<char>, Seq<char>), int)>,
    rows_a: Seq<((Seq<char>, Seq<char>, Seq<char>, Seq<char>, Seq<char>), int)>,
    rows_b: Seq<((Seq<char>, Seq<char>, Seq<char>, Seq<char>, Seq<char>), int)>,
)
    requires
        a.len() > 0,
        b.len() > 0,
        forall|x: Seq<char>| a.contains(x) ==> !b.contains(x),
        ranked(rows_ab, |g: (Seq<char>, Seq<char>, Seq<char>, Seq<char>, Seq<char>)| bigram_count(t, a + b, g), -1),
        ranked(rows_a, |g: (Seq<char>, Seq<char>, Seq<char>, Seq<char>, Seq<char>)| bigram_count(t, a, g), -1),
        ranked(rows_b, |g: (Seq<char>, Seq<char>, Seq<char>, Seq<char>, Seq<char>)| bigram_count(t, b, g), -1),
    ensures
        forall|g: (Seq<char>, Seq<char>, Seq<char>, Seq<char>, Seq<char>)|
            #[trigger] bigram_count(t, a + b, g) == bigram_count(t, a, g) + bigram_count(t, b, g),
        rows_ab.to_multiset() == rows_a.to_multiset().add(rows_b.to_multiset()),
{
    assert forall|g: (Seq<char>, Seq<char>, Seq<char>, Seq<char>, Seq<char>)|
        #[trigger] bigram_count(t, a + b, g) == bigram_count(t, a, g) + bigram_count(t, b, g) by {
        lemma_concat_contains(a, b, g.4);
        law_bigram_filter_is_union_of_apps(t, a + b, g);
        law_bigram_filter_is_union_of_apps(t, a, g);
        law_bigram_filter_is_union_of_apps(t, b, g);
    }
    assert forall|g: (Seq<char>, Seq<char>, Seq<char>, Seq<char>, Seq<char>)|
        #[trigger] bigram_count(t, a, g) == 0 || bigram_count(t, b, g) == 0 by {
        law_bigram_filter_is_union_of_apps(t, a, g);
        law_bigram_filter_is_union_of_apps(t, b, g);
    }
    lemma_disjoint_counts_add_rows(
        rows_ab,
        |g: (Seq<char>, Seq<char>, Seq<char>, Seq<char>, Seq<char>)| bigram_count(t, a + b, g),
        rows_a,
        |g: (Seq<char>, Seq<char>, Seq<char>, Seq<char>, Seq<char>)| bigram_count(t, a, g),
        rows_b,
        |g: (Seq<char>, Seq<char>, Seq<char>, Seq<char>, Seq<char>)| bigram_count(t, b, g),
    );
}

/// Naming applications keeps the trigram counts of the named ones as they
/// are over all applications and drops the others.
pub proof fn law_trigram_filter_is_union_of_apps(t: Multiset<TrigramRow>, apps: Seq<Seq<char>>, g: (Seq<char>, Seq<char>, Seq<char>, Seq<char>, Seq<char>, Seq<char>, Seq<char>))
    requires
        apps.len() > 0,
    ensures
        trigram_count(t, apps, g) == if apps.contains(g.6) {
            trigram_count(t, Seq::empty(), g)
        } else {
            0
        },
{
    let q = |r: TrigramRow|
        r.1 == g.0 && r.2 == g.1 && r.3 == g.2 && r.4 == g.3 && r.5 == g.4 && r.6 == g.5 && r.7 == g.6
            && selected(apps, r.7);
    let all = |r: TrigramRow|
        r.1 == g.0 && r.2 == g.1 && r.3 == g.2 && r.4 == g.3 && r.5 == g.4 && r.6 == g.5 && r.7 == g.6
            && selected(Seq::empty(), r.7);
    if apps.contains(g.6) {
        assert(t.filter(q) =~= t.filter(all));
    } else {
        assert(t.filter(q) =~= Multiset::empty());
    }
}

/// The application filter of the trigram query is a set of names: lists that
/// name the same applications, in any order and with any repeats, give
/// every group the same count, and without a limit the query lists the same
/// rows for both.
pub proof fn law_trigram_app_list_is_a_set(
    t: Multiset<TrigramRow>,
    a: Seq<Seq<char>>,
    c: Seq<Seq<char>>,
    rows_a: Seq<((Seq<char>, Seq<char>, Seq<char>, Seq<char>, Seq<char>, Seq<char>, Seq<char>), int)>,
    rows_c: Seq<((Seq<char>, Seq<char>, Seq<char>, Seq<char>, Seq<char>, Seq<char>, Seq<char>), int)>,
)
    requires
        same_names(a, c),
        ranked(rows_a, |g: (Seq<char>, Seq<char>, Seq<char>, Seq<char>, Seq<char>, Seq<char>, Seq<char>)| trigram_count(t, a, g), -1),
        ranked(rows_c, |g: (Seq<char>, Seq<char>, Seq<char>, Seq<char>, Seq<char>, Seq<char>, Seq<char>)| trigram_count(t, c, g), -1),
    ensures
        forall|g: (Seq<char>, Seq<char>, Seq<char>, Seq<char>, Seq<char>, Seq<char>, Seq<char>)| #[trigger] trigram_count(t, a, g) == trigram_count(t, c, g),
        rows_a.to_multiset() == rows_c.to_multiset(),
{
    assert forall|g: (Seq<char>, Seq<char>, Seq<char>, Seq<char>, Seq<char>, Seq<char>, Seq<char>)| #[trigger] trigram_count(t, a, g) == trigram_count(t, c, g) by {
        lemma_same_names_select_alike(a, c, g.6);
        let qa = |r: TrigramRow|
            r.1 == g.0 && r.2 == g.1 && r.3 == g.2 && r.4 == g.3 && r.5 == g.4 && r.6 == g.5 && r.7 == g.6
                && selected(a, r.7);
        let qc = |r: TrigramRow|
            r.1 == g.0 && r.2 == g.1 && r.3 == g.2 && r.4 == g.3 && r.5 == g.4 && r.6 == g.5 && r.7 == g.6
                && selected(c, r.7);
        assert(t.filter(qa) =~= t.filter(qc));
    }
    lemma_same_counts_same_rows(
        rows_a,
        |g: (Seq<char>, Seq<char>, Seq<char>, Seq<char>, Seq<char>, Seq<char>, Seq<char>)| trigram_count(t, a, g),
        rows_c,
        |g: (Seq<char>, Seq<char>, Seq<char>, Seq<char>, Seq<char>, Seq<char>, Seq<char>)| trigram_count(t, c, g),
    );
}

/// Naming two lists of applications with no name in common counts each
/// group as the sum of its counts over each list, and without a limit the
/// trigram query over both lists lists exactly the rows of the queries over each.
pub proof fn law_trigram_disjoint_app_lists_add(
    t: Multiset<TrigramRow>,
    a: Seq<Seq<char>>,
    b: Seq<Seq<char>>,
    rows_ab: Seq<((Seq<char>, Seq<char>, Seq<char>, Seq<char>, Seq<char>, Seq<char>, Seq<char>), int)>,
    rows_a: Seq<((Seq<char>, Seq<char>, Seq<char>, Seq<char>, Seq<char>, Seq<char>, Seq<char>), int)>,
    rows_b: Seq<((Seq<char>, Seq<char>, Seq<char>, Seq<char>, Seq<char>, Seq<char>, Seq<char>), int)>,
)
    requires
        a.len() > 0,
        b.len() > 0,
        forall|x: Seq<char>| a.contains(x) ==> !b.contains(x),
        ranked(rows_ab, |g: (Seq<char>, Seq<char>, Seq<char>, Seq<char>, Seq<char>, Seq<char>, Seq<char>)| trigram_count(t, a + b, g), -1),
        ranked(rows_a, |g: (Seq<char>, Seq<char>, Seq<char>, Seq<char>, Seq<char>, Seq<char>, Seq<char>)| trigram_count(t, a, g), -1),
        ranked(rows_b, |g: (Seq<char>, Seq<char>, Seq<char>, Seq<char>, Seq<char>, Seq<char>, Seq<char>)| trigram_count(t, b, g), -1),
    ensures
        forall|g: (Seq<char>, Seq<char>, Seq<char>, Seq<char>, Seq<char>, Seq<char>, Seq<char>)|
            #[trigger] trigram_count(t, a + b, g) == trigram_count(t, a, g) + trigram_count(t, b, g),
        rows_ab.to_multiset() == rows_a.to_multiset().add(rows_b.to_multiset()),
{
    assert forall|g: (Seq<char>, Seq<char>, Seq<char>, Seq<char>, Seq<char>, Seq<char>, Seq<char>)|
        #[trigger] trigram_count(t, a + b, g) == trigram_count(t, a, g) + trigram_count(t, b, g) by {
        lemma_concat_contains(a, b, g.6);
        law_trigram_filter_is_union_of_apps(t, a + b, g);
        law_trigram_filter_is_union_of_apps(t, a, g);
        law_trigram_filter_is_union_of_apps(t, b, g);
    }
    assert forall|g: (Seq<char>, Seq<char>, Seq<char>, Seq<char>, Seq<char>, Seq<char>, Seq<char>)|
        #[trigger] trigram_count(t, a, g) == 0 || trigram_count(t, b, g) == 0 by {
        law_trigram_filter_is_union_of_apps(t, a, g);
        law_trigram_filter_is_union_of_apps(t, b, g);
    }
    lemma_disjoint_counts_add_rows(
        rows_ab,
        |g: (Seq<char>, Seq<char>, Seq<char>, Seq<char>, Seq<char>, Seq<char>, Seq<char>)| trigram_count(t, a + b, g),
        rows_a,
        |g: (Seq<char>, Seq<char>, Seq<char>, Seq<char>, Seq<char>, Seq<char>, Seq<char>)| trigram_count(t, a, g),
        rows_b,
        |g: (Seq<char>, Seq<char>, Seq<char>, Seq<char>, Seq<char>, Seq<char>, Seq<char>)| trigram_count(t, b, g),
    );
}

/// The count a (key, modifiers) group gets by merging rows of the
/// per-application key query: the sum of the counts listed for it.
pub open spec fn merged_count(
    rows: Seq<((Seq<char>, Seq<char>, Seq<char>), int)>,
    km: (Seq<char>, Seq<char>),
) -> int
    decreases rows.len(),
{
    if rows.len() == 0 {
        0
    } else {
        merged_count(rows.drop_last(), km) + if (rows.last().0.0, rows.last().0.1) == km {
            rows.last().1
        } else {
            0
        }
    }
}

/// Merging distinct groups, each listed with its count over all
/// applications, counts the keystrokes of (key, modifiers) whose group is
/// among them.
proof fn lemma_merged_prefix(
    t: Multiset<KeyRow>,
    rows: Seq<((Seq<char>, Seq<char>, Seq<char>), int)>,
    km: (Seq<char>, Seq<char>),
)
    requires
        forall|i: int| 0 <= i < rows.len() ==> #[trigger] rows[i].1 == key_count(t, Seq::empty(), rows[i].0),
        forall|i: int, j: int| 0 <= i < j < rows.len() ==> rows[i].0 != rows[j].0,
    ensures
        merged_count(rows, km) == t.filter(
            |r: KeyRow| r.1 == km.0 && r.2 == km.1 && listed(rows, (r.1, r.2, r.3)),
        ).len(),
    decreases rows.len(),
{
    let f = |r: KeyRow| r.1 == km.0 && r.2 == km.1 && listed(rows, (r.1, r.2, r.3));
    if rows.len() == 0 {
        assert(t.filter(f) =~= Multiset::empty());
    } else {
        let s = rows.drop_last();
        let last = rows.last();
        lemma_merged_prefix(t, s, km);
        let f1 = |r: KeyRow| r.1 == km.0 && r.2 == km.1 && listed(s, (r.1, r.2, r.3));
        let f2 = |r: KeyRow| r.1 == km.0 && r.2 == km.1 && (r.1, r.2, r.3) == last.0;
        assert forall|g: (Seq<char>, Seq<char>, Seq<char>)| listed(rows, g) <==> listed(s, g) || g == last.0 by {
            if listed(rows, g) {
                let i = choose|i: int| 0 <= i < rows.len() && rows[i].0 == g;
                if i < s.len() {
                    assert(s[i] == rows[i]);
                }
            }
            if listed(s, g) {
                let i = choose|i: int| 0 <= i < s.len() && s[i].0 == g;
                assert(rows[i] == s[i]);
            }
            if g == last.0 {
                assert(rows[rows.len() - 1].0 == g);
            }
        }
        assert(!listed(s, last.0)) by {
            if listed(s, last.0) {
                let i = choose|i: int| 0 <= i < s.len() && s[i].0 == last.0;
                assert(rows[i].0 != rows[rows.len() - 1].0);
            }
        }
        assert(t.filter(f) =~= t.filter(f1).add(t.filter(f2)));
        assert(rows[rows.len() - 1].1 == key_count(t, Seq::empty(), rows[rows.len() - 1].0));
        if (last.0.0, last.0.1) == km {
            let q = |r: KeyRow|
                r.1 == last.0.0 && r.2 == last.0.1 && r.3 == last.0.2 && selected(Seq::<Seq<char>>::empty(), r.3);
            assert(t.filter(f2) =~= t.filter(q));
        } else {
            assert(t.filter(f2) =~= Multiset::empty());
        }
    }
}

/// The global key query merges the per-application rows: without limits,
/// each (key, modifiers) group is counted the sum of the counts that the
/// key query over every application lists for it, and it is listed exactly
/// when one of those rows is.
pub proof fn law_global_keys_merge_apps(
    t: Multiset<KeyRow>,
    rows_g: Seq<((Seq<char>, Seq<char>), int)>,
    rows_p: Seq<((Seq<char>, Seq<char>, Seq<char>), int)>,
)
    requires
        ranked(rows_g, |km: (Seq<char>, Seq<char>)| key_mods_count(t, km), -1),
        ranked(rows_p, |g: (Seq<char>, Seq<char>, Seq<char>)| key_count(t, Seq::empty(), g), -1),
    ensures
        forall|km: (Seq<char>, Seq<char>)| #[trigger] key_mods_count(t, km) == merged_count(rows_p, km),
        forall|i: int| 0 <= i < rows_g.len() ==> #[trigger] rows_g[i].1 == merged_count(rows_p, rows_g[i].0),
        forall|km: (Seq<char>, Seq<char>)|
            #[trigger] listed(rows_g, km) <==> exists|j: int|
                0 <= j < rows_p.len() && (rows_p[j].0.0, rows_p[j].0.1) == km,
{
    let cp = |g: (Seq<char>, Seq<char>, Seq<char>)| key_count(t, Seq::empty(), g);
    let cg = |km: (Seq<char>, Seq<char>)| key_mods_count(t, km);
    assert forall|km: (Seq<char>, Seq<char>)| #[trigger] key_mods_count(t, km) == merged_count(rows_p, km) by {
        lemma_merged_prefix(t, rows_p, km);
        let f = |r: KeyRow| r.1 == km.0 && r.2 == km.1 && listed(rows_p, (r.1, r.2, r.3));
        let all = |r: KeyRow| r.1 == km.0 && r.2 == km.1;
        assert forall|r: KeyRow| #[trigger] t.count(r) > 0 implies listed(rows_p, (r.1, r.2, r.3)) by {
            let g = (r.1, r.2, r.3);
            let q = |x: KeyRow| x.1 == g.0 && x.2 == g.1 && x.3 == g.2 && selected(Seq::<Seq<char>>::empty(), x.3);
            assert(t.filter(q).count(r) > 0);
            assert(cp(g) > 0);
        }
        assert(t.filter(f) =~= t.filter(all));
    }
    assert forall|i: int| 0 <= i < rows_g.len() implies #[trigger] rows_g[i].1 == merged_count(rows_p, rows_g[i].0) by {
        assert(rows_g[i].1 == cg(rows_g[i].0));
    }
    assert forall|km: (Seq<char>, Seq<char>)|
        #[trigger] listed(rows_g, km) <==> exists|j: int|
            0 <= j < rows_p.len() && (rows_p[j].0.0, rows_p[j].0.1) == km by {
        let all = |r: KeyRow| r.1 == km.0 && r.2 == km.1;
        if listed(rows_g, km) {
            let i = choose|i: int| 0 <= i < rows_g.len() && rows_g[i].0 == km;
            assert(rows_g[i].1 == cg(km));
            let r = t.filter(all).choose();
            assert(t.filter(all).count(r) > 0);
            let g = (r.1, r.2, r.3);
            let q = |x: KeyRow| x.1 == g.0 && x.2 == g.1 && x.3 == g.2 && selected(Seq::<Seq<char>>::empty(), x.3);
            assert(t.filter(q).count(r) > 0);
            assert(cp(g) > 0);
            assert(listed(rows_p, g));
            let j = choose|j: int| 0 <= j < rows_p.len() && rows_p[j].0 == g;
            assert((rows_p[j].0.0, rows_p[j].0.1) == km);
        }
        if exists|j: int| 0 <= j < rows_p.len() && (rows_p[j].0.0, rows_p[j].0.1) == km {
            let j = choose|j: int| 0 <= j < rows_p.len() && (rows_p[j].0.0, rows_p[j].0.1) == km;
            let g = rows_p[j].0;
            assert(rows_p[j].1 == cp(g) && cp(g) > 0);
            let q = |x: KeyRow| x.1 == g.0 && x.2 == g.1 && x.3 == g.2 && selected(Seq::<Seq<char>>::empty(), x.3);
            let r = t.filter(q).choose();
            assert(t.filter(q).count(r) > 0);
            assert(t.filter(all).count(r) > 0);
            assert(cg(km) > 0);
        }
    }
}

/// `--top n` asks for exactly `n` rows at most: a query limited to `n`
/// returns no more than `n` rows, and fewer only when fewer groups have
/// rows, in which case every group with rows is listed. Without a limit
/// every group with rows is listed.
pub proof fn law_top_limits_rows<G>(rows: Seq<(G, int)>, count: spec_fn(G) -> nat, limit: Option<usize>, g: G)
    requires
        limit matches Some(n) ==> n <= i64::MAX,
        ranked(rows, count, limit_value(limit)),
    ensures
        limit matches Some(n) ==> limit_value(limit) == n && rows.len() <= n,
        limit is None ==> limit_value(limit) == -1,
        count(g) > 0 && (limit matches Some(n) ==> rows.len() < n) ==> listed(rows, g),
{
}

} // verus!
