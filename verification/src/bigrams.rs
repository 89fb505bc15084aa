//! The bigram report: the key pairs pressed one after the other within the
//! recording window, most frequent first.

use vstd::prelude::*;
use vstd::string::*;
use crate::clock::{millis_since_epoch, epoch_millis_to_i64};
use vstd::multiset::Multiset;
use crate::sqlite::could_see;
use crate::db::{Db, KeyRow, BigramRow, ranked, bigram_count, limit_value, is_min_ts};
use crate::render::{
    counts_ok, BIGRAM_COUNT_WIDTH, max_byte_len, table_text, rule_text, heading_text, key_label, elapsed_secs,
    append_rule, widest, append_table, append_key_label, duration_since, append_heading,
};
use crate::report::ReportError;
use crate::text::{views, copy_strings};

verus! {

pub struct BigramReport {
    pub generated_at: i64,
    pub recorded_since: Option<i64>,
    pub duration_s: Option<i64>,
    pub filter: Filter,
    pub bigrams: Vec<BigramEntry>,
}

pub struct Filter {
    pub apps: Vec<String>,
    pub top: Option<usize>,
}

#[derive(Clone)]
pub struct BigramEntry {
    pub prev_key: String,
    pub prev_mods: String,
    pub curr_key: String,
    pub curr_mods: String,
    pub app: String,
    pub count: i64,
}

/// An entry as (group, count), the group being (prev_key, prev_mods,
/// curr_key, curr_mods, app).
pub open spec fn entry_view(e: BigramEntry) -> ((Seq<char>, Seq<char>, Seq<char>, Seq<char>, Seq<char>), int) {
    ((e.prev_key@, e.prev_mods@, e.curr_key@, e.curr_mods@, e.app@), e.count as int)
}

pub open spec fn entries_view(es: Seq<BigramEntry>) -> Seq<
    ((Seq<char>, Seq<char>, Seq<char>, Seq<char>, Seq<char>), int),
> {
    es.map_values(|e: BigramEntry| entry_view(e))
}

/// The label of an entry: `prev -> curr`, each side `mods+key` or the bare key.
pub open spec fn label_text(e: BigramEntry) -> Seq<char> {
    key_label(e.prev_mods@, e.prev_key@) + " -> "@ + key_label(e.curr_mods@, e.curr_key@)
}

pub open spec fn labels(es: Seq<BigramEntry>) -> Seq<Seq<char>> {
    es.map_values(|e: BigramEntry| label_text(e))
}

pub open spec fn counts(es: Seq<BigramEntry>) -> Seq<i64> {
    es.map_values(|e: BigramEntry| e.count)
}

pub open spec fn apps_column(es: Seq<BigramEntry>) -> Seq<Seq<char>> {
    es.map_values(|e: BigramEntry| e.app@)
}

/// What the text report prints for these applications and entries.
pub open spec fn text_of(apps: Seq<Seq<char>>, es: Seq<BigramEntry>) -> Seq<char> {
    if es.len() == 0 {
        "No bigrams recorded yet.\n"@
    } else {
        "\n"@ + heading_text(apps, "Global bigram report"@, "Bigram report — "@)
            + "\n"@ + rule_text() + table_text(
            labels(es),
            counts(es),
            Some(apps_column(es)),
            max_byte_len(labels(es)),
            BIGRAM_COUNT_WIDTH as nat,
            es.len(),
        ) + "\n"@
    }
}

/// What the text report prints.
pub open spec fn report_text(rep: BigramReport) -> Seq<char> {
    text_of(views(rep.filter.apps@), rep.bigrams@)
}

/// The label of an entry: `prev -> curr`, each side `mods+key` or the bare key.
pub fn display_label(e: &BigramEntry) -> (r: String)
    ensures
        r@ == label_text(*e),
{
    let mut r = String::new();
    append_key_label(&mut r, e.prev_mods.as_str(), e.prev_key.as_str());
    r.append(" -> ");
    append_key_label(&mut r, e.curr_mods.as_str(), e.curr_key.as_str());
    r
}

/// Milliseconds since the Unix epoch (cast to `i64` as `as` does), none when
/// the clock reads before the epoch.
pub fn now_unix_ms() -> (r: Option<i64>) {
    epoch_millis_to_i64(millis_since_epoch())
}

/// Builds the bigram report of the named applications (of all when none is
/// named), at most `top` entries, with the time it was made and the time of
/// the first recorded keystroke.
pub fn build(apps: &[String], top: Option<usize>, db: &Db) -> (r: Result<BigramReport, ReportError>)
    ensures
        r matches Ok(rep) ==> {
            &&& views(rep.filter.apps@) == views(apps@)
            &&& rep.filter.top == top
            &&& exists|b: Multiset<BigramRow>|
                #[trigger] could_see(db.in_memory(), db.bigrams(), b) && ranked(
                    entries_view(rep.bigrams@),
                    |g: (Seq<char>, Seq<char>, Seq<char>, Seq<char>, Seq<char>)| bigram_count(b, views(apps@), g),
                    limit_value(top),
                )
            &&& exists|k: Multiset<KeyRow>|
                #[trigger] could_see(db.in_memory(), db.keystrokes(), k) && is_min_ts(k, rep.recorded_since)
            &&& rep.duration_s == elapsed_secs(rep.generated_at, rep.recorded_since)
        },
{
    let rows = match db.top_bigrams(apps, top) {
        Ok(rows) => rows,
        Err(e) => { return Err(ReportError::Query(e)); },
    };
    let now = match now_unix_ms() {
        Some(now) => now,
        None => { return Err(ReportError::Clock); },
    };
    let recorded_since = match db.first_ts() {
        Ok(v) => v,
        Err(e) => { return Err(ReportError::Query(e)); },
    };
    let duration_s = duration_since(now, recorded_since);
    let mut entries: Vec<BigramEntry> = Vec::new();
    let mut i: usize = 0;
    while i < rows.len()
        invariant
            i <= rows.len(),
            entries@.len() == i,
            forall|j: int| 0 <= j < i ==> entry_view(#[trigger] entries@[j]) == (
                (rows@[j].0@, rows@[j].1@, rows@[j].2@, rows@[j].3@, rows@[j].4@),
                rows@[j].5 as int,
            ),
        decreases rows.len() - i,
    {
        let row = &rows[i];
        entries.push(BigramEntry {
            prev_key: row.0.clone(),
            prev_mods: row.1.clone(),
            curr_key: row.2.clone(),
            curr_mods: row.3.clone(),
            app: row.4.clone(),
            count: row.5,
        });
        i = i + 1;
    }
    proof {
        assert(entries_view(entries@) =~= crate::db::bigram_rows_view(rows@));
        let b = choose|b: Multiset<BigramRow>|
            could_see(db.in_memory(), db.bigrams(), b) && ranked(
                crate::db::bigram_rows_view(rows@),
                |g: (Seq<char>, Seq<char>, Seq<char>, Seq<char>, Seq<char>)| bigram_count(b, views(apps@), g),
                limit_value(top),
            );
        assert(could_see(db.in_memory(), db.bigrams(), b));
        let k = choose|k: Multiset<KeyRow>|
            could_see(db.in_memory(), db.keystrokes(), k) && is_min_ts(k, recorded_since);
        assert(could_see(db.in_memory(), db.keystrokes(), k));
    }
    Ok(BigramReport {
        generated_at: now,
        recorded_since,
        duration_s,
        filter: Filter { apps: copy_strings(apps), top },
        bigrams: entries,
    })
}

/// The text report: a heading, a rule, and one numbered line per bigram with
/// its count, a bar scaled to the first (largest) count, and its application.
pub fn render_entries(apps: &Vec<String>, es: &Vec<BigramEntry>) -> (r: String)
    requires
        counts_ok(counts(es@)),
    ensures
        r@ == text_of(views(apps@), es@),
{
    if es.len() == 0 {
        return String::from_str("No bigrams recorded yet.\n");
    }
    let mut labs: Vec<String> = Vec::new();
    let mut cnts: Vec<i64> = Vec::new();
    let mut app_col: Vec<String> = Vec::new();
    let mut i: usize = 0;
    while i < es.len()
        invariant
            i <= es.len(),
            labs@.len() == i,
            cnts@.len() == i,
            app_col@.len() == i,
            forall|j: int| 0 <= j < i ==> #[trigger] labs@[j]@ == label_text(es@[j]),
            forall|j: int| 0 <= j < i ==> #[trigger] cnts@[j] == es@[j].count,
            forall|j: int| 0 <= j < i ==> #[trigger] app_col@[j]@ == es@[j].app@,
        decreases es.len() - i,
    {
        labs.push(display_label(&es[i]));
        cnts.push(es[i].count);
        app_col.push(es[i].app.clone());
        i = i + 1;
    }
    assert(views(labs@) =~= labels(es@));
    assert(cnts@ =~= counts(es@));
    assert(views(app_col@) =~= apps_column(es@));
    let width = widest(&labs);
    let mut r = String::new();
    r.append("\n");
    append_heading(&mut r, apps, "Global bigram report", "Bigram report — ");
    r.append("\n");
    append_rule(&mut r);
    append_table(&mut r, &labs, &cnts, Some(&app_col), width, BIGRAM_COUNT_WIDTH);
    r.append("\n");
    r
}

/// The text report (see `text_of`).
pub fn render_text(report: &BigramReport) -> (r: String)
    requires
        counts_ok(counts(report.bigrams@)),
    ensures
        r@ == report_text(*report),
{
    render_entries(&report.filter.apps, &report.bigrams)
}

} // verus!
