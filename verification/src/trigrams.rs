//! The trigram report: the key triples pressed one after the other within
//! the recording window, most frequent first.

use vstd::prelude::*;
use vstd::string::*;
use crate::clock::{millis_since_epoch, epoch_millis_to_i64};
use vstd::multiset::Multiset;
use crate::sqlite::could_see;
use crate::db::{Db, KeyRow, TrigramRow, ranked, trigram_count, limit_value, is_min_ts};
use crate::render::{
    counts_ok, COUNT_WIDTH, max_byte_len, table_text, rule_text, heading_text, key_label, elapsed_secs,
    append_rule, widest, append_table, append_key_label, duration_since, append_heading,
    duration_text, format_duration,
};
use crate::report::ReportError;
use crate::text::{views, copy_strings};

verus! {

pub struct TrigramReport {
    pub generated_at: i64,
    pub recorded_since: Option<i64>,
    pub duration_s: Option<i64>,
    pub filter: Filter,
    pub trigrams: Vec<TrigramEntry>,
}

pub struct Filter {
    pub apps: Vec<String>,
    pub top: Option<usize>,
}

#[derive(Clone)]
pub struct TrigramEntry {
    pub first_key: String,
    pub first_mods: String,
    pub mid_key: String,
    pub mid_mods: String,
    pub last_key: String,
    pub last_mods: String,
    pub app: String,
    pub count: i64,
}

/// An entry as (group, count), the group being (first_key, first_mods,
/// mid_key, mid_mods, last_key, last_mods, app).
pub open spec fn entry_view(e: TrigramEntry) -> (
    (Seq<char>, Seq<char>, Seq<char>, Seq<char>, Seq<char>, Seq<char>, Seq<char>),
    int,
) {
    ((e.first_key@, e.first_mods@, e.mid_key@, e.mid_mods@, e.last_key@, e.last_mods@, e.app@), e.count as int)
}

pub open spec fn entries_view(es: Seq<TrigramEntry>) -> Seq<
    ((Seq<char>, Seq<char>, Seq<char>, Seq<char>, Seq<char>, Seq<char>, Seq<char>), int),
> {
    es.map_values(|e: TrigramEntry| entry_view(e))
}

/// The label of an entry: `first -> mid -> last`, each `mods+key` or the bare key.
pub open spec fn label_text(e: TrigramEntry) -> Seq<char> {
    key_label(e.first_mods@, e.first_key@) + " -> "@ + key_label(e.mid_mods@, e.mid_key@) + " -> "@
        + key_label(e.last_mods@, e.last_key@)
}

pub open spec fn labels(es: Seq<TrigramEntry>) -> Seq<Seq<char>> {
    es.map_values(|e: TrigramEntry| label_text(e))
}

pub open spec fn counts(es: Seq<TrigramEntry>) -> Seq<i64> {
    es.map_values(|e: TrigramEntry| e.count)
}

pub open spec fn apps_column(es: Seq<TrigramEntry>) -> Seq<Seq<char>> {
    es.map_values(|e: TrigramEntry| e.app@)
}

/// The duration line of a report: shown when the recording has a start.
pub open spec fn duration_line(duration_s: Option<i64>) -> Seq<char> {
    match duration_s {
        Some(d) => "Recording duration: "@ + duration_text(d as int) + "\n"@,
        None => Seq::empty(),
    }
}

/// What the text report prints for these applications and entries.
pub open spec fn text_of(apps: Seq<Seq<char>>, duration_s: Option<i64>, es: Seq<TrigramEntry>) -> Seq<char> {
    if es.len() == 0 {
        "No trigrams recorded yet.\n"@
    } else {
        "\n"@ + heading_text(apps, "Global trigram report"@, "Trigram report — "@)
            + "\n"@ + duration_line(duration_s) + rule_text() + table_text(
            labels(es),
            counts(es),
            Some(apps_column(es)),
            max_byte_len(labels(es)),
            COUNT_WIDTH as nat,
            es.len(),
        ) + "\n"@
    }
}

/// What the text report prints.
pub open spec fn report_text(rep: TrigramReport) -> Seq<char> {
    text_of(views(rep.filter.apps@), rep.duration_s, rep.trigrams@)
}

/// The label of an entry: `first -> mid -> last`, each `mods+key` or the bare key.
pub fn display_label(e: &TrigramEntry) -> (r: String)
    ensures
        r@ == label_text(*e),
{
    let mut r = String::new();
    append_key_label(&mut r, e.first_mods.as_str(), e.first_key.as_str());
    r.append(" -> ");
    append_key_label(&mut r, e.mid_mods.as_str(), e.mid_key.as_str());
    r.append(" -> ");
    append_key_label(&mut r, e.last_mods.as_str(), e.last_key.as_str());
    r
}

/// A duration in seconds as `{d}d {h}h {m}m`, `{h}h {m}m` under a day, or
/// `{m}m` under an hour.
pub fn fmt_duration(secs: i64) -> (r: String)
    ensures
        r@ == duration_text(secs as int),
{
    format_duration(secs)
}

/// Milliseconds since the Unix epoch (cast to `i64` as `as` does), none when
/// the clock reads before the epoch.
pub fn now_unix_ms() -> (r: Option<i64>) {
    epoch_millis_to_i64(millis_since_epoch())
}

/// Builds the trigram report of the named applications (of all when none is
/// named), at most `top` entries, with the time it was made and the time of
/// the first recorded keystroke.
pub fn build(apps: &[String], top: Option<usize>, db: &Db) -> (r: Result<TrigramReport, ReportError>)
    ensures
        r matches Ok(rep) ==> {
            &&& views(rep.filter.apps@) == views(apps@)
            &&& rep.filter.top == top
            &&& exists|t: Multiset<TrigramRow>|
                #[trigger] could_see(db.in_memory(), db.trigrams(), t) && ranked(
                    entries_view(rep.trigrams@),
                    |g: (Seq<char>, Seq<char>, Seq<char>, Seq<char>, Seq<char>, Seq<char>, Seq<char>)| trigram_count(t, views(apps@), g),
                    limit_value(top),
                )
            &&& exists|k: Multiset<KeyRow>|
                #[trigger] could_see(db.in_memory(), db.keystrokes(), k) && is_min_ts(k, rep.recorded_since)
            &&& rep.duration_s == elapsed_secs(rep.generated_at, rep.recorded_since)
        },
{
    let rows = match db.top_trigrams(apps, top) {
        Ok(rows) => rows,
        Err(e) => { return Err(ReportError::Query(e)); },
    };
    let now = match now_unix_ms() {
        Some(now) => now,
        None => { return Err(ReportError::Clock); },
    };
    let recorded_since = match db.first_ts() {
        Ok(v) => v,
        Err(e) => { return Err(ReportError::Query(e)); },
    };
    let duration_s = duration_since(now, recorded_since);
    let mut entries: Vec<TrigramEntry> = Vec::new();
    let mut i: usize = 0;
    while i < rows.len()
        invariant
            i <= rows.len(),
            entries@.len() == i,
            forall|j: int| 0 <= j < i ==> entry_view(#[trigger] entries@[j]) == (
                (rows@[j].0@, rows@[j].1@, rows@[j].2@, rows@[j].3@, rows@[j].4@, rows@[j].5@, rows@[j].6@),
                rows@[j].7 as int,
            ),
        decreases rows.len() - i,
    {
        let row = &rows[i];
        entries.push(TrigramEntry {
            first_key: row.0.clone(),
            first_mods: row.1.clone(),
            mid_key: row.2.clone(),
            mid_mods: row.3.clone(),
            last_key: row.4.clone(),
            last_mods: row.5.clone(),
            app: row.6.clone(),
            count: row.7,
        });
        i = i + 1;
    }
    proof {
        assert(entries_view(entries@) =~= crate::db::trigram_rows_view(rows@));
        let t = choose|t: Multiset<TrigramRow>|
            could_see(db.in_memory(), db.trigrams(), t) && ranked(
                crate::db::trigram_rows_view(rows@),
                |g: (Seq<char>, Seq<char>, Seq<char>, Seq<char>, Seq<char>, Seq<char>, Seq<char>)| trigram_count(t, views(apps@), g),
                limit_value(top),
            );
        assert(could_see(db.in_memory(), db.trigrams(), t));
        let k = choose|k: Multiset<KeyRow>|
            could_see(db.in_memory(), db.keystrokes(), k) && is_min_ts(k, recorded_since);
        assert(could_see(db.in_memory(), db.keystrokes(), k));
    }
    Ok(TrigramReport {
        generated_at: now,
        recorded_since,
        duration_s,
        filter: Filter { apps: copy_strings(apps), top },
        trigrams: entries,
    })
}

/// The text report: a heading, the recording duration when known, a rule,
/// and one numbered line per trigram with
/// its count, a bar scaled to the first (largest) count, and its application.
pub fn render_entries(apps: &Vec<String>, duration_s: Option<i64>, es: &Vec<TrigramEntry>) -> (r: String)
    requires
        counts_ok(counts(es@)),
    ensures
        r@ == text_of(views(apps@), duration_s, es@),
{
    if es.len() == 0 {
        return String::from_str("No trigrams recorded yet.\n");
    }
    let mut labs: Vec<String> = Vec::new();
    let mut cnts: Vec<i64> = Vec::new();
    let mut app_col: Vec<String> = Vec::new();
    let mut i: usize = 0;
    while i < es.len()
        invariant
            i <= es.len(),
            labs@.len() == i,
            cnts@.len() == i,
            app_col@.len() == i,
            forall|j: int| 0 <= j < i ==> #[trigger] labs@[j]@ == label_text(es@[j]),
            forall|j: int| 0 <= j < i ==> #[trigger] cnts@[j] == es@[j].count,
            forall|j: int| 0 <= j < i ==> #[trigger] app_col@[j]@ == es@[j].app@,
        decreases es.len() - i,
    {
        labs.push(display_label(&es[i]));
        cnts.push(es[i].count);
        app_col.push(es[i].app.clone());
        i = i + 1;
    }
    assert(views(labs@) =~= labels(es@));
    assert(cnts@ =~= counts(es@));
    assert(views(app_col@) =~= apps_column(es@));
    let width = widest(&labs);
    let mut r = String::new();
    r.append("\n");
    append_heading(&mut r, apps, "Global trigram report", "Trigram report — ");
    r.append("\n");
    match duration_s {
        Some(d) => {
            r.append("Recording duration: ");
            let text = fmt_duration(d);
            r.append(text.as_str());
            r.append("\n");
        },
        None => {},
    }
    append_rule(&mut r);
    append_table(&mut r, &labs, &cnts, Some(&app_col), width, COUNT_WIDTH);
    r.append("\n");
    r
}

/// The text report (see `text_of`).
pub fn render_text(report: &TrigramReport) -> (r: String)
    requires
        counts_ok(counts(report.trigrams@)),
    ensures
        r@ == report_text(*report),
{
    render_entries(&report.filter.apps, report.duration_s, &report.trigrams)
}

} // verus!
