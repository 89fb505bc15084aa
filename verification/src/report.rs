//! The keystroke report: the most pressed keys, the most used applications,
//! and the bigram and trigram reports, in one document.

use vstd::prelude::*;
use vstd::string::*;
use crate::bigrams;
use crate::trigrams;
use crate::clock::{millis_since_epoch, epoch_millis_to_i64};
use vstd::multiset::Multiset;
use crate::sqlite::could_see;
use crate::db::{
    Db, DbError, KeyRow, BigramRow, TrigramRow, ranked, key_count, key_mods_count, app_count, bigram_count, trigram_count,
    limit_value, is_min_ts, key_rows_view, key_mods_rows_view, app_rows_view,
};
use crate::render::{
    counts_ok, COUNT_WIDTH, max_byte_len, table_text, rule_text, heading_text, key_label, elapsed_secs,
    append_rule, widest, append_table, append_key_label, duration_since, append_heading,
    duration_text, format_duration,
};
use crate::text::{views, copy_strings, decimal, pad_right_seq, append_pad_right, append_i64};

verus! {

/// Why a report could not be built.
#[derive(Debug)]
pub enum ReportError {
    /// A query failed.
    Query(DbError),
    /// The clock reads before the Unix epoch.
    Clock,
}

pub struct Report {
    pub generated_at: i64,
    pub recorded_since: Option<i64>,
    pub duration_s: Option<i64>,
    pub filter: Filter,
    pub keys: Vec<KeyEntry>,
    pub apps: Vec<AppEntry>,
    pub bigrams: Vec<bigrams::BigramEntry>,
    pub trigrams: Vec<trigrams::TrigramEntry>,
}

pub struct Filter {
    pub apps: Vec<String>,
    pub top: Option<usize>,
}

pub struct KeyEntry {
    pub key: String,
    pub modifiers: String,
    pub app: String,
    pub count: i64,
}

pub struct AppEntry {
    pub class: String,
    pub count: i64,
}

/// A key entry as (group, count), the group being (key, modifiers, app).
pub open spec fn key_entries_view(es: Seq<KeyEntry>) -> Seq<((Seq<char>, Seq<char>, Seq<char>), int)> {
    es.map_values(|e: KeyEntry| ((e.key@, e.modifiers@, e.app@), e.count as int))
}

/// A key entry as ((key, modifiers), count), ignoring the application.
pub open spec fn key_mods_entries_view(es: Seq<KeyEntry>) -> Seq<((Seq<char>, Seq<char>), int)> {
    es.map_values(|e: KeyEntry| ((e.key@, e.modifiers@), e.count as int))
}

/// An application entry as (class, count).
pub open spec fn app_entries_view(es: Seq<AppEntry>) -> Seq<(Seq<char>, int)> {
    es.map_values(|e: AppEntry| (e.class@, e.count as int))
}

/// The label of a key entry: `modifiers+key`, or the bare key.
pub open spec fn label_text(e: KeyEntry) -> Seq<char> {
    key_label(e.modifiers@, e.key@)
}

pub open spec fn labels(es: Seq<KeyEntry>) -> Seq<Seq<char>> {
    es.map_values(|e: KeyEntry| label_text(e))
}

pub open spec fn counts(es: Seq<KeyEntry>) -> Seq<i64> {
    es.map_values(|e: KeyEntry| e.count)
}

pub open spec fn apps_column(es: Seq<KeyEntry>) -> Seq<Seq<char>> {
    es.map_values(|e: KeyEntry| e.app@)
}

pub open spec fn classes(es: Seq<AppEntry>) -> Seq<Seq<char>> {
    es.map_values(|e: AppEntry| e.class@)
}

/// The lines of the top-applications section: `  {class:<width}  {count} keystrokes`.
pub open spec fn app_lines(es: Seq<AppEntry>, width: nat, n: nat) -> Seq<char>
    decreases n,
{
    if n == 0 {
        Seq::empty()
    } else {
        let e = es[n - 1];
        app_lines(es, width, (n - 1) as nat) + "  "@ + pad_right_seq(e.class@, width) + "  "@ + decimal(
            e.count as int,
        ) + " keystrokes\n"@
    }
}

/// The top-applications section, shown when there are applications.
pub open spec fn apps_section(es: Seq<AppEntry>) -> Seq<char> {
    if es.len() == 0 {
        Seq::empty()
    } else {
        "\nTop apps\n"@ + rule_text() + app_lines(es, max_byte_len(classes(es)), es.len())
    }
}

/// The key part of the text report: heading, duration, rule and key table.
pub open spec fn keys_text(apps: Seq<Seq<char>>, duration_s: Option<i64>, es: Seq<KeyEntry>) -> Seq<char> {
    "\n"@ + heading_text(apps, "Global keystroke report"@, "Keystroke report — "@) + "\n"@
        + trigrams::duration_line(duration_s) + rule_text() + table_text(
        labels(es),
        counts(es),
        if apps.len() == 0 {
            None
        } else {
            Some(apps_column(es))
        },
        max_byte_len(labels(es)),
        COUNT_WIDTH as nat,
        es.len(),
    )
}

/// What the text report prints.
pub open spec fn report_text(rep: Report) -> Seq<char> {
    let apps = views(rep.filter.apps@);
    if rep.keys@.len() == 0 {
        "No keystrokes recorded yet.\n"@
    } else {
        keys_text(apps, rep.duration_s, rep.keys@) + apps_section(rep.apps@) + (if rep.bigrams@.len()
            == 0 {
            Seq::empty()
        } else {
            bigrams::text_of(apps, rep.bigrams@)
        }) + (if rep.trigrams@.len() == 0 {
            Seq::empty()
        } else {
            trigrams::text_of(apps, rep.duration_s, rep.trigrams@)
        }) + "\n"@
    }
}

/// The label of a key entry: `modifiers+key`, or the bare key.
pub fn display_label(entry: &KeyEntry) -> (r: String)
    ensures
        r@ == label_text(*entry),
{
    let mut r = String::new();
    append_key_label(&mut r, entry.modifiers.as_str(), entry.key.as_str());
    r
}

/// Milliseconds since the Unix epoch (cast to `i64` as `as` does), none when
/// the clock reads before the epoch.
pub fn now_unix_ms() -> (r: Option<i64>) {
    epoch_millis_to_i64(millis_since_epoch())
}

/// A duration in seconds as `{d}d {h}h {m}m`, `{h}h {m}m` under a day, or
/// `{m}m` under an hour.
pub fn fmt_duration(secs: i64) -> (r: String)
    ensures
        r@ == duration_text(secs as int),
{
    format_duration(secs)
}

/// Key entries from the rows of the per-application key query.
fn key_entries(rows: &Vec<(String, String, String, i64)>) -> (v: Vec<KeyEntry>)
    ensures
        key_entries_view(v@) == key_rows_view(rows@),
{
    let mut v: Vec<KeyEntry> = Vec::new();
    let mut i: usize = 0;
    while i < rows.len()
        invariant
            i <= rows.len(),
            v@.len() == i,
            forall|j: int| 0 <= j < i ==> key_entries_view(v@)[j] == key_rows_view(rows@)[j],
        decreases rows.len() - i,
    {
        let row = &rows[i];
        v.push(KeyEntry { key: row.0.clone(), modifiers: row.1.clone(), app: row.2.clone(), count: row.3 });
        i = i + 1;
    }
    assert(key_entries_view(v@) =~= key_rows_view(rows@));
    v
}

/// Key entries from the rows of the global key query, with an empty application.
fn global_key_entries(rows: &Vec<(String, String, i64)>) -> (v: Vec<KeyEntry>)
    ensures
        key_mods_entries_view(v@) == key_mods_rows_view(rows@),
        forall|i: int| 0 <= i < v@.len() ==> (#[trigger] v@[i]).app@ == Seq::<char>::empty(),
{
    let mut v: Vec<KeyEntry> = Vec::new();
    let mut i: usize = 0;
    while i < rows.len()
        invariant
            i <= rows.len(),
            v@.len() == i,
            forall|j: int| 0 <= j < i ==> key_mods_entries_view(v@)[j] == key_mods_rows_view(rows@)[j],
            forall|j: int| 0 <= j < i ==> (#[trigger] v@[j]).app@ == Seq::<char>::empty(),
        decreases rows.len() - i,
    {
        let row = &rows[i];
        v.push(KeyEntry { key: row.0.clone(), modifiers: row.1.clone(), app: String::new(), count: row.2 });
        i = i + 1;
    }
    assert(key_mods_entries_view(v@) =~= key_mods_rows_view(rows@));
    v
}

/// Application entries from the rows of the application query.
fn app_entries(rows: &Vec<(String, i64)>) -> (v: Vec<AppEntry>)
    ensures
        app_entries_view(v@) == app_rows_view(rows@),
{
    let mut v: Vec<AppEntry> = Vec::new();
    let mut i: usize = 0;
    while i < rows.len()
        invariant
            i <= rows.len(),
            v@.len() == i,
            forall|j: int| 0 <= j < i ==> app_entries_view(v@)[j] == app_rows_view(rows@)[j],
        decreases rows.len() - i,
    {
        let row = &rows[i];
        v.push(AppEntry { class: row.0.clone(), count: row.1 });
        i = i + 1;
    }
    assert(app_entries_view(v@) =~= app_rows_view(rows@));
    v
}

/// Builds the keystroke report. Without applications named: the most
/// pressed (key, modifiers) pairs over all applications (with an empty
/// application), and every application by its keystrokes. With names: the
/// most pressed (key, modifiers, application) triples of those applications,
/// and no application list. In both cases at most `top` keys, the bigram and
/// trigram entries of the same applications, and the recording times.
pub fn build(apps: &[String], top: Option<usize>, db: &Db) -> (r: Result<Report, ReportError>)
    ensures
        r matches Ok(rep) ==> {
            &&& views(rep.filter.apps@) == views(apps@)
            &&& rep.filter.top == top
            &&& apps@.len() == 0 ==> {
                &&& exists|k: Multiset<KeyRow>|
                    #[trigger] could_see(db.in_memory(), db.keystrokes(), k) && ranked(
                        key_mods_entries_view(rep.keys@),
                        |g: (Seq<char>, Seq<char>)| key_mods_count(k, g),
                        limit_value(top),
                    )
                &&& forall|i: int| 0 <= i < rep.keys@.len() ==> (#[trigger] rep.keys@[i]).app@ == Seq::<
                    char,
                >::empty()
                &&& exists|k: Multiset<KeyRow>|
                    #[trigger] could_see(db.in_memory(), db.keystrokes(), k) && ranked(
                        app_entries_view(rep.apps@),
                        |g: Seq<char>| app_count(k, g),
                        -1,
                    )
            }
            &&& apps@.len() > 0 ==> {
                &&& exists|k: Multiset<KeyRow>|
                    #[trigger] could_see(db.in_memory(), db.keystrokes(), k) && ranked(
                        key_entries_view(rep.keys@),
                        |g: (Seq<char>, Seq<char>, Seq<char>)| key_count(k, views(apps@), g),
                        limit_value(top),
                    )
                &&& rep.apps@.len() == 0
            }
            &&& exists|b: Multiset<BigramRow>|
                #[trigger] could_see(db.in_memory(), db.bigrams(), b) && ranked(
                    bigrams::entries_view(rep.bigrams@),
                    |g: (Seq<char>, Seq<char>, Seq<char>, Seq<char>, Seq<char>)|
                        bigram_count(b, views(apps@), g),
                    limit_value(top),
                )
            &&& exists|t: Multiset<TrigramRow>|
                #[trigger] could_see(db.in_memory(), db.trigrams(), t) && ranked(
                    trigrams::entries_view(rep.trigrams@),
                    |g: (Seq<char>, Seq<char>, Seq<char>, Seq<char>, Seq<char>, Seq<char>, Seq<char>)|
                        trigram_count(t, views(apps@), g),
                    limit_value(top),
                )
            &&& exists|k: Multiset<KeyRow>|
                #[trigger] could_see(db.in_memory(), db.keystrokes(), k) && is_min_ts(k, rep.recorded_since)
            &&& rep.duration_s == elapsed_secs(rep.generated_at, rep.recorded_since)
        },
{
    let keys = if apps.len() == 0 {
        match db.top_keys_global(top) {
            Ok(rows) => global_key_entries(&rows),
            Err(e) => { return Err(ReportError::Query(e)); },
        }
    } else {
        match db.top_keys(apps, top) {
            Ok(rows) => key_entries(&rows),
            Err(e) => { return Err(ReportError::Query(e)); },
        }
    };
    let top_apps = if apps.len() == 0 {
        match db.top_apps(None) {
            Ok(rows) => app_entries(&rows),
            Err(e) => { return Err(ReportError::Query(e)); },
        }
    } else {
        Vec::new()
    };
    let bigram_report = bigrams::build(apps, top, db)?;
    let trigram_report = trigrams::build(apps, top, db)?;
    let now = match now_unix_ms() {
        Some(now) => now,
        None => { return Err(ReportError::Clock); },
    };
    let recorded_since = match db.first_ts() {
        Ok(v) => v,
        Err(e) => { return Err(ReportError::Query(e)); },
    };
    let duration_s = duration_since(now, recorded_since);
    Ok(Report {
        generated_at: now,
        recorded_since,
        duration_s,
        filter: Filter { apps: copy_strings(apps), top },
        keys,
        apps: top_apps,
        bigrams: bigram_report.bigrams,
        trigrams: trigram_report.trigrams,
    })
}

/// Appends the top-applications section (see `apps_section`).
fn append_apps_section(s: &mut String, es: &Vec<AppEntry>)
    ensures
        final(s)@ == old(s)@ + apps_section(es@),
{
    if es.len() == 0 {
        return;
    }
    s.append("\nTop apps\n");
    append_rule(s);
    let mut names: Vec<String> = Vec::new();
    let mut i: usize = 0;
    while i < es.len()
        invariant
            i <= es.len(),
            names@.len() == i,
            forall|j: int| 0 <= j < i ==> #[trigger] names@[j]@ == es@[j].class@,
        decreases es.len() - i,
    {
        names.push(es[i].class.clone());
        i = i + 1;
    }
    assert(views(names@) =~= classes(es@));
    let width = widest(&names);
    let ghost start = s@;
    let mut i: usize = 0;
    while i < es.len()
        invariant
            i <= es.len(),
            width == max_byte_len(classes(es@)),
            s@ == start + app_lines(es@, width as nat, i as nat),
        decreases es.len() - i,
    {
        let ghost before = s@;
        s.append("  ");
        append_pad_right(s, es[i].class.as_str(), width);
        s.append("  ");
        append_i64(s, es[i].count);
        s.append(" keystrokes\n");
        assert(s@ =~= start + app_lines(es@, width as nat, (i + 1) as nat));
        i = i + 1;
    }
}

/// The key part of the text report (see `keys_text`).
fn render_keys(apps: &Vec<String>, duration_s: Option<i64>, es: &Vec<KeyEntry>) -> (r: String)
    requires
        counts_ok(counts(es@)),
    ensures
        r@ == keys_text(views(apps@), duration_s, es@),
{
    let mut labs: Vec<String> = Vec::new();
    let mut cnts: Vec<i64> = Vec::new();
    let mut app_col: Vec<String> = Vec::new();
    let mut i: usize = 0;
    while i < es.len()
        invariant
            i <= es.len(),
            labs@.len() == i,
            cnts@.len() == i,
            app_col@.len() == i,
            forall|j: int| 0 <= j < i ==> #[trigger] labs@[j]@ == label_text(es@[j]),
            forall|j: int| 0 <= j < i ==> #[trigger] cnts@[j] == es@[j].count,
            forall|j: int| 0 <= j < i ==> #[trigger] app_col@[j]@ == es@[j].app@,
        decreases es.len() - i,
    {
        labs.push(display_label(&es[i]));
        cnts.push(es[i].count);
        app_col.push(es[i].app.clone());
        i = i + 1;
    }
    assert(views(labs@) =~= labels(es@));
    assert(cnts@ =~= counts(es@));
    assert(views(app_col@) =~= apps_column(es@));
    let width = widest(&labs);
    let mut r = String::new();
    r.append("\n");
    append_heading(&mut r, apps, "Global keystroke report", "Keystroke report — ");
    r.append("\n");
    match duration_s {
        Some(d) => {
            r.append("Recording duration: ");
            let text = fmt_duration(d);
            r.append(text.as_str());
            r.append("\n");
        },
        None => {},
    }
    append_rule(&mut r);
    if apps.len() == 0 {
        append_table(&mut r, &labs, &cnts, None, width, COUNT_WIDTH);
    } else {
        append_table(&mut r, &labs, &cnts, Some(&app_col), width, COUNT_WIDTH);
    }
    r
}

/// The text report: a heading, the recording duration when known, a rule,
/// one numbered line per key (with its application when applications are
/// named), the top applications, then the bigram and trigram reports when
/// they have entries.
pub fn render_text(report: &Report) -> (r: String)
    requires
        counts_ok(counts(report.keys@)),
        report.keys@.len() > 0 ==> counts_ok(bigrams::counts(report.bigrams@)),
        report.keys@.len() > 0 ==> counts_ok(trigrams::counts(report.trigrams@)),
    ensures
        r@ == report_text(*report),
{
    if report.keys.len() == 0 {
        return String::from_str("No keystrokes recorded yet.\n");
    }
    let mut r = render_keys(&report.filter.apps, report.duration_s, &report.keys);
    append_apps_section(&mut r, &report.apps);
    if report.bigrams.len() > 0 {
        let text = bigrams::render_entries(&report.filter.apps, &report.bigrams);
        r.append(text.as_str());
    }
    if report.trigrams.len() > 0 {
        let text = trigrams::render_entries(&report.filter.apps, report.duration_s, &report.trigrams);
        r.append(text.as_str());
    }
    r.append("\n");
    r
}

/// A report with keys shows, in order, its key part, its top-applications
/// section (empty without applications), then the bigram section whenever
/// it has bigrams and the trigram section whenever it has trigrams, whatever
/// the applications list holds, and a closing newline.
pub proof fn law_report_sections(rep: Report)
    requires
        rep.keys@.len() > 0,
    ensures
        report_text(rep) == keys_text(views(rep.filter.apps@), rep.duration_s, rep.keys@) + apps_section(
            rep.apps@,
        ) + (if rep.bigrams@.len() > 0 {
            bigrams::text_of(views(rep.filter.apps@), rep.bigrams@)
        } else {
            Seq::empty()
        }) + (if rep.trigrams@.len() > 0 {
            trigrams::text_of(views(rep.filter.apps@), rep.duration_s, rep.trigrams@)
        } else {
            Seq::empty()
        }) + "\n"@,
        rep.bigrams@.len() > 0 ==> exists|pre: Seq<char>, post: Seq<char>|
            report_text(rep) == pre + bigrams::text_of(views(rep.filter.apps@), rep.bigrams@) + post,
        rep.trigrams@.len() > 0 ==> exists|pre: Seq<char>, post: Seq<char>|
            report_text(rep) == pre + trigrams::text_of(views(rep.filter.apps@), rep.duration_s, rep.trigrams@)
                + post,
{
    let apps = views(rep.filter.apps@);
    let k = keys_text(apps, rep.duration_s, rep.keys@) + apps_section(rep.apps@);
    let b = if rep.bigrams@.len() > 0 { bigrams::text_of(apps, rep.bigrams@) } else { Seq::empty() };
    let t = if rep.trigrams@.len() > 0 {
        trigrams::text_of(apps, rep.duration_s, rep.trigrams@)
    } else {
        Seq::empty()
    };
    if rep.bigrams@.len() > 0 {
        assert(report_text(rep) == k + b + (t + "\n"@));
    }
    if rep.trigrams@.len() > 0 {
        assert(report_text(rep) == (k + b) + t + "\n"@);
    }
}

} // verus!
