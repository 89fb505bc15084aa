use regkey::clock::epoch_millis_to_i64;
use regkey::bigrams::{self, BigramEntry, BigramReport};
use regkey::db::Db;
use regkey::record::{
    key_name, Event, ModifierState, Recorder, KEY_LEFTCTRL, KEY_LEFTSHIFT,
    KEY_RIGHTCTRL, KEY_RIGHTSHIFT,
};
use regkey::report::{self, AppEntry, KeyEntry, Report};
use regkey::trigrams::{self, TrigramEntry, TrigramReport};
use regkey::window::hyprland::HyprlandProvider;
use regkey::window::null::NullProvider;
use regkey::window::sway::SwayProvider;
use regkey::window::{provider_for, ProviderKind};

fn key(k: &str, m: &str, ts: i64) -> Event {
    Event::Key { key: k.to_string(), modifiers: m.to_string(), ts }
}

fn focus(class: &str, title: &str) -> Event {
    Event::AppChange { class: class.to_string(), title: title.to_string() }
}

fn bigram_entry(pk: &str, pm: &str, ck: &str, cm: &str, app: &str, count: i64) -> BigramEntry {
    BigramEntry {
        prev_key: pk.into(),
        prev_mods: pm.into(),
        curr_key: ck.into(),
        curr_mods: cm.into(),
        app: app.into(),
        count,
    }
}

fn trigram_entry(keys: [&str; 6], app: &str, count: i64) -> TrigramEntry {
    TrigramEntry {
        first_key: keys[0].into(),
        first_mods: keys[1].into(),
        mid_key: keys[2].into(),
        mid_mods: keys[3].into(),
        last_key: keys[4].into(),
        last_mods: keys[5].into(),
        app: app.into(),
        count,
    }
}

// ---- recorder ----

#[test]
fn recorder_adds_bigram_within_window() {
    let mut db = Db::open_in_memory().unwrap();
    let mut rec = Recorder::new(2000);
    rec.handle(&mut db, focus("kitty", "shell")).unwrap();
    rec.handle(&mut db, key("j", "", 1000)).unwrap();
    rec.handle(&mut db, key("k", "", 2500)).unwrap();
    let rows = db.top_bigrams(&[], None).unwrap();
    assert_eq!(rows, vec![("j".into(), "".into(), "k".into(), "".into(), "kitty".into(), 1)]);
    assert_eq!(db.top_keys(&[], None).unwrap().len(), 2);
    assert!(db.top_trigrams(&[], None).unwrap().is_empty());
}

#[test]
fn recorder_skips_bigram_outside_window() {
    let mut db = Db::open_in_memory().unwrap();
    let mut rec = Recorder::new(1000);
    rec.handle(&mut db, key("j", "", 1000)).unwrap();
    rec.handle(&mut db, key("k", "", 2000)).unwrap();
    assert!(db.top_bigrams(&[], None).unwrap().is_empty());
    rec.handle(&mut db, key("l", "", 2999)).unwrap();
    assert_eq!(db.top_bigrams(&[], None).unwrap().len(), 1);
}

#[test]
fn recorder_adds_trigram_for_three_quick_presses() {
    let mut db = Db::open_in_memory().unwrap();
    let mut rec = Recorder::new(2000);
    rec.handle(&mut db, focus("emacs", "")).unwrap();
    rec.handle(&mut db, key("c", "ctrl", 10)).unwrap();
    rec.handle(&mut db, key("x", "ctrl", 20)).unwrap();
    rec.handle(&mut db, key("s", "ctrl", 30)).unwrap();
    let rows = db.top_trigrams(&[], None).unwrap();
    assert_eq!(
        rows,
        vec![(
            "c".into(),
            "ctrl".into(),
            "x".into(),
            "ctrl".into(),
            "s".into(),
            "ctrl".into(),
            "emacs".into(),
            1
        )]
    );
    assert_eq!(db.top_bigrams(&[], None).unwrap().len(), 2);
}

#[test]
fn recorder_focus_change_breaks_sequences() {
    let mut db = Db::open_in_memory().unwrap();
    let mut rec = Recorder::new(2000);
    rec.handle(&mut db, focus("kitty", "")).unwrap();
    rec.handle(&mut db, key("a", "", 1)).unwrap();
    rec.handle(&mut db, focus("emacs", "")).unwrap();
    rec.handle(&mut db, key("b", "", 2)).unwrap();
    assert!(db.top_bigrams(&[], None).unwrap().is_empty());
    assert!(rec.prev.is_some());
    assert!(rec.prev_prev.is_none());
    let keys = db.top_keys(&["emacs".to_string()], None).unwrap();
    assert_eq!(keys, vec![("b".into(), "".into(), "emacs".into(), 1)]);
}

#[test]
fn recorder_stores_title_with_keystroke() {
    let mut db = Db::open_in_memory().unwrap();
    let mut rec = Recorder::new(2000);
    rec.handle(&mut db, focus("firefox", "Docs")).unwrap();
    rec.handle(&mut db, key("a", "", 5)).unwrap();
    assert_eq!(db.top_apps(None).unwrap(), vec![("firefox".into(), 1)]);
    assert_eq!(db.first_ts().unwrap(), Some(5));
}

// ---- modifiers and key names ----

#[test]
fn modifier_text_order() {
    let mut m = ModifierState::default();
    assert_eq!(m.as_string(), "");
    m.press(KEY_LEFTSHIFT);
    m.press(KEY_RIGHTCTRL);
    assert_eq!(m.as_string(), "ctrl+shift");
    m.sup = true;
    m.alt = true;
    assert_eq!(m.as_string(), "ctrl+alt+super+shift");
    m.release(KEY_LEFTCTRL);
    assert_eq!(m.as_string(), "alt+super+shift");
    m.release(KEY_RIGHTSHIFT);
    assert_eq!(m.as_string(), "alt+super");
}

#[test]
fn modifier_press_release_roundtrip() {
    let mut m = ModifierState::default();
    m.press(KEY_LEFTCTRL);
    m.release(KEY_LEFTCTRL);
    assert!(!m.ctrl && !m.shift && !m.alt && !m.sup);
    m.press(30);
    assert_eq!(m.as_string(), "");
}

#[test]
fn key_events_emit_only_non_modifier_presses() {
    let mut m = ModifierState::default();
    assert_eq!(m.on_key_event(KEY_LEFTCTRL, 1), None);
    assert_eq!(m.on_key_event(46, 1), Some(("c".to_string(), "ctrl".to_string())));
    assert_eq!(m.on_key_event(46, 2), None);
    assert_eq!(m.on_key_event(46, 0), None);
    assert_eq!(m.on_key_event(KEY_LEFTCTRL, 0), None);
    assert_eq!(m.on_key_event(47, 1), Some(("v".to_string(), "".to_string())));
}

#[test]
fn key_names_drop_prefix_and_lowercase() {
    assert_eq!(key_name(30), "a");
    assert_eq!(key_name(28), "enter");
    assert_eq!(key_name(272), "btn_left");
    assert_eq!(key_name(KEY_LEFTSHIFT), "leftshift");
}

#[test]
fn key_name_of_unknown_code() {
    assert_eq!(key_name(0x2ff), "unknown key: 767");
}

// ---- hyprland ----

#[test]
fn hyprland_line_with_title() {
    match HyprlandProvider::parse_event_line("activewindow>>kitty,~/src, main") {
        Some(Event::AppChange { class, title }) => {
            assert_eq!(class, "kitty");
            assert_eq!(title, "~/src, main");
        },
        _ => panic!("expected a focus change"),
    }
}

#[test]
fn hyprland_line_without_comma() {
    match HyprlandProvider::parse_event_line("activewindow>>emacs") {
        Some(Event::AppChange { class, title }) => {
            assert_eq!(class, "emacs");
            assert_eq!(title, "");
        },
        _ => panic!("expected a focus change"),
    }
}

#[test]
fn hyprland_other_lines_ignored() {
    assert!(HyprlandProvider::parse_event_line("workspace>>2").is_none());
    assert!(HyprlandProvider::parse_event_line("activewindowv2>>abc").is_none());
    assert!(HyprlandProvider::parse_event_line("").is_none());
}

#[test]
fn hyprland_active_window_answer() {
    let answer = r#"{"class": "kitty", "title": "vim", "pid": 12}"#;
    match HyprlandProvider::active_window_event(answer) {
        Some(Event::AppChange { class, title }) => {
            assert_eq!(class, "kitty");
            assert_eq!(title, "vim");
        },
        _ => panic!("expected a focus change"),
    }
}

#[test]
fn hyprland_active_window_missing_members() {
    match HyprlandProvider::active_window_event("{}") {
        Some(Event::AppChange { class, title }) => {
            assert_eq!(class, "");
            assert_eq!(title, "");
        },
        _ => panic!("expected a focus change"),
    }
    assert!(HyprlandProvider::active_window_event("not json").is_none());
}

#[test]
fn fallback_providers_events() {
    match NullProvider::event() {
        Event::AppChange { class, title } => assert!(class.is_empty() && title.is_empty()),
        _ => panic!(),
    }
    match SwayProvider::event() {
        Event::AppChange { class, title } => {
            assert_eq!(class, "sway");
            assert!(title.is_empty());
        },
        _ => panic!(),
    }
}

// ---- store ----

#[test]
fn clear_returns_deleted_count_and_clears_trigrams() {
    let mut db = Db::open_in_memory().unwrap();
    db.insert(1, "a", "", "kitty", "").unwrap();
    db.insert(2, "a", "", "kitty", "").unwrap();
    db.insert(3, "b", "", "emacs", "").unwrap();
    db.insert_trigram(3, "a", "", "b", "", "c", "", "kitty").unwrap();
    db.insert_trigram(3, "a", "", "b", "", "c", "", "emacs").unwrap();
    assert_eq!(db.clear(Some("kitty")).unwrap(), 2);
    assert_eq!(db.top_trigrams(&[], None).unwrap().len(), 1);
    assert_eq!(db.clear(None).unwrap(), 1);
    assert!(db.top_trigrams(&[], None).unwrap().is_empty());
    assert_eq!(db.first_ts().unwrap(), None);
}

#[test]
fn top_keys_global_ignores_application() {
    let mut db = Db::open_in_memory().unwrap();
    db.insert(1, "a", "", "kitty", "").unwrap();
    db.insert(2, "a", "", "emacs", "").unwrap();
    db.insert(3, "b", "shift", "emacs", "").unwrap();
    let rows = db.top_keys_global(None).unwrap();
    assert_eq!(rows[0], ("a".into(), "".into(), 2));
    assert_eq!(rows[1], ("b".into(), "shift".into(), 1));
}

#[test]
fn top_apps_leaves_out_empty_class() {
    let mut db = Db::open_in_memory().unwrap();
    db.insert(1, "a", "", "", "").unwrap();
    db.insert(2, "a", "", "", "").unwrap();
    db.insert(3, "b", "", "kitty", "").unwrap();
    assert_eq!(db.top_apps(None).unwrap(), vec![("kitty".into(), 1)]);
    assert_eq!(db.top_apps(Some(0)).unwrap(), vec![]);
}

#[test]
fn first_ts_is_the_smallest() {
    let mut db = Db::open_in_memory().unwrap();
    assert_eq!(db.first_ts().unwrap(), None);
    db.insert(50, "a", "", "kitty", "").unwrap();
    db.insert(7, "b", "", "kitty", "").unwrap();
    db.insert(90, "c", "", "kitty", "").unwrap();
    assert_eq!(db.first_ts().unwrap(), Some(7));
}

#[test]
fn trigrams_filter_and_limit() {
    let mut db = Db::open_in_memory().unwrap();
    db.insert_trigram(1, "a", "", "b", "", "c", "", "kitty").unwrap();
    db.insert_trigram(2, "a", "", "b", "", "c", "", "kitty").unwrap();
    db.insert_trigram(3, "x", "", "y", "", "z", "", "emacs").unwrap();
    let rows = db.top_trigrams(&[], Some(1)).unwrap();
    assert_eq!(rows.len(), 1);
    assert_eq!(rows[0].7, 2);
    let rows = db.top_trigrams(&["emacs".to_string()], None).unwrap();
    assert_eq!(rows.len(), 1);
    assert_eq!(rows[0].0, "x");
}

#[test]
fn many_apps_in_filter() {
    let mut db = Db::open_in_memory().unwrap();
    let names: Vec<String> = (0..12).map(|i| format!("app{i}")).collect();
    for (i, n) in names.iter().enumerate() {
        db.insert(i as i64, "k", "", n, "").unwrap();
    }
    let rows = db.top_keys(&names[9..12], None).unwrap();
    assert_eq!(rows.len(), 3);
    let rows = db.top_keys(&names, Some(5)).unwrap();
    assert_eq!(rows.len(), 5);
}

// ---- reports ----

#[test]
fn fmt_duration_values() {
    assert_eq!(report::fmt_duration(0), "0m");
    assert_eq!(report::fmt_duration(59), "0m");
    assert_eq!(report::fmt_duration(125), "2m");
    assert_eq!(report::fmt_duration(3600), "1h 0m");
    assert_eq!(report::fmt_duration(90061), "1d 1h 1m");
    assert_eq!(trigrams::fmt_duration(7322), "2h 2m");
    assert_eq!(report::fmt_duration(-120), "-2m");
}

#[test]
fn display_labels() {
    let e = bigram_entry("c", "ctrl", "v", "", "kitty", 1);
    assert_eq!(bigrams::display_label(&e), "ctrl+c -> v");
    let t = trigram_entry(["a", "", "b", "shift", "c", "ctrl+alt"], "kitty", 1);
    assert_eq!(trigrams::display_label(&t), "a -> shift+b -> ctrl+alt+c");
    let k = KeyEntry { key: "x".into(), modifiers: "super".into(), app: "".into(), count: 3 };
    assert_eq!(report::display_label(&k), "super+x");
}

#[test]
fn bigram_text_report() {
    let rep = BigramReport {
        generated_at: 0,
        recorded_since: None,
        duration_s: None,
        filter: bigrams::Filter { apps: vec![], top: None },
        bigrams: vec![
            bigram_entry("j", "", "k", "", "kitty", 45),
            bigram_entry("c", "ctrl", "v", "", "kitty", 32),
        ],
    };
    let expected = "\nGlobal bigram report\n".to_string()
        + &"─".repeat(42)
        + "\n"
        + " 1.  j -> k          45  ████████████████████  kitty\n"
        + " 2.  ctrl+c -> v     32  ██████████████        kitty\n"
        + "\n";
    assert_eq!(bigrams::render_text(&rep), expected);
}

#[test]
fn empty_reports_say_so() {
    let rep = BigramReport {
        generated_at: 0,
        recorded_since: None,
        duration_s: None,
        filter: bigrams::Filter { apps: vec![], top: None },
        bigrams: vec![],
    };
    assert_eq!(bigrams::render_text(&rep), "No bigrams recorded yet.\n");
    let rep = TrigramReport {
        generated_at: 0,
        recorded_since: None,
        duration_s: None,
        filter: trigrams::Filter { apps: vec![], top: None },
        trigrams: vec![],
    };
    assert_eq!(trigrams::render_text(&rep), "No trigrams recorded yet.\n");
}

#[test]
fn trigram_text_report_with_filter_and_duration() {
    let rep = TrigramReport {
        generated_at: 0,
        recorded_since: Some(0),
        duration_s: Some(3720),
        filter: trigrams::Filter { apps: vec!["kitty".into(), "emacs".into()], top: Some(1) },
        trigrams: vec![trigram_entry(["a", "", "b", "", "c", "", ], "emacs", 3)],
    };
    let expected = "\nTrigram report — kitty, emacs\nRecording duration: 1h 2m\n".to_string()
        + &"─".repeat(42)
        + "\n"
        + &format!(" 1.  {:<11}  {:>6}  {:<20}  {}\n", "a -> b -> c", 3, "█".repeat(20), "emacs")
        + "\n";
    assert_eq!(trigrams::render_text(&rep), expected);
}

#[test]
fn keystroke_text_report() {
    let rep = Report {
        generated_at: 0,
        recorded_since: Some(0),
        duration_s: Some(60),
        filter: report::Filter { apps: vec![], top: None },
        keys: vec![
            KeyEntry { key: "a".into(), modifiers: "".into(), app: "".into(), count: 10 },
            KeyEntry { key: "c".into(), modifiers: "ctrl".into(), app: "".into(), count: 5 },
        ],
        apps: vec![
            AppEntry { class: "kitty".into(), count: 12 },
            AppEntry { class: "emacs".into(), count: 3 },
        ],
        bigrams: vec![],
        trigrams: vec![],
    };
    let rule = "─".repeat(42);
    let expected = format!(
        "\nGlobal keystroke report\nRecording duration: 1m\n{rule}\n 1.  a           10  {}\n 2.  ctrl+c       5  {}\n\nTop apps\n{rule}\n  kitty  12 keystrokes\n  emacs  3 keystrokes\n\n",
        "█".repeat(20),
        "█".repeat(10)
    );
    assert_eq!(report::render_text(&rep), expected);
}

#[test]
fn keystroke_text_report_empty() {
    let rep = Report {
        generated_at: 0,
        recorded_since: None,
        duration_s: None,
        filter: report::Filter { apps: vec!["kitty".into()], top: None },
        keys: vec![],
        apps: vec![],
        bigrams: vec![],
        trigrams: vec![],
    };
    assert_eq!(report::render_text(&rep), "No keystrokes recorded yet.\n");
}

#[test]
fn build_reports_from_store() {
    let mut db = Db::open_in_memory().unwrap();
    let mut rec = Recorder::new(2000);
    rec.handle(&mut db, focus("kitty", "")).unwrap();
    rec.handle(&mut db, key("j", "", 1000)).unwrap();
    rec.handle(&mut db, key("k", "", 1100)).unwrap();
    rec.handle(&mut db, key("j", "", 1200)).unwrap();
    let rep = report::build(&[], None, &db).unwrap();
    assert_eq!(rep.keys.len(), 2);
    assert_eq!(rep.keys[0].key, "j");
    assert_eq!(rep.keys[0].count, 2);
    assert_eq!(rep.keys[0].app, "");
    assert_eq!(rep.apps.len(), 1);
    assert_eq!(rep.bigrams.len(), 2);
    assert_eq!(rep.trigrams.len(), 1);
    assert_eq!(rep.recorded_since, Some(1000));
    assert_eq!(rep.duration_s, Some((rep.generated_at - 1000) / 1000));
    let filtered = report::build(&["kitty".to_string()], Some(1), &db).unwrap();
    assert_eq!(filtered.keys.len(), 1);
    assert_eq!(filtered.keys[0].app, "kitty");
    assert!(filtered.apps.is_empty());
    assert_eq!(filtered.filter.apps, vec!["kitty".to_string()]);
    assert_eq!(filtered.filter.top, Some(1));
    let b = bigrams::build(&["emacs".to_string()], None, &db).unwrap();
    assert!(b.bigrams.is_empty());
    let t = trigrams::build(&[], None, &db).unwrap();
    assert_eq!(t.trigrams[0].first_key, "j");
    assert_eq!(t.trigrams[0].last_key, "j");
}

#[test]
fn clock_reads_after_epoch() {
    let now = regkey::record::now_ms().unwrap();
    assert!(now > 1_600_000_000_000);
    assert!(report::now_unix_ms().unwrap() >= now);
    assert!(bigrams::now_unix_ms().is_some());
    assert!(trigrams::now_unix_ms().is_some());
}

#[test]
fn clock_reading_conversion() {
    assert_eq!(epoch_millis_to_i64(None), None);
    assert_eq!(epoch_millis_to_i64(Some(1_700_000_000_123)), Some(1_700_000_000_123));
    assert_eq!(epoch_millis_to_i64(Some(1u128 << 63)), Some(i64::MIN));
}

#[test]
fn report_without_keys_prints_only_that() {
    let rep = Report {
        generated_at: 0,
        recorded_since: None,
        duration_s: None,
        filter: report::Filter { apps: vec![], top: None },
        keys: vec![],
        apps: vec![AppEntry { class: "kitty".into(), count: 3 }],
        bigrams: vec![bigram_entry("a", "", "b", "", "kitty", 0)],
        trigrams: vec![trigram_entry(["a", "", "b", "", "c", ""], "kitty", -1)],
    };
    assert_eq!(report::render_text(&rep), "No keystrokes recorded yet.\n");
}

#[test]
fn later_larger_count_gets_longer_bar() {
    let rep = BigramReport {
        generated_at: 0,
        recorded_since: None,
        duration_s: None,
        filter: bigrams::Filter { apps: vec![], top: None },
        bigrams: vec![bigram_entry("a", "", "b", "", "kitty", 10), bigram_entry("b", "", "a", "", "kitty", 15)],
    };
    let expected = "\nGlobal bigram report\n".to_string()
        + &"─".repeat(42)
        + "\n"
        + &format!(" 1.  a -> b     10  {}  kitty\n", "█".repeat(20))
        + &format!(" 2.  b -> a     15  {}  kitty\n", "█".repeat(30))
        + "\n";
    assert_eq!(bigrams::render_text(&rep), expected);
}

#[test]
fn provider_follows_the_environment() {
    assert!(matches!(provider_for(true, true), ProviderKind::Hyprland));
    assert!(matches!(provider_for(true, false), ProviderKind::Hyprland));
    assert!(matches!(provider_for(false, true), ProviderKind::Sway));
    assert!(matches!(provider_for(false, false), ProviderKind::Null));
}

#[test]
fn focus_from_answer_members() {
    assert!(HyprlandProvider::focus_from_members(None, None).is_none());
    assert!(HyprlandProvider::focus_from_members(None, Some(Some("t".into()))).is_none());
    match HyprlandProvider::focus_from_members(Some(None), Some(Some("vim".into()))) {
        Some(Event::AppChange { class, title }) => {
            assert_eq!(class, "");
            assert_eq!(title, "vim");
        },
        _ => panic!("expected a focus change"),
    }
    match HyprlandProvider::focus_from_members(Some(Some("kitty".into())), Some(None)) {
        Some(Event::AppChange { class, title }) => {
            assert_eq!(class, "kitty");
            assert_eq!(title, "");
        },
        _ => panic!("expected a focus change"),
    }
}

fn sorted<T: Ord>(mut v: Vec<T>) -> Vec<T> {
    v.sort();
    v
}

fn sample_store() -> Db {
    let mut db = Db::open_in_memory().unwrap();
    db.insert(1, "a", "", "kitty", "").unwrap();
    db.insert(2, "a", "", "kitty", "").unwrap();
    db.insert(3, "a", "", "emacs", "").unwrap();
    db.insert(4, "b", "ctrl", "emacs", "").unwrap();
    db.insert(5, "c", "", "firefox", "").unwrap();
    db.insert_bigram(2, "a", "", "a", "", "kitty").unwrap();
    db.insert_bigram(4, "a", "", "b", "ctrl", "emacs").unwrap();
    db
}

#[test]
fn clear_twice_deletes_nothing_more() {
    let mut db = sample_store();
    assert_eq!(db.clear(Some("kitty")).unwrap(), 2);
    let keys = sorted(db.top_keys(&[], None).unwrap());
    let pairs = sorted(db.top_bigrams(&[], None).unwrap());
    assert_eq!(db.clear(Some("kitty")).unwrap(), 0);
    assert_eq!(sorted(db.top_keys(&[], None).unwrap()), keys);
    assert_eq!(sorted(db.top_bigrams(&[], None).unwrap()), pairs);
    assert_eq!(db.clear(None).unwrap(), 3);
    assert_eq!(db.clear(None).unwrap(), 0);
    assert!(db.top_keys(&[], None).unwrap().is_empty());
}

#[test]
fn app_list_order_and_repeats_do_not_matter() {
    let db = sample_store();
    let a = vec!["kitty".to_string(), "emacs".to_string()];
    let c = vec!["emacs".to_string(), "kitty".to_string(), "emacs".to_string()];
    assert_eq!(sorted(db.top_keys(&a, None).unwrap()), sorted(db.top_keys(&c, None).unwrap()));
    assert_eq!(sorted(db.top_bigrams(&a, None).unwrap()), sorted(db.top_bigrams(&c, None).unwrap()));
    assert_eq!(sorted(db.top_trigrams(&a, None).unwrap()), sorted(db.top_trigrams(&c, None).unwrap()));
}

#[test]
fn disjoint_app_lists_add_their_rows() {
    let db = sample_store();
    let a = vec!["kitty".to_string()];
    let b = vec!["emacs".to_string(), "firefox".to_string()];
    let ab: Vec<String> = a.iter().chain(b.iter()).cloned().collect();
    let mut both = db.top_keys(&a, None).unwrap();
    both.extend(db.top_keys(&b, None).unwrap());
    assert_eq!(sorted(db.top_keys(&ab, None).unwrap()), sorted(both));
    let mut pairs = db.top_bigrams(&a, None).unwrap();
    pairs.extend(db.top_bigrams(&b, None).unwrap());
    assert_eq!(sorted(db.top_bigrams(&ab, None).unwrap()), sorted(pairs));
}

#[test]
fn global_keys_merge_application_rows() {
    let db = sample_store();
    let global = sorted(db.top_keys_global(None).unwrap());
    let mut merged: Vec<(String, String, i64)> = Vec::new();
    for (k, m, _, c) in db.top_keys(&[], None).unwrap() {
        match merged.iter_mut().find(|(k2, m2, _)| *k2 == k && *m2 == m) {
            Some(e) => e.2 += c,
            None => merged.push((k, m, c)),
        }
    }
    assert_eq!(global, sorted(merged));
    assert_eq!(global[0], ("a".to_string(), "".to_string(), 3));
}
