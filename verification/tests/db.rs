use regkey::db::Db;

fn in_memory() -> Db {
    Db::open_in_memory().unwrap()
}

#[test]
fn insert_and_top_keys_global() {
    let mut db = in_memory();
    db.insert(1, "a", "", "kitty", "").unwrap();
    db.insert(2, "a", "", "kitty", "").unwrap();
    db.insert(3, "b", "", "emacs", "").unwrap();

    let rows = db.top_keys(&[], None).unwrap();
    assert_eq!(rows[0], ("a".into(), "".into(), "kitty".into(), 2));
    assert_eq!(rows[1], ("b".into(), "".into(), "emacs".into(), 1));
}

#[test]
fn top_keys_filter_single_app() {
    let mut db = in_memory();
    db.insert(1, "a", "", "kitty", "").unwrap();
    db.insert(2, "b", "", "emacs", "").unwrap();
    db.insert(3, "b", "", "emacs", "").unwrap();

    let rows = db.top_keys(&["emacs".to_string()], None).unwrap();
    assert_eq!(rows.len(), 1);
    assert_eq!(rows[0].0, "b");
    assert_eq!(rows[0].3, 2);
}

#[test]
fn top_keys_union() {
    let mut db = in_memory();
    db.insert(1, "a", "", "kitty", "").unwrap();
    db.insert(2, "b", "", "emacs", "").unwrap();
    db.insert(3, "c", "", "firefox", "").unwrap();

    let apps = vec!["kitty".to_string(), "emacs".to_string()];
    let rows = db.top_keys(&apps, None).unwrap();
    let keys: Vec<&str> = rows.iter().map(|(k, _, _, _)| k.as_str()).collect();
    assert!(keys.contains(&"a"));
    assert!(keys.contains(&"b"));
    assert!(!keys.contains(&"c"));
}

#[test]
fn top_keys_with_modifiers() {
    let mut db = in_memory();
    db.insert(1, "a", "ctrl", "kitty", "").unwrap();
    db.insert(2, "a", "",     "kitty", "").unwrap();

    let rows = db.top_keys(&[], None).unwrap();
    assert_eq!(rows.len(), 2);
}

#[test]
fn top_keys_limit() {
    let mut db = in_memory();
    db.insert(1, "a", "", "kitty", "").unwrap();
    db.insert(2, "z", "", "kitty", "").unwrap();
    db.insert(3, "z", "", "kitty", "").unwrap();

    let rows = db.top_keys(&[], Some(1)).unwrap();
    assert_eq!(rows.len(), 1);
    assert_eq!(rows[0].0, "z");
}

#[test]
fn top_apps() {
    let mut db = in_memory();
    db.insert(1, "a", "", "kitty", "").unwrap();
    db.insert(2, "a", "", "kitty", "").unwrap();
    db.insert(3, "b", "", "emacs", "").unwrap();

    let apps = db.top_apps(None).unwrap();
    assert_eq!(apps[0], ("kitty".into(), 2));
    assert_eq!(apps[1], ("emacs".into(), 1));
}

#[test]
fn clear_all() {
    let mut db = in_memory();
    db.insert(1, "a", "", "kitty", "").unwrap();
    db.insert(2, "b", "", "emacs", "").unwrap();

    let deleted = db.clear(None).unwrap();
    assert_eq!(deleted, 2);
    assert!(db.top_keys(&[], None).unwrap().is_empty());
}

#[test]
fn clear_by_app() {
    let mut db = in_memory();
    db.insert(1, "a", "", "kitty", "").unwrap();
    db.insert(2, "b", "", "emacs", "").unwrap();

    db.clear(Some("kitty")).unwrap();
    let rows = db.top_keys(&[], None).unwrap();
    assert_eq!(rows.len(), 1);
    assert_eq!(rows[0].0, "b");
}

#[test]
fn bigrams_global() {
    let mut db = in_memory();
    db.insert_bigram(1, "j", "", "k", "", "kitty").unwrap();
    db.insert_bigram(2, "j", "", "k", "", "kitty").unwrap();
    db.insert_bigram(3, "h", "", "j", "", "kitty").unwrap();

    let rows = db.top_bigrams(&[], None).unwrap();
    assert_eq!(rows[0], ("j".into(), "".into(), "k".into(), "".into(), "kitty".into(), 2));
    assert_eq!(rows[1], ("h".into(), "".into(), "j".into(), "".into(), "kitty".into(), 1));
}

#[test]
fn bigrams_filter_app() {
    let mut db = in_memory();
    db.insert_bigram(1, "j", "", "k", "", "kitty").unwrap();
    db.insert_bigram(2, "a", "", "b", "", "emacs").unwrap();

    let rows = db.top_bigrams(&["emacs".to_string()], None).unwrap();
    assert_eq!(rows.len(), 1);
    assert_eq!(rows[0].0, "a");
    assert_eq!(rows[0].2, "b");
}

#[test]
fn bigrams_union() {
    let mut db = in_memory();
    db.insert_bigram(1, "j", "", "k", "", "kitty").unwrap();
    db.insert_bigram(2, "a", "", "b", "", "emacs").unwrap();
    db.insert_bigram(3, "x", "", "y", "", "firefox").unwrap();

    let apps = vec!["kitty".to_string(), "emacs".to_string()];
    let rows = db.top_bigrams(&apps, None).unwrap();
    let pairs: Vec<(&str, &str)> = rows.iter().map(|(p, _, c, _, _, _)| (p.as_str(), c.as_str())).collect();
    assert!(pairs.contains(&("j", "k")));
    assert!(pairs.contains(&("a", "b")));
    assert!(!pairs.contains(&("x", "y")));
}

#[test]
fn bigrams_with_modifiers() {
    let mut db = in_memory();
    db.insert_bigram(1, "c", "ctrl", "v", "ctrl", "kitty").unwrap();
    db.insert_bigram(2, "c", "ctrl", "v", "ctrl", "kitty").unwrap();
    db.insert_bigram(3, "c", "", "v", "", "kitty").unwrap();

    let rows = db.top_bigrams(&[], None).unwrap();
    assert_eq!(rows.len(), 2);
    assert_eq!(rows[0].5, 2);
    assert_eq!(rows[0].1, "ctrl");
}

#[test]
fn clear_also_clears_bigrams() {
    let mut db = in_memory();
    db.insert_bigram(1, "j", "", "k", "", "kitty").unwrap();
    db.insert_bigram(2, "a", "", "b", "", "emacs").unwrap();

    db.clear(Some("kitty")).unwrap();
    assert!(db.top_bigrams(&["kitty".to_string()], None).unwrap().is_empty());
    assert_eq!(db.top_bigrams(&["emacs".to_string()], None).unwrap().len(), 1);

    db.clear(None).unwrap();
    assert!(db.top_bigrams(&[], None).unwrap().is_empty());
}
