use codex_trace::parser::titles::{
    candidate_state_dbs, load_thread_titles, read_titles, state_db_version, title_for_row,
    ThreadRow,
};

fn row(id: &str, name: Option<&str>, title: &str) -> ThreadRow {
    ThreadRow {
        id: id.to_string(),
        name: name.map(str::to_string),
        title: title.to_string(),
    }
}

#[test]
fn missing_codex_dir_yields_empty_map() {
    let titles = load_thread_titles(&Vec::new());
    assert!(titles.entries().is_empty());
}

#[test]
fn reads_titles_from_temp_sqlite() {
    let conn = rusqlite::Connection::open_in_memory().unwrap();
    conn.execute_batch(
        "CREATE TABLE threads (id TEXT PRIMARY KEY, name TEXT, title TEXT NOT NULL DEFAULT '');
         INSERT INTO threads (id, name, title) VALUES
           ('t1', 'Short name', 'Long first message'),
           ('t2', NULL, 'Plain title'),
           ('t3', NULL, '<codex_delegation>internal'),
           ('t4', NULL, ''),
           ('t5', NULL, 'You are a summarizer');",
    )
    .unwrap();
    let mut stmt = conn
        .prepare("SELECT id, name, title FROM threads WHERE title != '' OR name IS NOT NULL")
        .unwrap();
    let mut found = stmt.query([]).unwrap();
    let mut rows = Vec::new();
    while let Ok(Some(r)) = found.next() {
        rows.push(Some(ThreadRow {
            id: r.get(0).unwrap(),
            name: r.get(1).unwrap(),
            title: r.get(2).unwrap(),
        }));
    }

    let map = read_titles(&rows).expect("readable db");
    assert_eq!(map.get("t1").unwrap(), "Short name");
    assert_eq!(map.get("t2").unwrap(), "Plain title");
    assert!(!map.contains_key("t3"), "marker blob titles are skipped");
    assert!(!map.contains_key("t4"));
    assert!(!map.contains_key("t5"), "system-prompt titles are skipped");
}

#[test]
fn candidates_are_sorted_newest_schema_first() {
    let names: Vec<String> = [2u32, 10, 1].iter().map(|n| format!("state_{n}.sqlite")).collect();
    let sorted = candidate_state_dbs(&names);
    assert_eq!(
        sorted.iter().map(|n| state_db_version(n).unwrap()).collect::<Vec<_>>(),
        vec![10, 2, 1]
    );
}

#[test]
fn other_files_are_no_candidates() {
    let names: Vec<String> = [
        "state_.sqlite",
        "state_x.sqlite",
        "state_4294967296.sqlite",
        "state_-1.sqlite",
        "state_3.sqlite-wal",
        "history.jsonl",
        "state_+7.sqlite",
        "state_007.sqlite",
    ]
    .iter()
    .map(|n| n.to_string())
    .collect();
    assert_eq!(candidate_state_dbs(&names), vec!["state_+7.sqlite", "state_007.sqlite"]);
    assert_eq!(state_db_version("state_4294967295.sqlite"), Some(u32::MAX));
}

#[test]
fn blank_names_fall_back_to_the_title() {
    assert_eq!(title_for_row(&row("t", Some("  "), "  A title ")), Some("A title".to_string()));
    assert_eq!(title_for_row(&row("t", Some(" n "), "title")), Some(" n ".to_string()));
    assert_eq!(title_for_row(&row("t", None, " \n")), None);
}

#[test]
fn an_unreadable_row_makes_the_database_unreadable() {
    assert!(read_titles(&vec![Some(row("a", None, "x")), None]).is_none());
}

#[test]
fn the_first_readable_database_counts() {
    let databases = vec![
        None,
        Some(vec![None]),
        Some(vec![Some(row("a", None, "first")), Some(row("a", None, "later"))]),
        Some(vec![Some(row("b", None, "second"))]),
    ];
    let titles = load_thread_titles(&databases);
    assert_eq!(titles.get("a").unwrap(), "later");
    assert!(!titles.contains_key("b"));
}
