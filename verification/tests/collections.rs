use codex_trace::decimal::{decimal, parse_u32};
use codex_trace::json::Json;
use codex_trace::order::insert_ranked;
use codex_trace::pair_set::PairSet;
use codex_trace::text;
use codex_trace::text_map::TextMap;
use codex_trace::tui::rows::Row;

fn chars(s: &str) -> Vec<char> {
    s.chars().collect()
}

#[test]
fn a_map_keeps_one_value_for_each_key() {
    let mut map = TextMap::new();
    map.insert("a", 1);
    map.insert("b", 2);
    map.insert("a", 3);
    assert_eq!(map.get("a"), Some(&3));
    assert_eq!(map.entries().len(), 2);
    assert!(map.remove("a"));
    assert!(!map.remove("a"));
    assert_eq!(map.get("a"), None);
    assert!(map.contains_key("b"));
}

#[test]
fn a_map_finds_its_keys_after_removals() {
    let keys = ["a", "b", "c", "d", ""];
    for gone in keys {
        let mut map = TextMap::new();
        for (i, key) in keys.into_iter().enumerate() {
            map.insert(key, i);
        }
        assert!(map.remove(gone));
        for (i, key) in keys.into_iter().enumerate() {
            assert_eq!(map.get(key), if key == gone { None } else { Some(&i) });
        }
        assert_eq!(map.entries().len(), 4);
        map.insert(gone, 9);
        map.insert("d", 7);
        assert_eq!(map.entries().len(), 5);
        assert_eq!(map.get("d"), Some(&7));
        for key in keys {
            assert!(map.remove(key));
        }
        assert!(map.entries().is_empty());
    }
}

#[test]
fn a_set_keeps_each_pair_once() {
    let mut set = PairSet::new();
    set.insert((1, 2));
    set.insert((1, 2));
    set.insert((2, 1));
    assert_eq!(set.len(), 2);
    assert!(set.remove(&(1, 2)));
    assert!(!set.contains(&(1, 2)));
    assert!(!set.remove(&(1, 2)));
    set.clear();
    assert!(set.is_empty());
}

#[test]
fn equal_ranks_stay_in_order() {
    let mut items: Vec<(i128, Row)> = Vec::new();
    for (rank, row) in [(2, Row::TurnHeader(0)), (1, Row::TurnHeader(1)), (2, Row::TurnHeader(2))] {
        insert_ranked(&mut items, rank, row);
    }
    let rows: Vec<Row> = items.into_iter().map(|(_, r)| r).collect();
    assert_eq!(rows, vec![Row::TurnHeader(1), Row::TurnHeader(0), Row::TurnHeader(2)]);
}

#[test]
fn numbers_are_read_back() {
    for n in [0u32, 7, 10, 4_294_967_295] {
        assert_eq!(parse_u32(&chars(&decimal(n as u64))), Some(n));
    }
    assert_eq!(parse_u32(&chars("4294967296")), None);
    assert_eq!(parse_u32(&chars("99999999999999999999999")), None);
    assert_eq!(parse_u32(&chars("")), None);
    assert_eq!(parse_u32(&chars("+")), None);
    assert_eq!(parse_u32(&chars("1a")), None);
}

#[test]
fn texts_are_split_joined_and_trimmed() {
    assert_eq!(text::split(&chars("a,,b"), ','), vec![chars("a"), chars(""), chars("b")]);
    assert_eq!(text::join(&vec!["a".to_string(), "b".to_string()], ", "), "a, b");
    assert_eq!(text::join(&Vec::new(), ", "), "");
    assert_eq!(text::trim("\u{a0} x y \n"), "x y");
    assert!(text::is_blank(" \t\u{2003}"));
    assert!(!text::is_blank("\u{200b}"));
    assert!(text::contains(&chars("abc"), "bc"));
    assert!(text::contains(&chars("abc"), ""));
    assert!(!text::contains(&chars("abc"), "cb"));
    assert!(text::ends_with(&chars("x.jsonl"), ".jsonl"));
    assert!(!text::ends_with(&chars("l"), ".jsonl"));
}

#[test]
fn lines_end_with_line_feeds() {
    let lines = |s: &str| text::text_lines(s);
    assert_eq!(lines("a\nb"), vec!["a", "b"]);
    assert_eq!(lines("a\r\nb\n"), vec!["a", "b"]);
    assert_eq!(lines("a\r"), vec!["a\r"]);
    assert_eq!(lines("\n\n"), vec!["", ""]);
    assert_eq!(lines(""), Vec::<String>::new());
}

#[test]
fn json_members_are_found_by_name() {
    let v = Json::parse(r#"{"a":{"b":"c"},"n":1.5,"l":[null,false]}"#).unwrap();
    assert_eq!(v.get("a").unwrap().get_str("b"), Some("c"));
    assert_eq!(v.get_str("a"), None);
    assert!(v.has("n"));
    assert!(!v.has("x"));
    assert!(v.get("l").unwrap().get("0").is_none());
    assert_eq!(v.clone(), v);
    assert_eq!(v.compact(), r#"{"a":{"b":"c"},"l":[null,false],"n":1.5}"#);
    assert_eq!(Json::parse(&v.compact()), Some(v));
}

#[test]
fn json_texts_are_escaped() {
    let v = Json::Object(vec![("k".to_string(), Json::Str("a\"\n".to_string()))]);
    assert_eq!(v.compact(), r#"{"k":"a\"\n"}"#);
    assert_eq!(v.pretty().unwrap(), "{\n  \"k\": \"a\\\"\\n\"\n}");
}

#[test]
fn json_objects_keep_the_last_member_of_a_name_in_order() {
    let text = |s: &str| Json::Str(s.to_string());
    let v = Json::Object(vec![
        ("b".to_string(), text("1")),
        ("a".to_string(), text("2")),
        ("b".to_string(), text("3")),
        ("ab".to_string(), text("4")),
    ]);
    assert_eq!(v.compact(), r#"{"a":"2","ab":"4","b":"3"}"#);
    let read = Json::parse(r#"{"b":1,"a":2,"b":3}"#).unwrap();
    assert_eq!(read.compact(), r#"{"a":2,"b":3}"#);
}
