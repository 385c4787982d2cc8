use cliphistory::{Clip, Database};

fn values(clips: &[Clip]) -> Vec<&str> {
    clips.iter().map(|c| c.value.as_str()).collect()
}

#[test]
fn upsert_same_value_twice_keeps_one_row_with_second_timestamp() {
    let mut db = Database::new();
    db.upsert(Clip::new("abc".to_string(), "First".to_string(), 100)).unwrap();
    db.upsert(Clip::new("abc".to_string(), "Second".to_string(), 200)).unwrap();
    assert_eq!(db.len(), 1);
    let rows = db.get_all_clips(10).unwrap();
    assert_eq!(rows.len(), 1);
    assert_eq!(rows[0].value, "abc");
    assert_eq!(rows[0].timestamp, 200);
    assert_eq!(rows[0].source, "Second");
}

#[test]
fn upsert_refresh_moves_row_to_the_top() {
    let mut db = Database::new();
    db.upsert(Clip::new("old".to_string(), String::new(), 10)).unwrap();
    db.upsert(Clip::new("new".to_string(), String::new(), 20)).unwrap();
    db.upsert(Clip::new("old".to_string(), String::new(), 30)).unwrap();
    let rows = db.get_all_clips(10).unwrap();
    assert_eq!(values(&rows), ["old", "new"]);
    assert_eq!(rows[0].timestamp, 30);
}

#[test]
fn list_recent_is_ordered_descending_and_capped() {
    let mut db = Database::new();
    db.upsert(Clip::new("a".to_string(), String::new(), 10)).unwrap();
    db.upsert(Clip::new("b".to_string(), String::new(), 30)).unwrap();
    db.upsert(Clip::new("c".to_string(), String::new(), 20)).unwrap();
    let rows = db.get_all_clips(10).unwrap();
    assert_eq!(values(&rows), ["b", "c", "a"]);
    assert!(rows.windows(2).all(|w| w[0].timestamp >= w[1].timestamp));
    let capped = db.get_all_clips(2).unwrap();
    assert_eq!(values(&capped), ["b", "c"]);
    assert!(capped.len() <= 2);
    assert_eq!(db.len(), 3);
}

#[test]
fn empty_search_equals_list_recent() {
    let mut db = Database::new();
    db.upsert(Clip::new("one".to_string(), "A".to_string(), 1)).unwrap();
    db.upsert(Clip::new("two".to_string(), "B".to_string(), 2)).unwrap();
    db.upsert(Clip::new("three".to_string(), "C".to_string(), 3)).unwrap();
    let listed = db.get_all_clips(1000).unwrap();
    let searched = db.search(String::new(), String::new()).unwrap();
    assert_eq!(values(&listed), values(&searched));
}

#[test]
fn search_ignores_case_and_position() {
    let mut db = Database::new();
    db.upsert(Clip::new("Hello World".to_string(), String::new(), 1)).unwrap();
    let hit = db.search("world".to_string(), String::new()).unwrap();
    assert_eq!(values(&hit), ["Hello World"]);
    let upper = db.search("WORLD".to_string(), String::new()).unwrap();
    assert_eq!(values(&upper), ["Hello World"]);
    let middle = db.search("LO wo".to_string(), String::new()).unwrap();
    assert_eq!(values(&middle), ["Hello World"]);
    let miss = db.search("xyz".to_string(), String::new()).unwrap();
    assert!(miss.is_empty());
}

#[test]
fn search_results_are_ordered_by_recency() {
    let mut db = Database::new();
    db.upsert(Clip::new("apple pie".to_string(), String::new(), 5)).unwrap();
    db.upsert(Clip::new("apple juice".to_string(), String::new(), 9)).unwrap();
    db.upsert(Clip::new("banana".to_string(), String::new(), 7)).unwrap();
    let hits = db.search("apple".to_string(), String::new()).unwrap();
    assert_eq!(values(&hits), ["apple juice", "apple pie"]);
}

#[test]
fn search_with_mismatched_source_filter_is_empty() {
    let mut db = Database::new();
    db.upsert(Clip::new("hello".to_string(), "App1".to_string(), 1)).unwrap();
    let wrong = db.search("hello".to_string(), "App2".to_string()).unwrap();
    assert!(wrong.is_empty());
    let right = db.search("hello".to_string(), "App1".to_string()).unwrap();
    assert_eq!(values(&right), ["hello"]);
}

#[test]
fn get_all_clips_str_lists_values_only() {
    let mut db = Database::new();
    db.upsert(Clip::new("first".to_string(), "A".to_string(), 2)).unwrap();
    db.upsert(Clip::new("second".to_string(), "B".to_string(), 1)).unwrap();
    let vals = db.get_all_clips_str(10);
    assert_eq!(vals, ["first", "second"]);
}

#[test]
fn get_all_sources_is_deduplicated_and_skips_empty() {
    let mut db = Database::new();
    db.upsert(Clip::new("a".to_string(), "Mail".to_string(), 1)).unwrap();
    db.upsert(Clip::new("b".to_string(), "Web".to_string(), 2)).unwrap();
    db.upsert(Clip::new("c".to_string(), "Mail".to_string(), 3)).unwrap();
    db.upsert(Clip::new("d".to_string(), String::new(), 4)).unwrap();
    let mut sources = db.get_all_sources();
    sources.sort();
    assert_eq!(sources, ["Mail", "Web"]);
}
