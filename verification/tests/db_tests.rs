use clip_pop::db::{
    can_search, content_hash, expiry_cutoff, format_hash, fuzzy_search, stored_created_at, ClipEntry, Db,
    InsertPlan,
};

fn row(id: i64, mime: &str, content: &[u8], pinned: bool, created_at: i64) -> ClipEntry {
    ClipEntry {
        id,
        mime_type: mime.to_string(),
        content: content.to_vec(),
        content_hash: format_hash(id as u64),
        pinned,
        created_at,
    }
}

fn ids(db: &Db) -> Vec<i64> {
    db.entries().iter().map(|e| e.id).collect()
}

fn sample() -> Db {
    let mut db = Db::new(50);
    db.replace_entries(vec![
        row(7, "text/plain", b"pinned note", true, 100),
        row(3, "text/plain;charset=utf-8", b"hello world", false, 300),
        row(5, "image/png", &[0x89, 0x50], false, 200),
        row(9, "application/octet-stream", b"\x00\x01", false, 50),
    ]);
    db
}

#[test]
fn previews_by_type() {
    let db = sample();
    assert_eq!(db.get(1).unwrap().preview(5, "Image"), "hello\u{2026}");
    assert_eq!(db.get(2).unwrap().preview(5, "Image"), "Image");
    assert_eq!(db.get(3).unwrap().preview(5, "Image"), "[application/octet-stream]");
    let bad = row(1, "text/plain", b"a\xffb  c", false, 0);
    assert_eq!(bad.preview(100, "I"), "a\u{fffd}b c");
    assert!(db.get(1).unwrap().is_text() && !db.get(1).unwrap().is_image());
    assert!(db.get(2).unwrap().is_image() && !db.get(2).unwrap().is_text());
    assert_eq!(db.get(1).unwrap().age_secs_at(300 + 59_999), 59);
}

#[test]
fn hashes_are_sixteen_hex_digits_of_fxhash() {
    assert_eq!(format_hash(255), "00000000000000ff");
    assert_eq!(format_hash(u64::MAX), "ffffffffffffffff");
    let data = b"clipboard";
    let mut h = rustc_hash::FxHasher::default();
    std::hash::Hash::hash(&data[..], &mut h);
    let expected = format!("{:016x}", std::hash::Hasher::finish(&h));
    assert_eq!(content_hash(data), expected);
    assert_eq!(content_hash(data), content_hash(data));
    assert_ne!(content_hash(b"a"), content_hash(b"b"));
}

#[test]
fn lookups_by_position_id_and_hash() {
    let db = sample();
    assert_eq!(db.len(), 4);
    assert!(db.get(4).is_none());
    assert_eq!(db.get_by_id(5).map(|e| e.id), Some(5));
    assert!(db.get_by_id(42).is_none());
    assert_eq!(db.position_of_id(9), 3);
    assert_eq!(db.position_of_id(42), 0);
    assert_eq!(db.find_hash(&format_hash(5)), Some(2));
    assert_eq!(db.find_hash(&format_hash(6)), None);
    assert_eq!(db.reload_limit(), 550);
}

#[test]
fn insert_of_known_content_promotes_its_row() {
    let db = sample();
    match db.plan_insert_hashed(format_hash(3)) {
        InsertPlan::Promote { index, id } => assert_eq!((index, id), (1, 3)),
        other => panic!("unexpected {other:?}"),
    }
    match db.plan_insert_hashed(format_hash(4)) {
        InsertPlan::Add { content_hash } => assert_eq!(content_hash, format_hash(4)),
        other => panic!("unexpected {other:?}"),
    }
    let mut known = Db::new(5);
    let mut r = row(11, "text/plain", b"abc", false, 0);
    r.content_hash = content_hash(b"abc");
    known.replace_entries(vec![r]);
    assert!(matches!(known.plan_insert(b"abc"), InsertPlan::Promote { index: 0, id: 11 }));
    assert!(matches!(known.plan_insert(b"abd"), InsertPlan::Add { .. }));
}

#[test]
fn targets_of_promote_pin_and_remove() {
    let db = sample();
    assert_eq!(db.promote_target(0), None);
    assert_eq!(db.promote_target(1), Some(3));
    assert_eq!(db.promote_target(4), None);
    assert_eq!(db.toggle_pin_target(0), Some((7, 0)));
    assert_eq!(db.toggle_pin_target(2), Some((5, 1)));
    assert_eq!(db.toggle_pin_target(4), None);
    assert_eq!(db.remove_target(3), Some(9));
    assert_eq!(db.remove_target(4), None);
}

#[test]
fn forgetting_rows() {
    let mut db = sample();
    db.forget(1);
    assert_eq!(ids(&db), vec![7, 5, 9]);
    db.forget_unpinned();
    assert_eq!(ids(&db), vec![7]);
    db.forget_unpinned();
    assert_eq!(ids(&db), vec![7]);
    assert!(db.set_max(3).is_empty());
    assert_eq!(db.reload_limit(), 503);
}

#[test]
fn lowering_the_limit_drops_the_oldest_unpinned_rows() {
    let mut db = sample();
    assert_eq!(db.set_max(1), vec![5, 9]);
    assert_eq!(ids(&db), vec![7, 3]);
    assert_eq!(db.max(), 1);
    assert_eq!(db.set_max(0), vec![3]);
    assert_eq!(ids(&db), vec![7]);
    let mut db = sample();
    assert!(db.set_max(3).is_empty());
    assert_eq!(ids(&db), vec![7, 3, 5, 9]);
}

#[test]
fn search_with_an_empty_query_lists_every_row() {
    let db = sample();
    let all: Vec<(usize, i64)> =
        fuzzy_search(db.entries(), "", "Image").iter().map(|p| (p.0, p.1.id)).collect();
    assert_eq!(all, vec![(0, 7), (1, 3), (2, 5), (3, 9)]);
}

#[test]
fn expiry_keeps_pinned_and_recent_rows() {
    let mut db = sample();
    db.forget_expired(150);
    assert_eq!(ids(&db), vec![7, 3, 5]);
    assert_eq!(expiry_cutoff(1_000_000_000, 1), 1_000_000_000 - 86_400_000);
    assert_eq!(expiry_cutoff(0, u64::MAX), i64::MIN);
    assert_eq!(expiry_cutoff(5, 0), 5);
}

#[test]
fn fuzzy_search_filters_in_order() {
    let db = sample();
    let all: Vec<usize> = fuzzy_search(db.entries(), "", "Image").iter().map(|p| p.0).collect();
    assert_eq!(all, vec![0, 1, 2, 3]);
    let hits: Vec<usize> = fuzzy_search(db.entries(), "hlo", "Image").iter().map(|p| p.0).collect();
    assert_eq!(hits, vec![1]);
    let img: Vec<i64> = fuzzy_search(db.entries(), "image", "Image").iter().map(|p| p.1.id).collect();
    assert_eq!(img, vec![5]);
    let octet: Vec<usize> = fuzzy_search(db.entries(), "octet", "Image").iter().map(|p| p.0).collect();
    assert_eq!(octet, vec![3]);
    assert!(fuzzy_search(db.entries(), "zzzz", "Image").is_empty());
}

#[test]
fn search_limits_count_words_not_characters() {
    let db = sample();
    assert!(can_search(db.entries(), "", "Image"));
    assert!(can_search(db.entries(), "hlo", "Image"));
    let long_word = "x".repeat(200_000);
    assert!(can_search(db.entries(), &long_word, "Image"));
    let many = vec!["a"; 65_537].join(" ");
    assert!(can_search(db.entries(), &many, "Image"));
    let too_many = vec!["a"; 65_538].join(" ");
    assert!(!can_search(db.entries(), &too_many, "Image"));
}

#[test]
fn stored_times_outside_chrono_fall_back_to_now() {
    assert_eq!(stored_created_at(1_700_000_000_000, 5), 1_700_000_000_000);
    assert_eq!(stored_created_at(-86_400_000, 5), -86_400_000);
    assert_eq!(stored_created_at(i64::MAX, 5), 5);
    assert_eq!(stored_created_at(i64::MIN, 5), 5);
}

#[test]
fn toggling_a_pin_twice_through_the_table_restores_it() {
    let mut db = sample();
    let before: Vec<(i64, bool)> = db.entries().iter().map(|e| (e.id, e.pinned)).collect();
    // The table stores the value for the id; the reload reads it back.
    let store = |db: &mut Db, id: i64, value: i64| {
        let rows: Vec<ClipEntry> = db
            .entries()
            .iter()
            .map(|e| ClipEntry { pinned: if e.id == id { value != 0 } else { e.pinned }, ..e.clone() })
            .collect();
        db.replace_entries(rows);
    };
    let (id, value) = db.toggle_pin_target(2).unwrap();
    assert_eq!((id, value), (5, 1));
    store(&mut db, id, value);
    assert!(db.get(2).unwrap().pinned);
    let j = db.position_of_id(id);
    let (id2, value2) = db.toggle_pin_target(j).unwrap();
    assert_eq!((id2, value2), (5, 0));
    store(&mut db, id2, value2);
    let after: Vec<(i64, bool)> = db.entries().iter().map(|e| (e.id, e.pinned)).collect();
    assert_eq!(after, before);
}
