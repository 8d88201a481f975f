use clip_pop::history::{rgba_len_ok, ClipEntry, EntryKind, HistoryStore};

fn text(s: &str, pinned: bool, ts: i64) -> ClipEntry {
    ClipEntry { kind: EntryKind::Text { content: s.to_string() }, timestamp: ts, pinned }
}

fn image(p: &str, pinned: bool) -> ClipEntry {
    ClipEntry {
        kind: EntryKind::Image { path: p.to_string(), width: 4, height: 2 },
        timestamp: 1,
        pinned,
    }
}

fn keys(store: &HistoryStore) -> Vec<(String, bool)> {
    store.entries().iter().map(|e| (e.kind.dedup_key(), e.pinned)).collect()
}

fn store(entries: Vec<ClipEntry>, max: usize) -> HistoryStore {
    HistoryStore::from_entries("/h/history.json".into(), "/h/images".into(), entries, max)
}

#[test]
fn entry_kind_previews() {
    let t = EntryKind::Text { content: "  many\n\nlines   here ".into() };
    assert_eq!(t.preview(100), "many lines here");
    assert_eq!(t.preview(4), "many\u{2026}");
    let i = EntryKind::Image { path: "/x/a.png".into(), width: 640, height: 480 };
    assert_eq!(i.preview(3), "\u{1F5BC}  640\u{d7}480 image");
    assert!(i.is_image());
    assert!(!t.is_image());
    assert_eq!(i.dedup_key(), "/x/a.png");
    assert_eq!(t.dedup_key(), "  many\n\nlines   here ");
}

#[test]
fn new_entries_are_unpinned_and_stamped_now() {
    let before = chrono::Utc::now().timestamp_nanos_opt().unwrap();
    let e = ClipEntry::text("hi".into());
    let after = chrono::Utc::now().timestamp_nanos_opt().unwrap();
    assert!(!e.pinned);
    assert!(before <= e.timestamp && e.timestamp <= after);
    assert_eq!(e.preview(10), "hi");
    let i = ClipEntry::image("/p.png".into(), 1, 2);
    assert!(i.kind.is_image() && !i.pinned);
    assert!(i.age_secs() >= 0 && i.age_secs() < 5);
    assert_eq!(text("x", false, 1_000).age_secs_at(62_000_000_000), 61);
    assert_eq!(text("x", false, 1_000_000_001).age_secs_at(2_000_000_000), 0);
    assert_eq!(text("x", false, 2_000_000_000).age_secs_at(0), -2);
}

#[test]
fn push_text_deduplicates_and_goes_below_pins() {
    let mut s = store(vec![text("pin", true, 1), text("a", false, 2), text("b", false, 3)], 10);
    assert!(s.push_text("b".into()));
    assert_eq!(
        keys(&s),
        vec![("pin".into(), true), ("b".into(), false), ("a".into(), false)]
    );
    assert!(s.take_removed_images().is_empty());
}

#[test]
fn push_text_keeps_pinned_duplicates() {
    let mut s = store(vec![text("same", true, 1)], 10);
    assert!(s.push_text("same".into()));
    assert_eq!(keys(&s), vec![("same".into(), true), ("same".into(), false)]);
}

#[test]
fn blank_text_is_ignored() {
    let mut s = store(vec![text("a", false, 1)], 10);
    assert!(!s.push_text("  \n\t".into()));
    assert!(!s.push_text(String::new()));
    assert_eq!(keys(&s), vec![("a".into(), false)]);
}

#[test]
fn trimming_drops_the_oldest_unpinned_and_their_images() {
    let mut s = store(
        vec![text("p", true, 1), text("a", false, 2), image("/i1.png", false), text("c", false, 3)],
        2,
    );
    assert!(s.push_text("new".into()));
    assert_eq!(
        keys(&s),
        vec![("p".into(), true), ("new".into(), false), ("a".into(), false)]
    );
    assert_eq!(s.take_removed_images(), vec!["/i1.png".to_string()]);
    assert!(s.take_removed_images().is_empty());
}

#[test]
fn zero_limit_keeps_only_pins() {
    let mut s = store(vec![text("p", true, 1)], 0);
    assert!(s.push_text("gone".into()));
    assert_eq!(keys(&s), vec![("p".into(), true)]);
}

#[test]
fn set_max_trims_and_keeps_every_pin() {
    let mut s = store(
        vec![text("p1", true, 1), text("p2", true, 1), text("a", false, 2), image("/b.png", false)],
        10,
    );
    s.set_max(1);
    assert_eq!(keys(&s), vec![("p1".into(), true), ("p2".into(), true), ("a".into(), false)]);
    assert_eq!(s.take_removed_images(), vec!["/b.png".to_string()]);
}

#[test]
fn push_image_entry_goes_on_top_of_unpinned() {
    let mut s = store(vec![text("p", true, 1), text("a", false, 2)], 10);
    s.push_image_entry("/n.png".into(), 3, 4);
    assert_eq!(
        keys(&s),
        vec![("p".into(), true), ("/n.png".into(), false), ("a".into(), false)]
    );
    assert_eq!(s.entries()[1].preview(5), "\u{1F5BC}  3\u{d7}4 image");
}

#[test]
fn promote_moves_unpinned_to_top() {
    let mut s = store(vec![text("p", true, 1), text("a", false, 2), text("b", false, 3)], 10);
    let e = s.promote(2).map(|e| e.kind.dedup_key());
    assert_eq!(e.as_deref(), Some("b"));
    assert_eq!(keys(&s), vec![("p".into(), true), ("b".into(), false), ("a".into(), false)]);
    let pinned = s.promote(0).map(|e| e.kind.dedup_key());
    assert_eq!(pinned.as_deref(), Some("p"));
    assert_eq!(keys(&s), vec![("p".into(), true), ("b".into(), false), ("a".into(), false)]);
    assert!(s.promote(3).is_none());
}

#[test]
fn toggle_pin_moves_between_sections() {
    let mut s = store(vec![text("p", true, 1), text("a", false, 2), text("b", false, 3)], 10);
    s.toggle_pin(2);
    assert_eq!(keys(&s), vec![("p".into(), true), ("b".into(), true), ("a".into(), false)]);
    s.toggle_pin(0);
    assert_eq!(keys(&s), vec![("b".into(), true), ("p".into(), false), ("a".into(), false)]);
    s.toggle_pin(9);
    assert_eq!(keys(&s), vec![("b".into(), true), ("p".into(), false), ("a".into(), false)]);
}

#[test]
fn remove_queues_the_image_file() {
    let mut s = store(vec![image("/x.png", false), text("a", false, 2)], 10);
    s.remove(5);
    assert_eq!(s.entries().len(), 2);
    s.remove(0);
    assert_eq!(keys(&s), vec![("a".into(), false)]);
    assert_eq!(s.take_removed_images(), vec!["/x.png".to_string()]);
    s.remove(0);
    assert!(s.entries().is_empty());
    assert!(s.take_removed_images().is_empty());
}

#[test]
fn clear_unpinned_keeps_pins_and_is_idempotent() {
    let mut s = store(
        vec![image("/p.png", true), text("a", false, 2), image("/u.png", false), text("q", true, 3)],
        10,
    );
    s.clear_unpinned();
    assert_eq!(keys(&s), vec![("/p.png".into(), true), ("q".into(), true)]);
    assert_eq!(s.take_removed_images(), vec!["/u.png".to_string()]);
    s.clear_unpinned();
    assert_eq!(keys(&s), vec![("/p.png".into(), true), ("q".into(), true)]);
    assert!(s.take_removed_images().is_empty());
}

#[test]
fn accessors_report_the_store_paths() {
    let s = store(vec![], 3);
    assert_eq!(s.path(), "/h/history.json");
    assert_eq!(s.images_dir(), "/h/images");
}

#[test]
fn toggled_pins_land_at_the_section_edge() {
    let mut s = store(
        vec![text("p", true, 1), text("q", true, 2), text("a", false, 3), text("b", false, 4)],
        10,
    );
    // Two pinned entries: a newly pinned one lands at index 2.
    s.toggle_pin(3);
    assert_eq!(
        keys(&s),
        vec![("p".into(), true), ("q".into(), true), ("b".into(), true), ("a".into(), false)]
    );
    // Three pinned entries: a newly unpinned one lands at index 2.
    s.toggle_pin(0);
    assert_eq!(
        keys(&s),
        vec![("q".into(), true), ("b".into(), true), ("p".into(), false), ("a".into(), false)]
    );
}

#[test]
fn rgba_buffers_must_hold_four_bytes_a_pixel() {
    assert!(rgba_len_ok(8, 2, 1));
    assert!(rgba_len_ok(9, 2, 1));
    assert!(!rgba_len_ok(7, 2, 1));
    assert!(rgba_len_ok(0, 0, 5));
    assert!(rgba_len_ok(0, 5, 0));
    assert!(!rgba_len_ok(usize::MAX, u32::MAX, u32::MAX));
}
