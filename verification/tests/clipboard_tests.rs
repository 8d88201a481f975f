use clip_pop::clipboard::{
    choose_mime, classify_content, fx_hash, preferred_mime, ClipboardEvent, PasteFailure,
    PollAction, PollState, PREFERRED_COUNT,
};
use clip_pop::clipboard_watcher::{
    check_bound_globals, content_from_read, ClipboardContent, GlobalsProblem, OfferTracker,
};
use clip_pop::config::{Config, DEFAULT_HISTORY, MAX_HISTORY, MIN_HISTORY, MIN_PREVIEW_CHARS};

fn offers(v: &[&str]) -> Vec<String> {
    v.iter().map(|s| s.to_string()).collect()
}

#[test]
fn preferred_types_win_in_priority_order() {
    assert_eq!(choose_mime(&offers(&["image/png", "STRING", "text/html"])).as_deref(), Some("STRING"));
    assert_eq!(
        choose_mime(&offers(&["text/plain", "text/plain;charset=utf-8"])).as_deref(),
        Some("text/plain;charset=utf-8")
    );
    assert_eq!(choose_mime(&offers(&["x-special", "text/html", "image/gif"])).as_deref(), Some("text/html"));
    assert_eq!(choose_mime(&offers(&["x-special", "image/gif"])).as_deref(), Some("image/gif"));
    assert_eq!(choose_mime(&offers(&["x-special", "application/json"])), None);
    assert_eq!(choose_mime(&offers(&[])), None);
    let all: Vec<&str> = (0..PREFERRED_COUNT).map(preferred_mime).collect();
    assert_eq!(all[0], "text/plain;charset=utf-8");
    assert_eq!(all[8], "image/webp");
}

#[test]
fn content_classification() {
    assert!(matches!(
        classify_content("image/png".into(), vec![1, 2]),
        Some(ClipboardEvent::Image { ref data, ref mime_type }) if data == &vec![1, 2] && mime_type == "image/png"
    ));
    assert!(matches!(
        classify_content("text/plain".into(), "h\u{e9}llo".as_bytes().to_vec()),
        Some(ClipboardEvent::Text(ref t)) if t == "h\u{e9}llo"
    ));
    assert!(classify_content("text/plain".into(), b"  \n".to_vec()).is_none());
    assert!(classify_content("text/plain".into(), vec![0xff, 0xfe]).is_none());
}

#[test]
fn polling_reports_new_content_once() {
    let mut st = PollState::new();
    assert!(matches!(st.on_content("text/plain".into(), Vec::new()), PollAction::Skip));
    assert!(st.last_hash.is_none());
    match st.on_content("text/plain".into(), b"copied".to_vec()) {
        PollAction::Emit(ClipboardEvent::Text(t)) => assert_eq!(t, "copied"),
        other => panic!("unexpected {other:?}"),
    }
    assert_eq!(st.last_hash, Some(fx_hash(b"copied")));
    assert!(matches!(st.on_content("text/plain".into(), b"copied".to_vec()), PollAction::Skip));
    assert!(matches!(
        st.on_content_hashed("text/plain".into(), b"other".to_vec(), 77),
        PollAction::Emit(_)
    ));
    assert_eq!(st.last_hash, Some(77));
}

#[test]
fn polling_failures() {
    let mut st = PollState::new();
    assert!(matches!(st.on_list_failure(PasteFailure::ClipboardEmpty), PollAction::Skip));
    st.last_hash = Some(1);
    assert!(matches!(
        st.on_list_failure(PasteFailure::ClipboardEmpty),
        PollAction::Emit(ClipboardEvent::Cleared)
    ));
    assert!(st.last_hash.is_none());
    assert!(matches!(
        st.on_list_failure(PasteFailure::MissingProtocol),
        PollAction::EmitAndStop(ClipboardEvent::Unavailable)
    ));
    assert!(matches!(st.on_list_failure(PasteFailure::Other), PollAction::Skip));
    st.last_hash = Some(3);
    assert!(matches!(st.on_read_failure(PasteFailure::Other), PollAction::Skip));
    assert_eq!(st.last_hash, Some(3));
    assert!(matches!(
        st.on_read_failure(PasteFailure::ClipboardEmpty),
        PollAction::Emit(ClipboardEvent::Cleared)
    ));
    assert!(st.last_hash.is_none());
}

#[test]
fn fx_hash_depends_on_the_bytes() {
    assert_eq!(fx_hash(b"abc"), fx_hash(b"abc"));
    assert_ne!(fx_hash(b"abc"), fx_hash(b"abd"));
}

#[test]
fn offers_accumulate_until_selected() {
    let mut t = OfferTracker::new();
    t.on_data_offer(4);
    t.on_offer_mime(4, "text/html".into());
    t.on_offer_mime(4, "STRING".into());
    t.on_offer_mime(9, "ignored".into());
    assert!(t.pending.get(&9).is_none());
    t.begin_wait();
    assert!(!t.got_selection);
    t.on_selection(Some(4));
    assert!(t.got_selection);
    assert!(t.pending.get(&4).is_none());
    assert_eq!(t.take_read_plan(), Some((4, "STRING".to_string())));
    assert!(t.selection.is_none());
    assert_eq!(t.take_read_plan(), None);
    t.on_selection(Some(8));
    assert_eq!(t.selection.as_ref().map(|s| s.1.len()), Some(0));
    assert_eq!(t.take_read_plan(), None);
    t.on_data_offer(5);
    t.on_offer_mime(5, "application/x".into());
    t.on_selection(Some(5));
    assert_eq!(t.take_read_plan(), None);
    t.on_selection(None);
    assert!(t.selection.is_none() && t.got_selection);
}

#[test]
fn read_content_becomes_clipboard_content() {
    assert!(matches!(content_from_read("text/plain".into(), vec![]), ClipboardContent::Cleared));
    assert!(matches!(content_from_read("text/plain".into(), b"  ".to_vec()), ClipboardContent::Cleared));
    assert!(matches!(content_from_read("text/plain".into(), vec![0xc3]), ClipboardContent::Cleared));
    assert!(matches!(
        content_from_read("UTF8_STRING".into(), b"x".to_vec()),
        ClipboardContent::Text(ref t) if t == "x"
    ));
    assert!(matches!(
        content_from_read("image/png".into(), vec![0]),
        ClipboardContent::Image { ref mime_type, .. } if mime_type == "image/png"
    ));
}

#[test]
fn config_defaults_and_bounds() {
    let d = Config::default();
    assert_eq!(d.max_history, DEFAULT_HISTORY);
    assert_eq!(d.preview_chars, 100);
    assert!(d.move_to_top_on_select && !d.private_mode && !d.launch_on_login);
    assert_eq!(d.entry_lifetime_days, Some(30));
    let mut c = Config::default();
    c.max_history = 3;
    c.preview_chars = 10_000;
    c.private_mode = true;
    let v = c.validated();
    assert_eq!(v.max_history, MIN_HISTORY);
    assert_eq!(v.preview_chars, 500);
    assert!(v.private_mode);
    let mut c = Config::default();
    c.max_history = 100_000;
    c.preview_chars = 0;
    let v = c.validated().validated();
    assert_eq!(v.max_history, MAX_HISTORY);
    assert_eq!(v.preview_chars, MIN_PREVIEW_CHARS);
    let mut c = Config::default();
    c.max_history = 77;
    assert_eq!(c.validated().max_history, 77);
}

#[test]
fn watcher_needs_manager_and_seat() {
    assert_eq!(check_bound_globals(false, 0), Err(GlobalsProblem::ProtocolUnsupported));
    assert_eq!(check_bound_globals(false, 2), Err(GlobalsProblem::ProtocolUnsupported));
    assert_eq!(check_bound_globals(true, 0), Err(GlobalsProblem::NoSeats));
    assert_eq!(check_bound_globals(true, 1), Ok(()));
}

#[test]
fn config_follows_the_autostart_file() {
    let c = Config::default().synced_with_autostart(true);
    assert!(c.launch_on_login);
    assert_eq!(c.max_history, DEFAULT_HISTORY);
    assert!(!c.synced_with_autostart(false).launch_on_login);
}

#[test]
fn unchanged_clipboard_is_reported_once_across_failures() {
    let mut st = PollState::new();
    assert!(matches!(st.on_content_hashed("text/plain".into(), b"kept".to_vec(), 5), PollAction::Emit(_)));
    assert!(matches!(st.on_list_failure(PasteFailure::Other), PollAction::Skip));
    assert!(matches!(st.on_read_failure(PasteFailure::Other), PollAction::Skip));
    assert!(matches!(st.on_content_hashed("text/plain".into(), b"kept".to_vec(), 5), PollAction::Skip));
    assert!(matches!(st.on_read_failure(PasteFailure::ClipboardEmpty), PollAction::Emit(ClipboardEvent::Cleared)));
    assert!(matches!(st.on_content_hashed("text/plain".into(), b"kept".to_vec(), 5), PollAction::Emit(_)));
}

#[test]
fn new_blank_text_and_unknown_bytes_are_remembered_but_not_reported() {
    let mut st = PollState::new();
    assert!(matches!(st.on_content_hashed("text/plain".into(), b"   ".to_vec(), 8), PollAction::Skip));
    assert_eq!(st.last_hash, Some(8));
    match st.on_content_hashed("image/png".into(), vec![1, 2], 9) {
        PollAction::Emit(ClipboardEvent::Image { data, mime_type }) => {
            assert_eq!(data, vec![1, 2]);
            assert_eq!(mime_type, "image/png");
        }
        other => panic!("unexpected {other:?}"),
    }
}

#[test]
fn polling_stops_only_when_an_event_cannot_be_delivered() {
    assert!(PollAction::Skip.continues_after(false));
    assert!(PollAction::Emit(ClipboardEvent::Cleared).continues_after(false));
    assert!(PollAction::Emit(ClipboardEvent::Text("t".into())).continues_after(true));
    assert!(!PollAction::Emit(ClipboardEvent::Text("t".into())).continues_after(false));
    assert!(!PollAction::Emit(ClipboardEvent::Image { data: vec![1], mime_type: "image/png".into() })
        .continues_after(false));
    assert!(!PollAction::EmitAndStop(ClipboardEvent::Unavailable).continues_after(true));
}
