use clip_pop::app::{
    copy_payload, Command, ContextPage, CopyPayload, ListView, MenuAction, Message, UiState,
    WindowCommand,
};
use clip_pop::clipboard::ClipboardEvent;
use clip_pop::config::Config;
use clip_pop::db::{format_hash, ClipEntry, Db};

fn row(id: i64, mime: &str, content: &[u8], pinned: bool) -> ClipEntry {
    ClipEntry {
        id,
        mime_type: mime.to_string(),
        content: content.to_vec(),
        content_hash: format_hash(id as u64),
        pinned,
        created_at: id,
    }
}

fn db() -> Db {
    let mut db = Db::new(50);
    db.replace_entries(vec![
        row(1, "text/plain", b"pinned", true),
        row(2, "text/plain;charset=utf-8", b"hello", false),
        row(3, "image/png", &[9, 9], false),
        row(4, "text/plain", &[0xff], false),
    ]);
    db
}

#[test]
fn new_text_is_inserted() {
    let mut ui = UiState::new(Config::default());
    let mut db = db();
    match ui.update(&mut db, Message::ClipboardEvent(ClipboardEvent::Text("hi".into()))) {
        Command::Insert { mime_type, content } => {
            assert_eq!(mime_type, "text/plain;charset=utf-8");
            assert_eq!(content, b"hi".to_vec());
        }
        other => panic!("unexpected {other:?}"),
    }
    ui.inserted(&db, 1);
    assert_eq!(ui.active_id, Some(2));
    ui.inserted(&db, 9);
    assert_eq!(ui.active_id, None);
}

#[test]
fn a_copy_from_history_is_not_recorded_again() {
    let mut ui = UiState::new(Config::default());
    let mut db = db();
    match ui.update(&mut db, Message::SelectItem(1)) {
        Command::Select { promote, id } => assert_eq!((promote, id), (Some(1), 2)),
        other => panic!("unexpected {other:?}"),
    }
    assert!(matches!(ui.update(&mut db, Message::SelectItem(9)), Command::Nothing));
    let req = ui.begin_copy(&db, 2).expect("row exists");
    assert_eq!(req.id, 2);
    assert!(matches!(req.payload, CopyPayload::Text(ref t) if t == "hello"));
    ui.copy_finished(req.id, true);
    assert_eq!(ui.active_id, Some(2));
    let cmd = ui.update(&mut db, Message::ClipboardEvent(ClipboardEvent::Text("hello".into())));
    assert!(matches!(cmd, Command::Nothing));
    assert!(ui.suppress_next.is_none());
    let again = ui.update(&mut db, Message::ClipboardEvent(ClipboardEvent::Text("hello".into())));
    assert!(matches!(again, Command::Insert { .. }));
}

#[test]
fn failed_copy_forgets_the_suppression() {
    let mut ui = UiState::new(Config::default());
    let db = db();
    let req = ui.begin_copy_hashed(&db, 3, 42).expect("row exists");
    assert_eq!(ui.suppress_next, Some(42));
    assert!(matches!(req.payload, CopyPayload::Image { ref mime_type, .. } if mime_type == "image/png"));
    ui.copy_finished(req.id, false);
    assert!(ui.suppress_next.is_none());
    assert_eq!(ui.active_id, None);
    assert!(ui.begin_copy(&db, 10).is_none());
    assert_eq!(ui.suppress_next, None);
    assert!(matches!(copy_payload(vec![0xff], "text/plain".into()), CopyPayload::Invalid));
}

#[test]
fn select_without_move_to_top_copies_in_place() {
    let mut cfg = Config::default();
    cfg.move_to_top_on_select = false;
    let mut ui = UiState::new(cfg);
    let mut db = db();
    assert!(matches!(
        ui.update(&mut db, Message::SelectItem(3)),
        Command::Select { promote: None, id: 4 }
    ));
}

#[test]
fn clipboard_cleared_and_unavailable() {
    let mut ui = UiState::new(Config::default());
    let mut db = db();
    ui.active_id = Some(2);
    ui.suppress_next = Some(5);
    assert!(matches!(ui.update(&mut db, Message::ClipboardEvent(ClipboardEvent::Cleared)), Command::Nothing));
    assert_eq!((ui.active_id, ui.suppress_next), (None, None));
    ui.update(&mut db, Message::ClipboardEvent(ClipboardEvent::Unavailable));
    assert!(!ui.clipboard_available);
    let img = ui.update(
        &mut db,
        Message::ClipboardEvent(ClipboardEvent::Image { data: vec![1], mime_type: "image/bmp".into() }),
    );
    assert!(matches!(img, Command::Insert { ref mime_type, .. } if mime_type == "image/bmp"));
}

#[test]
fn pin_keeps_and_delete_forgets_the_active_entry() {
    let mut ui = UiState::new(Config::default());
    let mut db = db();
    ui.active_id = Some(3);
    assert!(matches!(ui.update(&mut db, Message::PinItem(2)), Command::TogglePin(2)));
    assert_eq!(ui.active_id, Some(3));
    assert!(matches!(ui.update(&mut db, Message::DeleteItem(1)), Command::Remove(1)));
    assert_eq!(ui.active_id, Some(3));
    assert!(matches!(ui.update(&mut db, Message::DeleteItem(2)), Command::Remove(2)));
    assert_eq!(ui.active_id, None);
}

#[test]
fn clear_all_asks_first() {
    let mut ui = UiState::new(Config::default());
    let mut db = db();
    ui.active_id = Some(2);
    ui.update(&mut db, Message::RequestClearAll);
    assert!(ui.show_confirm_clear);
    ui.update(&mut db, Message::CancelClearAll);
    assert!(!ui.show_confirm_clear);
    assert_eq!(ui.active_id, Some(2));
    ui.update(&mut db, Message::RequestClearAll);
    assert!(matches!(ui.update(&mut db, Message::ConfirmClearAll), Command::ClearUnpinned));
    assert!(!ui.show_confirm_clear);
    assert_eq!(ui.active_id, None);
}

#[test]
fn settings_toggles_and_updates() {
    let mut ui = UiState::new(Config::default());
    let mut db = db();
    assert!(matches!(ui.update(&mut db, Message::TogglePrivateMode), Command::SetPrivateMode(true)));
    assert!(matches!(ui.update(&mut db, Message::ToggleLaunchOnLogin), Command::SetLaunchOnLogin(true)));
    ui.autostart_write_failed();
    assert!(!ui.config.launch_on_login);
    let mut c = Config::default();
    c.max_history = 1;
    c.private_mode = true;
    match ui.update(&mut db, Message::UpdateConfig(c)) {
        Command::ApplySettings { private_mode, drop_rows } => {
            assert!(private_mode);
            assert!(drop_rows.is_empty());
        }
        other => panic!("unexpected command {:?}", other),
    }
    assert_eq!(ui.config.max_history, 10);
    assert_eq!(db.reload_limit(), 510);
    assert_eq!(db.len(), 4);
}

#[test]
fn search_and_url_messages() {
    let mut ui = UiState::new(Config::default());
    let mut db = db();
    ui.update(&mut db, Message::SearchChanged("hel".into()));
    assert_eq!(ui.search_query, "hel");
    ui.update(&mut db, Message::SearchClear);
    assert_eq!(ui.search_query, "");
    assert!(matches!(
        ui.update(&mut db, Message::LaunchUrl("https://x".into())),
        Command::OpenUrl(ref u) if u == "https://x"
    ));
}

#[test]
fn drawer_toggles_per_page() {
    let mut ui = UiState::new(Config::default());
    let mut db = db();
    ui.update(&mut db, Message::ToggleContextPage(ContextPage::Settings));
    assert_eq!((ui.context_page, ui.show_context), (ContextPage::Settings, true));
    ui.update(&mut db, Message::ToggleContextPage(ContextPage::Settings));
    assert_eq!((ui.context_page, ui.show_context), (ContextPage::Settings, false));
    ui.update(&mut db, Message::ToggleContextPage(ContextPage::Settings));
    ui.update(&mut db, Message::ToggleContextPage(ContextPage::About));
    assert_eq!((ui.context_page, ui.show_context), (ContextPage::About, true));
    assert!(matches!(MenuAction::Settings.message(), Message::ToggleContextPage(ContextPage::Settings)));
    assert!(matches!(MenuAction::About.message(), Message::ToggleContextPage(ContextPage::About)));
}

#[test]
fn second_launch_toggles_the_window() {
    let mut ui = UiState::new(Config::default());
    assert_eq!(ui.dbus_activation(), WindowCommand::Minimize);
    assert!(ui.window_minimized);
    assert_eq!(ui.dbus_activation(), WindowCommand::GainFocus);
    assert!(!ui.window_minimized);
}

#[test]
fn list_view_sections() {
    let mut ui = UiState::new(Config::default());
    let mut db = db();
    match ui.list_view(&db, "Image") {
        ListView::Sections { pinned, unpinned } => {
            assert_eq!(pinned, vec![0]);
            assert_eq!(unpinned, vec![1, 2, 3]);
        }
        other => panic!("unexpected {other:?}"),
    }
    ui.update(&mut db, Message::SearchChanged("zzzz".into()));
    assert!(matches!(ui.list_view(&db, "Image"), ListView::Empty { searching: true }));
    let empty = Db::new(5);
    ui.update(&mut db, Message::SearchClear);
    assert!(matches!(ui.list_view(&empty, "Image"), ListView::Empty { searching: false }));
}

#[test]
fn pending_suppression_of_other_content_still_inserts_it() {
    let mut ui = UiState::new(Config::default());
    let mut db = db();
    let _ = ui.begin_copy_hashed(&db, 2, 1234).expect("row exists");
    match ui.update(&mut db, Message::ClipboardEvent(ClipboardEvent::Text("fresh".into()))) {
        Command::Insert { mime_type, content } => {
            assert_eq!(mime_type, "text/plain;charset=utf-8");
            assert_eq!(content, b"fresh".to_vec());
        }
        other => panic!("unexpected {other:?}"),
    }
    assert!(ui.suppress_next.is_none());
}

#[test]
fn lowering_max_history_drops_old_unpinned_rows() {
    let mut ui = UiState::new(Config::default());
    let mut db = Db::new(50);
    let mut rows = vec![row(1, "text/plain", b"pinned", true)];
    for id in 2..20 {
        rows.push(row(id, "text/plain", b"x", false));
    }
    db.replace_entries(rows);
    let mut c = Config::default();
    c.max_history = 10;
    match ui.update(&mut db, Message::UpdateConfig(c)) {
        Command::ApplySettings { private_mode, drop_rows } => {
            assert!(!private_mode);
            assert_eq!(drop_rows, (12..20).collect::<Vec<i64>>());
        }
        other => panic!("unexpected {other:?}"),
    }
    assert_eq!(db.len(), 11);
    assert_eq!(db.entries()[0].id, 1);
}

#[test]
fn searching_an_empty_query_lists_everything() {
    let ui = UiState::new(Config::default());
    let db = db();
    match ui.list_view(&db, "Image") {
        ListView::Sections { pinned, unpinned } => {
            assert_eq!(pinned, vec![0]);
            assert_eq!(unpinned, vec![1, 2, 3]);
        }
        other => panic!("unexpected {other:?}"),
    }
}

#[test]
fn a_search_past_the_matcher_limits_is_not_run() {
    let mut ui = UiState::new(Config::default());
    let mut db = db();
    let too_many = vec!["a"; 65_538].join(" ");
    let _ = ui.update(&mut db, Message::SearchChanged(too_many));
    assert!(matches!(ui.list_view(&db, "Image"), ListView::TooLarge));
    let _ = ui.update(&mut db, Message::SearchChanged("hello".into()));
    assert!(matches!(ui.list_view(&db, "Image"), ListView::Sections { .. }));
}

#[test]
fn the_published_private_flag_follows_the_settings() {
    let mut ui = UiState::new(Config::default());
    let mut db = db();
    let mut flag = ui.config.private_mode;
    let messages = vec![
        Message::TogglePrivateMode,
        Message::SearchChanged("x".into()),
        Message::TogglePrivateMode,
        Message::UpdateConfig(Config { private_mode: true, ..Config::default() }),
        Message::ToggleLaunchOnLogin,
    ];
    for m in messages {
        match ui.update(&mut db, m) {
            Command::SetPrivateMode(b) => flag = b,
            Command::ApplySettings { private_mode, .. } => flag = private_mode,
            _ => {}
        }
        assert_eq!(flag, ui.config.private_mode);
    }
    assert!(flag);
}
