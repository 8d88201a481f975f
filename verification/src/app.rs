//! The application's message handling: how each user action or clipboard
//! event changes the window state, and which outside work (database,
//! clipboard, files, settings store) it asks for.

use vstd::prelude::*;
use vstd::string::{StrSliceExecFns, StringExecFns};
use vstd::utf8::{decode_utf8, valid_utf8};

use crate::clipboard::{fx_hash, ClipboardEvent, EventView};
use crate::config::{
    clamped, Config, MAX_HISTORY, MAX_PREVIEW_CHARS, MIN_HISTORY, MIN_PREVIEW_CHARS,
};
use crate::db::{
    can_search, fuzzy_search, id_position, image_prefix, is_image_mime, over_limit_ids, row_views, search_hits,
    searchable, within_limit, Db, RowView,
};
use crate::sys::utf8_decode;
use crate::text::has_prefix;

verus! {

/// The page shown in the side drawer.
#[derive(Debug, Clone, Copy, PartialEq, Eq, Structural)]
pub enum ContextPage {
    About,
    Settings,
}

/// The entries of the view menu.
#[derive(Debug, Clone, Copy, PartialEq, Eq, Structural)]
pub enum MenuAction {
    About,
    Settings,
}

impl MenuAction {
    /// The message that the menu entry sends.
    pub fn message(&self) -> (r: Message)
        ensures
            r matches Message::ToggleContextPage(p) && p == (match self {
                MenuAction::About => ContextPage::About,
                MenuAction::Settings => ContextPage::Settings,
            }),
    {
        match self {
            MenuAction::About => Message::ToggleContextPage(ContextPage::About),
            MenuAction::Settings => Message::ToggleContextPage(ContextPage::Settings),
        }
    }
}

/// What the user or the clipboard watcher asks of the application.
#[derive(Debug, Clone)]
pub enum Message {
    ClipboardEvent(ClipboardEvent),
    SelectItem(usize),
    PinItem(usize),
    DeleteItem(usize),
    RequestClearAll,
    ConfirmClearAll,
    CancelClearAll,
    TogglePrivateMode,
    ToggleLaunchOnLogin,
    SearchChanged(String),
    SearchClear,
    LaunchUrl(String),
    ToggleContextPage(ContextPage),
    UpdateConfig(Config),
}

/// The outside work that a message asks for.
#[derive(Debug)]
pub enum Command {
    /// Nothing to do.
    Nothing,
    /// Insert the content into the database, then report the resulting
    /// position with [`UiState::inserted`].
    Insert { mime_type: String, content: Vec<u8> },
    /// Promote the row at `promote` (when there is one), then copy the row
    /// with id `id` to the clipboard through [`UiState::begin_copy`].
    Select { promote: Option<usize>, id: i64 },
    /// Flip the pin of the row at this index.
    TogglePin(usize),
    /// Delete the row at this index.
    Remove(usize),
    /// Delete every unpinned row.
    ClearUnpinned,
    /// Publish the private-mode flag to the watcher and store it in the
    /// settings.
    SetPrivateMode(bool),
    /// New settings: publish the private-mode flag to the watcher, and delete
    /// the rows with these ids, which the new limit no longer keeps.
    ApplySettings { private_mode: bool, drop_rows: Vec<i64> },
    /// Install (`true`) or remove (`false`) the autostart file, then store the
    /// setting (see [`UiState::autostart_write_failed`]).
    SetLaunchOnLogin(bool),
    /// Open the URL in the desktop's handler.
    OpenUrl(String),
}

/// What to put on the clipboard when an entry is selected.
#[derive(Debug)]
pub enum CopyPayload {
    Image { data: Vec<u8>, mime_type: String },
    Text(String),
    /// The entry's bytes are not UTF-8, so it cannot be copied as text.
    Invalid,
}

/// A request to put entry `id` on the clipboard.
#[derive(Debug)]
pub struct CopyRequest {
    pub id: i64,
    pub payload: CopyPayload,
}

/// What the window does when a second launch asks for it.
#[derive(Debug, Clone, Copy, PartialEq, Eq, Structural)]
pub enum WindowCommand {
    GainFocus,
    Minimize,
}

/// The state of the main window, apart from the history itself.
pub struct UiState {
    pub config: Config,
    pub search_query: String,
    /// ID of the entry currently in the system clipboard.
    pub active_id: Option<i64>,
    /// Show confirm-clear dialog.
    pub show_confirm_clear: bool,
    /// Hash of content we just set — suppresses the next matching event.
    pub suppress_next: Option<u64>,
    /// Whether the clipboard protocol is available.
    pub clipboard_available: bool,
    /// Tracks minimized state for Super+V toggle.
    pub window_minimized: bool,
    pub context_page: ContextPage,
    pub show_context: bool,
}

/// The MIME type under which clipboard text is stored.
pub open spec fn text_mime() -> Seq<char> {
    "text/plain;charset=utf-8"@
}

/// The private-mode flag that the clipboard watcher holds once `c` is
/// carried out, when it held `flag` before: the commands that publish the
/// flag set it, the others leave it.
pub open spec fn watcher_flag_after(flag: bool, c: Command) -> bool {
    match c {
        Command::SetPrivateMode(b) => b,
        Command::ApplySettings { private_mode, .. } => private_mode,
        _ => flag,
    }
}

/// The command inserts the content that the event brought: text under the
/// text MIME type, as UTF-8, and an image under its own type.
pub open spec fn inserts_content(r: Command, ev: EventView) -> bool {
    match ev {
        EventView::Text(t) => r matches Command::Insert { mime_type, content } && mime_type@
            == text_mime() && content@ == vstd::utf8::encode_utf8(t),
        EventView::Image(d, m) => r matches Command::Insert { mime_type, content } && mime_type@
            == m && content@ == d,
        _ => false,
    }
}

/// The drawer state after asking for `page`: the same page toggles the
/// drawer, another page opens it on that page.
pub open spec fn drawer_after(current: ContextPage, shown: bool, page: ContextPage) -> (ContextPage, bool) {
    if current == page {
        (current, !shown)
    } else {
        (page, true)
    }
}

/// Asking twice for the page that the drawer shows leaves the drawer as it
/// was.
pub proof fn law_drawer_toggle_twice(current: ContextPage, shown: bool)
    ensures
        ({
            let (p, s) = drawer_after(current, shown, current);
            drawer_after(p, s, current) == (current, shown)
        }),
{
}

impl UiState {
    /// The state of a fresh window with the given settings.
    pub fn new(config: Config) -> (r: Self)
        ensures
            r.config == config,
            r.search_query@.len() == 0,
            r.active_id is None,
            !r.show_confirm_clear,
            r.suppress_next is None,
            r.clipboard_available,
            !r.window_minimized,
            r.context_page == ContextPage::About,
            !r.show_context,
    {
        UiState {
            config,
            search_query: String::new(),
            active_id: None,
            show_confirm_clear: false,
            suppress_next: None,
            clipboard_available: true,
            window_minimized: false,
            context_page: ContextPage::About,
            show_context: false,
        }
    }

    /// A clipboard event whose content hashes to `hash` (any value for
    /// events without content): content that we just put on the clipboard
    /// ourselves is skipped once; other content is inserted into the
    /// history; a cleared clipboard forgets the active entry; an unavailable
    /// clipboard is remembered.
    pub fn on_clipboard_event_hashed(&mut self, event: ClipboardEvent, hash: u64) -> (r: Command)
        ensures
            match event@ {
                EventView::Text(t) => {
                    &&& *final(self) == (UiState { suppress_next: None, ..*old(self) })
                    &&& if old(self).suppress_next == Some(hash) {
                        r is Nothing
                    } else {
                        r matches Command::Insert { mime_type, content } && mime_type@ == text_mime()
                            && content@ == vstd::utf8::encode_utf8(t)
                    }
                },
                EventView::Image(d, m) => {
                    &&& *final(self) == (UiState { suppress_next: None, ..*old(self) })
                    &&& if old(self).suppress_next == Some(hash) {
                        r is Nothing
                    } else {
                        r matches Command::Insert { mime_type, content } && mime_type@ == m
                            && content@ == d
                    }
                },
                EventView::Cleared => {
                    &&& r is Nothing
                    &&& *final(self) == (UiState { suppress_next: None, active_id: None, ..*old(self) })
                },
                EventView::Unavailable => {
                    &&& r is Nothing
                    &&& *final(self) == (UiState { clipboard_available: false, ..*old(self) })
                },
            },
    {
        match event {
            ClipboardEvent::Text(text) => {
                if self.suppress_next == Some(hash) {
                    self.suppress_next = None;
                    return Command::Nothing;
                }
                self.suppress_next = None;
                let content = text.as_str().as_bytes_vec();
                proof {
                    reveal_strlit("text/plain;charset=utf-8");
                }
                Command::Insert { mime_type: String::from_str("text/plain;charset=utf-8"), content }
            },
            ClipboardEvent::Image { data, mime_type } => {
                if self.suppress_next == Some(hash) {
                    self.suppress_next = None;
                    return Command::Nothing;
                }
                self.suppress_next = None;
                Command::Insert { mime_type, content: data }
            },
            ClipboardEvent::Cleared => {
                self.suppress_next = None;
                self.active_id = None;
                Command::Nothing
            },
            ClipboardEvent::Unavailable => {
                self.clipboard_available = false;
                Command::Nothing
            },
        }
    }

    /// A clipboard event: hashes its content, then decides as
    /// [`UiState::on_clipboard_event_hashed`] does.
    pub fn on_clipboard_event(&mut self, event: ClipboardEvent) -> (r: Command)
        ensures
            match event@ {
                EventView::Text(t) => {
                    &&& *final(self) == (UiState { suppress_next: None, ..*old(self) })
                    &&& old(self).suppress_next is None ==> (r matches Command::Insert {
                        mime_type,
                        content,
                    } && mime_type@ == text_mime() && content@ == vstd::utf8::encode_utf8(t))
                    &&& old(self).suppress_next is Some ==> (r is Nothing || inserts_content(r, event@))
                },
                EventView::Image(d, m) => {
                    &&& *final(self) == (UiState { suppress_next: None, ..*old(self) })
                    &&& old(self).suppress_next is None ==> (r matches Command::Insert {
                        mime_type,
                        content,
                    } && mime_type@ == m && content@ == d)
                    &&& old(self).suppress_next is Some ==> (r is Nothing || inserts_content(r, event@))
                },
                EventView::Cleared => {
                    &&& r is Nothing
                    &&& *final(self) == (UiState { suppress_next: None, active_id: None, ..*old(self) })
                },
                EventView::Unavailable => {
                    &&& r is Nothing
                    &&& *final(self) == (UiState { clipboard_available: false, ..*old(self) })
                },
            },
    {
        let hash: u64 = match &event {
            ClipboardEvent::Text(text) => fx_hash(text.as_str().as_bytes()),
            ClipboardEvent::Image { data, .. } => fx_hash(data.as_slice()),
            _ => 0,
        };
        self.on_clipboard_event_hashed(event, hash)
    }

    /// Handles one message: changes the window state, and the limit of the
    /// history cache for new settings, and returns the outside work to do.
    /// The private-mode flag that the returned command publishes keeps the
    /// clipboard watcher in step with the settings.
    pub fn update(&mut self, db: &mut Db, message: Message) -> (r: Command)
        ensures
            !(message is UpdateConfig) ==> final(db)@ == old(db)@,
            watcher_flag_after(old(self).config.private_mode, r) == final(self).config.private_mode,
            match message {
                Message::ClipboardEvent(ev) => match ev@ {
                    EventView::Text(t) => {
                        &&& *final(self) == (UiState { suppress_next: None, ..*old(self) })
                        &&& old(self).suppress_next is None ==> (r matches Command::Insert {
                            mime_type,
                            content,
                        } && mime_type@ == text_mime() && content@ == vstd::utf8::encode_utf8(t))
                        &&& old(self).suppress_next is Some ==> (r is Nothing || inserts_content(r, ev@))
                    },
                    EventView::Image(d, m) => {
                        &&& *final(self) == (UiState { suppress_next: None, ..*old(self) })
                        &&& old(self).suppress_next is None ==> (r matches Command::Insert {
                            mime_type,
                            content,
                        } && mime_type@ == m && content@ == d)
                        &&& old(self).suppress_next is Some ==> (r is Nothing || inserts_content(r, ev@))
                    },
                    EventView::Cleared => {
                        &&& r is Nothing
                        &&& *final(self) == (UiState { suppress_next: None, active_id: None, ..*old(self) })
                    },
                    EventView::Unavailable => {
                        &&& r is Nothing
                        &&& *final(self) == (UiState { clipboard_available: false, ..*old(self) })
                    },
                },
                Message::SelectItem(i) => {
                    &&& i < old(db)@.entries.len() ==> (r matches Command::Select { promote, id }
                        && id == old(db)@.entries[i as int].id && (if old(
                        self,
                    ).config.move_to_top_on_select {
                        promote == Some(i)
                    } else {
                        promote is None
                    }))
                    &&& i >= old(db)@.entries.len() ==> r is Nothing
                    &&& *final(self) == *old(self)
                },
                Message::PinItem(i) => {
                    &&& (r matches Command::TogglePin(j) && j == i)
                    &&& *final(self) == *old(self)
                },
                Message::DeleteItem(i) => {
                    &&& (r matches Command::Remove(j) && j == i)
                    &&& if i < old(db)@.entries.len() && old(self).active_id == Some(
                        old(db)@.entries[i as int].id,
                    ) {
                        *final(self) == (UiState { active_id: None, ..*old(self) })
                    } else {
                        *final(self) == *old(self)
                    }
                },
                Message::RequestClearAll => {
                    &&& r is Nothing
                    &&& *final(self) == (UiState { show_confirm_clear: true, ..*old(self) })
                },
                Message::ConfirmClearAll => {
                    &&& r is ClearUnpinned
                    &&& *final(self) == (UiState {
                        show_confirm_clear: false,
                        active_id: None,
                        ..*old(self)
                    })
                },
                Message::CancelClearAll => {
                    &&& r is Nothing
                    &&& *final(self) == (UiState { show_confirm_clear: false, ..*old(self) })
                },
                Message::TogglePrivateMode => {
                    &&& (r matches Command::SetPrivateMode(b) && b == !old(self).config.private_mode)
                    &&& *final(self) == (UiState {
                        config: Config { private_mode: !old(self).config.private_mode, ..old(self).config },
                        ..*old(self)
                    })
                },
                Message::ToggleLaunchOnLogin => {
                    &&& (r matches Command::SetLaunchOnLogin(b) && b == !old(
                        self,
                    ).config.launch_on_login)
                    &&& *final(self) == (UiState {
                        config: Config {
                            launch_on_login: !old(self).config.launch_on_login,
                            ..old(self).config
                        },
                        ..*old(self)
                    })
                },
                Message::SearchChanged(q) => {
                    &&& r is Nothing
                    &&& *final(self) == (UiState { search_query: q, ..*old(self) })
                },
                Message::SearchClear => {
                    &&& r is Nothing
                    &&& final(self).search_query@.len() == 0
                    &&& *final(self) == (UiState { search_query: final(self).search_query, ..*old(self) })
                },
                Message::LaunchUrl(url) => {
                    &&& (r matches Command::OpenUrl(u) && u == url)
                    &&& *final(self) == *old(self)
                },
                Message::ToggleContextPage(page) => {
                    &&& r is Nothing
                    &&& *final(self) == (UiState {
                        context_page: drawer_after(old(self).context_page, old(self).show_context, page).0,
                        show_context: drawer_after(old(self).context_page, old(self).show_context, page).1,
                        ..*old(self)
                    })
                },
                Message::UpdateConfig(c) => {
                    &&& final(self).config.max_history == clamped(
                        c.max_history as nat,
                        MIN_HISTORY as nat,
                        MAX_HISTORY as nat,
                    )
                    &&& final(self).config.preview_chars == clamped(
                        c.preview_chars as nat,
                        MIN_PREVIEW_CHARS as nat,
                        MAX_PREVIEW_CHARS as nat,
                    )
                    &&& final(self).config == (Config {
                        max_history: final(self).config.max_history,
                        preview_chars: final(self).config.preview_chars,
                        ..c
                    })
                    &&& *final(self) == (UiState { config: final(self).config, ..*old(self) })
                    &&& final(db)@.max == final(self).config.max_history
                    &&& final(db)@.entries == within_limit(
                        old(db)@.entries,
                        final(self).config.max_history as nat,
                    )
                    &&& (r matches Command::ApplySettings { private_mode, drop_rows }
                        && private_mode == c.private_mode && drop_rows@ == over_limit_ids(
                        old(db)@.entries,
                        final(self).config.max_history as nat,
                    ))
                },
            },
    {
        match message {
            Message::ClipboardEvent(event) => self.on_clipboard_event(event),
            Message::SelectItem(i) => {
                match db.get(i) {
                    Some(e) => {
                        let promote = if self.config.move_to_top_on_select {
                            Some(i)
                        } else {
                            None
                        };
                        Command::Select { promote, id: e.id }
                    },
                    None => Command::Nothing,
                }
            },
            Message::PinItem(i) => Command::TogglePin(i),
            Message::DeleteItem(i) => {
                match db.get(i) {
                    Some(e) => {
                        if self.active_id == Some(e.id) {
                            self.active_id = None;
                        }
                    },
                    None => {},
                }
                Command::Remove(i)
            },
            Message::RequestClearAll => {
                self.show_confirm_clear = true;
                Command::Nothing
            },
            Message::ConfirmClearAll => {
                self.show_confirm_clear = false;
                self.active_id = None;
                Command::ClearUnpinned
            },
            Message::CancelClearAll => {
                self.show_confirm_clear = false;
                Command::Nothing
            },
            Message::TogglePrivateMode => {
                self.config.private_mode = !self.config.private_mode;
                Command::SetPrivateMode(self.config.private_mode)
            },
            Message::ToggleLaunchOnLogin => {
                self.config.launch_on_login = !self.config.launch_on_login;
                Command::SetLaunchOnLogin(self.config.launch_on_login)
            },
            Message::SearchChanged(query) => {
                self.search_query = query;
                Command::Nothing
            },
            Message::SearchClear => {
                self.search_query = String::new();
                Command::Nothing
            },
            Message::UpdateConfig(config) => {
                let config = config.validated();
                let private = config.private_mode;
                let drop_rows = db.set_max(config.max_history);
                self.config = config;
                Command::ApplySettings { private_mode: private, drop_rows }
            },
            Message::ToggleContextPage(page) => {
                if self.context_page == page {
                    self.show_context = !self.show_context;
                } else {
                    self.context_page = page;
                    self.show_context = true;
                }
                Command::Nothing
            },
            Message::LaunchUrl(url) => Command::OpenUrl(url),
        }
    }

    /// The row that an insert reported is now the active one (none when the
    /// position is out of range).
    pub fn inserted(&mut self, db: &Db, index: usize)
        ensures
            *final(self) == (UiState {
                active_id: if index < db@.entries.len() {
                    Some(db@.entries[index as int].id)
                } else {
                    None
                },
                ..*old(self)
            }),
    {
        self.active_id = match db.get(index) {
            Some(e) => Some(e.id),
            None => None,
        };
    }

    /// Starts copying the row with id `id`: the next clipboard event for
    /// content with `hash` will be skipped, and the content is handed out as
    /// an image for image rows and as text otherwise. `None` when there is no
    /// such row.
    pub fn begin_copy_hashed(&mut self, db: &Db, id: i64, hash: u64) -> (r: Option<CopyRequest>)
        ensures
            match id_position(db@.entries, id) {
                None => r is None && *final(self) == *old(self),
                Some(i) => {
                    &&& *final(self) == (UiState { suppress_next: Some(hash), ..*old(self) })
                    &&& r matches Some(req) && req.id == id && copy_payload_ok(
                        req.payload,
                        db@.entries[i],
                    )
                },
            },
    {
        match db.get_by_id(id) {
            None => None,
            Some(entry) => {
                self.suppress_next = Some(hash);
                let payload = copy_payload(entry.content.clone(), entry.mime_type.clone());
                Some(CopyRequest { id: entry.id, payload })
            },
        }
    }

    /// Starts copying the row with id `id`: hashes its content, then decides
    /// as [`UiState::begin_copy_hashed`] does.
    pub fn begin_copy(&mut self, db: &Db, id: i64) -> (r: Option<CopyRequest>)
        ensures
            match id_position(db@.entries, id) {
                None => r is None && *final(self) == *old(self),
                Some(i) => {
                    &&& final(self).suppress_next is Some
                    &&& *final(self) == (UiState { suppress_next: final(self).suppress_next, ..*old(self) })
                    &&& r matches Some(req) && req.id == id && copy_payload_ok(
                        req.payload,
                        db@.entries[i],
                    )
                },
            },
    {
        let hash: u64 = match db.get_by_id(id) {
            Some(entry) => fx_hash(entry.content.as_slice()),
            None => 0,
        };
        self.begin_copy_hashed(db, id, hash)
    }

    /// The clipboard took entry `id` (`ok`) or refused it: on success it is
    /// the active entry; on failure nothing is to be skipped any more.
    pub fn copy_finished(&mut self, id: i64, ok: bool)
        ensures
            ok ==> *final(self) == (UiState { active_id: Some(id), ..*old(self) }),
            !ok ==> *final(self) == (UiState { suppress_next: None, ..*old(self) }),
    {
        if ok {
            self.active_id = Some(id);
        } else {
            self.suppress_next = None;
        }
    }

    /// Writing the autostart file failed: launching on login stays off.
    pub fn autostart_write_failed(&mut self)
        ensures
            *final(self) == (UiState {
                config: Config { launch_on_login: false, ..old(self).config },
                ..*old(self)
            }),
    {
        self.config.launch_on_login = false;
    }

    /// A second launch asked for the window: a minimized window is focused,
    /// a shown one is minimized.
    pub fn dbus_activation(&mut self) -> (r: WindowCommand)
        ensures
            *final(self) == (UiState { window_minimized: !old(self).window_minimized, ..*old(self) }),
            r == (if old(self).window_minimized {
                WindowCommand::GainFocus
            } else {
                WindowCommand::Minimize
            }),
    {
        if self.window_minimized {
            self.window_minimized = false;
            WindowCommand::GainFocus
        } else {
            self.window_minimized = true;
            WindowCommand::Minimize
        }
    }
}

/// What the history list shows.
#[derive(Debug)]
pub enum ListView {
    /// Nothing to show: the history is empty (`searching` false) or the
    /// search found nothing (`searching` true).
    Empty { searching: bool },
    /// The search is past what the matcher can take (too many words, or a
    /// row whose text is over `u32::MAX` bytes), so it was not run.
    TooLarge,
    /// The positions of the rows to show, pinned ones in their own section.
    Sections { pinned: Vec<usize>, unpinned: Vec<usize> },
}

/// The positions among `hits` of the rows whose pin is `pinned`, in order.
pub open spec fn section(hits: Seq<int>, rows: Seq<RowView>, pinned: bool) -> Seq<int> {
    hits.filter(|i: int| rows[i].pinned == pinned)
}

impl UiState {
    /// The history list for the current search: the rows that match, pinned
    /// ones and unpinned ones apart, or why there is nothing to show.
    pub fn list_view(&self, db: &Db, image_label: &str) -> (r: ListView)
        ensures
            r is TooLarge <==> !searchable(db@.entries, self.search_query@, image_label@),
            ({
                let hits = search_hits(db@.entries, self.search_query@, image_label@);
                match r {
                    ListView::TooLarge => true,
                    ListView::Empty { searching } => hits.len() == 0 && searching == (
                    self.search_query@.len() > 0),
                    ListView::Sections { pinned, unpinned } => {
                        &&& hits.len() > 0
                        &&& pinned@.map_values(|i: usize| i as int) == section(hits, db@.entries, true)
                        &&& unpinned@.map_values(|i: usize| i as int) == section(
                            hits,
                            db@.entries,
                            false,
                        )
                    },
                }
            }),
    {
        let entries = db.entries();
        assert(row_views(entries@) == db@.entries);
        if !can_search(entries, self.search_query.as_str(), image_label) {
            return ListView::TooLarge;
        }
        let found = fuzzy_search(entries, self.search_query.as_str(), image_label);
        let ghost hits = search_hits(db@.entries, self.search_query@, image_label@);
        if found.len() == 0 {
            return ListView::Empty { searching: !self.search_query.as_str().is_empty() };
        }
        let mut pinned: Vec<usize> = Vec::new();
        let mut unpinned: Vec<usize> = Vec::new();
        let mut k: usize = 0;
        while k < found.len()
            invariant
                hits == search_hits(db@.entries, self.search_query@, image_label@),
                found@.len() == hits.len(),
                forall|j: int|
                    0 <= j < found@.len() ==> {
                        &&& #[trigger] found@[j].0 == hits[j]
                        &&& found@[j].0 < entries@.len()
                        &&& found@[j].1@ == entries@[found@[j].0 as int]@
                    },
                row_views(entries@) == db@.entries,
                k <= found@.len(),
                pinned@.map_values(|i: usize| i as int) == section(hits.take(k as int), db@.entries, true),
                unpinned@.map_values(|i: usize| i as int) == section(hits.take(k as int), db@.entries, false),
            decreases found@.len() - k,
        {
            let (i, e) = found[k];
            proof {
                reveal_with_fuel(Seq::filter, 1);
                assert(hits.take(k + 1).drop_last() == hits.take(k as int));
                assert(hits.take(k + 1).last() == i as int);
                assert(db@.entries[i as int] == e@);
            }
            if e.pinned {
                pinned.push(i);
                assert(pinned@.map_values(|i: usize| i as int) =~= section(hits.take(k as int), db@.entries, true).push(i as int));
                assert(unpinned@.map_values(|i: usize| i as int) =~= section(hits.take(k + 1), db@.entries, false));
            } else {
                unpinned.push(i);
                assert(unpinned@.map_values(|i: usize| i as int) =~= section(hits.take(k as int), db@.entries, false).push(i as int));
                assert(pinned@.map_values(|i: usize| i as int) =~= section(hits.take(k + 1), db@.entries, true));
            }
            k = k + 1;
        }
        assert(hits.take(found@.len() as int) == hits);
        ListView::Sections { pinned, unpinned }
    }
}

/// The payload is the row's content: an image for image rows, the decoded
/// text for rows that are UTF-8, and invalid otherwise.
pub open spec fn copy_payload_ok(p: CopyPayload, row: RowView) -> bool {
    if has_prefix(row.mime_type, image_prefix()) {
        p matches CopyPayload::Image { data, mime_type } && data@ == row.content && mime_type@
            == row.mime_type
    } else if valid_utf8(row.content) {
        p matches CopyPayload::Text(t) && t@ == decode_utf8(row.content)
    } else {
        p is Invalid
    }
}

/// What to put on the clipboard for content of type `mime_type`.
pub fn copy_payload(data: Vec<u8>, mime_type: String) -> (r: CopyPayload)
    ensures
        copy_payload_ok(
            r,
            RowView {
                id: 0,
                mime_type: mime_type@,
                content: data@,
                content_hash: seq![],
                pinned: false,
                created_at: 0,
            },
        ),
{
    if is_image_mime(mime_type.as_str()) {
        CopyPayload::Image { data, mime_type }
    } else {
        match utf8_decode(data) {
            Some(text) => CopyPayload::Text(text),
            None => CopyPayload::Invalid,
        }
    }
}

} // verus!
