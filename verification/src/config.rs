//! Application settings, their defaults and the bounds they are held to.

use vstd::prelude::*;

verus! {

// ── History ─────────────────────────────────────────────────────────────────

pub const MIN_HISTORY: usize = 10;

pub const MAX_HISTORY: usize = 500;

pub const DEFAULT_HISTORY: usize = 50;

// ── UI ──────────────────────────────────────────────────────────────────────

pub const DEFAULT_PREVIEW_CHARS: usize = 100;

pub const MIN_PREVIEW_CHARS: usize = 20;

pub const MAX_PREVIEW_CHARS: usize = 500;

/// Days after which unpinned entries expire by default.
pub const DEFAULT_ENTRY_LIFETIME_DAYS: u64 = 30;

// ── Persistence ─────────────────────────────────────────────────────────────

pub const DATA_DIR_NAME: &'static str = "clip_pop";

pub const DB_FILE_NAME: &'static str = "history.db";

/// Autostart desktop file installed to `~/.config/autostart/`.
pub const AUTOSTART_DESKTOP_FILE: &'static str = "com.github.jvcByte.clip_pop.desktop";

// ── Logging ─────────────────────────────────────────────────────────────────

pub const DEFAULT_LOG_LEVEL: &'static str = "info";

// ── Internal ────────────────────────────────────────────────────────────────

pub const CLIPBOARD_SUBSCRIPTION_ID: &'static str = "clip-pop-clipboard-watcher";

// ── Config struct ───────────────────────────────────────────────────────────

/// The persistent settings.
#[derive(Debug, Clone)]
pub struct Config {
    /// Maximum number of clipboard entries to retain (unpinned).
    pub max_history: usize,
    /// Maximum characters shown in a list item preview.
    pub preview_chars: usize,
    /// Move item to top of history when selected.
    pub move_to_top_on_select: bool,
    /// Pause clipboard recording.
    pub private_mode: bool,
    /// User-defined preferred MIME type patterns (regex strings).
    pub preferred_mime_types: Vec<String>,
    /// Auto-delete unpinned entries older than this many days. None = never.
    pub entry_lifetime_days: Option<u64>,
    /// Launch Clip Pop automatically on login.
    pub launch_on_login: bool,
}

/// `x` held within `lo..=hi` (for `lo <= hi`), as `Ord::clamp` does.
pub open spec fn clamped(x: nat, lo: nat, hi: nat) -> nat {
    if x < lo {
        lo
    } else if x > hi {
        hi
    } else {
        x
    }
}

fn clamp(x: usize, lo: usize, hi: usize) -> (r: usize)
    requires
        lo <= hi,
    ensures
        r == clamped(x as nat, lo as nat, hi as nat),
{
    if x < lo {
        lo
    } else if x > hi {
        hi
    } else {
        x
    }
}

impl Default for Config {
    fn default() -> (r: Self)
        ensures
            r.max_history == DEFAULT_HISTORY,
            r.preview_chars == DEFAULT_PREVIEW_CHARS,
            r.move_to_top_on_select,
            !r.private_mode,
            r.preferred_mime_types@.len() == 0,
            r.entry_lifetime_days == Some(DEFAULT_ENTRY_LIFETIME_DAYS),
            !r.launch_on_login,
    {
        Config {
            max_history: DEFAULT_HISTORY,
            preview_chars: DEFAULT_PREVIEW_CHARS,
            move_to_top_on_select: true,
            private_mode: false,
            preferred_mime_types: Vec::new(),
            entry_lifetime_days: Some(DEFAULT_ENTRY_LIFETIME_DAYS),
            launch_on_login: false,
        }
    }
}

impl Config {
    /// The settings with the history size and the preview length held to
    /// their bounds; everything else as it is.
    pub fn validated(self) -> (r: Self)
        ensures
            r.max_history == clamped(self.max_history as nat, MIN_HISTORY as nat, MAX_HISTORY as nat),
            r.preview_chars == clamped(
                self.preview_chars as nat,
                MIN_PREVIEW_CHARS as nat,
                MAX_PREVIEW_CHARS as nat,
            ),
            r.move_to_top_on_select == self.move_to_top_on_select,
            r.private_mode == self.private_mode,
            r.preferred_mime_types == self.preferred_mime_types,
            r.entry_lifetime_days == self.entry_lifetime_days,
            r.launch_on_login == self.launch_on_login,
    {
        let mut c = self;
        c.max_history = clamp(c.max_history, MIN_HISTORY, MAX_HISTORY);
        c.preview_chars = clamp(c.preview_chars, MIN_PREVIEW_CHARS, MAX_PREVIEW_CHARS);
        c
    }
}

impl Config {
    /// The settings with launching on login set to whether the autostart
    /// file exists, which is what decides it.
    pub fn synced_with_autostart(self, autostart_exists: bool) -> (r: Self)
        ensures
            r.launch_on_login == autostart_exists,
            r.max_history == self.max_history,
            r.preview_chars == self.preview_chars,
            r.move_to_top_on_select == self.move_to_top_on_select,
            r.private_mode == self.private_mode,
            r.preferred_mime_types == self.preferred_mime_types,
            r.entry_lifetime_days == self.entry_lifetime_days,
    {
        let mut c = self;
        if c.launch_on_login != autostart_exists {
            c.launch_on_login = autostart_exists;
        }
        c
    }
}

/// Holding a setting to its bounds twice is the same as holding it once, and
/// the result lies within the bounds: validating settings twice is the same
/// as validating them once.
pub proof fn law_clamp_idempotent(x: nat, lo: nat, hi: nat)
    requires
        lo <= hi,
    ensures
        clamped(clamped(x, lo, hi), lo, hi) == clamped(x, lo, hi),
        lo <= clamped(x, lo, hi) <= hi,
{
}

} // verus!
