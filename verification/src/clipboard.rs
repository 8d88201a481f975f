//! Clipboard events and the decisions of the polling watcher: which MIME
//! type to read, when content is new, and what event it makes.

use vstd::prelude::*;
use vstd::string::StringExecFns;
use vstd::utf8::{decode_utf8, valid_utf8};

use crate::db::{image_prefix, is_image_mime, is_text_mime, text_prefix};
use crate::sys::utf8_decode;
use crate::text::{blank, has_prefix, is_blank, str_eq};

verus! {

/// What the clipboard watcher reports.
#[derive(Debug, Clone)]
pub enum ClipboardEvent {
    Text(String),
    Image { data: Vec<u8>, mime_type: String },
    Cleared,
    Unavailable,
}

/// The value of a [`ClipboardEvent`].
pub enum EventView {
    Text(Seq<char>),
    Image(Seq<u8>, Seq<char>),
    Cleared,
    Unavailable,
}

impl View for ClipboardEvent {
    type V = EventView;

    open spec fn view(&self) -> EventView {
        match self {
            ClipboardEvent::Text(t) => EventView::Text(t@),
            ClipboardEvent::Image { data, mime_type } => EventView::Image(data@, mime_type@),
            ClipboardEvent::Cleared => EventView::Cleared,
            ClipboardEvent::Unavailable => EventView::Unavailable,
        }
    }
}

/// `FxHasher` from rustc-hash over `data` (hashed as a slice: its length,
/// then its bytes). Nothing is promised of the value: FxHasher's constants
/// depend on the target's pointer width, so the same bytes hash differently
/// on different machines.
#[verifier::external_body]
pub fn fx_hash(data: &[u8]) -> u64 {
    let mut h = rustc_hash::FxHasher::default();
    std::hash::Hash::hash(data, &mut h);
    std::hash::Hasher::finish(&h)
}

// ── MIME choice ─────────────────────────────────────────────────────────────

/// Number of preferred MIME types.
pub const PREFERRED_COUNT: usize = 9;

/// The MIME types read in preference, in priority order.
pub open spec fn preferred(i: int) -> Seq<char> {
    if i == 0 {
        "text/plain;charset=utf-8"@
    } else if i == 1 {
        "text/plain"@
    } else if i == 2 {
        "UTF8_STRING"@
    } else if i == 3 {
        "STRING"@
    } else if i == 4 {
        "image/png"@
    } else if i == 5 {
        "image/jpeg"@
    } else if i == 6 {
        "image/jpg"@
    } else if i == 7 {
        "image/bmp"@
    } else {
        "image/webp"@
    }
}

/// The `i`-th preferred MIME type.
pub fn preferred_mime(i: usize) -> (r: &'static str)
    requires
        i < PREFERRED_COUNT,
    ensures
        r@ == preferred(i as int),
{
    if i == 0 {
        "text/plain;charset=utf-8"
    } else if i == 1 {
        "text/plain"
    } else if i == 2 {
        "UTF8_STRING"
    } else if i == 3 {
        "STRING"
    } else if i == 4 {
        "image/png"
    } else if i == 5 {
        "image/jpeg"
    } else if i == 6 {
        "image/jpg"
    } else if i == 7 {
        "image/bmp"
    } else {
        "image/webp"
    }
}

/// The values of a list of MIME types.
pub open spec fn mime_views(v: Seq<String>) -> Seq<Seq<char>> {
    v.map_values(|s: String| s@)
}

/// The first preferred type, from the `i`-th on, that is offered.
pub open spec fn first_preferred(offered: Seq<Seq<char>>, i: nat) -> Option<Seq<char>>
    decreases PREFERRED_COUNT - i,
{
    if i >= PREFERRED_COUNT {
        None
    } else if offered.contains(preferred(i as int)) {
        Some(preferred(i as int))
    } else {
        first_preferred(offered, i + 1)
    }
}

/// The first offered type that is a text or an image type.
pub open spec fn first_text_or_image(offered: Seq<Seq<char>>) -> Option<Seq<char>>
    decreases offered.len(),
{
    if offered.len() == 0 {
        None
    } else if has_prefix(offered[0], text_prefix()) || has_prefix(offered[0], image_prefix()) {
        Some(offered[0])
    } else {
        first_text_or_image(offered.drop_first())
    }
}

/// The MIME type to read from what the clipboard offers: the first
/// preferred type that is offered, else the first text or image type
/// offered, else none.
pub open spec fn chosen_mime(offered: Seq<Seq<char>>) -> Option<Seq<char>> {
    match first_preferred(offered, 0) {
        Some(m) => Some(m),
        None => first_text_or_image(offered),
    }
}

fn offers(offered: &Vec<String>, m: &str) -> (r: bool)
    ensures
        r == mime_views(offered@).contains(m@),
{
    let ghost s = mime_views(offered@);
    let mut j: usize = 0;
    while j < offered.len()
        invariant
            s == mime_views(offered@),
            j <= offered.len(),
            forall|k: int| 0 <= k < j ==> #[trigger] s[k] != m@,
        decreases offered.len() - j,
    {
        assert(s[j as int] == offered@[j as int]@);
        if str_eq(offered[j].as_str(), m) {
            assert(s[j as int] == m@);
            return true;
        }
        j = j + 1;
    }
    false
}

/// Picks the MIME type to read among the offered ones.
pub fn choose_mime(offered: &Vec<String>) -> (r: Option<String>)
    ensures
        match r {
            Some(m) => chosen_mime(mime_views(offered@)) == Some(m@),
            None => chosen_mime(mime_views(offered@)) is None,
        },
{
    let ghost s = mime_views(offered@);
    let mut i: usize = 0;
    while i < PREFERRED_COUNT
        invariant
            s == mime_views(offered@),
            i <= PREFERRED_COUNT,
            first_preferred(s, 0) == first_preferred(s, i as nat),
        decreases PREFERRED_COUNT - i,
    {
        let m = preferred_mime(i);
        if offers(offered, m) {
            return Some(String::from_str(m));
        }
        i = i + 1;
    }
    assert(s.skip(0) == s);
    let mut j: usize = 0;
    while j < offered.len()
        invariant
            s == mime_views(offered@),
            j <= offered.len(),
            first_preferred(s, 0) is None,
            first_text_or_image(s) == first_text_or_image(s.skip(j as int)),
        decreases offered.len() - j,
    {
        let ghost rest = s.skip(j as int);
        assert(rest[0] == offered@[j as int]@);
        assert(rest.drop_first() == s.skip(j + 1));
        let m = offered[j].as_str();
        if is_text_mime(m) || is_image_mime(m) {
            return Some(offered[j].clone());
        }
        j = j + 1;
    }
    assert(s.skip(s.len() as int).len() == 0);
    None
}

// ── Content ─────────────────────────────────────────────────────────────────

/// The event that content read as `mime` makes: an image for an image type,
/// else the text when the bytes are UTF-8 and not blank, else none.
pub open spec fn content_event(mime: Seq<char>, content: Seq<u8>) -> Option<EventView> {
    if has_prefix(mime, image_prefix()) {
        Some(EventView::Image(content, mime))
    } else if valid_utf8(content) && !blank(decode_utf8(content)) {
        Some(EventView::Text(decode_utf8(content)))
    } else {
        None
    }
}

/// The event for `content` read as `actual_mime`.
pub fn classify_content(actual_mime: String, content: Vec<u8>) -> (r: Option<ClipboardEvent>)
    ensures
        match r {
            Some(e) => content_event(actual_mime@, content@) == Some(e@),
            None => content_event(actual_mime@, content@) is None,
        },
{
    if is_image_mime(actual_mime.as_str()) {
        Some(ClipboardEvent::Image { data: content, mime_type: actual_mime })
    } else {
        match utf8_decode(content) {
            Some(text) => {
                if is_blank(text.as_str()) {
                    None
                } else {
                    Some(ClipboardEvent::Text(text))
                }
            },
            None => None,
        }
    }
}

// ── Polling ─────────────────────────────────────────────────────────────────

/// Why the clipboard could not be read.
#[derive(Debug, Clone, Copy, PartialEq, Eq, Structural)]
pub enum PasteFailure {
    /// The clipboard holds nothing.
    ClipboardEmpty,
    /// The compositor lacks the data-control protocol.
    MissingProtocol,
    /// Any other failure.
    Other,
}

/// What the polling loop does after a step.
#[derive(Debug)]
pub enum PollAction {
    /// Nothing to report; poll again.
    Skip,
    /// Report the event, then poll again.
    Emit(ClipboardEvent),
    /// Report the event and stop polling.
    EmitAndStop(ClipboardEvent),
}

/// The remembered hash after failures `fs`, in order: an emptied clipboard
/// forgets it, any other failure keeps it.
pub open spec fn after_failures(last: Option<u64>, fs: Seq<PasteFailure>) -> Option<u64>
    decreases fs.len(),
{
    if fs.len() == 0 {
        last
    } else if fs[0] == PasteFailure::ClipboardEmpty {
        after_failures(None, fs.drop_first())
    } else {
        after_failures(last, fs.drop_first())
    }
}

/// The remembered hash after reading `content` with hash `hash`: empty
/// content and content already remembered leave it; other content is
/// remembered.
pub open spec fn polled_hash(last: Option<u64>, content: Seq<u8>, hash: u64) -> Option<u64> {
    if content.len() == 0 || last == Some(hash) {
        last
    } else {
        Some(hash)
    }
}

/// The event that reading `content` as `mime`, with hash `hash`, reports:
/// none for empty content or content already remembered, else the event
/// the content makes.
pub open spec fn polled_event(last: Option<u64>, mime: Seq<char>, content: Seq<u8>, hash: u64) -> Option<
    EventView,
> {
    if content.len() == 0 || last == Some(hash) {
        None
    } else {
        content_event(mime, content)
    }
}

/// The event that a poll step reports, if any.
pub open spec fn reported(a: PollAction) -> Option<EventView> {
    match a {
        PollAction::Skip => None,
        PollAction::Emit(e) => Some(e@),
        PollAction::EmitAndStop(e) => Some(e@),
    }
}

/// Content that the clipboard still holds is reported once: after a
/// non-empty read with hash `hash`, and any failures between that are not an
/// emptied clipboard, a read whose hash is `hash` again reports nothing.
pub proof fn law_unchanged_clipboard_reported_once(
    last: Option<u64>,
    first_mime: Seq<char>,
    first: Seq<u8>,
    between: Seq<PasteFailure>,
    next_mime: Seq<char>,
    next: Seq<u8>,
    hash: u64,
)
    requires
        first.len() > 0,
        forall|i: int| 0 <= i < between.len() ==> #[trigger] between[i] != PasteFailure::ClipboardEmpty,
    ensures
        polled_event(after_failures(polled_hash(last, first, hash), between), next_mime, next, hash)
            is None,
{
    lemma_failures_keep_hash(polled_hash(last, first, hash), between);
}

proof fn lemma_failures_keep_hash(last: Option<u64>, fs: Seq<PasteFailure>)
    requires
        forall|i: int| 0 <= i < fs.len() ==> #[trigger] fs[i] != PasteFailure::ClipboardEmpty,
    ensures
        after_failures(last, fs) == last,
    decreases fs.len(),
{
    if fs.len() > 0 {
        let r = fs.drop_first();
        assert forall|i: int| 0 <= i < r.len() implies #[trigger] r[i] != PasteFailure::ClipboardEmpty by {
            assert(r[i] == fs[i + 1]);
        }
        assert(fs[0] != PasteFailure::ClipboardEmpty);
        lemma_failures_keep_hash(last, r);
    }
}

/// What polling reports is worth reporting: text is never blank, and an
/// image always has an image type and some bytes.
pub proof fn law_reported_content_is_meaningful(
    last: Option<u64>,
    mime: Seq<char>,
    content: Seq<u8>,
    hash: u64,
)
    ensures
        polled_event(last, mime, content, hash) matches Some(EventView::Text(t)) ==> !blank(t),
        polled_event(last, mime, content, hash) matches Some(EventView::Image(d, m)) ==> has_prefix(
            m,
            image_prefix(),
        ) && d.len() > 0,
        polled_event(last, mime, content, hash) is Some ==> polled_event(last, mime, content, hash)
            matches Some(EventView::Text(_)) || polled_event(last, mime, content, hash) matches Some(
            EventView::Image(_, _),
        ),
{
}

/// Whether polling goes on after a step, once its event, if any, was handed
/// to the application (`sent`) or could not be because nobody listens any
/// more: a step with nothing to report goes on; a stopping step stops; a
/// cleared clipboard goes on whatever became of it; any other event goes on
/// only if it was delivered.
pub open spec fn polling_continues(a: PollAction, sent: bool) -> bool {
    match a {
        PollAction::Skip => true,
        PollAction::EmitAndStop(_) => false,
        PollAction::Emit(e) => match e {
            ClipboardEvent::Cleared => true,
            _ => sent,
        },
    }
}

impl PollAction {
    /// Whether the polling loop goes on after this step, given whether its
    /// event was delivered.
    pub fn continues_after(&self, sent: bool) -> (r: bool)
        ensures
            r == polling_continues(*self, sent),
    {
        match self {
            PollAction::Skip => true,
            PollAction::EmitAndStop(_) => false,
            PollAction::Emit(ClipboardEvent::Cleared) => true,
            PollAction::Emit(_) => sent,
        }
    }
}

/// The polling loop's memory: the hash of the last content reported.
pub struct PollState {
    pub last_hash: Option<u64>,
}

impl PollState {
    pub fn new() -> (r: Self)
        ensures
            r.last_hash is None,
    {
        PollState { last_hash: None }
    }

    /// Listing the offered types failed: an emptied clipboard is reported
    /// once (when content was reported before), a missing protocol stops the
    /// loop, anything else is skipped.
    pub fn on_list_failure(&mut self, failure: PasteFailure) -> (r: PollAction)
        ensures
            failure == PasteFailure::ClipboardEmpty ==> {
                &&& final(self).last_hash is None
                &&& (old(self).last_hash is Some ==> r matches PollAction::Emit(ClipboardEvent::Cleared))
                &&& (old(self).last_hash is None ==> r is Skip)
            },
            failure == PasteFailure::MissingProtocol ==> (r matches PollAction::EmitAndStop(
                ClipboardEvent::Unavailable,
            )) && final(self).last_hash == old(self).last_hash,
            failure == PasteFailure::Other ==> r is Skip && final(self).last_hash == old(self).last_hash,
            final(self).last_hash == after_failures(old(self).last_hash, seq![failure]),
    {
        proof {
            reveal_with_fuel(after_failures, 2);
            assert(seq![failure].drop_first() =~= Seq::<PasteFailure>::empty());
        }
        match failure {
            PasteFailure::ClipboardEmpty => {
                if self.last_hash.is_some() {
                    self.last_hash = None;
                    PollAction::Emit(ClipboardEvent::Cleared)
                } else {
                    PollAction::Skip
                }
            },
            PasteFailure::MissingProtocol => PollAction::EmitAndStop(ClipboardEvent::Unavailable),
            PasteFailure::Other => PollAction::Skip,
        }
    }

    /// Reading the chosen type failed: an emptied clipboard is reported and
    /// forgotten, anything else is skipped.
    pub fn on_read_failure(&mut self, failure: PasteFailure) -> (r: PollAction)
        ensures
            failure == PasteFailure::ClipboardEmpty ==> final(self).last_hash is None
                && (r matches PollAction::Emit(ClipboardEvent::Cleared)),
            failure != PasteFailure::ClipboardEmpty ==> r is Skip && final(self).last_hash == old(self).last_hash,
            final(self).last_hash == after_failures(old(self).last_hash, seq![failure]),
    {
        proof {
            reveal_with_fuel(after_failures, 2);
            assert(seq![failure].drop_first() =~= Seq::<PasteFailure>::empty());
        }
        match failure {
            PasteFailure::ClipboardEmpty => {
                self.last_hash = None;
                PollAction::Emit(ClipboardEvent::Cleared)
            },
            _ => PollAction::Skip,
        }
    }

    /// Content was read as `actual_mime`, with hash `hash`: empty content and
    /// content already reported are skipped; new content is remembered and
    /// reported as the event it makes, if any.
    pub fn on_content_hashed(&mut self, actual_mime: String, content: Vec<u8>, hash: u64) -> (r:
        PollAction)
        ensures
            final(self).last_hash == polled_hash(old(self).last_hash, content@, hash),
            reported(r) == polled_event(old(self).last_hash, actual_mime@, content@, hash),
            !(r is EmitAndStop),
    {
        if content.len() == 0 {
            return PollAction::Skip;
        }
        if self.last_hash == Some(hash) {
            return PollAction::Skip;
        }
        self.last_hash = Some(hash);
        match classify_content(actual_mime, content) {
            Some(e) => PollAction::Emit(e),
            None => PollAction::Skip,
        }
    }

    /// Content was read as `actual_mime`: hashes it and decides as
    /// [`PollState::on_content_hashed`] does.
    pub fn on_content(&mut self, actual_mime: String, content: Vec<u8>) -> (r: PollAction)
        ensures
            exists|hash: u64|
                {
                    &&& final(self).last_hash == polled_hash(old(self).last_hash, content@, hash)
                    &&& reported(r) == polled_event(old(self).last_hash, actual_mime@, content@, hash)
                },
            !(r is EmitAndStop),
    {
        let hash = fx_hash(content.as_slice());
        let ghost c = content@;
        let r = self.on_content_hashed(actual_mime, content, hash);
        assert(final(self).last_hash == polled_hash(old(self).last_hash, c, hash));
        r
    }
}

} // verus!
