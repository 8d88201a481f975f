//! The bookkeeping of the event-driven clipboard watcher: the MIME types
//! announced for each data offer, the current selection, and what a
//! selection's content makes.
//!
//! The Wayland objects themselves stay with the caller; offers are known
//! here by their protocol ids.

use std::collections::HashMap;

use vstd::prelude::*;

use crate::clipboard::{chosen_mime, choose_mime, classify_content, content_event, mime_views, EventView};

verus! {

/// What the watcher reads from the clipboard.
#[derive(Debug)]
pub enum ClipboardContent {
    Text(String),
    Image { data: Vec<u8>, mime_type: String },
    Cleared,
}

/// The value of a [`ClipboardContent`].
pub enum ContentView {
    Text(Seq<char>),
    Image(Seq<u8>, Seq<char>),
    Cleared,
}

impl View for ClipboardContent {
    type V = ContentView;

    open spec fn view(&self) -> ContentView {
        match self {
            ClipboardContent::Text(t) => ContentView::Text(t@),
            ClipboardContent::Image { data, mime_type } => ContentView::Image(data@, mime_type@),
            ClipboardContent::Cleared => ContentView::Cleared,
        }
    }
}

/// What the selection's content, read as `mime`, makes: nothing read means
/// cleared; an image type gives an image; UTF-8 text that is not blank gives
/// text; anything else counts as cleared.
pub open spec fn read_content(mime: Seq<char>, content: Seq<u8>) -> ContentView {
    if content.len() == 0 {
        ContentView::Cleared
    } else {
        match content_event(mime, content) {
            Some(EventView::Image(d, m)) => ContentView::Image(d, m),
            Some(EventView::Text(t)) => ContentView::Text(t),
            _ => ContentView::Cleared,
        }
    }
}

/// The content for bytes read from the selection as `mime`.
pub fn content_from_read(mime: String, content: Vec<u8>) -> (r: ClipboardContent)
    ensures
        r@ == read_content(mime@, content@),
{
    if content.len() == 0 {
        return ClipboardContent::Cleared;
    }
    match classify_content(mime, content) {
        Some(crate::clipboard::ClipboardEvent::Text(t)) => ClipboardContent::Text(t),
        Some(crate::clipboard::ClipboardEvent::Image { data, mime_type }) => ClipboardContent::Image {
            data,
            mime_type,
        },
        _ => ClipboardContent::Cleared,
    }
}

/// Why the compositor's globals cannot serve the watcher.
#[derive(Debug, Clone, Copy, PartialEq, Eq, Structural)]
pub enum GlobalsProblem {
    /// No `zwlr_data_control_manager_v1` global.
    ProtocolUnsupported,
    /// No seat to watch.
    NoSeats,
}

/// Whether the bound globals let the watcher start: it needs the
/// data-control manager and at least one seat (a missing manager is
/// reported first).
pub fn check_bound_globals(has_manager: bool, seat_count: usize) -> (r: Result<(), GlobalsProblem>)
    ensures
        !has_manager ==> r == Err::<(), GlobalsProblem>(GlobalsProblem::ProtocolUnsupported),
        has_manager && seat_count == 0 ==> r == Err::<(), GlobalsProblem>(GlobalsProblem::NoSeats),
        has_manager && seat_count > 0 ==> r is Ok,
{
    if !has_manager {
        return Err(GlobalsProblem::ProtocolUnsupported);
    }
    if seat_count == 0 {
        return Err(GlobalsProblem::NoSeats);
    }
    Ok(())
}

/// The offers announced so far and the current selection.
pub struct OfferTracker {
    /// MIME types accumulating for each pending offer, by protocol id.
    pub pending: HashMap<u32, Vec<String>>,
    /// The current clipboard selection: (offer id, MIME types).
    pub selection: Option<(u32, Vec<String>)>,
    pub got_selection: bool,
}

impl OfferTracker {
    pub fn new() -> (r: Self)
        ensures
            r.pending@ == Map::<u32, Vec<String>>::empty(),
            r.selection is None,
            !r.got_selection,
    {
        OfferTracker { pending: HashMap::new(), selection: None, got_selection: false }
    }

    /// A new data offer was announced: it starts with no MIME types.
    pub fn on_data_offer(&mut self, key: u32)
        ensures
            final(self).pending@ == old(self).pending@.insert(key, final(self).pending@[key]),
            final(self).pending@[key]@.len() == 0,
            final(self).selection == old(self).selection,
            final(self).got_selection == old(self).got_selection,
    {
        broadcast use vstd::std_specs::hash::group_hash_axioms;

        self.pending.insert(key, Vec::new());
    }

    /// An offer announced a MIME type; types of unknown offers are ignored.
    pub fn on_offer_mime(&mut self, key: u32, mime: String)
        ensures
            old(self).pending@.contains_key(key) ==> {
                &&& final(self).pending@ == old(self).pending@.insert(key, final(self).pending@[key])
                &&& final(self).pending@[key]@ == old(self).pending@[key]@.push(mime)
            },
            !old(self).pending@.contains_key(key) ==> final(self).pending@ == old(self).pending@,
            final(self).selection == old(self).selection,
            final(self).got_selection == old(self).got_selection,
    {
        broadcast use vstd::std_specs::hash::group_hash_axioms;

        match self.pending.remove(&key) {
            Some(mut mimes) => {
                mimes.push(mime);
                self.pending.insert(key, mimes);
                assert(self.pending@ =~= old(self).pending@.insert(key, self.pending@[key]));
            },
            None => {
                assert(self.pending@ =~= old(self).pending@);
            },
        }
    }

    /// The selection changed: to the offer `key` with the MIME types it
    /// announced (none when it announced nothing), or to nothing.
    pub fn on_selection(&mut self, key: Option<u32>)
        ensures
            final(self).got_selection,
            match key {
                Some(k) => {
                    &&& final(self).pending@ == old(self).pending@.remove(k)
                    &&& final(self).selection matches Some(sel) && sel.0 == k && (if old(
                        self,
                    ).pending@.contains_key(k) {
                        sel.1 == old(self).pending@[k]
                    } else {
                        sel.1@.len() == 0
                    })
                },
                None => final(self).selection is None && final(self).pending@ == old(self).pending@,
            },
    {
        broadcast use vstd::std_specs::hash::group_hash_axioms;

        match key {
            Some(k) => {
                let mimes = match self.pending.remove(&k) {
                    Some(m) => m,
                    None => Vec::new(),
                };
                self.selection = Some((k, mimes));
            },
            None => {
                self.selection = None;
            },
        }
        self.got_selection = true;
    }

    /// Starts waiting for the next selection change.
    pub fn begin_wait(&mut self)
        ensures
            !final(self).got_selection,
            final(self).pending@ == old(self).pending@,
            final(self).selection == old(self).selection,
    {
        self.got_selection = false;
    }

    /// Takes the current selection and decides what to read from it: the
    /// offer id and the MIME type to receive, or `None` when the clipboard
    /// is to be reported cleared (no selection, or no usable type).
    pub fn take_read_plan(&mut self) -> (r: Option<(u32, String)>)
        ensures
            final(self).selection is None,
            final(self).pending@ == old(self).pending@,
            final(self).got_selection == old(self).got_selection,
            match old(self).selection {
                None => r is None,
                Some(sel) => match chosen_mime(mime_views(sel.1@)) {
                    None => r is None,
                    Some(m) => (r matches Some(p) && p.0 == sel.0 && p.1@ == m),
                },
            },
    {
        let mut taken: Option<(u32, Vec<String>)> = None;
        std::mem::swap(&mut taken, &mut self.selection);
        match taken {
            None => None,
            Some((key, mimes)) => match choose_mime(&mimes) {
                None => None,
                Some(m) => Some((key, m)),
            },
        }
    }
}

} // verus!
