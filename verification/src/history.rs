//! Clipboard history kept as an ordered list: pinned entries first, then the
//! unpinned ones newest first, with at most `max` unpinned entries.
//!
//! Writing the list to disk and deleting image files is left to the caller:
//! the store queues the image files that it drops (`take_removed_images`).

use vstd::prelude::*;

use crate::sys::push_char;
use crate::text::{blank, clip_preview, decimal, is_blank, preview_text, push_decimal};
use crate::time::{age_secs_between_ns, age_seconds_ns, now_nanos, reading_nanos};

verus! {

// ── Entry kind ──────────────────────────────────────────────────────────────

/// What an entry holds: text, or an image saved at `path`.
#[derive(Debug, Clone)]
pub enum EntryKind {
    Text { content: String },
    Image { path: String, width: u32, height: u32 },
}

/// The value of an [`EntryKind`].
pub enum KindView {
    Text(Seq<char>),
    Image(Seq<char>, u32, u32),
}

impl View for EntryKind {
    type V = KindView;

    open spec fn view(&self) -> KindView {
        match self {
            EntryKind::Text { content } => KindView::Text(content@),
            EntryKind::Image { path, width, height } => KindView::Image(path@, *width, *height),
        }
    }
}

/// The key by which entries are deduplicated: the text itself, or the image
/// file's path.
pub open spec fn kind_key(k: KindView) -> Seq<char> {
    match k {
        KindView::Text(c) => c,
        KindView::Image(p, _, _) => p,
    }
}

/// The caption of an image entry: `"🖼  {width}×{height} image"`.
pub open spec fn image_caption(width: u32, height: u32) -> Seq<char> {
    seq!['\u{1F5BC}', ' ', ' '] + decimal(width as nat) + seq!['\u{00D7}'] + decimal(height as nat)
        + seq![' ', 'i', 'm', 'a', 'g', 'e']
}

/// The single-line preview of an entry of kind `k`.
pub open spec fn kind_preview(k: KindView, max: nat) -> Seq<char> {
    match k {
        KindView::Text(c) => clip_preview(c, max),
        KindView::Image(_, w, h) => image_caption(w, h),
    }
}

impl EntryKind {
    /// Single-line preview string for display.
    pub fn preview(&self, max_chars: usize) -> (r: String)
        ensures
            r@ == kind_preview(self@, max_chars as nat),
    {
        match self {
            EntryKind::Text { content } => preview_text(content.as_str(), max_chars),
            EntryKind::Image { width, height, .. } => {
                let mut out = String::new();
                push_char(&mut out, '\u{1F5BC}');
                push_char(&mut out, ' ');
                push_char(&mut out, ' ');
                push_decimal(&mut out, *width as u64);
                push_char(&mut out, '\u{00D7}');
                push_decimal(&mut out, *height as u64);
                push_char(&mut out, ' ');
                push_char(&mut out, 'i');
                push_char(&mut out, 'm');
                push_char(&mut out, 'a');
                push_char(&mut out, 'g');
                push_char(&mut out, 'e');
                assert(out@ == image_caption(*width, *height));
                out
            },
        }
    }

    pub fn is_image(&self) -> (r: bool)
        ensures
            r == (self@ is Image),
    {
        match self {
            EntryKind::Image { .. } => true,
            _ => false,
        }
    }

    /// Stable dedup key — for text it's the content, for images the file path.
    pub fn dedup_key(&self) -> (r: String)
        ensures
            r@ == kind_key(self@),
    {
        match self {
            EntryKind::Text { content } => content.clone(),
            EntryKind::Image { path, .. } => path.clone(),
        }
    }
}

// ── ClipEntry ───────────────────────────────────────────────────────────────

/// One history entry; `timestamp` is in nanoseconds since the Unix epoch.
#[derive(Debug, Clone)]
pub struct ClipEntry {
    pub kind: EntryKind,
    pub timestamp: i64,
    pub pinned: bool,
}

/// The value of a [`ClipEntry`].
pub struct EntryView {
    pub kind: KindView,
    pub timestamp: i64,
    pub pinned: bool,
}

impl View for ClipEntry {
    type V = EntryView;

    open spec fn view(&self) -> EntryView {
        EntryView { kind: self.kind@, timestamp: self.timestamp, pinned: self.pinned }
    }
}

impl ClipEntry {
    /// A new unpinned text entry stamped with the current time.
    pub fn text(content: String) -> (r: Self)
        ensures
            r@.kind == KindView::Text(content@),
            !r.pinned,
            exists|reading: Result<u128, u128>| r.timestamp == reading_nanos(reading),
    {
        ClipEntry { kind: EntryKind::Text { content }, timestamp: now_nanos(), pinned: false }
    }

    /// A new unpinned image entry stamped with the current time.
    pub fn image(path: String, width: u32, height: u32) -> (r: Self)
        ensures
            r@.kind == KindView::Image(path@, width, height),
            !r.pinned,
            exists|reading: Result<u128, u128>| r.timestamp == reading_nanos(reading),
    {
        ClipEntry {
            kind: EntryKind::Image { path, width, height },
            timestamp: now_nanos(),
            pinned: false,
        }
    }

    pub fn preview(&self, max_chars: usize) -> (r: String)
        ensures
            r@ == kind_preview(self.kind@, max_chars as nat),
    {
        self.kind.preview(max_chars)
    }

    /// Whole seconds from this entry's timestamp to `now_ns`.
    pub fn age_secs_at(&self, now_ns: i64) -> (r: i64)
        ensures
            r == age_seconds_ns(self.timestamp, now_ns),
    {
        age_secs_between_ns(self.timestamp, now_ns)
    }

    /// Whole seconds since this entry was taken, by the clock read in
    /// nanoseconds, the scale of `timestamp`.
    pub fn age_secs(&self) -> (r: i64)
        ensures
            exists|reading: Result<u128, u128>|
                r == age_seconds_ns(self.timestamp, #[trigger] reading_nanos(reading)),
    {
        let now = now_nanos();
        self.age_secs_at(now)
    }
}


/// Whether a buffer of `len` bytes holds an RGBA image of `width` by
/// `height` pixels: the four bytes per pixel that it needs, counted in
/// `usize` a row (`4 * width`) and then the rows, must not overflow and
/// must not exceed `len`.
pub open spec fn rgba_fits(len: nat, width: u32, height: u32) -> bool {
    &&& 4 * width <= usize::MAX
    &&& 4 * width * height <= usize::MAX
    &&& 4 * width * height <= len
}

/// Checks that `len` bytes are enough for an RGBA image of the given size,
/// before the bytes are made into an image.
pub fn rgba_len_ok(len: usize, width: u32, height: u32) -> (r: bool)
    ensures
        r == rgba_fits(len as nat, width, height),
{
    match 4usize.checked_mul(width as usize) {
        None => false,
        Some(row) => match row.checked_mul(height as usize) {
            None => false,
            Some(need) => need <= len,
        },
    }
}


// ── Orderings over entry lists ──────────────────────────────────────────────

/// The values of a list of entries.
pub open spec fn views(v: Seq<ClipEntry>) -> Seq<EntryView> {
    v.map_values(|e: ClipEntry| e@)
}

/// The values of a list of strings.
pub open spec fn string_views(v: Seq<String>) -> Seq<Seq<char>> {
    v.map_values(|s: String| s@)
}

/// Pinned entries all come before unpinned ones.
pub open spec fn pinned_first(s: Seq<EntryView>) -> bool {
    forall|i: int, j: int|
        #![trigger s[i], s[j]]
        0 <= i < j < s.len() && s[j].pinned ==> s[i].pinned
}

/// Index of the first unpinned entry, or the length when there is none.
pub open spec fn first_unpinned(s: Seq<EntryView>) -> int
    decreases s.len(),
{
    if s.len() == 0 {
        0
    } else if !s[0].pinned {
        0
    } else {
        1 + first_unpinned(s.drop_first())
    }
}

/// Index just after the last pinned entry, or 0 when there is none.
pub open spec fn after_last_pinned(s: Seq<EntryView>) -> int
    decreases s.len(),
{
    if s.len() == 0 {
        0
    } else if s.last().pinned {
        s.len() as int
    } else {
        after_last_pinned(s.drop_last())
    }
}

/// Number of unpinned entries.
pub open spec fn count_unpinned(s: Seq<EntryView>) -> nat
    decreases s.len(),
{
    if s.len() == 0 {
        0
    } else {
        (if s[0].pinned {
            0nat
        } else {
            1nat
        }) + count_unpinned(s.drop_first())
    }
}

/// `s` with every pinned entry and the first `budget` unpinned entries kept,
/// in order; the other unpinned entries are dropped.
pub open spec fn trim(s: Seq<EntryView>, budget: nat) -> Seq<EntryView>
    decreases s.len(),
{
    if s.len() == 0 {
        seq![]
    } else if s[0].pinned {
        seq![s[0]] + trim(s.drop_first(), budget)
    } else if budget > 0 {
        seq![s[0]] + trim(s.drop_first(), (budget - 1) as nat)
    } else {
        trim(s.drop_first(), 0)
    }
}

/// The image file of an entry, if it is an image.
pub open spec fn image_file(e: EntryView) -> Seq<Seq<char>> {
    match e.kind {
        KindView::Image(p, _, _) => seq![p],
        KindView::Text(_) => seq![],
    }
}

/// The image files of the entries that `trim(s, budget)` drops, in order.
pub open spec fn trim_dropped(s: Seq<EntryView>, budget: nat) -> Seq<Seq<char>>
    decreases s.len(),
{
    if s.len() == 0 {
        seq![]
    } else if s[0].pinned {
        trim_dropped(s.drop_first(), budget)
    } else if budget > 0 {
        trim_dropped(s.drop_first(), (budget - 1) as nat)
    } else {
        image_file(s[0]) + trim_dropped(s.drop_first(), 0)
    }
}

/// The pinned entries of `s`, in order.
pub open spec fn pinned_only(s: Seq<EntryView>) -> Seq<EntryView>
    decreases s.len(),
{
    if s.len() == 0 {
        seq![]
    } else if s[0].pinned {
        seq![s[0]] + pinned_only(s.drop_first())
    } else {
        pinned_only(s.drop_first())
    }
}

/// The image files of the unpinned entries of `s`, in order.
pub open spec fn unpinned_images(s: Seq<EntryView>) -> Seq<Seq<char>>
    decreases s.len(),
{
    if s.len() == 0 {
        seq![]
    } else if s[0].pinned {
        unpinned_images(s.drop_first())
    } else {
        image_file(s[0]) + unpinned_images(s.drop_first())
    }
}

/// `s` without the unpinned entries whose key is `key`.
pub open spec fn without_key(s: Seq<EntryView>, key: Seq<char>) -> Seq<EntryView>
    decreases s.len(),
{
    if s.len() == 0 {
        seq![]
    } else if s[0].pinned || kind_key(s[0].kind) != key {
        seq![s[0]] + without_key(s.drop_first(), key)
    } else {
        without_key(s.drop_first(), key)
    }
}

/// `e` placed at the top of the unpinned section of `s`.
pub open spec fn insert_unpinned(s: Seq<EntryView>, e: EntryView) -> Seq<EntryView> {
    s.insert(first_unpinned(s), e)
}

/// Number of pinned entries.
pub open spec fn count_pinned(s: Seq<EntryView>) -> nat
    decreases s.len(),
{
    if s.len() == 0 {
        0
    } else {
        (if s[0].pinned {
            1nat
        } else {
            0nat
        }) + count_pinned(s.drop_first())
    }
}

/// `e` with its pin flipped.
pub open spec fn flipped(e: EntryView) -> EntryView {
    EntryView { kind: e.kind, timestamp: e.timestamp, pinned: !e.pinned }
}

/// `s` after flipping the pin of the entry at `i`: the entry leaves its
/// place; newly pinned, it goes after the last pinned entry, newly unpinned,
/// to the top of the unpinned entries.
pub open spec fn toggled(s: Seq<EntryView>, i: int) -> Seq<EntryView> {
    let f = flipped(s[i]);
    let w = s.remove(i);
    if f.pinned {
        w.insert(after_last_pinned(w), f)
    } else {
        insert_unpinned(w, f)
    }
}

// ── Lemmas ──────────────────────────────────────────────────────────────────

proof fn lemma_first_unpinned(s: Seq<EntryView>)
    ensures
        0 <= first_unpinned(s) <= s.len(),
        forall|j: int| 0 <= j < first_unpinned(s) ==> #[trigger] s[j].pinned,
        first_unpinned(s) < s.len() ==> !s[first_unpinned(s)].pinned,
    decreases s.len(),
{
    if s.len() > 0 && s[0].pinned {
        let r = s.drop_first();
        lemma_first_unpinned(r);
        assert forall|j: int| 0 <= j < first_unpinned(s) implies #[trigger] s[j].pinned by {
            if j > 0 {
                assert(s[j] == r[j - 1]);
            }
        }
    }
}

proof fn lemma_after_last_pinned(s: Seq<EntryView>)
    ensures
        0 <= after_last_pinned(s) <= s.len(),
        after_last_pinned(s) > 0 ==> s[after_last_pinned(s) - 1].pinned,
        forall|j: int| after_last_pinned(s) <= j < s.len() ==> !#[trigger] s[j].pinned,
    decreases s.len(),
{
    if s.len() > 0 && !s.last().pinned {
        let r = s.drop_last();
        lemma_after_last_pinned(r);
        assert forall|j: int| after_last_pinned(s) <= j < s.len() implies !#[trigger] s[j].pinned by {
            if j < s.len() - 1 {
                assert(s[j] == r[j]);
            }
        }
    }
}

proof fn lemma_pinned_first_rest(s: Seq<EntryView>)
    requires
        pinned_first(s),
        s.len() > 0,
    ensures
        pinned_first(s.drop_first()),
        !s[0].pinned ==> forall|k: int| 0 <= k < s.len() ==> !#[trigger] s[k].pinned,
{
    let r = s.drop_first();
    assert forall|i: int, j: int| #![trigger r[i], r[j]] 0 <= i < j < r.len() && r[j].pinned implies r[i].pinned by {
        assert(r[i] == s[i + 1] && r[j] == s[j + 1]);
    }
    if !s[0].pinned {
        assert forall|k: int| 0 <= k < s.len() implies !#[trigger] s[k].pinned by {
            if k > 0 && s[k].pinned {
                assert(s[0].pinned);
            }
        }
    }
}

proof fn lemma_pinned_first_cons(x: EntryView, t: Seq<EntryView>)
    requires
        pinned_first(t),
        !x.pinned ==> forall|k: int| 0 <= k < t.len() ==> !#[trigger] t[k].pinned,
    ensures
        pinned_first(seq![x] + t),
{
    let u = seq![x] + t;
    assert forall|i: int, j: int| #![trigger u[i], u[j]] 0 <= i < j < u.len() && u[j].pinned implies u[i].pinned by {
        assert(u[j] == t[j - 1]);
        if i > 0 {
            assert(u[i] == t[i - 1]);
        }
    }
}

proof fn lemma_all_unpinned_pinned_first(s: Seq<EntryView>)
    requires
        forall|k: int| 0 <= k < s.len() ==> !#[trigger] s[k].pinned,
    ensures
        pinned_first(s),
{
}

proof fn lemma_trim_all_unpinned(s: Seq<EntryView>, b: nat)
    requires
        forall|k: int| 0 <= k < s.len() ==> !#[trigger] s[k].pinned,
    ensures
        forall|k: int| 0 <= k < trim(s, b).len() ==> !#[trigger] trim(s, b)[k].pinned,
    decreases s.len(),
{
    if s.len() > 0 {
        let r = s.drop_first();
        assert forall|k: int| 0 <= k < r.len() implies !#[trigger] r[k].pinned by {
            assert(r[k] == s[k + 1]);
        }
        if b > 0 {
            lemma_trim_all_unpinned(r, (b - 1) as nat);
        } else {
            lemma_trim_all_unpinned(r, 0);
        }
    }
}

proof fn lemma_trim_pinned_first(s: Seq<EntryView>, b: nat)
    requires
        pinned_first(s),
    ensures
        pinned_first(trim(s, b)),
    decreases s.len(),
{
    if s.len() > 0 {
        let r = s.drop_first();
        lemma_pinned_first_rest(s);
        if s[0].pinned {
            lemma_trim_pinned_first(r, b);
            lemma_pinned_first_cons(s[0], trim(r, b));
        } else {
            lemma_trim_all_unpinned(s, b);
            lemma_all_unpinned_pinned_first(trim(s, b));
        }
    }
}

/// Trimming leaves at most `budget` unpinned entries.
proof fn lemma_trim_count(s: Seq<EntryView>, b: nat)
    ensures
        count_unpinned(trim(s, b)) <= b,
        count_unpinned(trim(s, b)) <= count_unpinned(s),
    decreases s.len(),
{
    if s.len() > 0 {
        let r = s.drop_first();
        if s[0].pinned {
            lemma_trim_count(r, b);
            assert((seq![s[0]] + trim(r, b)).drop_first() == trim(r, b));
        } else if b > 0 {
            lemma_trim_count(r, (b - 1) as nat);
            assert((seq![s[0]] + trim(r, (b - 1) as nat)).drop_first() == trim(r, (b - 1) as nat));
        } else {
            lemma_trim_count(r, 0);
        }
    }
}

/// Trimming keeps every pinned entry.
proof fn lemma_trim_pinned(s: Seq<EntryView>, b: nat)
    ensures
        pinned_only(trim(s, b)) == pinned_only(s),
    decreases s.len(),
{
    if s.len() > 0 {
        let r = s.drop_first();
        if s[0].pinned {
            lemma_trim_pinned(r, b);
            assert((seq![s[0]] + trim(r, b)).drop_first() == trim(r, b));
        } else if b > 0 {
            lemma_trim_pinned(r, (b - 1) as nat);
            assert((seq![s[0]] + trim(r, (b - 1) as nat)).drop_first() == trim(r, (b - 1) as nat));
        } else {
            lemma_trim_pinned(r, 0);
        }
    }
}

proof fn lemma_pinned_only_all_pinned(s: Seq<EntryView>)
    ensures
        forall|k: int| 0 <= k < pinned_only(s).len() ==> #[trigger] pinned_only(s)[k].pinned,
    decreases s.len(),
{
    if s.len() > 0 {
        lemma_pinned_only_all_pinned(s.drop_first());
        if s[0].pinned {
            let t = pinned_only(s.drop_first());
            assert forall|k: int| 0 <= k < pinned_only(s).len() implies #[trigger] pinned_only(s)[k].pinned by {
                if k > 0 {
                    assert(pinned_only(s)[k] == t[k - 1]);
                }
            }
        }
    }
}

proof fn lemma_without_key_pinned_first(s: Seq<EntryView>, key: Seq<char>)
    requires
        pinned_first(s),
    ensures
        pinned_first(without_key(s, key)),
        forall|k: int| 0 <= k < without_key(s, key).len() && !#[trigger] without_key(s, key)[k].pinned
            ==> kind_key(without_key(s, key)[k].kind) != key,
    decreases s.len(),
{
    if s.len() > 0 {
        let r = s.drop_first();
        lemma_pinned_first_rest(s);
        lemma_without_key_pinned_first(r, key);
        let w = without_key(r, key);
        if !s[0].pinned {
            lemma_without_key_all_unpinned(r, key);
        }
        if s[0].pinned || kind_key(s[0].kind) != key {
            lemma_pinned_first_cons(s[0], w);
            let u = seq![s[0]] + w;
            assert forall|k: int| 0 <= k < u.len() && !#[trigger] u[k].pinned implies kind_key(u[k].kind) != key by {
                if k > 0 {
                    assert(u[k] == w[k - 1]);
                }
            }
        }
    }
}

proof fn lemma_without_key_all_unpinned(s: Seq<EntryView>, key: Seq<char>)
    requires
        forall|k: int| 0 <= k < s.len() ==> !#[trigger] s[k].pinned,
    ensures
        forall|k: int| 0 <= k < without_key(s, key).len() ==> !#[trigger] without_key(s, key)[k].pinned,
    decreases s.len(),
{
    if s.len() > 0 {
        let r = s.drop_first();
        assert forall|k: int| 0 <= k < r.len() implies !#[trigger] r[k].pinned by {
            assert(r[k] == s[k + 1]);
        }
        lemma_without_key_all_unpinned(r, key);
    }
}

proof fn lemma_insert_unpinned_pinned_first(s: Seq<EntryView>, e: EntryView)
    requires
        pinned_first(s),
        !e.pinned,
    ensures
        pinned_first(insert_unpinned(s, e)),
{
    lemma_first_unpinned(s);
    let f = first_unpinned(s);
    let u = s.insert(f, e);
    assert forall|i: int, j: int| #![trigger u[i], u[j]] 0 <= i < j < u.len() && u[j].pinned implies u[i].pinned by {
        if j > f {
            assert(u[j] == s[j - 1]);
            if f < s.len() {
                assert(!s[f].pinned);
                assert(s[f].pinned);
            }
        }
        assert(j < f);
        assert(u[i] == s[i]);
    }
}

proof fn lemma_remove_pinned_first(s: Seq<EntryView>, i: int)
    requires
        pinned_first(s),
        0 <= i < s.len(),
    ensures
        pinned_first(s.remove(i)),
{
    let u = s.remove(i);
    assert forall|a: int, b: int| #![trigger u[a], u[b]] 0 <= a < b < u.len() && u[b].pinned implies u[a].pinned by {
        let a2 = if a < i { a } else { a + 1 };
        let b2 = if b < i { b } else { b + 1 };
        assert(u[a] == s[a2] && u[b] == s[b2]);
    }
}

proof fn lemma_insert_pinned_pinned_first(s: Seq<EntryView>, e: EntryView)
    requires
        pinned_first(s),
        e.pinned,
    ensures
        pinned_first(s.insert(after_last_pinned(s), e)),
{
    lemma_after_last_pinned(s);
    let f = after_last_pinned(s);
    let u = s.insert(f, e);
    assert forall|i: int, j: int| #![trigger u[i], u[j]] 0 <= i < j < u.len() && u[j].pinned implies u[i].pinned by {
        if j > f {
            assert(u[j] == s[j - 1]);
        }
        if i < f {
            assert(u[i] == s[i]);
            assert(s[f - 1].pinned);
            assert(s[f - 1] == s[f - 1]);
        }
    }
}


proof fn lemma_pinned_only_insert_unpinned(s: Seq<EntryView>, i: int, e: EntryView)
    requires
        0 <= i <= s.len(),
        !e.pinned,
    ensures
        pinned_only(s.insert(i, e)) == pinned_only(s),
    decreases s.len(),
{
    let u = s.insert(i, e);
    if i == 0 {
        assert(u.drop_first() == s);
    } else {
        lemma_pinned_only_insert_unpinned(s.drop_first(), i - 1, e);
        assert(u.drop_first() == s.drop_first().insert(i - 1, e));
        assert(u[0] == s[0]);
    }
}

proof fn lemma_pinned_only_without_key(s: Seq<EntryView>, key: Seq<char>)
    ensures
        pinned_only(without_key(s, key)) == pinned_only(s),
    decreases s.len(),
{
    if s.len() > 0 {
        let r = s.drop_first();
        lemma_pinned_only_without_key(r, key);
        if s[0].pinned || kind_key(s[0].kind) != key {
            assert((seq![s[0]] + without_key(r, key)).drop_first() == without_key(r, key));
        }
    }
}

proof fn lemma_pinned_only_idempotent(s: Seq<EntryView>)
    ensures
        pinned_only(pinned_only(s)) == pinned_only(s),
    decreases s.len(),
{
    if s.len() > 0 {
        let r = s.drop_first();
        lemma_pinned_only_idempotent(r);
        if s[0].pinned {
            assert((seq![s[0]] + pinned_only(r)).drop_first() == pinned_only(r));
        }
    }
}

proof fn lemma_first_unpinned_unique(s: Seq<EntryView>, f: int)
    requires
        0 <= f <= s.len(),
        forall|j: int| 0 <= j < f ==> #[trigger] s[j].pinned,
        f < s.len() ==> !s[f].pinned,
    ensures
        first_unpinned(s) == f,
{
    lemma_first_unpinned(s);
    let g = first_unpinned(s);
    if g < f {
        assert(s[g].pinned);
    }
    if g > f {
        assert(s[f].pinned);
    }
}

proof fn lemma_trim_pinned_prefix(s: Seq<EntryView>, f: int, b: nat)
    requires
        0 <= f <= s.len(),
        forall|j: int| 0 <= j < f ==> #[trigger] s[j].pinned,
    ensures
        trim(s, b) == s.take(f) + trim(s.skip(f), b),
    decreases f,
{
    if f > 0 {
        let r = s.drop_first();
        assert forall|j: int| 0 <= j < f - 1 implies #[trigger] r[j].pinned by {
            assert(r[j] == s[j + 1]);
        }
        lemma_trim_pinned_prefix(r, f - 1, b);
        assert(r.skip(f - 1) == s.skip(f));
        assert(s.take(f) == seq![s[0]] + r.take(f - 1));
        assert(s[0].pinned);
    } else {
        assert(s.skip(0) == s);
    }
}

proof fn lemma_trim_from(s: Seq<EntryView>, b: nat)
    ensures
        forall|k: int|
            0 <= k < trim(s, b).len() ==> exists|j: int| 0 <= j < s.len() && #[trigger] trim(s, b)[k] == s[j],
    decreases s.len(),
{
    if s.len() > 0 {
        let r = s.drop_first();
        let nb: nat = if s[0].pinned {
            b
        } else if b > 0 {
            (b - 1) as nat
        } else {
            0
        };
        lemma_trim_from(r, nb);
        let t = trim(s, b);
        assert forall|k: int| 0 <= k < t.len() implies exists|j: int| 0 <= j < s.len() && #[trigger] t[k] == s[j] by {
            if s[0].pinned || b > 0 {
                if k == 0 {
                    assert(t[0] == s[0]);
                } else {
                    assert(t[k] == trim(r, nb)[k - 1]);
                    let j = choose|j: int| 0 <= j < r.len() && trim(r, nb)[k - 1] == r[j];
                    assert(t[k] == s[j + 1]);
                }
            } else {
                let j = choose|j: int| 0 <= j < r.len() && trim(r, nb)[k] == r[j];
                assert(t[k] == s[j + 1]);
            }
        }
    }
}

proof fn lemma_count_pinned_none(s: Seq<EntryView>)
    requires
        forall|k: int| 0 <= k < s.len() ==> !#[trigger] s[k].pinned,
    ensures
        count_pinned(s) == 0,
    decreases s.len(),
{
    if s.len() > 0 {
        let r = s.drop_first();
        assert forall|k: int| 0 <= k < r.len() implies !#[trigger] r[k].pinned by {
            assert(r[k] == s[k + 1]);
        }
        lemma_count_pinned_none(r);
    }
}

/// With pinned entries first, the pinned section ends at the number of
/// pinned entries, counted from either end.
proof fn lemma_pinned_section_end(s: Seq<EntryView>)
    requires
        pinned_first(s),
    ensures
        first_unpinned(s) == count_pinned(s),
        after_last_pinned(s) == count_pinned(s),
    decreases s.len(),
{
    if s.len() > 0 {
        lemma_pinned_first_rest(s);
        if s[0].pinned {
            lemma_pinned_section_end(s.drop_first());
        } else {
            lemma_count_pinned_none(s);
        }
    }
    lemma_first_unpinned(s);
    lemma_after_last_pinned(s);
    let f = first_unpinned(s);
    let a = after_last_pinned(s);
    if f < a {
        assert(s[a - 1].pinned);
        assert(!s[f].pinned);
        if f < a - 1 {
            assert(s[f].pinned);
        }
    }
    if a < f {
        assert(s[a].pinned);
    }
}

proof fn lemma_count_pinned_remove(s: Seq<EntryView>, i: int)
    requires
        0 <= i < s.len(),
    ensures
        count_pinned(s.remove(i)) + (if s[i].pinned {
            1nat
        } else {
            0nat
        }) == count_pinned(s),
    decreases i,
{
    if i == 0 {
        assert(s.remove(0) == s.drop_first());
    } else {
        let r = s.drop_first();
        lemma_count_pinned_remove(r, i - 1);
        assert(s.remove(i).drop_first() == r.remove(i - 1));
        assert(s.remove(i)[0] == s[0]);
        assert(r[i - 1] == s[i]);
    }
}

/// Flipping a pin in a list with pinned entries first keeps them first and
/// moves the entry to the edge between the sections: with `P` pinned entries
/// before the flip, a newly pinned entry lands at index `P` (the end of the
/// pinned section) and a newly unpinned one at index `P - 1` (the top of the
/// unpinned section); the other entries keep their order.
pub proof fn law_toggle_pin_lands_at_section_edge(s: Seq<EntryView>, i: int)
    requires
        pinned_first(s),
        0 <= i < s.len(),
    ensures
        pinned_first(toggled(s, i)),
        toggled(s, i) == s.remove(i).insert(
            if s[i].pinned {
                count_pinned(s) - 1
            } else {
                count_pinned(s) as int
            },
            flipped(s[i]),
        ),
{
    let f = flipped(s[i]);
    let w = s.remove(i);
    lemma_remove_pinned_first(s, i);
    lemma_pinned_section_end(w);
    lemma_count_pinned_remove(s, i);
    if f.pinned {
        lemma_insert_pinned_pinned_first(w, f);
    } else {
        lemma_insert_unpinned_pinned_first(w, f);
    }
}

/// Dedup: after a text is added to a history whose pinned entries come
/// first, with room for at least one unpinned entry, the new entry heads the
/// unpinned entries and no other unpinned entry holds the same text.
pub proof fn law_push_text_dedup(s: Seq<EntryView>, e: EntryView, max: nat)
    requires
        pinned_first(s),
        !e.pinned,
        e.kind is Text,
        max > 0,
    ensures
        ({
            let t = trim(insert_unpinned(without_key(s, kind_key(e.kind)), e), max);
            &&& first_unpinned(t) < t.len()
            &&& t[first_unpinned(t)] == e
            &&& forall|k: int|
                0 <= k < t.len() && k != first_unpinned(t) && !#[trigger] t[k].pinned
                    ==> kind_key(t[k].kind) != kind_key(e.kind)
        }),
{
    let key = kind_key(e.kind);
    let w = without_key(s, key);
    lemma_without_key_pinned_first(s, key);
    lemma_first_unpinned(w);
    let f = first_unpinned(w);
    let ins = w.insert(f, e);
    assert forall|j: int| 0 <= j < f implies #[trigger] ins[j].pinned by {
        assert(ins[j] == w[j]);
    }
    lemma_trim_pinned_prefix(ins, f, max);
    let rest = w.skip(f);
    assert(ins.skip(f) == seq![e] + rest);
    assert((seq![e] + rest).drop_first() == rest);
    let tr = trim(rest, (max - 1) as nat);
    assert(ins.take(f) == w.take(f));
    let t = trim(ins, max);
    assert(t == w.take(f) + (seq![e] + tr));
    assert forall|j: int| 0 <= j < f implies #[trigger] t[j].pinned by {
        assert(t[j] == w[j]);
    }
    assert(t[f] == e);
    lemma_first_unpinned_unique(t, f);
    lemma_trim_from(rest, (max - 1) as nat);
    assert forall|k: int| 0 <= k < t.len() && k != first_unpinned(t) && !#[trigger] t[k].pinned implies kind_key(
        t[k].kind,
    ) != key by {
        if k < f {
            assert(t[k] == w[k]);
        } else {
            assert(t[k] == tr[k - f - 1]);
            let j = choose|j: int| 0 <= j < rest.len() && tr[k - f - 1] == rest[j];
            assert(rest[j] == w[f + j]);
        }
    }
}

/// Clearing the unpinned entries twice is the same as clearing them once.
pub proof fn law_clear_unpinned_idempotent(s: Seq<EntryView>)
    ensures
        pinned_only(pinned_only(s)) == pinned_only(s),
{
    lemma_pinned_only_idempotent(s);
}

// ── HistoryStore ────────────────────────────────────────────────────────────

/// The clipboard history: the entries, where they are kept on disk, and the
/// limit on unpinned entries.
pub struct HistoryStore {
    entries: Vec<ClipEntry>,
    path: String,
    images_dir: String,
    max: usize,
    removed_images: Vec<String>,
}

/// The value of a [`HistoryStore`].
pub struct HistoryView {
    pub entries: Seq<EntryView>,
    pub path: Seq<char>,
    pub images_dir: Seq<char>,
    pub max: nat,
    /// Image files of dropped entries that are still to be deleted.
    pub removed_images: Seq<Seq<char>>,
}

impl View for HistoryStore {
    type V = HistoryView;

    closed spec fn view(&self) -> HistoryView {
        HistoryView {
            entries: views(self.entries@),
            path: self.path@,
            images_dir: self.images_dir@,
            max: self.max as nat,
            removed_images: string_views(self.removed_images@),
        }
    }
}

impl HistoryStore {
    /// A store over `entries` (as read back from `path`), keeping at most
    /// `max` unpinned entries from now on.
    pub fn from_entries(path: String, images_dir: String, entries: Vec<ClipEntry>, max: usize) -> (r:
        Self)
        ensures
            r@.entries == views(entries@),
            r@.path == path@,
            r@.images_dir == images_dir@,
            r@.max == max,
            r@.removed_images == Seq::<Seq<char>>::empty(),
    {
        let r = HistoryStore { entries, path, images_dir, max, removed_images: Vec::new() };
        assert(string_views(r.removed_images@) == Seq::<Seq<char>>::empty());
        r
    }

    pub fn entries(&self) -> (r: &[ClipEntry])
        ensures
            views(r@) == self@.entries,
    {
        self.entries.as_slice()
    }

    pub fn images_dir(&self) -> (r: &str)
        ensures
            r@ == self@.images_dir,
    {
        self.images_dir.as_str()
    }

    /// The file that the history is written to.
    pub fn path(&self) -> (r: &str)
        ensures
            r@ == self@.path,
    {
        self.path.as_str()
    }

    /// Hands out the image files of dropped entries, which the caller deletes,
    /// and forgets them.
    pub fn take_removed_images(&mut self) -> (r: Vec<String>)
        ensures
            string_views(r@) == old(self)@.removed_images,
            final(self)@.removed_images == Seq::<Seq<char>>::empty(),
            final(self)@.entries == old(self)@.entries,
            final(self)@.path == old(self)@.path,
            final(self)@.images_dir == old(self)@.images_dir,
            final(self)@.max == old(self)@.max,
    {
        let mut r: Vec<String> = Vec::new();
        std::mem::swap(&mut r, &mut self.removed_images);
        assert(string_views(self.removed_images@) == Seq::<Seq<char>>::empty());
        r
    }

    fn first_unpinned(&self) -> (r: usize)
        ensures
            r == first_unpinned(self@.entries),
    {
        let ghost s = self@.entries;
        proof {
            lemma_first_unpinned(s);
        }
        let mut i: usize = 0;
        while i < self.entries.len()
            invariant
                s == views(self.entries@),
                i <= self.entries.len(),
                forall|j: int| 0 <= j < i ==> #[trigger] s[j].pinned,
                0 <= first_unpinned(s) <= s.len(),
                forall|j: int| 0 <= j < first_unpinned(s) ==> #[trigger] s[j].pinned,
                first_unpinned(s) < s.len() ==> !s[first_unpinned(s)].pinned,
                first_unpinned(s) >= i,
            decreases self.entries.len() - i,
        {
            assert(s[i as int] == self.entries@[i as int]@);
            if !self.entries[i].pinned {
                assert(!s[i as int].pinned);
                assert(first_unpinned(s) <= i) by {
                    if first_unpinned(s) > i {
                        assert(s[i as int].pinned);
                    }
                }
                return i;
            }
            i = i + 1;
        }
        i
    }

    fn trim_unpinned(&mut self)
        ensures
            final(self)@.entries == trim(old(self)@.entries, old(self)@.max),
            final(self)@.removed_images == old(self)@.removed_images + trim_dropped(
                old(self)@.entries,
                old(self)@.max,
            ),
            final(self)@.path == old(self)@.path,
            final(self)@.images_dir == old(self)@.images_dir,
            final(self)@.max == old(self)@.max,
    {
        broadcast use vstd::std_specs::vec::group_vec_axioms;

        let ghost s0 = views(self.entries@);
        let ghost r0 = string_views(self.removed_images@);
        let mut old_entries: Vec<ClipEntry> = Vec::new();
        std::mem::swap(&mut old_entries, &mut self.entries);
        let mut budget: usize = self.max;
        let ghost total = views(old_entries@);
        assert(views(self.entries@) == Seq::<EntryView>::empty());
        assert(total.skip(0) == total);
        for e in it: old_entries.into_iter()
            invariant
                it.seq() == old_entries@,
                total == views(old_entries@),
                total == s0,
                views(self.entries@) + trim(total.skip(it.index()), budget as nat) == trim(
                    total,
                    self.max as nat,
                ),
                string_views(self.removed_images@) + trim_dropped(
                    total.skip(it.index()),
                    budget as nat,
                ) == r0 + trim_dropped(total, self.max as nat),
                self.path@ == old(self).path@,
                self.images_dir@ == old(self).images_dir@,
                self.max == old(self).max,
        {
            let ghost rest = total.skip(it.index());
            let ghost out = views(self.entries@);
            let ghost rem = string_views(self.removed_images@);
            assert(rest[0] == e@);
            assert(rest.drop_first() == total.skip(it.index() + 1));
            if e.pinned {
                self.entries.push(e);
                assert(views(self.entries@) == out.push(e@));
                assert(out + trim(rest, budget as nat) == out.push(e@) + trim(rest.drop_first(), budget as nat));
            } else if budget > 0 {
                self.entries.push(e);
                assert(views(self.entries@) == out.push(e@));
                assert(out + trim(rest, budget as nat) == out.push(e@) + trim(
                    rest.drop_first(),
                    (budget - 1) as nat,
                ));
                budget = budget - 1;
            } else {
                match &e.kind {
                    EntryKind::Image { path, .. } => {
                        self.removed_images.push(path.clone());
                        assert(string_views(self.removed_images@) == rem.push(path@));
                        assert(rem + trim_dropped(rest, 0) == rem.push(path@) + trim_dropped(
                            rest.drop_first(),
                            0,
                        ));
                    },
                    EntryKind::Text { .. } => {
                        assert(rem + trim_dropped(rest, 0) == rem + trim_dropped(rest.drop_first(), 0));
                    },
                }
            }
        }
        assert(total.skip(total.len() as int) == Seq::<EntryView>::empty());
    }

    fn after_last_pinned(&self) -> (r: usize)
        ensures
            r == after_last_pinned(self@.entries),
    {
        let ghost s = self@.entries;
        proof {
            lemma_after_last_pinned(s);
        }
        let mut i: usize = self.entries.len();
        while i > 0
            invariant
                s == views(self.entries@),
                i <= self.entries.len(),
                forall|j: int| i <= j < s.len() ==> !#[trigger] s[j].pinned,
                0 <= after_last_pinned(s) <= s.len(),
                after_last_pinned(s) > 0 ==> s[after_last_pinned(s) - 1].pinned,
                forall|j: int| after_last_pinned(s) <= j < s.len() ==> !#[trigger] s[j].pinned,
                after_last_pinned(s) <= i,
            decreases i,
        {
            assert(s[i - 1] == self.entries@[i - 1]@);
            if self.entries[i - 1].pinned {
                assert(after_last_pinned(s) >= i) by {
                    if after_last_pinned(s) < i {
                        assert(!s[i - 1].pinned);
                    }
                }
                return i;
            }
            i = i - 1;
        }
        0
    }

    fn retain_without_key(&mut self, key: &String)
        ensures
            final(self)@.entries == without_key(old(self)@.entries, key@),
            final(self)@.removed_images == old(self)@.removed_images,
            final(self)@.path == old(self)@.path,
            final(self)@.images_dir == old(self)@.images_dir,
            final(self)@.max == old(self)@.max,
    {
        broadcast use vstd::std_specs::vec::group_vec_axioms;

        let ghost s0 = views(self.entries@);
        let mut old_entries: Vec<ClipEntry> = Vec::new();
        std::mem::swap(&mut old_entries, &mut self.entries);
        let ghost total = views(old_entries@);
        assert(views(self.entries@) == Seq::<EntryView>::empty());
        assert(total.skip(0) == total);
        for e in it: old_entries.into_iter()
            invariant
                it.seq() == old_entries@,
                total == views(old_entries@),
                total == s0,
                views(self.entries@) + without_key(total.skip(it.index()), key@) == without_key(
                    total,
                    key@,
                ),
                self.path@ == old(self).path@,
                self.images_dir@ == old(self).images_dir@,
                self.max == old(self).max,
                self.removed_images@ == old(self).removed_images@,
        {
            let ghost rest = total.skip(it.index());
            let ghost out = views(self.entries@);
            assert(rest[0] == e@);
            assert(rest.drop_first() == total.skip(it.index() + 1));
            let k = e.kind.dedup_key();
            if e.pinned || k != *key {
                self.entries.push(e);
                assert(views(self.entries@) == out.push(e@));
                assert(out + without_key(rest, key@) == out.push(e@) + without_key(
                    rest.drop_first(),
                    key@,
                ));
            }
        }
        assert(total.skip(total.len() as int) == Seq::<EntryView>::empty());
    }

    /// Add a text entry at the top of the unpinned entries, dropping any
    /// unpinned entry with the same text and then the oldest unpinned entries
    /// beyond the limit. Blank text is ignored. Returns `true` if modified.
    pub fn push_text(&mut self, content: String) -> (r: bool)
        ensures
            r == !blank(content@),
            !r ==> final(self)@ == old(self)@,
            r ==> exists|e: EntryView|
                {
                    &&& e.kind == KindView::Text(content@)
                    &&& !e.pinned
                    &&& final(self)@.entries == trim(
                        insert_unpinned(without_key(old(self)@.entries, content@), e),
                        old(self)@.max,
                    )
                    &&& final(self)@.removed_images == old(self)@.removed_images + trim_dropped(
                        insert_unpinned(without_key(old(self)@.entries, content@), e),
                        old(self)@.max,
                    )
                },
            final(self)@.max == old(self)@.max,
            final(self)@.path == old(self)@.path,
            final(self)@.images_dir == old(self)@.images_dir,
            r ==> count_unpinned(final(self)@.entries) <= final(self)@.max,
            r ==> pinned_only(final(self)@.entries) == pinned_only(old(self)@.entries),
            pinned_first(old(self)@.entries) ==> pinned_first(final(self)@.entries),
    {
        if is_blank(content.as_str()) {
            return false;
        }
        let key = EntryKind::Text { content: content.clone() }.dedup_key();
        self.retain_without_key(&key);
        let insert_at = self.first_unpinned();
        let entry = ClipEntry::text(content);
        let ghost e = entry@;
        let ghost w = self@.entries;
        proof {
            lemma_first_unpinned(w);
        }
        self.entries.insert(insert_at, entry);
        assert(views(self.entries@) =~= insert_unpinned(w, e));
        self.trim_unpinned();
        proof {
            let s0 = old(self)@.entries;
            let m = old(self)@.max;
            let ins = insert_unpinned(w, e);
            lemma_trim_count(ins, m);
            lemma_trim_pinned(ins, m);
            lemma_first_unpinned(w);
            lemma_pinned_only_insert_unpinned(w, first_unpinned(w), e);
            lemma_pinned_only_without_key(s0, content@);
            if pinned_first(s0) {
                lemma_without_key_pinned_first(s0, content@);
                lemma_insert_unpinned_pinned_first(w, e);
                lemma_trim_pinned_first(ins, m);
            }
        }
        true
    }

    /// Adds an image entry for the file at `path` at the top of the unpinned
    /// entries, then drops the oldest unpinned entries beyond the limit.
    pub fn push_image_entry(&mut self, path: String, width: u32, height: u32)
        ensures
            exists|e: EntryView|
                {
                    &&& e.kind == KindView::Image(path@, width, height)
                    &&& !e.pinned
                    &&& final(self)@.entries == trim(insert_unpinned(old(self)@.entries, e), old(self)@.max)
                    &&& final(self)@.removed_images == old(self)@.removed_images + trim_dropped(
                        insert_unpinned(old(self)@.entries, e),
                        old(self)@.max,
                    )
                },
            final(self)@.max == old(self)@.max,
            final(self)@.path == old(self)@.path,
            final(self)@.images_dir == old(self)@.images_dir,
            count_unpinned(final(self)@.entries) <= final(self)@.max,
            pinned_only(final(self)@.entries) == pinned_only(old(self)@.entries),
            pinned_first(old(self)@.entries) ==> pinned_first(final(self)@.entries),
    {
        let insert_at = self.first_unpinned();
        let entry = ClipEntry::image(path, width, height);
        let ghost e = entry@;
        let ghost w = self@.entries;
        proof {
            lemma_first_unpinned(w);
        }
        self.entries.insert(insert_at, entry);
        assert(views(self.entries@) =~= insert_unpinned(w, e));
        self.trim_unpinned();
        proof {
            let m = old(self)@.max;
            let ins = insert_unpinned(w, e);
            lemma_trim_count(ins, m);
            lemma_trim_pinned(ins, m);
            lemma_first_unpinned(w);
            lemma_pinned_only_insert_unpinned(w, first_unpinned(w), e);
            if pinned_first(w) {
                lemma_insert_unpinned_pinned_first(w, e);
                lemma_trim_pinned_first(ins, m);
            }
        }
    }

    /// Moves the unpinned entry at `index` to the top of the unpinned entries
    /// and returns it; a pinned entry stays where it is and is returned as it
    /// is; an index out of bounds gives `None`.
    pub fn promote(&mut self, index: usize) -> (r: Option<&ClipEntry>)
        ensures
            r is Some <==> index < old(self)@.entries.len(),
            r matches Some(e) ==> e@ == old(self)@.entries[index as int],
            index >= old(self)@.entries.len() || old(self)@.entries[index as int].pinned
                ==> final(self)@ == old(self)@,
            index < old(self)@.entries.len() && !old(self)@.entries[index as int].pinned
                ==> final(self)@.entries == insert_unpinned(
                old(self)@.entries.remove(index as int),
                old(self)@.entries[index as int],
            ),
            final(self)@.max == old(self)@.max,
            final(self)@.path == old(self)@.path,
            final(self)@.images_dir == old(self)@.images_dir,
            final(self)@.removed_images == old(self)@.removed_images,
            pinned_first(old(self)@.entries) ==> pinned_first(final(self)@.entries),
    {
        if index >= self.entries.len() {
            return None;
        }
        assert(views(self.entries@)[index as int] == self.entries@[index as int]@);
        if self.entries[index].pinned {
            return Some(&self.entries[index]);
        }
        let ghost s0 = self@.entries;
        let entry = self.entries.remove(index);
        let ghost e = entry@;
        let ghost w = self@.entries;
        assert(w =~= s0.remove(index as int));
        let insert_at = self.first_unpinned();
        proof {
            lemma_first_unpinned(w);
        }
        self.entries.insert(insert_at, entry);
        assert(views(self.entries@) =~= insert_unpinned(w, e));
        proof {
            if pinned_first(s0) {
                lemma_remove_pinned_first(s0, index as int);
                lemma_insert_unpinned_pinned_first(w, e);
            }
        }
        assert(views(self.entries@)[insert_at as int] == self.entries@[insert_at as int]@);
        Some(&self.entries[insert_at])
    }

    /// Flips the pin of the entry at `index`: a newly pinned entry goes after
    /// the last pinned entry, a newly unpinned one to the top of the unpinned
    /// entries. An index out of bounds changes nothing.
    pub fn toggle_pin(&mut self, index: usize)
        ensures
            index >= old(self)@.entries.len() ==> final(self)@ == old(self)@,
            index < old(self)@.entries.len() ==> final(self)@.entries == toggled(
                old(self)@.entries,
                index as int,
            ),
            final(self)@.max == old(self)@.max,
            final(self)@.path == old(self)@.path,
            final(self)@.images_dir == old(self)@.images_dir,
            final(self)@.removed_images == old(self)@.removed_images,
            pinned_first(old(self)@.entries) ==> pinned_first(final(self)@.entries),
    {
        if index >= self.entries.len() {
            return;
        }
        let ghost s0 = self@.entries;
        let mut entry = self.entries.remove(index);
        let ghost w = self@.entries;
        assert(w =~= s0.remove(index as int));
        entry.pinned = !entry.pinned;
        let ghost f = entry@;
        let insert_at = if entry.pinned {
            proof {
                lemma_after_last_pinned(w);
            }
            self.after_last_pinned()
        } else {
            proof {
                lemma_first_unpinned(w);
            }
            self.first_unpinned()
        };
        self.entries.insert(insert_at, entry);
        assert(views(self.entries@) =~= w.insert(insert_at as int, f));
        proof {
            if pinned_first(s0) {
                lemma_remove_pinned_first(s0, index as int);
                if f.pinned {
                    lemma_insert_pinned_pinned_first(w, f);
                } else {
                    lemma_insert_unpinned_pinned_first(w, f);
                }
            }
        }
    }

    /// Deletes the entry at `index`; an image entry's file is queued for
    /// deletion. An index out of bounds changes nothing.
    pub fn remove(&mut self, index: usize)
        ensures
            index >= old(self)@.entries.len() ==> final(self)@ == old(self)@,
            index < old(self)@.entries.len() ==> final(self)@.entries == old(self)@.entries.remove(
                index as int,
            ),
            index < old(self)@.entries.len() ==> final(self)@.removed_images
                == old(self)@.removed_images + image_file(old(self)@.entries[index as int]),
            final(self)@.max == old(self)@.max,
            final(self)@.path == old(self)@.path,
            final(self)@.images_dir == old(self)@.images_dir,
            pinned_first(old(self)@.entries) ==> pinned_first(final(self)@.entries),
    {
        if index >= self.entries.len() {
            return;
        }
        let ghost s0 = self@.entries;
        let ghost r0 = self@.removed_images;
        assert(s0[index as int] == self.entries@[index as int]@);
        match &self.entries[index].kind {
            EntryKind::Image { path, .. } => {
                self.removed_images.push(path.clone());
                assert(string_views(self.removed_images@) =~= r0.push(path@));
            },
            EntryKind::Text { .. } => {
                assert(r0 + image_file(s0[index as int]) =~= r0);
            },
        }
        self.entries.remove(index);
        assert(views(self.entries@) =~= s0.remove(index as int));
        proof {
            if pinned_first(s0) {
                lemma_remove_pinned_first(s0, index as int);
            }
        }
    }

    /// Deletes every unpinned entry; their image files are queued for
    /// deletion. Pinned entries are kept, in order.
    pub fn clear_unpinned(&mut self)
        ensures
            final(self)@.entries == pinned_only(old(self)@.entries),
            final(self)@.removed_images == old(self)@.removed_images + unpinned_images(
                old(self)@.entries,
            ),
            forall|k: int|
                0 <= k < final(self)@.entries.len() ==> #[trigger] final(self)@.entries[k].pinned,
            final(self)@.max == old(self)@.max,
            final(self)@.path == old(self)@.path,
            final(self)@.images_dir == old(self)@.images_dir,
    {
        broadcast use vstd::std_specs::vec::group_vec_axioms;

        let ghost s0 = views(self.entries@);
        let ghost r0 = string_views(self.removed_images@);
        let mut old_entries: Vec<ClipEntry> = Vec::new();
        std::mem::swap(&mut old_entries, &mut self.entries);
        let ghost total = views(old_entries@);
        assert(views(self.entries@) == Seq::<EntryView>::empty());
        assert(total.skip(0) == total);
        for e in it: old_entries.into_iter()
            invariant
                it.seq() == old_entries@,
                total == views(old_entries@),
                total == s0,
                views(self.entries@) + pinned_only(total.skip(it.index())) == pinned_only(total),
                string_views(self.removed_images@) + unpinned_images(total.skip(it.index())) == r0
                    + unpinned_images(total),
                self.path@ == old(self).path@,
                self.images_dir@ == old(self).images_dir@,
                self.max == old(self).max,
        {
            let ghost rest = total.skip(it.index());
            let ghost out = views(self.entries@);
            let ghost rem = string_views(self.removed_images@);
            assert(rest[0] == e@);
            assert(rest.drop_first() == total.skip(it.index() + 1));
            if e.pinned {
                self.entries.push(e);
                assert(views(self.entries@) == out.push(e@));
                assert(out + pinned_only(rest) == out.push(e@) + pinned_only(rest.drop_first()));
            } else {
                match &e.kind {
                    EntryKind::Image { path, .. } => {
                        self.removed_images.push(path.clone());
                        assert(string_views(self.removed_images@) == rem.push(path@));
                        assert(rem + unpinned_images(rest) == rem.push(path@) + unpinned_images(
                            rest.drop_first(),
                        ));
                    },
                    EntryKind::Text { .. } => {
                        assert(rem + unpinned_images(rest) == rem + unpinned_images(
                            rest.drop_first(),
                        ));
                    },
                }
            }
        }
        assert(total.skip(total.len() as int) == Seq::<EntryView>::empty());
        proof {
            lemma_pinned_only_all_pinned(s0);
        }
    }

    /// Changes the limit on unpinned entries and drops the oldest unpinned
    /// entries beyond it.
    pub fn set_max(&mut self, max: usize)
        ensures
            final(self)@.max == max,
            final(self)@.entries == trim(old(self)@.entries, max as nat),
            final(self)@.removed_images == old(self)@.removed_images + trim_dropped(
                old(self)@.entries,
                max as nat,
            ),
            final(self)@.path == old(self)@.path,
            final(self)@.images_dir == old(self)@.images_dir,
            count_unpinned(final(self)@.entries) <= max,
            pinned_only(final(self)@.entries) == pinned_only(old(self)@.entries),
            pinned_first(old(self)@.entries) ==> pinned_first(final(self)@.entries),
    {
        self.max = max;
        self.trim_unpinned();
        proof {
            lemma_trim_count(old(self)@.entries, max as nat);
            lemma_trim_pinned(old(self)@.entries, max as nat);
            if pinned_first(old(self)@.entries) {
                lemma_trim_pinned_first(old(self)@.entries, max as nat);
            }
        }
    }
}

} // verus!
