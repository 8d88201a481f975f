//! The in-memory cache of the SQLite-backed history: entries newest first,
//! pinned first, as the database returns them, and the decisions that pick
//! which rows the database operations touch.

use vstd::prelude::*;

use crate::clipboard::fx_hash;
use crate::sys::{
    chrono_millis_in_range, fuzzy_score, lossy_utf8, nucleo_score, push_char, timestamp_millis_in_range,
    utf8_lossy,
};
use vstd::utf8::encode_utf8;

use crate::text::{
    clip_preview, count_words, has_prefix, hex_fixed, preview_text, push_hex, starts_with, word_count,
};
use crate::time::{age_secs_between, age_seconds, reading_millis};

verus! {

/// `"text/"`.
pub open spec fn text_prefix() -> Seq<char> {
    seq!['t', 'e', 'x', 't', '/']
}

/// `"image/"`.
pub open spec fn image_prefix() -> Seq<char> {
    seq!['i', 'm', 'a', 'g', 'e', '/']
}

/// Whether a MIME type is a text type.
pub fn is_text_mime(mime: &str) -> (r: bool)
    ensures
        r == has_prefix(mime@, text_prefix()),
{
    proof {
        reveal_strlit("text/");
        assert("text/"@ =~= text_prefix());
    }
    starts_with(mime, "text/")
}

/// Whether a MIME type is an image type.
pub fn is_image_mime(mime: &str) -> (r: bool)
    ensures
        r == has_prefix(mime@, image_prefix()),
{
    proof {
        reveal_strlit("image/");
        assert("image/"@ =~= image_prefix());
    }
    starts_with(mime, "image/")
}

// ── Entry ───────────────────────────────────────────────────────────────────

/// One row of the history table; `created_at` is in milliseconds since the
/// Unix epoch.
#[derive(Debug, Clone)]
pub struct ClipEntry {
    pub id: i64,
    pub mime_type: String,
    /// Raw bytes — UTF-8 text for text/*, PNG bytes for image/*.
    pub content: Vec<u8>,
    pub content_hash: String,
    pub pinned: bool,
    pub created_at: i64,
}

/// The value of a [`ClipEntry`].
pub struct RowView {
    pub id: i64,
    pub mime_type: Seq<char>,
    pub content: Seq<u8>,
    pub content_hash: Seq<char>,
    pub pinned: bool,
    pub created_at: i64,
}

impl View for ClipEntry {
    type V = RowView;

    open spec fn view(&self) -> RowView {
        RowView {
            id: self.id,
            mime_type: self.mime_type@,
            content: self.content@,
            content_hash: self.content_hash@,
            pinned: self.pinned,
            created_at: self.created_at,
        }
    }
}

/// The preview of a row: text rows show their (lossily decoded) text
/// collapsed and cut to `max` characters, image rows `image_label`, other
/// rows their MIME type in brackets.
pub open spec fn row_preview(r: RowView, max: nat, image_label: Seq<char>) -> Seq<char> {
    if has_prefix(r.mime_type, text_prefix()) {
        clip_preview(lossy_utf8(r.content), max)
    } else if has_prefix(r.mime_type, image_prefix()) {
        image_label
    } else {
        seq!['['] + r.mime_type + seq![']']
    }
}

impl ClipEntry {
    /// Single-line preview for display in the list; `image_label` is the
    /// (localized) text shown for images.
    pub fn preview(&self, max_chars: usize, image_label: &str) -> (r: String)
        ensures
            r@ == row_preview(self@, max_chars as nat, image_label@),
    {
        if is_text_mime(self.mime_type.as_str()) {
            let text = utf8_lossy(self.content.as_slice());
            preview_text(text.as_str(), max_chars)
        } else if is_image_mime(self.mime_type.as_str()) {
            image_label.to_owned()
        } else {
            let mut out = String::new();
            push_char(&mut out, '[');
            out.append(self.mime_type.as_str());
            push_char(&mut out, ']');
            out
        }
    }

    /// The text that a search matches this row against.
    pub fn search_text(&self, image_label: &str) -> (r: String)
        ensures
            r@ == haystack_of(self@, image_label@),
    {
        if self.is_text() {
            utf8_lossy(self.content.as_slice())
        } else {
            self.preview(500, image_label)
        }
    }

    pub fn is_image(&self) -> (r: bool)
        ensures
            r == has_prefix(self.mime_type@, image_prefix()),
    {
        is_image_mime(self.mime_type.as_str())
    }

    pub fn is_text(&self) -> (r: bool)
        ensures
            r == has_prefix(self.mime_type@, text_prefix()),
    {
        is_text_mime(self.mime_type.as_str())
    }

    /// Whole seconds from this row's creation to `now_ms`.
    pub fn age_secs_at(&self, now_ms: i64) -> (r: i64)
        ensures
            r == age_seconds(self.created_at, now_ms),
    {
        age_secs_between(self.created_at, now_ms)
    }

    /// Whole seconds since this row was created, by the clock read in
    /// milliseconds, the scale of `created_at`.
    pub fn age_secs(&self) -> (r: i64)
        ensures
            exists|reading: Result<u128, u128>|
                r == age_seconds(self.created_at, #[trigger] reading_millis(reading)),
    {
        let now = crate::time::now_millis();
        self.age_secs_at(now)
    }
}

// ── Hash ────────────────────────────────────────────────────────────────────

/// A 64-bit hash written as 16 lowercase hexadecimal digits (`{:016x}`).
pub fn format_hash(h: u64) -> (r: String)
    ensures
        r@ == hex_fixed(h as nat, 16),
        r@.len() == 16,
{
    let mut out = String::new();
    push_hex(&mut out, h, 16);
    proof {
        lemma_hex_fixed_len(h as nat, 16);
    }
    out
}

proof fn lemma_hex_fixed_len(n: nat, w: nat)
    ensures
        hex_fixed(n, w).len() == w,
    decreases w,
{
    if w > 0 {
        lemma_hex_fixed_len(n / 16, (w - 1) as nat);
    }
}

/// The content hash stored with a row: the FxHash of the bytes in
/// hexadecimal.
pub fn content_hash(data: &[u8]) -> (r: String)
    ensures
        exists|h: u64| r@ == hex_fixed(h as nat, 16),
        r@.len() == 16,
{
    format_hash(fx_hash(data))
}


/// A row's age read `elapsed_ms` milliseconds after its creation time is
/// the whole seconds in `elapsed_ms`: two minutes later it is 120.
pub proof fn law_row_age_counts_elapsed_seconds(created_ms: i64, elapsed_ms: int)
    requires
        0 <= elapsed_ms,
        created_ms + elapsed_ms <= i64::MAX,
    ensures
        age_seconds(created_ms, (created_ms + elapsed_ms) as i64) == elapsed_ms / 1000,
{
}

/// The pin value that the table stores for a flag (1 for pinned).
pub open spec fn stored_pin(pinned: bool) -> i64 {
    if pinned {
        1
    } else {
        0
    }
}

/// The rows `s` once the table has stored pin value `value` for the row with
/// id `id` (`UPDATE entries SET pinned = value WHERE id = id`) and the rows
/// have been read back (a row is pinned when its value is not 0).
pub open spec fn with_pin(s: Seq<RowView>, id: i64, value: i64) -> Seq<RowView> {
    s.map_values(
        |r: RowView|
            if r.id == id {
                RowView { pinned: value != 0, ..r }
            } else {
                r
            },
    )
}

/// No two rows share an id, as in the table, whose ids are its primary key.
pub open spec fn unique_ids(s: Seq<RowView>) -> bool {
    forall|i: int, j: int| 0 <= i < s.len() && 0 <= j < s.len() && i != j ==> s[i].id != s[j].id
}

/// Toggling a pin twice restores it: storing the value that
/// [`Db::toggle_pin_target`] gives for the row at `index` flips that row's
/// flag and no other; the row keeps its id, and storing the value it then
/// gives for the row with that id brings every row back as it was.
pub proof fn law_toggle_pin_round_trip(s: Seq<RowView>, index: int)
    requires
        unique_ids(s),
        0 <= index < s.len(),
    ensures
        ({
            let id = s[index].id;
            let t = with_pin(s, id, stored_pin(!s[index].pinned));
            &&& id_position(t, id) == Some(index)
            &&& t[index].pinned == !s[index].pinned
            &&& forall|k: int| 0 <= k < s.len() && k != index ==> #[trigger] t[k] == s[k]
            &&& with_pin(t, id, stored_pin(!t[index].pinned)) == s
        }),
{
    let id = s[index].id;
    let t = with_pin(s, id, stored_pin(!s[index].pinned));
    assert(t[index].id == id);
    let c = choose|i: int| 0 <= i < t.len() && t[i].id == id && forall|j: int| 0 <= j < i ==> #[trigger] t[j].id != id;
    assert forall|j: int| 0 <= j < index implies #[trigger] t[j].id != id by {
        assert(s[j].id != s[index].id);
    }
    assert(c == index) by {
        if c != index {
            assert(s[c].id != s[index].id);
        }
    }
    assert forall|k: int| 0 <= k < s.len() && k != index implies #[trigger] t[k] == s[k] by {
        assert(s[k].id != s[index].id);
    }
    let u = with_pin(t, id, stored_pin(!t[index].pinned));
    assert(u =~= s) by {
        assert forall|k: int| 0 <= k < s.len() implies u[k] == s[k] by {
            if k != index {
                assert(s[k].id != s[index].id);
            }
        }
    }
}

/// The creation time of a row read back from the database: the stored time
/// when chrono can represent it, else `now_ms`.
pub fn stored_created_at(stored_ms: i64, now_ms: i64) -> (r: i64)
    ensures
        r == if chrono_millis_in_range(stored_ms) {
            stored_ms
        } else {
            now_ms
        },
{
    if timestamp_millis_in_range(stored_ms) {
        stored_ms
    } else {
        now_ms
    }
}

// ── Db ──────────────────────────────────────────────────────────────────────

/// The values of a list of rows.
pub open spec fn row_views(v: Seq<ClipEntry>) -> Seq<RowView> {
    v.map_values(|e: ClipEntry| e@)
}

/// The rows of `s` that are pinned, in order.
pub open spec fn pinned_rows(s: Seq<RowView>) -> Seq<RowView>
    decreases s.len(),
{
    if s.len() == 0 {
        seq![]
    } else if s[0].pinned {
        seq![s[0]] + pinned_rows(s.drop_first())
    } else {
        pinned_rows(s.drop_first())
    }
}

/// The rows of `s` that are not pinned, in order.
pub open spec fn unpinned_rows(s: Seq<RowView>) -> Seq<RowView>
    decreases s.len(),
{
    if s.len() == 0 {
        seq![]
    } else if !s[0].pinned {
        seq![s[0]] + unpinned_rows(s.drop_first())
    } else {
        unpinned_rows(s.drop_first())
    }
}

/// The rows of `s` that a limit of `budget` unpinned rows keeps: every pinned
/// row, and the first `budget` unpinned rows (the newest, in cache order).
pub open spec fn within_limit(s: Seq<RowView>, budget: nat) -> Seq<RowView>
    decreases s.len(),
{
    if s.len() == 0 {
        seq![]
    } else if s[0].pinned {
        seq![s[0]] + within_limit(s.drop_first(), budget)
    } else if budget > 0 {
        seq![s[0]] + within_limit(s.drop_first(), (budget - 1) as nat)
    } else {
        within_limit(s.drop_first(), 0)
    }
}

/// The ids of the rows of `s` that a limit of `budget` unpinned rows drops,
/// in order.
pub open spec fn over_limit_ids(s: Seq<RowView>, budget: nat) -> Seq<i64>
    decreases s.len(),
{
    if s.len() == 0 {
        seq![]
    } else if s[0].pinned {
        over_limit_ids(s.drop_first(), budget)
    } else if budget > 0 {
        over_limit_ids(s.drop_first(), (budget - 1) as nat)
    } else {
        seq![s[0].id] + over_limit_ids(s.drop_first(), 0)
    }
}

/// The smaller of two numbers.
pub open spec fn min_nat(a: nat, b: nat) -> nat {
    if a < b {
        a
    } else {
        b
    }
}

/// A limit keeps every pinned row and exactly the first `budget` unpinned
/// ones (all of them when there are fewer).
pub proof fn lemma_within_limit(s: Seq<RowView>, budget: nat)
    ensures
        pinned_rows(within_limit(s, budget)) == pinned_rows(s),
        unpinned_rows(within_limit(s, budget)) == unpinned_rows(s).take(
            min_nat(budget, unpinned_rows(s).len()) as int,
        ),
    decreases s.len(),
{
    if s.len() > 0 {
        let r = s.drop_first();
        if s[0].pinned {
            lemma_within_limit(r, budget);
            let w = within_limit(r, budget);
            assert((seq![s[0]] + w).drop_first() == w);
        } else if budget > 0 {
            lemma_within_limit(r, (budget - 1) as nat);
            let w = within_limit(r, (budget - 1) as nat);
            assert((seq![s[0]] + w).drop_first() == w);
            let u = unpinned_rows(r);
            let k = min_nat((budget - 1) as nat, u.len());
            assert((seq![s[0]] + u).take(k + 1 as int) == seq![s[0]] + u.take(k as int));
        } else {
            lemma_within_limit(r, 0);
        }
    }
}

/// The rows of `s` that survive expiry at `cutoff`: pinned rows, and rows
/// created at or after `cutoff`.
pub open spec fn unexpired(s: Seq<RowView>, cutoff: i64) -> Seq<RowView>
    decreases s.len(),
{
    if s.len() == 0 {
        seq![]
    } else if s[0].pinned || s[0].created_at >= cutoff {
        seq![s[0]] + unexpired(s.drop_first(), cutoff)
    } else {
        unexpired(s.drop_first(), cutoff)
    }
}

/// Index of the first row with id `id`.
pub open spec fn id_position(s: Seq<RowView>, id: i64) -> Option<int> {
    if exists|i: int| 0 <= i < s.len() && #[trigger] s[i].id == id {
        Some(choose|i: int| 0 <= i < s.len() && s[i].id == id && forall|j: int| 0 <= j < i ==> #[trigger] s[j].id != id)
    } else {
        None
    }
}

/// Index of the first row whose content hash is `hash`.
pub open spec fn hash_position(s: Seq<RowView>, hash: Seq<char>) -> Option<int> {
    if exists|i: int| 0 <= i < s.len() && #[trigger] s[i].content_hash == hash {
        Some(choose|i: int| 0 <= i < s.len() && s[i].content_hash == hash && forall|j: int| 0 <= j < i ==> #[trigger] s[j].content_hash != hash)
    } else {
        None
    }
}

/// Expiry never removes a pinned row, nor a row created at or after the
/// cutoff.
pub proof fn law_expiry_keeps_pinned_and_recent(s: Seq<RowView>, cutoff: i64)
    ensures
        pinned_rows(unexpired(s, cutoff)) == pinned_rows(s),
        forall|i: int|
            0 <= i < s.len() && (s[i].pinned || s[i].created_at >= cutoff) ==> unexpired(
                s,
                cutoff,
            ).contains(#[trigger] s[i]),
        forall|k: int|
            0 <= k < unexpired(s, cutoff).len() ==> #[trigger] unexpired(s, cutoff)[k].pinned
                || unexpired(s, cutoff)[k].created_at >= cutoff,
    decreases s.len(),
{
    if s.len() > 0 {
        let r = s.drop_first();
        law_expiry_keeps_pinned_and_recent(r, cutoff);
        let u = unexpired(r, cutoff);
        if s[0].pinned || s[0].created_at >= cutoff {
            assert((seq![s[0]] + u).drop_first() == u);
            assert forall|i: int|
                0 <= i < s.len() && (s[i].pinned || s[i].created_at >= cutoff) implies unexpired(
                s,
                cutoff,
            ).contains(#[trigger] s[i]) by {
                if i == 0 {
                    assert(unexpired(s, cutoff)[0] == s[0]);
                } else {
                    assert(s[i] == r[i - 1]);
                    let k = choose|k: int| 0 <= k < u.len() && u[k] == r[i - 1];
                    assert(unexpired(s, cutoff)[k + 1] == u[k]);
                }
            }
            assert forall|k: int| 0 <= k < unexpired(s, cutoff).len() implies #[trigger] unexpired(
                s,
                cutoff,
            )[k].pinned || unexpired(s, cutoff)[k].created_at >= cutoff by {
                if k > 0 {
                    assert(unexpired(s, cutoff)[k] == u[k - 1]);
                }
            }
        } else {
            assert forall|i: int|
                0 <= i < s.len() && (s[i].pinned || s[i].created_at >= cutoff) implies unexpired(
                s,
                cutoff,
            ).contains(#[trigger] s[i]) by {
                assert(i != 0);
                assert(s[i] == r[i - 1]);
            }
        }
    }
}

/// Clearing keeps exactly the pinned rows, in order: a row is kept if and
/// only if it is pinned.
pub proof fn law_clear_keeps_only_pinned(s: Seq<RowView>)
    ensures
        forall|k: int| 0 <= k < pinned_rows(s).len() ==> #[trigger] pinned_rows(s)[k].pinned,
        forall|i: int| 0 <= i < s.len() && s[i].pinned ==> pinned_rows(s).contains(#[trigger] s[i]),
    decreases s.len(),
{
    if s.len() > 0 {
        let r = s.drop_first();
        law_clear_keeps_only_pinned(r);
        let u = pinned_rows(r);
        if s[0].pinned {
            assert forall|k: int| 0 <= k < pinned_rows(s).len() implies #[trigger] pinned_rows(s)[k].pinned by {
                if k > 0 {
                    assert(pinned_rows(s)[k] == u[k - 1]);
                }
            }
        }
        assert forall|i: int| 0 <= i < s.len() && s[i].pinned implies pinned_rows(s).contains(#[trigger] s[i]) by {
            if i == 0 {
                assert(pinned_rows(s)[0] == s[0]);
            } else {
                assert(s[i] == r[i - 1]);
                let k = choose|k: int| 0 <= k < u.len() && u[k] == r[i - 1];
                if s[0].pinned {
                    assert(pinned_rows(s)[k + 1] == u[k]);
                }
            }
        }
    }
}

/// The creation time before which unpinned rows expire, for rows kept for
/// `days` days as of `now_ms` (not below the smallest `i64`).
pub open spec fn cutoff_of(now_ms: i64, days: u64) -> i64 {
    let c = now_ms - days * 86_400_000;
    if c < i64::MIN {
        i64::MIN
    } else {
        c as i64
    }
}

/// What an insert does to the table.
#[derive(Debug)]
pub enum InsertPlan {
    /// The content is already stored in the row at `index` with id `id`:
    /// promote that row.
    Promote { index: usize, id: i64 },
    /// Add a new row, stored with this content hash.
    Add { content_hash: String },
}

/// The in-memory cache of the history table and the limit on unpinned rows.
pub struct Db {
    entries: Vec<ClipEntry>,
    max: usize,
}

/// The value of a [`Db`].
pub struct DbView {
    pub entries: Seq<RowView>,
    pub max: nat,
}

impl View for Db {
    type V = DbView;

    closed spec fn view(&self) -> DbView {
        DbView { entries: row_views(self.entries@), max: self.max as nat }
    }
}

impl Db {
    /// An empty cache for a history that keeps `max` unpinned rows.
    pub fn new(max: usize) -> (r: Self)
        ensures
            r@.entries == Seq::<RowView>::empty(),
            r@.max == max,
    {
        let r = Db { entries: Vec::new(), max };
        assert(row_views(r.entries@) =~= Seq::<RowView>::empty());
        r
    }

    /// The number of rows that a reload asks for: the limit plus 500, to
    /// leave room for the pinned rows.
    pub fn reload_limit(&self) -> (r: i64)
        requires
            self@.max + 500 <= i64::MAX,
        ensures
            r == self@.max + 500,
    {
        self.max as i64 + 500
    }

    /// Replaces the cache by the rows a reload returned.
    pub fn replace_entries(&mut self, rows: Vec<ClipEntry>)
        ensures
            final(self)@.entries == row_views(rows@),
            final(self)@.max == old(self)@.max,
    {
        self.entries = rows;
    }

    pub fn entries(&self) -> (r: &[ClipEntry])
        ensures
            row_views(r@) == self@.entries,
    {
        self.entries.as_slice()
    }

    pub fn get(&self, index: usize) -> (r: Option<&ClipEntry>)
        ensures
            r is Some <==> index < self@.entries.len(),
            r matches Some(e) ==> e@ == self@.entries[index as int],
    {
        if index < self.entries.len() {
            assert(row_views(self.entries@)[index as int] == self.entries@[index as int]@);
            Some(&self.entries[index])
        } else {
            None
        }
    }

    /// The first row with the given id.
    pub fn get_by_id(&self, id: i64) -> (r: Option<&ClipEntry>)
        ensures
            match id_position(self@.entries, id) {
                Some(i) => r matches Some(e) && e@ == self@.entries[i],
                None => r is None,
            },
            r matches Some(e) ==> e.id == id,
    {
        match self.find_id(id) {
            Some(i) => {
                assert(row_views(self.entries@)[i as int] == self.entries@[i as int]@);
                Some(&self.entries[i])
            },
            None => None,
        }
    }

    fn find_id(&self, id: i64) -> (r: Option<usize>)
        ensures
            r matches Some(i) ==> id_position(self@.entries, id) == Some(i as int) && i
                < self@.entries.len() && self@.entries[i as int].id == id,
            r is None ==> id_position(self@.entries, id) is None,
    {
        let ghost s = self@.entries;
        let mut i: usize = 0;
        while i < self.entries.len()
            invariant
                s == row_views(self.entries@),
                i <= self.entries.len(),
                forall|j: int| 0 <= j < i ==> #[trigger] s[j].id != id,
            decreases self.entries.len() - i,
        {
            assert(s[i as int] == self.entries@[i as int]@);
            if self.entries[i].id == id {
                assert(s[i as int].id == id);
                let ghost c = choose|k: int|
                    0 <= k < s.len() && s[k].id == id && forall|j: int| 0 <= j < k ==> #[trigger] s[j].id != id;
                assert(c == i) by {
                    if c < i {
                        assert(s[c].id != id);
                    }
                    if c > i {
                        assert(s[i as int].id != id);
                    }
                }
                return Some(i);
            }
            i = i + 1;
        }
        None
    }

    pub fn len(&self) -> (r: usize)
        ensures
            r == self@.entries.len(),
    {
        self.entries.len()
    }

    /// The limit on unpinned rows.
    pub fn max(&self) -> (r: usize)
        ensures
            r == self@.max,
    {
        self.max
    }

    /// Sets the limit on unpinned rows and drops from the cache the unpinned
    /// rows past it: every pinned row stays, and the `max` newest unpinned
    /// ones. Returns the ids of the dropped rows, for the database to delete.
    pub fn set_max(&mut self, max: usize) -> (dropped: Vec<i64>)
        ensures
            final(self)@.max == max,
            final(self)@.entries == within_limit(old(self)@.entries, max as nat),
            pinned_rows(final(self)@.entries) == pinned_rows(old(self)@.entries),
            unpinned_rows(final(self)@.entries) == unpinned_rows(old(self)@.entries).take(
                min_nat(max as nat, unpinned_rows(old(self)@.entries).len()) as int,
            ),
            dropped@ == over_limit_ids(old(self)@.entries, max as nat),
    {
        broadcast use vstd::std_specs::vec::group_vec_axioms;

        let mut old_entries: Vec<ClipEntry> = Vec::new();
        std::mem::swap(&mut old_entries, &mut self.entries);
        let ghost total = row_views(old_entries@);
        let mut dropped: Vec<i64> = Vec::new();
        let mut budget: usize = max;
        assert(row_views(self.entries@) == Seq::<RowView>::empty());
        assert(total.skip(0) == total);
        for e in it: old_entries.into_iter()
            invariant
                it.seq() == old_entries@,
                total == row_views(old_entries@),
                row_views(self.entries@) + within_limit(total.skip(it.index()), budget as nat)
                    == within_limit(total, max as nat),
                dropped@ + over_limit_ids(total.skip(it.index()), budget as nat) == over_limit_ids(
                    total,
                    max as nat,
                ),
        {
            let ghost rest = total.skip(it.index());
            let ghost out = row_views(self.entries@);
            let ghost gone = dropped@;
            assert(rest[0] == e@);
            assert(rest.drop_first() == total.skip(it.index() + 1));
            if e.pinned {
                self.entries.push(e);
                assert(row_views(self.entries@) == out.push(e@));
                assert(out + within_limit(rest, budget as nat) == out.push(e@) + within_limit(
                    rest.drop_first(),
                    budget as nat,
                ));
            } else if budget > 0 {
                self.entries.push(e);
                assert(row_views(self.entries@) == out.push(e@));
                assert(out + within_limit(rest, budget as nat) == out.push(e@) + within_limit(
                    rest.drop_first(),
                    (budget - 1) as nat,
                ));
                budget = budget - 1;
            } else {
                dropped.push(e.id);
                assert(gone + over_limit_ids(rest, 0) == gone.push(e@.id) + over_limit_ids(
                    rest.drop_first(),
                    0,
                ));
            }
        }
        assert(total.skip(total.len() as int) == Seq::<RowView>::empty());
        self.max = max;
        proof {
            lemma_within_limit(total, max as nat);
        }
        dropped
    }

    /// The position of the row with the given id, or 0 when there is none
    /// (what an insert reports once the cache is reloaded).
    pub fn position_of_id(&self, id: i64) -> (r: usize)
        ensures
            match id_position(self@.entries, id) {
                Some(i) => r == i,
                None => r == 0,
            },
    {
        match self.find_id(id) {
            Some(i) => i,
            None => 0,
        }
    }

    /// The position of the first row whose content hash is `hash`: an insert
    /// of content with that hash promotes that row instead of adding one.
    pub fn find_hash(&self, hash: &String) -> (r: Option<usize>)
        ensures
            r matches Some(i) ==> Some(i as int) == hash_position(self@.entries, hash@) && i
                < self@.entries.len() && self@.entries[i as int].content_hash == hash@,
            r is None ==> hash_position(self@.entries, hash@) is None,
    {
        let ghost s = self@.entries;
        let mut i: usize = 0;
        while i < self.entries.len()
            invariant
                s == row_views(self.entries@),
                i <= self.entries.len(),
                forall|j: int| 0 <= j < i ==> #[trigger] s[j].content_hash != hash@,
            decreases self.entries.len() - i,
        {
            assert(s[i as int] == self.entries@[i as int]@);
            if self.entries[i].content_hash == *hash {
                assert(s[i as int].content_hash == hash@);
                let ghost c = choose|k: int|
                    0 <= k < s.len() && s[k].content_hash == hash@ && forall|j: int| 0 <= j < k ==> #[trigger] s[j].content_hash != hash@;
                assert(c == i) by {
                    if c < i {
                        assert(s[c].content_hash != hash@);
                    }
                    if c > i {
                        assert(s[i as int].content_hash != hash@);
                    }
                }
                return Some(i);
            }
            i = i + 1;
        }
        None
    }

    /// What inserting content with hash `hash` comes to: the row already
    /// holding that content is promoted instead of adding a copy; otherwise a
    /// row is added with that hash.
    pub fn plan_insert_hashed(&self, hash: String) -> (r: InsertPlan)
        ensures
            match hash_position(self@.entries, hash@) {
                Some(i) => r matches InsertPlan::Promote { index, id } && index == i && id
                    == self@.entries[i].id,
                None => r matches InsertPlan::Add { content_hash } && content_hash@ == hash@,
            },
    {
        match self.find_hash(&hash) {
            Some(i) => {
                assert(row_views(self.entries@)[i as int] == self.entries@[i as int]@);
                InsertPlan::Promote { index: i, id: self.entries[i].id }
            },
            None => InsertPlan::Add { content_hash: hash },
        }
    }

    /// What inserting `content` comes to: hashes it, then decides as
    /// [`Db::plan_insert_hashed`] does.
    pub fn plan_insert(&self, content: &[u8]) -> (r: InsertPlan)
        ensures
            exists|h: u64|
                {
                    let hash = #[trigger] hex_fixed(h as nat, 16);
                    match hash_position(self@.entries, hash) {
                        Some(i) => r matches InsertPlan::Promote { index, id } && index == i && id
                            == self@.entries[i].id,
                        None => r matches InsertPlan::Add { content_hash } && content_hash@ == hash,
                    }
                },
    {
        let h = fx_hash(content);
        let hash = format_hash(h);
        self.plan_insert_hashed(hash)
    }

    /// The id of the row that a promote moves: the row at `index`, unless it
    /// is pinned or out of bounds.
    pub fn promote_target(&self, index: usize) -> (r: Option<i64>)
        ensures
            r is Some <==> index < self@.entries.len() && !self@.entries[index as int].pinned,
            r matches Some(id) ==> id == self@.entries[index as int].id,
    {
        if index < self.entries.len() {
            assert(row_views(self.entries@)[index as int] == self.entries@[index as int]@);
            if self.entries[index].pinned {
                None
            } else {
                Some(self.entries[index].id)
            }
        } else {
            None
        }
    }

    /// The id of the row at `index` and the pin value it is to get (1 for
    /// pinned, 0 for unpinned), unless `index` is out of bounds.
    pub fn toggle_pin_target(&self, index: usize) -> (r: Option<(i64, i64)>)
        ensures
            r is Some <==> index < self@.entries.len(),
            r matches Some(p) ==> p.0 == self@.entries[index as int].id && p.1 == stored_pin(
                !self@.entries[index as int].pinned,
            ),
    {
        if index < self.entries.len() {
            assert(row_views(self.entries@)[index as int] == self.entries@[index as int]@);
            let new_pinned: i64 = if self.entries[index].pinned {
                0
            } else {
                1
            };
            Some((self.entries[index].id, new_pinned))
        } else {
            None
        }
    }

    /// The id of the row at `index`, unless it is out of bounds.
    pub fn remove_target(&self, index: usize) -> (r: Option<i64>)
        ensures
            r is Some <==> index < self@.entries.len(),
            r matches Some(id) ==> id == self@.entries[index as int].id,
    {
        if index < self.entries.len() {
            assert(row_views(self.entries@)[index as int] == self.entries@[index as int]@);
            Some(self.entries[index].id)
        } else {
            None
        }
    }

    /// Drops the row at `index` from the cache once it is deleted.
    pub fn forget(&mut self, index: usize)
        requires
            index < old(self)@.entries.len(),
        ensures
            final(self)@.entries == old(self)@.entries.remove(index as int),
            final(self)@.max == old(self)@.max,
    {
        let ghost s = self@.entries;
        self.entries.remove(index);
        assert(row_views(self.entries@) =~= s.remove(index as int));
    }

    /// Keeps only the pinned rows, once the unpinned ones are deleted.
    pub fn forget_unpinned(&mut self)
        ensures
            final(self)@.entries == pinned_rows(old(self)@.entries),
            final(self)@.max == old(self)@.max,
    {
        broadcast use vstd::std_specs::vec::group_vec_axioms;

        let ghost s0 = row_views(self.entries@);
        let mut old_entries: Vec<ClipEntry> = Vec::new();
        std::mem::swap(&mut old_entries, &mut self.entries);
        let ghost total = row_views(old_entries@);
        assert(row_views(self.entries@) == Seq::<RowView>::empty());
        assert(total.skip(0) == total);
        for e in it: old_entries.into_iter()
            invariant
                it.seq() == old_entries@,
                total == row_views(old_entries@),
                total == s0,
                row_views(self.entries@) + pinned_rows(total.skip(it.index())) == pinned_rows(total),
                self.max == old(self).max,
        {
            let ghost rest = total.skip(it.index());
            let ghost out = row_views(self.entries@);
            assert(rest[0] == e@);
            assert(rest.drop_first() == total.skip(it.index() + 1));
            if e.pinned {
                self.entries.push(e);
                assert(row_views(self.entries@) == out.push(e@));
                assert(out + pinned_rows(rest) == out.push(e@) + pinned_rows(rest.drop_first()));
            }
        }
        assert(total.skip(total.len() as int) == Seq::<RowView>::empty());
    }

    /// Keeps the pinned rows and the rows created at or after `cutoff`, once
    /// the expired rows are deleted.
    pub fn forget_expired(&mut self, cutoff: i64)
        ensures
            final(self)@.entries == unexpired(old(self)@.entries, cutoff),
            final(self)@.max == old(self)@.max,
    {
        broadcast use vstd::std_specs::vec::group_vec_axioms;

        let ghost s0 = row_views(self.entries@);
        let mut old_entries: Vec<ClipEntry> = Vec::new();
        std::mem::swap(&mut old_entries, &mut self.entries);
        let ghost total = row_views(old_entries@);
        assert(row_views(self.entries@) == Seq::<RowView>::empty());
        assert(total.skip(0) == total);
        for e in it: old_entries.into_iter()
            invariant
                it.seq() == old_entries@,
                total == row_views(old_entries@),
                total == s0,
                row_views(self.entries@) + unexpired(total.skip(it.index()), cutoff) == unexpired(
                    total,
                    cutoff,
                ),
                self.max == old(self).max,
        {
            let ghost rest = total.skip(it.index());
            let ghost out = row_views(self.entries@);
            assert(rest[0] == e@);
            assert(rest.drop_first() == total.skip(it.index() + 1));
            if e.pinned || e.created_at >= cutoff {
                self.entries.push(e);
                assert(row_views(self.entries@) == out.push(e@));
                assert(out + unexpired(rest, cutoff) == out.push(e@) + unexpired(
                    rest.drop_first(),
                    cutoff,
                ));
            }
        }
        assert(total.skip(total.len() as int) == Seq::<RowView>::empty());
    }
}

/// The creation time before which unpinned rows older than `days` days
/// expire, as of `now_ms`.
pub fn expiry_cutoff(now_ms: i64, days: u64) -> (r: i64)
    ensures
        r == cutoff_of(now_ms, days),
{
    let c: i128 = now_ms as i128 - (days as i128) * 86_400_000;
    if c < i64::MIN as i128 {
        i64::MIN
    } else {
        c as i64
    }
}


// ── Search ──────────────────────────────────────────────────────────────────

/// The text that a search matches a row against: the text of a text row,
/// the preview of any other row.
pub open spec fn haystack_of(r: RowView, image_label: Seq<char>) -> Seq<char> {
    if has_prefix(r.mime_type, text_prefix()) {
        lossy_utf8(r.content)
    } else {
        row_preview(r, 500, image_label)
    }
}

/// The indices of the rows that a search for `query` finds, in order: every
/// row for an empty query, else the rows whose text nucleo scores.
pub open spec fn search_hits(s: Seq<RowView>, query: Seq<char>, image_label: Seq<char>) -> Seq<int>
    decreases s.len(),
{
    if s.len() == 0 {
        seq![]
    } else {
        let p = search_hits(s.drop_last(), query, image_label);
        if query.len() == 0 || fuzzy_score(query, haystack_of(s.last(), image_label)) is Some {
            p.push(s.len() - 1)
        } else {
            p
        }
    }
}

/// Whether a search for `query` stays inside nucleo's limits: an empty query
/// matches nothing against nucleo; any other has at most 65537 words, and
/// the text of every row to match is at most `u32::MAX` bytes in UTF-8.
pub open spec fn searchable(s: Seq<RowView>, query: Seq<char>, image_label: Seq<char>) -> bool {
    query.len() > 0 ==> {
        &&& word_count(query) <= 65537
        &&& forall|i: int|
            0 <= i < s.len() ==> encode_utf8(haystack_of(#[trigger] s[i], image_label)).len()
                <= u32::MAX
    }
}

/// The hits of a search are positions of rows, in increasing order.
pub proof fn lemma_search_hits_ordered(s: Seq<RowView>, query: Seq<char>, image_label: Seq<char>)
    ensures
        forall|k: int|
            0 <= k < search_hits(s, query, image_label).len() ==> 0 <= #[trigger] search_hits(
                s,
                query,
                image_label,
            )[k] < s.len(),
        forall|j: int, k: int|
            0 <= j < k < search_hits(s, query, image_label).len() ==> search_hits(
                s,
                query,
                image_label,
            )[j] < search_hits(s, query, image_label)[k],
    decreases s.len(),
{
    if s.len() > 0 {
        lemma_search_hits_ordered(s.drop_last(), query, image_label);
        let h = search_hits(s, query, image_label);
        let p = search_hits(s.drop_last(), query, image_label);
        assert(h == p || h == p.push(s.len() - 1));
        assert forall|k: int| 0 <= k < h.len() implies 0 <= #[trigger] h[k] < s.len() by {
            if k < p.len() {
                assert(h[k] == p[k]);
            }
        }
        assert forall|j: int, k: int| 0 <= j < k < h.len() implies h[j] < h[k] by {
            assert(h[j] == p[j]);
            if k < p.len() {
                assert(h[k] == p[k]);
            }
        }
    }
}

/// What a search finds: for an empty query every row; otherwise the rows
/// that nucleo scores, where a text row is matched by its whole content,
/// decoded with invalid bytes replaced (not by its shortened preview), an
/// image row by the image label, and any other row by its MIME type in
/// brackets.
pub proof fn law_search_matches_whole_text(
    s: Seq<RowView>,
    query: Seq<char>,
    image_label: Seq<char>,
    i: int,
)
    requires
        0 <= i < s.len(),
    ensures
        search_hits(s, query, image_label).contains(i) <==> (query.len() == 0 || fuzzy_score(
            query,
            if has_prefix(s[i].mime_type, text_prefix()) {
                lossy_utf8(s[i].content)
            } else if has_prefix(s[i].mime_type, image_prefix()) {
                image_label
            } else {
                seq!['['] + s[i].mime_type + seq![']']
            },
        ) is Some),
    decreases s.len(),
{
    let p = search_hits(s.drop_last(), query, image_label);
    let h = search_hits(s, query, image_label);
    lemma_search_hits_ordered(s.drop_last(), query, image_label);
    if i == s.len() - 1 {
        assert(!p.contains(i)) by {
            if p.contains(i) {
                let k = choose|k: int| 0 <= k < p.len() && p[k] == i;
                assert(p[k] < s.len() - 1);
            }
        }
        if h == p.push(i) {
            assert(h[h.len() - 1] == i);
        }
    } else {
        law_search_matches_whole_text(s.drop_last(), query, image_label, i);
        assert(s.drop_last()[i] == s[i]);
        assert(h.contains(i) <==> p.contains(i)) by {
            if h == p.push(s.len() - 1) {
                if p.contains(i) {
                    let k = choose|k: int| 0 <= k < p.len() && p[k] == i;
                    assert(h[k] == i);
                }
                if h.contains(i) {
                    let k = choose|k: int| 0 <= k < h.len() && h[k] == i;
                    assert(k < p.len());
                    assert(p[k] == i);
                }
            }
        }
    }
}

/// An empty query finds every row, each at its own position.
pub proof fn lemma_search_hits_empty_query(s: Seq<RowView>, query: Seq<char>, image_label: Seq<char>)
    requires
        query.len() == 0,
    ensures
        search_hits(s, query, image_label) == Seq::new(s.len(), |i: int| i),
    decreases s.len(),
{
    if s.len() > 0 {
        lemma_search_hits_empty_query(s.drop_last(), query, image_label);
        assert(Seq::new(s.len(), |i: int| i) == Seq::new((s.len() - 1) as nat, |i: int| i).push(
            s.len() - 1,
        ));
    }
}

/// Whether a search for `query` over `entries` stays inside nucleo's limits
/// (see [`searchable`]).
pub fn can_search(entries: &[ClipEntry], query: &str, image_label: &str) -> (r: bool)
    ensures
        r == searchable(row_views(entries@), query@, image_label@),
{
    let ghost s = row_views(entries@);
    if query.is_empty() {
        return true;
    }
    if count_words(query) > 65537 {
        return false;
    }
    let mut i: usize = 0;
    while i < entries.len()
        invariant
            s == row_views(entries@),
            i <= entries@.len(),
            query@.len() > 0,
            word_count(query@) <= 65537,
            forall|j: int|
                0 <= j < i ==> encode_utf8(haystack_of(#[trigger] s[j], image_label@)).len()
                    <= u32::MAX,
        decreases entries.len() - i,
    {
        let entry = &entries[i];
        assert(s[i as int] == entry@);
        let text = entry.search_text(image_label);
        let bytes = text.as_str().as_bytes().len();
        assert(bytes == encode_utf8(text@).len());
        if bytes > u32::MAX as usize {
            assert(encode_utf8(haystack_of(s[i as int], image_label@)).len() > u32::MAX);
            return false;
        }
        i = i + 1;
    }
    true
}

/// Search entries using nucleo fuzzy matcher: the matching entries with
/// their positions, in order.
pub fn fuzzy_search<'a>(entries: &'a [ClipEntry], query: &str, image_label: &str) -> (r: Vec<
    (usize, &'a ClipEntry),
>)
    requires
        searchable(row_views(entries@), query@, image_label@),
    ensures
        r@.len() == search_hits(row_views(entries@), query@, image_label@).len(),
        forall|k: int|
            0 <= k < r@.len() ==> {
                &&& #[trigger] r@[k].0 == search_hits(row_views(entries@), query@, image_label@)[k]
                &&& r@[k].0 < entries@.len()
                &&& r@[k].1@ == entries@[r@[k].0 as int]@
            },
        forall|j: int, k: int| 0 <= j < k < r@.len() ==> r@[j].0 < r@[k].0,
        query@.len() == 0 ==> r@.len() == entries@.len() && forall|k: int|
            0 <= k < r@.len() ==> #[trigger] r@[k].0 == k,
{
    let ghost s = row_views(entries@);
    let mut out: Vec<(usize, &'a ClipEntry)> = Vec::new();
    let mut i: usize = 0;
    let empty = query.is_empty();
    while i < entries.len()
        invariant
            s == row_views(entries@),
            i <= entries@.len(),
            empty == (query@.len() == 0),
            searchable(s, query@, image_label@),
            out@.len() == search_hits(s.take(i as int), query@, image_label@).len(),
            forall|k: int|
                0 <= k < out@.len() ==> {
                    &&& #[trigger] out@[k].0 == search_hits(s.take(i as int), query@, image_label@)[k]
                    &&& out@[k].0 < i
                    &&& out@[k].1@ == entries@[out@[k].0 as int]@
                },
        decreases entries.len() - i,
    {
        let entry = &entries[i];
        let ghost prev = search_hits(s.take(i as int), query@, image_label@);
        assert(s.take(i + 1).drop_last() == s.take(i as int));
        assert(s.take(i + 1).last() == entry@);
        let hit = if empty {
            true
        } else {
            assert(s[i as int] == entry@);
            let haystack = entry.search_text(image_label);
            nucleo_score(query, haystack.as_str()).is_some()
        };
        if hit {
            out.push((i, entry));
            assert(search_hits(s.take(i + 1), query@, image_label@) == prev.push(i as int));
        } else {
            assert(search_hits(s.take(i + 1), query@, image_label@) == prev);
        }
        i = i + 1;
    }
    assert(s.take(entries@.len() as int) == s);
    proof {
        lemma_search_hits_ordered(s, query@, image_label@);
        if query@.len() == 0 {
            lemma_search_hits_empty_query(s, query@, image_label@);
        }
    }
    out
}

} // verus!
