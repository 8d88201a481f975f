//! Text helpers shared by the previews and the clipboard decisions.

use vstd::prelude::*;
use vstd::string::{StrSliceExecFns, StringExecFns};

use crate::sys::push_char;

verus! {

/// Unicode `White_Space`, the property that `char::is_whitespace` tests.
pub open spec fn is_ws(c: char) -> bool {
    let u = c as u32;
    ||| 0x09 <= u <= 0x0d
    ||| u == 0x20
    ||| u == 0x85
    ||| u == 0xa0
    ||| u == 0x1680
    ||| 0x2000 <= u <= 0x200a
    ||| u == 0x2028
    ||| u == 0x2029
    ||| u == 0x202f
    ||| u == 0x205f
    ||| u == 0x3000
}

/// Whether `c` is white space in the sense of `char::is_whitespace`.
pub fn is_whitespace(c: char) -> (r: bool)
    ensures
        r == is_ws(c),
{
    let u = c as u32;
    (0x09 <= u && u <= 0x0d) || u == 0x20 || u == 0x85 || u == 0xa0 || u == 0x1680 || (0x2000
        <= u && u <= 0x200a) || u == 0x2028 || u == 0x2029 || u == 0x202f || u == 0x205f || u
        == 0x3000
}

/// True when every character is white space (what `s.trim().is_empty()` tests).
pub open spec fn blank(s: Seq<char>) -> bool {
    forall|i: int| 0 <= i < s.len() ==> is_ws(#[trigger] s[i])
}

proof fn lemma_blank_push(t: Seq<char>, c: char)
    ensures
        blank(t.push(c)) == (blank(t) && is_ws(c)),
{
    if blank(t) && is_ws(c) {
        assert forall|i: int| 0 <= i < t.push(c).len() implies is_ws(#[trigger] t.push(c)[i]) by {
            if i < t.len() {
                assert(t.push(c)[i] == t[i]);
            }
        }
    }
    if blank(t.push(c)) {
        assert(is_ws(t.push(c)[t.len() as int]));
        assert forall|i: int| 0 <= i < t.len() implies is_ws(#[trigger] t[i]) by {
            assert(t.push(c)[i] == t[i]);
        }
    }
}

/// Whether the string is empty or white space only (`s.trim().is_empty()`).
pub fn is_blank(s: &str) -> (r: bool)
    ensures
        r == blank(s@),
{
    broadcast use vstd::string::group_string_axioms;

    let mut all: bool = true;
    let chars = s.chars();
    for c in it: chars
        invariant
            it.seq() == s@,
            all == blank(s@.take(it.index())),
    {
        proof {
            lemma_blank_push(s@.take(it.index()), c);
        }
        assert(s@.take(it.index() + 1) == s@.take(it.index()).push(c));
        if !is_whitespace(c) {
            all = false;
        }
    }
    assert(s@.take(s@.len() as int) == s@);
    all
}


/// The words of `s`: the maximal runs of characters that are not white
/// space, in order (what `str::split_whitespace` yields).
pub open spec fn words(s: Seq<char>) -> Seq<Seq<char>>
    decreases s.len(),
{
    if s.len() == 0 {
        seq![]
    } else {
        let t = s.drop_last();
        let c = s.last();
        let prev = words(t);
        if is_ws(c) {
            prev
        } else if t.len() > 0 && !is_ws(t.last()) {
            prev.update(prev.len() - 1, prev.last().push(c))
        } else {
            prev.push(seq![c])
        }
    }
}

/// The words joined by single spaces (`join(" ")`).
pub open spec fn join_words(ws: Seq<Seq<char>>) -> Seq<char>
    decreases ws.len(),
{
    if ws.len() == 0 {
        seq![]
    } else if ws.len() == 1 {
        ws[0]
    } else {
        join_words(ws.drop_last()) + seq![' '] + ws.last()
    }
}

/// `s` with every run of white space collapsed into one space and white
/// space at both ends removed.
pub open spec fn collapse_ws(s: Seq<char>) -> Seq<char> {
    join_words(words(s))
}

/// The single-line preview of a text: collapsed, then cut to `max`
/// characters with an ellipsis when it is longer.
pub open spec fn clip_preview(s: Seq<char>, max: nat) -> Seq<char> {
    let c = collapse_ws(s);
    if c.len() > max {
        c.take(max as int).push('\u{2026}')
    } else {
        c
    }
}

proof fn lemma_words_nonempty(t: Seq<char>)
    requires
        t.len() > 0,
        !is_ws(t.last()),
    ensures
        words(t).len() > 0,
    decreases t.len(),
{
    let u = t.drop_last();
    if u.len() > 0 && !is_ws(u.last()) {
        lemma_words_nonempty(u);
    }
}

proof fn lemma_words_ws_free(t: Seq<char>)
    requires
        forall|i: int| 0 <= i < t.len() ==> is_ws(#[trigger] t[i]),
    ensures
        words(t).len() == 0,
    decreases t.len(),
{
    if t.len() > 0 {
        let u = t.drop_last();
        assert(is_ws(t[t.len() - 1]));
        assert forall|i: int| 0 <= i < u.len() implies is_ws(#[trigger] u[i]) by {
            assert(u[i] == t[i]);
        }
        lemma_words_ws_free(u);
    }
}

proof fn lemma_join_extend(ws: Seq<Seq<char>>, c: char)
    requires
        ws.len() > 0,
    ensures
        join_words(ws.update(ws.len() - 1, ws.last().push(c))) == join_words(ws).push(c),
{
    let us = ws.update(ws.len() - 1, ws.last().push(c));
    if ws.len() > 1 {
        assert(us.drop_last() == ws.drop_last());
    }
}

proof fn lemma_join_push(ws: Seq<Seq<char>>, w: Seq<char>)
    ensures
        ws.len() == 0 ==> join_words(ws.push(w)) == w,
        ws.len() > 0 ==> join_words(ws.push(w)) == join_words(ws) + seq![' '] + w,
{
    assert(ws.push(w).drop_last() == ws);
}

/// Collapses white space as `split_whitespace().collect::<Vec<_>>().join(" ")`.
pub fn collapse_whitespace(s: &str) -> (r: String)
    ensures
        r@ == collapse_ws(s@),
{
    broadcast use vstd::string::group_string_axioms;

    let mut out = String::new();
    let mut prev_word: bool = false;
    let mut seen: bool = false;
    let chars = s.chars();
    for c in it: chars
        invariant
            it.seq() == s@,
            out@ == join_words(words(s@.take(it.index()))),
            prev_word == (it.index() > 0 && !is_ws(s@[it.index() - 1])),
            seen == (words(s@.take(it.index())).len() > 0),
    {
        let ghost t = s@.take(it.index());
        let ghost ws = words(t);
        assert(s@.take(it.index() + 1) == t.push(c));
        assert(t.push(c).drop_last() == t);
        assert(t.len() > 0 ==> t.last() == s@[it.index() - 1]);
        if is_whitespace(c) {
            prev_word = false;
        } else {
            if prev_word {
                proof {
                    lemma_words_nonempty(t);
                    lemma_join_extend(ws, c);
                }
                push_char(&mut out, c);
            } else {
                proof {
                    lemma_join_push(ws, seq![c]);
                }
                if seen {
                    push_char(&mut out, ' ');
                }
                push_char(&mut out, c);
                assert(join_words(ws) + seq![' '] + seq![c] == join_words(ws).push(' ').push(c));
                assert(seq![c] == seq![].push(c));
            }
            prev_word = true;
            seen = true;
        }
    }
    assert(s@.take(s@.len() as int) == s@);
    out
}

/// The preview of a text (collapsed, and cut to `max_chars` characters
/// followed by an ellipsis when longer).
pub fn preview_text(s: &str, max_chars: usize) -> (r: String)
    ensures
        r@ == clip_preview(s@, max_chars as nat),
{
    let collapsed = collapse_whitespace(s);
    let n = collapsed.as_str().unicode_len();
    if n > max_chars {
        let t = collapsed.as_str().substring_char(0, max_chars);
        let mut r = String::from_str(t);
        push_char(&mut r, '\u{2026}');
        r
    } else {
        collapsed
    }
}


/// The lowercase hexadecimal digit for `d` (`0 <= d < 16`).
pub open spec fn hex_char(d: int) -> char {
    if d == 0 {
        '0'
    } else if d == 1 {
        '1'
    } else if d == 2 {
        '2'
    } else if d == 3 {
        '3'
    } else if d == 4 {
        '4'
    } else if d == 5 {
        '5'
    } else if d == 6 {
        '6'
    } else if d == 7 {
        '7'
    } else if d == 8 {
        '8'
    } else if d == 9 {
        '9'
    } else if d == 10 {
        'a'
    } else if d == 11 {
        'b'
    } else if d == 12 {
        'c'
    } else if d == 13 {
        'd'
    } else if d == 14 {
        'e'
    } else {
        'f'
    }
}

fn digit_char(d: u64) -> (c: char)
    requires
        d < 16,
    ensures
        c == hex_char(d as int),
{
    if d == 0 {
        '0'
    } else if d == 1 {
        '1'
    } else if d == 2 {
        '2'
    } else if d == 3 {
        '3'
    } else if d == 4 {
        '4'
    } else if d == 5 {
        '5'
    } else if d == 6 {
        '6'
    } else if d == 7 {
        '7'
    } else if d == 8 {
        '8'
    } else if d == 9 {
        '9'
    } else if d == 10 {
        'a'
    } else if d == 11 {
        'b'
    } else if d == 12 {
        'c'
    } else if d == 13 {
        'd'
    } else if d == 14 {
        'e'
    } else {
        'f'
    }
}

/// The decimal digits of `n`, most significant first, without leading zeros.
pub open spec fn decimal(n: nat) -> Seq<char>
    decreases n,
{
    if n < 10 {
        seq![hex_char(n as int)]
    } else {
        decimal(n / 10).push(hex_char((n % 10) as int))
    }
}

/// The last `width` lowercase hexadecimal digits of `n`, zero-padded.
pub open spec fn hex_fixed(n: nat, width: nat) -> Seq<char>
    decreases width,
{
    if width == 0 {
        seq![]
    } else {
        hex_fixed(n / 16, (width - 1) as nat).push(hex_char((n % 16) as int))
    }
}

/// Appends the decimal digits of `n` (as `format!("{n}")` writes them).
pub fn push_decimal(out: &mut String, n: u64)
    ensures
        final(out)@ == old(out)@ + decimal(n as nat),
    decreases n,
{
    if n >= 10 {
        push_decimal(out, n / 10);
    }
    let d = digit_char(n % 10);
    push_char(out, d);
    proof {
        if n < 10 {
            assert(decimal(n as nat) == seq![d]);
        }
    }
}

/// Appends the last `width` hexadecimal digits of `n`, zero-padded
/// (as `format!("{n:0width$x}")` writes a value below `16^width`).
pub fn push_hex(out: &mut String, n: u64, width: u64)
    ensures
        final(out)@ == old(out)@ + hex_fixed(n as nat, width as nat),
    decreases width,
{
    if width > 0 {
        push_hex(out, n / 16, width - 1);
        let d = digit_char(n % 16);
        push_char(out, d);
    }
}

/// Whether `p` is a prefix of `s`.
pub open spec fn has_prefix(s: Seq<char>, p: Seq<char>) -> bool {
    p.len() <= s.len() && s.take(p.len() as int) == p
}

/// `str::starts_with` for a string prefix.
pub fn starts_with(s: &str, prefix: &str) -> (r: bool)
    ensures
        r == has_prefix(s@, prefix@),
{
    let n = prefix.unicode_len();
    let m = s.unicode_len();
    if n > m {
        return false;
    }
    let mut i: usize = 0;
    while i < n
        invariant
            n == prefix@.len(),
            m == s@.len(),
            n <= m,
            i <= n,
            forall|j: int| 0 <= j < i ==> s@[j] == prefix@[j],
        decreases n - i,
    {
        if s.get_char(i) != prefix.get_char(i) {
            assert(s@.take(n as int)[i as int] != prefix@[i as int]);
            return false;
        }
        i = i + 1;
    }
    assert(s@.take(n as int) == prefix@);
    true
}


/// `str` equality.
pub fn str_eq(a: &str, b: &str) -> (r: bool)
    ensures
        r == (a@ == b@),
{
    let n = a.unicode_len();
    let m = b.unicode_len();
    if n != m {
        return false;
    }
    let r = starts_with(a, b);
    proof {
        assert(a@.take(n as int) == a@);
    }
    r
}


// ── Words ───────────────────────────────────────────────────────────────────

/// Whether a word starts at index `i` of `s`: a character other than the
/// space `' '` that opens the text or follows a space.
pub open spec fn word_starts_at(s: Seq<char>, i: int) -> bool {
    s[i] != ' ' && (i == 0 || s[i - 1] == ' ')
}

/// The number of words of `s`: maximal runs of characters other than the
/// space `' '`.
pub open spec fn word_count(s: Seq<char>) -> nat
    decreases s.len(),
{
    if s.len() == 0 {
        0
    } else {
        word_count(s.drop_last()) + if word_starts_at(s, s.len() - 1) {
            1nat
        } else {
            0nat
        }
    }
}

/// Counts the words of `s`, runs of characters other than the space.
pub fn count_words(s: &str) -> (r: usize)
    ensures
        r == word_count(s@),
{
    let n = s.unicode_len();
    let mut count: usize = 0;
    let mut i: usize = 0;
    while i < n
        invariant
            n == s@.len(),
            i <= n,
            count == word_count(s@.take(i as int)),
            count <= i,
        decreases n - i,
    {
        let ghost t = s@.take(i + 1);
        assert(t.drop_last() == s@.take(i as int));
        assert(t.last() == s@[i as int]);
        assert(i > 0 ==> t[i - 1] == s@[i - 1]);
        let c = s.get_char(i);
        if c != ' ' && (i == 0 || s.get_char(i - 1) == ' ') {
            count = count + 1;
        }
        i = i + 1;
    }
    assert(s@.take(n as int) == s@);
    count
}

} // verus!
