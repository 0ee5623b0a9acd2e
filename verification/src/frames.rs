//! Frames: where in a text the payloads stand.
//!
//! A frame is `@04`, then a run of hexadecimal digits, then `@`, where the
//! run ends in `01` or `02` and has at least one digit before that ending.
//! The payload is the run without its ending. A text is read from left to
//! right, and frames do not overlap.

use vstd::prelude::*;
use vstd::string::*;
use crate::hexcode::is_hex_digit;

verus! {

/// How many hexadecimal digits stand in `s` from position `i` on, up to the
/// first character that is none.
pub open spec fn hex_run(s: Seq<char>, i: int) -> int
    decreases s.len() - i,
{
    if 0 <= i < s.len() && is_hex_digit(s[i]) {
        1 + hex_run(s, i + 1)
    } else {
        0
    }
}

/// Whether a frame begins at position `i` of `s`.
pub open spec fn frame_at(s: Seq<char>, i: int) -> bool {
    let n = hex_run(s, i + 3);
    &&& 0 <= i
    &&& i + 3 + n < s.len()
    &&& s[i] == '@'
    &&& s[i + 1] == '0'
    &&& s[i + 2] == '4'
    &&& n >= 3
    &&& s[i + 3 + n] == '@'
    &&& s[i + 1 + n] == '0'
    &&& (s[i + 2 + n] == '1' || s[i + 2 + n] == '2')
}

/// The payload of the frame that begins at `i`.
pub open spec fn frame_payload(s: Seq<char>, i: int) -> Seq<char> {
    s.subrange(i + 3, i + 1 + hex_run(s, i + 3))
}

/// The position just behind the frame that begins at `i`.
pub open spec fn frame_end(s: Seq<char>, i: int) -> int {
    i + 4 + hex_run(s, i + 3)
}

/// The payloads of the frames of `s` that begin at `i` or later, in the
/// order in which they stand.
pub open spec fn frames_from(s: Seq<char>, i: int) -> Seq<Seq<char>>
    decreases s.len() - i,
{
    if i < 0 || i >= s.len() {
        Seq::empty()
    } else if frame_at(s, i) {
        seq![frame_payload(s, i)] + frames_from(s, frame_end(s, i))
    } else {
        frames_from(s, i + 1)
    }
}

/// The payloads of all frames of `s`.
pub open spec fn frames(s: Seq<char>) -> Seq<Seq<char>> {
    frames_from(s, 0)
}

/// What each string of `v` holds.
pub open spec fn texts_of(v: Seq<String>) -> Seq<Seq<char>> {
    Seq::new(v.len(), |k: int| v[k]@)
}

/// The characters of `text`, one by one.
pub fn chars_of(text: &str) -> (r: Vec<char>)
    ensures
        r@ == text@,
{
    let mut r: Vec<char> = Vec::new();
    let it = text.chars();
    for c in iter: it
        invariant
            r@ == iter.seq().take(iter.index()),
    {
        r.push(c);
    }
    r
}

/// Whether `c` is one of `0-9`, `a-f`, `A-F`.
pub fn hex_digit(c: char) -> (r: bool)
    ensures
        r == is_hex_digit(c),
{
    ('0' <= c && c <= '9') || ('a' <= c && c <= 'f') || ('A' <= c && c <= 'F')
}

/// The payloads of the frames of `text`, in the order in which they stand.
pub fn extract_and_clean_hex_strings(text: &str) -> (r: Vec<String>)
    ensures
        texts_of(r@) == frames(text@),
        forall|k: int|
            0 <= k < r@.len() ==> is_payload((#[trigger] r@[k])@) && r@[k]@.len() + 6
                <= text@.len(),
{
    let chars = chars_of(text);
    let len: usize = chars.len();
    let mut r: Vec<String> = Vec::new();
    let mut i: usize = 0;
    while i < len
        invariant
            chars@ == text@,
            len == chars@.len(),
            i <= len,
            texts_of(r@) + frames_from(text@, i as int) == frames(text@),
        decreases len - i,
    {
        let mut next: usize = i + 1;
        if len - i >= 3 && chars[i] == '@' && chars[i + 1] == '0' && chars[i + 2] == '4' {
            let start: usize = i + 3;
            let mut j: usize = start;
            while j < len && hex_digit(chars[j])
                invariant
                    chars@ == text@,
                    len == chars@.len(),
                    start <= j <= len,
                    hex_run(text@, start as int) == (j - start) + hex_run(text@, j as int),
                decreases len - j,
            {
                j = j + 1;
            }
            assert(hex_run(text@, start as int) == j - start);
            if j - start >= 3 && j < len && chars[j] == '@' && chars[j - 2] == '0' && (chars[j - 1]
                == '1' || chars[j - 1] == '2') {
                assert(frame_at(text@, i as int));
                let payload = text.substring_char(start, j - 2);
                assert(payload@ == frame_payload(text@, i as int));
                let ghost before = texts_of(r@);
                r.push(String::from_str(payload));
                assert(texts_of(r@) =~= before + seq![frame_payload(text@, i as int)]);
                next = j + 1;
                assert(next == frame_end(text@, i as int));
                assert(before + (seq![frame_payload(text@, i as int)] + frames_from(
                    text@,
                    next as int,
                )) =~= texts_of(r@) + frames_from(text@, next as int));
            } else {
                assert(!frame_at(text@, i as int));
            }
        } else {
            assert(!frame_at(text@, i as int));
        }
        i = next;
    }
    assert(frames_from(text@, i as int) =~= Seq::<Seq<char>>::empty());
    assert(texts_of(r@) + Seq::<Seq<char>>::empty() =~= texts_of(r@));
    proof {
        lemma_frames_are_payloads(text@, 0);
        assert forall|k: int| 0 <= k < r@.len() implies is_payload((#[trigger] r@[k])@)
            && r@[k]@.len() + 6 <= text@.len() by {
            assert(texts_of(r@)[k] == r@[k]@);
        }
    }
    r
}

/// Whether `s` holds no `@`, the character with which a frame begins.
pub open spec fn has_no_marker(s: Seq<char>) -> bool {
    forall|i: int| 0 <= i < s.len() ==> #[trigger] s[i] != '@'
}

/// Whether every character of `s` is a hexadecimal digit.
pub open spec fn all_hex(s: Seq<char>) -> bool {
    forall|i: int| 0 <= i < s.len() ==> is_hex_digit(#[trigger] s[i])
}

/// Whether `s` can be a payload: one or more hexadecimal digits.
pub open spec fn is_payload(s: Seq<char>) -> bool {
    s.len() >= 1 && all_hex(s)
}

/// The frame that carries `payload`, closed by `02@` if `second` and by
/// `01@` if not.
pub open spec fn framed(payload: Seq<char>, second: bool) -> Seq<char> {
    seq!['@', '0', '4'] + payload + seq!['0', if second { '2' } else { '1' }, '@']
}

/// A run of `n` digits that ends before a character which is none, or at
/// the end of the text, is a run of exactly `n`.
proof fn lemma_hex_run_exact(s: Seq<char>, i: int, n: int)
    requires
        0 <= i,
        0 <= n,
        i + n <= s.len(),
        forall|k: int| i <= k < i + n ==> is_hex_digit(#[trigger] s[k]),
        i + n == s.len() || !is_hex_digit(s[i + n]),
    ensures
        hex_run(s, i) == n,
    decreases n,
{
    if n > 0 {
        assert(is_hex_digit(s[i]));
        lemma_hex_run_exact(s, i + 1, n - 1);
    }
}

/// A run holds digits only and ends within the text.
proof fn lemma_hex_run_digits(s: Seq<char>, i: int)
    requires
        0 <= i,
    ensures
        hex_run(s, i) >= 0,
        hex_run(s, i) > 0 ==> i + hex_run(s, i) <= s.len(),
        forall|k: int| i <= k < i + hex_run(s, i) ==> is_hex_digit(#[trigger] s[k]),
    decreases s.len() - i,
{
    if i < s.len() && is_hex_digit(s[i]) {
        lemma_hex_run_digits(s, i + 1);
    }
}

/// What is found in a frame is a payload: one or more hexadecimal digits,
/// and shorter than the text by the six characters around it at least.
pub proof fn lemma_frames_are_payloads(s: Seq<char>, i: int)
    requires
        0 <= i,
    ensures
        forall|k: int|
            0 <= k < frames_from(s, i).len() ==> is_payload(#[trigger] frames_from(s, i)[k])
                && frames_from(s, i)[k].len() + 6 <= s.len(),
    decreases s.len() - i,
{
    if i < s.len() {
        if frame_at(s, i) {
            lemma_hex_run_digits(s, i + 3);
            let p = frame_payload(s, i);
            let rest = frames_from(s, frame_end(s, i));
            lemma_frames_are_payloads(s, frame_end(s, i));
            assert forall|k: int| 0 <= k < p.len() implies is_hex_digit(#[trigger] p[k]) by {
                assert(p[k] == s[i + 3 + k]);
            }
            assert forall|k: int| 0 <= k < frames_from(s, i).len() implies is_payload(
                #[trigger] frames_from(s, i)[k],
            ) && frames_from(s, i)[k].len() + 6 <= s.len() by {
                assert(frames_from(s, i) == seq![p] + rest);
                if k > 0 {
                    assert(frames_from(s, i)[k] == rest[k - 1]);
                } else {
                    assert(frames_from(s, i)[k] == p);
                    assert(p.len() == hex_run(s, i + 3) - 2);
                }
            }
        } else {
            lemma_frames_are_payloads(s, i + 1);
            assert(frames_from(s, i) == frames_from(s, i + 1));
        }
    } else {
        assert(frames_from(s, i).len() == 0);
    }
}

/// A run of digits in `rest` is the same run behind any text `a`, and no
/// run has a negative length.
proof fn lemma_hex_run_shift(a: Seq<char>, rest: Seq<char>, i: int)
    requires
        0 <= i,
    ensures
        hex_run(a + rest, a.len() + i) == hex_run(rest, i),
        hex_run(rest, i) >= 0,
    decreases rest.len() - i,
{
    if i < rest.len() {
        assert((a + rest)[a.len() + i] == rest[i]);
        lemma_hex_run_shift(a, rest, i + 1);
    }
}

/// A frame of `rest` is the same frame behind any text `a`.
proof fn lemma_frame_shift(a: Seq<char>, rest: Seq<char>, i: int)
    requires
        0 <= i,
    ensures
        frame_at(a + rest, a.len() + i) == frame_at(rest, i),
        frame_at(rest, i) ==> frame_payload(a + rest, a.len() + i) == frame_payload(rest, i),
        frame_end(a + rest, a.len() + i) == a.len() + frame_end(rest, i),
{
    lemma_hex_run_shift(a, rest, i + 3);
    let n = hex_run(rest, i + 3);
    assert(hex_run(a + rest, a.len() + i + 3) == n);
    if i + 3 + n < rest.len() {
        assert((a + rest)[a.len() + i] == rest[i]);
        assert((a + rest)[a.len() + i + 1] == rest[i + 1]);
        assert((a + rest)[a.len() + i + 2] == rest[i + 2]);
        assert((a + rest)[a.len() + i + 3 + n] == rest[i + 3 + n]);
        if n >= 3 {
            assert((a + rest)[a.len() + i + 1 + n] == rest[i + 1 + n]);
            assert((a + rest)[a.len() + i + 2 + n] == rest[i + 2 + n]);
            assert((a + rest).subrange(a.len() + i + 3, a.len() + i + 1 + n) =~= rest.subrange(
                i + 3,
                i + 1 + n,
            ));
        }
    }
}

/// The frames of a text do not depend on what stands before the place
/// from which they are looked for.
pub proof fn lemma_frames_shift(a: Seq<char>, rest: Seq<char>, i: int)
    requires
        0 <= i,
    ensures
        frames_from(a + rest, a.len() + i) == frames_from(rest, i),
    decreases rest.len() - i,
{
    if i < rest.len() {
        lemma_frame_shift(a, rest, i);
        if frame_at(rest, i) {
            lemma_frames_shift(a, rest, frame_end(rest, i));
        } else {
            lemma_frames_shift(a, rest, i + 1);
        }
    }
}

/// A stretch without `@` holds no frame and begins none.
pub proof fn lemma_skip_unmarked(s: Seq<char>, i: int, j: int)
    requires
        0 <= i <= j <= s.len(),
        forall|k: int| i <= k < j ==> #[trigger] s[k] != '@',
    ensures
        frames_from(s, i) == frames_from(s, j),
    decreases j - i,
{
    if i < j {
        lemma_skip_unmarked(s, i + 1, j);
    }
}

/// A text without `@` has no frame.
pub proof fn lemma_unmarked_text_has_no_frame(s: Seq<char>)
    requires
        has_no_marker(s),
    ensures
        frames(s) == Seq::<Seq<char>>::empty(),
{
    lemma_skip_unmarked(s, 0, s.len() as int);
}

/// A frame is found, whole and first: where a text begins with characters
/// other than `@`, then holds the frame of a payload of one or more
/// hexadecimal digits, its frames are that payload, as it was written and
/// whichever way the frame is closed, and then the frames of what follows.
pub proof fn lemma_leading_frame(
    before: Seq<char>,
    payload: Seq<char>,
    second: bool,
    rest: Seq<char>,
)
    requires
        has_no_marker(before),
        is_payload(payload),
    ensures
        frames(before + framed(payload, second) + rest) == seq![payload] + frames(rest),
{
    let f = framed(payload, second);
    let tail = f + rest;
    let n: int = (payload.len() + 2) as int;
    assert(f.len() == payload.len() + 6);
    assert forall|k: int| 3 <= k < 3 + n implies is_hex_digit(#[trigger] tail[k]) by {
        if k < 3 + payload.len() {
            assert(tail[k] == payload[k - 3]);
        }
    }
    assert(tail[3 + n] == '@');
    lemma_hex_run_exact(tail, 3, n);
    assert(frame_at(tail, 0));
    assert(frame_payload(tail, 0) =~= payload);
    assert(frame_end(tail, 0) == f.len());
    lemma_frames_shift(f, rest, 0);
    assert(frames(tail) == seq![payload] + frames(rest));
    let s = before + f + rest;
    assert(s =~= before + tail);
    assert forall|k: int| 0 <= k < before.len() implies #[trigger] s[k] != '@' by {
        assert(s[k] == before[k]);
    }
    lemma_skip_unmarked(s, 0, before.len() as int);
    lemma_frames_shift(before, tail, 0);
}

/// A frame alone gives back its payload, closed by `01@` or by `02@`.
pub proof fn lemma_framed_payload(payload: Seq<char>, second: bool)
    requires
        is_payload(payload),
    ensures
        frames(framed(payload, second)) == seq![payload],
{
    let none = Seq::<char>::empty();
    lemma_leading_frame(none, payload, second, none);
    assert(none + framed(payload, second) + none =~= framed(payload, second));
    assert(frames(none) =~= Seq::<Seq<char>>::empty());
    assert(seq![payload] + Seq::<Seq<char>>::empty() =~= seq![payload]);
}

} // verus!
