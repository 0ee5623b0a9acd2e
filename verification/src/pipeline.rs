//! From a text to what is shown for it: each payload read as text, or a
//! line that says that it could not be read.

use vstd::prelude::*;
use vstd::string::*;
use crate::charset::{decode_bytes, decoded_text, MAX_BYTES};
use crate::frames::{
    extract_and_clean_hex_strings, framed, frames, has_no_marker, is_payload,
    lemma_leading_frame, lemma_unmarked_text_has_no_frame, texts_of,
};
use crate::hexcode::{decode_hex, hex_value, is_hex_text};

verus! {

/// The longest text that is converted, in characters: no payload in it
/// spells more than `MAX_BYTES` bytes.
pub const MAX_TEXT: usize = 0x2000_0000;

/// What is shown for a payload that could not be read: a fixed opening and
/// the payload itself.
pub open spec fn placeholder(payload: Seq<char>) -> Seq<char> {
    "Ошибка декодирования для: "@ + payload
}

/// What is shown for one payload: its bytes as text, where it spells bytes
/// and an encoding reads them; else the placeholder.
pub open spec fn payload_text(payload: Seq<char>) -> Seq<char> {
    if is_hex_text(payload) {
        match decoded_text(hex_value(payload)) {
            Some(text) => text,
            None => placeholder(payload),
        }
    } else {
        placeholder(payload)
    }
}

/// What is shown for payloads in a row: for each, in order, its text and
/// two line ends.
pub open spec fn rendered(payloads: Seq<Seq<char>>) -> Seq<char>
    decreases payloads.len(),
{
    if payloads.len() == 0 {
        Seq::empty()
    } else {
        rendered(payloads.drop_last()) + payload_text(payloads.last()) + "\n\n"@
    }
}

/// What is shown for a text: the rendering of its frames' payloads.
pub open spec fn converted(text: Seq<char>) -> Seq<char> {
    rendered(frames(text))
}

/// The placeholder for `hex_string`.
pub fn decode_failure(hex_string: &str) -> (r: String)
    ensures
        r@ == placeholder(hex_string@),
{
    String::from_str("Ошибка декодирования для: ").concat(hex_string)
}

/// Reads one payload as text; where it cannot be read, gives the
/// placeholder that names it.
pub fn hex_to_text(hex_string: &str) -> (r: String)
    requires
        hex_string@.len() <= 2 * MAX_BYTES,
    ensures
        r@ == payload_text(hex_string@),
{
    match decode_hex(hex_string) {
        Ok(bytes) => {
            match decode_bytes(bytes.as_slice()) {
                Some(text) => text,
                None => decode_failure(hex_string),
            }
        },
        Err(_) => decode_failure(hex_string),
    }
}

/// Converts a text: finds its frames, reads each payload and joins the
/// results, each followed by two line ends. A text without a frame gives
/// the empty string.
pub fn convert(input: &str) -> (r: String)
    requires
        input@.len() <= MAX_TEXT,
    ensures
        r@ == converted(input@),
{
    let payloads = extract_and_clean_hex_strings(input);
    let mut result = String::new();
    let mut k: usize = 0;
    while k < payloads.len()
        invariant
            k <= payloads@.len(),
            texts_of(payloads@) == frames(input@),
            input@.len() <= MAX_TEXT,
            forall|j: int|
                0 <= j < payloads@.len() ==> (#[trigger] payloads@[j])@.len() <= input@.len(),
            result@ == rendered(texts_of(payloads@).take(k as int)),
        decreases payloads@.len() - k,
    {
        let text = hex_to_text(payloads[k].as_str());
        proof {
            let done = texts_of(payloads@).take(k + 1);
            assert(done.drop_last() =~= texts_of(payloads@).take(k as int));
            assert(done.last() == payloads@[k as int]@);
        }
        result.append(text.as_str());
        result.append("\n\n");
        k = k + 1;
    }
    assert(texts_of(payloads@).take(k as int) =~= texts_of(payloads@));
    result
}

/// Payloads are rendered one after the other: the rendering of a row is
/// the rendering of its front followed by that of its back, so that the
/// output keeps the order of the frames.
pub proof fn lemma_rendered_in_order(front: Seq<Seq<char>>, back: Seq<Seq<char>>)
    ensures
        rendered(front + back) == rendered(front) + rendered(back),
    decreases back.len(),
{
    if back.len() == 0 {
        assert(front + back =~= front);
        assert(rendered(front) + rendered(back) =~= rendered(front));
    } else {
        lemma_rendered_in_order(front, back.drop_last());
        assert((front + back).drop_last() =~= front + back.drop_last());
        assert((front + back).last() == back.last());
        assert(rendered(front + back) =~= rendered(front) + rendered(back));
    }
}

/// A payload with an odd number of digits is shown as its placeholder, and
/// what stands before and behind it is rendered as if it were alone.
pub proof fn lemma_odd_payload_is_local(
    front: Seq<Seq<char>>,
    payload: Seq<char>,
    back: Seq<Seq<char>>,
)
    requires
        payload.len() % 2 == 1,
    ensures
        payload_text(payload) == placeholder(payload),
        rendered(front + seq![payload] + back) == rendered(front) + placeholder(payload) + "\n\n"@
            + rendered(back),
{
    lemma_rendered_in_order(front + seq![payload], back);
    lemma_rendered_in_order(front, seq![payload]);
    assert(!is_hex_text(payload));
    assert(seq![payload].drop_last() =~= Seq::<Seq<char>>::empty());
    assert(seq![payload].last() == payload);
    assert(rendered(Seq::<Seq<char>>::empty()) =~= Seq::<char>::empty());
    assert(rendered(seq![payload]) == rendered(seq![payload].drop_last()) + payload_text(
        seq![payload].last(),
    ) + "\n\n"@);
    assert(rendered(seq![payload]) =~= placeholder(payload) + "\n\n"@);
    assert(rendered(front) + (placeholder(payload) + "\n\n"@) =~= rendered(front) + placeholder(
        payload,
    ) + "\n\n"@);
}

/// A text without a frame converts to the empty string.
pub proof fn lemma_no_frame_no_output(text: Seq<char>)
    requires
        frames(text).len() == 0,
    ensures
        converted(text) == Seq::<char>::empty(),
{
}

/// A text without `@` converts to the empty string.
pub proof fn lemma_unmarked_text_converts_to_nothing(text: Seq<char>)
    requires
        has_no_marker(text),
    ensures
        converted(text) == Seq::<char>::empty(),
{
    lemma_unmarked_text_has_no_frame(text);
}

/// The output keeps the order of the frames: what is shown for a text
/// that holds a frame, with no `@` before it, is what is shown for that
/// frame's payload, two line ends, and then what is shown for the text
/// behind the frame.
pub proof fn lemma_output_follows_frames(
    before: Seq<char>,
    payload: Seq<char>,
    second: bool,
    rest: Seq<char>,
)
    requires
        has_no_marker(before),
        is_payload(payload),
    ensures
        converted(before + framed(payload, second) + rest) == payload_text(payload) + "\n\n"@
            + converted(rest),
{
    lemma_leading_frame(before, payload, second, rest);
    lemma_rendered_in_order(seq![payload], frames(rest));
    assert(seq![payload].drop_last() =~= Seq::<Seq<char>>::empty());
    assert(seq![payload].last() == payload);
    assert(rendered(Seq::<Seq<char>>::empty()) =~= Seq::<char>::empty());
    assert(rendered(seq![payload]) == rendered(seq![payload].drop_last()) + payload_text(
        seq![payload].last(),
    ) + "\n\n"@);
    assert(rendered(seq![payload]) =~= payload_text(payload) + "\n\n"@);
}

} // verus!
