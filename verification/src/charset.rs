//! Reading bytes as text under the first character encoding that accepts
//! them.

use vstd::prelude::*;

verus! {

/// A character encoding under which payload bytes are read.
#[derive(Clone, Copy, Debug, PartialEq, Eq)]
pub enum Charset {
    /// GB18030, which has GB2312 and GBK as parts.
    Gb18030,
    /// UTF-8.
    Utf8,
    /// Windows-1251, for Cyrillic.
    Windows1251,
    /// Windows-1252, for Western Europe.
    Windows1252,
}

/// What reading bytes under one encoding gave.
pub struct Decoding {
    /// The text, with a replacement character wherever the bytes could not
    /// be read.
    pub text: String,
    /// Whether some bytes could not be read.
    pub malformed: bool,
}

/// The most bytes that are read as text in one piece. The decoder sizes
/// its buffer at a little over three times the input and gives up where
/// that does not fit `usize`; up to here it fits where `usize` has 32 bits
/// or more.
pub const MAX_BYTES: usize = 0x1000_0000;

/// The text that `encoding_rs` reads from `bytes` under `charset`, and
/// whether it met bytes that it could not read.
pub uninterp spec fn encoding_decode(charset: Charset, bytes: Seq<u8>) -> (Seq<char>, bool);

/// `encoding_rs::Encoding::decode` on the encoding that `charset` names.
/// The call looks for a byte order mark first and replaces what it cannot
/// read; what it returns depends on the encoding and the bytes alone, and
/// is known here only by name: the text, and the flag that tells whether
/// anything was replaced.
#[verifier::external_body]
fn encoding_rs_decode(charset: Charset, bytes: &[u8]) -> (r: (String, bool))
    requires
        bytes@.len() <= MAX_BYTES,
    ensures
        (r.0@, r.1) == encoding_decode(charset, bytes@),
{
    let encoding = match charset {
        Charset::Gb18030 => encoding_rs::GB18030,
        Charset::Utf8 => encoding_rs::UTF_8,
        Charset::Windows1251 => encoding_rs::WINDOWS_1251,
        Charset::Windows1252 => encoding_rs::WINDOWS_1252,
    };
    let (text, _, malformed) = encoding.decode(bytes);
    (text.into_owned(), malformed)
}

/// The encodings in the order in which they are tried.
pub open spec fn probe_order() -> Seq<Charset> {
    seq![Charset::Gb18030, Charset::Utf8, Charset::Windows1251, Charset::Windows1252]
}

/// The text of the first of `attempts`, from position `from` on, that is
/// not malformed.
pub open spec fn first_accepted(attempts: Seq<Decoding>, from: int) -> Option<Seq<char>>
    decreases attempts.len() - from,
{
    if from < 0 || from >= attempts.len() {
        None
    } else if !attempts[from].malformed {
        Some(attempts[from].text@)
    } else {
        first_accepted(attempts, from + 1)
    }
}

/// The text of `bytes` under the first encoding of `probe_order`, from
/// position `from` on, that reads all of them.
pub open spec fn probed_from(bytes: Seq<u8>, from: int) -> Option<Seq<char>>
    decreases probe_order().len() - from,
{
    if from < 0 || from >= probe_order().len() {
        None
    } else if !encoding_decode(probe_order()[from], bytes).1 {
        Some(encoding_decode(probe_order()[from], bytes).0)
    } else {
        probed_from(bytes, from + 1)
    }
}

/// The text of `bytes`: under GB18030 if that reads all of them, else
/// under UTF-8, else Windows-1251, else Windows-1252; `None` if none does.
pub open spec fn decoded_text(bytes: Seq<u8>) -> Option<Seq<char>> {
    probed_from(bytes, 0)
}

/// The four encodings, in the order in which they are tried.
pub fn candidates() -> (r: Vec<Charset>)
    ensures
        r@ == probe_order(),
{
    let mut r: Vec<Charset> = Vec::new();
    r.push(Charset::Gb18030);
    r.push(Charset::Utf8);
    r.push(Charset::Windows1251);
    r.push(Charset::Windows1252);
    assert(r@ =~= probe_order());
    r
}

/// Picks, of attempts made in order of preference, the text of the first
/// that is not malformed.
pub fn select_text(attempts: Vec<Decoding>) -> (r: Option<String>)
    ensures
        r is Some == first_accepted(attempts@, 0) is Some,
        r is Some ==> r->0@ == first_accepted(attempts@, 0)->0,
{
    let ghost all = attempts@;
    let mut found: Option<String> = None;
    for attempt in iter: attempts
        invariant
            iter.seq() == all,
            found is None ==> first_accepted(all, 0) == first_accepted(all, iter.index() as int),
            found is Some ==> first_accepted(all, 0) == Some(found->0@),
    {
        if found.is_none() && !attempt.malformed {
            found = Some(attempt.text);
        }
    }
    found
}

/// Reads `bytes` as text under each encoding and keeps the first reading
/// that is complete.
pub fn decode_bytes(bytes: &[u8]) -> (r: Option<String>)
    requires
        bytes@.len() <= MAX_BYTES,
    ensures
        r is Some == decoded_text(bytes@) is Some,
        r is Some ==> r->0@ == decoded_text(bytes@)->0,
{
    let order = candidates();
    let mut attempts: Vec<Decoding> = Vec::new();
    let mut k: usize = 0;
    while k < order.len()
        invariant
            order@ == probe_order(),
            bytes@.len() <= MAX_BYTES,
            k <= order.len(),
            attempts@.len() == k,
            forall|j: int|
                0 <= j < k ==> (#[trigger] attempts@[j].text@, attempts@[j].malformed)
                    == encoding_decode(probe_order()[j], bytes@),
        decreases order.len() - k,
    {
        let (text, malformed) = encoding_rs_decode(order[k], bytes);
        attempts.push(Decoding { text, malformed });
        k = k + 1;
    }
    proof {
        lemma_attempts_agree(attempts@, bytes@, 0);
    }
    select_text(attempts)
}

/// Attempts made under the encodings of `probe_order`, one each and in
/// that order, select what `probed_from` describes.
proof fn lemma_attempts_agree(attempts: Seq<Decoding>, bytes: Seq<u8>, from: int)
    requires
        0 <= from <= attempts.len(),
        attempts.len() == probe_order().len(),
        forall|j: int|
            0 <= j < attempts.len() ==> (#[trigger] attempts[j].text@, attempts[j].malformed)
                == encoding_decode(probe_order()[j], bytes),
    ensures
        first_accepted(attempts, from) == probed_from(bytes, from),
    decreases attempts.len() - from,
{
    if from < attempts.len() {
        assert((attempts[from].text@, attempts[from].malformed) == encoding_decode(
            probe_order()[from],
            bytes,
        ));
        lemma_attempts_agree(attempts, bytes, from + 1);
    }
}

/// An earlier encoding wins: where GB18030 does not read the bytes and
/// UTF-8 does, the text is the UTF-8 reading, whatever the encodings behind
/// it would have made of the bytes.
pub proof fn lemma_utf8_before_single_byte(bytes: Seq<u8>)
    requires
        encoding_decode(Charset::Gb18030, bytes).1,
        !encoding_decode(Charset::Utf8, bytes).1,
    ensures
        decoded_text(bytes) == Some(encoding_decode(Charset::Utf8, bytes).0),
{
    reveal_with_fuel(probed_from, 3);
}

/// The first attempt that is not malformed is the one selected, whatever
/// comes behind it.
pub proof fn lemma_earlier_attempt_wins(attempts: Seq<Decoding>, from: int, winner: int)
    requires
        0 <= from <= winner < attempts.len(),
        !attempts[winner].malformed,
        forall|j: int| from <= j < winner ==> attempts[j].malformed,
    ensures
        first_accepted(attempts, from) == Some(attempts[winner].text@),
    decreases winner - from,
{
    if from < winner {
        lemma_earlier_attempt_wins(attempts, from + 1, winner);
    }
}

} // verus!
