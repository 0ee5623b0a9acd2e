//! What the window holds between two events, and what each event does to
//! it. Time is a count of nanoseconds on a clock that never runs
//! backwards; whoever drives the state reads the clock.

use vstd::prelude::*;
use vstd::string::*;
use crate::frames::{chars_of, frames};
use crate::pipeline::{convert, converted, MAX_TEXT};

verus! {

/// How long a status line is shown, in nanoseconds.
pub const STATUS_LIFETIME: u64 = 3_000_000_000;

/// Whether `c` is white space, as Unicode's property `White_Space` has it.
pub open spec fn is_white_space(c: char) -> bool {
    ||| ('\u{9}' <= c && c <= '\u{d}')
    ||| c == ' '
    ||| c == '\u{85}'
    ||| c == '\u{a0}'
    ||| c == '\u{1680}'
    ||| ('\u{2000}' <= c && c <= '\u{200a}')
    ||| c == '\u{2028}'
    ||| c == '\u{2029}'
    ||| c == '\u{202f}'
    ||| c == '\u{205f}'
    ||| c == '\u{3000}'
}

/// Whether `s` holds nothing but white space.
pub open spec fn is_blank(s: Seq<char>) -> bool {
    forall|i: int| 0 <= i < s.len() ==> is_white_space(#[trigger] s[i])
}

/// Whether `c` is white space.
pub fn white_space(c: char) -> (r: bool)
    ensures
        r == is_white_space(c),
{
    ('\u{9}' <= c && c <= '\u{d}') || c == ' ' || c == '\u{85}' || c == '\u{a0}' || c
        == '\u{1680}' || ('\u{2000}' <= c && c <= '\u{200a}') || c == '\u{2028}' || c
        == '\u{2029}' || c == '\u{202f}' || c == '\u{205f}' || c == '\u{3000}'
}

/// Whether `text` is empty once the white space at its ends is taken off.
pub fn blank(text: &str) -> (r: bool)
    ensures
        r == is_blank(text@),
{
    let chars = chars_of(text);
    let mut i: usize = 0;
    while i < chars.len()
        invariant
            chars@ == text@,
            i <= chars@.len(),
            forall|j: int| 0 <= j < i ==> is_white_space(#[trigger] text@[j]),
        decreases chars@.len() - i,
    {
        if !white_space(chars[i]) {
            return false;
        }
        i = i + 1;
    }
    true
}

/// What the status line can say.
#[derive(Clone, Copy, Debug, PartialEq, Eq)]
pub enum Notice {
    /// Conversion was asked for with nothing to convert.
    EmptyInput,
    /// The input held no frame, or nothing that could be shown.
    InvalidInput,
    /// The input was converted.
    Converted,
    /// A copy was asked for with nothing to copy.
    EmptyOutput,
    /// The output is on the clipboard.
    Copied,
    /// The clipboard could not be opened or written.
    ClipboardUnavailable,
}

/// The words of a notice.
pub open spec fn notice_text(notice: Notice) -> Seq<char> {
    match notice {
        Notice::EmptyInput => "Ошибка: поле ввода пустое"@,
        Notice::InvalidInput => "Ошибка: некорректный ввод"@,
        Notice::Converted => "Конвертация выполнена"@,
        Notice::EmptyOutput => "Ошибка: вывод пустой"@,
        Notice::Copied => "Скопировано в буфер обмена"@,
        Notice::ClipboardUnavailable => "Ошибка: буфер обмена недоступен"@,
    }
}

impl Notice {
    /// The words of this notice.
    pub fn message(self) -> (r: &'static str)
        ensures
            r@ == notice_text(self),
    {
        match self {
            Notice::EmptyInput => "Ошибка: поле ввода пустое",
            Notice::InvalidInput => "Ошибка: некорректный ввод",
            Notice::Converted => "Конвертация выполнена",
            Notice::EmptyOutput => "Ошибка: вывод пустой",
            Notice::Copied => "Скопировано в буфер обмена",
            Notice::ClipboardUnavailable => "Ошибка: буфер обмена недоступен",
        }
    }
}

/// The state of the converter's window.
pub struct HexConverterApp {
    /// The text to convert.
    pub input: String,
    /// The last conversion's result.
    pub output: String,
    /// The status line; empty when nothing is shown.
    pub status: String,
    /// When the status line was set, while one is shown.
    pub status_time: Option<u64>,
}

/// Whether a status set at `set_at` has been shown for longer than
/// `STATUS_LIFETIME` at `now`.
pub open spec fn is_expired(set_at: u64, now: u64) -> bool {
    now - set_at > STATUS_LIFETIME
}

impl Default for HexConverterApp {
    fn default() -> (r: Self)
        ensures
            r.input@ == Seq::<char>::empty(),
            r.output@ == Seq::<char>::empty(),
            r.status@ == Seq::<char>::empty(),
            r.status_time is None,
    {
        HexConverterApp {
            input: String::new(),
            output: String::new(),
            status: String::new(),
            status_time: None,
        }
    }
}

impl HexConverterApp {
    /// Shows `message` on the status line, from `now` on.
    pub fn set_status(&mut self, message: &str, now: u64)
        ensures
            final(self).status@ == message@,
            final(self).status_time == Some(now),
            final(self).input == old(self).input,
            final(self).output == old(self).output,
    {
        self.status = String::from_str(message);
        self.status_time = Some(now);
    }

    /// Converts the input.
    pub fn process_input(&self) -> (r: String)
        requires
            self.input@.len() <= MAX_TEXT,
        ensures
            r@ == converted(self.input@),
    {
        convert(self.input.as_str())
    }

    /// The conversion was asked for. A blank input is refused and the
    /// output stays; else the output is the input's conversion, and the
    /// status says whether anything came of it.
    pub fn convert_clicked(&mut self, now: u64)
        requires
            old(self).input@.len() <= MAX_TEXT,
        ensures
            final(self).input == old(self).input,
            final(self).status_time == Some(now),
            is_blank(old(self).input@) ==> final(self).output == old(self).output && final(self).status@ == notice_text(Notice::EmptyInput),
            !is_blank(old(self).input@) ==> final(self).output@ == converted(old(self).input@),
            !is_blank(old(self).input@) && is_blank(converted(old(self).input@)) ==> final(self).status@ == notice_text(Notice::InvalidInput),
            !is_blank(old(self).input@) && !is_blank(converted(old(self).input@)) ==> final(self).status@ == notice_text(Notice::Converted),
            !is_blank(old(self).input@) && frames(old(self).input@).len() == 0 ==> final(self).output@ == Seq::<char>::empty() && final(self).status@ == notice_text(
                Notice::InvalidInput,
            ),
    {
        if blank(self.input.as_str()) {
            self.set_status(Notice::EmptyInput.message(), now);
        } else {
            self.output = self.process_input();
            if blank(self.output.as_str()) {
                self.set_status(Notice::InvalidInput.message(), now);
            } else {
                self.set_status(Notice::Converted.message(), now);
            }
        }
    }

    /// A copy was asked for. With a blank output nothing is to be written:
    /// the status says so and the result is `None`. Else the result is the
    /// text to put on the clipboard, and the state waits for
    /// `copy_finished`.
    pub fn copy_clicked(&mut self, now: u64) -> (r: Option<String>)
        ensures
            final(self).input == old(self).input,
            final(self).output == old(self).output,
            is_blank(old(self).output@) ==> r is None && final(self).status@ == notice_text(
                Notice::EmptyOutput,
            ) && final(self).status_time == Some(now),
            !is_blank(old(self).output@) ==> r is Some && r->0@ == old(self).output@ && final(self).status == old(self).status && final(self).status_time == old(self).status_time,
    {
        if blank(self.output.as_str()) {
            self.set_status(Notice::EmptyOutput.message(), now);
            None
        } else {
            Some(self.output.clone())
        }
    }

    /// The clipboard was written, or could not be: the status says which.
    pub fn copy_finished(&mut self, written: bool, now: u64)
        ensures
            final(self).input == old(self).input,
            final(self).output == old(self).output,
            final(self).status_time == Some(now),
            final(self).status@ == notice_text(
                if written {
                    Notice::Copied
                } else {
                    Notice::ClipboardUnavailable
                },
            ),
    {
        if written {
            self.set_status(Notice::Copied.message(), now);
        } else {
            self.set_status(Notice::ClipboardUnavailable.message(), now);
        }
    }

    /// Time has passed: a status that has been shown for longer than
    /// `STATUS_LIFETIME` is cleared, and nothing else changes.
    pub fn tick(&mut self, now: u64)
        ensures
            final(self).input == old(self).input,
            final(self).output == old(self).output,
            old(self).status_time is Some && is_expired(old(self).status_time->0, now) ==> final(self).status@ == Seq::<char>::empty() && final(self).status_time is None,
            !(old(self).status_time is Some && is_expired(old(self).status_time->0, now))
                ==> final(self).status == old(self).status && final(self).status_time == old(self).status_time,
    {
        if let Some(set_at) = self.status_time {
            if now > set_at && now - set_at > STATUS_LIFETIME {
                self.status = String::new();
                self.status_time = None;
            }
        }
    }
}

} // verus!
