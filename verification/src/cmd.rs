//! The operator's line commands and the messages they stand for.
//!
//! A line is cut into words at each single space. The first word names the
//! command; `pan` and `tilt` take the angle in whole degrees as the second
//! word, `start` and `stop` take nothing. Words after those are ignored.

use crate::format::ServerToDevice;
use vstd::prelude::*;
use vstd::slice::slice_subrange;
use vstd::string::StringSliceAdditionalSpecFns;

verus! {

/// The word `pan`.
pub const PAN: [u8; 3] = [0x70, 0x61, 0x6e];

/// The word `tilt`.
pub const TILT: [u8; 4] = [0x74, 0x69, 0x6c, 0x74];

/// The word `start`.
pub const START: [u8; 5] = [0x73, 0x74, 0x61, 0x72, 0x74];

/// The word `stop`.
pub const STOP: [u8; 4] = [0x73, 0x74, 0x6f, 0x70];

/// The space that separates words.
pub const SPACE: u8 = 0x20;

/// What to do with a line that the operator typed.
#[derive(Debug, PartialEq, Eq)]
pub enum Action {
    /// Send this command to the device.
    SendMessage(ServerToDevice),
    /// Tell the operator what went wrong.
    PrintErr(&'static str),
}

/// Index of the first space of `line` at or after `k`, or the length of
/// `line` if there is none.
pub open spec fn space_scan(line: Seq<u8>, k: int) -> int
    decreases line.len() - k,
{
    if k >= line.len() || line[k] == SPACE {
        k
    } else {
        space_scan(line, k + 1)
    }
}

/// The first word of `line`: everything before its first space.
pub open spec fn first_word(line: Seq<u8>) -> Seq<u8> {
    line.subrange(0, space_scan(line, 0))
}

/// The second word of `line`: what stands between its first space and the
/// next, if it has a first space.
pub open spec fn second_word(line: Seq<u8>) -> Option<Seq<u8>> {
    let end = space_scan(line, 0);
    if 0 <= end < line.len() {
        Some(line.subrange(end + 1, space_scan(line, end + 1)))
    } else {
        None
    }
}

/// Whether `b` is a decimal digit.
pub open spec fn is_digit(b: u8) -> bool {
    0x30 <= b <= 0x39
}

/// Whether `s` consists of decimal digits, at least one.
pub open spec fn is_number(s: Seq<u8>) -> bool {
    s.len() > 0 && forall|k: int| 0 <= k < s.len() ==> is_digit(#[trigger] s[k])
}

/// The number that the decimal digits `s` write.
pub open spec fn digits_value(s: Seq<u8>) -> int
    decreases s.len(),
{
    if s.len() == 0 {
        0
    } else {
        10 * digits_value(s.drop_last()) + (s.last() - 0x30)
    }
}

/// The angle that `word` writes: decimal digits, with `-` or `+` in front if
/// wanted, whose value a 32-bit integer holds. `None` for any other word.
pub open spec fn degrees_of(word: Seq<u8>) -> Option<i32> {
    let negative = word.len() > 0 && word[0] == 0x2d;
    let signed = word.len() > 0 && (word[0] == 0x2d || word[0] == 0x2b);
    let digits = if signed {
        word.skip(1)
    } else {
        word
    };
    let value = if negative {
        -digits_value(digits)
    } else {
        digits_value(digits)
    };
    if is_number(digits) && i32::MIN <= value <= i32::MAX {
        Some(value as i32)
    } else {
        None
    }
}

/// The angle that the second word of `line` writes, if it has a second word
/// and that word writes an angle.
pub open spec fn angle_argument(line: Seq<u8>) -> Option<i32> {
    match second_word(line) {
        Some(word) => degrees_of(word),
        None => None,
    }
}

/// The command that `line` stands for, if it stands for one.
pub open spec fn command_of(line: Seq<u8>) -> Option<ServerToDevice> {
    let first = first_word(line);
    if first == PAN@ && angle_argument(line) is Some {
        Some(
            ServerToDevice {
                pan_degrees: angle_argument(line),
                tilt_degrees: None,
                set_sampling_enabled: None,
            },
        )
    } else if first == TILT@ && angle_argument(line) is Some {
        Some(
            ServerToDevice {
                pan_degrees: None,
                tilt_degrees: angle_argument(line),
                set_sampling_enabled: None,
            },
        )
    } else if first == START@ {
        Some(
            ServerToDevice {
                pan_degrees: None,
                tilt_degrees: None,
                set_sampling_enabled: Some(true),
            },
        )
    } else if first == STOP@ {
        Some(
            ServerToDevice {
                pan_degrees: None,
                tilt_degrees: None,
                set_sampling_enabled: Some(false),
            },
        )
    } else {
        None
    }
}

/// What the search for a space finds.
pub proof fn lemma_space_scan(line: Seq<u8>, k: int)
    requires
        0 <= k <= line.len(),
    ensures
        k <= space_scan(line, k) <= line.len(),
        forall|j: int| k <= j < space_scan(line, k) ==> line[j] != SPACE,
        space_scan(line, k) < line.len() ==> line[space_scan(line, k)] == SPACE,
    decreases line.len() - k,
{
    if !(k >= line.len() || line[k] == SPACE) {
        lemma_space_scan(line, k + 1);
    }
}

/// The digits read so far never write more than all the digits do.
pub proof fn lemma_digits_value_grows(s: Seq<u8>, k: int)
    requires
        is_number(s),
        0 <= k <= s.len(),
    ensures
        0 <= digits_value(s.subrange(0, k)) <= digits_value(s),
    decreases s.len() - k,
{
    lemma_digits_value_nonnegative(s.subrange(0, k));
    if k < s.len() {
        let longer = s.subrange(0, k + 1);
        assert(longer.drop_last() =~= s.subrange(0, k));
        assert(is_digit(s[k]));
        assert(longer.last() == s[k]);
        lemma_digits_value_grows(s, k + 1);
    } else {
        assert(s.subrange(0, k) =~= s);
    }
}

/// Digits never write a negative number.
pub proof fn lemma_digits_value_nonnegative(s: Seq<u8>)
    requires
        forall|k: int| 0 <= k < s.len() ==> is_digit(#[trigger] s[k]),
    ensures
        0 <= digits_value(s),
    decreases s.len(),
{
    if s.len() > 0 {
        assert(is_digit(s[s.len() - 1]));
        lemma_digits_value_nonnegative(s.drop_last());
    }
}

/// Index of the first space of `line` at or after `from`, or its length.
fn word_end(line: &[u8], from: usize) -> (end: usize)
    requires
        from <= line@.len(),
    ensures
        end == space_scan(line@, from as int),
        from <= end <= line@.len(),
{
    let mut end: usize = from;
    proof {
        lemma_space_scan(line@, from as int);
    }
    while end < line.len() && line[end] != SPACE
        invariant
            from <= end <= line@.len(),
            space_scan(line@, end as int) == space_scan(line@, from as int),
        decreases line@.len() - end,
    {
        end = end + 1;
    }
    end
}

/// Whether `bytes` is exactly `word`.
fn is_word<const N: usize>(bytes: &[u8], word: &[u8; N]) -> (same: bool)
    ensures
        same == (bytes@ == word@),
{
    if bytes.len() != N {
        return false;
    }
    let mut k: usize = 0;
    while k < N
        invariant
            k <= N,
            bytes@.len() == N,
            forall|j: int| 0 <= j < k ==> bytes@[j] == word@[j],
        decreases N - k,
    {
        if bytes[k] != word[k] {
            return false;
        }
        k = k + 1;
    }
    assert(bytes@ =~= word@);
    true
}

/// Reads the angle that `word` writes.
fn parse_degrees(word: &[u8]) -> (degrees: Option<i32>)
    ensures
        degrees == degrees_of(word@),
{
    let len: usize = word.len();
    let negative: bool = len > 0 && word[0] == 0x2d;
    let signed: bool = len > 0 && (word[0] == 0x2d || word[0] == 0x2b);
    let digits: &[u8] = if signed {
        slice_subrange(word, 1, len)
    } else {
        word
    };
    assert(digits@ =~= if signed {
        word@.skip(1)
    } else {
        word@
    });
    let count: usize = digits.len();
    if count == 0 {
        return None;
    }
    let mut value: i64 = 0;
    let mut k: usize = 0;
    assert(digits@.subrange(0, 0) =~= Seq::<u8>::empty());
    while k < count
        invariant
            k <= count,
            count == digits@.len(),
            negative == (word@.len() > 0 && word@[0] == 0x2d),
            signed == (word@.len() > 0 && (word@[0] == 0x2d || word@[0] == 0x2b)),
            digits@ == (if signed {
                word@.skip(1)
            } else {
                word@
            }),
            forall|j: int| 0 <= j < k ==> is_digit(#[trigger] digits@[j]),
            value == digits_value(digits@.subrange(0, k as int)),
            0 <= value <= 0x8000_0000,
        decreases count - k,
    {
        let b: u8 = digits[k];
        if b < 0x30 || b > 0x39 {
            assert(!is_digit(digits@[k as int]));
            return None;
        }
        proof {
            let longer = digits@.subrange(0, k + 1);
            assert(longer.drop_last() =~= digits@.subrange(0, k as int));
            assert(longer.last() == b);
        }
        value = 10 * value + (b - 0x30) as i64;
        k = k + 1;
        if value > 0x8000_0000 {
            proof {
                if is_number(digits@) {
                    lemma_digits_value_grows(digits@, k as int);
                }
            }
            return None;
        }
    }
    assert(digits@.subrange(0, count as int) =~= digits@);
    if negative {
        Some((-value) as i32)
    } else if value <= 0x7fff_ffff {
        Some(value as i32)
    } else {
        None
    }
}

/// Reads the command that `line` stands for.
pub fn parse_command(line: &[u8]) -> (command: Option<ServerToDevice>)
    ensures
        command == command_of(line@),
{
    let len: usize = line.len();
    let end: usize = word_end(line, 0);
    let first: &[u8] = slice_subrange(line, 0, end);
    let angle: Option<i32> = if end < len {
        let second_end: usize = word_end(line, end + 1);
        parse_degrees(slice_subrange(line, end + 1, second_end))
    } else {
        None
    };
    assert(angle == angle_argument(line@));
    assert(first@ == first_word(line@));
    if is_word(first, &PAN) && angle.is_some() {
        Some(ServerToDevice { pan_degrees: angle, tilt_degrees: None, set_sampling_enabled: None })
    } else if is_word(first, &TILT) && angle.is_some() {
        Some(ServerToDevice { pan_degrees: None, tilt_degrees: angle, set_sampling_enabled: None })
    } else if is_word(first, &START) {
        Some(
            ServerToDevice {
                pan_degrees: None,
                tilt_degrees: None,
                set_sampling_enabled: Some(true),
            },
        )
    } else if is_word(first, &STOP) {
        Some(
            ServerToDevice {
                pan_degrees: None,
                tilt_degrees: None,
                set_sampling_enabled: Some(false),
            },
        )
    } else {
        None
    }
}

/// The reader of the operator's lines.
pub struct Cmd {}

impl Cmd {
    /// A reader of lines.
    pub fn new() -> Self {
        Cmd {  }
    }

    /// Turns a line into what to do with it: the command to send, or word
    /// that the line is no command.
    pub fn parse_line(&mut self, line: &str) -> (action: Action)
        ensures
            match command_of(line.spec_bytes()) {
                Some(command) => action == Action::SendMessage(command),
                None => action is PrintErr && action->PrintErr_0@ == "Error parsing command"@,
            },
    {
        match parse_command(line.as_bytes()) {
            Some(command) => Action::SendMessage(command),
            None => Action::PrintErr("Error parsing command"),
        }
    }
}

} // verus!
