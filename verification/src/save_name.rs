//! The name under which the game lists a costume save: account name,
//! character name and, where the file name ends in a timestamp, the moment
//! that it stands for.

use chrono::NaiveDateTime;
use vstd::prelude::*;
use vstd::slice::slice_subrange;
use vstd::string::StringExecFns;
use vstd::utf8::encode_utf8;

use crate::text::trim_trailing_white_space;

verus! {

/// The Unix time of 2000-01-01T00:00:00Z, from which file names count their
/// seconds.
pub const JAN_1_2000_UNIX_TIME: i64 = 946684800;

/// The position of the last `byte` in `bytes`.
pub open spec fn last_index_of(bytes: Seq<u8>, byte: u8) -> Option<int>
    decreases bytes.len(),
{
    if bytes.len() == 0 {
        None
    } else if bytes.last() == byte {
        Some(bytes.len() - 1)
    } else {
        last_index_of(bytes.drop_last(), byte)
    }
}

/// A file name without its extension: what stands before the last dot, or
/// the whole name when it has no dot or only a leading one.
pub open spec fn file_stem(file_name: Seq<u8>) -> Seq<u8> {
    match last_index_of(file_name, 0x2E) {
        None => file_name,
        Some(dot) => if dot == 0 {
            file_name
        } else {
            file_name.take(dot)
        },
    }
}

/// What follows the last underscore of `stem`, or all of `stem` when it has
/// none.
pub open spec fn last_component(stem: Seq<u8>) -> Seq<u8> {
    match last_index_of(stem, 0x5F) {
        None => stem,
        Some(underscore) => stem.skip(underscore + 1),
    }
}

/// `byte` is an ASCII digit.
pub open spec fn is_digit(byte: u8) -> bool {
    0x30 <= byte <= 0x39
}

/// Every byte of `text` is an ASCII digit.
pub open spec fn all_digits(text: Seq<u8>) -> bool {
    forall|i: int| 0 <= i < text.len() ==> is_digit(#[trigger] text[i])
}

/// The number that the digits of `text` spell in base ten.
pub open spec fn digits_value(text: Seq<u8>) -> nat
    decreases text.len(),
{
    if text.len() == 0 {
        0
    } else {
        (digits_value(text.drop_last()) * 10 + (text.last() - 0x30)) as nat
    }
}

/// `text` without a leading sign.
pub open spec fn unsigned_part(text: Seq<u8>) -> Seq<u8> {
    if text.len() > 0 && (text[0] == 0x2B || text[0] == 0x2D) {
        text.skip(1)
    } else {
        text
    }
}

/// The number that `text` spells: an optional `+` or `-`, then one or more
/// digits and nothing else, with a value that a signed 64-bit number holds.
pub open spec fn parse_integer(text: Seq<u8>) -> Option<int> {
    let digits = unsigned_part(text);
    let value = if text.len() > 0 && text[0] == 0x2D {
        -(digits_value(digits) as int)
    } else {
        digits_value(digits) as int
    };
    if digits.len() == 0 || !all_digits(digits) {
        None
    } else if value < i64::MIN || value > i64::MAX {
        None
    } else {
        Some(value)
    }
}

/// The timestamp at the end of a file name: the last underscore-separated
/// component of the name without its extension, read as a number.
pub open spec fn j2000_timestamp(file_name: Seq<u8>) -> Option<int> {
    parse_integer(last_component(file_stem(file_name)))
}

/// The text that chrono gives for the moment `unix_seconds` after the Unix
/// epoch in the format `%Y-%m-%d %H:%M:%S`, where chrono can represent that
/// moment.
pub uninterp spec fn utc_datetime_text(unix_seconds: i64) -> Option<Seq<char>>;

/// The date and time that a file name's timestamp stands for, as text; empty
/// when the name ends in no timestamp or the moment cannot be represented.
pub open spec fn save_datetime(file_name: Seq<u8>) -> Seq<char> {
    match j2000_timestamp(file_name) {
        None => Seq::empty(),
        Some(j2000) => if j2000 + JAN_1_2000_UNIX_TIME > i64::MAX {
            Seq::empty()
        } else {
            match utc_datetime_text((j2000 + JAN_1_2000_UNIX_TIME) as i64) {
                None => Seq::empty(),
                Some(text) => text,
            }
        },
    }
}

/// The save name: account name, character name, a space and the date and
/// time, without white space at its end.
pub open spec fn save_name_text(
    account_name: Seq<char>,
    character_name: Seq<char>,
    datetime: Seq<char>,
) -> Seq<char> {
    trim_trailing_white_space(account_name + character_name + seq![' '] + datetime)
}

/// The digits of a longer text spell at least what a front part of them
/// spells.
proof fn lemma_digits_value_grows(text: Seq<u8>, front: int)
    requires
        0 <= front <= text.len(),
        all_digits(text),
    ensures
        digits_value(text.take(front)) <= digits_value(text),
    decreases text.len(),
{
    if front == text.len() {
        assert(text.take(front) =~= text);
    } else {
        assert(text.drop_last().take(front) =~= text.take(front));
        assert(is_digit(text[text.len() - 1]));
        lemma_digits_value_grows(text.drop_last(), front);
    }
}

/// Finds the last `byte` in `bytes`.
pub fn find_last(bytes: &[u8], byte: u8) -> (found: Option<usize>)
    ensures
        match found {
            Some(index) => last_index_of(bytes@, byte) == Some(index as int) && index
                < bytes@.len(),
            None => last_index_of(bytes@, byte) is None,
        },
{
    let mut end: usize = bytes.len();
    proof {
        assert(bytes@.take(end as int) =~= bytes@);
    }
    while end > 0
        invariant
            end <= bytes@.len(),
            last_index_of(bytes@, byte) == last_index_of(bytes@.take(end as int), byte),
        decreases end,
    {
        if bytes[end - 1] == byte {
            return Some(end - 1);
        }
        proof {
            assert(bytes@.take(end as int).drop_last() =~= bytes@.take(end - 1));
        }
        end -= 1;
    }
    None
}

/// Reads `text` as a signed 64-bit number in base ten.
pub fn read_integer(text: &[u8]) -> (number: Option<i64>)
    ensures
        match number {
            Some(value) => parse_integer(text@) == Some(value as int),
            None => parse_integer(text@) is None,
        },
{
    let negative: bool = text.len() > 0 && text[0] == 0x2D;
    let start: usize = if text.len() > 0 && (text[0] == 0x2B || text[0] == 0x2D) {
        1
    } else {
        0
    };
    let ghost digits = unsigned_part(text@);
    proof {
        assert(digits =~= text@.skip(start as int));
    }
    if text.len() == start {
        return None;
    }
    let limit: u64 = if negative {
        0x8000_0000_0000_0000
    } else {
        0x7FFF_FFFF_FFFF_FFFF
    };
    let mut magnitude: u64 = 0;
    let mut i: usize = start;
    while i < text.len()
        invariant
            start <= i <= text@.len(),
            start < text@.len(),
            digits == unsigned_part(text@),
            digits == text@.skip(start as int),
            negative == (text@.len() > 0 && text@[0] == 0x2D),
            limit == if negative {
                0x8000_0000_0000_0000u64
            } else {
                0x7FFF_FFFF_FFFF_FFFFu64
            },
            all_digits(digits.take(i - start)),
            magnitude == digits_value(digits.take(i - start)),
            magnitude <= limit,
        decreases text@.len() - i,
    {
        let byte: u8 = text[i];
        if byte < 0x30 || byte > 0x39 {
            proof {
                assert(digits[i - start] == byte);
            }
            return None;
        }
        let digit: u64 = (byte - 0x30) as u64;
        proof {
            let front = digits.take(i - start + 1);
            assert(front.drop_last() =~= digits.take(i - start));
            assert(front.last() == byte);
            assert(all_digits(front)) by {
                assert forall|k: int| 0 <= k < front.len() implies is_digit(#[trigger] front[k]) by {
                    if k < i - start {
                        assert(front[k] == digits.take(i - start)[k]);
                    }
                }
            }
        }
        if magnitude > (limit - digit) / 10 {
            proof {
                if all_digits(digits) {
                    lemma_digits_value_grows(digits, i - start + 1);
                }
            }
            return None;
        }
        magnitude = magnitude * 10 + digit;
        i += 1;
    }
    proof {
        assert(digits.take(i - start) =~= digits);
    }
    if negative {
        if magnitude == 0x8000_0000_0000_0000 {
            Some(i64::MIN)
        } else {
            Some(-(magnitude as i64))
        }
    } else {
        Some(magnitude as i64)
    }
}

/// Reads the timestamp at the end of a file name.
pub fn read_j2000_timestamp(file_name: &[u8]) -> (timestamp: Option<i64>)
    ensures
        match timestamp {
            Some(seconds) => j2000_timestamp(file_name@) == Some(seconds as int),
            None => j2000_timestamp(file_name@) is None,
        },
{
    let stem: &[u8] = match find_last(file_name, 0x2E) {
        None => file_name,
        Some(dot) => if dot == 0 {
            file_name
        } else {
            slice_subrange(file_name, 0, dot)
        },
    };
    let stem_len: usize = stem.len();
    let component: &[u8] = match find_last(stem, 0x5F) {
        None => stem,
        Some(underscore) => slice_subrange(stem, underscore + 1, stem_len),
    };
    read_integer(component)
}

/// `NaiveDateTime::from_timestamp_opt` with no nanoseconds, and, where it
/// gives a moment, `NaiveDateTime::format` with `%Y-%m-%d %H:%M:%S`. Nothing
/// is claimed of the text but that it depends on `unix_seconds` alone.
#[verifier::external_body]
#[allow(deprecated)]
fn utc_datetime_string(unix_seconds: i64) -> (text: Option<String>)
    ensures
        match text {
            Some(string) => utc_datetime_text(unix_seconds) == Some(string@),
            None => utc_datetime_text(unix_seconds) is None,
        },
{
    match NaiveDateTime::from_timestamp_opt(unix_seconds, 0) {
        Some(moment) => Some(moment.format("%Y-%m-%d %H:%M:%S").to_string()),
        None => None,
    }
}

/// Puts a save name together from its parts and trims it.
pub fn compose_save_name(account_name: &str, character_name: &str, datetime: &str) -> (name:
    String)
    ensures
        name@ == save_name_text(account_name@, character_name@, datetime@),
{
    let mut untrimmed: String = String::from_str(account_name);
    untrimmed.append(character_name);
    untrimmed.append(" ");
    untrimmed.append(datetime);
    proof {
        reveal_strlit(" ");
        assert(" "@ =~= seq![' ']);
    }
    String::from_str(untrimmed.as_str().trim_end())
}

/// The name that the game shows for the costume save in the file called
/// `file_name`.
pub fn to_simulated_save_name(file_name: &str, account_name: &str, character_name: &str) -> (name:
    String)
    ensures
        name@ == save_name_text(
            account_name@,
            character_name@,
            save_datetime(encode_utf8(file_name@)),
        ),
{
    let datetime: String = match read_j2000_timestamp(file_name.as_bytes()) {
        None => String::new(),
        Some(j2000) => match j2000.checked_add(JAN_1_2000_UNIX_TIME) {
            None => String::new(),
            Some(unix_seconds) => match utc_datetime_string(unix_seconds) {
                None => String::new(),
                Some(text) => text,
            },
        },
    };
    compose_save_name(account_name, character_name, datetime.as_str())
}

} // verus!
