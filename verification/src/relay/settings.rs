//! What the texts that configure a relay mean.
use vstd::prelude::*;
use crate::relay::limits::{configured_runtime, RuntimeTexts, StorageLimits};
use crate::relay::tables::{Defect, StorageError};
use crate::text::{decimal_value, parsed_number};

verus! {

/// Whether every character is one of the ten digits.
pub open spec fn digits_only(text: Seq<char>) -> bool {
    forall|i: int| 0 <= i < text.len() ==> '0' <= (#[trigger] text[i]) <= '9'
}

/// What digits are worth, the last one once, the one before it ten times, and so on.
pub open spec fn worth(digits: Seq<char>) -> int {
    digits.fold_left(0int, |sum: int, digit: char| 10 * sum + (digit as int - '0' as int))
}

/// Whether a text writes a number: one digit or more, behind one plus sign or none.
pub open spec fn writes_number(text: Seq<char>, number: int) -> bool {
    ||| text.len() > 0 && digits_only(text) && worth(text) == number
    ||| text.len() > 1 && text[0] == '+' && digits_only(text.skip(1)) && worth(text.skip(1))
        == number
}

proof fn code_of(c: char)
    ensures
        c as u32 == c as int,
{
}

proof fn digits_are_worth(digits: Seq<char>)
    ensures
        digits_only(digits) ==> decimal_value(digits) == Some(worth(digits) as nat) && worth(digits)
            >= 0,
        !digits_only(digits) ==> decimal_value(digits) is None,
    decreases digits.len(),
{
    if digits.len() > 0 {
        let fewer = digits.drop_last();
        digits_are_worth(fewer);
        assert(forall|i: int| 0 <= i < fewer.len() ==> #[trigger] fewer[i] == digits[i]);
        assert(digits[digits.len() - 1] == digits.last());
        if digits_only(digits) {
            assert(digits_only(fewer));
        } else if !digits_only(fewer) {
            assert(decimal_value(digits) is None);
        } else {
            let i = choose|i: int|
                0 <= i < digits.len() && !('0' <= (#[trigger] digits[i]) <= '9');
            if i < fewer.len() {
                assert('0' <= fewer[i] <= '9');
            }
            assert(digits[i] == digits.last());
            code_of(digits.last());
            assert(decimal_value(digits) is None);
        }
    }
}

/// A text is read as a number exactly where it writes one, and as the number that it
/// writes.
pub proof fn text_is_read_as_it_writes(text: Seq<char>, max: nat)
    ensures
        match parsed_number(text, max) {
            Some(number) => writes_number(text, number as int) && number <= max,
            None => forall|number: int| #[trigger] writes_number(text, number) ==> number > max,
        },
        forall|number: int| #[trigger]
            writes_number(text, number) && number <= max ==> parsed_number(text, max) == Some(
                number as nat,
            ),
{
    digits_are_worth(text);
    digits_are_worth(text.skip(1));
    if text.len() > 0 && text[0] == '+' {
        assert(!digits_only(text));
    }
}

/// Whether a limit is what its own text sets it to: the number that the text writes, or
/// the default without one.
pub open spec fn set_by(text: Option<Seq<char>>, default: int, value: int) -> bool {
    match text {
        Some(text) => writes_number(text, value),
        None => value == default,
    }
}

/// Whether a text can set a limit to no number up to the largest.
pub open spec fn sets_nothing(text: Option<Seq<char>>, max: int) -> bool {
    text matches Some(text) && forall|number: int| #[trigger]
        writes_number(text, number) ==> number > max
}

/// Each text sets its own storage limit and no other: where there is a result, the
/// limit for everything is what the first text writes or a gibibyte, that for a sender
/// what the second writes or a hundred mebibytes, that for a room what the third
/// writes or a hundred mebibytes, and the reserve what the fourth writes or 64
/// mebibytes. There is none exactly where some text writes no number of 64 bits.
pub proof fn storage_texts_set_their_limits(
    global: Option<Seq<char>>,
    sender: Option<Seq<char>>,
    room: Option<Seq<char>>,
    reserve: Option<Seq<char>>,
)
    ensures
        match StorageLimits::configured(global, sender, room, reserve) {
            Ok(limits) => {
                &&& set_by(global, 1073741824, limits.global as int)
                &&& set_by(sender, 104857600, limits.sender as int)
                &&& set_by(room, 104857600, limits.room as int)
                &&& set_by(reserve, 67108864, limits.reserve as int)
            },
            Err(error) => {
                &&& error == StorageError::InvalidStoredData(Defect::StorageLimit)
                &&& sets_nothing(global, u64::MAX as int) || sets_nothing(sender, u64::MAX as int)
                    || sets_nothing(room, u64::MAX as int) || sets_nothing(
                    reserve,
                    u64::MAX as int,
                )
            },
        },
{
    let max = u64::MAX as nat;
    if let Some(text) = global {
        text_is_read_as_it_writes(text, max);
    }
    if let Some(text) = sender {
        text_is_read_as_it_writes(text, max);
    }
    if let Some(text) = room {
        text_is_read_as_it_writes(text, max);
    }
    if let Some(text) = reserve {
        text_is_read_as_it_writes(text, max);
    }
}

/// Whether a count is what its own text sets it to: from one up to 32 bits.
pub open spec fn count_set_by(text: Option<String>, default: int, value: int) -> bool {
    set_by(text.deep_view(), default, value) && 1 <= value <= 0xffff_ffff
}

/// Whether a deadline is what its own text sets it to: from one second up to an hour.
pub open spec fn deadline_set_by(text: Option<String>, default: int, value: int) -> bool {
    set_by(text.deep_view(), default, value) && 1 <= value <= 3600
}

/// Whether a text sets a limit to no number within bounds.
pub open spec fn misset(text: Option<String>, low: int, high: int) -> bool {
    text.deep_view() matches Some(text) && forall|number: int| #[trigger]
        writes_number(text, number) ==> !(low <= number <= high)
}

/// Each text sets its own runtime limit and no other, and there is a result exactly
/// where every text that is given writes a number within the bounds of its limit.
pub proof fn runtime_texts_set_their_limits(texts: RuntimeTexts)
    ensures
        match configured_runtime(texts) {
            Ok(limits) => {
                &&& count_set_by(texts.connections, 128, limits.connections as int)
                &&& count_set_by(texts.handshakes, 16, limits.handshakes as int)
                &&& count_set_by(texts.handshakes_per_ip, 4, limits.handshakes_per_ip as int)
                &&& count_set_by(texts.database_queue, 128, limits.database_queue as int)
                &&& count_set_by(texts.requests_per_second, 20, limits.requests_per_second as int)
                &&& count_set_by(texts.request_burst, 40, limits.request_burst as int)
                &&& count_set_by(texts.payload_bytes, 67108864, limits.payload_bytes as int)
                &&& limits.payload_bytes >= 2097152
                &&& deadline_set_by(texts.handshake_seconds, 10, limits.handshake_seconds as int)
                &&& deadline_set_by(texts.frame_seconds, 15, limits.frame_seconds as int)
                &&& deadline_set_by(texts.write_seconds, 10, limits.write_seconds as int)
            },
            Err(_) => {
                ||| misset(texts.connections, 1, 0xffff_ffff)
                ||| misset(texts.handshakes, 1, 0xffff_ffff)
                ||| misset(texts.handshakes_per_ip, 1, 0xffff_ffff)
                ||| misset(texts.database_queue, 1, 0xffff_ffff)
                ||| misset(texts.requests_per_second, 1, 0xffff_ffff)
                ||| misset(texts.request_burst, 1, 0xffff_ffff)
                ||| misset(texts.payload_bytes, 2097152, 0xffff_ffff)
                ||| misset(texts.handshake_seconds, 1, 3600)
                ||| misset(texts.frame_seconds, 1, 3600)
                ||| misset(texts.write_seconds, 1, 3600)
            },
        },
{
    count_is_set(texts.connections, 128);
    count_is_set(texts.handshakes, 16);
    count_is_set(texts.handshakes_per_ip, 4);
    count_is_set(texts.database_queue, 128);
    count_is_set(texts.requests_per_second, 20);
    count_is_set(texts.request_burst, 40);
    count_is_set(texts.payload_bytes, 67108864);
    deadline_is_set(texts.handshake_seconds, 10);
    deadline_is_set(texts.frame_seconds, 15);
    deadline_is_set(texts.write_seconds, 10);
    if let Some(text) = texts.payload_bytes.deep_view() {
        text_is_read_as_it_writes(text, usize::MAX as nat);
    }
}

proof fn count_is_set(text: Option<String>, default: usize)
    requires
        1 <= default <= 0xffff_ffff,
    ensures
        match crate::relay::limits::configured_count(text.deep_view(), default) {
            Ok(value) => count_set_by(text, default as int, value as int),
            Err(_) => misset(text, 1, 0xffff_ffff),
        },
{
    if let Some(text) = text.deep_view() {
        text_is_read_as_it_writes(text, usize::MAX as nat);
    }
}

proof fn deadline_is_set(text: Option<String>, default: u64)
    requires
        1 <= default <= 3600,
    ensures
        match crate::relay::limits::configured_deadline(text.deep_view(), default) {
            Ok(value) => deadline_set_by(text, default as int, value as int),
            Err(_) => misset(text, 1, 3600),
        },
{
    if let Some(text) = text.deep_view() {
        text_is_read_as_it_writes(text, u64::MAX as nat);
    }
}

} // verus!
