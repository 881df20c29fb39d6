//! What texts, frames and transcripts mean, in plain terms.
use vstd::prelude::*;
use crate::crypto::sha256;
use crate::delivery::EventView;
use crate::files::{ancestor_safe, owner_only, FileFacts};
use crate::frames::{frame_state, framed, FrameState};
use crate::ids::{parsed_id, MessageId, RoomId, UserId};
use crate::messages::RoomNameError;
use crate::protocol::{big_endian, normalized_name, parsed_fingerprint};
use crate::relay::metrics::{Metric, Metrics};
use crate::relay::settings::writes_number;
use crate::text::{
    decimal, hex_text, leading_white, parsed_hex, trimmed, without_trailing_white, whitespace,
};
use crate::transcripts::{event_data, receipt_id, welcome_data};

verus! {

/// Whether a character is white: a tab, a line feed or another control of that kind, a
/// space, the next line, or one of the spaces and separators of Unicode.
pub open spec fn is_white(c: char) -> bool {
    ||| '\u{9}' <= c <= '\u{d}'
    ||| c == ' '
    ||| c == '\u{85}'
    ||| c == '\u{a0}'
    ||| c == '\u{1680}'
    ||| '\u{2000}' <= c <= '\u{200a}'
    ||| c == '\u{2028}'
    ||| c == '\u{2029}'
    ||| c == '\u{202f}'
    ||| c == '\u{205f}'
    ||| c == '\u{3000}'
}

/// Whether a character is one of the two blocks of controls.
pub open spec fn is_control_character(c: char) -> bool {
    c <= '\u{1f}' || '\u{7f}' <= c <= '\u{9f}'
}

/// Whether a part is what is left of a text without the white characters around it.
pub open spec fn is_core(text: Seq<char>, part: Seq<char>, from: int, to: int) -> bool {
    &&& 0 <= from <= to <= text.len()
    &&& part == text.subrange(from, to)
    &&& forall|i: int| 0 <= i < from ==> is_white(#[trigger] text[i])
    &&& forall|i: int| to <= i < text.len() ==> is_white(#[trigger] text[i])
    &&& from < to ==> !is_white(text[from]) && !is_white(text[to - 1])
}

proof fn same_white(c: char)
    ensures
        whitespace(c) == is_white(c),
        crate::text::control(c) == is_control_character(c),
{
}

proof fn leading_counted(text: Seq<char>)
    ensures
        leading_white(text) <= text.len(),
        forall|i: int| 0 <= i < leading_white(text) ==> is_white(#[trigger] text[i]),
        leading_white(text) < text.len() ==> !is_white(text[leading_white(text) as int]),
    decreases text.len(),
{
    if text.len() > 0 {
        same_white(text[0]);
        if whitespace(text[0]) {
            let rest = text.skip(1);
            leading_counted(rest);
            assert forall|i: int| 0 <= i < leading_white(text) implies is_white(
                #[trigger] text[i],
            ) by {
                if i > 0 {
                    assert(text[i] == rest[i - 1]);
                }
            }
            if leading_white(rest) < rest.len() {
                assert(rest[leading_white(rest) as int] == text[leading_white(text) as int]);
            }
        }
    }
}

proof fn trailing_cut(text: Seq<char>) -> (to: int)
    ensures
        0 <= to <= text.len(),
        without_trailing_white(text) == text.take(to),
        forall|i: int| to <= i < text.len() ==> is_white(#[trigger] text[i]),
        to > 0 ==> !is_white(text[to - 1]),
    decreases text.len(),
{
    if text.len() > 0 {
        same_white(text.last());
        if whitespace(text.last()) {
            let fewer = text.drop_last();
            let to = trailing_cut(fewer);
            assert(fewer.take(to) =~= text.take(to));
            assert forall|i: int| to <= i < text.len() implies is_white(#[trigger] text[i]) by {
                if i < fewer.len() {
                    assert(fewer[i] == text[i]);
                }
            }
            to
        } else {
            assert(text.take(text.len() as int) =~= text);
            text.len() as int
        }
    } else {
        assert(text.take(0) =~= text);
        0
    }
}

/// Trimming a text leaves its core.
pub proof fn trimming(text: Seq<char>)
    ensures
        exists|from: int, to: int| #[trigger] is_core(text, trimmed(text), from, to),
{
    let from = leading_white(text) as int;
    leading_counted(text);
    let rest = text.skip(from);
    let cut = trailing_cut(rest);
    let to = from + cut;
    assert(rest.take(cut) =~= text.subrange(from, to));
    assert forall|i: int| to <= i < text.len() implies is_white(#[trigger] text[i]) by {
        assert(rest[i - from] == text[i]);
    }
    if from < to {
        assert(rest[cut - 1] == text[to - 1]);
    }
    assert(is_core(text, trimmed(text), from, to));
}

/// A room is named by the core of what is given: not empty, of a hundred characters at
/// most, and without a control character. Each fault is told as what it is, the first
/// of these where there are several.
pub proof fn naming_a_room(name: Seq<char>)
    ensures
        exists|from: int, to: int| #[trigger] is_core(name, trimmed(name), from, to),
        ({
            let core = trimmed(name);
            let clean = forall|i: int|
                0 <= i < core.len() ==> !is_control_character(#[trigger] core[i]);
            match normalized_name(name) {
                Ok(text) => text == core && 1 <= core.len() <= 100 && clean,
                Err(RoomNameError::Empty) => core.len() == 0,
                Err(RoomNameError::TooLong) => core.len() > 100,
                Err(RoomNameError::ControlCharacter) => 1 <= core.len() <= 100 && !clean,
            }
        }),
{
    trimming(name);
    let core = trimmed(name);
    assert forall|i: int| 0 <= i < core.len() implies crate::text::control(#[trigger] core[i])
        == is_control_character(core[i]) by {
        same_white(core[i]);
    }
}

/// What a hexadecimal digit is worth.
pub open spec fn digit_worth(c: char) -> int {
    if '0' <= c <= '9' {
        c as int - '0' as int
    } else if 'a' <= c <= 'f' {
        10 + (c as int - 'a' as int)
    } else if 'A' <= c <= 'F' {
        10 + (c as int - 'A' as int)
    } else {
        -1
    }
}

/// Whether two digits write a byte.
pub open spec fn two_digits(high: char, low: char, byte: u8) -> bool {
    &&& digit_worth(high) >= 0
    &&& digit_worth(low) >= 0
    &&& byte == 16 * digit_worth(high) + digit_worth(low)
}

/// Bytes are read from hexadecimal exactly where the text has two digits for each, of
/// either case, and as what the digits are worth.
pub proof fn reading_hexadecimal(text: Seq<char>, count: nat)
    ensures
        match parsed_hex(text, count, false) {
            Ok(bytes) => {
                &&& text.len() == 2 * count
                &&& bytes.len() == count
                &&& forall|i: int|
                    0 <= i < count ==> two_digits(text[2 * i], text[2 * i + 1], #[trigger] bytes[i])
            },
            Err(_) => text.len() != 2 * count || exists|i: int|
                0 <= i < text.len() && digit_worth(#[trigger] text[i]) < 0,
        },
{
    assert forall|i: int| 0 <= i < text.len() implies worth_is_value(#[trigger] text[i]) by {
        value_of_digit(text[i]);
    }
    match parsed_hex(text, count, false) {
        Ok(bytes) => {
            assert forall|i: int| 0 <= i < count implies two_digits(
                text[2 * i],
                text[2 * i + 1],
                #[trigger] bytes[i],
            ) by {
                assert(worth_is_value(text[i * 2]));
                assert(worth_is_value(text[i * 2 + 1]));
                assert(crate::text::hex_pair(text[i * 2], text[i * 2 + 1], false) is Some);
            }
        },
        Err(_) => {
            if text.len() == 2 * count && forall|i: int|
                0 <= i < text.len() ==> digit_worth(#[trigger] text[i]) >= 0 {
                assert(vstd::utf8::is_ascii_chars(text)) by {
                    assert forall|i: int| 0 <= i < text.len() implies (
                    #[trigger] text[i]) <= '\u{7f}' by {
                        assert(digit_worth(text[i]) >= 0);
                    }
                }
                assert forall|i: int| 0 <= i < count implies (#[trigger] crate::text::hex_pair(
                    text[i * 2],
                    text[i * 2 + 1],
                    false,
                )) is Some by {
                    assert(worth_is_value(text[i * 2]));
                    assert(worth_is_value(text[i * 2 + 1]));
                    assert(digit_worth(text[i * 2]) >= 0);
                    assert(digit_worth(text[i * 2 + 1]) >= 0);
                }
                assert(crate::text::hex_pairs_valid(text, count, false));
                assert(parsed_hex(text, count, false) is Ok);
            }
        },
    }
}

spec fn worth_is_value(c: char) -> bool {
    &&& digit_worth(c) < 16
    &&& match crate::text::hex_value(c) {
        Some(value) => digit_worth(c) == value && value >= 0,
        None => digit_worth(c) == -1,
    }
}

proof fn value_of_digit(c: char)
    ensures
        worth_is_value(c),
{
}

/// A fingerprint is read as the 32 bytes that the core of its text writes in hexadecimal.
pub proof fn reading_a_fingerprint(text: Seq<char>)
    ensures
        exists|from: int, to: int| #[trigger] is_core(text, trimmed(text), from, to),
        match parsed_fingerprint(text) {
            Ok(bytes) => bytes.len() == 32 && parsed_hex(trimmed(text), 32, false) == Ok::<
                Seq<u8>,
                crate::text::HexError,
            >(bytes),
            Err(_) => parsed_hex(trimmed(text), 32, false) is Err,
        },
{
    trimming(text);
}

/// A number is written in decimal as digits that are worth it, without a sign, and without
/// a leading zero unless it is zero.
pub proof fn writing_decimal(value: nat)
    ensures
        writes_number(decimal(value), value as int),
        crate::relay::settings::digits_only(decimal(value)),
        value > 0 ==> decimal(value)[0] != '0',
    decreases value,
{
    let text = decimal(value);
    if value < 10 {
        assert(text =~= seq![(48 + value) as char]);
        assert(text.drop_last() =~= Seq::<char>::empty());
        reveal_with_fuel(Seq::fold_left, 2);
        assert(crate::relay::settings::worth(text) == value);
    } else {
        let front = decimal(value / 10);
        writing_decimal(value / 10);
        assert(text.drop_last() =~= front);
        assert(front.len() > 0);
        assert(front[0] == text[0]);
        assert forall|i: int| 0 <= i < text.len() implies '0' <= (#[trigger] text[i]) <= '9' by {
            if i < front.len() {
                assert(front[i] == text[i]);
            }
        }
        assert(crate::relay::settings::worth(front) == value / 10) by {
            assert(front[0] != '+');
        }
        assert(crate::relay::settings::worth(text) == 10 * crate::relay::settings::worth(front) + (
        value % 10));
    }
}

/// A frame is the length of its payload in four bytes, the largest part first, and the
/// payload. Of what has arrived four bytes are wanted first, then what they announce,
/// unless that is more than a mebibyte; then the payload is there.
pub proof fn framing(payload: Seq<u8>, received: Seq<u8>)
    requires
        payload.len() <= 0xffff_ffff,
    ensures
        framed(payload).len() == payload.len() + 4,
        framed(payload).skip(4) == payload,
        framed(payload)[0] * 0x100_0000 + framed(payload)[1] * 0x1_0000 + framed(payload)[2] * 0x100
            + framed(payload)[3] == payload.len(),
        match frame_state(received) {
            FrameState::Wants(count) => if received.len() < 4 {
                count + received.len() == 4
            } else {
                announced(received) <= 1048576 && count > 0 && received.len() + count == 4
                    + announced(received)
            },
            FrameState::TooLarge(length) => received.len() >= 4 && length == announced(received)
                && length > 1048576,
            FrameState::Complete(whole) => received.len() >= 4 && announced(received) <= 1048576
                && whole == received.subrange(4, 4 + announced(received)) && received.len() >= 4
                + announced(received),
        },
{
    let length = payload.len();
    reveal_with_fuel(big_endian, 5);
    let header = big_endian(length, 4);
    crate::protocol::big_endian_len(length, 4);
    assert(header[0] == (length / 256 / 256 / 256 % 256) as u8);
    assert(header[1] == (length / 256 / 256 % 256) as u8);
    assert(header[2] == (length / 256 % 256) as u8);
    assert(header[3] == (length % 256) as u8);
    assert(forall|i: int| 0 <= i < 4 ==> framed(payload)[i] == header[i]);
    assert(framed(payload).skip(4) =~= payload);
}

/// The length that the first four bytes announce.
pub open spec fn announced(received: Seq<u8>) -> int {
    received[0] * 0x100_0000 + received[1] * 0x1_0000 + received[2] * 0x100 + received[3]
}

/// What an event is bound to: the text `GROTTO-EVENT-V9` and a zero, the room, the event and
/// its parent in eight bytes. What a welcome is signed over: the text `GROTTO-WELCOME-V9`
/// and a zero, the recipient, the room, the event, its position in eight bytes and the
/// digest of the body.
pub proof fn binding(
    room: RoomId,
    event: MessageId,
    parent: u64,
    recipient: UserId,
    sequence: u64,
    body: Seq<u8>,
)
    ensures
        event_data(room, event, parent) == seq![
            71u8,
            82,
            79,
            84,
            84,
            79,
            45,
            69,
            86,
            69,
            78,
            84,
            45,
            86,
            57,
            0,
        ] + room@ + event@ + big_endian(parent as nat, 8),
        welcome_data(recipient, room, event, sequence, body) == seq![
            71u8,
            82,
            79,
            84,
            84,
            79,
            45,
            87,
            69,
            76,
            67,
            79,
            77,
            69,
            45,
            86,
            57,
            0,
        ] + recipient@ + room@ + event@ + big_endian(sequence as nat, 8) + sha256(body),
{
}

/// The identifier of a receipt for one event or one welcome: the first half of the digest of
/// the text `GROTTO-RECEIPT-V9` and a zero, the user, the number of events in eight bytes
/// and their identifiers, and the number of welcomes in eight bytes and their cursors.
pub proof fn receipts_are_named(user: UserId, event: MessageId, cursor: u64)
    ensures
        ({
            let domain = seq![
                71u8,
                82,
                79,
                84,
                84,
                79,
                45,
                82,
                69,
                67,
                69,
                73,
                80,
                84,
                45,
                86,
                57,
                0,
            ];
            &&& receipt_id(user, seq![event], Seq::empty()) == MessageId::of(
                sha256(
                    domain + user@ + big_endian(1, 8) + event@ + big_endian(0, 8),
                ).take(16),
            )
            &&& receipt_id(user, Seq::empty(), seq![cursor]) == MessageId::of(
                sha256(
                    domain + user@ + big_endian(0, 8) + big_endian(1, 8) + big_endian(
                        cursor as nat,
                        8,
                    ),
                ).take(16),
            )
        }),
{
    let domain = crate::transcripts::receipt_domain();
    assert(seq![event].drop_last() =~= Seq::<MessageId>::empty());
    assert(seq![cursor].drop_last() =~= Seq::<u64>::empty());
    assert(seq![event].skip(1) =~= Seq::<MessageId>::empty());
    assert(seq![cursor].skip(1) =~= Seq::<u64>::empty());
    assert(crate::transcripts::ids_bytes(Seq::<MessageId>::empty()) =~= Seq::<u8>::empty());
    assert(crate::transcripts::cursors_bytes(Seq::<u64>::empty()) =~= Seq::<u8>::empty());
    assert(crate::transcripts::ids_bytes(seq![event]) =~= event@);
    assert(crate::transcripts::cursors_bytes(seq![cursor]) =~= big_endian(cursor as nat, 8));
    assert(crate::transcripts::receipt_data(user, seq![event], Seq::empty()) =~= domain + user@
        + big_endian(1, 8) + event@ + big_endian(0, 8));
    assert(crate::transcripts::receipt_data(user, Seq::empty(), seq![cursor]) =~= domain + user@
        + big_endian(0, 8) + big_endian(1, 8) + big_endian(cursor as nat, 8));
}

/// Bytes are written in hexadecimal as two digits each, the larger part first, in lower
/// case.
pub proof fn writing_hexadecimal(bytes: Seq<u8>)
    ensures
        hex_text(bytes).len() == 2 * bytes.len(),
        forall|i: int|
            0 <= i < bytes.len() ==> two_digits(
                hex_text(bytes)[2 * i],
                hex_text(bytes)[2 * i + 1],
                #[trigger] bytes[i],
            ),
        forall|i: int|
            0 <= i < hex_text(bytes).len() ==> !('A' <= (#[trigger] hex_text(bytes)[i]) <= 'Z'),
{
    let text = hex_text(bytes);
    assert forall|i: int| 0 <= i < bytes.len() implies two_digits(
        text[2 * i],
        text[2 * i + 1],
        #[trigger] bytes[i],
    ) by {
        let byte = bytes[i] as int;
        digit_is_worth(byte / 16);
        digit_is_worth(byte % 16);
        assert(text[2 * i] == crate::text::hex_digit(byte / 16));
        assert(text[2 * i + 1] == crate::text::hex_digit(byte % 16));
    }
    assert forall|i: int| 0 <= i < text.len() implies !('A' <= (#[trigger] text[i]) <= 'Z') by {
        let byte = bytes[i / 2] as int;
        digit_is_worth(byte / 16);
        digit_is_worth(byte % 16);
    }
}

proof fn digit_is_worth(value: int)
    requires
        0 <= value < 16,
    ensures
        digit_worth(crate::text::hex_digit(value)) == value,
        !('A' <= crate::text::hex_digit(value) <= 'Z'),
{
}

/// Whether two sequences are the same up to a place.
pub open spec fn same_up_to<A>(left: Seq<A>, right: Seq<A>, at: int) -> bool {
    &&& 0 <= at <= left.len()
    &&& at <= right.len()
    &&& forall|i: int| 0 <= i < at ==> (#[trigger] left[i]) == right[i]
}

/// Rooms come in the order of the first byte in which they differ.
pub proof fn ordering_rooms(left: RoomId, right: RoomId, at: int)
    requires
        same_up_to(left@, right@, at),
        at < left@.len(),
        left@[at] < right@[at],
    ensures
        crate::order::room_order(left) < crate::order::room_order(right),
{
    left.determined_by_bytes();
    right.determined_by_bytes();
    smaller_number(left@, right@, at);
}

proof fn smaller_number(left: Seq<u8>, right: Seq<u8>, at: int)
    requires
        left.len() == right.len(),
        same_up_to(left, right, at),
        at < left.len(),
        left[at] < right[at],
    ensures
        crate::order::prefix_number(left) < crate::order::prefix_number(right),
    decreases left.len(),
{
    if at == left.len() - 1 {
        assert(left.drop_last() =~= right.drop_last());
    } else {
        smaller_number(left.drop_last(), right.drop_last(), at);
    }
}

/// Texts come in the order of the first character in which they differ, and a text comes
/// before every longer one that begins with it.
pub proof fn ordering_texts(left: Seq<char>, right: Seq<char>, at: int)
    requires
        same_up_to(left, right, at),
        at < right.len(),
        at == left.len() || left[at] < right[at],
    ensures
        crate::order::text_before(left, right),
        !crate::order::text_before(right, left),
    decreases left.len(),
{
    crate::order::text_order(left, right, left);
    if at > 0 {
        let a = left.skip(1);
        let b = right.skip(1);
        assert(left[0] == right[0]);
        assert forall|i: int| 0 <= i < at - 1 implies (#[trigger] a[i]) == b[i] by {
            assert(left[i + 1] == right[i + 1]);
        }
        ordering_texts(a, b, at - 1);
    }
}

/// An identifier is read from a text as the sixteen bytes that the text writes in
/// hexadecimal, and from no other text.
pub proof fn reading_an_identifier(text: Seq<char>)
    ensures
        match parsed_id(text) {
            Ok(bytes) => text.len() == 32 && bytes.len() == 16 && forall|i: int|
                0 <= i < 16 ==> two_digits(text[2 * i], text[2 * i + 1], #[trigger] bytes[i]),
            Err(_) => text.len() != 32 || exists|i: int|
                0 <= i < text.len() && digit_worth(#[trigger] text[i]) < 0,
        },
{
    reading_hexadecimal(text, 16);
}

/// Only its owner can do anything with a file exactly where the user owns it and the six
/// lowest bits of its mode, those of the group and of everybody else, are not set. A
/// directory above one is safe exactly where neither the group nor everybody else may
/// write to it, or where it lets nobody remove what is not theirs.
pub proof fn guarding_files(facts: FileFacts, user: u32)
    ensures
        owner_only(facts, user) <==> facts.owner == user && facts.mode % 64 == 0,
        ancestor_safe(facts) <==> facts.is_dir && (((facts.mode / 16) % 2 == 0 && (facts.mode / 2)
            % 2 == 0) || (facts.mode / 512) % 2 == 1),
{
    let mode = facts.mode;
    assert((mode & 0o077 == 0) == (mode % 64 == 0)) by (bit_vector);
    assert((mode & 0o022 == 0) == ((mode / 16) % 2 == 0 && (mode / 2) % 2 == 0)) by (bit_vector);
    assert((mode & 0o1000 != 0) == ((mode / 512) % 2 == 1)) by (bit_vector);
}

/// The message that an event is kept as has the event's identifier, its room, the position
/// after its parent, its sender, its epoch, its kind and its body.
pub proof fn keeping_an_event(event: EventView)
    requires
        event.operation.parent < u64::MAX,
    ensures
        ({
            let message = crate::client::journal::event_envelope(event);
            &&& message.message_id == event.id
            &&& message.room_id == event.operation.room
            &&& message.sequence == event.operation.parent + 1
            &&& message.sender_id == event.sender
            &&& message.epoch == event.operation.epoch
            &&& message.content_type == event.operation.content_type
            &&& message.body == event.operation.body
        }),
{
}

/// Counting an event moves its own counter on by one and no other.
pub proof fn counting_events(metrics: Metrics, metric: Metric)
    requires
        metrics.queue_pressure < u64::MAX,
        metrics.timeouts < u64::MAX,
        metrics.quota_rejections < u64::MAX,
        metrics.commit_conflicts < u64::MAX,
        metrics.recovery_failures < u64::MAX,
    ensures
        ({
            let after = metrics.after(metric);
            &&& after.queue_pressure == metrics.queue_pressure + one_if(
                metric == Metric::QueuePressure,
            )
            &&& after.timeouts == metrics.timeouts + one_if(metric == Metric::Timeout)
            &&& after.quota_rejections == metrics.quota_rejections + one_if(
                metric == Metric::QuotaRejection,
            )
            &&& after.commit_conflicts == metrics.commit_conflicts + one_if(
                metric == Metric::CommitConflict,
            )
            &&& after.recovery_failures == metrics.recovery_failures + one_if(
                metric == Metric::RecoveryFailure,
            )
        }),
{
}

/// One where something holds, and otherwise zero.
pub open spec fn one_if(holds: bool) -> int {
    if holds {
        1
    } else {
        0
    }
}

} // verus!
