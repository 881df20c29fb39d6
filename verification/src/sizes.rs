//! How many bytes encodings take.
use vstd::prelude::*;
use vstd::arithmetic::power::pow;
use vstd::utf8::encode_utf8;
use crate::collections::{items_encoded, list_encoded, Name};
use crate::delivery::{
    Append, AppendView, Event, EventView, RoomHead, RoomHeadView, WelcomeAttachment,
    WelcomeAttachmentView, WelcomeDelivery, WelcomeDeliveryView,
};
use crate::ids::{MessageId, RoomId, UserId};
use crate::varint::varint;
use crate::wire::Wire;

verus! {

/// A number below the power of 128 takes no more bytes than the exponent.
pub proof fn varint_size(value: nat, groups: nat)
    requires
        groups >= 1,
        value < pow(128, groups),
    ensures
        1 <= varint(value).len() <= groups,
    decreases groups,
{
    reveal(pow);
    if value >= 128 {
        assert(groups > 1) by {
            if groups == 1 {
                assert(pow(128, 1) == 128 * pow(128, 0));
                assert(pow(128, 0) == 1);
            }
        }
        assert(pow(128, groups) == 128 * pow(128, (groups - 1) as nat));
        varint_size(value / 128, (groups - 1) as nat);
    }
}

/// A 64-bit number takes at most ten bytes.
pub proof fn u64_size(value: u64)
    ensures
        1 <= varint(value as nat).len() <= 10,
{
    assert(pow(128, 10) == 0x400000000000000000) by {
        reveal_with_fuel(pow, 11);
    }
    varint_size(value as nat, 10);
}

/// A length below two million takes at most three bytes.
pub proof fn length_size(value: nat)
    requires
        value < 0x20_0000,
    ensures
        1 <= varint(value).len() <= 3,
{
    assert(pow(128, 3) == 0x20_0000) by {
        reveal_with_fuel(pow, 4);
    }
    varint_size(value, 3);
}

/// Bytes are encoded as they are.
pub proof fn bytes_encoded(bytes: Seq<u8>)
    ensures
        items_encoded::<u8>(bytes) == bytes,
    decreases bytes.len(),
{
    if bytes.len() == 0 {
        assert(items_encoded::<u8>(bytes) =~= bytes);
    } else {
        bytes_encoded(bytes.skip(1));
        assert(items_encoded::<u8>(bytes) =~= bytes);
    }
}

/// A body takes its bytes and at most three more.
pub proof fn body_size(bytes: Seq<u8>)
    requires
        bytes.len() < 0x20_0000,
    ensures
        bytes.len() < list_encoded::<u8>(bytes).len() <= bytes.len() + 3,
{
    bytes_encoded(bytes);
    length_size(bytes.len());
}

/// A text takes at most four bytes a character.
pub proof fn utf8_size(text: Seq<char>)
    ensures
        encode_utf8(text).len() <= 4 * text.len(),
    decreases text.len(),
{
    if text.len() > 0 {
        utf8_size(text.drop_first());
        vstd::utf8::char_is_scalar(text[0]);
    }
}

/// A room name takes at most 402 bytes.
pub proof fn name_size(name: Seq<char>)
    requires
        name.len() <= 100,
    ensures
        Name::encoded(name).len() <= 403,
        Name::bounded(name),
{
    utf8_size(name);
    length_size(encode_utf8(name).len());
}

proof fn id_sizes(room: RoomId, user: UserId, message: MessageId)
    ensures
        RoomId::encoded(room).len() == 16,
        UserId::encoded(user).len() == 16,
        MessageId::encoded(message).len() == 16,
{
    room.determined_by_bytes();
    user.determined_by_bytes();
    message.determined_by_bytes();
}

/// A welcome takes its body and at most 83 bytes more.
pub proof fn attachment_size(attachment: WelcomeAttachmentView)
    requires
        attachment.body.len() < 0x20_0000,
    ensures
        WelcomeAttachment::encoded(attachment).len() <= attachment.body.len() + 83,
{
    attachment.recipient.determined_by_bytes();
    attachment.signature.determined_by_bytes();
    body_size(attachment.body);
}

/// The bytes of a welcome, zero without one.
pub open spec fn attached(welcome: Option<WelcomeAttachmentView>) -> nat {
    match welcome {
        Some(attachment) => attachment.body.len(),
        None => 0,
    }
}

/// An operation takes its bodies and at most 124 bytes more.
pub proof fn operation_size(operation: AppendView)
    requires
        operation.body.len() < 0x20_0000,
        attached(operation.welcome) < 0x20_0000,
    ensures
        Append::encoded(operation).len() <= operation.body.len() + attached(operation.welcome) + 124,
{
    operation.room.determined_by_bytes();
    u64_size(operation.parent);
    u64_size(operation.epoch);
    length_size(operation.content_type.index() as nat);
    assert(varint(operation.content_type.index() as nat).len() == 1);
    body_size(operation.body);
    if let Some(attachment) = operation.welcome {
        attachment_size(attachment);
    }
}

/// An event takes its bodies and at most 156 bytes more.
pub proof fn event_size(event: EventView)
    requires
        event.operation.body.len() < 0x20_0000,
        attached(event.operation.welcome) < 0x20_0000,
    ensures
        Event::encoded(event).len() <= event.operation.body.len() + attached(
            event.operation.welcome,
        ) + 156,
{
    id_sizes(event.operation.room, event.sender, event.id);
    operation_size(event.operation);
}

/// A waiting welcome takes its name, its body and at most 151 bytes more.
pub proof fn delivery_size(delivery: WelcomeDeliveryView)
    requires
        delivery.room_name.len() <= 100,
        delivery.attachment.body.len() < 0x20_0000,
    ensures
        WelcomeDelivery::encoded(delivery).len() <= delivery.attachment.body.len() + 554,
{
    name_size(delivery.room_name);
    id_sizes(delivery.room, delivery.inviter, delivery.event);
    u64_size(delivery.cursor);
    u64_size(delivery.sequence);
    attachment_size(delivery.attachment);
}

/// An entry of a list of rooms takes at most 429 bytes.
pub proof fn room_head_size(head: RoomHeadView)
    requires
        head.name.len() <= 100,
    ensures
        RoomHead::encoded(head).len() <= 429,
{
    name_size(head.name);
    head.room.determined_by_bytes();
    u64_size(head.sequence);
}

} // verus!
