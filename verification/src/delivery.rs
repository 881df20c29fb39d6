//! Delivery records: what a client asks of the relay, and what it answers.
use vstd::prelude::*;
use vstd::slice::slice_to_vec;
use crate::bytes::same_slices;
use crate::collections::{put_list, put_text, Limited, Name};
use crate::ids::{Ed25519SignatureBytes, MessageId, RoomId, UserId};
use crate::varint::WireError;
use crate::wire::Wire;

verus! {

/// The largest encoded message.
pub const MAX_PAYLOAD: usize = 768 * 1024;

/// The most records on one page of an answer.
pub const PAGE_SIZE: usize = 100;

/// The largest opaque group message.
pub const MAX_MLS_BLOB_BYTES: usize = 512 * 1024;

/// The largest key package.
pub const MAX_KEY_PACKAGE_BYTES: usize = 16 * 1024;

/// The most key packages in one publication.
pub const MAX_KEY_PACKAGES_PER_PUBLISH: usize = 64;

/// What kind of group message a body holds.
#[derive(Clone, Copy, Debug, PartialEq, Eq, Structural)]
pub enum MlsContentType {
    Application,
    Proposal,
    Commit,
}

impl DeepView for MlsContentType {
    type V = MlsContentType;

    open spec fn deep_view(&self) -> MlsContentType {
        *self
    }
}

impl MlsContentType {
    /// The number that stands for the kind.
    pub open spec fn index(self) -> u32 {
        match self {
            MlsContentType::Application => 0,
            MlsContentType::Proposal => 1,
            MlsContentType::Commit => 2,
        }
    }

    fn number(&self) -> (index: u32)
        ensures
            index == self.index(),
    {
        match self {
            MlsContentType::Application => 0,
            MlsContentType::Proposal => 1,
            MlsContentType::Commit => 2,
        }
    }
}

impl Wire for MlsContentType {
    open spec fn encoded(value: MlsContentType) -> Seq<u8> {
        u32::encoded(value.index())
    }

    open spec fn parsed(bytes: Seq<u8>) -> Result<(MlsContentType, nat), WireError> {
        match u32::parsed(bytes) {
            Ok((index, used)) => if index == 0 {
                Ok((MlsContentType::Application, used))
            } else if index == 1 {
                Ok((MlsContentType::Proposal, used))
            } else if index == 2 {
                Ok((MlsContentType::Commit, used))
            } else {
                Err(WireError::Rejected)
            },
            Err(error) => Err(error),
        }
    }

    open spec fn bounded(value: MlsContentType) -> bool {
        true
    }

    proof fn round_trip(value: MlsContentType, rest: Seq<u8>) {
        u32::round_trip(value.index(), rest);
    }

    proof fn parsed_within(bytes: Seq<u8>) {
        u32::parsed_within(bytes);
    }

    fn put(&self, out: &mut Vec<u8>) {
        self.number().put(out)
    }

    fn read<'a>(input: &'a [u8]) -> (result: Result<(Self, &'a [u8]), WireError>) {
        match u32::read(input) {
            Ok((index, rest)) => if index == 0 {
                Ok((MlsContentType::Application, rest))
            } else if index == 1 {
                Ok((MlsContentType::Proposal, rest))
            } else if index == 2 {
                Ok((MlsContentType::Commit, rest))
            } else {
                Err(WireError::Rejected)
            },
            Err(error) => Err(error),
        }
    }
}

/// A copy of some bytes.
pub fn copy_bytes(bytes: &Vec<u8>) -> (copy: Vec<u8>)
    ensures
        copy@ == bytes@,
        copy.deep_view() == bytes.deep_view(),
{
    let copy = slice_to_vec(bytes.as_slice());
    assert(copy.deep_view() =~= bytes.deep_view());
    copy
}

/// A value that can be copied out whole.
pub trait Copied: DeepView + Sized {
    fn copied(&self) -> (copy: Self)
        ensures
            copy.deep_view() == self.deep_view(),
    ;
}

impl Copied for u8 {
    fn copied(&self) -> (copy: Self) {
        *self
    }
}

impl Copied for u64 {
    fn copied(&self) -> (copy: Self) {
        *self
    }
}

impl Copied for MessageId {
    fn copied(&self) -> (copy: Self) {
        *self
    }
}

impl<T: Copied> Copied for Vec<T> {
    fn copied(&self) -> (copy: Self) {
        let mut copy: Vec<T> = Vec::new();
        let mut at: usize = 0;
        while at < self.len()
            invariant
                at <= self@.len(),
                copy@.len() == at,
                forall|i: int| 0 <= i < at ==> (#[trigger] copy@[i]).deep_view() == self@[i].deep_view(),
            decreases self.len() - at,
        {
            copy.push(self[at].copied());
            at += 1;
        }
        assert(copy.deep_view() =~= self.deep_view());
        copy
    }
}

/// A list of bytes is its own deep view.
pub proof fn bytes_deep_view(bytes: Vec<u8>)
    ensures
        bytes.deep_view() == bytes@,
{
    assert(bytes.deep_view() =~= bytes@);
}

/// A welcome for a new member, signed by the inviter.
#[derive(Debug, PartialEq, Eq)]
pub struct WelcomeAttachment {
    pub recipient: UserId,
    pub body: Vec<u8>,
    pub signature: Ed25519SignatureBytes,
}

/// What a [`WelcomeAttachment`] holds.
#[verifier::ext_equal]
pub struct WelcomeAttachmentView {
    pub recipient: UserId,
    pub body: Seq<u8>,
    pub signature: Ed25519SignatureBytes,
}

impl DeepView for WelcomeAttachment {
    type V = WelcomeAttachmentView;

    open spec fn deep_view(&self) -> WelcomeAttachmentView {
        WelcomeAttachmentView {
            recipient: self.recipient,
            body: self.body.deep_view(),
            signature: self.signature,
        }
    }
}

impl Clone for WelcomeAttachment {
    fn clone(&self) -> (copy: WelcomeAttachment)
        ensures
            copy.deep_view() == self.deep_view(),
    {
        WelcomeAttachment {
            recipient: self.recipient,
            body: copy_bytes(&self.body),
            signature: self.signature,
        }
    }
}

impl WelcomeAttachment {
    /// Whether two attachments hold the same.
    pub fn same(&self, other: &WelcomeAttachment) -> (same: bool)
        ensures
            same == (self.deep_view() == other.deep_view()),
    {
        proof {
            bytes_deep_view(self.body);
            bytes_deep_view(other.body);
        }
        self.recipient.same(&other.recipient) && same_slices(
            self.body.as_slice(),
            other.body.as_slice(),
        ) && self.signature.same(&other.signature)
    }
}

/// The fields of a [`WelcomeAttachment`] in the order of the wire.
pub type WelcomeAttachmentFormat = (
    UserId,
    (Limited<u8, MAX_MLS_BLOB_BYTES>, Ed25519SignatureBytes),
);

impl Wire for WelcomeAttachment {
    open spec fn encoded(value: WelcomeAttachmentView) -> Seq<u8> {
        WelcomeAttachmentFormat::encoded((value.recipient, (value.body, value.signature)))
    }

    open spec fn parsed(bytes: Seq<u8>) -> Result<(WelcomeAttachmentView, nat), WireError> {
        match WelcomeAttachmentFormat::parsed(bytes) {
            Ok(((recipient, (body, signature)), used)) => Ok(
                (WelcomeAttachmentView { recipient, body, signature }, used),
            ),
            Err(error) => Err(error),
        }
    }

    open spec fn bounded(value: WelcomeAttachmentView) -> bool {
        WelcomeAttachmentFormat::bounded((value.recipient, (value.body, value.signature)))
    }

    proof fn round_trip(value: WelcomeAttachmentView, rest: Seq<u8>) {
        WelcomeAttachmentFormat::round_trip((value.recipient, (value.body, value.signature)), rest);
    }

    proof fn parsed_within(bytes: Seq<u8>) {
        WelcomeAttachmentFormat::parsed_within(bytes);
    }

    fn put(&self, out: &mut Vec<u8>) {
        self.recipient.put(out);
        put_list(&self.body, out);
        self.signature.put(out);
        assert(out@ =~= old(out)@ + Self::encoded(self.deep_view()));
    }

    fn read<'a>(input: &'a [u8]) -> (result: Result<(Self, &'a [u8]), WireError>) {
        match WelcomeAttachmentFormat::read(input) {
            Ok(((recipient, (body, signature)), rest)) => Ok((
                WelcomeAttachment { recipient, body: body.0, signature },
                rest,
            )),
            Err(error) => Err(error),
        }
    }
}

/// An operation that extends a room, and the head it extends.
#[derive(Debug, PartialEq, Eq)]
pub struct Append {
    pub room: RoomId,
    pub parent: u64,
    pub epoch: u64,
    pub content_type: MlsContentType,
    pub body: Vec<u8>,
    pub welcome: Option<WelcomeAttachment>,
}

/// What a [`Append`] holds.
#[verifier::ext_equal]
pub struct AppendView {
    pub room: RoomId,
    pub parent: u64,
    pub epoch: u64,
    pub content_type: MlsContentType,
    pub body: Seq<u8>,
    pub welcome: Option<WelcomeAttachmentView>,
}

impl DeepView for Append {
    type V = AppendView;

    open spec fn deep_view(&self) -> AppendView {
        AppendView {
            room: self.room,
            parent: self.parent,
            epoch: self.epoch,
            content_type: self.content_type,
            body: self.body.deep_view(),
            welcome: self.welcome.deep_view(),
        }
    }
}

impl Clone for Append {
    fn clone(&self) -> (copy: Append)
        ensures
            copy.deep_view() == self.deep_view(),
    {
        Append {
            room: self.room,
            parent: self.parent,
            epoch: self.epoch,
            content_type: self.content_type,
            body: copy_bytes(&self.body),
            welcome: match &self.welcome {
                Some(attachment) => Some(attachment.clone()),
                None => None,
            },
        }
    }
}

impl Append {
    /// Whether two operations hold the same.
    pub fn same(&self, other: &Append) -> (same: bool)
        ensures
            same == (self.deep_view() == other.deep_view()),
    {
        proof {
            bytes_deep_view(self.body);
            bytes_deep_view(other.body);
        }
        let same_welcome = match (&self.welcome, &other.welcome) {
            (Some(ours), Some(theirs)) => ours.same(theirs),
            (None, None) => true,
            _ => false,
        };
        same_welcome && self.room.same(&other.room) && self.parent == other.parent && self.epoch
            == other.epoch && self.content_type == other.content_type && same_slices(
            self.body.as_slice(),
            other.body.as_slice(),
        )
    }
}

/// The fields of a [`Append`] in the order of the wire.
pub type AppendFormat = (
    RoomId,
    (u64, (u64, (MlsContentType, (Limited<u8, MAX_MLS_BLOB_BYTES>, Option<WelcomeAttachment>)))),
);

impl Wire for Append {
    open spec fn encoded(value: AppendView) -> Seq<u8> {
        AppendFormat::encoded(
            (value.room, (value.parent, (value.epoch, (value.content_type, (value.body, value.welcome))))),
        )
    }

    open spec fn parsed(bytes: Seq<u8>) -> Result<(AppendView, nat), WireError> {
        match AppendFormat::parsed(bytes) {
            Ok(((room, (parent, (epoch, (content_type, (body, welcome))))), used)) => Ok(
                (AppendView { room, parent, epoch, content_type, body, welcome }, used),
            ),
            Err(error) => Err(error),
        }
    }

    open spec fn bounded(value: AppendView) -> bool {
        AppendFormat::bounded(
            (value.room, (value.parent, (value.epoch, (value.content_type, (value.body, value.welcome))))),
        )
    }

    proof fn round_trip(value: AppendView, rest: Seq<u8>) {
        AppendFormat::round_trip(
            (value.room, (value.parent, (value.epoch, (value.content_type, (value.body, value.welcome))))),
            rest,
        );
    }

    proof fn parsed_within(bytes: Seq<u8>) {
        AppendFormat::parsed_within(bytes);
    }

    fn put(&self, out: &mut Vec<u8>) {
        self.room.put(out);
        self.parent.put(out);
        self.epoch.put(out);
        self.content_type.put(out);
        put_list(&self.body, out);
        self.welcome.put(out);
        assert(out@ =~= old(out)@ + Self::encoded(self.deep_view()));
    }

    fn read<'a>(input: &'a [u8]) -> (result: Result<(Self, &'a [u8]), WireError>) {
        match AppendFormat::read(input) {
            Ok(((room, (parent, (epoch, (content_type, (body, welcome))))), rest)) => Ok((
                Append { room, parent, epoch, content_type, body: body.0, welcome },
                rest,
            )),
            Err(error) => Err(error),
        }
    }
}

/// An operation that the relay accepted.
#[derive(Debug, PartialEq, Eq)]
pub struct Event {
    pub id: MessageId,
    pub sender: UserId,
    pub operation: Append,
}

/// What a [`Event`] holds.
#[verifier::ext_equal]
pub struct EventView {
    pub id: MessageId,
    pub sender: UserId,
    pub operation: AppendView,
}

impl DeepView for Event {
    type V = EventView;

    open spec fn deep_view(&self) -> EventView {
        EventView {
            id: self.id,
            sender: self.sender,
            operation: self.operation.deep_view(),
        }
    }
}

impl Clone for Event {
    fn clone(&self) -> (copy: Event)
        ensures
            copy.deep_view() == self.deep_view(),
    {
        Event {
            id: self.id,
            sender: self.sender,
            operation: self.operation.clone(),
        }
    }
}

impl Copied for Event {
    fn copied(&self) -> (copy: Self) {
        self.clone()
    }
}

/// The fields of a [`Event`] in the order of the wire.
pub type EventFormat = (MessageId, (UserId, Append));

impl Wire for Event {
    open spec fn encoded(value: EventView) -> Seq<u8> {
        EventFormat::encoded((value.id, (value.sender, value.operation)))
    }

    open spec fn parsed(bytes: Seq<u8>) -> Result<(EventView, nat), WireError> {
        match EventFormat::parsed(bytes) {
            Ok(((id, (sender, operation)), used)) => Ok(
                (EventView { id, sender, operation }, used),
            ),
            Err(error) => Err(error),
        }
    }

    open spec fn bounded(value: EventView) -> bool {
        EventFormat::bounded((value.id, (value.sender, value.operation)))
    }

    proof fn round_trip(value: EventView, rest: Seq<u8>) {
        EventFormat::round_trip((value.id, (value.sender, value.operation)), rest);
    }

    proof fn parsed_within(bytes: Seq<u8>) {
        EventFormat::parsed_within(bytes);
    }

    fn put(&self, out: &mut Vec<u8>) {
        self.id.put(out);
        self.sender.put(out);
        self.operation.put(out);
        assert(out@ =~= old(out)@ + Self::encoded(self.deep_view()));
    }

    fn read<'a>(input: &'a [u8]) -> (result: Result<(Self, &'a [u8]), WireError>) {
        match EventFormat::read(input) {
            Ok(((id, (sender, operation)), rest)) => Ok((
                Event { id, sender, operation },
                rest,
            )),
            Err(error) => Err(error),
        }
    }
}

/// A welcome on its way to the new member.
#[derive(Debug, PartialEq, Eq)]
pub struct WelcomeDelivery {
    pub room_name: String,
    pub cursor: u64,
    pub event: MessageId,
    pub room: RoomId,
    pub sequence: u64,
    pub inviter: UserId,
    pub attachment: WelcomeAttachment,
}

/// What a [`WelcomeDelivery`] holds.
#[verifier::ext_equal]
pub struct WelcomeDeliveryView {
    pub room_name: Seq<char>,
    pub cursor: u64,
    pub event: MessageId,
    pub room: RoomId,
    pub sequence: u64,
    pub inviter: UserId,
    pub attachment: WelcomeAttachmentView,
}

impl DeepView for WelcomeDelivery {
    type V = WelcomeDeliveryView;

    open spec fn deep_view(&self) -> WelcomeDeliveryView {
        WelcomeDeliveryView {
            room_name: self.room_name@,
            cursor: self.cursor,
            event: self.event,
            room: self.room,
            sequence: self.sequence,
            inviter: self.inviter,
            attachment: self.attachment.deep_view(),
        }
    }
}

impl Clone for WelcomeDelivery {
    fn clone(&self) -> (copy: WelcomeDelivery)
        ensures
            copy.deep_view() == self.deep_view(),
    {
        WelcomeDelivery {
            room_name: self.room_name.clone(),
            cursor: self.cursor,
            event: self.event,
            room: self.room,
            sequence: self.sequence,
            inviter: self.inviter,
            attachment: self.attachment.clone(),
        }
    }
}

impl Copied for WelcomeDelivery {
    fn copied(&self) -> (copy: Self) {
        self.clone()
    }
}

/// The fields of a [`WelcomeDelivery`] in the order of the wire.
pub type WelcomeDeliveryFormat = (
    Name,
    (u64, (MessageId, (RoomId, (u64, (UserId, WelcomeAttachment))))),
);

impl Wire for WelcomeDelivery {
    open spec fn encoded(value: WelcomeDeliveryView) -> Seq<u8> {
        WelcomeDeliveryFormat::encoded(
            (value.room_name, (value.cursor, (value.event, (value.room, (value.sequence, (value.inviter, value.attachment)))))),
        )
    }

    open spec fn parsed(bytes: Seq<u8>) -> Result<(WelcomeDeliveryView, nat), WireError> {
        match WelcomeDeliveryFormat::parsed(bytes) {
            Ok(((room_name, (cursor, (event, (room, (sequence, (inviter, attachment)))))), used)) => Ok(
                (WelcomeDeliveryView { room_name, cursor, event, room, sequence, inviter, attachment }, used),
            ),
            Err(error) => Err(error),
        }
    }

    open spec fn bounded(value: WelcomeDeliveryView) -> bool {
        WelcomeDeliveryFormat::bounded(
            (value.room_name, (value.cursor, (value.event, (value.room, (value.sequence, (value.inviter, value.attachment)))))),
        )
    }

    proof fn round_trip(value: WelcomeDeliveryView, rest: Seq<u8>) {
        WelcomeDeliveryFormat::round_trip(
            (value.room_name, (value.cursor, (value.event, (value.room, (value.sequence, (value.inviter, value.attachment)))))),
            rest,
        );
    }

    proof fn parsed_within(bytes: Seq<u8>) {
        WelcomeDeliveryFormat::parsed_within(bytes);
    }

    fn put(&self, out: &mut Vec<u8>) {
        put_text(&self.room_name, out);
        self.cursor.put(out);
        self.event.put(out);
        self.room.put(out);
        self.sequence.put(out);
        self.inviter.put(out);
        self.attachment.put(out);
        assert(out@ =~= old(out)@ + Self::encoded(self.deep_view()));
    }

    fn read<'a>(input: &'a [u8]) -> (result: Result<(Self, &'a [u8]), WireError>) {
        match WelcomeDeliveryFormat::read(input) {
            Ok(((room_name, (cursor, (event, (room, (sequence, (inviter, attachment)))))), rest)) => Ok((
                WelcomeDelivery {
                    room_name: room_name.0,
                    cursor,
                    event,
                    room,
                    sequence,
                    inviter,
                    attachment,
                },
                rest,
            )),
            Err(error) => Err(error),
        }
    }
}

/// The newest position of a room.
#[derive(Debug, PartialEq, Eq)]
pub struct RoomHead {
    pub room: RoomId,
    pub name: String,
    pub sequence: u64,
}

/// What a [`RoomHead`] holds.
#[verifier::ext_equal]
pub struct RoomHeadView {
    pub room: RoomId,
    pub name: Seq<char>,
    pub sequence: u64,
}

impl DeepView for RoomHead {
    type V = RoomHeadView;

    open spec fn deep_view(&self) -> RoomHeadView {
        RoomHeadView {
            room: self.room,
            name: self.name@,
            sequence: self.sequence,
        }
    }
}

impl Clone for RoomHead {
    fn clone(&self) -> (copy: RoomHead)
        ensures
            copy.deep_view() == self.deep_view(),
    {
        RoomHead {
            room: self.room,
            name: self.name.clone(),
            sequence: self.sequence,
        }
    }
}

impl Copied for RoomHead {
    fn copied(&self) -> (copy: Self) {
        self.clone()
    }
}

/// The fields of a [`RoomHead`] in the order of the wire.
pub type RoomHeadFormat = (RoomId, (Name, u64));

impl Wire for RoomHead {
    open spec fn encoded(value: RoomHeadView) -> Seq<u8> {
        RoomHeadFormat::encoded((value.room, (value.name, value.sequence)))
    }

    open spec fn parsed(bytes: Seq<u8>) -> Result<(RoomHeadView, nat), WireError> {
        match RoomHeadFormat::parsed(bytes) {
            Ok(((room, (name, sequence)), used)) => Ok(
                (RoomHeadView { room, name, sequence }, used),
            ),
            Err(error) => Err(error),
        }
    }

    open spec fn bounded(value: RoomHeadView) -> bool {
        RoomHeadFormat::bounded((value.room, (value.name, value.sequence)))
    }

    proof fn round_trip(value: RoomHeadView, rest: Seq<u8>) {
        RoomHeadFormat::round_trip((value.room, (value.name, value.sequence)), rest);
    }

    proof fn parsed_within(bytes: Seq<u8>) {
        RoomHeadFormat::parsed_within(bytes);
    }

    fn put(&self, out: &mut Vec<u8>) {
        self.room.put(out);
        put_text(&self.name, out);
        self.sequence.put(out);
        assert(out@ =~= old(out)@ + Self::encoded(self.deep_view()));
    }

    fn read<'a>(input: &'a [u8]) -> (result: Result<(Self, &'a [u8]), WireError>) {
        match RoomHeadFormat::read(input) {
            Ok(((room, (name, sequence)), rest)) => Ok((
                RoomHead { room, name: name.0, sequence },
                rest,
            )),
            Err(error) => Err(error),
        }
    }
}

/// An event as a client keeps it.
#[derive(Debug, PartialEq, Eq)]
pub struct StoredRoomMessage {
    pub message_id: MessageId,
    pub room_id: RoomId,
    pub sequence: u64,
    pub sender_id: UserId,
    /// The epoch that the sender was on.
    pub epoch: u64,
    pub content_type: MlsContentType,
    /// The group message, opaque to the relay.
    pub body: Vec<u8>,
}

/// What a [`StoredRoomMessage`] holds.
#[verifier::ext_equal]
pub struct StoredRoomMessageView {
    pub message_id: MessageId,
    pub room_id: RoomId,
    pub sequence: u64,
    pub sender_id: UserId,
    pub epoch: u64,
    pub content_type: MlsContentType,
    pub body: Seq<u8>,
}

impl DeepView for StoredRoomMessage {
    type V = StoredRoomMessageView;

    open spec fn deep_view(&self) -> StoredRoomMessageView {
        StoredRoomMessageView {
            message_id: self.message_id,
            room_id: self.room_id,
            sequence: self.sequence,
            sender_id: self.sender_id,
            epoch: self.epoch,
            content_type: self.content_type,
            body: self.body.deep_view(),
        }
    }
}

impl Clone for StoredRoomMessage {
    fn clone(&self) -> (copy: StoredRoomMessage)
        ensures
            copy.deep_view() == self.deep_view(),
    {
        StoredRoomMessage {
            message_id: self.message_id,
            room_id: self.room_id,
            sequence: self.sequence,
            sender_id: self.sender_id,
            epoch: self.epoch,
            content_type: self.content_type,
            body: copy_bytes(&self.body),
        }
    }
}

impl Event {
    /// The position that the event takes in its room.
    pub open spec fn position(view: EventView) -> Option<u64> {
        if view.operation.parent < u64::MAX {
            Some((view.operation.parent + 1) as u64)
        } else {
            None
        }
    }

    /// The position after the parent; none after the last.
    pub fn sequence(&self) -> (sequence: Option<u64>)
        ensures
            sequence == Event::position(self.deep_view()),
    {
        self.operation.parent.checked_add(1)
    }
}

} // verus!
