//! What a client does with the welcomes that invite it.
use vstd::prelude::*;
use crate::client::contacts::required_contact;
use crate::client::errors::StoreError;
use crate::client::journal::{
    behind_changes, journaled, plans, welcome_receipt, Engine, EngineError, Refusal,
};
use crate::client::store::{joined, one_change, room_upsert};
use crate::client::tables::{
    Arrival, ClientChange, ClientChangeView, ClientView, WelcomeInboxRowView, MAX_POSITION,
};
use crate::crypto::{signature_valid, verify_strict};
use crate::delivery::{bytes_deep_view, WelcomeDelivery, WelcomeDeliveryView};
use crate::ids::{MessageId, UserId};
use crate::protocol::{decode_message, decoded};
use crate::requests::Request;
use crate::transcripts::{acknowledgement_id, receipt_id, welcome_data, welcome_transcript};

verus! {

/// Whether a welcome waits to be joined.
pub open spec fn pending(welcomes: Map<u64, WelcomeInboxRowView>, cursor: u64) -> bool {
    welcomes.contains_key(cursor) && (welcomes[cursor].state == Arrival::Received
        || welcomes[cursor].state == Arrival::Blocked)
}

/// Whether a welcome is the first behind a cursor that waits to be joined.
pub open spec fn first_pending(
    welcomes: Map<u64, WelcomeInboxRowView>,
    after: u64,
    cursor: u64,
) -> bool {
    &&& pending(welcomes, cursor)
    &&& cursor > after
    &&& forall|other: u64|
        #![trigger welcomes.contains_key(other)]
        pending(welcomes, other) && other > after ==> cursor <= other
}

/// Whether a welcome is signed by a verified contact for this user.
pub open spec fn welcome_verified(
    view: ClientView,
    user: UserId,
    welcome: WelcomeDeliveryView,
) -> Result<
    (),
    EngineError,
> {
    if welcome.sequence == 0 || welcome.sequence > MAX_POSITION {
        Err(EngineError::Refused(Refusal::WelcomeBoundary))
    } else {
        match required_contact(view, welcome.inviter) {
            Err(error) => Err(EngineError::Store(error)),
            Ok(card) => if signature_valid(
                card.transport_key,
                welcome_data(
                    user,
                    welcome.room,
                    welcome.event,
                    welcome.sequence,
                    welcome.attachment.body,
                ),
                welcome.attachment.signature@,
            ) {
                Ok(())
            } else {
                Err(EngineError::Refused(Refusal::WelcomeSignature))
            },
        }
    }
}

/// What is written when a group was joined: the room starts at the position of the
/// welcome, and the welcome is confirmed.
pub open spec fn welcome_joining(
    view: ClientView,
    user: UserId,
    cursor: u64,
    welcome: WelcomeDeliveryView,
    had_group: bool,
) -> Result<Seq<ClientChangeView>, EngineError> {
    if had_group {
        Err(EngineError::Refused(Refusal::RoomExists))
    } else if view.cursors.contains_key(welcome.room) || welcome.sequence > MAX_POSITION {
        Err(EngineError::Store(StoreError::Database))
    } else {
        match room_upsert(welcome.room, welcome.room_name, "welcomed"@) {
            Err(error) => Err(EngineError::Store(error)),
            Ok(upsert) => behind_changes(
                seq![
                    ClientChangeView::Cursor { room: welcome.room, sequence: welcome.sequence },
                ] + upsert + seq![
                    ClientChangeView::WelcomeState { cursor, state: Arrival::Applied },
                ],
                journaled(
                    view.outbox,
                    receipt_id(user, Seq::empty(), seq![cursor]),
                    welcome_receipt(cursor),
                ),
            ),
        }
    }
}

/// What the next welcome asks for.
#[derive(Debug)]
pub enum WelcomePlan {
    /// There is none.
    Done,
    /// It is set aside until its signature can be verified.
    Block { cursor: u64, changes: Vec<ClientChange> },
    /// The group library joins with it.
    Join { cursor: u64, welcome: WelcomeDelivery },
}

/// What is written when a welcome is set aside.
pub open spec fn welcome_blocking(cursor: u64) -> Seq<ClientChangeView> {
    seq![ClientChangeView::WelcomeState { cursor, state: Arrival::Blocked }]
}

impl Engine {
    /// The first welcome behind a cursor that waits to be joined.
    fn next_welcome(&self, after: u64) -> (found: Option<(u64, &Vec<u8>)>)
        ensures
            match found {
                Some((cursor, record)) => first_pending(self.store@.welcomes, after, cursor)
                    && record@ == self.store@.welcomes[cursor].record,
                None => forall|other: u64|
                    #![trigger self.store@.welcomes.contains_key(other)]
                    !(pending(self.store@.welcomes, other) && other > after),
            },
    {
        let ghost welcomes = self.store@.welcomes;
        let count = self.store.tables.welcomes.len();
        let ghost keys = self.store.tables.welcomes.row_keys();
        let mut best: Option<(u64, &Vec<u8>)> = None;
        let mut at: usize = 0;
        while at < count
            invariant
                at <= count,
                count == keys.len(),
                welcomes == self.store@.welcomes,
                keys == self.store.tables.welcomes.row_keys(),
                match best {
                    Some((cursor, record)) => pending(welcomes, cursor) && cursor > after && record@
                        == welcomes[cursor].record && forall|i: int|
                        0 <= i < at && pending(welcomes, #[trigger] keys[i]) && keys[i] > after
                            ==> cursor <= keys[i],
                    None => forall|i: int|
                        0 <= i < at ==> !(pending(welcomes, #[trigger] keys[i]) && keys[i] > after),
                },
            decreases count - at,
        {
            let (cursor, row) = self.store.tables.welcomes.at(at);
            if (row.state == Arrival::Received || row.state == Arrival::Blocked) && *cursor > after {
                let better = match best {
                    Some((other, _)) => *cursor < other,
                    None => true,
                };
                if better {
                    best = Some((*cursor, &row.record));
                }
            }
            at += 1;
        }
        assert forall|other: u64| #[trigger] welcomes.contains_key(other) implies keys.contains(other) by {
        }
        proof {
            assert forall|other: u64|
                #![trigger welcomes.contains_key(other)]
                pending(welcomes, other) && other > after implies exists|i: int|
                0 <= i < keys.len() && #[trigger] keys[i] == other by {
                assert(keys.contains(other));
                assert(keys[keys.index_of(other)] == other);
            }
        }
        best
    }

    /// Whether a welcome is signed by a verified contact for this user.
    pub fn verify_welcome(&self, welcome: &WelcomeDelivery) -> (result: Result<(), EngineError>)
        ensures
            result == welcome_verified(self.store@, self.user, welcome.deep_view()),
    {
        if welcome.sequence == 0 || welcome.sequence > MAX_POSITION {
            return Err(EngineError::Refused(Refusal::WelcomeBoundary));
        }
        let card = match self.store.require_contact(welcome.inviter) {
            Ok(card) => card,
            Err(error) => return Err(EngineError::Store(error)),
        };
        proof {
            bytes_deep_view(welcome.attachment.body);
        }
        let transcript = welcome_transcript(
            self.user,
            welcome.room,
            welcome.event,
            welcome.sequence,
            welcome.attachment.body.as_slice(),
        );
        if verify_strict(
            &card.transport_key,
            transcript.as_slice(),
            welcome.attachment.signature.as_bytes(),
        ) {
            Ok(())
        } else {
            Err(EngineError::Refused(Refusal::WelcomeSignature))
        }
    }

    /// What the first welcome behind a cursor asks for.
    pub fn plan_welcome(&self, after: u64) -> (result: Result<WelcomePlan, EngineError>)
        ensures
            match result {
                Ok(WelcomePlan::Done) => forall|other: u64|
                    #![trigger self.store@.welcomes.contains_key(other)]
                    !(pending(self.store@.welcomes, other) && other > after),
                Ok(WelcomePlan::Block { cursor, changes }) => first_pending(
                    self.store@.welcomes,
                    after,
                    cursor,
                ) && changes.deep_view() == welcome_blocking(cursor) && decoded::<WelcomeDelivery>(
                    self.store@.welcomes[cursor].record,
                ) is Ok && welcome_verified(
                    self.store@,
                    self.user,
                    decoded::<WelcomeDelivery>(self.store@.welcomes[cursor].record)->Ok_0,
                ) is Err,
                Ok(WelcomePlan::Join { cursor, welcome }) => first_pending(
                    self.store@.welcomes,
                    after,
                    cursor,
                ) && decoded::<WelcomeDelivery>(self.store@.welcomes[cursor].record) == Ok::<
                    WelcomeDeliveryView,
                    crate::protocol::DecodeMessageError,
                >(welcome.deep_view()) && welcome_verified(
                    self.store@,
                    self.user,
                    welcome.deep_view(),
                ) is Ok,
                Err(error) => exists|cursor: u64| #[trigger]
                    first_pending(self.store@.welcomes, after, cursor) && (match decoded::<
                        WelcomeDelivery,
                    >(self.store@.welcomes[cursor].record) {
                        Ok(_) => false,
                        Err(fault) => error == EngineError::Decode(fault),
                    }),
            },
    {
        let (cursor, record) = match self.next_welcome(after) {
            Some(found) => found,
            None => return Ok(WelcomePlan::Done),
        };
        let welcome = match decode_message::<WelcomeDelivery>(record.as_slice()) {
            Ok(welcome) => welcome,
            Err(fault) => return Err(EngineError::Decode(fault)),
        };
        match self.verify_welcome(&welcome) {
            Ok(()) => Ok(WelcomePlan::Join { cursor, welcome }),
            Err(_) => Ok(WelcomePlan::Block { cursor, changes: self.block_welcome(cursor) }),
        }
    }

    /// What is written when a welcome is set aside.
    pub fn block_welcome(&self, cursor: u64) -> (changes: Vec<ClientChange>)
        ensures
            changes.deep_view() == welcome_blocking(cursor),
    {
        one_change(ClientChange::WelcomeState { cursor, state: Arrival::Blocked })
    }

    /// What is written when a group was joined with a welcome. `had_group` says
    /// whether the group was there before.
    pub fn join_welcome(&self, cursor: u64, welcome: &WelcomeDelivery, had_group: bool) -> (result:
        Result<Vec<ClientChange>, EngineError>)
        ensures
            plans(
                result,
                welcome_joining(self.store@, self.user, cursor, welcome.deep_view(), had_group),
            ),
    {
        if had_group {
            return Err(EngineError::Refused(Refusal::RoomExists));
        }
        if self.store.tables.cursors.contains(&welcome.room) || welcome.sequence > MAX_POSITION {
            return Err(EngineError::Store(StoreError::Database));
        }
        let upsert = match self.store.upsert_room(
            welcome.room,
            welcome.room_name.as_str(),
            "welcomed",
        ) {
            Ok(upsert) => upsert,
            Err(error) => return Err(EngineError::Store(error)),
        };
        let events: Vec<MessageId> = Vec::new();
        let mut welcomes: Vec<u64> = Vec::new();
        welcomes.push(cursor);
        assert(events@ =~= Seq::<MessageId>::empty());
        assert(welcomes@ =~= seq![cursor]);
        let id = acknowledgement_id(self.user, events.as_slice(), welcomes.as_slice());
        assert(events.deep_view() =~= Seq::<MessageId>::empty());
        assert(welcomes.deep_view() =~= seq![cursor]);
        let journal = match self.journal_now(None, id, Request::Acknowledge { events, welcomes }) {
            Ok(journal) => journal,
            Err(error) => return Err(error),
        };
        let start = one_change(
            ClientChange::Cursor { room: welcome.room, sequence: welcome.sequence },
        );
        let applied = one_change(ClientChange::WelcomeState { cursor, state: Arrival::Applied });
        Ok(joined(joined(joined(start, upsert), applied), journal))
    }
}

} // verus!
