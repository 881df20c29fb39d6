//! What a client does for its user.
use vstd::prelude::*;
use crate::client::contacts::{
    card_import, contacts_listed, first_unverified, own_card, parsed_card, required_contact,
    ContactCard,
};
use crate::client::errors::StoreError;
use crate::client::identity::ClientIdentity;
use crate::client::journal::{journaling, of_store, plans, Engine, EngineError, Refusal};
use crate::client::store::{
    one_change, page_of_history, rooms_in_order, within_budget, AuthenticatedMessage, DatabaseSize,
};
use crate::client::tables::{
    intent_known, ClientChange, ClientChangeView, ClientView, MAX_POSITION,
};
use crate::ids::{MessageId, RoomId, UserId};
use crate::requests::{Request, RequestView};

verus! {

/// What a user can ask for.
#[derive(Debug)]
pub enum UserCommand {
    /// Show the own card.
    ContactExport,
    /// Trust a card whose fingerprint came another way.
    ContactImport { card: String, fingerprint: String },
    ListContacts,
    ListRooms,
    FetchRoomHistory { room_id: RoomId, before_sequence: Option<u64> },
    CreateRoom(String),
    PublishKeyPackages(usize),
    AddToRoom { room_id: RoomId, user_id: UserId },
    SendRoomMessage { room_id: RoomId, body: Vec<u8> },
    SyncWelcomes,
    SetFetchGrant { requester: UserId, allowed: bool },
}

/// What a command leads to.
#[derive(Debug)]
pub enum CommandOutcome {
    Nothing,
    Card(ContactCard),
    Contacts(Vec<(UserId, String)>),
    Rooms(Vec<(RoomId, String, String)>),
    History(Vec<AuthenticatedMessage>),
    Write(Vec<ClientChange>),
    /// The group library makes so many key packages; they are published then.
    GeneratePackages(usize),
}

/// What is written for what the user wants done in a room: one thing at a time.
pub open spec fn intending(
    view: ClientView,
    budget: u64,
    room: RoomId,
    target: Option<UserId>,
    plaintext: Option<Seq<u8>>,
    has_group: bool,
    id: MessageId,
    size: DatabaseSize,
) -> Result<Seq<ClientChangeView>, EngineError> {
    let bytes = match plaintext {
        Some(plaintext) => plaintext.len(),
        None => 16,
    };
    if !within_budget(size, bytes, budget) {
        Err(EngineError::Store(StoreError::Quota))
    } else if !has_group {
        Err(EngineError::Refused(Refusal::NoGroup))
    } else if view.intents.contains_key(room) || intent_known(view.intents, id) {
        Err(EngineError::Store(StoreError::Database))
    } else {
        Ok(seq![ClientChangeView::Intent { room, id, target, plaintext }])
    }
}

/// Whether an outcome is what a plan writes.
pub open spec fn writes(
    result: Result<CommandOutcome, EngineError>,
    plan: Result<Seq<ClientChangeView>, EngineError>,
) -> bool {
    match plan {
        Ok(changes) => result matches Ok(CommandOutcome::Write(got)) && got.deep_view() == changes,
        Err(error) => result matches Err(got) && got == error,
    }
}

/// What a plan is where a contact is verified.
pub open spec fn for_contact(
    view: ClientView,
    user: UserId,
    plan: Result<Seq<ClientChangeView>, EngineError>,
) -> Result<Seq<ClientChangeView>, EngineError> {
    match required_contact(view, user) {
        Ok(_) => plan,
        Err(error) => Err(EngineError::Store(error)),
    }
}

/// What is written when a card is accepted that a text writes.
pub open spec fn text_import(
    view: ClientView,
    budget: u64,
    text: Seq<char>,
    fingerprint: Seq<char>,
    size: DatabaseSize,
) -> Result<Seq<ClientChangeView>, EngineError> {
    match parsed_card(text) {
        Ok(card) => of_store(card_import(view, budget, card, fingerprint, size)),
        Err(error) => Err(EngineError::Store(error)),
    }
}

fn written(result: Result<Vec<ClientChange>, EngineError>) -> (outcome: Result<
    CommandOutcome,
    EngineError,
>)
    ensures
        match result {
            Ok(changes) => outcome == Ok::<CommandOutcome, EngineError>(
                CommandOutcome::Write(changes),
            ),
            Err(error) => outcome == Err::<CommandOutcome, EngineError>(error),
        },
{
    match result {
        Ok(changes) => Ok(CommandOutcome::Write(changes)),
        Err(error) => Err(error),
    }
}

impl Engine {
    /// What is written for what the user wants done in a room. `id` is a fresh
    /// identifier for it.
    pub fn intent(
        &self,
        room: RoomId,
        target: Option<UserId>,
        plaintext: Option<Vec<u8>>,
        has_group: bool,
        id: MessageId,
        size: DatabaseSize,
    ) -> (result: Result<Vec<ClientChange>, EngineError>)
        ensures
            plans(
                result,
                intending(
                    self.store@,
                    self.store.budget(),
                    room,
                    target,
                    plaintext.deep_view(),
                    has_group,
                    id,
                    size,
                ),
            ),
    {
        let bytes: usize = match &plaintext {
            Some(plaintext) => plaintext.len(),
            None => 16,
        };
        match self.store.admit_new_data(bytes, size) {
            Ok(()) => {},
            Err(error) => return Err(EngineError::Store(error)),
        }
        if !has_group {
            return Err(EngineError::Refused(Refusal::NoGroup));
        }
        if self.store.tables.intents.contains(&room) || self.store.tables.knows_intent(id) {
            return Err(EngineError::Store(StoreError::Database));
        }
        Ok(one_change(ClientChange::Intent { room, id, target, plaintext }))
    }

    /// What is written to publish key packages.
    pub fn publish(&self, id: MessageId, packages: Vec<Vec<u8>>, size: DatabaseSize) -> (result: Result<
        Vec<ClientChange>,
        EngineError,
    >)
        ensures
            plans(
                result,
                journaling(
                    self.store@.outbox,
                    self.store.budget(),
                    id,
                    RequestView::PublishKeyPackages { packages: packages.deep_view() },
                    size,
                ),
            ),
    {
        self.journal(id, Request::PublishKeyPackages { packages }, size)
    }

    fn import_card(&self, card: &String, fingerprint: &String, size: DatabaseSize) -> (result: Result<
        Vec<ClientChange>,
        EngineError,
    >)
        ensures
            plans(
                result,
                text_import(self.store@, self.store.budget(), card@, fingerprint@, size),
            ),
    {
        match ContactCard::parse(card.as_str()) {
            Ok(card) => match card.import(&self.store, fingerprint.as_str(), size) {
                Ok(changes) => Ok(changes),
                Err(error) => Err(EngineError::Store(error)),
            },
            Err(error) => Err(EngineError::Store(error)),
        }
    }

    /// What a command leads to. `id` is a fresh identifier, and `has_group` says
    /// whether the group of the command's room is there.
    pub fn command(
        &self,
        command: UserCommand,
        id: MessageId,
        has_group: bool,
        identity: &ClientIdentity,
        size: DatabaseSize,
    ) -> (result: Result<CommandOutcome, EngineError>)
        ensures
            ({
                let view = self.store@;
                let budget = self.store.budget();
                match command {
                    UserCommand::ContactExport => match own_card(
                        identity.user(),
                        identity.secret(),
                        view.mls_identity,
                    ) {
                        Ok(card) => result matches Ok(CommandOutcome::Card(got)) && got.deep_view()
                            == card,
                        Err(error) => result == Err::<CommandOutcome, EngineError>(
                            EngineError::Store(error),
                        ),
                    },
                    UserCommand::ContactImport { card, fingerprint } => writes(
                        result,
                        text_import(view, budget, card@, fingerprint@, size),
                    ),
                    UserCommand::ListContacts => match result {
                        Ok(CommandOutcome::Contacts(contacts)) => contacts_listed(view, contacts@),
                        Err(EngineError::Store(error)) => exists|user: UserId| #[trigger]
                            first_unverified(view, user, error),
                        _ => false,
                    },
                    UserCommand::ListRooms => result matches Ok(CommandOutcome::Rooms(rooms))
                        && rooms_in_order(view, rooms@),
                    UserCommand::FetchRoomHistory { room_id, before_sequence } => if before_sequence
                        matches Some(limit) && limit > MAX_POSITION {
                        result == Err::<CommandOutcome, EngineError>(
                            EngineError::Store(StoreError::Database),
                        )
                    } else {
                        result matches Ok(CommandOutcome::History(messages)) && messages.deep_view()
                            == page_of_history(view.history, room_id, before_sequence)
                    },
                    UserCommand::CreateRoom(name) => writes(
                        result,
                        journaling(
                            view.outbox,
                            budget,
                            id,
                            RequestView::CreateRoom { name: name@ },
                            size,
                        ),
                    ),
                    UserCommand::PublishKeyPackages(count) => result == Ok::<
                        CommandOutcome,
                        EngineError,
                    >(CommandOutcome::GeneratePackages(count)),
                    UserCommand::AddToRoom { room_id, user_id } => writes(
                        result,
                        for_contact(
                            view,
                            user_id,
                            intending(
                                view,
                                budget,
                                room_id,
                                Some(user_id),
                                None,
                                has_group,
                                id,
                                size,
                            ),
                        ),
                    ),
                    UserCommand::SendRoomMessage { room_id, body } => writes(
                        result,
                        intending(
                            view,
                            budget,
                            room_id,
                            None,
                            Some(body.deep_view()),
                            has_group,
                            id,
                            size,
                        ),
                    ),
                    UserCommand::SyncWelcomes => result == Ok::<CommandOutcome, EngineError>(
                        CommandOutcome::Nothing,
                    ),
                    UserCommand::SetFetchGrant { requester, allowed } => writes(
                        result,
                        for_contact(
                            view,
                            requester,
                            journaling(
                                view.outbox,
                                budget,
                                id,
                                RequestView::SetFetchGrant { requester, allowed },
                                size,
                            ),
                        ),
                    ),
                }
            }),
    {
        match command {
            UserCommand::ContactExport => match ContactCard::own(&self.store, identity) {
                Ok(card) => Ok(CommandOutcome::Card(card)),
                Err(error) => Err(EngineError::Store(error)),
            },
            UserCommand::ContactImport { card, fingerprint } => written(
                self.import_card(&card, &fingerprint, size),
            ),
            UserCommand::ListContacts => match self.store.list_contacts() {
                Ok(contacts) => Ok(CommandOutcome::Contacts(contacts)),
                Err(error) => Err(EngineError::Store(error)),
            },
            UserCommand::ListRooms => Ok(CommandOutcome::Rooms(self.store.list_rooms())),
            UserCommand::FetchRoomHistory { room_id, before_sequence } => {
                match self.store.history(room_id, before_sequence) {
                    Ok(messages) => Ok(CommandOutcome::History(messages)),
                    Err(error) => Err(EngineError::Store(error)),
                }
            },
            UserCommand::CreateRoom(name) => written(
                self.journal(id, Request::CreateRoom { name }, size),
            ),
            UserCommand::PublishKeyPackages(count) => Ok(CommandOutcome::GeneratePackages(count)),
            UserCommand::AddToRoom { room_id, user_id } => {
                match self.store.require_contact(user_id) {
                    Ok(_) => {},
                    Err(error) => return Err(EngineError::Store(error)),
                }
                written(self.intent(room_id, Some(user_id), None, has_group, id, size))
            },
            UserCommand::SendRoomMessage { room_id, body } => written(
                self.intent(room_id, None, Some(body), has_group, id, size),
            ),
            UserCommand::SyncWelcomes => Ok(CommandOutcome::Nothing),
            UserCommand::SetFetchGrant { requester, allowed } => {
                match self.store.require_contact(requester) {
                    Ok(_) => {},
                    Err(error) => return Err(EngineError::Store(error)),
                }
                written(self.journal(id, Request::SetFetchGrant { requester, allowed }, size))
            },
        }
    }
}

} // verus!
