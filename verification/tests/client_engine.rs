//! Clients with real groups that meet at a relay.
use grotto::client::attempts::{AttemptPlan, GroupOutput};
use grotto::client::commands::{CommandOutcome, UserCommand};
use grotto::client::complete::{GroupStep, Note};
use grotto::client::contacts::{ContactCard, MemberIdentity};
use grotto::client::drive::{
    await_answer, request_of, DriveAction, DriveEvent, DriveState, MAX_ROUNDS,
};
use grotto::client::errors::{StoreDefect, StoreError};
use grotto::client::events::EventPlan;
use grotto::client::groups::{
    check_claim, check_envelope, check_epoch, check_joined, check_package, contains_user,
    drops_cached_groups, from_wire, generate_key_material, package_expiration, process_bound,
    processing_failure, require_transaction, retained_epoch, verify_roster, Contents, JoinFault,
    MlsFailure, PackageFault, Processed, Processing, ProcessingAction, ProcessingFault,
    ProcessingInput, Received, WireFault,
};
use grotto::client::identity::ClientIdentity;
use grotto::client::journal::{envelope, Engine, EngineError, Refusal};
use grotto::client::metrics::{ClientMetric, ClientMetrics};
use grotto::client::store::{ClientStore, DatabaseSize};
use grotto::client::sync::{asks_again, SyncAction, SyncEvent, SyncState};
use grotto::client::tables::{Arrival, ClientChange};
use grotto::client::welcomes::WelcomePlan;
use grotto::delivery::{Append, Event, MlsContentType, RoomHead, WelcomeDelivery};
use grotto::ids::{MessageId, RoomId, UserId};
use grotto::messages::{ClientMessage, RelayMessage};
use grotto::protocol::{decode_message, encode_message};
use grotto::relay::limits::{StorageFacts, StorageLimits};
use grotto::relay::service::RelayState;
use grotto::requests::{Rejection, Request, Response};
use grotto::transcripts::{acknowledgement_id, event_authenticated_data};
use mls_rs::client_builder::MlsConfig;
use mls_rs::crypto::{SignaturePublicKey, SignatureSecretKey};
use mls_rs::error::MlsError;
use mls_rs::group::{Group, ReceivedMessage};
use mls_rs::identity::basic::{BasicCredential, BasicIdentityProvider};
use mls_rs::identity::SigningIdentity;
use mls_rs::storage_provider::in_memory::{
    InMemoryGroupStateStorage, InMemoryKeyPackageStorage,
};
use mls_rs::{Client, ExtensionList, MlsMessage};
use mls_rs_crypto_awslc::AwsLcCryptoProvider;

const NOW: i64 = 1_700_000_000;

fn facts() -> StorageFacts {
    StorageFacts { page_size: 4096, page_count: 10, wal: Ok(0), available: Ok(1 << 40) }
}

fn size() -> DatabaseSize {
    DatabaseSize { page_size: 4096, page_count: 20 }
}

fn relay() -> RelayState {
    RelayState::new(StorageLimits::default())
}

fn write(store: &mut ClientStore, changes: Vec<ClientChange>) {
    store.transaction(1).unwrap();
    store.commit(1, changes).unwrap();
}

fn fresh() -> MessageId {
    MessageId::new().unwrap()
}

fn no_output() -> GroupOutput {
    GroupOutput { epoch: 0, body: vec![], welcome: vec![] }
}

fn group_client(
    user: UserId,
    public: Vec<u8>,
    secret: Vec<u8>,
    private_packages: InMemoryKeyPackageStorage,
    groups: InMemoryGroupStateStorage,
) -> Client<impl MlsConfig> {
    Client::builder()
        .key_package_repo(private_packages)
        .group_state_storage(groups)
        .crypto_provider(AwsLcCryptoProvider::default())
        .identity_provider(BasicIdentityProvider::new())
        .signing_identity(
            SigningIdentity::new(
                BasicCredential::new(user.to_bytes().to_vec()).into_credential(),
                SignaturePublicKey::new(public),
            ),
            SignatureSecretKey::new(secret),
            mls_rs::CipherSuite::CURVE25519_AES128,
        )
        .build()
}

fn member_of(identity: &SigningIdentity) -> MemberIdentity {
    MemberIdentity {
        basic: identity.credential.as_basic().map(|basic| basic.identifier.clone()),
        signature_key: identity.signature_key.as_bytes().to_vec(),
    }
}

fn members<C: MlsConfig>(group: &Group<C>) -> Vec<MemberIdentity> {
    group.roster().member_identities_iter().map(member_of).collect()
}

fn receive<C: MlsConfig>(group: &mut Group<C>, body: &[u8]) -> Result<Received, MlsFailure> {
    let before: Vec<(u32, SigningIdentity)> = group
        .roster()
        .members_iter()
        .map(|member| (member.index, member.signing_identity))
        .collect();
    let incoming = MlsMessage::from_bytes(body).unwrap();
    let message = group.process_incoming_message(incoming).map_err(|error| match error {
        MlsError::IdentityProviderError(_) => MlsFailure::Identity,
        MlsError::GroupStorageError(_) => MlsFailure::Storage,
        _ => MlsFailure::Other,
    })?;
    let (sender, authenticated_data, contents) = match message {
        ReceivedMessage::ApplicationMessage(description) => (
            description.sender_index,
            description.authenticated_data.clone(),
            Contents::Application { plaintext: description.data().to_vec() },
        ),
        ReceivedMessage::Commit(description) => (
            description.committer,
            description.authenticated_data,
            Contents::Commit { external: description.is_external },
        ),
        _ => (0, vec![], Contents::Other),
    };
    let sender = before
        .iter()
        .find(|(index, _)| *index == sender)
        .and_then(|(_, identity)| member_of(identity).basic);
    Ok(Received { contents, sender, authenticated_data, epoch: group.current_epoch() })
}

struct Member<C: MlsConfig> {
    engine: Engine,
    identity: ClientIdentity,
    client: Client<C>,
    private_packages: InMemoryKeyPackageStorage,
    groups: InMemoryGroupStateStorage,
    written: Vec<ClientChange>,
}

fn member() -> Member<impl MlsConfig> {
    let mut store = ClientStore::new(1 << 30);
    let (identity, changes) = store.identity().unwrap();
    let mut written = changes.clone();
    write(&mut store, changes);
    let keys = generate_key_material().unwrap();
    let changes = store.save_mls_identity(&keys.public, &keys.secret).unwrap();
    written.extend(changes.clone());
    write(&mut store, changes);
    let user = identity.user_id();
    let private_packages = InMemoryKeyPackageStorage::new();
    let groups = InMemoryGroupStateStorage::new();
    let client = group_client(
        user,
        keys.public,
        keys.secret,
        private_packages.clone(),
        groups.clone(),
    );
    let engine = Engine { store, user };
    let mut member = Member { engine, identity, client, private_packages, groups, written };
    let card = member.card();
    pin(&mut member, &card);
    member
}

/// The member as it comes back from what was written.
fn reload<C: MlsConfig>(member: Member<C>) -> Member<impl MlsConfig> {
    let Member { private_packages, groups, written, .. } = member;
    let mut store = ClientStore::new(1 << 30);
    write(&mut store, written.clone());
    let (identity, changes) = store.identity().unwrap();
    assert!(changes.is_empty());
    let (public, secret) = store.load_mls_identity().unwrap();
    let user = identity.user_id();
    let client = group_client(user, public, secret, private_packages.clone(), groups.clone());
    let engine = Engine { store, user };
    Member { engine, identity, client, private_packages, groups, written }
}

fn pin<C: MlsConfig>(target: &mut Member<C>, card: &ContactCard) {
    let changes = card.import(&target.engine.store, &card.fingerprint(), size()).unwrap();
    target.write(changes);
}

impl<C: MlsConfig> Member<C> {
    fn user(&self) -> UserId {
        self.engine.user
    }

    fn card(&self) -> ContactCard {
        ContactCard::own(&self.engine.store, &self.identity).unwrap()
    }

    fn group(&self, room: RoomId) -> Option<Group<C>> {
        self.client.load_group(&room.to_bytes()).ok()
    }

    fn epoch(&self, room: RoomId) -> u64 {
        self.group(room).unwrap().current_epoch()
    }

    fn create_group(&self, room: RoomId) {
        if self.group(room).is_some() {
            return;
        }
        self.client
            .create_group_with_id(
                room.to_bytes().to_vec(),
                ExtensionList::default(),
                ExtensionList::default(),
                None,
            )
            .unwrap()
            .write_to_storage()
            .unwrap();
    }

    fn packages(&self, count: usize) -> Vec<Vec<u8>> {
        (0..count)
            .map(|_| {
                self.client
                    .generate_key_package_message(
                        ExtensionList::default(),
                        ExtensionList::default(),
                        None,
                    )
                    .unwrap()
                    .to_bytes()
                    .unwrap()
            })
            .collect()
    }

    fn take_step(&self, step: GroupStep) {
        match step {
            GroupStep::Nothing => {}
            GroupStep::Create(room) => self.create_group(room),
            GroupStep::Discard(room) => {
                let mut group = self.group(room).unwrap();
                group.clear_pending_commit();
                group.write_to_storage().unwrap();
            }
            GroupStep::Settle(room) => {
                let mut group = self.group(room).unwrap();
                group.apply_pending_commit().unwrap();
                group.write_to_storage().unwrap();
            }
        }
    }

    fn write(&mut self, changes: Vec<ClientChange>) {
        self.written.extend(changes.clone());
        write(&mut self.engine.store, changes);
    }

    fn command(&mut self, command: UserCommand) {
        let has_group = match &command {
            UserCommand::AddToRoom { room_id, .. }
            | UserCommand::SendRoomMessage { room_id, .. } => self.group(*room_id).is_some(),
            _ => false,
        };
        let outcome =
            self.engine.command(command, fresh(), has_group, &self.identity, size()).unwrap();
        match outcome {
            CommandOutcome::Write(changes) => self.write(changes),
            CommandOutcome::GeneratePackages(count) => {
                let packages = self.packages(count);
                let changes = self.engine.publish(fresh(), packages, size()).unwrap();
                self.write(changes);
            }
            other => panic!("nothing to do: {other:?}"),
        }
    }

    fn complete(&mut self, id: MessageId, request: &Request, response: &Response) -> Note {
        let completion = self.engine.complete(id, request, response, size()).unwrap();
        self.take_step(completion.step);
        self.write(completion.changes);
        completion.note
    }

    fn attempts(&mut self) -> bool {
        let mut any = false;
        for room in self.engine.open_intents() {
            let id = fresh();
            let mut group = self.group(room);
            let committing = group.as_ref().is_some_and(Group::has_pending_commit);
            let plan =
                self.engine.plan_attempt(room, id, group.is_some(), committing).unwrap();
            let output = match &plan {
                AttemptPlan::Skip => continue,
                AttemptPlan::Reserve { .. } => no_output(),
                AttemptPlan::Add { package, authenticated_data, .. } => {
                    let group = group.as_mut().unwrap();
                    let epoch = group.current_epoch();
                    let commit = group
                        .commit_builder()
                        .authenticated_data(authenticated_data.clone())
                        .add_member(MlsMessage::from_bytes(package).unwrap())
                        .unwrap()
                        .build()
                        .unwrap();
                    GroupOutput {
                        epoch,
                        body: commit.commit_message.to_bytes().unwrap(),
                        welcome: commit.welcome_messages[0].to_bytes().unwrap(),
                    }
                }
                AttemptPlan::Send { plaintext, authenticated_data, .. } => {
                    let group = group.as_mut().unwrap();
                    let epoch = group.current_epoch();
                    let body = group
                        .encrypt_application_message(plaintext, authenticated_data.clone())
                        .unwrap()
                        .to_bytes()
                        .unwrap();
                    GroupOutput { epoch, body, welcome: vec![] }
                }
            };
            let changes = self
                .engine
                .attempt(room, id, &plan, output, &self.identity, size())
                .unwrap();
            if let Some(group) = group.as_mut() {
                group.write_to_storage().unwrap();
            }
            self.write(changes);
            any = true;
        }
        any
    }

    fn process(&self, event: &Event) -> Result<Processed, ProcessingFault> {
        let mut group = None;
        let mut state = Processing::Opened;
        let mut input = ProcessingInput::Start;
        loop {
            let (next, action) = process_bound(&self.engine.store, event, state, input);
            state = next;
            input = match action {
                ProcessingAction::LoadGroup => {
                    let loaded = self.group(event.operation.room).unwrap();
                    let epoch = loaded.current_epoch();
                    group = Some(loaded);
                    ProcessingInput::Group { epoch }
                }
                ProcessingAction::Process => {
                    let group = group.as_mut().unwrap();
                    let outcome = receive(group, &event.operation.body);
                    ProcessingInput::Message { outcome, members: members(group) }
                }
                ProcessingAction::Keep(processed) => {
                    group.unwrap().write_to_storage().unwrap();
                    return Ok(processed);
                }
                ProcessingAction::Refuse(fault) => return Err(fault),
                ProcessingAction::Fail => panic!("the group failed"),
            };
        }
    }

    fn apply(&mut self, event: &Event) -> bool {
        match self.engine.plan_event(event).unwrap() {
            EventPlan::Own { step, changes } => {
                self.take_step(step);
                self.write(changes);
                true
            }
            EventPlan::Foreign => match self.process(event) {
                Ok(processed) => {
                    let changes = self.engine.apply_event(event, &processed).unwrap();
                    self.write(changes);
                    true
                }
                Err(fault) => {
                    let (goes_on, changes) = self.engine.refuse_event(event, fault).unwrap();
                    self.write(changes);
                    goes_on
                }
            },
        }
    }

    fn join(&self, welcome: &WelcomeDelivery) -> Result<(), JoinFault> {
        from_wire(&welcome.attachment.body).unwrap();
        let message = MlsMessage::from_bytes(&welcome.attachment.body).unwrap();
        let (mut group, _) = self.client.join_group(None, &message, None).unwrap();
        check_joined(
            &self.engine.store,
            welcome.room,
            welcome.inviter,
            group.group_id(),
            &members(&group),
        )?;
        group.write_to_storage().unwrap();
        Ok(())
    }

    fn join_all(&mut self) {
        let mut after = 0;
        loop {
            match self.engine.plan_welcome(after).unwrap() {
                WelcomePlan::Done => return,
                WelcomePlan::Block { cursor, changes } => {
                    self.write(changes);
                    after = cursor;
                }
                WelcomePlan::Join { cursor, welcome } => {
                    let had_group = self.group(welcome.room).is_some();
                    let changes = if had_group || self.join(&welcome).is_ok() {
                        self.engine.join_welcome(cursor, &welcome, had_group).unwrap()
                    } else {
                        self.engine.block_welcome(cursor)
                    };
                    self.write(changes);
                    after = cursor;
                }
            }
        }
    }

    fn catch_up(&mut self, relay: &mut RelayState) {
        let mut state = SyncState::Idle;
        let mut event = SyncEvent::Start;
        loop {
            let (next, action) = self.engine.synchronize(state, event, size()).unwrap();
            state = next;
            event = match action {
                SyncAction::Ask(request) => SyncEvent::Answer(
                    relay.deliver(&facts(), self.user(), fresh(), &request, NOW).unwrap(),
                ),
                SyncAction::Write(changes) => {
                    self.write(changes);
                    SyncEvent::Written
                }
                SyncAction::Join => {
                    self.join_all();
                    SyncEvent::Joined
                }
                SyncAction::FindGroup(room) => SyncEvent::Group(self.group(room).is_some()),
                SyncAction::Apply(event) => SyncEvent::Applied(self.apply(&event)),
                SyncAction::Finish => return,
            };
        }
    }

    fn drive(&mut self, relay: &mut RelayState) {
        let mut state = DriveState::Idle;
        let mut event = DriveEvent::Start;
        loop {
            let (next, action) = self.engine.drive(state, event).unwrap();
            state = next;
            event = match action {
                DriveAction::Send { id, request } => DriveEvent::Answer(
                    relay.deliver(&facts(), self.user(), id, &request, NOW).unwrap(),
                ),
                DriveAction::Complete { id, request, response } => {
                    self.complete(id, &request, &response);
                    DriveEvent::Completed
                }
                DriveAction::CatchUp => {
                    self.catch_up(relay);
                    DriveEvent::CaughtUp
                }
                DriveAction::Attempt => DriveEvent::Attempted(self.attempts()),
                DriveAction::Finish => return,
            };
        }
    }

    fn reserve_only(&mut self, relay: &mut RelayState) {
        assert!(self.attempts());
        for (_, entry) in self.engine.store.outbox_page(0) {
            let request = request_of(&entry).unwrap();
            let response = relay
                .deliver(&facts(), self.user(), entry.request_id, &request, NOW)
                .unwrap();
            self.complete(entry.request_id, &request, &response);
        }
        assert!(self.attempts());
    }

    fn history(&self, room: RoomId) -> Vec<Vec<u8>> {
        self.engine
            .store
            .history(room, None)
            .unwrap()
            .into_iter()
            .map(|message| message.plaintext)
            .collect()
    }
}

#[test]
fn reservation_response_cannot_substitute_target_or_signing_identity() {
    let mut alice = member();
    let bob = member();
    let carol = member();
    pin(&mut alice, &bob.card());
    pin(&mut alice, &carol.card());
    let room = RoomId::new().unwrap();
    alice.create_group(room);
    let changes = alice
        .engine
        .intent(room, Some(bob.user()), None, true, fresh(), size())
        .unwrap();
    alice.write(changes);
    assert!(alice.attempts());
    let entry = alice.engine.store.outbox_page(0).remove(0).1;
    let ClientMessage::Delivery { request_id, request } = decode_message(&entry.message).unwrap()
    else {
        panic!()
    };
    assert!(
        alice
            .engine
            .complete(
                request_id,
                &request,
                &Response::KeyPackage { recipient: carol.user(), package: vec![] },
                size()
            )
            .is_err()
    );
    let package = carol.packages(1).remove(0);
    assert_eq!(
        check_package(&alice.engine.store, &package, bob.user()),
        Err(PackageFault::Target)
    );
    assert!(
        alice
            .engine
            .complete(
                request_id,
                &request,
                &Response::KeyPackage { recipient: bob.user(), package },
                size()
            )
            .is_err()
    );
    assert_eq!(
        alice.engine.store.find_outbox(request_id).unwrap().message,
        entry.message
    );
    let package = bob.packages(1).remove(0);
    let note = alice.complete(
        request_id,
        &request,
        &Response::KeyPackage { recipient: bob.user(), package },
    );
    assert_eq!(note, Note::Reserved);
    assert!(alice.engine.store.find_outbox(request_id).is_none());
}

#[test]
fn envelope_claims_and_aad_fail_without_consuming_the_valid_generation() {
    let mut alice = member();
    let mut bob = member();
    pin(&mut alice, &bob.card());
    pin(&mut bob, &alice.card());
    let room = RoomId::new().unwrap();
    alice.create_group(room);
    let package = bob.packages(1).remove(0);
    let mut group = alice.group(room).unwrap();
    let commit = group
        .commit_builder()
        .add_member(MlsMessage::from_bytes(&package).unwrap())
        .unwrap()
        .build()
        .unwrap();
    group.apply_pending_commit().unwrap();
    let (mut joined, _) =
        bob.client.join_group(None, &commit.welcome_messages[0], None).unwrap();
    joined.write_to_storage().unwrap();
    let id = fresh();
    let epoch = group.current_epoch();
    let body = group
        .encrypt_application_message(b"authenticated", event_authenticated_data(room, id, 1))
        .unwrap()
        .to_bytes()
        .unwrap();
    let event = Event {
        id,
        sender: alice.user(),
        operation: Append {
            room,
            parent: 1,
            epoch,
            content_type: MlsContentType::Application,
            body,
            welcome: None,
        },
    };
    for mode in 0..5 {
        let mut forged = event.clone();
        match mode {
            0 => forged.sender = bob.user(),
            1 => forged.id = fresh(),
            2 => forged.operation.parent = 2,
            3 => forged.operation.content_type = MlsContentType::Commit,
            _ => forged.operation.epoch += 1,
        }
        assert!(bob.process(&forged).is_err());
    }
    let Processed::Application { plaintext, author } = bob.process(&event).unwrap() else {
        panic!()
    };
    assert_eq!(plaintext, b"authenticated");
    assert_eq!(author, alice.user().to_bytes());
}

#[test]
fn concurrent_adds_rebuild_and_all_members_converge_after_restart() {
    let mut state = relay();
    let (mut alice, mut bob, mut carol, mut dave) = (member(), member(), member(), member());
    let cards = [alice.card(), bob.card(), carol.card(), dave.card()];
    for card in &cards {
        pin(&mut alice, card);
        pin(&mut bob, card);
        pin(&mut carol, card);
        pin(&mut dave, card);
    }
    let grant = |requester| UserCommand::SetFetchGrant { requester, allowed: true };
    bob.command(UserCommand::PublishKeyPackages(1));
    bob.command(grant(alice.user()));
    bob.drive(&mut state);
    carol.command(UserCommand::PublishKeyPackages(1));
    carol.command(grant(alice.user()));
    carol.drive(&mut state);
    dave.command(UserCommand::PublishKeyPackages(1));
    dave.command(grant(bob.user()));
    dave.drive(&mut state);
    alice.command(UserCommand::CreateRoom("Concurrent".into()));
    alice.drive(&mut state);
    let room = alice.engine.store.list_rooms()[0].0;
    alice.command(UserCommand::AddToRoom { room_id: room, user_id: bob.user() });
    alice.drive(&mut state);
    bob.drive(&mut state);
    assert_eq!(alice.engine.cursor(room), 1);
    assert_eq!(bob.engine.cursor(room), 1);
    alice.command(UserCommand::AddToRoom { room_id: room, user_id: carol.user() });
    bob.command(UserCommand::AddToRoom { room_id: room, user_id: dave.user() });
    alice.reserve_only(&mut state);
    bob.reserve_only(&mut state);
    // Both commits are durable but neither has been applied locally.
    assert_eq!(alice.epoch(room), 1);
    assert_eq!(bob.epoch(room), 1);
    // Reload Bob with his pending commit before the race resolves.
    let mut bob = reload(bob);
    assert!(bob.group(room).unwrap().has_pending_commit());
    alice.drive(&mut state);
    bob.drive(&mut state);
    alice.drive(&mut state);
    carol.drive(&mut state);
    dave.drive(&mut state);
    assert_eq!((alice.engine.cursor(room), alice.epoch(room)), (3, 3));
    assert_eq!((bob.engine.cursor(room), bob.epoch(room)), (3, 3));
    assert_eq!((carol.engine.cursor(room), carol.epoch(room)), (3, 3));
    assert_eq!((dave.engine.cursor(room), dave.epoch(room)), (3, 3));
    bob.command(UserCommand::SendRoomMessage { room_id: room, body: b"converged".to_vec() });
    bob.drive(&mut state);
    alice.drive(&mut state);
    assert_eq!(alice.history(room)[0], b"converged");
    carol.drive(&mut state);
    assert_eq!(carol.history(room)[0], b"converged");
    dave.drive(&mut state);
    assert_eq!(dave.history(room)[0], b"converged");
    assert_eq!(bob.history(room), alice.history(room));
}

#[test]
fn receiving_sql_failure_never_rejects_or_advances_the_cursor() {
    let mut state = relay();
    let mut alice = member();
    let mut bob = member();
    pin(&mut alice, &bob.card());
    pin(&mut bob, &alice.card());
    bob.command(UserCommand::PublishKeyPackages(1));
    bob.command(UserCommand::SetFetchGrant { requester: alice.user(), allowed: true });
    bob.drive(&mut state);
    alice.command(UserCommand::CreateRoom("Atomic".into()));
    alice.drive(&mut state);
    let room = alice.engine.store.list_rooms()[0].0;
    alice.command(UserCommand::AddToRoom { room_id: room, user_id: bob.user() });
    alice.drive(&mut state);
    bob.drive(&mut state);
    alice.command(UserCommand::SendRoomMessage { room_id: room, body: b"durable".to_vec() });
    alice.drive(&mut state);
    // The event is planned, but the write fails: nothing of it counts.
    let answer = state
        .deliver(
            &facts(),
            bob.user(),
            fresh(),
            &Request::FetchRoomEvents { room, after_sequence: 1 },
            NOW,
        )
        .unwrap();
    let Response::RoomEvents { events, .. } = answer else { panic!() };
    bob.engine.store.transaction(1).unwrap();
    let processed = Processed::Application {
        plaintext: b"durable".to_vec(),
        author: alice.user().to_bytes().to_vec(),
    };
    assert!(!bob.engine.apply_event(&events[0], &processed).unwrap().is_empty());
    bob.engine.store.rollback(1, true);
    assert_eq!(bob.engine.cursor(room), 1);
    assert!(bob.history(room).is_empty());
    bob.drive(&mut state);
    assert_eq!(bob.engine.cursor(room), 2);
    let history = bob.history(room);
    bob.drive(&mut state);
    assert_eq!(bob.history(room), history);
    assert_eq!(history, [b"durable"]);
}

#[test]
fn an_unknown_inviter_waits_for_its_card() {
    let mut state = relay();
    let mut alice = member();
    let mut bob = member();
    pin(&mut alice, &bob.card());
    pin(&mut bob, &alice.card());
    let mut stranger = member();
    pin(&mut stranger, &bob.card());
    bob.command(UserCommand::PublishKeyPackages(2));
    // The grant of a stranger is refused, so it is given as the relay would see it.
    state
        .deliver(
            &facts(),
            bob.user(),
            fresh(),
            &Request::SetFetchGrant { requester: stranger.user(), allowed: true },
            NOW,
        )
        .unwrap();
    bob.drive(&mut state);
    stranger.command(UserCommand::CreateRoom("Dark".into()));
    stranger.drive(&mut state);
    let room = stranger.engine.store.list_rooms()[0].0;
    stranger.command(UserCommand::AddToRoom { room_id: room, user_id: bob.user() });
    stranger.drive(&mut state);
    bob.drive(&mut state);
    assert!(bob.group(room).is_none());
    assert_eq!(bob.engine.cursor(room), 0);
    pin(&mut bob, &stranger.card());
    bob.drive(&mut state);
    assert!(bob.group(room).is_some());
    assert_eq!(bob.engine.cursor(room), 1);
    assert_eq!(alice.engine.cursor(room), 0);
    let answer = alice.engine.command(
        UserCommand::SetFetchGrant { requester: stranger.user(), allowed: true },
        fresh(),
        false,
        &alice.identity,
        size(),
    );
    assert!(matches!(answer, Err(EngineError::Store(StoreError::Database))));
}

/// A client without groups, for what needs none.
fn bare() -> (Engine, ClientIdentity) {
    let user = UserId::from_bytes([1; 16]);
    let store = ClientStore::new(1 << 30);
    (Engine { store, user }, ClientIdentity::from_seed(user, [2; 32]))
}

fn room() -> RoomId {
    RoomId::from_bytes([7; 16])
}

fn event(id: u8, sender: u8, parent: u64) -> Event {
    Event {
        id: MessageId::from_bytes([id; 16]),
        sender: UserId::from_bytes([sender; 16]),
        operation: Append {
            room: room(),
            parent,
            epoch: 0,
            content_type: MlsContentType::Application,
            body: vec![id],
            welcome: None,
        },
    }
}

fn refusal<T: std::fmt::Debug>(result: Result<T, EngineError>) -> Refusal {
    match result {
        Err(EngineError::Refused(refusal)) => refusal,
        other => panic!("not refused: {other:?}"),
    }
}

#[test]
fn journaled_requests_stay_until_answered() {
    let (mut engine, identity) = bare();
    let id = MessageId::from_bytes([3; 16]);
    let request = Request::CreateRoom { name: "Cave".into() };
    let changes = engine.journal(id, request.clone(), size()).unwrap();
    write(&mut engine.store, changes);
    let entry = engine.store.find_outbox(id).unwrap();
    assert_eq!(entry.kind, "Delivery");
    assert_eq!(
        entry.message,
        encode_message(&ClientMessage::Delivery { request_id: id, request: request.clone() })
            .unwrap()
    );
    assert_eq!(request_of(&entry).unwrap(), request);
    for reason in [Rejection::Overloaded, Rejection::Quota, Rejection::Internal] {
        let done = engine
            .complete(id, &request, &Response::Rejected(reason), size())
            .unwrap();
        assert_eq!(done.note, Note::Retained);
        assert!(done.changes.is_empty());
    }
    let done = engine
        .complete(id, &request, &Response::RoomCreated { room: room() }, size())
        .unwrap();
    assert_eq!(done.step, GroupStep::Create(room()));
    write(&mut engine.store, done.changes);
    assert!(engine.store.find_outbox(id).is_none());
    assert_eq!(engine.store.list_rooms()[0].2, "created");
    assert_eq!(
        refusal(engine.complete(id, &request, &Response::Acknowledged, size())),
        Refusal::ResponseDiffers
    );
    assert_eq!(identity.user_id(), engine.user);
}

#[test]
fn receipts_need_no_budget_but_new_requests_do() {
    let user = UserId::from_bytes([1; 16]);
    let mut engine = Engine { store: ClientStore::new(0), user };
    assert_eq!(
        engine.journal(fresh(), Request::CreateRoom { name: "x".into() }, size()),
        Err(EngineError::Store(StoreError::Quota))
    );
    let changes = engine.apply_event(
        &event(5, 9, 0),
        &Processed::Application { plaintext: vec![1], author: vec![9; 16] },
    );
    write(&mut engine.store, changes.unwrap());
    let id = acknowledgement_id(user, &[MessageId::from_bytes([5; 16])], &[]);
    assert!(engine.store.find_outbox(id).is_some());
    assert_eq!(engine.cursor(room()), 1);
}

#[test]
fn equivocation_and_gaps_are_refused() {
    let (mut engine, _) = bare();
    let changes = engine.receive(&event(5, 9, 0), size()).unwrap();
    write(&mut engine.store, changes);
    assert!(engine.receive(&event(5, 9, 0), size()).unwrap().is_empty());
    let mut other = event(5, 9, 0);
    other.operation.body = vec![99];
    assert_eq!(refusal(engine.receive(&other, size())), Refusal::Equivocation);
    assert_eq!(
        refusal(engine.receive(&event(5, 9, u64::MAX), size())),
        Refusal::EventSequence
    );
    assert_eq!(
        refusal(engine.plan_event(&event(6, 9, 1))),
        Refusal::NoncontiguousProcessing
    );
    assert!(matches!(engine.plan_event(&event(5, 9, 0)), Ok(EventPlan::Foreign)));
    assert_eq!(
        refusal(engine.plan_event(&event(5, 1, 0))),
        Refusal::OwnWithoutAttempt
    );
    assert_eq!(
        refusal(engine.apply_event(
            &event(5, 9, 0),
            &Processed::Application { plaintext: vec![], author: vec![1] }
        )),
        Refusal::InvalidAuthor
    );
}

#[test]
fn blocked_events_hold_their_room_and_rejected_ones_do_not() {
    let (mut engine, _) = bare();
    let (goes_on, changes) =
        engine.refuse_event(&event(5, 9, 0), ProcessingFault::Blocked).unwrap();
    assert!(!goes_on);
    write(&mut engine.store, changes);
    assert_eq!(engine.cursor(room()), 0);
    let (goes_on, changes) =
        engine.refuse_event(&event(5, 9, 0), ProcessingFault::Rejected).unwrap();
    assert!(goes_on);
    write(&mut engine.store, changes);
    assert_eq!(engine.cursor(room()), 1);
    assert!(engine.store.history(room(), None).unwrap().is_empty());
}

#[test]
fn own_attempts_are_checked_against_the_journal() {
    let (mut engine, identity) = bare();
    let changes = engine
        .intent(room(), None, Some(b"text".to_vec()), true, MessageId::from_bytes([8; 16]), size())
        .unwrap();
    write(&mut engine.store, changes);
    assert!(!engine.unresolved(room()));
    assert_eq!(engine.open_intents(), vec![room()]);
    let id = MessageId::from_bytes([9; 16]);
    let plan = engine.plan_attempt(room(), id, true, false).unwrap();
    let AttemptPlan::Send { plaintext, parent, authenticated_data } = &plan else { panic!() };
    assert_eq!(plaintext, b"text");
    assert_eq!(*parent, 0);
    assert_eq!(*authenticated_data, event_authenticated_data(room(), id, 0));
    let output = GroupOutput { epoch: 4, body: vec![1, 2], welcome: vec![] };
    let changes = engine.attempt(room(), id, &plan, output, &identity, size()).unwrap();
    write(&mut engine.store, changes);
    assert!(engine.open_intents().is_empty());
    assert!(engine.unresolved(room()));
    let mut accepted = event(9, 1, 0);
    accepted.operation.epoch = 4;
    accepted.operation.body = vec![1, 2];
    let mut changed = accepted.clone();
    changed.operation.body = vec![3];
    assert_eq!(refusal(engine.plan_event(&changed)), Refusal::OwnDiffers);
    let EventPlan::Own { step, changes } = engine.plan_event(&accepted).unwrap() else { panic!() };
    assert_eq!(step, GroupStep::Nothing);
    write(&mut engine.store, changes);
    assert_eq!(engine.cursor(room()), 1);
    assert!(!engine.unresolved(room()));
    assert_eq!(engine.store.history(room(), None).unwrap()[0].sequence, 1);
    assert_eq!(
        refusal(engine.intent(room(), None, Some(vec![]), false, fresh(), size())),
        Refusal::NoGroup
    );
}

#[test]
fn a_conflict_reopens_the_intent() {
    let (mut engine, identity) = bare();
    let changes = engine
        .intent(room(), None, Some(b"text".to_vec()), true, fresh(), size())
        .unwrap();
    write(&mut engine.store, changes);
    let id = fresh();
    let plan = engine.plan_attempt(room(), id, true, false).unwrap();
    let output = GroupOutput { epoch: 0, body: vec![1], welcome: vec![] };
    let changes = engine.attempt(room(), id, &plan, output, &identity, size()).unwrap();
    write(&mut engine.store, changes);
    let request = request_of(&engine.store.find_outbox(id).unwrap()).unwrap();
    assert_eq!(
        refusal(engine.complete(
            id,
            &request,
            &Response::HeadConflict { room: room(), head: 0 },
            size()
        )),
        Refusal::ResponseDiffers
    );
    let done = engine
        .complete(id, &request, &Response::HeadConflict { room: room(), head: 3 }, size())
        .unwrap();
    assert_eq!(done.note, Note::Conflict { room: room() });
    write(&mut engine.store, done.changes);
    assert_eq!(engine.open_intents(), vec![room()]);
    assert!(engine.store.history(room(), None).unwrap().is_empty());
    assert!(engine.store.find_outbox(id).is_none());
}

#[test]
fn intents_without_their_means_are_refused() {
    let (mut engine, _) = bare();
    let intent = |target, plaintext| ClientChange::Intent {
        room: room(),
        id: MessageId::from_bytes([1; 16]),
        target,
        plaintext,
    };
    write(&mut engine.store, vec![intent(None, None)]);
    assert_eq!(
        refusal(engine.plan_attempt(room(), fresh(), true, false)),
        Refusal::SendWithoutPlaintext
    );
    assert!(matches!(
        engine.plan_attempt(RoomId::from_bytes([8; 16]), fresh(), true, false),
        Ok(AttemptPlan::Skip)
    ));
    // While a commit is under way, the group makes no other message.
    let (mut engine, _) = bare();
    write(&mut engine.store, vec![intent(Some(engine.user), None)]);
    assert!(matches!(
        engine.plan_attempt(room(), fresh(), true, true),
        Ok(AttemptPlan::Reserve { .. })
    ));
    write(
        &mut engine.store,
        vec![ClientChange::IntentPackage { room: room(), package: vec![1] }],
    );
    assert_eq!(
        refusal(engine.plan_attempt(room(), fresh(), true, true)),
        Refusal::UnresolvedCommit
    );
    assert!(matches!(
        engine.plan_attempt(room(), fresh(), true, false),
        Ok(AttemptPlan::Add { .. })
    ));
    let (mut engine, _) = bare();
    write(&mut engine.store, vec![intent(None, Some(vec![2]))]);
    assert_eq!(
        refusal(engine.plan_attempt(room(), fresh(), true, true)),
        Refusal::UnresolvedCommit
    );
}

#[test]
fn synchronization_refuses_what_does_not_fit() {
    let (engine, _) = bare();
    let start = || engine.synchronize(SyncState::Idle, SyncEvent::Start, size()).unwrap();
    let (state, action) = start();
    assert!(matches!(
        action,
        SyncAction::Ask(Request::FetchWelcomes { after_cursor: 0 })
    ));
    let answer = |response| engine.synchronize(start().0, SyncEvent::Answer(response), size());
    assert_eq!(refusal(answer(Response::Acknowledged)), Refusal::WelcomeResponse);
    assert_eq!(
        refusal(answer(Response::Welcomes { after_cursor: 1, welcomes: vec![], more: false })),
        Refusal::WelcomePage
    );
    assert_eq!(
        refusal(answer(Response::Welcomes { after_cursor: 0, welcomes: vec![], more: true })),
        Refusal::WelcomePage
    );
    let none = Response::Welcomes { after_cursor: 0, welcomes: vec![], more: false };
    let (state, action) = engine.synchronize(state, SyncEvent::Answer(none), size()).unwrap();
    assert!(matches!(action, SyncAction::Join));
    let (state, action) = engine.synchronize(state, SyncEvent::Joined, size()).unwrap();
    assert!(matches!(action, SyncAction::Ask(Request::SyncIndex { after_room: None })));
    drop(state);
    let index = |rooms, more| {
        engine.synchronize(
            SyncState::Index { after: None },
            SyncEvent::Answer(Response::SyncIndex { rooms, more }),
            size(),
        )
    };
    assert_eq!(
        refusal(engine.synchronize(
            SyncState::Index { after: None },
            SyncEvent::Answer(Response::Acknowledged),
            size()
        )),
        Refusal::IndexResponse
    );
    assert_eq!(refusal(index(vec![], true)), Refusal::EmptyIndex);
    let head = |id: u8, sequence| RoomHead {
        room: RoomId::from_bytes([id; 16]),
        name: "Cave".into(),
        sequence,
    };
    assert!(matches!(index(vec![], false), Ok((_, SyncAction::Finish))));
    let (state, action) = index(vec![head(2, 0), head(1, 0)], false).unwrap();
    assert!(matches!(action, SyncAction::Write(_)));
    let (state, action) = engine.synchronize(state, SyncEvent::Written, size()).unwrap();
    assert!(matches!(action, SyncAction::FindGroup(_)));
    assert_eq!(
        refusal(engine.synchronize(state, SyncEvent::Group(false), size())),
        Refusal::IndexOrder
    );
    assert!(asks_again(&Response::Rejected(Rejection::Overloaded)));
    assert!(asks_again(&Response::Rejected(Rejection::Internal)));
    assert!(!asks_again(&Response::Rejected(Rejection::Quota)));
    assert_eq!(
        refusal(engine.synchronize(SyncState::Done, SyncEvent::Start, size())),
        Refusal::UnexpectedResponse
    );
}

#[test]
fn heads_never_go_back_and_pages_have_no_gaps() {
    let (mut engine, _) = bare();
    write(&mut engine.store, vec![ClientChange::Cursor { room: room(), sequence: 5 }]);
    let head = |sequence| {
        engine.synchronize(
            SyncState::Index { after: None },
            SyncEvent::Answer(Response::SyncIndex {
                rooms: vec![RoomHead { room: room(), name: "Cave".into(), sequence }],
                more: false,
            }),
            size(),
        )
    };
    assert_eq!(refusal(head(4)), Refusal::HeadRegression);
    let at_events = || {
        let (state, _) = head(7).unwrap();
        let (state, _) = engine.synchronize(state, SyncEvent::Written, size()).unwrap();
        let (state, action) =
            engine.synchronize(state, SyncEvent::Group(true), size()).unwrap();
        let SyncAction::Ask(Request::FetchRoomEvents { room: asked, after_sequence }) = action
        else {
            panic!()
        };
        assert_eq!((asked, after_sequence), (room(), 5));
        state
    };
    let page = |events| {
        engine.synchronize(
            at_events(),
            SyncEvent::Answer(Response::RoomEvents {
                room: room(),
                after_sequence: 5,
                events,
                more: false,
            }),
            size(),
        )
    };
    assert_eq!(
        refusal(engine.synchronize(
            at_events(),
            SyncEvent::Answer(Response::Acknowledged),
            size()
        )),
        Refusal::EventsResponse
    );
    assert_eq!(refusal(page(vec![])), Refusal::OmittedSequence);
    assert_eq!(refusal(page(vec![event(5, 9, 6)])), Refusal::NoncontiguousPage);
    let (_, action) = page(vec![event(5, 9, 5)]).unwrap();
    assert!(matches!(action, SyncAction::Write(_)));
}

#[test]
fn driving_goes_round_at_most_so_often() {
    let (engine, _) = bare();
    let (mut state, action) = engine.drive(DriveState::Idle, DriveEvent::Start).unwrap();
    assert!(matches!(action, DriveAction::CatchUp));
    let mut rounds = 0;
    loop {
        let (next, action) = engine.drive(state, DriveEvent::CaughtUp).unwrap();
        assert!(matches!(action, DriveAction::Attempt));
        rounds += 1;
        let (next, action) = engine.drive(next, DriveEvent::Attempted(true)).unwrap();
        if matches!(action, DriveAction::Finish) {
            break;
        }
        assert!(matches!(action, DriveAction::CatchUp));
        state = next;
    }
    assert_eq!(rounds, MAX_ROUNDS);
    assert_eq!(
        refusal(engine.drive(DriveState::Done, DriveEvent::Start)),
        Refusal::UnexpectedResponse
    );
}

#[test]
fn a_broken_journal_is_told_apart() {
    let (mut engine, _) = bare();
    let id = MessageId::from_bytes([3; 16]);
    let mut save = |message: Vec<u8>| {
        let removed = engine.store.remove_outbox(id);
        write(&mut engine.store, removed);
        let changes = engine.store.save_outbox(id, "Delivery", &message).unwrap();
        write(&mut engine.store, changes);
        engine.drive(DriveState::Idle, DriveEvent::Start)
    };
    assert!(matches!(save(vec![250]), Err(EngineError::Decode(_))));
    let hello = encode_message(&ClientMessage::ClientHello { version: 9 }).unwrap();
    assert_eq!(refusal(save(hello)), Refusal::OldOutbox);
    let other = encode_message(&ClientMessage::Delivery {
        request_id: MessageId::from_bytes([4; 16]),
        request: Request::SyncIndex { after_room: None },
    })
    .unwrap();
    assert_eq!(refusal(save(other)), Refusal::OutboxMismatch);
}

#[test]
fn news_comes_between_a_request_and_its_answer() {
    let id = MessageId::from_bytes([3; 16]);
    let reply = |request_id| RelayMessage::Delivery { request_id, response: Response::Acknowledged };
    assert_eq!(await_answer(id, reply(id)), Ok(Some(Response::Acknowledged)));
    assert_eq!(
        refusal(await_answer(id, reply(MessageId::from_bytes([4; 16])))),
        Refusal::UnexpectedResponse
    );
    assert_eq!(
        await_answer(id, RelayMessage::DeliveryChanged),
        Ok(None)
    );
}

#[test]
fn group_messages_are_canonical() {
    let alice = member();
    let package = alice.packages(1).remove(0);
    assert_eq!(from_wire(&package), Ok(()));
    let mut longer = package.clone();
    longer.push(0);
    assert!(matches!(from_wire(&longer), Err(WireFault::Noncanonical | WireFault::Unreadable)));
    assert_eq!(from_wire(&[]), Err(WireFault::Unreadable));
    assert_eq!(check_package(&alice.engine.store, &package, alice.user()), Ok(()));
    assert_eq!(
        check_package(&alice.engine.store, &[], alice.user()),
        Err(PackageFault::Wire(WireFault::Unreadable))
    );
    let stranger = member().packages(1).remove(0);
    assert_eq!(
        check_package(&alice.engine.store, &stranger, alice.user()),
        Err(PackageFault::Member(StoreError::InvalidData(StoreDefect::UnverifiedMember)))
    );
    let room = RoomId::new().unwrap();
    alice.create_group(room);
    let mut group = alice.group(room).unwrap();
    let body = group.encrypt_application_message(b"x", vec![]).unwrap().to_bytes().unwrap();
    assert_eq!(
        check_package(&alice.engine.store, &body, alice.user()),
        Err(PackageFault::NotAPackage)
    );
    let mut message = event(1, 1, 0);
    message.operation.body = body;
    assert_eq!(check_envelope(&message), Ok(()));
    message.operation.epoch = 1;
    assert_eq!(check_envelope(&message), Err(ProcessingFault::Rejected));
}

#[test]
fn what_groups_say_is_judged() {
    assert_eq!(check_claim(Ok(()), Some(2), 2), Ok(()));
    assert_eq!(check_claim(Ok(()), None, 2), Err(ProcessingFault::Rejected));
    assert_eq!(
        check_claim(Err(WireFault::Unreadable), Some(2), 2),
        Err(ProcessingFault::Rejected)
    );
    assert_eq!(check_epoch(3, 2), Err(ProcessingFault::Blocked));
    assert_eq!(check_epoch(1, 2), Err(ProcessingFault::Rejected));
    assert_eq!(ProcessingFault::Blocked.message(), "Blocked");
    assert_eq!(processing_failure(MlsFailure::Storage), None);
    let (engine, _) = bare();
    let stranger = MemberIdentity { basic: Some(vec![9; 16]), signature_key: vec![1] };
    let list = vec![stranger];
    assert!(!verify_roster(&engine.store, &list));
    assert!(contains_user(&list, UserId::from_bytes([9; 16])));
    assert!(!contains_user(&list, UserId::from_bytes([8; 16])));
    let inviter = UserId::from_bytes([8; 16]);
    assert_eq!(
        check_joined(&engine.store, room(), inviter, &[1], &vec![]),
        Err(JoinFault::AnotherGroup)
    );
    assert_eq!(
        check_joined(&engine.store, room(), inviter, &[7; 16], &list),
        Err(JoinFault::UnverifiedMember)
    );
    assert_eq!(
        check_joined(&engine.store, room(), inviter, &[7; 16], &vec![]),
        Err(JoinFault::InviterMissing)
    );
    assert!(drops_cached_groups(8));
    assert!(!drops_cached_groups(7));
    assert!(require_transaction(false).is_ok());
    assert!(require_transaction(true).is_err());
    assert_eq!(retained_epoch(&[0, 0, 0, 0, 0, 0, 1, 2]), Ok(258));
    assert!(retained_epoch(&[1]).is_err());
    assert_eq!(package_expiration(&[0; 8]), Ok(0));
    assert!(package_expiration(&[0; 9]).is_err());
}

#[test]
fn envelopes_hold_what_events_hold() {
    let message = envelope(&event(5, 9, 3));
    assert_eq!(message.message_id, MessageId::from_bytes([5; 16]));
    assert_eq!(message.sequence, 4);
    assert_eq!(message.body, [5]);
}

#[test]
fn welcomes_wait_until_their_signature_holds() {
    let (mut engine, identity) = bare();
    let changes = engine.store.save_mls_identity(&[3; 32], &[4; 64]).unwrap();
    write(&mut engine.store, changes);
    let card = ContactCard::own(&engine.store, &identity).unwrap();
    let changes = card.import(&engine.store, &card.fingerprint(), size()).unwrap();
    write(&mut engine.store, changes);
    let id = MessageId::from_bytes([6; 16]);
    let transcript =
        grotto::transcripts::welcome_transcript(engine.user, room(), id, 1, &[1, 2]);
    let welcome = |sequence: u64| WelcomeDelivery {
        cursor: 4,
        event: id,
        inviter: engine.user,
        room: room(),
        room_name: "Cave".into(),
        sequence,
        attachment: grotto::delivery::WelcomeAttachment {
            recipient: engine.user,
            body: vec![1, 2],
            signature: identity.sign(&transcript),
        },
    };
    assert_eq!(engine.verify_welcome(&welcome(1)), Ok(()));
    assert_eq!(refusal(engine.verify_welcome(&welcome(0))), Refusal::WelcomeBoundary);
    assert_eq!(refusal(engine.verify_welcome(&welcome(2))), Refusal::WelcomeSignature);
    let changes = engine.join_welcome(4, &welcome(1), false).unwrap();
    let record = encode_message(&welcome(1)).unwrap();
    write(&mut engine.store, vec![ClientChange::Welcome { cursor: 4, record }]);
    let WelcomePlan::Join { cursor, .. } = engine.plan_welcome(0).unwrap() else { panic!() };
    assert_eq!(cursor, 4);
    write(&mut engine.store, changes);
    assert_eq!(engine.cursor(room()), 1);
    assert_eq!(engine.store.list_rooms()[0].2, "welcomed");
    assert!(matches!(engine.plan_welcome(0), Ok(WelcomePlan::Done)));
}

#[test]
fn client_counters() {
    let mut metrics = ClientMetrics::new();
    metrics.count(ClientMetric::BlockedRoom);
    metrics.count(ClientMetric::CommitConflict);
    metrics.count(ClientMetric::CommitConflict);
    assert_eq!(
        metrics.report(),
        "grotto_client_metrics blocked_rooms=1 commit_conflicts=2 recovery_failures=0"
    );
    assert_eq!(Arrival::Blocked.name(), "blocked");
}

fn add_at_once<C: MlsConfig>(adder: &Member<C>, room: RoomId, package: &[u8]) -> Vec<u8> {
    let mut group = adder.group(room).unwrap();
    let commit = group
        .commit_builder()
        .add_member(MlsMessage::from_bytes(package).unwrap())
        .unwrap()
        .build()
        .unwrap();
    group.apply_pending_commit().unwrap();
    group.write_to_storage().unwrap();
    commit.welcome_messages[0].to_bytes().unwrap()
}

#[test]
fn unknown_welcome_member_blocks_without_consuming_private_package() {
    let mut alice = member();
    let mut bob = member();
    let carol = member();
    pin(&mut alice, &bob.card());
    pin(&mut alice, &carol.card());
    pin(&mut bob, &alice.card());
    let room = RoomId::from_bytes([62; 16]);
    alice.create_group(room);
    add_at_once(&alice, room, &carol.packages(1)[0]);
    let body = add_at_once(&alice, room, &bob.packages(1)[0]);
    let welcome = WelcomeDelivery {
        room_name: "Welcome".into(),
        cursor: 1,
        event: fresh(),
        room,
        sequence: 2,
        inviter: alice.user(),
        attachment: grotto::delivery::WelcomeAttachment {
            recipient: bob.user(),
            body,
            signature: alice.identity.sign(b"unused"),
        },
    };
    assert_eq!(bob.join(&welcome), Err(JoinFault::UnverifiedMember));
    assert_eq!(bob.private_packages.key_packages().len(), 1);
    assert!(bob.group(room).is_none());
    pin(&mut bob, &carol.card());
    bob.join(&welcome).unwrap();
    assert_eq!(bob.private_packages.key_packages().len(), 0);
    assert!(bob.group(room).is_some());
}

#[test]
fn processing_takes_its_steps_in_order() {
    let mut state = relay();
    let mut alice = member();
    let mut bob = member();
    pin(&mut alice, &bob.card());
    pin(&mut bob, &alice.card());
    bob.command(UserCommand::PublishKeyPackages(1));
    bob.command(UserCommand::SetFetchGrant { requester: alice.user(), allowed: true });
    bob.drive(&mut state);
    alice.command(UserCommand::CreateRoom("Steps".into()));
    alice.drive(&mut state);
    let room = alice.engine.store.list_rooms()[0].0;
    alice.command(UserCommand::AddToRoom { room_id: room, user_id: bob.user() });
    alice.drive(&mut state);
    bob.drive(&mut state);
    alice.command(UserCommand::SendRoomMessage { room_id: room, body: b"steps".to_vec() });
    alice.drive(&mut state);
    let fetch = Request::FetchRoomEvents { room, after_sequence: 1 };
    let answer = state.deliver(&facts(), bob.user(), fresh(), &fetch, NOW).unwrap();
    let Response::RoomEvents { events, .. } = answer else { panic!() };
    let event = &events[0];
    let store = &bob.engine.store;
    let step = |state, input| process_bound(store, event, state, input);
    let epoch = event.operation.epoch;
    assert_eq!(
        step(Processing::Opened, ProcessingInput::Start),
        (Processing::Loading, ProcessingAction::LoadGroup)
    );
    assert_eq!(
        step(Processing::Loading, ProcessingInput::Group { epoch }),
        (Processing::Receiving, ProcessingAction::Process)
    );
    assert_eq!(
        step(Processing::Loading, ProcessingInput::Group { epoch: epoch + 1 }),
        (Processing::Closed, ProcessingAction::Refuse(ProcessingFault::Rejected))
    );
    assert_eq!(
        step(Processing::Loading, ProcessingInput::Group { epoch: epoch - 1 }),
        (Processing::Closed, ProcessingAction::Refuse(ProcessingFault::Blocked))
    );
    assert_eq!(
        step(Processing::Opened, ProcessingInput::Group { epoch }),
        (Processing::Closed, ProcessingAction::Fail)
    );
    let failed = |failure| {
        step(
            Processing::Receiving,
            ProcessingInput::Message { outcome: Err(failure), members: vec![] },
        )
        .1
    };
    assert_eq!(failed(MlsFailure::Storage), ProcessingAction::Fail);
    assert_eq!(
        failed(MlsFailure::Identity),
        ProcessingAction::Refuse(ProcessingFault::Blocked)
    );
    assert_eq!(failed(MlsFailure::Other), ProcessingAction::Refuse(ProcessingFault::Rejected));
    let received = |sender: UserId| Received {
        contents: Contents::Application { plaintext: b"steps".to_vec() },
        sender: Some(sender.to_bytes().to_vec()),
        authenticated_data: event_authenticated_data(room, event.id, event.operation.parent),
        epoch,
    };
    let taken = |sender, members| {
        step(
            Processing::Receiving,
            ProcessingInput::Message { outcome: Ok(received(sender)), members },
        )
        .1
    };
    assert_eq!(
        taken(alice.user(), vec![]),
        ProcessingAction::Keep(Processed::Application {
            plaintext: b"steps".to_vec(),
            author: alice.user().to_bytes().to_vec(),
        })
    );
    assert_eq!(
        taken(bob.user(), vec![]),
        ProcessingAction::Refuse(ProcessingFault::Rejected)
    );
    let stranger = MemberIdentity { basic: Some(vec![1; 32]), signature_key: vec![2; 32] };
    assert_eq!(
        taken(alice.user(), vec![stranger]),
        ProcessingAction::Refuse(ProcessingFault::Blocked)
    );
}

#[test]
fn an_attempt_leaves_the_other_rooms_and_requests() {
    let (mut engine, identity) = bare();
    let other = RoomId::from_bytes([9; 16]);
    for (wanted, text) in [(room(), b"one"), (other, b"two")] {
        let changes = engine
            .intent(wanted, None, Some(text.to_vec()), true, fresh(), size())
            .unwrap();
        write(&mut engine.store, changes);
    }
    let waiting = fresh();
    let changes = engine.publish(waiting, vec![vec![1]], size()).unwrap();
    write(&mut engine.store, changes);
    let before = engine.store.find_outbox(waiting).unwrap().message;
    let id = fresh();
    let plan = engine.plan_attempt(room(), id, true, false).unwrap();
    let output = GroupOutput { epoch: 0, body: vec![1], welcome: vec![] };
    let changes = engine.attempt(room(), id, &plan, output, &identity, size()).unwrap();
    write(&mut engine.store, changes);
    assert_eq!(engine.open_intents(), vec![other]);
    let AttemptPlan::Send { plaintext, .. } =
        engine.plan_attempt(other, fresh(), true, false).unwrap()
    else {
        panic!()
    };
    assert_eq!(plaintext, b"two");
    assert_eq!(engine.store.find_outbox(waiting).unwrap().message, before);
    assert!(engine.store.find_outbox(id).is_some());
    assert_eq!(engine.store.history(room(), None).unwrap()[0].plaintext, b"one");
    assert!(engine.store.history(other, None).unwrap().is_empty());
}
