//! The client's store: identity, contacts, journal, messages and receipts.
use grotto::client::contacts::{ContactCard, MemberIdentity, VerifiedIdentityProvider, CARD_BYTES};
use grotto::client::errors::{StoreDefect, StoreError};
use grotto::client::groups::generate_key_material;
use grotto::client::identity::{
    default_identity_directory, ClientIdentity, IdentityError,
};
use grotto::client::store::{
    initialize, page_limit, storage_budget, stored_message_id, stored_room_id, stored_seed,
    stored_user_id, ClientStore, DatabaseSize, OutboxEntry, SchemaStep, APPLICATION_ID,
    MAX_ACK_CHUNK, SCHEMA_VERSION,
};
use grotto::client::tables::{Arrival, ClientChange};
use grotto::delivery::{MlsContentType, StoredRoomMessage};
use grotto::files::{
    check_database, check_directory, default_directory, DataRoot, FileError, FileFacts,
};
use grotto::ids::{MessageId, RoomId, UserId};

const BUDGET: u64 = 1 << 30;

fn size() -> DatabaseSize {
    DatabaseSize { page_size: 4096, page_count: 20 }
}

fn write(store: &mut ClientStore, changes: Vec<ClientChange>) {
    store.transaction(1).unwrap();
    store.commit(1, changes).unwrap();
}

/// Writes the same to two stores, of which one stands for what the disk holds.
fn write_both(
    store: &mut ClientStore,
    disk: &mut ClientStore,
    plan: impl Fn(&ClientStore) -> Vec<ClientChange>,
) {
    let first = plan(store);
    let second = plan(store);
    write(store, first);
    write(disk, second);
}

fn new_identity(store: &mut ClientStore) -> ClientIdentity {
    let (identity, changes) = store.identity().unwrap();
    write(store, changes);
    identity
}

fn load_outbox(store: &ClientStore) -> Vec<OutboxEntry> {
    store.outbox_page(0).into_iter().map(|(_, entry)| entry).collect()
}

fn invalid<T>(result: Result<T, StoreError>) -> StoreDefect {
    match result {
        Err(StoreError::InvalidData(defect)) => defect,
        Err(other) => panic!("another error: {other:?}"),
        Ok(_) => panic!("no error"),
    }
}

#[test]
fn signatures_fingerprints_changed_keys_and_claimed_names_fail_closed() {
    let mut store = ClientStore::new(BUDGET);
    let signer = new_identity(&mut store);
    assert_eq!(
        invalid(ContactCard::own(&store, &signer)),
        StoreDefect::MlsIdentityMissing
    );
    let keys = generate_key_material().unwrap();
    let changes = store.save_mls_identity(&keys.public, &keys.secret).unwrap();
    write(&mut store, changes);
    let card = ContactCard::own(&store, &signer).unwrap();
    assert!(card.import(&store, &"00".repeat(32), size()).is_err());
    let changes = card.import(&store, &card.fingerprint(), size()).unwrap();
    write(&mut store, changes);
    let mut tampered = ContactCard::own(&store, &signer).unwrap();
    tampered.mls_key[0] ^= 1;
    assert!(ContactCard::parse(&tampered.encode()).is_err());
    tampered.signature = *signer.sign(&tampered.transcript()).as_bytes();
    assert!(tampered.import(&store, &tampered.fingerprint(), size()).is_err());
    let provider = VerifiedIdentityProvider(&store);
    let identity = MemberIdentity {
        basic: Some(card.user.to_bytes().to_vec()),
        signature_key: card.mls_key.to_vec(),
    };
    assert!(provider.verify(&identity).is_ok());
    let substituted = MemberIdentity {
        basic: Some(card.user.to_bytes().to_vec()),
        signature_key: tampered.mls_key.to_vec(),
    };
    assert!(provider.verify(&substituted).is_err());
    let wrong_name = MemberIdentity {
        basic: Some(vec![9; 16]),
        signature_key: card.mls_key.to_vec(),
    };
    assert!(provider.verify(&wrong_name).is_err());
    assert!(ContactCard::parse(&"é".repeat(145)).is_err());
}

#[test]
fn each_defect_of_a_card() {
    let mut store = ClientStore::new(BUDGET);
    let signer = new_identity(&mut store);
    let changes = store.save_mls_identity(&[7; 32], &[8; 64]).unwrap();
    write(&mut store, changes);
    let card = ContactCard::own(&store, &signer).unwrap();
    let text = card.encode();
    assert_eq!(text.len(), 2 * CARD_BYTES);
    assert_eq!(&text[..2], "01");
    assert_eq!(ContactCard::parse(&text).unwrap().bytes(), card.bytes());
    assert_eq!(ContactCard::parse(&text.to_uppercase()).unwrap().bytes(), card.bytes());
    let signed = format!("+1{}", &text[2..]);
    assert_eq!(ContactCard::parse(&signed).unwrap().bytes(), card.bytes());
    assert_eq!(invalid(ContactCard::parse(&text[1..])), StoreDefect::CardSize);
    assert_eq!(invalid(ContactCard::parse(&"é".repeat(145))), StoreDefect::CardSize);
    assert_eq!(
        invalid(ContactCard::parse(&format!("zz{}", &text[2..]))),
        StoreDefect::CardEncoding
    );
    assert_eq!(
        invalid(ContactCard::parse(&format!("02{}", &text[2..]))),
        StoreDefect::CardVersion
    );
    let mut other = ContactCard::own(&store, &signer).unwrap();
    other.transport_key = [0; 32];
    assert_eq!(invalid(ContactCard::parse(&other.encode())), StoreDefect::CardSignature);
    assert_eq!(
        invalid(other.import(&store, &other.fingerprint(), size())),
        StoreDefect::CardSignature
    );
    assert_eq!(invalid(card.import(&store, "zz", size())), StoreDefect::Fingerprint);
    assert_eq!(
        invalid(card.import(&store, &"00".repeat(32), size())),
        StoreDefect::FingerprintMismatch
    );
    let full = DatabaseSize { page_size: 1 << 20, page_count: 1 << 20 };
    assert_eq!(
        card.import(&store, &card.fingerprint(), full),
        Err(StoreError::Quota)
    );
    let changes = card.import(&store, &card.fingerprint(), size()).unwrap();
    write(&mut store, changes);
    assert!(card.import(&store, &card.fingerprint(), size()).unwrap().is_empty());
    let mut changed = ContactCard::own(&store, &signer).unwrap();
    changed.mls_key = [9; 32];
    changed.signature = *signer.sign(&changed.transcript()).as_bytes();
    assert_eq!(
        invalid(changed.import(&store, &changed.fingerprint(), size())),
        StoreDefect::PinChanged
    );
    assert_eq!(store.require_contact(card.user).unwrap().bytes(), card.bytes());
    assert_eq!(store.list_contacts().unwrap(), vec![(card.user, card.fingerprint())]);
    assert_eq!(
        store.require_contact(UserId::from_bytes([1; 16])).map(|_| ()),
        Err(StoreError::Database)
    );
}

#[test]
fn members_are_verified_against_their_pins() {
    let mut store = ClientStore::new(BUDGET);
    let user = UserId::from_bytes([4; 16]);
    write(
        &mut store,
        vec![ClientChange::Contact { user, mls_key: [5; 32], card: vec![0; CARD_BYTES] }],
    );
    let provider = VerifiedIdentityProvider(&store);
    let member = |basic: Option<Vec<u8>>, key: u8| MemberIdentity {
        basic,
        signature_key: vec![key; 32],
    };
    let known = || member(Some(vec![4; 16]), 5);
    assert_eq!(provider.verify(&known()), Ok(vec![4; 16]));
    assert_eq!(invalid(provider.verify(&member(None, 5))), StoreDefect::NonBasicCredential);
    assert_eq!(
        invalid(provider.verify(&member(Some(vec![4; 15]), 5))),
        StoreDefect::CredentialLength
    );
    assert_eq!(
        invalid(provider.verify(&member(Some(vec![3; 16]), 5))),
        StoreDefect::UnverifiedMember
    );
    assert_eq!(
        invalid(provider.verify(&member(Some(vec![4; 16]), 6))),
        StoreDefect::MemberKeyChanged
    );
    assert_eq!(invalid(provider.validate_external_sender()), StoreDefect::ExternalSender);
    assert_eq!(provider.valid_successor(&known(), &known()), Ok(true));
    assert!(provider.valid_successor(&known(), &member(Some(vec![4; 16]), 6)).is_err());
}

#[test]
fn generated_keys_make_a_card() {
    let first = generate_key_material().unwrap();
    let second = generate_key_material().unwrap();
    assert_eq!(first.public.len(), 32);
    assert_eq!(first.secret.len(), 64);
    assert_eq!(first.secret[32..], first.public[..]);
    assert_ne!(first.public, second.public);
    let seed: [u8; 32] = first.secret[..32].try_into().unwrap();
    let identity = ClientIdentity::from_seed(UserId::from_bytes([0; 16]), seed);
    assert_eq!(identity.verifying_key().as_bytes()[..], first.public[..]);
}

#[test]
fn storage_budget_rejects_new_data_but_preserves_existing_state() {
    let mut store = ClientStore::new(0);
    let identity = new_identity(&mut store).user_id();
    assert!(matches!(store.admit_new_data(1, size()), Err(StoreError::Quota)));
    assert_eq!(store.identity().unwrap().0.user_id(), identity);
    assert!(store.outbox_page(0).is_empty());
}

#[test]
fn budget_is_exact() {
    let used = 20 * 4096 + 3 * 100 + 64 * 1024;
    assert_eq!(ClientStore::new(used).admit_new_data(100, size()), Ok(()));
    assert_eq!(
        ClientStore::new(used - 1).admit_new_data(100, size()),
        Err(StoreError::Quota)
    );
    assert_eq!(storage_budget(&None), Ok(1 << 30));
    assert_eq!(storage_budget(&Some("131072".into())), Ok(131072));
    assert_eq!(
        invalid(storage_budget(&Some("131071".into()))),
        StoreDefect::BudgetRange
    );
    assert_eq!(
        invalid(storage_budget(&Some("9223372036787666944".into()))),
        StoreDefect::BudgetRange
    );
    assert_eq!(storage_budget(&Some("9223372036787666943".into())), Ok(9223372036787666943));
    assert_eq!(invalid(storage_budget(&Some("much".into()))), StoreDefect::InvalidBudget);
    assert_eq!(page_limit(1 << 30, 4096), ((1 << 30) + (64 << 20)) / 4096);
}

fn test_message(sequence: u64) -> StoredRoomMessage {
    StoredRoomMessage {
        message_id: MessageId::from_bytes([0x11; 16]),
        room_id: RoomId::from_bytes([0x22; 16]),
        sequence,
        sender_id: UserId::from_bytes([0x33; 16]),
        epoch: 0,
        content_type: MlsContentType::Application,
        body: b"hello".to_vec(),
    }
}

fn test_message_with_id(id: u8, sequence: u64) -> StoredRoomMessage {
    StoredRoomMessage {
        message_id: MessageId::from_bytes([id; 16]),
        epoch: 0,
        content_type: MlsContentType::Application,
        ..test_message(sequence)
    }
}

#[test]
fn identity_is_atomic_and_unknown_schemas_are_preserved() {
    let mut store = ClientStore::new(BUDGET);
    let identity = new_identity(&mut store);
    let mut reopened = ClientStore::new(BUDGET);
    write(
        &mut reopened,
        vec![ClientChange::Identity {
            user: identity.user_id(),
            seed: *identity.signing_key(),
        }],
    );
    let (reloaded, changes) = reopened.identity().unwrap();
    assert!(changes.is_empty());
    assert_eq!(identity.user_id(), reloaded.user_id());
    assert_eq!(identity.signing_key(), reloaded.signing_key());
    assert!(matches!(
        initialize(2, APPLICATION_ID, 12),
        Err(StoreError::UnsupportedSchema(2))
    ));
}

#[test]
fn schemas_are_kept_made_or_refused() {
    assert_eq!(initialize(SCHEMA_VERSION, APPLICATION_ID, 15), Ok(SchemaStep::Ready));
    assert_eq!(initialize(0, 0, 0), Ok(SchemaStep::Create));
    assert_eq!(initialize(0, 0, 1), Err(StoreError::UnsupportedSchema(0)));
    assert_eq!(initialize(0, 1, 0), Err(StoreError::UnsupportedSchema(0)));
    assert_eq!(initialize(SCHEMA_VERSION, 0, 0), Err(StoreError::UnsupportedSchema(9)));
}

#[test]
fn outbox_attempts_cannot_be_overwritten() {
    let mut store = ClientStore::new(BUDGET);
    let id = MessageId::from_bytes([91; 16]);
    let changes = store.save_outbox(id, "send", b"original").unwrap();
    write(&mut store, changes);
    let changes = store.save_outbox(id, "send", b"original").unwrap();
    write(&mut store, changes);
    assert!(store.save_outbox(id, "send", b"replacement").is_err());
    assert!(store.save_outbox(id, "create", b"original").is_err());
    assert_eq!(load_outbox(&store)[0].message, b"original");
}

#[test]
fn stored_messages_deduplicate_across_reopen() {
    let mut store = ClientStore::new(BUDGET);
    let mut disk = ClientStore::new(BUDGET);
    assert!(store.store_message(&test_message(1)).expect("store").0);
    write_both(&mut store, &mut disk, |store| store.store_message(&test_message(1)).unwrap().1);
    assert!(!store.store_message(&test_message(1)).expect("re-store").0);
    assert!(store.has_message(MessageId::from_bytes([0x11; 16])));

    assert!(
        !disk.store_message(&test_message(1)).expect("dedup after reopen").0,
        "message seen before restart must not be new"
    );
    assert!(disk.store_message(&test_message_with_id(0x12, 2)).expect("new id is new").0);
}

#[test]
fn envelopes_are_never_replaced() {
    let mut store = ClientStore::new(BUDGET);
    let (_, changes) = store.store_message(&test_message(1)).unwrap();
    write(&mut store, changes);
    assert_eq!(
        invalid(store.store_message(&test_message(2))),
        StoreDefect::EnvelopeReused
    );
    assert_eq!(
        invalid(store.store_message(&test_message_with_id(0x12, 1 << 63))),
        StoreDefect::SequenceRange
    );
    assert_eq!(
        store.store_message(&test_message_with_id(0x12, 1)),
        Err(StoreError::Database)
    );
}

#[test]
fn outbox_round_trips_in_order_and_removes() {
    let mut store = ClientStore::new(BUDGET);
    let first = MessageId::from_bytes([0x01; 16]);
    let second = MessageId::from_bytes([0x02; 16]);
    let changes = store.save_outbox(first, "SendRoomMessage", b"one").expect("save");
    write(&mut store, changes);
    let changes = store.save_outbox(second, "CreateRoom", b"two").expect("save");
    write(&mut store, changes);

    let entries = load_outbox(&store);
    assert_eq!(entries.len(), 2);
    assert_eq!(entries[0].request_id, first);
    assert_eq!(entries[0].kind, "SendRoomMessage");
    assert_eq!(entries[1].message, b"two");

    let changes = store.remove_outbox(first);
    write(&mut store, changes);
    let entries = load_outbox(&store);
    assert_eq!(entries.len(), 1);
    assert_eq!(entries[0].request_id, second);
    assert!(store.find_outbox(first).is_none());
    assert_eq!(store.find_outbox(second).unwrap().kind, "CreateRoom");
}

#[test]
fn outbox_pages_follow_one_another() {
    let mut store = ClientStore::new(BUDGET);
    for n in 0..150u8 {
        let changes =
            store.save_outbox(MessageId::from_bytes([n; 16]), "x", &[n]).unwrap();
        write(&mut store, changes);
    }
    let mut seen = Vec::new();
    let mut after = 0;
    loop {
        let page = store.outbox_page(after);
        let Some((last, _)) = page.last() else { break };
        assert!(page.len() <= 100);
        after = *last;
        seen.extend(page.into_iter().map(|(_, entry)| entry.message[0]));
    }
    assert_eq!(seen, (0..150).collect::<Vec<u8>>());
}

#[test]
fn pending_acks_survive_restart_until_cleared() {
    let id = MessageId::from_bytes([0x09; 16]);
    let room = RoomId::from_bytes([0x08; 16]);
    let mut store = ClientStore::new(BUDGET);
    let mut disk = ClientStore::new(BUDGET);
    write_both(&mut store, &mut disk, |store| store.record_pending_acks(&[(id, room)]));
    write_both(&mut store, &mut disk, |store| store.record_pending_acks(&[(id, room)]));

    assert_eq!(disk.load_pending_acks(), vec![(id, room)]);
    let changes = disk.clear_pending_acks(&[id]);
    write(&mut disk, changes);
    assert!(disk.load_pending_acks().is_empty());
}

#[test]
fn welcome_receipts_are_kept_apart() {
    let id = MessageId::from_bytes([0x09; 16]);
    let room = RoomId::from_bytes([0x08; 16]);
    let mut store = ClientStore::new(BUDGET);
    let changes = store.record_pending_welcome_acks(&[(id, room)]);
    write(&mut store, changes);
    assert!(store.load_pending_acks().is_empty());
    assert_eq!(store.load_pending_welcome_acks(), vec![(id, room)]);
    let changes = store.clear_pending_welcome_acks(&[id]);
    write(&mut store, changes);
    assert!(store.load_pending_welcome_acks().is_empty());
    let many: Vec<(MessageId, RoomId)> =
        (0..150u128).map(|n| (MessageId::from_bytes(n.to_be_bytes()), room)).collect();
    let changes = store.record_pending_acks(&many);
    write(&mut store, changes);
    assert_eq!(store.load_pending_acks(), many);
    assert_eq!(MAX_ACK_CHUNK, 100);
}

#[test]
fn history_is_paged_from_the_newest() {
    let mut store = ClientStore::new(BUDGET);
    let author = UserId::from_bytes([1; 16]);
    for n in 1..=120u8 {
        let changes = store
            .record_plaintext(&test_message_with_id(n, n as u64), author, &[n])
            .unwrap();
        write(&mut store, changes);
    }
    let room = RoomId::from_bytes([0x22; 16]);
    let page = store.history(room, None).unwrap();
    assert_eq!(page.len(), 100);
    assert_eq!(page.first().unwrap().sequence, 21);
    assert_eq!(page.last().unwrap().sequence, 120);
    let rest = store.history(room, Some(21)).unwrap();
    assert_eq!(rest.len(), 20);
    assert_eq!(rest[0].plaintext, [1]);
    assert_eq!(rest.last().unwrap().sequence, 20);
    assert!(store.history(RoomId::from_bytes([1; 16]), None).unwrap().is_empty());
    assert_eq!(store.history(room, Some(1 << 63)), Err(StoreError::Database));
}

#[test]
fn processing_settles_once_applied_or_rejected() {
    let mut store = ClientStore::new(BUDGET);
    let id = MessageId::from_bytes([3; 16]);
    for (state, settled) in [
        (Arrival::Received, false),
        (Arrival::Blocked, false),
        (Arrival::Rejected, true),
        (Arrival::Applied, true),
    ] {
        let changes = store.set_processing(id, state);
        write(&mut store, changes);
        assert_eq!(store.is_settled(id), settled);
        assert_eq!(Arrival::named(&state.name().to_string()), Some(state));
    }
    assert_eq!(Arrival::named(&"lost".to_string()), None);
    assert!(!store.is_settled(MessageId::from_bytes([4; 16])));
}

#[test]
fn rooms_are_listed_by_name() {
    let mut store = ClientStore::new(BUDGET);
    for (id, name, origin) in
        [(1, "Well", "created"), (2, "Cave", "joined"), (3, "Moss", "created")]
    {
        let changes = store.upsert_room(RoomId::from_bytes([id; 16]), name, origin).unwrap();
        write(&mut store, changes);
    }
    let names: Vec<String> = store.list_rooms().into_iter().map(|room| room.1).collect();
    assert_eq!(names, ["Cave", "Moss", "Well"]);
    let changes =
        store.upsert_room(RoomId::from_bytes([2; 16]), "  Zinc ", "joined").unwrap();
    write(&mut store, changes);
    assert_eq!(store.room_name(RoomId::from_bytes([2; 16])), Some("Zinc".to_string()));
    assert_eq!(store.room_name(RoomId::from_bytes([9; 16])), None);
    assert_eq!(
        invalid(store.upsert_room(RoomId::from_bytes([4; 16]), "", "created")),
        StoreDefect::RoomName
    );
}

#[test]
fn group_keys_are_set_once() {
    let mut store = ClientStore::new(BUDGET);
    assert_eq!(store.load_mls_identity(), None);
    let changes = store.save_mls_identity(&[1], &[2]).unwrap();
    write(&mut store, changes);
    assert_eq!(store.load_mls_identity(), Some((vec![1], vec![2])));
    assert!(store.save_mls_identity(&[1], &[2]).is_ok());
    assert_eq!(
        invalid(store.save_mls_identity(&[1], &[3])),
        StoreDefect::MlsIdentityReplaced
    );
    let identity = ClientIdentity::from_seed(UserId::from_bytes([0; 16]), [1; 32]);
    assert_eq!(invalid(ContactCard::own(&store, &identity)), StoreDefect::MlsPublicKey);
}

#[test]
fn one_worker_at_a_time() {
    let mut store = ClientStore::new(BUDGET);
    store.transaction(1).unwrap();
    assert_eq!(invalid(store.transaction(1)), StoreDefect::NestedTransaction);
    assert_eq!(invalid(store.lock(2)), StoreDefect::ForeignTransaction);
    assert_eq!(store.lock_provider(), Ok(()));
    store.rollback(1, true);
    assert_eq!(store.lock(2), Ok(()));
    store.transaction(2).unwrap();
    store.rollback(2, false);
    assert_eq!(store.lock(2), Err(StoreError::LockPoisoned));
    assert_eq!(store.lock_provider(), Err(StoreError::LockPoisoned));
}

#[test]
fn a_broken_constraint_takes_the_whole_transaction_back() {
    let mut store = ClientStore::new(BUDGET);
    let user = UserId::from_bytes([1; 16]);
    let (room, id) = (RoomId::from_bytes([2; 16]), MessageId::from_bytes([3; 16]));
    let (named, request) = (String::from("Cave"), MessageId::from_bytes([4; 16]));
    let text = |plaintext: u8| ClientChange::History {
        message_id: id,
        room,
        sequence: 4,
        author: user,
        plaintext: vec![plaintext],
    };
    write(
        &mut store,
        vec![
            ClientChange::Identity { user, seed: [0; 32] },
            text(1),
            ClientChange::Room { room, name: named.clone(), origin: "created".into() },
            ClientChange::Outbox {
                rowid: 1,
                request_id: request,
                kind: "Delivery".into(),
                message: vec![5],
            },
            ClientChange::Ack { message_id: id, room },
        ],
    );
    store.transaction(1).unwrap();
    let changes = vec![
        ClientChange::OutboxRemoved { request_id: request },
        ClientChange::Room { room, name: "Other".into(), origin: "welcomed".into() },
        ClientChange::HistorySequence { message_id: id, sequence: 9 },
        ClientChange::HistoryRemoved { message_id: id },
        text(2),
        ClientChange::AckCleared { message_id: id },
        ClientChange::MlsIdentity { public_key: vec![1], secret_key: vec![2] },
        ClientChange::Identity { user, seed: [1; 32] },
    ];
    assert_eq!(store.commit(1, changes), Err(StoreError::Database));
    // The transaction is over, and the store goes on as it was.
    assert_eq!(store.lock(2), Ok(()));
    assert_eq!(store.list_rooms(), vec![(room, named, "created".to_string())]);
    let history = store.history(room, None).unwrap();
    assert_eq!(history.len(), 1);
    assert_eq!((history[0].sequence, &history[0].plaintext), (4, &vec![1]));
    assert_eq!(store.find_outbox(request).unwrap().message, vec![5]);
    assert_eq!(store.load_pending_acks(), vec![(id, room)]);
    assert_eq!(store.load_mls_identity(), None);
    assert_eq!(store.identity().unwrap().0.user_id(), user);
}

#[test]
fn stored_identifiers_have_their_lengths() {
    assert_eq!(stored_message_id(&[1; 16]), Ok(MessageId::from_bytes([1; 16])));
    assert_eq!(invalid(stored_message_id(&[1; 15])), StoreDefect::MessageIdLength);
    assert_eq!(stored_room_id(&[1; 16]), Ok(RoomId::from_bytes([1; 16])));
    assert_eq!(invalid(stored_room_id(&[])), StoreDefect::RoomIdLength);
    assert_eq!(stored_user_id(&[1; 16]), Ok(UserId::from_bytes([1; 16])));
    assert_eq!(invalid(stored_user_id(&[1; 17])), StoreDefect::UserIdLength);
    assert_eq!(stored_seed(&[1; 32]), Ok([1; 32]));
    assert_eq!(invalid(stored_seed(&[1; 31])), StoreDefect::IdentitySeed);
    let store = ClientStore::new(BUDGET);
    assert_eq!(invalid(store.identity_with(None).map(|_| ())), StoreDefect::IdentityRandomness);
}

#[test]
fn errors_are_told_in_words() {
    for (error, text) in [
        (StoreError::Quota, "client storage budget exhausted; new data rejected"),
        (StoreError::LockPoisoned, "client store lock poisoned"),
        (
            StoreError::InvalidData(StoreDefect::PinChanged),
            "invalid client store data: contact keys changed; pin preserved",
        ),
        (
            StoreError::UnsupportedSchema(2),
            "unsupported client store schema version 2",
        ),
        (
            StoreError::UnsupportedSchema(-7),
            "unsupported client store schema version -7",
        ),
    ] {
        assert_eq!(error.message(), text);
    }
}

#[test]
fn identity_directories() {
    assert_eq!(default_identity_directory(Some(true), false), Ok(DataRoot::DataHome));
    assert_eq!(default_identity_directory(None, true), Ok(DataRoot::Home));
    assert_eq!(default_directory(Some(false), false), None);
    assert_eq!(default_directory(Some(true), true), Some(DataRoot::DataHome));
    assert_eq!(default_identity_directory(Some(false), true), Ok(DataRoot::Home));
    assert!(default_identity_directory(Some(false), false).is_err());
    let Err(IdentityError::InvalidState(text)) = default_identity_directory(None, false) else {
        panic!()
    };
    assert!(!text.is_empty());
}

#[test]
fn rejects_unsafe_files_symlinks_and_simultaneous_clients() {
    let file = FileFacts { is_file: true, is_dir: false, owner: 7, mode: 0o600, length: 0 };
    assert_eq!(check_database(&file, 7), Ok(()));
    assert_eq!(
        check_database(&FileFacts { mode: 0o644, ..file }, 7),
        Err(FileError::Database)
    );
    // A link is not a file.
    assert_eq!(
        check_database(&FileFacts { is_file: false, ..file }, 7),
        Err(FileError::Database)
    );
    let directory = FileFacts { is_file: false, is_dir: true, owner: 7, mode: 0o755, length: 0 };
    assert_eq!(check_directory(&directory, 7), Err(FileError::Directory));
}
