//! What holds over several calls, on chosen values.
use grotto::client::errors::StoreError;
use grotto::client::store::{ClientStore, DatabaseSize};
use grotto::client::tables::ClientChange;
use grotto::delivery::{
    Append, MlsContentType, StoredRoomMessage, WelcomeAttachment, WelcomeDelivery, MAX_PAYLOAD,
};
use grotto::ids::{
    AuthenticationChallenge, Ed25519PublicKeyBytes, Ed25519SignatureBytes, MessageId, RoomId,
    UserId,
};
use grotto::messages::RelayMessage;
use grotto::protocol::{authentication_transcript, encode_message, PROTOCOL_VERSION};
use grotto::relay::hub::PendingHandshakes;
use grotto::relay::limits::{charge_for, runtime, StorageFacts, StorageLimits};
use grotto::relay::service::RelayState;
use grotto::relay::state::RelayTables;
use grotto::relay::tables::Change;
use grotto::requests::{Rejection, Request, Response};
use grotto::transcripts::{acknowledgement_id, event_authenticated_data, welcome_transcript};

const NOW: i64 = 1_700_000_000;

fn user(n: u8) -> UserId {
    UserId::from_bytes([n; 16])
}

fn id(n: u128) -> MessageId {
    MessageId::from_bytes(n.to_be_bytes())
}

fn facts() -> StorageFacts {
    StorageFacts { page_size: 4096, page_count: 10, wal: Ok(0), available: Ok(1 << 40) }
}

fn deliver(state: &mut RelayState, user: UserId, id: MessageId, request: &Request) -> Response {
    state.deliver(&facts(), user, id, request, NOW).unwrap()
}

fn append(room: RoomId, parent: u64, body: Vec<u8>, recipient: Option<UserId>) -> Request {
    Request::AppendRoomOperation(Append {
        room,
        parent,
        epoch: 0,
        content_type: MlsContentType::Commit,
        body,
        welcome: recipient.map(|recipient| WelcomeAttachment {
            recipient,
            body: vec![43],
            signature: Ed25519SignatureBytes::new([0; 64]),
        }),
    })
}

fn room(state: &mut RelayState) -> RoomId {
    let Response::RoomCreated { room } =
        deliver(state, user(1), id(1), &Request::CreateRoom { name: "Cave".into() })
    else {
        panic!()
    };
    room
}

#[test]
fn reads_neither_change_nor_journal_anything() {
    let mut state = RelayState::new(StorageLimits::default());
    let room = room(&mut state);
    deliver(&mut state, user(1), id(2), &append(room, 0, vec![1], None));
    for request in [
        Request::SyncIndex { after_room: None },
        Request::FetchWelcomes { after_cursor: 0 },
        Request::FetchRoomEvents { room, after_sequence: 0 },
    ] {
        let plan = state.plan(&facts(), user(1), id(9), &request, NOW, None).unwrap();
        assert!(plan.changes.is_empty());
        let first = deliver(&mut state, user(1), id(9), &request);
        assert_eq!(first, deliver(&mut state, user(1), id(9), &request));
    }
}

#[test]
fn events_stay_where_they_were_put() {
    let mut state = RelayState::new(StorageLimits::default());
    let room = room(&mut state);
    for n in 0..5u8 {
        let request = append(room, n as u64, vec![n], None);
        assert!(matches!(
            deliver(&mut state, user(1), id(10 + n as u128), &request),
            Response::AppendAccepted { .. }
        ));
        let read = Request::FetchRoomEvents { room, after_sequence: 0 };
        let Response::RoomEvents { events, .. } =
            deliver(&mut state, user(1), id(99), &read)
        else {
            panic!()
        };
        let bodies: Vec<u8> = events.iter().map(|event| event.operation.body[0]).collect();
        assert_eq!(bodies, (0..=n).collect::<Vec<u8>>());
    }
}

#[test]
fn charges_never_pass_their_limit() {
    let create = Request::CreateRoom { name: "Cave".into() };
    let one = charge_for(encode_message(&create).unwrap().len());
    let limits = StorageLimits { sender: 3 * one, ..StorageLimits::default() };
    let mut state = RelayState::new(limits);
    for n in 0..3 {
        assert!(matches!(
            deliver(&mut state, user(1), id(n), &create),
            Response::RoomCreated { .. }
        ));
    }
    assert_eq!(
        deliver(&mut state, user(1), id(3), &create),
        Response::Rejected(Rejection::Quota)
    );
    assert!(matches!(
        deliver(&mut state, user(2), id(3), &create),
        Response::RoomCreated { .. }
    ));
}

#[test]
fn answers_fit_their_frames() {
    let mut state = RelayState::new(StorageLimits::default());
    let room = room(&mut state);
    for n in 0..3 {
        let request = append(room, n, vec![7; 500_000], Some(user(2)));
        deliver(&mut state, user(1), id(10 + n as u128), &request);
    }
    let mut after_sequence = 0;
    let mut seen = 0;
    loop {
        let read = Request::FetchRoomEvents { room, after_sequence };
        let response = deliver(&mut state, user(2), id(99), &read);
        let frame = encode_message(&RelayMessage::Delivery {
            request_id: id(99),
            response: response.clone(),
        })
        .unwrap();
        assert!(frame.len() <= 1024 * 1024);
        let Response::RoomEvents { events, more, .. } = response else { panic!() };
        assert!(!events.is_empty());
        seen += events.len();
        after_sequence += events.len() as u64;
        if !more {
            break;
        }
    }
    assert_eq!(seen, 3);
}

#[test]
fn invitations_fit_their_frames_under_high_cursors() {
    let delivery = |body: usize| WelcomeDelivery {
        cursor: 0,
        event: id(7),
        inviter: user(1),
        room: RoomId::from_bytes([1; 16]),
        room_name: "Cave".into(),
        sequence: 1,
        attachment: WelcomeAttachment {
            recipient: user(2),
            body: vec![9; body],
            signature: Ed25519SignatureBytes::new([0; 64]),
        },
    };
    let around = encode_message(&delivery(7000)).unwrap().len() - 7000;
    let record = || encode_message(&delivery(7863 - around)).unwrap();
    assert_eq!(record().len(), 7863);
    let mut tables = RelayTables::new();
    for n in 0..150u64 {
        let cursor = (1 << 40) + n;
        tables.apply(Change::Welcome { cursor, recipient: user(2), record: record() }).unwrap();
    }
    let mut state = RelayState::with_tables(tables, StorageLimits::default());
    let mut after_cursor = 0;
    let mut pages = Vec::new();
    loop {
        let read = Request::FetchWelcomes { after_cursor };
        let response = deliver(&mut state, user(2), id(99), &read);
        let message = RelayMessage::Delivery { request_id: id(99), response };
        assert!(encode_message(&message).unwrap().len() <= MAX_PAYLOAD);
        let RelayMessage::Delivery { response: Response::Welcomes { welcomes, more, .. }, .. } =
            message
        else {
            panic!()
        };
        after_cursor = welcomes.last().unwrap().cursor;
        pages.push(welcomes.len());
        if !more {
            break;
        }
    }
    assert_eq!(pages, [99, 51]);
}

#[test]
fn a_released_place_is_free_again() {
    let limits = runtime(&mut None);
    let mut pending = PendingHandshakes::new();
    let address = [4; 17];
    for _ in 0..limits.handshakes_per_ip {
        assert!(pending.acquire(address, &limits));
    }
    assert!(!pending.acquire(address, &limits));
    pending.release(address);
    assert!(pending.acquire(address, &limits));
}

#[test]
fn transcripts_bind_every_field() {
    let room = RoomId::from_bytes([1; 16]);
    let other = RoomId::from_bytes([2; 16]);
    let data = event_authenticated_data(room, id(1), 3);
    for changed in [
        event_authenticated_data(other, id(1), 3),
        event_authenticated_data(room, id(2), 3),
        event_authenticated_data(room, id(1), 4),
    ] {
        assert_ne!(data, changed);
    }
    let welcome = welcome_transcript(user(1), room, id(1), 3, &[5]);
    for changed in [
        welcome_transcript(user(2), room, id(1), 3, &[5]),
        welcome_transcript(user(1), other, id(1), 3, &[5]),
        welcome_transcript(user(1), room, id(2), 3, &[5]),
        welcome_transcript(user(1), room, id(1), 4, &[5]),
        welcome_transcript(user(1), room, id(1), 3, &[6]),
        welcome_transcript(user(1), room, id(1), 3, &[5, 0]),
    ] {
        assert_ne!(welcome, changed);
    }
    let key = Ed25519PublicKeyBytes::new([1; 32]);
    let challenge = AuthenticationChallenge::from_bytes([2; 32]);
    let transcript = authentication_transcript(PROTOCOL_VERSION, user(1), &key, &challenge);
    for changed in [
        authentication_transcript(PROTOCOL_VERSION + 1, user(1), &key, &challenge),
        authentication_transcript(PROTOCOL_VERSION, user(2), &key, &challenge),
        authentication_transcript(
            PROTOCOL_VERSION,
            user(1),
            &Ed25519PublicKeyBytes::new([3; 32]),
            &challenge,
        ),
        authentication_transcript(
            PROTOCOL_VERSION,
            user(1),
            &key,
            &AuthenticationChallenge::from_bytes([3; 32]),
        ),
    ] {
        assert_ne!(transcript, changed);
    }
    assert_ne!(
        acknowledgement_id(user(1), &[id(1)], &[]),
        acknowledgement_id(user(1), &[], &[1])
    );
}

#[test]
fn a_refreshed_message_takes_its_whole_envelope() {
    let mut store = ClientStore::new(1 << 30);
    let placed = |message: u128, room: u8, sequence: u64, sender: u8, body: u8| StoredRoomMessage {
        message_id: id(message),
        room_id: RoomId::from_bytes([room; 16]),
        sequence,
        sender_id: user(sender),
        epoch: 0,
        content_type: MlsContentType::Application,
        body: vec![body],
    };
    let message = |sequence: u64, sender: u8, body: u8| placed(1, 1, sequence, sender, body);
    let write = |store: &mut ClientStore, changes: Vec<ClientChange>| {
        store.transaction(1).unwrap();
        store.commit(1, changes).unwrap();
    };
    let (new, changes) = store.store_message(&message(0, 1, 1)).unwrap();
    assert!(new);
    write(&mut store, changes);
    let changes = store.refresh_message(&message(7, 1, 2)).unwrap();
    write(&mut store, changes);
    assert!(!store.store_message(&message(7, 1, 2)).unwrap().0);
    assert!(store.store_message(&message(0, 1, 1)).is_err());
    assert!(store.refresh_message(&message(u64::MAX, 1, 2)).is_err());
    let moved = placed(1, 2, 9, 3, 4);
    let changes = store.refresh_message(&moved).unwrap();
    write(&mut store, changes);
    assert!(!store.store_message(&moved).unwrap().0);
    assert!(store.store_message(&message(9, 1, 4)).is_err());
    assert!(store.store_message(&placed(1, 2, 9, 1, 4)).is_err());
    // The place that it left is free, and the place that it took is not.
    let changes = store.refresh_message(&placed(2, 1, 7, 1, 1)).unwrap();
    write(&mut store, changes);
    assert_eq!(store.refresh_message(&placed(2, 2, 9, 1, 1)), Err(StoreError::Database));
    let size = DatabaseSize { page_size: 4096, page_count: 1 };
    assert!(store.admit_new_data(1, size).is_ok());
}

#[test]
fn changes_that_do_not_fit_leave_the_tables() {
    let mut tables = RelayTables::new();
    let room = RoomId::from_bytes([1; 16]);
    let event = |sequence: u64, event: u128| Change::Event {
        room,
        sequence,
        id: id(event),
        sender: user(1),
        record: vec![],
    };
    tables
        .commit(vec![event(1, 1), Change::SenderUsage { user: user(1), bytes: 5 }])
        .unwrap();
    let changes = vec![
        event(2, 2),
        Change::SenderUsage { user: user(1), bytes: 7 },
        Change::SenderUsage { user: user(2), bytes: 7 },
        Change::RoomUsage { room, bytes: 7 },
        event(2, 3),
    ];
    assert!(tables.commit(changes).is_err());
    assert_eq!(tables.head(room), 1);
    assert!(tables.knows_event(id(1)) && !tables.knows_event(id(2)));
    assert_eq!(tables.sender_charge(user(1)), 5);
    assert_eq!(tables.sender_charge(user(2)), 0);
    assert_eq!(tables.room_charge(room), 0);
}

#[test]
fn a_created_room_is_empty() {
    let mut state = RelayState::new(StorageLimits::default());
    let facts =
        StorageFacts { page_size: 4096, page_count: 10, wal: Ok(0), available: Ok(1 << 40) };
    let create = Request::CreateRoom { name: " Cave ".into() };
    let Response::RoomCreated { room } =
        state.deliver(&facts, user(1), id(1), &create, NOW).unwrap()
    else {
        panic!()
    };
    let index = Request::SyncIndex { after_room: None };
    let Response::SyncIndex { rooms, more } =
        state.deliver(&facts, user(1), id(2), &index, NOW).unwrap()
    else {
        panic!()
    };
    assert_eq!((rooms.len(), more), (1, false));
    assert_eq!((rooms[0].room, rooms[0].name.as_str(), rooms[0].sequence), (room, "Cave", 0));
    let fetch = Request::FetchRoomEvents { room, after_sequence: 0 };
    let Response::RoomEvents { events, more, .. } =
        state.deliver(&facts, user(1), id(3), &fetch, NOW).unwrap()
    else {
        panic!()
    };
    assert!(events.is_empty() && !more);
    assert!(matches!(
        state.deliver(&facts, user(2), id(3), &fetch, NOW).unwrap(),
        Response::Rejected(Rejection::Unauthorized)
    ));
}
