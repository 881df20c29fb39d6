//! The relay's rooms, invitations, quotas and enrollment.
use grotto::delivery::{
    Append, MlsContentType, WelcomeAttachment, MAX_KEY_PACKAGE_BYTES, MAX_MLS_BLOB_BYTES,
    MAX_PAYLOAD,
};
use grotto::ids::{
    AuthenticationChallenge, Ed25519PublicKeyBytes, Ed25519SignatureBytes, MessageId, RoomId,
    UserId,
};
use grotto::messages::RelayMessage;
use grotto::protocol::{encode_message, parse_fingerprint_hex};
use grotto::relay::deliver::Outcome;
use grotto::relay::enrollment::{Registration, TOKEN_LIFETIME};
use grotto::relay::limits::{charge_for, StorageFacts, StorageLimits};
use grotto::relay::metrics::Metric;
use grotto::relay::service::RelayState;
use grotto::relay::state::RelayTables;
use grotto::relay::tables::{Change, Defect, StorageError};
use grotto::requests::{Rejection, Request, Response};
use grotto::transcripts::acknowledgement_id;

const NOW: i64 = 1_700_000_000;

fn facts() -> StorageFacts {
    StorageFacts { page_size: 4096, page_count: 10, wal: Ok(0), available: Ok(1 << 40) }
}

/// A relay and what its disk holds: every outcome is written before it counts.
struct Relay {
    live: RelayState,
    disk: RelayTables,
}

impl Relay {
    fn open() -> Relay {
        Relay { live: RelayState::new(StorageLimits::default()), disk: RelayTables::new() }
    }

    fn deliver(&mut self, user: UserId, id: MessageId, request: Request) -> Response {
        self.deliver_at(user, id, request, NOW)
    }

    fn deliver_at(&mut self, user: UserId, id: MessageId, request: Request, now: i64) -> Response {
        let fresh = Some(RoomId::new().unwrap());
        let plan = self.live.plan(&facts(), user, id, &request, now, fresh).unwrap();
        let written = self.live.plan(&facts(), user, id, &request, now, fresh).unwrap();
        self.disk.commit(written.changes).unwrap();
        self.live.finish(plan).unwrap()
    }

    fn write(&mut self, change: fn(RoomId) -> Change, room: RoomId) {
        self.disk.apply(change(room)).unwrap();
        self.live
            .finish(Outcome {
                response: Response::Acknowledged,
                changes: vec![change(room)],
                metric: None,
            })
            .unwrap();
    }

    fn reopen(self, limits: StorageLimits) -> RelayState {
        RelayState::with_tables(self.disk, limits)
    }
}

fn user(n: u8) -> UserId {
    UserId::from_bytes([n; 16])
}
fn id(n: u128) -> MessageId {
    MessageId::from_bytes(n.to_be_bytes())
}
fn create(relay: &mut Relay) -> RoomId {
    let Response::RoomCreated { room } =
        relay.deliver(user(1), id(1), Request::CreateRoom { name: "Cave".into() })
    else {
        panic!("room creation failed")
    };
    room
}
fn append(room: RoomId, parent: u64, welcome: bool) -> Request {
    Request::AppendRoomOperation(Append {
        room,
        parent,
        epoch: 0,
        content_type: MlsContentType::Commit,
        body: vec![42],
        welcome: if welcome {
            Some(WelcomeAttachment {
                recipient: user(2),
                body: vec![43],
                signature: Ed25519SignatureBytes::new([0; 64]),
            })
        } else {
            None
        },
    })
}

#[test]
fn index_and_maximum_records_make_progress_across_pages() {
    let mut state = Relay::open();
    let room = create(&mut state);
    // Populate a large subscribed index independently of the creator's cap.
    for n in 2..=102u128 {
        let creator = UserId::from_bytes(n.to_be_bytes());
        let Response::RoomCreated { room } =
            state.deliver(creator, id(n), Request::CreateRoom { name: "Page".into() })
        else {
            panic!()
        };
        state.write(|room| Change::Subscriber { room, user: user(1) }, room);
    }
    let Response::SyncIndex { rooms, more } =
        state.deliver(user(1), id(200), Request::SyncIndex { after_room: None })
    else {
        panic!()
    };
    assert!(more);
    assert_eq!(rooms.len(), 100);
    let Response::SyncIndex { rooms: tail, more } = state.deliver(
        user(1),
        id(201),
        Request::SyncIndex { after_room: Some(rooms.last().unwrap().room) },
    ) else {
        panic!()
    };
    assert!(!more);
    assert_eq!(tail.len(), 2);
    assert!(tail[0].room.to_bytes() > rooms[99].room.to_bytes());
    for pair in rooms.windows(2) {
        assert!(pair[0].room.to_bytes() < pair[1].room.to_bytes());
    }
    let mut request = append(room, 0, true);
    let Request::AppendRoomOperation(op) = &mut request else { panic!() };
    op.body = vec![42; MAX_MLS_BLOB_BYTES];
    op.welcome.as_mut().unwrap().body = vec![43; MAX_PAYLOAD - MAX_MLS_BLOB_BYTES - 256];
    assert!(matches!(
        state.deliver(user(1), id(202), request),
        Response::AppendAccepted { .. }
    ));
    let response = state.deliver(
        user(2),
        id(203),
        Request::FetchRoomEvents { room, after_sequence: 0 },
    );
    let Response::RoomEvents { events, more, .. } = &response else { panic!() };
    assert_eq!(events.len(), 1);
    assert!(!more);
    assert!(
        encode_message(&RelayMessage::Delivery { request_id: id(203), response }).unwrap().len()
            <= MAX_PAYLOAD
    );
}

#[test]
fn conditional_append_conflicts_and_welcome_are_atomic_and_stable() {
    let mut state = Relay::open();
    let room = create(&mut state);
    let accepted = state.deliver(user(1), id(2), append(room, 0, true));
    assert!(matches!(accepted, Response::AppendAccepted { .. }));
    let conflict = state.deliver(user(1), id(3), append(room, 0, true));
    assert_eq!(conflict, Response::HeadConflict { room, head: 1 });
    state.deliver(user(1), id(4), append(room, 1, false));
    assert_eq!(state.deliver(user(1), id(3), append(room, 0, true)), conflict);
    assert_eq!(state.deliver(user(1), id(2), append(room, 0, true)), accepted);
    assert_eq!(
        state.deliver(user(1), id(2), append(room, 1, true)),
        Response::Rejected(Rejection::RequestConflict)
    );
    let Response::Welcomes { welcomes, .. } =
        state.deliver(user(2), id(5), Request::FetchWelcomes { after_cursor: 0 })
    else {
        panic!()
    };
    assert_eq!(welcomes.len(), 1);
    assert_eq!(welcomes[0].event, id(2));
    let mut state = state.reopen(StorageLimits::default());
    assert_eq!(
        state.deliver(&facts(), user(1), id(2), &append(room, 0, true), NOW).unwrap(),
        accepted
    );
}

#[test]
fn sql_failure_rolls_back_event_welcome_head_and_attempt() {
    let mut state = Relay::open();
    let room = create(&mut state);
    // The write fails, so the outcome never counts.
    let lost = state.live.plan(&facts(), user(1), id(2), &append(room, 0, true), NOW, None);
    assert!(matches!(lost.unwrap().response, Response::AppendAccepted { .. }));
    let Response::RoomEvents { events, .. } = state.deliver(
        user(1),
        id(90),
        Request::FetchRoomEvents { room, after_sequence: 0 },
    ) else {
        panic!()
    };
    assert_eq!(events.len(), 0);
    let Response::Welcomes { welcomes, .. } =
        state.deliver(user(2), id(91), Request::FetchWelcomes { after_cursor: 0 })
    else {
        panic!()
    };
    assert_eq!(welcomes.len(), 0);
    let mut state = state.reopen(StorageLimits::default());
    assert!(matches!(
        state.deliver(&facts(), user(1), id(2), &append(room, 0, true), NOW).unwrap(),
        Response::AppendAccepted { .. }
    ));
}

#[test]
fn recovery_paginates_independently_of_acknowledgements() {
    let mut state = Relay::open();
    let room = create(&mut state);
    for n in 0..101 {
        state.deliver(user(1), id(n + 10), append(room, n as u64, true));
    }
    let Response::Welcomes { welcomes, more, .. } =
        state.deliver(user(2), id(500), Request::FetchWelcomes { after_cursor: 0 })
    else {
        panic!()
    };
    assert!(more);
    assert_eq!(welcomes.len(), 100);
    let cursor = welcomes.last().unwrap().cursor;
    let Response::Welcomes { welcomes, more, .. } =
        state.deliver(user(2), id(501), Request::FetchWelcomes { after_cursor: cursor })
    else {
        panic!()
    };
    assert!(!more);
    assert_eq!(welcomes.len(), 1);
    let response = state.deliver(
        user(2),
        id(502),
        Request::FetchRoomEvents { room, after_sequence: 0 },
    );
    let Response::RoomEvents { events, more, .. } = &response else { panic!() };
    assert!(*more);
    assert_eq!(events.len(), 100);
    for event in events {
        assert_eq!(
            state.deliver(
                user(2),
                acknowledgement_id(user(2), &[event.id], &[]),
                Request::Acknowledge { events: vec![event.id], welcomes: vec![] }
            ),
            Response::Acknowledged
        );
    }
    assert_eq!(
        response,
        state.deliver(user(2), id(504), Request::FetchRoomEvents { room, after_sequence: 0 })
    );
    assert_eq!(
        state.deliver(user(3), id(505), Request::FetchRoomEvents { room, after_sequence: 0 }),
        Response::Rejected(Rejection::Unauthorized)
    );
}

#[test]
fn allocations_require_grants_are_stable_and_rate_limited() {
    let mut state = Relay::open();
    state.deliver(
        user(2),
        id(1),
        Request::PublishKeyPackages { packages: (0..8).map(|i| vec![i]).collect() },
    );
    let request = Request::ReserveKeyPackage { recipient: user(2) };
    assert_eq!(
        state.deliver(user(1), id(2), request.clone()),
        Response::Rejected(Rejection::Unauthorized)
    );
    state.deliver(
        user(2),
        id(3),
        Request::SetFetchGrant { requester: user(1), allowed: true },
    );
    let first = state.deliver(user(1), id(4), request.clone());
    assert!(matches!(first, Response::KeyPackage { .. }));
    assert_eq!(first, state.deliver(user(1), id(4), request.clone()));
    for n in 5..8 {
        assert!(matches!(
            state.deliver(user(1), id(n), request.clone()),
            Response::KeyPackage { .. }
        ));
    }
    assert_eq!(
        state.deliver(user(1), id(8), request.clone()),
        Response::Rejected(Rejection::Overloaded)
    );
    state.deliver(
        user(2),
        id(9),
        Request::SetFetchGrant { requester: user(1), allowed: false },
    );
    assert_eq!(first, state.deliver(user(1), id(4), request.clone()));
    assert_eq!(
        state.deliver(user(1), id(10), request),
        Response::Rejected(Rejection::Unauthorized)
    );
    assert_eq!(
        state.deliver(user(2), id(1), Request::PublishKeyPackages { packages: vec![vec![99]] }),
        Response::Rejected(Rejection::RequestConflict)
    );
}

#[test]
fn packages_go_out_oldest_first_and_run_out() {
    let mut state = Relay::open();
    state.deliver(
        user(2),
        id(1),
        Request::PublishKeyPackages { packages: vec![vec![1], vec![2]] },
    );
    state.deliver(
        user(2),
        id(2),
        Request::SetFetchGrant { requester: user(1), allowed: true },
    );
    let request = Request::ReserveKeyPackage { recipient: user(2) };
    for (n, package) in [(3, vec![1]), (4, vec![2])] {
        assert_eq!(
            state.deliver(user(1), id(n), request.clone()),
            Response::KeyPackage { recipient: user(2), package }
        );
    }
    assert_eq!(
        state.deliver(user(1), id(5), request),
        Response::Rejected(Rejection::NotFound)
    );
    assert_eq!(
        state.deliver(
            user(2),
            id(6),
            Request::PublishKeyPackages { packages: vec![vec![0; MAX_KEY_PACKAGE_BYTES + 1]] }
        ),
        Response::Rejected(Rejection::Invalid)
    );
}

#[test]
fn quotas_preserve_existing_results_and_recovery_reads() {
    let mut state = Relay::open();
    let room = create(&mut state);
    let accepted = state.deliver(user(1), id(2), append(room, 0, true));
    let mut state =
        state.reopen(StorageLimits { global: 0, sender: 0, room: 0, reserve: 0 });
    let mut deliver = |user: UserId, id: MessageId, request: Request| {
        state.deliver(&facts(), user, id, &request, NOW).unwrap()
    };
    assert_eq!(accepted, deliver(user(1), id(2), append(room, 0, true)));
    assert_eq!(
        deliver(user(1), id(3), append(room, 1, true)),
        Response::Rejected(Rejection::Quota)
    );
    assert!(matches!(
        deliver(user(2), id(4), Request::FetchRoomEvents { room, after_sequence: 0 }),
        Response::RoomEvents { .. }
    ));
    assert_eq!(
        deliver(
            user(2),
            acknowledgement_id(user(2), &[id(2)], &[]),
            Request::Acknowledge { events: vec![id(2)], welcomes: vec![] }
        ),
        Response::Acknowledged
    );
}

#[test]
fn receipts_have_one_identifier_and_name_what_was_delivered() {
    let mut state = Relay::open();
    let room = create(&mut state);
    state.deliver(user(1), id(2), append(room, 0, true));
    let receipt = Request::Acknowledge { events: vec![id(2)], welcomes: vec![] };
    assert_eq!(
        state.deliver(user(2), id(77), receipt.clone()),
        Response::Rejected(Rejection::Invalid)
    );
    assert_eq!(
        state.deliver(user(3), acknowledgement_id(user(3), &[id(2)], &[]), receipt),
        Response::Rejected(Rejection::Unauthorized)
    );
    assert_eq!(
        state.deliver(
            user(2),
            acknowledgement_id(user(2), &[], &[1]),
            Request::Acknowledge { events: vec![], welcomes: vec![1] }
        ),
        Response::Acknowledged
    );
}

#[test]
fn what_is_counted_and_charged() {
    let mut state = Relay::open();
    let room = create(&mut state);
    state.deliver(user(1), id(2), append(room, 0, true));
    state.deliver(user(1), id(3), append(room, 0, true));
    assert_eq!(state.live.metrics().commit_conflicts, 1);
    state.live.set_limits(StorageLimits { global: 0, sender: 0, room: 0, reserve: 0 });
    assert_eq!(
        state.deliver(user(1), id(4), append(room, 1, true)),
        Response::Rejected(Rejection::Quota)
    );
    assert_eq!(state.live.metrics().quota_rejections, 1);
    state.live.count(Metric::Timeout);
    assert_eq!(state.live.metrics().timeouts, 1);
    assert_eq!(
        state.live.metrics().report(),
        "grotto_metrics queue_pressure=0 timeouts=1 quota_rejections=1 commit_conflicts=1 \
         recovery_failures=0"
    );
    assert_eq!(
        StorageError::InvalidStoredData(Defect::Schema).message(),
        "invalid relay state: unsupported relay schema; choose a fresh database (no migrations)"
    );
    assert_eq!(charge_for(100), 300 + 16 * 1024);
    assert_eq!(charge_for(0), 16 * 1024);
}

#[test]
fn storage_is_refused_at_each_limit() {
    let mut state = Relay::open();
    let room = create(&mut state);
    let request = append(room, 0, false);
    let size = encode_message(&request).unwrap().len();
    let required = charge_for(size);
    let room_only = charge_for(encode_message(&Request::CreateRoom { name: "Cave".into() }).unwrap().len());
    let used = 10 * 4096;
    let base = StorageLimits { global: used + required, sender: room_only + required, room: required, reserve: 1000 };
    let tables = state.live.tables();
    let admits = |limits: StorageLimits, facts: StorageFacts| {
        limits.admits(tables, &facts, user(1), &request)
    };
    assert_eq!(admits(base, facts()), Ok(true));
    assert_eq!(admits(StorageLimits { global: base.global - 1, ..base }, facts()), Ok(false));
    assert_eq!(admits(StorageLimits { sender: base.sender - 1, ..base }, facts()), Ok(false));
    assert_eq!(admits(StorageLimits { room: base.room - 1, ..base }, facts()), Ok(false));
    assert_eq!(admits(base, StorageFacts { wal: Ok(1000), ..facts() }), Ok(true));
    assert_eq!(admits(base, StorageFacts { wal: Ok(1001), ..facts() }), Ok(false));
    let needed = required as u128 + 1000;
    assert_eq!(admits(base, StorageFacts { available: Ok(needed), ..facts() }), Ok(true));
    assert_eq!(admits(base, StorageFacts { available: Ok(needed - 1), ..facts() }), Ok(false));
    assert_eq!(
        admits(base, StorageFacts { wal: Err(StorageError::File), ..facts() }),
        Err(StorageError::File)
    );
    assert_eq!(
        admits(base, StorageFacts { available: Err(StorageError::File), ..facts() }),
        Err(StorageError::File)
    );
}

#[test]
fn storage_limits_come_from_texts() {
    let none = None;
    assert_eq!(
        StorageLimits::environment(&none, &none, &none, &none),
        Ok(StorageLimits {
            global: 1 << 30,
            sender: 100 << 20,
            room: 100 << 20,
            reserve: 64 << 20
        })
    );
    assert_eq!(
        StorageLimits::environment(&Some("7".into()), &none, &none, &Some("8".into()))
            .map(|limits| (limits.global, limits.reserve)),
        Ok((7, 8))
    );
    assert!(StorageLimits::environment(&none, &Some("many".into()), &none, &none).is_err());
}

fn hash(bytes: &[u8]) -> [u8; 32] {
    <sha2::Sha256 as sha2::Digest>::digest(bytes).into()
}

#[test]
fn enrollment_is_bound_expiring_single_use_and_proof_registration_is_atomic() {
    let mut state = RelayState::new(StorageLimits::default());
    let user = UserId::from_bytes([1; 16]);
    let key = Ed25519PublicKeyBytes::new([2; 32]);
    assert!(state.register_enrolled_identity(user, key, None, NOW).is_err());
    let text = state.issue_enrollment(user, hash(key.as_bytes()), NOW).unwrap();
    let token = parse_fingerprint_hex(&text).unwrap();
    assert!(
        state
            .register_enrolled_identity(UserId::from_bytes([3; 16]), key, Some(token), NOW)
            .is_err()
    );
    assert!(
        state
            .register_enrolled_identity(
                user,
                Ed25519PublicKeyBytes::new([4; 32]),
                Some(token),
                NOW
            )
            .is_err()
    );
    // The write fails, so the token is not used up.
    assert!(state.tables().plan_registration(user, &key, Some(token), NOW).is_ok());
    assert_eq!(
        state.register_enrolled_identity(user, key, Some(token), NOW).unwrap(),
        Registration::New
    );
    assert_eq!(
        state.register_enrolled_identity(user, key, None, NOW).unwrap(),
        Registration::Existing
    );
    // The same token, used up, where the identity is gone.
    let mut tables = RelayTables::new();
    let token_hash = hash(&token);
    tables
        .commit(vec![
            Change::Token {
                hash: token_hash,
                user,
                fingerprint: hash(key.as_bytes()),
                expires: NOW + 10,
            },
            Change::TokenConsumed { hash: token_hash },
        ])
        .unwrap();
    let mut state = RelayState::with_tables(tables, StorageLimits::default());
    assert!(state.register_enrolled_identity(user, key, Some(token), NOW).is_err());
    let text = state.issue_enrollment(user, hash(key.as_bytes()), NOW).unwrap();
    let token = parse_fingerprint_hex(&text).unwrap();
    assert!(
        state
            .register_enrolled_identity(user, key, Some(token), NOW + TOKEN_LIFETIME)
            .is_err()
    );
    assert_eq!(
        state
            .register_enrolled_identity(user, key, Some(token), NOW + TOKEN_LIFETIME - 1)
            .unwrap(),
        Registration::New
    );
}

#[test]
fn registration_errors_are_told_apart() {
    let mut state = RelayState::new(StorageLimits::default());
    let key = Ed25519PublicKeyBytes::new([2; 32]);
    assert_eq!(
        state.register_enrolled_identity(user(1), key, None, NOW),
        Err(StorageError::EnrollmentRequired)
    );
    let token = AuthenticationChallenge::from_bytes([9; 32]);
    assert_eq!(
        state.issue_token(&token, user(1), hash(key.as_bytes()), NOW).unwrap(),
        "09".repeat(32)
    );
    assert_eq!(
        state.issue_token(&token, user(1), hash(key.as_bytes()), NOW),
        Err(StorageError::Database)
    );
    state.register_enrolled_identity(user(1), key, Some([9; 32]), NOW).unwrap();
    assert_eq!(
        state.register_enrolled_identity(
            user(1),
            Ed25519PublicKeyBytes::new([3; 32]),
            None,
            NOW
        ),
        Err(StorageError::IdentityKeyConflict)
    );
}
