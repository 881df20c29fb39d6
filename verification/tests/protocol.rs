//! Messages, identifiers, names and fingerprints.
use grotto::delivery::{
    Append, Event, MlsContentType, RoomHead, WelcomeAttachment, WelcomeDelivery, MAX_PAYLOAD,
};
use grotto::frames::{frame_bytes, FrameEnd, FrameError, FrameReader, FrameStep, MAX_FRAME_SIZE};
use grotto::ids::{
    AuthenticationChallenge, Ed25519PublicKeyBytes, Ed25519SignatureBytes, MessageId, ParseIdError,
    RoomId, UserId,
};
use grotto::messages::{
    ClientMessage, ClientMessageKind, ProtocolError, RelayMessage, RoomNameError,
};
use grotto::protocol::{
    authentication_transcript, cert_fingerprint_sha256_hex, decode_message, encode_message,
    normalize_room_name, parse_fingerprint_hex, request_id_of, DecodeMessageError,
    ParseFingerprintError, MAX_ROOM_NAME_CHARS, PROTOCOL_VERSION,
};
use grotto::requests::{Rejection, Request, Response};
use grotto::text::{is_control, is_whitespace, parse_hex, parse_number, to_decimal, to_hex, trim};
use grotto::transcripts::{
    acknowledgement_id, event_authenticated_data, payload_hash, welcome_transcript,
};
use grotto::varint::WireError;
use grotto::wire::Wire;

fn hex(bytes: &[u8]) -> String {
    bytes.iter().map(|b| format!("{b:02x}")).collect()
}

#[test]
fn generated_ids_have_readable_output() {
    let user_id = UserId::new().expect("the OS should provide randomness");

    assert_eq!(user_id.to_text().len(), 32);
    assert_eq!(user_id.debug_text(), format!("UserId({})", user_id.to_text()));
    assert_eq!(user_id.to_text().parse::<UserId>(), Ok(user_id));
    assert!(matches!("not-an-id".parse::<UserId>(), Err(ParseIdError::InvalidLength)));
}

#[test]
fn random_values_are_what_the_source_gave() {
    let bytes = [0x5a; 16];
    assert_eq!(UserId::from_random(Ok(bytes)).unwrap(), UserId::from_bytes(bytes));
    assert_eq!(RoomId::from_random(Ok(bytes)).unwrap(), RoomId::from_bytes(bytes));
    assert_eq!(MessageId::from_random(Ok(bytes)).unwrap(), MessageId::from_bytes(bytes));
    let challenge = AuthenticationChallenge::from_random(Ok([0x5b; 32])).unwrap();
    assert_eq!(challenge.as_bytes(), &[0x5b; 32]);
    let failure = getrandom::Error::UNSUPPORTED;
    assert_eq!(UserId::from_random(Err(failure)).unwrap_err(), failure);
    assert_eq!(RoomId::from_random(Err(failure)).unwrap_err(), failure);
    assert_eq!(MessageId::from_random(Err(failure)).unwrap_err(), failure);
    assert_eq!(AuthenticationChallenge::from_random(Err(failure)).unwrap_err(), failure);
    assert_ne!(UserId::new().unwrap(), UserId::new().unwrap());
    assert_ne!(
        AuthenticationChallenge::generate().unwrap().as_bytes(),
        AuthenticationChallenge::generate().unwrap().as_bytes()
    );
}

#[test]
fn ids_round_trip_through_postcard() {
    let user_id = UserId::from_bytes([0x11; 16]);
    let room_id = RoomId::from_bytes([0x22; 16]);
    let message_id = MessageId::from_bytes([0x33; 16]);

    let encoded = encode_message(&user_id).expect("ID encoding should succeed");
    assert_eq!(encoded, postcard::to_allocvec(&[0x11u8; 16]).unwrap());
    let (decoded, remaining) = UserId::read(&encoded).expect("ID decoding should succeed");
    assert!(remaining.is_empty());
    assert_eq!(decoded, user_id);

    let encoded = encode_message(&room_id).expect("ID encoding should succeed");
    assert_eq!(encoded, postcard::to_allocvec(&[0x22u8; 16]).unwrap());
    let (decoded, remaining) = RoomId::read(&encoded).expect("ID decoding should succeed");
    assert!(remaining.is_empty());
    assert_eq!(decoded, room_id);

    let encoded = encode_message(&message_id).expect("ID encoding should succeed");
    assert_eq!(encoded, postcard::to_allocvec(&[0x33u8; 16]).unwrap());
    let (decoded, remaining) = MessageId::read(&encoded).expect("ID decoding should succeed");
    assert!(remaining.is_empty());
    assert_eq!(decoded, message_id);
}

#[test]
fn server_identify_accepted_round_trips() {
    let user_id = UserId::from_bytes([0x44; 16]);

    let message = RelayMessage::ServerIdentifyAccepted { user_id };

    let encoded = encode_message(&message).expect("message encoding should succeed");

    let decoded: RelayMessage = decode_message(&encoded).expect("message decoding should succeed");

    match decoded {
        RelayMessage::ServerIdentifyAccepted { user_id: decoded_user_id } => {
            assert_eq!(decoded_user_id, user_id);
        }

        other => {
            panic!("expected ServerIdentifyAccepted, got {other:?}");
        }
    }
}

#[test]
fn fingerprints_round_trip_through_hex() {
    let fingerprint = cert_fingerprint_sha256_hex(b"fake-cert-der");
    assert_eq!(fingerprint.len(), 64);
    let parsed = parse_fingerprint_hex(&fingerprint).expect("own output should parse");
    assert_eq!(
        cert_fingerprint_sha256_hex(b"fake-cert-der"),
        cert_fingerprint_sha256_hex(b"fake-cert-der")
    );
    assert_eq!(parsed.len(), 32);
    assert!(parse_fingerprint_hex(&fingerprint.to_uppercase()).is_ok());
    assert!(matches!(parse_fingerprint_hex("abc"), Err(ParseFingerprintError::InvalidLength)));
    assert!(matches!(
        parse_fingerprint_hex(&"zz".repeat(32)),
        Err(ParseFingerprintError::InvalidHex)
    ));
    // A text of 64 bytes that are not ASCII is refused like any other.
    assert!(parse_fingerprint_hex(&("€".repeat(21) + "x")).is_err());
    // Different input, different fingerprint.
    assert_ne!(fingerprint, cert_fingerprint_sha256_hex(b"other-der"));
}

#[test]
fn fingerprint_of_a_known_input() {
    assert_eq!(
        cert_fingerprint_sha256_hex(b"abc"),
        "ba7816bf8f01cfea414140de5dae2223b00361a396177a9cb410ff61f20015ad"
    );
    assert_eq!(parse_fingerprint_hex(&format!(" {} \n", "ab".repeat(32))), Ok([0xab; 32]));
    assert_eq!(
        ParseFingerprintError::InvalidLength.message(),
        "fingerprint must be 64 hex characters"
    );
    assert_eq!(
        ParseFingerprintError::InvalidHex.message(),
        "fingerprint contains a non-hex character"
    );
}

#[test]
fn v9_wire_fixtures_and_reserved_tags() {
    assert_eq!(PROTOCOL_VERSION, 9);
    assert_eq!(encode_message(&ClientMessage::ClientHello { version: 9 }).unwrap(), vec![1, 9]);
    assert_eq!(encode_message(&RelayMessage::DeliveryChanged).unwrap(), vec![101]);
    let request = ClientMessage::Delivery {
        request_id: MessageId::from_bytes([7; 16]),
        request: Request::SyncIndex { after_room: None },
    };
    let mut fixture = vec![100];
    fixture.extend([7; 16]);
    fixture.extend([5, 0]);
    assert_eq!(encode_message(&request).unwrap(), fixture);
    assert!(matches!(
        decode_message::<ClientMessage>(&fixture).unwrap(),
        ClientMessage::Delivery { .. }
    ));
    for tag in [2, 10, 19, 20, 21, 23, 24, 25, 26, 27, 28] {
        assert!(decode_message::<ClientMessage>(&[tag]).is_err());
    }
    assert!(decode_message::<ClientMessage>(&vec![0; MAX_PAYLOAD + 1]).is_err());
}

#[test]
fn room_names_reject_malformed_values() {
    assert_eq!(normalize_room_name("  "), Err(RoomNameError::Empty));
    assert_eq!(
        normalize_room_name(&"x".repeat(MAX_ROOM_NAME_CHARS + 1)),
        Err(RoomNameError::TooLong)
    );
    assert_eq!(normalize_room_name("bad\nname"), Err(RoomNameError::ControlCharacter));
    assert_eq!(normalize_room_name("  The Grotto  "), Ok("The Grotto".to_owned()));
}

#[test]
fn room_names_at_their_limits() {
    let longest = "é".repeat(MAX_ROOM_NAME_CHARS);
    assert_eq!(normalize_room_name(&longest), Ok(longest.clone()));
    assert_eq!(normalize_room_name("\u{3000}a b\u{2003}"), Ok("a b".to_owned()));
    assert_eq!(normalize_room_name("a\u{85}b"), Err(RoomNameError::ControlCharacter));
    assert_eq!(normalize_room_name("\u{85}ab"), Ok("ab".to_owned()));
    assert_eq!(RoomNameError::Empty.message(), "name cannot be empty");
    assert_eq!(RoomNameError::TooLong.message(), "name cannot exceed 100 characters");
    assert_eq!(
        RoomNameError::ControlCharacter.message(),
        "name cannot contain control characters"
    );
}

#[test]
fn decoding_rejects_trailing_bytes() {
    let message = ClientMessage::ClientHello { version: PROTOCOL_VERSION };
    let mut encoded = encode_message(&message).expect("message encoding should succeed");
    encoded.push(0xff);

    assert!(matches!(
        decode_message::<ClientMessage>(&encoded),
        Err(DecodeMessageError::TrailingBytes)
    ));
}

#[test]
fn partial_frame_headers_are_rejected() {
    for header_length in 1..4 {
        let mut reader = FrameReader::new();
        reader.feed(&u32::to_be_bytes(8)[..header_length]);
        assert!(matches!(reader.end(), FrameEnd::TruncatedHeader(got) if got == header_length));
    }
}

#[test]
fn frames_come_in_pieces() {
    let framed = frame_bytes(b"hello").unwrap();
    assert_eq!(framed, [0, 0, 0, 5, b'h', b'e', b'l', b'l', b'o']);
    let mut reader = FrameReader::new();
    assert!(matches!(reader.end(), FrameEnd::Clean));
    for (index, byte) in framed.iter().enumerate() {
        match reader.step() {
            FrameStep::Read(wanted) => {
                assert!(wanted > 0 && wanted <= framed.len() - index);
            }
            _ => panic!("the frame is not complete"),
        }
        if index > 4 {
            assert!(matches!(reader.end(), FrameEnd::TruncatedPayload(5)));
        }
        reader.feed(&[*byte]);
    }
    assert!(matches!(reader.step(), FrameStep::Payload(payload) if payload == b"hello"));
}

#[test]
fn frames_beyond_the_limit_are_refused() {
    assert!(matches!(
        frame_bytes(&vec![0; MAX_FRAME_SIZE as usize + 1]),
        Err(FrameError::TooLarge(length)) if length == MAX_FRAME_SIZE + 1
    ));
    assert_eq!(
        frame_bytes(&vec![1; MAX_FRAME_SIZE as usize]).unwrap().len(),
        MAX_FRAME_SIZE as usize + 4
    );
    let mut reader = FrameReader::new();
    reader.feed(&u32::MAX.to_be_bytes());
    assert!(matches!(reader.step(), FrameStep::TooLarge(u32::MAX)));
    let mut empty = FrameReader::new();
    empty.feed(&[0, 0, 0, 0]);
    assert!(matches!(empty.step(), FrameStep::Payload(payload) if payload.is_empty()));
}

struct Samples {
    requests: Vec<Request>,
    responses: Vec<Response>,
}

fn samples() -> Samples {
    let room = RoomId::from_bytes([0x22; 16]);
    let user = UserId::from_bytes([0x33; 16]);
    let event_id = MessageId::from_bytes([0x44; 16]);
    let append = Append {
        room,
        parent: 7,
        epoch: 3,
        content_type: MlsContentType::Commit,
        body: vec![1, 2, 3],
        welcome: None,
    };
    let event = Event { id: event_id, sender: user, operation: append.clone() };
    Samples {
        requests: vec![
            Request::CreateRoom { name: "Cave".into() },
            Request::PublishKeyPackages { packages: vec![vec![0xaa, 0xbb]] },
            Request::Acknowledge { events: vec![event_id], welcomes: vec![] },
            Request::AppendRoomOperation(append),
            Request::FetchRoomEvents { room, after_sequence: 7 },
            Request::SyncIndex { after_room: Some(room) },
            Request::FetchWelcomes { after_cursor: 7 },
            Request::ReserveKeyPackage { recipient: user },
            Request::SetFetchGrant { requester: user, allowed: true },
        ],
        responses: vec![
            Response::RoomCreated { room },
            Response::KeyPackagesPublished { count: 2 },
            Response::Acknowledged,
            Response::AppendAccepted { event: event.clone() },
            Response::HeadConflict { room, head: 9 },
            Response::RoomEvents { room, after_sequence: 7, events: vec![event], more: false },
            Response::SyncIndex {
                rooms: vec![RoomHead { room, name: "Cave".into(), sequence: 9 }],
                more: false,
            },
            Response::Welcomes {
                after_cursor: 0,
                welcomes: vec![WelcomeDelivery {
                    room_name: "Cave".into(),
                    cursor: 1,
                    event: event_id,
                    room,
                    sequence: 8,
                    inviter: user,
                    attachment: WelcomeAttachment {
                        recipient: UserId::from_bytes([0x55; 16]),
                        body: vec![0xaa, 0xbb],
                        signature: Ed25519SignatureBytes::new([0x66; 64]),
                    },
                }],
                more: false,
            },
            Response::KeyPackage { recipient: user, package: vec![0xaa, 0xbb] },
            Response::FetchGrantSet,
            Response::Rejected(Rejection::RequestConflict),
        ],
    }
}

#[test]
fn every_delivery_tag_matches_sanitized_byte_fixtures() {
    let request_id = MessageId::from_bytes([0x11; 16]);
    let samples = samples();
    let room = "22".repeat(16);
    let user = "33".repeat(16);
    let event_id = "44".repeat(16);
    let operation = format!("{room}0703020301020300");
    let requests = [
        "000443617665".to_string(),
        "010102aabb".to_string(),
        format!("0201{event_id}00"),
        format!("03{operation}"),
        format!("04{room}07"),
        format!("0501{room}"),
        "0607".to_string(),
        format!("07{user}"),
        format!("08{user}01"),
    ];
    let responses = [
        format!("00{room}"),
        "0102".to_string(),
        "02".to_string(),
        format!("03{event_id}{user}{operation}"),
        format!("04{room}09"),
        format!("05{room}0701{event_id}{user}{operation}00"),
        format!("0601{room}04436176650900"),
        format!(
            "070001044361766501{event_id}{room}08{user}{}02aabb{}00",
            "55".repeat(16),
            "66".repeat(64)
        ),
        format!("08{user}02aabb"),
        "09".to_string(),
        "0a03".to_string(),
    ];
    assert_eq!(samples.requests.len(), requests.len());
    assert_eq!(samples.responses.len(), responses.len());
    for (request, fixture) in samples.requests.iter().zip(requests.iter()) {
        let bytes = encode_message(&ClientMessage::Delivery {
            request_id,
            request: request.clone(),
        })
        .unwrap();
        assert_eq!(hex(&bytes), format!("64{}{fixture}", "11".repeat(16)));
        let ClientMessage::Delivery { request: decoded, .. } = decode_message(&bytes).unwrap()
        else {
            panic!()
        };
        assert_eq!(*request, decoded);
    }
    for (response, fixture) in samples.responses.iter().zip(responses.iter()) {
        let bytes = encode_message(&RelayMessage::Delivery {
            request_id,
            response: response.clone(),
        })
        .unwrap();
        assert_eq!(hex(&bytes), format!("64{}{fixture}", "11".repeat(16)));
        let RelayMessage::Delivery { response: decoded, .. } = decode_message(&bytes).unwrap()
        else {
            panic!()
        };
        assert_eq!(*response, decoded);
    }
}

#[test]
fn malicious_collection_lengths_and_aggregate_payload_are_rejected() {
    let mut frame = vec![100];
    frame.extend([1; 16]);
    frame.extend([1, 65]);
    assert!(decode_message::<ClientMessage>(&frame).is_err());
    let mut frame = vec![100];
    frame.extend([1; 16]);
    frame.extend([1, 1, 0xff, 0xff, 0xff, 0xff, 0x0f]);
    assert!(decode_message::<ClientMessage>(&frame).is_err());
    let request = Request::PublishKeyPackages { packages: vec![vec![0; 16 * 1024]; 64] };
    assert!(encode_message(&request).is_err());
    let data =
        event_authenticated_data(RoomId::from_bytes([1; 16]), MessageId::from_bytes([2; 16]), 3);
    assert_ne!(
        data,
        event_authenticated_data(RoomId::from_bytes([1; 16]), MessageId::from_bytes([2; 16]), 4)
    );
    assert_ne!(
        welcome_transcript(
            UserId::from_bytes([1; 16]),
            RoomId::from_bytes([2; 16]),
            MessageId::from_bytes([3; 16]),
            4,
            b"first"
        ),
        welcome_transcript(
            UserId::from_bytes([1; 16]),
            RoomId::from_bytes([2; 16]),
            MessageId::from_bytes([3; 16]),
            4,
            b"second"
        )
    );
}

#[test]
fn transcripts_have_their_exact_bytes() {
    let room = RoomId::from_bytes([1; 16]);
    let event = MessageId::from_bytes([2; 16]);
    let user = UserId::from_bytes([3; 16]);
    let mut expected = b"GROTTO-EVENT-V9\0".to_vec();
    expected.extend([1; 16]);
    expected.extend([2; 16]);
    expected.extend(0x0102_0304_0506_0708u64.to_be_bytes());
    assert_eq!(event_authenticated_data(room, event, 0x0102_0304_0506_0708), expected);

    let mut expected = b"GROTTO-WELCOME-V9\0".to_vec();
    expected.extend([3; 16]);
    expected.extend([1; 16]);
    expected.extend([2; 16]);
    expected.extend(9u64.to_be_bytes());
    expected.extend(<sha2::Sha256 as sha2::Digest>::digest(b"body"));
    assert_eq!(welcome_transcript(user, room, event, 9, b"body"), expected);

    let mut receipt = b"GROTTO-RECEIPT-V9\0".to_vec();
    receipt.extend([3; 16]);
    receipt.extend(1u64.to_be_bytes());
    receipt.extend([2; 16]);
    receipt.extend(2u64.to_be_bytes());
    receipt.extend(5u64.to_be_bytes());
    receipt.extend(6u64.to_be_bytes());
    let digest = <sha2::Sha256 as sha2::Digest>::digest(&receipt);
    assert_eq!(acknowledgement_id(user, &[event], &[5, 6]).to_bytes(), digest[..16]);
    assert_ne!(acknowledgement_id(user, &[event], &[]), acknowledgement_id(user, &[], &[5]));

    let request = Request::FetchWelcomes { after_cursor: 300 };
    let encoded = encode_message(&request).unwrap();
    assert_eq!(encoded, [6, 0xac, 0x02]);
    let digest: [u8; 32] = <sha2::Sha256 as sha2::Digest>::digest(&encoded).into();
    assert_eq!(payload_hash(&request).unwrap(), digest);

    let key = Ed25519PublicKeyBytes::new([4; 32]);
    let challenge = AuthenticationChallenge::from_bytes([5; 32]);
    let mut expected = b"GROTTO-AUTH-V1".to_vec();
    expected.extend([0, 9]);
    expected.extend([3; 16]);
    expected.extend([4; 32]);
    expected.extend([5; 32]);
    assert_eq!(authentication_transcript(9, user, &key, &challenge).to_vec(), expected);
}

#[test]
fn integers_are_written_and_read_as_postcard_does() {
    for value in [0u64, 1, 127, 128, 300, 16383, 16384, u32::MAX as u64, u64::MAX] {
        let bytes = postcard::to_allocvec(&value).unwrap();
        assert_eq!(encode_message(&value).unwrap(), bytes);
        assert_eq!(decode_message::<u64>(&bytes), Ok(value));
        if value <= u32::MAX as u64 {
            let narrow = value as u32;
            let bytes = postcard::to_allocvec(&narrow).unwrap();
            assert_eq!(encode_message(&narrow).unwrap(), bytes);
            assert_eq!(decode_message::<u32>(&bytes), Ok(narrow));
        }
        if value <= u16::MAX as u64 {
            let narrow = value as u16;
            let bytes = postcard::to_allocvec(&narrow).unwrap();
            assert_eq!(encode_message(&narrow).unwrap(), bytes);
            assert_eq!(decode_message::<u16>(&bytes), Ok(narrow));
        }
    }
    // Longer forms than needed, overlong ones and ends that come too soon.
    for bytes in [
        vec![0x80, 0x00],
        vec![0xff, 0xff, 0x03],
        vec![0xff, 0xff, 0x04],
        vec![0xff, 0xff, 0xff, 0x01],
        vec![0x80],
        vec![],
        vec![0xff; 10],
        vec![0xff, 0xff, 0xff, 0xff, 0xff, 0xff, 0xff, 0xff, 0xff, 0x01],
        vec![0xff, 0xff, 0xff, 0xff, 0xff, 0xff, 0xff, 0xff, 0xff, 0x02],
    ] {
        assert_eq!(
            u16::read(&bytes).ok().map(|(value, rest)| (value, rest.len())),
            postcard::take_from_bytes::<u16>(&bytes).ok().map(|(value, rest)| (value, rest.len()))
        );
        assert_eq!(
            u32::read(&bytes).ok().map(|(value, rest)| (value, rest.len())),
            postcard::take_from_bytes::<u32>(&bytes).ok().map(|(value, rest)| (value, rest.len()))
        );
        assert_eq!(
            u64::read(&bytes).ok().map(|(value, rest)| (value, rest.len())),
            postcard::take_from_bytes::<u64>(&bytes).ok().map(|(value, rest)| (value, rest.len()))
        );
    }
}

#[test]
fn each_way_to_fail_to_decode() {
    let id = [7u8; 16];
    let with = |rest: &[u8]| {
        let mut bytes = vec![100];
        bytes.extend(id);
        bytes.extend(rest);
        decode_message::<ClientMessage>(&bytes).map(|_| ())
    };
    assert_eq!(with(&[5]), Err(DecodeMessageError::Postcard(WireError::UnexpectedEnd)));
    assert_eq!(with(&[5, 2]), Err(DecodeMessageError::Postcard(WireError::BadOption)));
    assert_eq!(
        with(&[6, 0xff, 0xff, 0xff, 0xff, 0xff, 0xff, 0xff, 0xff, 0xff, 0x7f]),
        Err(DecodeMessageError::Postcard(WireError::BadVarint))
    );
    let mut grant = vec![8];
    grant.extend([1; 16]);
    grant.push(2);
    assert_eq!(with(&grant), Err(DecodeMessageError::Postcard(WireError::BadBool)));
    assert_eq!(with(&[0, 1, 0xff]), Err(DecodeMessageError::Postcard(WireError::BadUtf8)));
    assert_eq!(with(&[9]), Err(DecodeMessageError::Postcard(WireError::Rejected)));
    assert_eq!(with(&[6, 0, 0]), Err(DecodeMessageError::TrailingBytes));
    assert_eq!(
        decode_message::<ClientMessage>(&vec![0; MAX_PAYLOAD + 1]).map(|_| ()),
        Err(DecodeMessageError::PayloadLimit)
    );
    assert_eq!(
        encode_message(&Request::PublishKeyPackages { packages: vec![vec![0; 16 * 1024]; 64] }),
        Err(WireError::BufferFull)
    );
    assert_eq!(
        DecodeMessageError::PayloadLimit.message(),
        "aggregate V9 payload exceeds 768 KiB"
    );
    assert_eq!(
        DecodeMessageError::Postcard(WireError::BadBool).message(),
        "invalid Postcard message: Found a bool that wasn't 0 or 1"
    );
    assert_eq!(
        DecodeMessageError::TrailingBytes.message(),
        "trailing bytes after Postcard message"
    );
}

#[test]
fn names_on_the_wire_are_bounded() {
    let name = "n".repeat(400);
    let request = Request::CreateRoom { name: name.clone() };
    let bytes = encode_message(&request).unwrap();
    assert_eq!(decode_message::<Request>(&bytes).unwrap(), request);
    let longer = encode_message(&Request::CreateRoom { name: name + "n" }).unwrap();
    assert!(decode_message::<Request>(&longer).is_err());
}

#[test]
fn messages_know_their_kind_and_their_request() {
    let id = MessageId::from_bytes([1; 16]);
    let hello = ClientMessage::ClientHello { version: 1 };
    assert_eq!(hello.kind(), ClientMessageKind::ClientHello);
    assert_eq!(hello.kind().name(), "ClientHello");
    let identify = ClientMessage::ClientIdentify {
        user_id: UserId::from_bytes([2; 16]),
        public_key: Ed25519PublicKeyBytes::new([3; 32]),
        enrollment: Some([4; 32]),
    };
    assert_eq!(identify.kind(), ClientMessageKind::ClientIdentify);
    let response = ClientMessage::ClientAuthenticationResponse {
        signature: Ed25519SignatureBytes::new([5; 64]),
    };
    assert_eq!(response.kind(), ClientMessageKind::ClientAuthenticationResponse);
    let delivery = ClientMessage::Delivery {
        request_id: id,
        request: Request::FetchWelcomes { after_cursor: 0 },
    };
    assert_eq!(delivery.kind(), ClientMessageKind::Delivery);
    for message in [hello, identify, response, delivery] {
        let bytes = encode_message(&message).unwrap();
        let again: ClientMessage = decode_message(&bytes).unwrap();
        assert_eq!(again.kind(), message.kind());
        assert_eq!(encode_message(&again).unwrap(), bytes);
    }
    let answer = RelayMessage::Delivery { request_id: id, response: Response::Acknowledged };
    assert_eq!(request_id_of(&answer), Some(id));
    assert_eq!(request_id_of(&RelayMessage::DeliveryChanged), None);
    let error = RelayMessage::ProtocolError {
        request_id: Some(id),
        error: ProtocolError::UnsupportedVersion { supported: 9, received: 8 },
    };
    assert_eq!(request_id_of(&error), Some(id));
    assert_eq!(
        ProtocolError::UnsupportedVersion { supported: 9, received: 8 }.message(),
        "unsupported protocol version: supported=9, received=8"
    );
    assert_eq!(
        encode_message(&RelayMessage::ServerHello { version: 9 }).unwrap(),
        encode_message(&decode_message::<RelayMessage>(
            &encode_message(&RelayMessage::ServerHello { version: 9 }).unwrap()
        )
        .unwrap())
        .unwrap()
    );
}

#[test]
fn characters_are_classified_as_std_does() {
    for code in 0..=0x10ffffu32 {
        if let Some(c) = char::from_u32(code) {
            assert_eq!(is_whitespace(c), c.is_whitespace(), "{code:x}");
            assert_eq!(is_control(c), c.is_control(), "{code:x}");
        }
    }
    assert_eq!(trim("\u{a0} x \t"), "\u{a0} x \t".trim());
    assert_eq!(trim(""), "");
    assert_eq!(trim(" \n"), "");
}

#[test]
fn numbers_and_bytes_as_text() {
    assert_eq!(to_decimal(0), "0");
    assert_eq!(to_decimal(u64::MAX), u64::MAX.to_string());
    for text in ["0", "+7", "007", "18446744073709551615", "18446744073709551616", "", "+", "-1", "1 "] {
        assert_eq!(parse_number(text, u64::MAX), text.parse::<u64>().ok(), "{text:?}");
    }
    assert_eq!(parse_number("256", 255), None);
    assert_eq!(to_hex(&[0, 0x9f, 0xff]), "009fff");
    assert_eq!(parse_hex::<2>("00fF", false).unwrap(), [0, 0xff]);
    assert!(parse_hex::<2>("+1ff", false).is_err());
    assert_eq!(parse_hex::<2>("+1ff", true).unwrap(), [1, 0xff]);
    for text in ["1+ff", "++ff", "-1ff", "+ ff"] {
        assert!(parse_hex::<2>(text, true).is_err(), "{text:?}");
    }
    assert!(matches!("+1".repeat(16).parse::<UserId>(), Err(ParseIdError::InvalidHex)));
    assert!(matches!(
        parse_fingerprint_hex(&"+1".repeat(32)),
        Err(ParseFingerprintError::InvalidHex)
    ));
    assert!(parse_hex::<2>("00f", false).is_err());
    assert!(parse_hex::<2>("0-ff", false).is_err());
    assert!("zz".repeat(16).parse::<RoomId>().is_err());
    assert_eq!(ParseIdError::InvalidLength, "".parse::<MessageId>().unwrap_err());
}
