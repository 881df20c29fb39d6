//! What both ends of a conversation share: limits, names, transcripts,
//! fingerprints and whole messages.
use vstd::prelude::*;
use vstd::string::StringExecFns;
use crate::crypto::{digest, sha256};
use crate::delivery::MAX_PAYLOAD;
use crate::ids::{AuthenticationChallenge, Ed25519PublicKeyBytes, MessageId, UserId};
use crate::messages::{
    ClientMessage, ClientMessageKind, ClientMessageView, ProtocolError, RelayMessage,
    RelayMessageView, RoomNameError,
};
use crate::text::{
    characters, control, decimal, hex_text, is_control, parse_hex, parsed_hex, to_decimal, to_hex,
    trim, trimmed, HexError,
};
use crate::varint::WireError;
use crate::wire::Wire;

verus! {

/// The longest room name in characters.
pub const MAX_ROOM_NAME_CHARS: usize = 100;

/// The longest message that a person can write, in bytes.
pub const MAX_MESSAGE_BODY_BYTES: usize = 64 * 1024;

/// The version of the protocol.
pub const PROTOCOL_VERSION: u16 = 9;

/// Why bytes are not a message.
#[derive(Clone, Copy, Debug, PartialEq, Eq, Structural)]
pub enum DecodeMessageError {
    PayloadLimit,
    Postcard(WireError),
    TrailingBytes,
}

/// What a whole message of `T` is read as.
pub open spec fn decoded<T: Wire>(bytes: Seq<u8>) -> Result<T::V, DecodeMessageError> {
    if bytes.len() > MAX_PAYLOAD {
        Err(DecodeMessageError::PayloadLimit)
    } else {
        match T::parsed(bytes) {
            Ok((value, used)) => if used == bytes.len() {
                Ok(value)
            } else {
                Err(DecodeMessageError::TrailingBytes)
            },
            Err(error) => Err(DecodeMessageError::Postcard(error)),
        }
    }
}

/// Encodes a message that fits the payload limit.
pub fn encode_message<T: Wire>(message: &T) -> (result: Result<Vec<u8>, WireError>)
    ensures
        match result {
            Ok(bytes) => bytes@ == T::encoded(message.deep_view()) && bytes@.len() <= MAX_PAYLOAD,
            Err(error) => error == WireError::BufferFull && T::encoded(message.deep_view()).len()
                > MAX_PAYLOAD,
        },
{
    let mut bytes: Vec<u8> = Vec::new();
    message.put(&mut bytes);
    assert(bytes@ =~= T::encoded(message.deep_view()));
    if bytes.len() > MAX_PAYLOAD {
        return Err(WireError::BufferFull);
    }
    Ok(bytes)
}

/// Reads a whole message, and nothing behind it.
pub fn decode_message<T: Wire>(bytes: &[u8]) -> (result: Result<T, DecodeMessageError>)
    ensures
        match decoded::<T>(bytes@) {
            Ok(value) => result matches Ok(got) && got.deep_view() == value,
            Err(error) => result matches Err(got) && got == error,
        },
{
    if bytes.len() > MAX_PAYLOAD {
        return Err(DecodeMessageError::PayloadLimit);
    }
    let ghost all = bytes@;
    let (message, rest) = match T::read(bytes) {
        Ok(taken) => taken,
        Err(error) => return Err(DecodeMessageError::Postcard(error)),
    };
    proof {
        T::parsed_within(all);
    }
    if rest.len() != 0 {
        return Err(DecodeMessageError::TrailingBytes);
    }
    Ok(message)
}

/// What is sent is received: decoding the encoding of a message within its
/// limits gives the message back.
pub proof fn message_round_trip<T: Wire>(value: T::V)
    requires
        T::bounded(value),
        T::encoded(value).len() <= MAX_PAYLOAD,
    ensures
        decoded::<T>(T::encoded(value)) == Ok::<T::V, DecodeMessageError>(value),
{
    T::round_trip(value, Seq::empty());
    assert(T::encoded(value) + Seq::<u8>::empty() =~= T::encoded(value));
}

/// Two messages within their limits that have the same encoding are the same.
pub proof fn encoding_injective<T: Wire>(left: T::V, right: T::V)
    requires
        T::bounded(left),
        T::bounded(right),
        T::encoded(left) == T::encoded(right),
    ensures
        left == right,
{
    T::round_trip(left, Seq::empty());
    T::round_trip(right, Seq::empty());
}

/// Every strict extension of an encoding is refused for its trailing bytes.
pub proof fn trailing_bytes_refused<T: Wire>(value: T::V, extra: Seq<u8>)
    requires
        T::bounded(value),
        extra.len() > 0,
        T::encoded(value).len() + extra.len() <= MAX_PAYLOAD,
    ensures
        decoded::<T>(T::encoded(value) + extra) == Err::<T::V, DecodeMessageError>(
            DecodeMessageError::TrailingBytes,
        ),
{
    T::round_trip(value, extra);
}

/// What decoding accepts is within its limits.
pub proof fn decoded_is_bounded<T: Wire>(bytes: Seq<u8>)
    ensures
        decoded::<T>(bytes) matches Ok(value) ==> T::bounded(value),
{
    T::parsed_within(bytes);
}

impl DecodeMessageError {
    /// What to tell a person.
    pub fn message(&self) -> (text: String)
        ensures
            text@ == match self {
                DecodeMessageError::PayloadLimit => "aggregate V9 payload exceeds 768 KiB"@,
                DecodeMessageError::Postcard(error) => "invalid Postcard message: "@ + error.text(),
                DecodeMessageError::TrailingBytes => "trailing bytes after Postcard message"@,
            },
    {
        match self {
            DecodeMessageError::PayloadLimit => "aggregate V9 payload exceeds 768 KiB".to_owned(),
            DecodeMessageError::Postcard(error) => {
                let mut text = "invalid Postcard message: ".to_owned();
                text.append(error.message());
                text
            },
            DecodeMessageError::TrailingBytes => "trailing bytes after Postcard message".to_owned(),
        }
    }
}

impl WireError {
    /// What to tell a person.
    pub open spec fn text(self) -> Seq<char> {
        match self {
            WireError::BufferFull => "The serialize buffer is full"@,
            WireError::UnexpectedEnd => "Hit the end of buffer, expected more data"@,
            WireError::BadVarint => {
                "Found a varint that didn't terminate. Is the usize too big for this platform?"@
            },
            WireError::BadBool => "Found a bool that wasn't 0 or 1"@,
            WireError::BadOption => "Found an Option discriminant that wasn't 0 or 1"@,
            WireError::BadUtf8 => "Tried to parse invalid utf-8"@,
            WireError::Rejected => "Serde Deserialization Error"@,
        }
    }

    /// What to tell a person.
    pub fn message(&self) -> (text: &'static str)
        ensures
            text@ == self.text(),
    {
        match self {
            WireError::BufferFull => "The serialize buffer is full",
            WireError::UnexpectedEnd => "Hit the end of buffer, expected more data",
            WireError::BadVarint => {
                "Found a varint that didn't terminate. Is the usize too big for this platform?"
            },
            WireError::BadBool => "Found a bool that wasn't 0 or 1",
            WireError::BadOption => "Found an Option discriminant that wasn't 0 or 1",
            WireError::BadUtf8 => "Tried to parse invalid utf-8",
            WireError::Rejected => "Serde Deserialization Error",
        }
    }
}

impl ClientMessage {
    /// The kind of a message.
    pub open spec fn kind_of(view: ClientMessageView) -> ClientMessageKind {
        match view {
            ClientMessageView::ClientHello { .. } => ClientMessageKind::ClientHello,
            ClientMessageView::ClientIdentify { .. } => ClientMessageKind::ClientIdentify,
            ClientMessageView::ClientAuthenticationResponse { .. } => {
                ClientMessageKind::ClientAuthenticationResponse
            },
            ClientMessageView::Delivery { .. } => ClientMessageKind::Delivery,
        }
    }

    pub fn kind(&self) -> (kind: ClientMessageKind)
        ensures
            kind == ClientMessage::kind_of(self.deep_view()),
    {
        match self {
            ClientMessage::ClientHello { .. } => ClientMessageKind::ClientHello,
            ClientMessage::ClientIdentify { .. } => ClientMessageKind::ClientIdentify,
            ClientMessage::ClientAuthenticationResponse { .. } => {
                ClientMessageKind::ClientAuthenticationResponse
            },
            ClientMessage::Delivery { .. } => ClientMessageKind::Delivery,
        }
    }
}

impl ClientMessageKind {
    /// The kind's name.
    pub open spec fn text(self) -> Seq<char> {
        match self {
            ClientMessageKind::ClientHello => "ClientHello"@,
            ClientMessageKind::ClientIdentify => "ClientIdentify"@,
            ClientMessageKind::ClientAuthenticationResponse => "ClientAuthenticationResponse"@,
            ClientMessageKind::Delivery => "Delivery"@,
        }
    }

    /// The kind's name.
    pub fn name(&self) -> (text: &'static str)
        ensures
            text@ == self.text(),
    {
        match self {
            ClientMessageKind::ClientHello => "ClientHello",
            ClientMessageKind::ClientIdentify => "ClientIdentify",
            ClientMessageKind::ClientAuthenticationResponse => "ClientAuthenticationResponse",
            ClientMessageKind::Delivery => "Delivery",
        }
    }
}

impl ProtocolError {
    /// What to tell a person.
    pub fn message(&self) -> (text: String)
        ensures
            text@ == match self {
                ProtocolError::UnsupportedVersion { supported, received } => {
                    "unsupported protocol version: supported="@ + decimal(*supported as nat)
                        + ", received="@ + decimal(*received as nat)
                },
                ProtocolError::UnexpectedMessage { expected, received } => "expected "@
                    + expected.text() + ", received "@ + received.text(),
                ProtocolError::InvalidPublicKey => "invalid Ed25519 public key"@,
                ProtocolError::IdentityKeyConflict => {
                    "user ID is registered to a different public key"@
                },
                ProtocolError::AuthenticationFailed => "authentication failed"@,
            },
    {
        match self {
            ProtocolError::UnsupportedVersion { supported, received } => {
                let mut text = "unsupported protocol version: supported=".to_owned();
                let ours = to_decimal(*supported as u64);
                let theirs = to_decimal(*received as u64);
                text.append(ours.as_str());
                text.append(", received=");
                text.append(theirs.as_str());
                text
            },
            ProtocolError::UnexpectedMessage { expected, received } => {
                let mut text = "expected ".to_owned();
                text.append(expected.name());
                text.append(", received ");
                text.append(received.name());
                text
            },
            ProtocolError::InvalidPublicKey => "invalid Ed25519 public key".to_owned(),
            ProtocolError::IdentityKeyConflict => {
                "user ID is registered to a different public key".to_owned()
            },
            ProtocolError::AuthenticationFailed => "authentication failed".to_owned(),
        }
    }
}

impl RoomNameError {
    /// What to tell a person.
    pub fn message(&self) -> (text: &'static str)
        ensures
            text@ == match self {
                RoomNameError::Empty => "name cannot be empty"@,
                RoomNameError::TooLong => "name cannot exceed 100 characters"@,
                RoomNameError::ControlCharacter => "name cannot contain control characters"@,
            },
    {
        match self {
            RoomNameError::Empty => "name cannot be empty",
            RoomNameError::TooLong => "name cannot exceed 100 characters",
            RoomNameError::ControlCharacter => "name cannot contain control characters",
        }
    }
}

/// The name that a room is given for `name`: without white characters at its
/// ends, not empty, not too long, and without control characters.
pub open spec fn normalized_name(name: Seq<char>) -> Result<Seq<char>, RoomNameError> {
    let text = trimmed(name);
    if text.len() == 0 {
        Err(RoomNameError::Empty)
    } else if text.len() > MAX_ROOM_NAME_CHARS {
        Err(RoomNameError::TooLong)
    } else if exists|i: int| 0 <= i < text.len() && control(#[trigger] text[i]) {
        Err(RoomNameError::ControlCharacter)
    } else {
        Ok(text)
    }
}

pub fn normalize_room_name(name: &str) -> (result: Result<String, RoomNameError>)
    ensures
        match normalized_name(name@) {
            Ok(text) => result matches Ok(got) && got@ == text,
            Err(error) => result matches Err(got) && got == error,
        },
{
    let text = trim(name);
    let chars = characters(text);
    if chars.len() == 0 {
        return Err(RoomNameError::Empty);
    }
    if chars.len() > MAX_ROOM_NAME_CHARS {
        return Err(RoomNameError::TooLong);
    }
    let mut at: usize = 0;
    while at < chars.len()
        invariant
            at <= chars@.len(),
            0 < chars@.len() <= MAX_ROOM_NAME_CHARS,
            chars@ == trimmed(name@),
            forall|i: int| 0 <= i < at ==> !control(#[trigger] chars@[i]),
        decreases chars.len() - at,
    {
        if is_control(chars[at]) {
            assert(control(trimmed(name@)[at as int]));
            return Err(RoomNameError::ControlCharacter);
        }
        at += 1;
    }
    Ok(text.to_owned())
}

/// The big-endian bytes of a number.
pub open spec fn big_endian(value: nat, width: nat) -> Seq<u8>
    decreases width,
{
    if width == 0 {
        Seq::empty()
    } else {
        big_endian(value / 256, (width - 1) as nat).push((value % 256) as u8)
    }
}

/// A number has as many big-endian bytes as asked.
pub proof fn big_endian_len(value: nat, width: nat)
    ensures
        big_endian(value, width).len() == width,
    decreases width,
{
    if width > 0 {
        big_endian_len(value / 256, (width - 1) as nat);
    }
}

/// Numbers that fit so many bytes are told apart by them.
pub proof fn big_endian_injective(left: nat, right: nat, width: nat)
    requires
        big_endian(left, width) == big_endian(right, width),
        left < vstd::arithmetic::power::pow(256, width),
        right < vstd::arithmetic::power::pow(256, width),
    ensures
        left == right,
    decreases width,
{
    reveal(vstd::arithmetic::power::pow);
    if width > 0 {
        let narrow = (width - 1) as nat;
        let l = big_endian(left, width);
        let r = big_endian(right, width);
        assert(l.drop_last() =~= big_endian(left / 256, narrow));
        assert(r.drop_last() =~= big_endian(right / 256, narrow));
        assert(l.last() == (left % 256) as u8);
        assert(r.last() == (right % 256) as u8);
        big_endian_injective(left / 256, right / 256, narrow);
    }
}

/// The eight big-endian bytes of a number.
pub fn put_big_endian(value: u64, out: &mut Vec<u8>)
    ensures
        final(out)@ == old(out)@ + big_endian(value as nat, 8),
{
    out.push((value / 0x100_0000_0000_0000) as u8);
    out.push((value / 0x1_0000_0000_0000 % 256) as u8);
    out.push((value / 0x100_0000_0000 % 256) as u8);
    out.push((value / 0x1_0000_0000 % 256) as u8);
    out.push((value / 0x100_0000 % 256) as u8);
    out.push((value / 0x1_0000 % 256) as u8);
    out.push((value / 0x100 % 256) as u8);
    out.push((value % 256) as u8);
    proof {
        reveal_with_fuel(big_endian, 9);
        assert(out@ =~= old(out)@ + big_endian(value as nat, 8));
    }
}

/// What a client signs to authenticate.
pub open spec fn authentication_bytes(
    version: u16,
    user: Seq<u8>,
    key: Seq<u8>,
    challenge: Seq<u8>,
) -> Seq<u8> {
    authentication_domain() + big_endian(version as nat, 2) + user + key + challenge
}

/// The text `GROTTO-AUTH-V1`.
pub open spec fn authentication_domain() -> Seq<u8> {
    seq![71u8, 82, 79, 84, 84, 79, 45, 65, 85, 84, 72, 45, 86, 49]
}

pub fn authentication_transcript(
    protocol_version: u16,
    user_id: UserId,
    public_key: &Ed25519PublicKeyBytes,
    challenge: &AuthenticationChallenge,
) -> (transcript: [u8; 96])
    ensures
        transcript@ == authentication_bytes(protocol_version, user_id@, public_key@, challenge@),
{
    let domain: [u8; 14] = [71, 82, 79, 84, 84, 79, 45, 65, 85, 84, 72, 45, 86, 49];
    let mut bytes: Vec<u8> = Vec::new();
    bytes.extend_from_slice(domain.as_slice());
    bytes.push((protocol_version / 256) as u8);
    bytes.push((protocol_version % 256) as u8);
    proof {
        reveal_with_fuel(big_endian, 3);
        assert(bytes@ =~= authentication_domain() + big_endian(protocol_version as nat, 2));
        user_id.determined_by_bytes();
        public_key.determined_by_bytes();
        challenge.determined_by_bytes();
    }
    user_id.put(&mut bytes);
    public_key.put(&mut bytes);
    challenge.put(&mut bytes);
    crate::bytes::to_array::<96>(bytes.as_slice())
}

/// A transcript names its version, user, key and challenge: two that are equal
/// have all four equal.
pub proof fn authentication_transcript_binds(
    version: u16,
    user: UserId,
    key: Ed25519PublicKeyBytes,
    challenge: AuthenticationChallenge,
    version2: u16,
    user2: UserId,
    key2: Ed25519PublicKeyBytes,
    challenge2: AuthenticationChallenge,
)
    requires
        authentication_bytes(version, user@, key@, challenge@) == authentication_bytes(
            version2,
            user2@,
            key2@,
            challenge2@,
        ),
    ensures
        version == version2,
        user == user2,
        key == key2,
        challenge == challenge2,
{
    let a = authentication_bytes(version, user@, key@, challenge@);
    let b = authentication_bytes(version2, user2@, key2@, challenge2@);
    user.determined_by_bytes();
    user2.determined_by_bytes();
    key.determined_by_bytes();
    key2.determined_by_bytes();
    challenge.determined_by_bytes();
    challenge2.determined_by_bytes();
    big_endian_len(version as nat, 2);
    big_endian_len(version2 as nat, 2);
    assert(a.subrange(14, 16) =~= big_endian(version as nat, 2));
    assert(b.subrange(14, 16) =~= big_endian(version2 as nat, 2));
    assert(vstd::arithmetic::power::pow(256, 2) == 65536) by {
        reveal_with_fuel(vstd::arithmetic::power::pow, 3);
    }
    big_endian_injective(version as nat, version2 as nat, 2);
    assert(a.subrange(16, 32) =~= user@);
    assert(b.subrange(16, 32) =~= user2@);
    assert(a.subrange(32, 64) =~= key@);
    assert(b.subrange(32, 64) =~= key2@);
    assert(a.subrange(64, 96) =~= challenge@);
    assert(b.subrange(64, 96) =~= challenge2@);
}

/// The fingerprint of a certificate, or of anything else: its digest in
/// hexadecimal.
pub fn cert_fingerprint_sha256_hex(cert_der: &[u8]) -> (text: String)
    ensures
        text@ == hex_text(sha256(cert_der@)),
{
    to_hex(digest(cert_der).as_slice())
}

/// Why a text is not a fingerprint.
#[derive(Clone, Copy, Debug, PartialEq, Eq, Structural)]
pub enum ParseFingerprintError {
    InvalidLength,
    InvalidHex,
}

impl ParseFingerprintError {
    /// What to tell a person.
    pub fn message(&self) -> (text: &'static str)
        ensures
            text@ == match self {
                ParseFingerprintError::InvalidLength => "fingerprint must be 64 hex characters"@,
                ParseFingerprintError::InvalidHex => "fingerprint contains a non-hex character"@,
            },
    {
        match self {
            ParseFingerprintError::InvalidLength => "fingerprint must be 64 hex characters",
            ParseFingerprintError::InvalidHex => "fingerprint contains a non-hex character",
        }
    }
}

/// The fingerprint that a text writes, whatever white characters surround it.
pub open spec fn parsed_fingerprint(text: Seq<char>) -> Result<Seq<u8>, ParseFingerprintError> {
    match parsed_hex(trimmed(text), 32, false) {
        Ok(bytes) => Ok(bytes),
        Err(HexError::Length) => Err(ParseFingerprintError::InvalidLength),
        Err(HexError::Digit) => Err(ParseFingerprintError::InvalidHex),
    }
}

/// Reads a fingerprint in hexadecimal of either case.
pub fn parse_fingerprint_hex(encoded: &str) -> (result: Result<[u8; 32], ParseFingerprintError>)
    ensures
        match parsed_fingerprint(encoded@) {
            Ok(bytes) => result matches Ok(got) && got@ == bytes,
            Err(error) => result matches Err(got) && got == error,
        },
{
    match parse_hex::<32>(trim(encoded), false) {
        Ok(bytes) => Ok(bytes),
        Err(HexError::Length) => Err(ParseFingerprintError::InvalidLength),
        Err(HexError::Digit) => Err(ParseFingerprintError::InvalidHex),
    }
}

proof fn hex_is_trimmed(bytes: Seq<u8>)
    ensures
        trimmed(hex_text(bytes)) == hex_text(bytes),
{
    let text = hex_text(bytes);
    assert(forall|i: int| 0 <= i < text.len() ==> !crate::text::whitespace(#[trigger] text[i]));
    assert(text.skip(0) =~= text);
    if text.len() > 0 {
        assert(!crate::text::whitespace(text[0]));
        assert(!crate::text::whitespace(text[text.len() - 1]));
    }
}

/// A fingerprint that was written is read back.
pub proof fn fingerprint_round_trip(digest: Seq<u8>)
    requires
        digest.len() == 32,
    ensures
        parsed_fingerprint(hex_text(digest)) == Ok::<Seq<u8>, ParseFingerprintError>(digest),
{
    hex_is_trimmed(digest);
    crate::text::hex_round_trip(digest, false);
}

/// The request that a message answers, if any.
pub open spec fn answered(message: RelayMessageView) -> Option<MessageId> {
    match message {
        RelayMessageView::Delivery { request_id, .. } => Some(request_id),
        RelayMessageView::ProtocolError { request_id, .. } => request_id,
        _ => None,
    }
}

pub fn request_id_of(message: &RelayMessage) -> (id: Option<MessageId>)
    ensures
        id == answered(message.deep_view()),
{
    match message {
        RelayMessage::Delivery { request_id, .. } => Some(*request_id),
        RelayMessage::ProtocolError { request_id, .. } => *request_id,
        _ => None,
    }
}

} // verus!
