//! Identifiers, keys, challenges and signatures.
use vstd::prelude::*;
use vstd::string::StringExecFns;
use crate::bytes::{array_of, array_of_view, same_bytes};
use crate::crypto::random_bytes;
use crate::text::{hex_text, parse_hex, parsed_hex, to_hex, HexError};
use crate::varint::WireError;
use crate::wire::Wire;

verus! {

/// Why a text is not an identifier.
#[derive(Clone, Copy, Debug, PartialEq, Eq, Structural)]
pub enum ParseIdError {
    InvalidLength,
    InvalidHex,
}

impl ParseIdError {
    /// What to tell a person.
    pub fn message(&self) -> (text: &'static str)
        ensures
            text@ == match self {
                ParseIdError::InvalidLength => "ID must contain exactly 32 hex characters"@,
                ParseIdError::InvalidHex => "ID contains a non-hex character"@,
            },
    {
        match self {
            ParseIdError::InvalidLength => "ID must contain exactly 32 hex characters",
            ParseIdError::InvalidHex => "ID contains a non-hex character",
        }
    }
}

/// The identifier bytes that `text` writes.
pub open spec fn parsed_id(text: Seq<char>) -> Result<Seq<u8>, ParseIdError> {
    match parsed_hex(text, 16, false) {
        Ok(bytes) => Ok(bytes),
        Err(HexError::Length) => Err(ParseIdError::InvalidLength),
        Err(HexError::Digit) => Err(ParseIdError::InvalidHex),
    }
}

fn parse_id(text: &str) -> (result: Result<[u8; 16], ParseIdError>)
    ensures
        match parsed_id(text@) {
            Ok(bytes) => result matches Ok(got) && got@ == bytes,
            Err(error) => result matches Err(got) && got == error,
        },
{
    match parse_hex::<16>(text, false) {
        Ok(bytes) => Ok(bytes),
        Err(HexError::Length) => Err(ParseIdError::InvalidLength),
        Err(HexError::Digit) => Err(ParseIdError::InvalidHex),
    }
}

/// Who sends and receives.
#[derive(Clone, Copy, Debug, PartialEq, Eq, Hash)]
pub struct UserId(pub(crate) [u8; 16]);

impl View for UserId {
    type V = Seq<u8>;

    closed spec fn view(&self) -> Seq<u8> {
        self.0@
    }
}

impl DeepView for UserId {
    type V = UserId;

    open spec fn deep_view(&self) -> UserId {
        *self
    }
}

impl UserId {
    /// The identifier with these bytes.
    pub closed spec fn of(bytes: Seq<u8>) -> UserId {
        UserId(array_of::<16>(bytes))
    }

    /// An identifier is its sixteen bytes.
    pub proof fn determined_by_bytes(self)
        ensures
            self@.len() == 16,
            UserId::of(self@) == self,
    {
        array_of_view(self.0);
    }

    /// Every sixteen bytes are an identifier's.
    pub proof fn holds_bytes(bytes: [u8; 16])
        ensures
            UserId::of(bytes@)@ == bytes@,
    {
        array_of_view(bytes);
    }

    /// A random identifier: any can come, and so can any failure of the system's random
    /// source.
    pub fn new() -> Result<UserId, getrandom::Error> {
        UserId::from_random(random_bytes::<16>())
    }

    /// The identifier made of the bytes that the system's random source gave, or the
    /// source's failure.
    pub fn from_random(drawn: Result<[u8; 16], getrandom::Error>) -> (result: Result<
        UserId,
        getrandom::Error,
    >)
        ensures
            match drawn {
                Ok(bytes) => result matches Ok(got) && got@ == bytes@ && got == UserId::of(
                    bytes@,
                ),
                Err(error) => result == Err::<UserId, getrandom::Error>(error),
            },
    {
        match drawn {
            Ok(bytes) => {
                proof {
                    array_of_view(bytes);
                }
                Ok(UserId(bytes))
            },
            Err(error) => Err(error),
        }
    }

    pub fn from_bytes(bytes: [u8; 16]) -> (id: UserId)
        ensures
            id@ == bytes@,
            id == UserId::of(bytes@),
    {
        proof {
            array_of_view(bytes);
        }
        UserId(bytes)
    }

    pub fn to_bytes(self) -> (bytes: [u8; 16])
        ensures
            bytes@ == self@,
    {
        self.0
    }

    /// Whether two identifiers are the same.
    pub fn same(&self, other: &UserId) -> (same: bool)
        ensures
            same == (*self == *other),
    {
        same_bytes(&self.0, &other.0)
    }

    /// Thirty-two lower-case hexadecimal digits.
    pub fn to_text(&self) -> (text: String)
        ensures
            text@ == hex_text(self@),
    {
        to_hex(self.0.as_slice())
    }

    /// The identifier with its type's name around it.
    pub fn debug_text(&self) -> (text: String)
        ensures
            text@ == "UserId("@ + hex_text(self@) + ")"@,
    {
        let mut text = "UserId(".to_owned();
        let digits = self.to_text();
        text.append(digits.as_str());
        text.append(")");
        text
    }

    /// Reads an identifier that `to_text` wrote.
    pub fn from_text(text: &str) -> (result: Result<UserId, ParseIdError>)
        ensures
            match parsed_id(text@) {
                Ok(bytes) => result matches Ok(got) && got@ == bytes,
                Err(error) => result matches Err(got) && got == error,
            },
    {
        match parse_id(text) {
            Ok(bytes) => Ok(UserId(bytes)),
            Err(error) => Err(error),
        }
    }
}

impl std::str::FromStr for UserId {
    type Err = ParseIdError;

    fn from_str(text: &str) -> Result<UserId, ParseIdError> {
        UserId::from_text(text)
    }
}

impl Wire for UserId {
    open spec fn encoded(value: UserId) -> Seq<u8> {
        value@
    }

    open spec fn parsed(bytes: Seq<u8>) -> Result<(UserId, nat), WireError> {
        if bytes.len() < 16 {
            Err(WireError::UnexpectedEnd)
        } else {
            Ok((UserId::of(bytes.take(16)), 16))
        }
    }

    open spec fn bounded(value: UserId) -> bool {
        true
    }

    proof fn round_trip(value: UserId, rest: Seq<u8>) {
        value.determined_by_bytes();
        assert((value@ + rest).take(16) =~= value@);
    }

    proof fn parsed_within(bytes: Seq<u8>) {
    }

    fn put(&self, out: &mut Vec<u8>) {
        out.extend_from_slice(self.0.as_slice());
    }

    fn read<'a>(input: &'a [u8]) -> (result: Result<(Self, &'a [u8]), WireError>) {
        match <[u8; 16]>::read(input) {
            Ok((bytes, rest)) => {
                proof {
                    array_of_view(bytes);
                }
                Ok((UserId(bytes), rest))
            },
            Err(error) => Err(error),
        }
    }
}

/// A room.
#[derive(Clone, Copy, Debug, PartialEq, Eq, Hash)]
pub struct RoomId(pub(crate) [u8; 16]);

impl View for RoomId {
    type V = Seq<u8>;

    closed spec fn view(&self) -> Seq<u8> {
        self.0@
    }
}

impl DeepView for RoomId {
    type V = RoomId;

    open spec fn deep_view(&self) -> RoomId {
        *self
    }
}

impl RoomId {
    /// The identifier with these bytes.
    pub closed spec fn of(bytes: Seq<u8>) -> RoomId {
        RoomId(array_of::<16>(bytes))
    }

    /// An identifier is its sixteen bytes.
    pub proof fn determined_by_bytes(self)
        ensures
            self@.len() == 16,
            RoomId::of(self@) == self,
    {
        array_of_view(self.0);
    }

    /// Every sixteen bytes are an identifier's.
    pub proof fn holds_bytes(bytes: [u8; 16])
        ensures
            RoomId::of(bytes@)@ == bytes@,
    {
        array_of_view(bytes);
    }

    /// A random identifier: any can come, and so can any failure of the system's random
    /// source.
    pub fn new() -> Result<RoomId, getrandom::Error> {
        RoomId::from_random(random_bytes::<16>())
    }

    /// The identifier made of the bytes that the system's random source gave, or the
    /// source's failure.
    pub fn from_random(drawn: Result<[u8; 16], getrandom::Error>) -> (result: Result<
        RoomId,
        getrandom::Error,
    >)
        ensures
            match drawn {
                Ok(bytes) => result matches Ok(got) && got@ == bytes@ && got == RoomId::of(
                    bytes@,
                ),
                Err(error) => result == Err::<RoomId, getrandom::Error>(error),
            },
    {
        match drawn {
            Ok(bytes) => {
                proof {
                    array_of_view(bytes);
                }
                Ok(RoomId(bytes))
            },
            Err(error) => Err(error),
        }
    }

    pub fn from_bytes(bytes: [u8; 16]) -> (id: RoomId)
        ensures
            id@ == bytes@,
            id == RoomId::of(bytes@),
    {
        proof {
            array_of_view(bytes);
        }
        RoomId(bytes)
    }

    pub fn to_bytes(self) -> (bytes: [u8; 16])
        ensures
            bytes@ == self@,
    {
        self.0
    }

    /// Whether two identifiers are the same.
    pub fn same(&self, other: &RoomId) -> (same: bool)
        ensures
            same == (*self == *other),
    {
        same_bytes(&self.0, &other.0)
    }

    /// Thirty-two lower-case hexadecimal digits.
    pub fn to_text(&self) -> (text: String)
        ensures
            text@ == hex_text(self@),
    {
        to_hex(self.0.as_slice())
    }

    /// The identifier with its type's name around it.
    pub fn debug_text(&self) -> (text: String)
        ensures
            text@ == "RoomId("@ + hex_text(self@) + ")"@,
    {
        let mut text = "RoomId(".to_owned();
        let digits = self.to_text();
        text.append(digits.as_str());
        text.append(")");
        text
    }

    /// Reads an identifier that `to_text` wrote.
    pub fn from_text(text: &str) -> (result: Result<RoomId, ParseIdError>)
        ensures
            match parsed_id(text@) {
                Ok(bytes) => result matches Ok(got) && got@ == bytes,
                Err(error) => result matches Err(got) && got == error,
            },
    {
        match parse_id(text) {
            Ok(bytes) => Ok(RoomId(bytes)),
            Err(error) => Err(error),
        }
    }
}

impl std::str::FromStr for RoomId {
    type Err = ParseIdError;

    fn from_str(text: &str) -> Result<RoomId, ParseIdError> {
        RoomId::from_text(text)
    }
}

impl Wire for RoomId {
    open spec fn encoded(value: RoomId) -> Seq<u8> {
        value@
    }

    open spec fn parsed(bytes: Seq<u8>) -> Result<(RoomId, nat), WireError> {
        if bytes.len() < 16 {
            Err(WireError::UnexpectedEnd)
        } else {
            Ok((RoomId::of(bytes.take(16)), 16))
        }
    }

    open spec fn bounded(value: RoomId) -> bool {
        true
    }

    proof fn round_trip(value: RoomId, rest: Seq<u8>) {
        value.determined_by_bytes();
        assert((value@ + rest).take(16) =~= value@);
    }

    proof fn parsed_within(bytes: Seq<u8>) {
    }

    fn put(&self, out: &mut Vec<u8>) {
        out.extend_from_slice(self.0.as_slice());
    }

    fn read<'a>(input: &'a [u8]) -> (result: Result<(Self, &'a [u8]), WireError>) {
        match <[u8; 16]>::read(input) {
            Ok((bytes, rest)) => {
                proof {
                    array_of_view(bytes);
                }
                Ok((RoomId(bytes), rest))
            },
            Err(error) => Err(error),
        }
    }
}

/// A request, an event or a receipt.
#[derive(Clone, Copy, Debug, PartialEq, Eq, Hash)]
pub struct MessageId(pub(crate) [u8; 16]);

impl View for MessageId {
    type V = Seq<u8>;

    closed spec fn view(&self) -> Seq<u8> {
        self.0@
    }
}

impl DeepView for MessageId {
    type V = MessageId;

    open spec fn deep_view(&self) -> MessageId {
        *self
    }
}

impl MessageId {
    /// The identifier with these bytes.
    pub closed spec fn of(bytes: Seq<u8>) -> MessageId {
        MessageId(array_of::<16>(bytes))
    }

    /// An identifier is its sixteen bytes.
    pub proof fn determined_by_bytes(self)
        ensures
            self@.len() == 16,
            MessageId::of(self@) == self,
    {
        array_of_view(self.0);
    }

    /// Every sixteen bytes are an identifier's.
    pub proof fn holds_bytes(bytes: [u8; 16])
        ensures
            MessageId::of(bytes@)@ == bytes@,
    {
        array_of_view(bytes);
    }

    /// A random identifier: any can come, and so can any failure of the system's random
    /// source.
    pub fn new() -> Result<MessageId, getrandom::Error> {
        MessageId::from_random(random_bytes::<16>())
    }

    /// The identifier made of the bytes that the system's random source gave, or the
    /// source's failure.
    pub fn from_random(drawn: Result<[u8; 16], getrandom::Error>) -> (result: Result<
        MessageId,
        getrandom::Error,
    >)
        ensures
            match drawn {
                Ok(bytes) => result matches Ok(got) && got@ == bytes@ && got == MessageId::of(
                    bytes@,
                ),
                Err(error) => result == Err::<MessageId, getrandom::Error>(error),
            },
    {
        match drawn {
            Ok(bytes) => {
                proof {
                    array_of_view(bytes);
                }
                Ok(MessageId(bytes))
            },
            Err(error) => Err(error),
        }
    }

    pub fn from_bytes(bytes: [u8; 16]) -> (id: MessageId)
        ensures
            id@ == bytes@,
            id == MessageId::of(bytes@),
    {
        proof {
            array_of_view(bytes);
        }
        MessageId(bytes)
    }

    pub fn to_bytes(self) -> (bytes: [u8; 16])
        ensures
            bytes@ == self@,
    {
        self.0
    }

    /// Whether two identifiers are the same.
    pub fn same(&self, other: &MessageId) -> (same: bool)
        ensures
            same == (*self == *other),
    {
        same_bytes(&self.0, &other.0)
    }

    /// Thirty-two lower-case hexadecimal digits.
    pub fn to_text(&self) -> (text: String)
        ensures
            text@ == hex_text(self@),
    {
        to_hex(self.0.as_slice())
    }

    /// The identifier with its type's name around it.
    pub fn debug_text(&self) -> (text: String)
        ensures
            text@ == "MessageId("@ + hex_text(self@) + ")"@,
    {
        let mut text = "MessageId(".to_owned();
        let digits = self.to_text();
        text.append(digits.as_str());
        text.append(")");
        text
    }

    /// Reads an identifier that `to_text` wrote.
    pub fn from_text(text: &str) -> (result: Result<MessageId, ParseIdError>)
        ensures
            match parsed_id(text@) {
                Ok(bytes) => result matches Ok(got) && got@ == bytes,
                Err(error) => result matches Err(got) && got == error,
            },
    {
        match parse_id(text) {
            Ok(bytes) => Ok(MessageId(bytes)),
            Err(error) => Err(error),
        }
    }
}

impl std::str::FromStr for MessageId {
    type Err = ParseIdError;

    fn from_str(text: &str) -> Result<MessageId, ParseIdError> {
        MessageId::from_text(text)
    }
}

impl Wire for MessageId {
    open spec fn encoded(value: MessageId) -> Seq<u8> {
        value@
    }

    open spec fn parsed(bytes: Seq<u8>) -> Result<(MessageId, nat), WireError> {
        if bytes.len() < 16 {
            Err(WireError::UnexpectedEnd)
        } else {
            Ok((MessageId::of(bytes.take(16)), 16))
        }
    }

    open spec fn bounded(value: MessageId) -> bool {
        true
    }

    proof fn round_trip(value: MessageId, rest: Seq<u8>) {
        value.determined_by_bytes();
        assert((value@ + rest).take(16) =~= value@);
    }

    proof fn parsed_within(bytes: Seq<u8>) {
    }

    fn put(&self, out: &mut Vec<u8>) {
        out.extend_from_slice(self.0.as_slice());
    }

    fn read<'a>(input: &'a [u8]) -> (result: Result<(Self, &'a [u8]), WireError>) {
        match <[u8; 16]>::read(input) {
            Ok((bytes, rest)) => {
                proof {
                    array_of_view(bytes);
                }
                Ok((MessageId(bytes), rest))
            },
            Err(error) => Err(error),
        }
    }
}

/// A transport public key.
#[derive(Clone, Copy, Debug, PartialEq, Eq)]
pub struct Ed25519PublicKeyBytes(pub(crate) [u8; 32]);

impl View for Ed25519PublicKeyBytes {
    type V = Seq<u8>;

    closed spec fn view(&self) -> Seq<u8> {
        self.0@
    }
}

impl DeepView for Ed25519PublicKeyBytes {
    type V = Ed25519PublicKeyBytes;

    open spec fn deep_view(&self) -> Ed25519PublicKeyBytes {
        *self
    }
}

impl Ed25519PublicKeyBytes {
    /// The value with these bytes.
    pub closed spec fn of(bytes: Seq<u8>) -> Ed25519PublicKeyBytes {
        Ed25519PublicKeyBytes(array_of::<32>(bytes))
    }

    /// The value is its bytes.
    pub proof fn determined_by_bytes(self)
        ensures
            self@.len() == 32,
            Ed25519PublicKeyBytes::of(self@) == self,
    {
        array_of_view(self.0);
    }

    pub fn new(bytes: [u8; 32]) -> (value: Ed25519PublicKeyBytes)
        ensures
            value@ == bytes@,
    {
        Ed25519PublicKeyBytes(bytes)
    }

    pub fn as_bytes(&self) -> (bytes: &[u8; 32])
        ensures
            bytes@ == self@,
    {
        &self.0
    }

    /// Whether two values are the same.
    pub fn same(&self, other: &Ed25519PublicKeyBytes) -> (same: bool)
        ensures
            same == (*self == *other),
    {
        same_bytes(&self.0, &other.0)
    }
}

impl Wire for Ed25519PublicKeyBytes {
    open spec fn encoded(value: Ed25519PublicKeyBytes) -> Seq<u8> {
        value@
    }

    open spec fn parsed(bytes: Seq<u8>) -> Result<(Ed25519PublicKeyBytes, nat), WireError> {
        if bytes.len() < 32 {
            Err(WireError::UnexpectedEnd)
        } else {
            Ok((Ed25519PublicKeyBytes::of(bytes.take(32)), 32))
        }
    }

    open spec fn bounded(value: Ed25519PublicKeyBytes) -> bool {
        true
    }

    proof fn round_trip(value: Ed25519PublicKeyBytes, rest: Seq<u8>) {
        value.determined_by_bytes();
        assert((value@ + rest).take(32) =~= value@);
    }

    proof fn parsed_within(bytes: Seq<u8>) {
    }

    fn put(&self, out: &mut Vec<u8>) {
        out.extend_from_slice(self.0.as_slice());
    }

    fn read<'a>(input: &'a [u8]) -> (result: Result<(Self, &'a [u8]), WireError>) {
        match <[u8; 32]>::read(input) {
            Ok((bytes, rest)) => {
                proof {
                    array_of_view(bytes);
                }
                Ok((Ed25519PublicKeyBytes(bytes), rest))
            },
            Err(error) => Err(error),
        }
    }
}

/// What a client signs to show that it holds its key.
#[derive(Clone, Copy, Debug, PartialEq, Eq)]
pub struct AuthenticationChallenge(pub(crate) [u8; 32]);

impl View for AuthenticationChallenge {
    type V = Seq<u8>;

    closed spec fn view(&self) -> Seq<u8> {
        self.0@
    }
}

impl DeepView for AuthenticationChallenge {
    type V = AuthenticationChallenge;

    open spec fn deep_view(&self) -> AuthenticationChallenge {
        *self
    }
}

impl AuthenticationChallenge {
    /// The value with these bytes.
    pub closed spec fn of(bytes: Seq<u8>) -> AuthenticationChallenge {
        AuthenticationChallenge(array_of::<32>(bytes))
    }

    /// The value is its bytes.
    pub proof fn determined_by_bytes(self)
        ensures
            self@.len() == 32,
            AuthenticationChallenge::of(self@) == self,
    {
        array_of_view(self.0);
    }

    /// A random challenge: any can come, and so can any failure of the system's random
    /// source.
    pub fn generate() -> Result<AuthenticationChallenge, getrandom::Error> {
        AuthenticationChallenge::from_random(random_bytes::<32>())
    }

    /// The challenge made of the bytes that the system's random source gave, or the
    /// source's failure.
    pub fn from_random(drawn: Result<[u8; 32], getrandom::Error>) -> (result: Result<
        AuthenticationChallenge,
        getrandom::Error,
    >)
        ensures
            match drawn {
                Ok(bytes) => result matches Ok(got) && got@ == bytes@ && got == AuthenticationChallenge::of(
                    bytes@,
                ),
                Err(error) => result == Err::<AuthenticationChallenge, getrandom::Error>(error),
            },
    {
        match drawn {
            Ok(bytes) => {
                proof {
                    array_of_view(bytes);
                }
                Ok(AuthenticationChallenge(bytes))
            },
            Err(error) => Err(error),
        }
    }

    /// The challenge with these bytes.
    pub fn from_bytes(bytes: [u8; 32]) -> (value: AuthenticationChallenge)
        ensures
            value@ == bytes@,
    {
        AuthenticationChallenge(bytes)
    }

    pub fn as_bytes(&self) -> (bytes: &[u8; 32])
        ensures
            bytes@ == self@,
    {
        &self.0
    }

    /// Whether two values are the same.
    pub fn same(&self, other: &AuthenticationChallenge) -> (same: bool)
        ensures
            same == (*self == *other),
    {
        same_bytes(&self.0, &other.0)
    }
}

impl Wire for AuthenticationChallenge {
    open spec fn encoded(value: AuthenticationChallenge) -> Seq<u8> {
        value@
    }

    open spec fn parsed(bytes: Seq<u8>) -> Result<(AuthenticationChallenge, nat), WireError> {
        if bytes.len() < 32 {
            Err(WireError::UnexpectedEnd)
        } else {
            Ok((AuthenticationChallenge::of(bytes.take(32)), 32))
        }
    }

    open spec fn bounded(value: AuthenticationChallenge) -> bool {
        true
    }

    proof fn round_trip(value: AuthenticationChallenge, rest: Seq<u8>) {
        value.determined_by_bytes();
        assert((value@ + rest).take(32) =~= value@);
    }

    proof fn parsed_within(bytes: Seq<u8>) {
    }

    fn put(&self, out: &mut Vec<u8>) {
        out.extend_from_slice(self.0.as_slice());
    }

    fn read<'a>(input: &'a [u8]) -> (result: Result<(Self, &'a [u8]), WireError>) {
        match <[u8; 32]>::read(input) {
            Ok((bytes, rest)) => {
                proof {
                    array_of_view(bytes);
                }
                Ok((AuthenticationChallenge(bytes), rest))
            },
            Err(error) => Err(error),
        }
    }
}

/// A transport signature.
#[derive(Clone, Copy, Debug, PartialEq, Eq)]
pub struct Ed25519SignatureBytes(pub(crate) [u8; 64]);

impl View for Ed25519SignatureBytes {
    type V = Seq<u8>;

    closed spec fn view(&self) -> Seq<u8> {
        self.0@
    }
}

impl DeepView for Ed25519SignatureBytes {
    type V = Ed25519SignatureBytes;

    open spec fn deep_view(&self) -> Ed25519SignatureBytes {
        *self
    }
}

impl Ed25519SignatureBytes {
    /// The value with these bytes.
    pub closed spec fn of(bytes: Seq<u8>) -> Ed25519SignatureBytes {
        Ed25519SignatureBytes(array_of::<64>(bytes))
    }

    /// The value is its bytes.
    pub proof fn determined_by_bytes(self)
        ensures
            self@.len() == 64,
            Ed25519SignatureBytes::of(self@) == self,
    {
        array_of_view(self.0);
    }

    pub fn new(bytes: [u8; 64]) -> (value: Ed25519SignatureBytes)
        ensures
            value@ == bytes@,
    {
        Ed25519SignatureBytes(bytes)
    }

    pub fn as_bytes(&self) -> (bytes: &[u8; 64])
        ensures
            bytes@ == self@,
    {
        &self.0
    }

    /// Whether two values are the same.
    pub fn same(&self, other: &Ed25519SignatureBytes) -> (same: bool)
        ensures
            same == (*self == *other),
    {
        same_bytes(&self.0, &other.0)
    }
}

impl Wire for Ed25519SignatureBytes {
    open spec fn encoded(value: Ed25519SignatureBytes) -> Seq<u8> {
        value@
    }

    open spec fn parsed(bytes: Seq<u8>) -> Result<(Ed25519SignatureBytes, nat), WireError> {
        if bytes.len() < 64 {
            Err(WireError::UnexpectedEnd)
        } else {
            Ok((Ed25519SignatureBytes::of(bytes.take(64)), 64))
        }
    }

    open spec fn bounded(value: Ed25519SignatureBytes) -> bool {
        true
    }

    proof fn round_trip(value: Ed25519SignatureBytes, rest: Seq<u8>) {
        value.determined_by_bytes();
        assert((value@ + rest).take(64) =~= value@);
    }

    proof fn parsed_within(bytes: Seq<u8>) {
    }

    fn put(&self, out: &mut Vec<u8>) {
        out.extend_from_slice(self.0.as_slice());
    }

    fn read<'a>(input: &'a [u8]) -> (result: Result<(Self, &'a [u8]), WireError>) {
        match <[u8; 64]>::read(input) {
            Ok((bytes, rest)) => {
                proof {
                    array_of_view(bytes);
                }
                Ok((Ed25519SignatureBytes(bytes), rest))
            },
            Err(error) => Err(error),
        }
    }
}

/// Reading the text of an identifier gives the identifier back.
pub proof fn id_text_round_trip(id: Seq<u8>)
    requires
        id.len() == 16,
    ensures
        parsed_id(hex_text(id)) == Ok::<Seq<u8>, ParseIdError>(id),
{
    crate::text::hex_round_trip(id, false);
}

} // verus!
