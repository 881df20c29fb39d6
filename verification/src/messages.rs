//! Messages between a client and a relay.
use vstd::prelude::*;
use crate::ids::{
    AuthenticationChallenge, Ed25519PublicKeyBytes, Ed25519SignatureBytes, MessageId, UserId,
};
use crate::requests::{Request, RequestView, Response, ResponseView};
use crate::varint::WireError;
use crate::wire::{behind_tag, skip_behind_tag, tagged, Wire};

verus! {

/// The kinds of client messages.
#[derive(Clone, Copy, Debug, PartialEq, Eq, Structural)]
pub enum ClientMessageKind {
    ClientHello,
    ClientIdentify,
    ClientAuthenticationResponse,
    Delivery,
}

impl DeepView for ClientMessageKind {
    type V = ClientMessageKind;

    open spec fn deep_view(&self) -> ClientMessageKind {
        *self
    }
}

impl Wire for ClientMessageKind {
    open spec fn encoded(value: ClientMessageKind) -> Seq<u8> {
        match value {
            ClientMessageKind::ClientHello => seq![1u8],
            ClientMessageKind::ClientIdentify => seq![102u8],
            ClientMessageKind::ClientAuthenticationResponse => seq![3u8],
            ClientMessageKind::Delivery => seq![100u8],
        }
    }

    open spec fn parsed(bytes: Seq<u8>) -> Result<(ClientMessageKind, nat), WireError> {
        if bytes.len() == 0 {
            Err(WireError::UnexpectedEnd)
        } else if bytes[0] == 1 {
            Ok((ClientMessageKind::ClientHello, 1))
        } else if bytes[0] == 102 {
            Ok((ClientMessageKind::ClientIdentify, 1))
        } else if bytes[0] == 3 {
            Ok((ClientMessageKind::ClientAuthenticationResponse, 1))
        } else if bytes[0] == 100 {
            Ok((ClientMessageKind::Delivery, 1))
        } else {
            Err(WireError::Rejected)
        }
    }

    open spec fn bounded(value: ClientMessageKind) -> bool {
        true
    }

    proof fn round_trip(value: ClientMessageKind, rest: Seq<u8>) {
    }

    proof fn parsed_within(bytes: Seq<u8>) {
    }

    fn put(&self, out: &mut Vec<u8>) {
        let tag: u8 = match self {
            ClientMessageKind::ClientHello => 1,
            ClientMessageKind::ClientIdentify => 102,
            ClientMessageKind::ClientAuthenticationResponse => 3,
            ClientMessageKind::Delivery => 100,
        };
        tag.put(out)
    }

    fn read<'a>(input: &'a [u8]) -> (result: Result<(Self, &'a [u8]), WireError>) {
        let (tag, rest) = match u8::read(input) {
            Ok(taken) => taken,
            Err(error) => return Err(error),
        };
        if tag == 1 {
            Ok((ClientMessageKind::ClientHello, rest))
        } else if tag == 102 {
            Ok((ClientMessageKind::ClientIdentify, rest))
        } else if tag == 3 {
            Ok((ClientMessageKind::ClientAuthenticationResponse, rest))
        } else if tag == 100 {
            Ok((ClientMessageKind::Delivery, rest))
        } else {
            Err(WireError::Rejected)
        }
    }
}

/// Why a room name is refused.
#[derive(Clone, Copy, Debug, PartialEq, Eq, Structural)]
pub enum RoomNameError {
    Empty,
    TooLong,
    ControlCharacter,
}

impl DeepView for RoomNameError {
    type V = RoomNameError;

    open spec fn deep_view(&self) -> RoomNameError {
        *self
    }
}

impl Wire for RoomNameError {
    open spec fn encoded(value: RoomNameError) -> Seq<u8> {
        match value {
            RoomNameError::Empty => seq![1u8],
            RoomNameError::TooLong => seq![2u8],
            RoomNameError::ControlCharacter => seq![3u8],
        }
    }

    open spec fn parsed(bytes: Seq<u8>) -> Result<(RoomNameError, nat), WireError> {
        if bytes.len() == 0 {
            Err(WireError::UnexpectedEnd)
        } else if bytes[0] == 1 {
            Ok((RoomNameError::Empty, 1))
        } else if bytes[0] == 2 {
            Ok((RoomNameError::TooLong, 1))
        } else if bytes[0] == 3 {
            Ok((RoomNameError::ControlCharacter, 1))
        } else {
            Err(WireError::Rejected)
        }
    }

    open spec fn bounded(value: RoomNameError) -> bool {
        true
    }

    proof fn round_trip(value: RoomNameError, rest: Seq<u8>) {
    }

    proof fn parsed_within(bytes: Seq<u8>) {
    }

    fn put(&self, out: &mut Vec<u8>) {
        let tag: u8 = match self {
            RoomNameError::Empty => 1,
            RoomNameError::TooLong => 2,
            RoomNameError::ControlCharacter => 3,
        };
        tag.put(out)
    }

    fn read<'a>(input: &'a [u8]) -> (result: Result<(Self, &'a [u8]), WireError>) {
        let (tag, rest) = match u8::read(input) {
            Ok(taken) => taken,
            Err(error) => return Err(error),
        };
        if tag == 1 {
            Ok((RoomNameError::Empty, rest))
        } else if tag == 2 {
            Ok((RoomNameError::TooLong, rest))
        } else if tag == 3 {
            Ok((RoomNameError::ControlCharacter, rest))
        } else {
            Err(WireError::Rejected)
        }
    }
}

/// Why a conversation ends.
#[derive(Clone, Copy, Debug, PartialEq, Eq, Structural)]
#[allow(inconsistent_fields)]
pub enum ProtocolError {
    /// The versions differ.
    UnsupportedVersion { supported: u16, received: u16 },
    /// A message out of turn.
    UnexpectedMessage { expected: ClientMessageKind, received: ClientMessageKind },
    /// The key is no Ed25519 key.
    InvalidPublicKey,
    /// The user is registered under another key.
    IdentityKeyConflict,
    /// The signature is not valid, or the user is not enrolled.
    AuthenticationFailed,
}

impl DeepView for ProtocolError {
    type V = ProtocolError;

    open spec fn deep_view(&self) -> ProtocolError {
        *self
    }
}

impl Wire for ProtocolError {
    open spec fn encoded(value: ProtocolError) -> Seq<u8> {
        match value {
            ProtocolError::UnsupportedVersion { supported, received } => seq![1u8] + <(
                u16,
                u16,
            )>::encoded((supported, received)),
            ProtocolError::UnexpectedMessage { expected, received } => seq![2u8] + <(
                ClientMessageKind,
                ClientMessageKind,
            )>::encoded((expected, received)),
            ProtocolError::InvalidPublicKey => seq![3u8],
            ProtocolError::IdentityKeyConflict => seq![4u8],
            ProtocolError::AuthenticationFailed => seq![5u8],
        }
    }

    open spec fn parsed(bytes: Seq<u8>) -> Result<(ProtocolError, nat), WireError> {
        if bytes.len() == 0 {
            Err(WireError::UnexpectedEnd)
        } else if bytes[0] == 1 {
            tagged(
                <(u16, u16)>::parsed(bytes.skip(1)),
                |fields: (u16, u16)|
                    ProtocolError::UnsupportedVersion { supported: fields.0, received: fields.1 },
            )
        } else if bytes[0] == 2 {
            tagged(
                <(ClientMessageKind, ClientMessageKind)>::parsed(bytes.skip(1)),
                |fields: (ClientMessageKind, ClientMessageKind)|
                    ProtocolError::UnexpectedMessage { expected: fields.0, received: fields.1 },
            )
        } else if bytes[0] == 3 {
            Ok((ProtocolError::InvalidPublicKey, 1))
        } else if bytes[0] == 4 {
            Ok((ProtocolError::IdentityKeyConflict, 1))
        } else if bytes[0] == 5 {
            Ok((ProtocolError::AuthenticationFailed, 1))
        } else {
            Err(WireError::Rejected)
        }
    }

    open spec fn bounded(value: ProtocolError) -> bool {
        match value {
            ProtocolError::UnsupportedVersion { supported, received } => <(
                u16,
                u16,
            )>::bounded((supported, received)),
            ProtocolError::UnexpectedMessage { expected, received } => <(
                ClientMessageKind,
                ClientMessageKind,
            )>::bounded((expected, received)),
            ProtocolError::InvalidPublicKey => true,
            ProtocolError::IdentityKeyConflict => true,
            ProtocolError::AuthenticationFailed => true,
        }
    }

    proof fn round_trip(value: ProtocolError, rest: Seq<u8>) {
        match value {
            ProtocolError::UnsupportedVersion { supported, received } => {
                <(u16, u16)>::round_trip((supported, received), rest);
                behind_tag(1, <(u16, u16)>::encoded((supported, received)), rest);
            },
            ProtocolError::UnexpectedMessage { expected, received } => {
                <(ClientMessageKind, ClientMessageKind)>::round_trip((expected, received), rest);
                behind_tag(
                    2,
                    <(ClientMessageKind, ClientMessageKind)>::encoded((expected, received)),
                    rest,
                );
            },
            ProtocolError::InvalidPublicKey => {},
            ProtocolError::IdentityKeyConflict => {},
            ProtocolError::AuthenticationFailed => {},
        }
    }

    proof fn parsed_within(bytes: Seq<u8>) {
        if bytes.len() > 0 {
            let tag = bytes[0];
            let rest = bytes.skip(1);
            if tag == 1 {
                <(u16, u16)>::parsed_within(rest);
            }
            if tag == 2 {
                <(ClientMessageKind, ClientMessageKind)>::parsed_within(rest);
            }
        }
    }

    fn put(&self, out: &mut Vec<u8>) {
        match self {
            ProtocolError::UnsupportedVersion { supported, received } => {
                1u8.put(out);
                supported.put(out);
                received.put(out);
            },
            ProtocolError::UnexpectedMessage { expected, received } => {
                2u8.put(out);
                expected.put(out);
                received.put(out);
            },
            ProtocolError::InvalidPublicKey => {
                3u8.put(out);
            },
            ProtocolError::IdentityKeyConflict => {
                4u8.put(out);
            },
            ProtocolError::AuthenticationFailed => {
                5u8.put(out);
            },
        }
        assert(out@ =~= old(out)@ + Self::encoded(self.deep_view()));
    }

    fn read<'a>(input: &'a [u8]) -> (result: Result<(Self, &'a [u8]), WireError>) {
        let (tag, rest) = match u8::read(input) {
            Ok(taken) => taken,
            Err(error) => return Err(error),
        };
        let ghost behind = rest@;
        if tag == 1 {
            match <(u16, u16)>::read(rest) {
                Ok(((supported, received), end)) => {
                    proof {
                        <(u16, u16)>::parsed_within(behind);
                        skip_behind_tag(input@, <(u16, u16)>::parsed(behind)->Ok_0.1);
                    }
                    Ok((ProtocolError::UnsupportedVersion { supported, received }, end))
                },
                Err(error) => Err(error),
            }
        } else if tag == 2 {
            match <(ClientMessageKind, ClientMessageKind)>::read(rest) {
                Ok(((expected, received), end)) => {
                    proof {
                        <(ClientMessageKind, ClientMessageKind)>::parsed_within(behind);
                        skip_behind_tag(
                            input@,
                            <(ClientMessageKind, ClientMessageKind)>::parsed(behind)->Ok_0.1,
                        );
                    }
                    Ok((ProtocolError::UnexpectedMessage { expected, received }, end))
                },
                Err(error) => Err(error),
            }
        } else if tag == 3 {
            Ok((ProtocolError::InvalidPublicKey, rest))
        } else if tag == 4 {
            Ok((ProtocolError::IdentityKeyConflict, rest))
        } else if tag == 5 {
            Ok((ProtocolError::AuthenticationFailed, rest))
        } else {
            Err(WireError::Rejected)
        }
    }
}

/// What a client sends. The tags are never used again for anything else.
#[derive(Debug)]
pub enum ClientMessage {
    /// The protocol version that the client speaks.
    ClientHello { version: u16 },
    /// Who the client is, and a token where it is new.
    ClientIdentify {
        user_id: UserId,
        public_key: Ed25519PublicKeyBytes,
        enrollment: Option<[u8; 32]>,
    },
    /// The signature of the relay's challenge.
    ClientAuthenticationResponse { signature: Ed25519SignatureBytes },
    /// A request.
    Delivery { request_id: MessageId, request: Request },
}

/// What a [`ClientMessage`] holds.
#[verifier::ext_equal]
pub enum ClientMessageView {
    ClientHello { version: u16 },
    ClientIdentify {
        user_id: UserId,
        public_key: Ed25519PublicKeyBytes,
        enrollment: Option<Seq<u8>>,
    },
    ClientAuthenticationResponse { signature: Ed25519SignatureBytes },
    Delivery { request_id: MessageId, request: RequestView },
}

impl DeepView for ClientMessage {
    type V = ClientMessageView;

    open spec fn deep_view(&self) -> ClientMessageView {
        match self {
            ClientMessage::ClientHello { version } => ClientMessageView::ClientHello {
                version: *version,
            },
            ClientMessage::ClientIdentify { user_id, public_key, enrollment } => ClientMessageView::ClientIdentify {
                user_id: *user_id,
                public_key: *public_key,
                enrollment: enrollment.deep_view(),
            },
            ClientMessage::ClientAuthenticationResponse { signature } => ClientMessageView::ClientAuthenticationResponse {
                signature: *signature,
            },
            ClientMessage::Delivery { request_id, request } => ClientMessageView::Delivery {
                request_id: *request_id,
                request: request.deep_view(),
            },
        }
    }
}

impl Clone for ClientMessage {
    fn clone(&self) -> (copy: ClientMessage)
        ensures
            copy.deep_view() == self.deep_view(),
    {
        match self {
            ClientMessage::ClientHello { version } => ClientMessage::ClientHello { version: *version },
            ClientMessage::ClientIdentify { user_id, public_key, enrollment } => ClientMessage::ClientIdentify {
                user_id: *user_id,
                public_key: *public_key,
                enrollment: *enrollment,
            },
            ClientMessage::ClientAuthenticationResponse { signature } => ClientMessage::ClientAuthenticationResponse {
                signature: *signature,
            },
            ClientMessage::Delivery { request_id, request } => ClientMessage::Delivery {
                request_id: *request_id,
                request: request.clone(),
            },
        }
    }
}

impl Wire for ClientMessage {
    open spec fn encoded(value: ClientMessageView) -> Seq<u8> {
        match value {
            ClientMessageView::ClientHello { version } => seq![1u8] + u16::encoded(version),
            ClientMessageView::ClientIdentify { user_id, public_key, enrollment } => seq![102u8] + <(UserId, (Ed25519PublicKeyBytes, Option<[u8; 32]>))>::encoded(
                (user_id, (public_key, enrollment)),
            ),
            ClientMessageView::ClientAuthenticationResponse { signature } => seq![3u8] + Ed25519SignatureBytes::encoded(
                signature,
            ),
            ClientMessageView::Delivery { request_id, request } => seq![100u8] + <(
                MessageId,
                Request,
            )>::encoded((request_id, request)),
        }
    }

    open spec fn parsed(bytes: Seq<u8>) -> Result<(ClientMessageView, nat), WireError> {
        if bytes.len() == 0 {
            Err(WireError::UnexpectedEnd)
        } else if bytes[0] == 1 {
            tagged(
                u16::parsed(bytes.skip(1)),
                |fields: u16|
                    ClientMessageView::ClientHello { version: fields },
            )
        } else if bytes[0] == 102 {
            tagged(
                <(UserId, (Ed25519PublicKeyBytes, Option<[u8; 32]>))>::parsed(bytes.skip(1)),
                |fields: (UserId, (Ed25519PublicKeyBytes, Option<Seq<u8>>))|
                    ClientMessageView::ClientIdentify {
                        user_id: fields.0,
                        public_key: fields.1.0,
                        enrollment: fields.1.1,
                    },
            )
        } else if bytes[0] == 3 {
            tagged(
                Ed25519SignatureBytes::parsed(bytes.skip(1)),
                |fields: Ed25519SignatureBytes|
                    ClientMessageView::ClientAuthenticationResponse { signature: fields },
            )
        } else if bytes[0] == 100 {
            tagged(
                <(MessageId, Request)>::parsed(bytes.skip(1)),
                |fields: (MessageId, RequestView)|
                    ClientMessageView::Delivery { request_id: fields.0, request: fields.1 },
            )
        } else {
            Err(WireError::Rejected)
        }
    }

    open spec fn bounded(value: ClientMessageView) -> bool {
        match value {
            ClientMessageView::ClientHello { version } => u16::bounded(version),
            ClientMessageView::ClientIdentify { user_id, public_key, enrollment } => <(UserId, (Ed25519PublicKeyBytes, Option<[u8; 32]>))>::bounded(
                (user_id, (public_key, enrollment)),
            ),
            ClientMessageView::ClientAuthenticationResponse { signature } => Ed25519SignatureBytes::bounded(
                signature,
            ),
            ClientMessageView::Delivery { request_id, request } => <(
                MessageId,
                Request,
            )>::bounded((request_id, request)),
        }
    }

    proof fn round_trip(value: ClientMessageView, rest: Seq<u8>) {
        match value {
            ClientMessageView::ClientHello { version } => {
                u16::round_trip(version, rest);
                behind_tag(1, u16::encoded(version), rest);
            },
            ClientMessageView::ClientIdentify { user_id, public_key, enrollment } => {
                <(UserId, (Ed25519PublicKeyBytes, Option<[u8; 32]>))>::round_trip(
                    (user_id, (public_key, enrollment)),
                    rest,
                );
                behind_tag(
                    102,
                    <(UserId, (Ed25519PublicKeyBytes, Option<[u8; 32]>))>::encoded(
                        (user_id, (public_key, enrollment)),
                    ),
                    rest,
                );
            },
            ClientMessageView::ClientAuthenticationResponse { signature } => {
                Ed25519SignatureBytes::round_trip(signature, rest);
                behind_tag(3, Ed25519SignatureBytes::encoded(signature), rest);
            },
            ClientMessageView::Delivery { request_id, request } => {
                <(MessageId, Request)>::round_trip((request_id, request), rest);
                behind_tag(100, <(MessageId, Request)>::encoded((request_id, request)), rest);
            },
        }
    }

    proof fn parsed_within(bytes: Seq<u8>) {
        if bytes.len() > 0 {
            let tag = bytes[0];
            let rest = bytes.skip(1);
            if tag == 1 {
                u16::parsed_within(rest);
            }
            if tag == 102 {
                <(UserId, (Ed25519PublicKeyBytes, Option<[u8; 32]>))>::parsed_within(rest);
            }
            if tag == 3 {
                Ed25519SignatureBytes::parsed_within(rest);
            }
            if tag == 100 {
                <(MessageId, Request)>::parsed_within(rest);
            }
        }
    }

    fn put(&self, out: &mut Vec<u8>) {
        match self {
            ClientMessage::ClientHello { version } => {
                1u8.put(out);
                version.put(out);
            },
            ClientMessage::ClientIdentify { user_id, public_key, enrollment } => {
                102u8.put(out);
                user_id.put(out);
                public_key.put(out);
                enrollment.put(out);
            },
            ClientMessage::ClientAuthenticationResponse { signature } => {
                3u8.put(out);
                signature.put(out);
            },
            ClientMessage::Delivery { request_id, request } => {
                100u8.put(out);
                request_id.put(out);
                request.put(out);
            },
        }
        assert(out@ =~= old(out)@ + Self::encoded(self.deep_view()));
    }

    fn read<'a>(input: &'a [u8]) -> (result: Result<(Self, &'a [u8]), WireError>) {
        let (tag, rest) = match u8::read(input) {
            Ok(taken) => taken,
            Err(error) => return Err(error),
        };
        let ghost behind = rest@;
        if tag == 1 {
            match u16::read(rest) {
                Ok((version, end)) => {
                    proof {
                        u16::parsed_within(behind);
                        skip_behind_tag(input@, u16::parsed(behind)->Ok_0.1);
                    }
                    Ok((ClientMessage::ClientHello { version }, end))
                },
                Err(error) => Err(error),
            }
        } else if tag == 102 {
            match <(UserId, (Ed25519PublicKeyBytes, Option<[u8; 32]>))>::read(rest) {
                Ok(((user_id, (public_key, enrollment)), end)) => {
                    proof {
                        <(
                            UserId,
                            (Ed25519PublicKeyBytes, Option<[u8; 32]>),
                        )>::parsed_within(behind);
                        skip_behind_tag(
                            input@,
                            <(
                                UserId,
                                (Ed25519PublicKeyBytes, Option<[u8; 32]>),
                            )>::parsed(behind)->Ok_0.1,
                        );
                    }
                    Ok((ClientMessage::ClientIdentify { user_id, public_key, enrollment }, end))
                },
                Err(error) => Err(error),
            }
        } else if tag == 3 {
            match Ed25519SignatureBytes::read(rest) {
                Ok((signature, end)) => {
                    proof {
                        Ed25519SignatureBytes::parsed_within(behind);
                        skip_behind_tag(input@, Ed25519SignatureBytes::parsed(behind)->Ok_0.1);
                    }
                    Ok((ClientMessage::ClientAuthenticationResponse { signature }, end))
                },
                Err(error) => Err(error),
            }
        } else if tag == 100 {
            match <(MessageId, Request)>::read(rest) {
                Ok(((request_id, request), end)) => {
                    proof {
                        <(MessageId, Request)>::parsed_within(behind);
                        skip_behind_tag(input@, <(MessageId, Request)>::parsed(behind)->Ok_0.1);
                    }
                    Ok((ClientMessage::Delivery { request_id, request }, end))
                },
                Err(error) => Err(error),
            }
        } else {
            Err(WireError::Rejected)
        }
    }
}

/// What a relay sends. The tags are never used again for anything else.
#[derive(Debug)]
#[allow(inconsistent_fields)]
pub enum RelayMessage {
    /// The protocol version that the relay speaks.
    ServerHello { version: u16 },
    /// The client is who it says.
    ServerIdentifyAccepted { user_id: UserId },
    /// What the client has to sign.
    ServerAuthenticationChallenge { challenge: AuthenticationChallenge },
    /// The conversation cannot go on.
    ProtocolError { request_id: Option<MessageId>, error: ProtocolError },
    /// The answer to a request.
    Delivery { request_id: MessageId, response: Response },
    /// There is something new to fetch.
    DeliveryChanged,
}

/// What a [`RelayMessage`] holds.
#[verifier::ext_equal]
#[allow(inconsistent_fields)]
pub enum RelayMessageView {
    ServerHello { version: u16 },
    ServerIdentifyAccepted { user_id: UserId },
    ServerAuthenticationChallenge { challenge: AuthenticationChallenge },
    ProtocolError { request_id: Option<MessageId>, error: ProtocolError },
    Delivery { request_id: MessageId, response: ResponseView },
    DeliveryChanged,
}

impl DeepView for RelayMessage {
    type V = RelayMessageView;

    open spec fn deep_view(&self) -> RelayMessageView {
        match self {
            RelayMessage::ServerHello { version } => RelayMessageView::ServerHello { version: *version },
            RelayMessage::ServerIdentifyAccepted { user_id } => RelayMessageView::ServerIdentifyAccepted {
                user_id: *user_id,
            },
            RelayMessage::ServerAuthenticationChallenge { challenge } => RelayMessageView::ServerAuthenticationChallenge {
                challenge: *challenge,
            },
            RelayMessage::ProtocolError { request_id, error } => RelayMessageView::ProtocolError {
                request_id: request_id.deep_view(),
                error: *error,
            },
            RelayMessage::Delivery { request_id, response } => RelayMessageView::Delivery {
                request_id: *request_id,
                response: response.deep_view(),
            },
            RelayMessage::DeliveryChanged => RelayMessageView::DeliveryChanged,
        }
    }
}

impl Clone for RelayMessage {
    fn clone(&self) -> (copy: RelayMessage)
        ensures
            copy.deep_view() == self.deep_view(),
    {
        match self {
            RelayMessage::ServerHello { version } => RelayMessage::ServerHello { version: *version },
            RelayMessage::ServerIdentifyAccepted { user_id } => RelayMessage::ServerIdentifyAccepted {
                user_id: *user_id,
            },
            RelayMessage::ServerAuthenticationChallenge { challenge } => RelayMessage::ServerAuthenticationChallenge {
                challenge: *challenge,
            },
            RelayMessage::ProtocolError { request_id, error } => RelayMessage::ProtocolError {
                request_id: *request_id,
                error: *error,
            },
            RelayMessage::Delivery { request_id, response } => RelayMessage::Delivery {
                request_id: *request_id,
                response: response.clone(),
            },
            RelayMessage::DeliveryChanged => RelayMessage::DeliveryChanged,
        }
    }
}

impl Wire for RelayMessage {
    open spec fn encoded(value: RelayMessageView) -> Seq<u8> {
        match value {
            RelayMessageView::ServerHello { version } => seq![1u8] + u16::encoded(version),
            RelayMessageView::ServerIdentifyAccepted { user_id } => seq![2u8] + UserId::encoded(user_id),
            RelayMessageView::ServerAuthenticationChallenge { challenge } => seq![3u8] + AuthenticationChallenge::encoded(
                challenge,
            ),
            RelayMessageView::ProtocolError { request_id, error } => seq![4u8] + <(
                Option<MessageId>,
                ProtocolError,
            )>::encoded((request_id, error)),
            RelayMessageView::Delivery { request_id, response } => seq![100u8] + <(
                MessageId,
                Response,
            )>::encoded((request_id, response)),
            RelayMessageView::DeliveryChanged => seq![101u8],
        }
    }

    open spec fn parsed(bytes: Seq<u8>) -> Result<(RelayMessageView, nat), WireError> {
        if bytes.len() == 0 {
            Err(WireError::UnexpectedEnd)
        } else if bytes[0] == 1 {
            tagged(
                u16::parsed(bytes.skip(1)),
                |fields: u16|
                    RelayMessageView::ServerHello { version: fields },
            )
        } else if bytes[0] == 2 {
            tagged(
                UserId::parsed(bytes.skip(1)),
                |fields: UserId|
                    RelayMessageView::ServerIdentifyAccepted { user_id: fields },
            )
        } else if bytes[0] == 3 {
            tagged(
                AuthenticationChallenge::parsed(bytes.skip(1)),
                |fields: AuthenticationChallenge|
                    RelayMessageView::ServerAuthenticationChallenge { challenge: fields },
            )
        } else if bytes[0] == 4 {
            tagged(
                <(Option<MessageId>, ProtocolError)>::parsed(bytes.skip(1)),
                |fields: (Option<MessageId>, ProtocolError)|
                    RelayMessageView::ProtocolError { request_id: fields.0, error: fields.1 },
            )
        } else if bytes[0] == 100 {
            tagged(
                <(MessageId, Response)>::parsed(bytes.skip(1)),
                |fields: (MessageId, ResponseView)|
                    RelayMessageView::Delivery { request_id: fields.0, response: fields.1 },
            )
        } else if bytes[0] == 101 {
            Ok((RelayMessageView::DeliveryChanged, 1))
        } else {
            Err(WireError::Rejected)
        }
    }

    open spec fn bounded(value: RelayMessageView) -> bool {
        match value {
            RelayMessageView::ServerHello { version } => u16::bounded(version),
            RelayMessageView::ServerIdentifyAccepted { user_id } => UserId::bounded(user_id),
            RelayMessageView::ServerAuthenticationChallenge { challenge } => AuthenticationChallenge::bounded(
                challenge,
            ),
            RelayMessageView::ProtocolError { request_id, error } => <(
                Option<MessageId>,
                ProtocolError,
            )>::bounded((request_id, error)),
            RelayMessageView::Delivery { request_id, response } => <(
                MessageId,
                Response,
            )>::bounded((request_id, response)),
            RelayMessageView::DeliveryChanged => true,
        }
    }

    proof fn round_trip(value: RelayMessageView, rest: Seq<u8>) {
        match value {
            RelayMessageView::ServerHello { version } => {
                u16::round_trip(version, rest);
                behind_tag(1, u16::encoded(version), rest);
            },
            RelayMessageView::ServerIdentifyAccepted { user_id } => {
                UserId::round_trip(user_id, rest);
                behind_tag(2, UserId::encoded(user_id), rest);
            },
            RelayMessageView::ServerAuthenticationChallenge { challenge } => {
                AuthenticationChallenge::round_trip(challenge, rest);
                behind_tag(3, AuthenticationChallenge::encoded(challenge), rest);
            },
            RelayMessageView::ProtocolError { request_id, error } => {
                <(Option<MessageId>, ProtocolError)>::round_trip((request_id, error), rest);
                behind_tag(
                    4,
                    <(Option<MessageId>, ProtocolError)>::encoded((request_id, error)),
                    rest,
                );
            },
            RelayMessageView::Delivery { request_id, response } => {
                <(MessageId, Response)>::round_trip((request_id, response), rest);
                behind_tag(100, <(MessageId, Response)>::encoded((request_id, response)), rest);
            },
            RelayMessageView::DeliveryChanged => {},
        }
    }

    proof fn parsed_within(bytes: Seq<u8>) {
        if bytes.len() > 0 {
            let tag = bytes[0];
            let rest = bytes.skip(1);
            if tag == 1 {
                u16::parsed_within(rest);
            }
            if tag == 2 {
                UserId::parsed_within(rest);
            }
            if tag == 3 {
                AuthenticationChallenge::parsed_within(rest);
            }
            if tag == 4 {
                <(Option<MessageId>, ProtocolError)>::parsed_within(rest);
            }
            if tag == 100 {
                <(MessageId, Response)>::parsed_within(rest);
            }
        }
    }

    fn put(&self, out: &mut Vec<u8>) {
        match self {
            RelayMessage::ServerHello { version } => {
                1u8.put(out);
                version.put(out);
            },
            RelayMessage::ServerIdentifyAccepted { user_id } => {
                2u8.put(out);
                user_id.put(out);
            },
            RelayMessage::ServerAuthenticationChallenge { challenge } => {
                3u8.put(out);
                challenge.put(out);
            },
            RelayMessage::ProtocolError { request_id, error } => {
                4u8.put(out);
                request_id.put(out);
                error.put(out);
            },
            RelayMessage::Delivery { request_id, response } => {
                100u8.put(out);
                request_id.put(out);
                response.put(out);
            },
            RelayMessage::DeliveryChanged => {
                101u8.put(out);
            },
        }
        assert(out@ =~= old(out)@ + Self::encoded(self.deep_view()));
    }

    fn read<'a>(input: &'a [u8]) -> (result: Result<(Self, &'a [u8]), WireError>) {
        let (tag, rest) = match u8::read(input) {
            Ok(taken) => taken,
            Err(error) => return Err(error),
        };
        let ghost behind = rest@;
        if tag == 1 {
            match u16::read(rest) {
                Ok((version, end)) => {
                    proof {
                        u16::parsed_within(behind);
                        skip_behind_tag(input@, u16::parsed(behind)->Ok_0.1);
                    }
                    Ok((RelayMessage::ServerHello { version }, end))
                },
                Err(error) => Err(error),
            }
        } else if tag == 2 {
            match UserId::read(rest) {
                Ok((user_id, end)) => {
                    proof {
                        UserId::parsed_within(behind);
                        skip_behind_tag(input@, UserId::parsed(behind)->Ok_0.1);
                    }
                    Ok((RelayMessage::ServerIdentifyAccepted { user_id }, end))
                },
                Err(error) => Err(error),
            }
        } else if tag == 3 {
            match AuthenticationChallenge::read(rest) {
                Ok((challenge, end)) => {
                    proof {
                        AuthenticationChallenge::parsed_within(behind);
                        skip_behind_tag(input@, AuthenticationChallenge::parsed(behind)->Ok_0.1);
                    }
                    Ok((RelayMessage::ServerAuthenticationChallenge { challenge }, end))
                },
                Err(error) => Err(error),
            }
        } else if tag == 4 {
            match <(Option<MessageId>, ProtocolError)>::read(rest) {
                Ok(((request_id, error), end)) => {
                    proof {
                        <(Option<MessageId>, ProtocolError)>::parsed_within(behind);
                        skip_behind_tag(
                            input@,
                            <(Option<MessageId>, ProtocolError)>::parsed(behind)->Ok_0.1,
                        );
                    }
                    Ok((RelayMessage::ProtocolError { request_id, error }, end))
                },
                Err(error) => Err(error),
            }
        } else if tag == 100 {
            match <(MessageId, Response)>::read(rest) {
                Ok(((request_id, response), end)) => {
                    proof {
                        <(MessageId, Response)>::parsed_within(behind);
                        skip_behind_tag(input@, <(MessageId, Response)>::parsed(behind)->Ok_0.1);
                    }
                    Ok((RelayMessage::Delivery { request_id, response }, end))
                },
                Err(error) => Err(error),
            }
        } else if tag == 101 {
            Ok((RelayMessage::DeliveryChanged, rest))
        } else {
            Err(WireError::Rejected)
        }
    }
}

} // verus!
