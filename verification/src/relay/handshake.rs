//! How a client shows who it is.
use vstd::prelude::*;
use crate::bytes::{array_of, array_of_view};
use crate::crypto::{is_public_key, public_key_valid, signature_valid, verify_strict};
use crate::ids::{AuthenticationChallenge, Ed25519PublicKeyBytes, Ed25519SignatureBytes, UserId};
use crate::messages::{
    ClientMessage, ClientMessageKind, ClientMessageView, ProtocolError, RelayMessage,
    RelayMessageView,
};
use crate::protocol::{
    authentication_bytes, authentication_transcript, decode_message, decoded, DecodeMessageError,
    PROTOCOL_VERSION,
};
use crate::relay::enrollment::Registration;
use crate::relay::tables::StorageError;

verus! {

/// Whether a signature of the challenge shows that the client holds its key.
pub open spec fn authenticates(
    user: UserId,
    key: Ed25519PublicKeyBytes,
    challenge: AuthenticationChallenge,
    signature: Ed25519SignatureBytes,
) -> bool {
    signature_valid(
        key@,
        authentication_bytes(PROTOCOL_VERSION, user@, key@, challenge@),
        signature@,
    )
}

/// Checks the signature of a challenge.
pub fn verify_authentication_signature(
    user_id: UserId,
    public_key: &Ed25519PublicKeyBytes,
    challenge: &AuthenticationChallenge,
    signature: &Ed25519SignatureBytes,
) -> (valid: bool)
    ensures
        valid == authenticates(user_id, *public_key, *challenge, *signature),
{
    let transcript = authentication_transcript(PROTOCOL_VERSION, user_id, public_key, challenge);
    verify_strict(public_key.as_bytes(), transcript.as_slice(), signature.as_bytes())
}

/// Who a client says it is.
#[derive(Clone, Copy, Debug)]
pub struct Claim {
    pub user: UserId,
    pub key: Ed25519PublicKeyBytes,
    pub enrollment: Option<[u8; 32]>,
}

/// How far a client has come.
#[derive(Clone, Copy, Debug)]
pub enum Handshake {
    /// Nothing has come yet.
    Hello,
    /// The versions agree.
    Identify,
    /// The client has to sign the challenge.
    Respond(Claim, AuthenticationChallenge),
    /// The client holds its key; it is being registered.
    Register(Claim),
    /// The client is registered; its session is being claimed.
    Enter(UserId),
    /// The client is in.
    Done(UserId),
    /// The conversation is over.
    Closed,
}

/// Why a conversation ends before the client is in.
#[derive(Clone, Copy, Debug, PartialEq, Eq, Structural)]
pub enum HandshakeError {
    Decode(DecodeMessageError),
    Protocol(ProtocolError),
    Random,
    Storage(StorageError),
    /// The user is in already.
    AlreadyActive,
    /// Nothing was expected.
    OutOfTurn,
}

/// What to do next.
#[derive(Debug)]
pub enum HandshakeAction {
    /// Send a message, then wait for the next frame.
    Send(RelayMessage),
    /// Register the client.
    Register(Claim),
    /// Claim the user's one session.
    Enter(UserId),
    /// Send the acceptance; the client is in.
    Accept(RelayMessage),
    /// The client went away; nothing is wrong.
    Leave,
    /// Send an error, if there is one, and close.
    Fail(Option<ProtocolError>, HandshakeError),
}

/// What a [`HandshakeAction`] holds.
#[verifier::ext_equal]
pub enum HandshakeActionView {
    Send(RelayMessageView),
    Register(Claim),
    Enter(UserId),
    Accept(RelayMessageView),
    Leave,
    Fail(Option<ProtocolError>, HandshakeError),
}

impl DeepView for HandshakeAction {
    type V = HandshakeActionView;

    open spec fn deep_view(&self) -> HandshakeActionView {
        match self {
            HandshakeAction::Send(message) => HandshakeActionView::Send(message.deep_view()),
            HandshakeAction::Register(claim) => HandshakeActionView::Register(*claim),
            HandshakeAction::Enter(user) => HandshakeActionView::Enter(*user),
            HandshakeAction::Accept(message) => HandshakeActionView::Accept(message.deep_view()),
            HandshakeAction::Leave => HandshakeActionView::Leave,
            HandshakeAction::Fail(reply, error) => HandshakeActionView::Fail(*reply, *error),
        }
    }
}

/// A step of the handshake: the next state and the action.
pub type Step = (Handshake, HandshakeActionView);

/// An error that the client is told.
pub open spec fn refused(error: ProtocolError) -> Step {
    (Handshake::Closed, HandshakeActionView::Fail(Some(error), HandshakeError::Protocol(error)))
}

/// A message out of turn.
pub open spec fn unexpected(expected: ClientMessageKind, message: ClientMessageView) -> Step {
    refused(
        ProtocolError::UnexpectedMessage { expected, received: ClientMessage::kind_of(message) },
    )
}

/// The first message must be a greeting in the same version.
pub open spec fn greeted(message: ClientMessageView) -> Step {
    match message {
        ClientMessageView::ClientHello { version } => if version != PROTOCOL_VERSION {
            refused(
                ProtocolError::UnsupportedVersion {
                    supported: PROTOCOL_VERSION,
                    received: version,
                },
            )
        } else {
            (
                Handshake::Identify,
                HandshakeActionView::Send(
                    RelayMessageView::ServerHello { version: PROTOCOL_VERSION },
                ),
            )
        },
        _ => unexpected(ClientMessageKind::ClientHello, message),
    }
}

/// The second must say who the client is, under a key that is one.
pub open spec fn identified(
    message: ClientMessageView,
    challenge: Option<AuthenticationChallenge>,
) -> Step {
    match message {
        ClientMessageView::ClientIdentify { user_id, public_key, enrollment } => if !public_key_valid(
            public_key@,
        ) {
            refused(ProtocolError::InvalidPublicKey)
        } else {
            match challenge {
                None => (
                    Handshake::Closed,
                    HandshakeActionView::Fail(None, HandshakeError::Random),
                ),
                Some(challenge) => (
                    Handshake::Respond(
                        Claim {
                            user: user_id,
                            key: public_key,
                            enrollment: match enrollment {
                                Some(token) => Some(array_of::<32>(token)),
                                None => None,
                            },
                        },
                        challenge,
                    ),
                    HandshakeActionView::Send(
                        RelayMessageView::ServerAuthenticationChallenge { challenge },
                    ),
                ),
            }
        },
        _ => unexpected(ClientMessageKind::ClientIdentify, message),
    }
}

/// The third must be the signature of the challenge.
pub open spec fn responded(
    message: ClientMessageView,
    claim: Claim,
    challenge: AuthenticationChallenge,
) -> Step {
    match message {
        ClientMessageView::ClientAuthenticationResponse { signature } => if authenticates(
            claim.user,
            claim.key,
            challenge,
            signature,
        ) {
            (Handshake::Register(claim), HandshakeActionView::Register(claim))
        } else {
            refused(ProtocolError::AuthenticationFailed)
        },
        _ => unexpected(ClientMessageKind::ClientAuthenticationResponse, message),
    }
}

/// The step after a frame.
pub open spec fn after_frame(
    state: Handshake,
    frame: Seq<u8>,
    challenge: Option<AuthenticationChallenge>,
) -> Step {
    match decoded::<ClientMessage>(frame) {
        Err(error) => (
            Handshake::Closed,
            HandshakeActionView::Fail(None, HandshakeError::Decode(error)),
        ),
        Ok(message) => match state {
            Handshake::Hello => greeted(message),
            Handshake::Identify => identified(message, challenge),
            Handshake::Respond(claim, sent) => responded(message, claim, sent),
            _ => (
                Handshake::Closed,
                HandshakeActionView::Fail(None, HandshakeError::OutOfTurn),
            ),
        },
    }
}

fn refuse_with(error: ProtocolError) -> (step: (Handshake, HandshakeAction))
    ensures
        (step.0, step.1.deep_view()) == refused(error),
{
    (Handshake::Closed, HandshakeAction::Fail(Some(error), HandshakeError::Protocol(error)))
}

impl Handshake {
    /// A client has connected.
    pub fn new() -> (state: Handshake)
        ensures
            state == Handshake::Hello,
    {
        Handshake::Hello
    }

    /// A frame came. Where the client is then to be challenged, `challenge` is
    /// what it has to sign, or none where there is no randomness.
    pub fn on_frame(self, frame: &[u8], challenge: Option<AuthenticationChallenge>) -> (step: (
        Handshake,
        HandshakeAction,
    ))
        ensures
            (step.0, step.1.deep_view()) == after_frame(self, frame@, challenge),
    {
        let message = match decode_message::<ClientMessage>(frame) {
            Ok(message) => message,
            Err(error) => {
                return (
                    Handshake::Closed,
                    HandshakeAction::Fail(None, HandshakeError::Decode(error)),
                );
            },
        };
        let received = message.kind();
        match self {
            Handshake::Hello => match message {
                ClientMessage::ClientHello { version } => if version != PROTOCOL_VERSION {
                    refuse_with(
                        ProtocolError::UnsupportedVersion {
                            supported: PROTOCOL_VERSION,
                            received: version,
                        },
                    )
                } else {
                    (
                        Handshake::Identify,
                        HandshakeAction::Send(
                            RelayMessage::ServerHello { version: PROTOCOL_VERSION },
                        ),
                    )
                },
                _ => refuse_with(
                    ProtocolError::UnexpectedMessage {
                        expected: ClientMessageKind::ClientHello,
                        received,
                    },
                ),
            },
            Handshake::Identify => match message {
                ClientMessage::ClientIdentify { user_id, public_key, enrollment } => {
                    let claim = Claim { user: user_id, key: public_key, enrollment };
                    proof {
                        if let Some(token) = enrollment {
                            array_of_view(token);
                        }
                    }
                    if !is_public_key(public_key.as_bytes()) {
                        return refuse_with(ProtocolError::InvalidPublicKey);
                    }
                    match challenge {
                        None => (
                            Handshake::Closed,
                            HandshakeAction::Fail(None, HandshakeError::Random),
                        ),
                        Some(challenge) => (
                            Handshake::Respond(claim, challenge),
                            HandshakeAction::Send(
                                RelayMessage::ServerAuthenticationChallenge { challenge },
                            ),
                        ),
                    }
                },
                _ => refuse_with(
                    ProtocolError::UnexpectedMessage {
                        expected: ClientMessageKind::ClientIdentify,
                        received,
                    },
                ),
            },
            Handshake::Respond(claim, sent) => match message {
                ClientMessage::ClientAuthenticationResponse { signature } => {
                    if verify_authentication_signature(claim.user, &claim.key, &sent, &signature) {
                        (Handshake::Register(claim), HandshakeAction::Register(claim))
                    } else {
                        refuse_with(ProtocolError::AuthenticationFailed)
                    }
                },
                _ => refuse_with(
                    ProtocolError::UnexpectedMessage {
                        expected: ClientMessageKind::ClientAuthenticationResponse,
                        received,
                    },
                ),
            },
            _ => (Handshake::Closed, HandshakeAction::Fail(None, HandshakeError::OutOfTurn)),
        }
    }

    /// A frame came. A client that is to be challenged gets a random challenge.
    pub fn receive(self, frame: &[u8]) -> (step: (Handshake, HandshakeAction))
        ensures
            exists|challenge: Option<AuthenticationChallenge>|
                (step.0, step.1.deep_view()) == #[trigger] after_frame(self, frame@, challenge),
    {
        let challenge = if matches!(self, Handshake::Identify) {
            match AuthenticationChallenge::generate() {
                Ok(challenge) => Some(challenge),
                Err(_) => None,
            }
        } else {
            None
        };
        self.on_frame(frame, challenge)
    }

    /// The client closed the connection between two messages.
    pub fn on_end(self) -> (step: (Handshake, HandshakeAction))
        ensures
            (step.0, step.1.deep_view()) == (Handshake::Closed, HandshakeActionView::Leave),
    {
        (Handshake::Closed, HandshakeAction::Leave)
    }

    /// The client was registered, or was not.
    pub fn on_registered(self, result: Result<Registration, StorageError>) -> (step: (
        Handshake,
        HandshakeAction,
    ))
        ensures
            (step.0, step.1.deep_view()) == after_registration(self, result),
    {
        match self {
            Handshake::Register(claim) => match result {
                Ok(_) => (Handshake::Enter(claim.user), HandshakeAction::Enter(claim.user)),
                Err(error) => {
                    let reply = match error {
                        StorageError::IdentityKeyConflict => Some(
                            ProtocolError::IdentityKeyConflict,
                        ),
                        StorageError::EnrollmentRequired => Some(
                            ProtocolError::AuthenticationFailed,
                        ),
                        _ => None,
                    };
                    (
                        Handshake::Closed,
                        HandshakeAction::Fail(reply, HandshakeError::Storage(error)),
                    )
                },
            },
            _ => (Handshake::Closed, HandshakeAction::Fail(None, HandshakeError::OutOfTurn)),
        }
    }

    /// The user's one session was claimed, or somebody has it.
    pub fn on_entered(self, entered: bool) -> (step: (Handshake, HandshakeAction))
        ensures
            (step.0, step.1.deep_view()) == after_entry(self, entered),
    {
        match self {
            Handshake::Enter(user) => if entered {
                (
                    Handshake::Done(user),
                    HandshakeAction::Accept(RelayMessage::ServerIdentifyAccepted { user_id: user }),
                )
            } else {
                (
                    Handshake::Closed,
                    HandshakeAction::Fail(
                        Some(ProtocolError::AuthenticationFailed),
                        HandshakeError::AlreadyActive,
                    ),
                )
            },
            _ => (Handshake::Closed, HandshakeAction::Fail(None, HandshakeError::OutOfTurn)),
        }
    }
}

/// The step after a registration: what the client is told of a failure, if
/// anything.
pub open spec fn after_registration(
    state: Handshake,
    result: Result<Registration, StorageError>,
) -> Step {
    match state {
        Handshake::Register(claim) => match result {
            Ok(_) => (Handshake::Enter(claim.user), HandshakeActionView::Enter(claim.user)),
            Err(error) => (
                Handshake::Closed,
                HandshakeActionView::Fail(
                    match error {
                        StorageError::IdentityKeyConflict => Some(
                            ProtocolError::IdentityKeyConflict,
                        ),
                        StorageError::EnrollmentRequired => Some(
                            ProtocolError::AuthenticationFailed,
                        ),
                        _ => None,
                    },
                    HandshakeError::Storage(error),
                ),
            ),
        },
        _ => (Handshake::Closed, HandshakeActionView::Fail(None, HandshakeError::OutOfTurn)),
    }
}

/// The step after claiming the user's one session.
pub open spec fn after_entry(state: Handshake, entered: bool) -> Step {
    match state {
        Handshake::Enter(user) => if entered {
            (
                Handshake::Done(user),
                HandshakeActionView::Accept(
                    RelayMessageView::ServerIdentifyAccepted { user_id: user },
                ),
            )
        } else {
            (
                Handshake::Closed,
                HandshakeActionView::Fail(
                    Some(ProtocolError::AuthenticationFailed),
                    HandshakeError::AlreadyActive,
                ),
            )
        },
        _ => (Handshake::Closed, HandshakeActionView::Fail(None, HandshakeError::OutOfTurn)),
    }
}

/// Nobody is registered without having signed the challenge that was sent to
/// them, under the key that they registered with.
pub proof fn registration_needs_signature(
    state: Handshake,
    frame: Seq<u8>,
    challenge: Option<AuthenticationChallenge>,
    claim: Claim,
)
    requires
        after_frame(state, frame, challenge).1 == HandshakeActionView::Register(claim),
    ensures
        after_frame(state, frame, challenge).0 == Handshake::Register(claim),
        exists|sent: AuthenticationChallenge, signature: Ed25519SignatureBytes|
            state == Handshake::Respond(claim, sent) && decoded::<ClientMessage>(frame) == Ok::<
                ClientMessageView,
                DecodeMessageError,
            >(ClientMessageView::ClientAuthenticationResponse { signature })
                && #[trigger] authenticates(claim.user, claim.key, sent, signature),
{
    let message = decoded::<ClientMessage>(frame)->Ok_0;
    match state {
        Handshake::Respond(known, sent) => {
            let signature = message->ClientAuthenticationResponse_signature;
            assert(authenticates(claim.user, claim.key, sent, signature));
        },
        _ => {},
    }
}

/// A client has to sign exactly the challenge that was sent to it.
pub proof fn challenge_is_the_one_sent(
    state: Handshake,
    frame: Seq<u8>,
    challenge: Option<AuthenticationChallenge>,
)
    requires
        after_frame(state, frame, challenge).0 is Respond,
    ensures
        state is Identify,
        after_frame(state, frame, challenge).1 == HandshakeActionView::Send(
            RelayMessageView::ServerAuthenticationChallenge {
                challenge: after_frame(state, frame, challenge).0->Respond_1,
            },
        ),
        challenge == Some(after_frame(state, frame, challenge).0->Respond_1),
{
}

/// A client that greets in the same version, names a key, and signs the challenge
/// under it, is registered under what it said, and is let in once it is registered
/// and its user is not in already.
pub proof fn proven_client_is_accepted(
    hello: Seq<u8>,
    identify: Seq<u8>,
    response: Seq<u8>,
    claim: Claim,
    challenge: AuthenticationChallenge,
    signature: Ed25519SignatureBytes,
    how: Registration,
)
    requires
        decoded::<ClientMessage>(hello) == Ok::<ClientMessageView, DecodeMessageError>(
            ClientMessageView::ClientHello { version: PROTOCOL_VERSION },
        ),
        decoded::<ClientMessage>(identify) == Ok::<ClientMessageView, DecodeMessageError>(
            ClientMessageView::ClientIdentify {
                user_id: claim.user,
                public_key: claim.key,
                enrollment: claim.enrollment.deep_view(),
            },
        ),
        decoded::<ClientMessage>(response) == Ok::<ClientMessageView, DecodeMessageError>(
            ClientMessageView::ClientAuthenticationResponse { signature },
        ),
        public_key_valid(claim.key@),
        authenticates(claim.user, claim.key, challenge, signature),
    ensures
        after_frame(Handshake::Hello, hello, None).0 == Handshake::Identify,
        after_frame(Handshake::Identify, identify, Some(challenge)).0 == Handshake::Respond(
            claim,
            challenge,
        ),
        after_frame(Handshake::Respond(claim, challenge), response, None) == (
            Handshake::Register(claim),
            HandshakeActionView::Register(claim),
        ),
        after_registration(Handshake::Register(claim), Ok(how)).0 == Handshake::Enter(claim.user),
        after_entry(Handshake::Enter(claim.user), true) == (
            Handshake::Done(claim.user),
            HandshakeActionView::Accept(
                RelayMessageView::ServerIdentifyAccepted { user_id: claim.user },
            ),
        ),
{
    if let Some(token) = claim.enrollment {
        array_of_view(token);
    }
}

} // verus!
